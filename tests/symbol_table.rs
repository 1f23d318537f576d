use hack_tools::symbol_table::{SymbolTable, SymbolTableError};

const PREDEFINED: [(&str, u16); 23] = [
    ("SP", 0x0),
    ("LCL", 0x1),
    ("ARG", 0x2),
    ("THIS", 0x3),
    ("THAT", 0x4),
    ("R0", 0x0),
    ("R1", 0x1),
    ("R2", 0x2),
    ("R3", 0x3),
    ("R4", 0x4),
    ("R5", 0x5),
    ("R6", 0x6),
    ("R7", 0x7),
    ("R8", 0x8),
    ("R9", 0x9),
    ("R10", 0xa),
    ("R11", 0xb),
    ("R12", 0xc),
    ("R13", 0xd),
    ("R14", 0xe),
    ("R15", 0xf),
    ("SCREEN", 0x4000),
    ("KBD", 0x6000),
];

fn inits_with_predefined_symbols() {
    let symbol_table = SymbolTable::new();
    for (alias, location) in PREDEFINED {
        assert!(symbol_table.get_addr(alias).is_some());
        assert_eq!(symbol_table.get_addr(alias).unwrap(), location);
    }
}

#[test]
fn symbol_table_it_inits_with_predefined_symbols() {
    inits_with_predefined_symbols();
}

#[test]
fn lib_it_inits_with_predefined_symbols() {
    inits_with_predefined_symbols();
}

#[test]
fn it_does_not_permit_redeclaration_of_symbols() {
    let mut symbol_table = SymbolTable::new();
    let result = symbol_table.add_alias(PREDEFINED[0].0.to_string());
    assert!(matches!(result, Err(SymbolTableError::AlreadySetErr)));
}

#[test]
fn it_does_not_permit_redecleration_of_symbols() {
    let mut symbol_table = SymbolTable::new();
    let result = symbol_table.add_alias(PREDEFINED[0].0.to_string());
    assert!(matches!(result, Err(SymbolTableError::AlreadySetErr)));
}

fn allocates_first() {
    let mut symbol_table = SymbolTable::new();
    let result = symbol_table.add_alias("test".to_string());
    assert!(matches!(result, Ok(0x0010)));
}

#[test]
fn symbol_table_it_allocates_0x0010_for_first_alias_address() {
    allocates_first();
}

#[test]
fn lib_it_allocates_0x0010_for_first_alias_address() {
    allocates_first();
}

fn allocates_incremental() {
    let mut symbol_table = SymbolTable::new();
    let result = symbol_table.add_alias("test1".to_string());
    assert!(matches!(result, Ok(0x0010)));
    let result = symbol_table.add_alias("test2".to_string());
    assert!(matches!(result, Ok(0x0011)));
    let result = symbol_table.add_alias("test3".to_string());
    assert!(matches!(result, Ok(0x0012)));
}

#[test]
fn symbol_table_it_allocates_incremental_locations_for_subsequent_aliases() {
    allocates_incremental();
}

#[test]
fn lib_it_allocates_incremental_locations_for_subsequent_aliases() {
    allocates_incremental();
}

fn returns_allocated() {
    let mut symbol_table = SymbolTable::new();
    symbol_table.add_alias("test1".to_string()).unwrap();
    assert!(matches!(symbol_table.get_addr("test1"), Some(0x0010)));
    symbol_table.add_alias("test2".to_string()).unwrap();
    assert!(matches!(symbol_table.get_addr("test1"), Some(0x0010)));
    assert!(matches!(symbol_table.get_addr("test2"), Some(0x0011)));
}

#[test]
fn symbol_table_it_returns_allocated_address_for_aliases() {
    returns_allocated();
}

#[test]
fn lib_it_returns_allocated_address_for_aliases() {
    returns_allocated();
}

fn returns_none_for_unknown() {
    let mut symbol_table = SymbolTable::new();
    assert!(matches!(symbol_table.get_addr("test1"), None));
    symbol_table.add_alias("test1".to_string()).unwrap();
    assert!(matches!(symbol_table.get_addr("test1"), Some(0x0010)));
}

#[test]
fn symbol_table_it_returns_none_for_unrecognised_alias() {
    returns_none_for_unknown();
}

#[test]
fn lib_it_returns_none_for_unrecognised_alias() {
    returns_none_for_unknown();
}

fn no_label_redeclaration() {
    let mut symbol_table = SymbolTable::new();
    symbol_table.add_label("test1".to_string(), 1).unwrap();
    assert!(matches!(
        symbol_table.add_label("test1".to_string(), 2),
        Err(SymbolTableError::AlreadySetErr)
    ));
    assert_eq!(symbol_table.get_line_no("test1").unwrap(), 1);
}

#[test]
fn symbol_table_it_does_not_permit_redecleration_of_labels() {
    no_label_redeclaration();
}

#[test]
fn lib_it_does_not_permit_redecleration_of_labels() {
    no_label_redeclaration();
}

fn sets_label_line() {
    let mut symbol_table = SymbolTable::new();
    symbol_table.add_label("test1".to_string(), 1).unwrap();
    symbol_table.add_label("test2".to_string(), 3).unwrap();
    assert_eq!(symbol_table.get_line_no("test1"), Some(1));
    assert_eq!(symbol_table.get_line_no("test2"), Some(3));
}

#[test]
fn symbol_table_it_sets_label_to_supplied_line_no() {
    sets_label_line();
}

#[test]
fn lib_it_sets_label_to_supplied_line_no() {
    sets_label_line();
}

fn keeps_labels_and_aliases_apart() {
    let mut symbol_table = SymbolTable::new();
    symbol_table.add_label("SCREEN".to_string(), 0x1).unwrap();
    assert_eq!(symbol_table.get_addr("SCREEN"), Some(0x4000));
    symbol_table.add_alias("test1".to_string()).unwrap();
    symbol_table.add_label("test1".to_string(), 0x1).unwrap();

    assert_eq!(symbol_table.get_addr("test1"), Some(0x0010));
    assert!(matches!(symbol_table.get_line_no("test1"), Some(0x1)));
}

#[test]
fn symbol_table_it_keeps_labels_and_aliases_seperate() {
    keeps_labels_and_aliases_apart();
}

#[test]
fn lib_it_keeps_labels_and_aliases_seperate() {
    keeps_labels_and_aliases_apart();
}

fn jump_bits() {
    let symbol_table = SymbolTable::new();
    assert_eq!(symbol_table.get_jmp_instr("JGT"), Some(0b001));
    assert_eq!(symbol_table.get_jmp_instr("JEQ"), Some(0b010));
    assert_eq!(symbol_table.get_jmp_instr("JGE"), Some(0b011));
    assert_eq!(symbol_table.get_jmp_instr("JLT"), Some(0b100));
    assert_eq!(symbol_table.get_jmp_instr("JNE"), Some(0b101));
    assert_eq!(symbol_table.get_jmp_instr("JLE"), Some(0b110));
    assert_eq!(symbol_table.get_jmp_instr("JMP"), Some(0b111));
}

#[test]
fn symbol_table_it_provides_bits_for_jump_instructions() {
    jump_bits();
}

#[test]
fn lib_it_provides_bits_for_jump_instructions() {
    jump_bits();
}

fn dest_bits() {
    let symbol_table = SymbolTable::new();
    assert_eq!(symbol_table.get_dest_instr("M"), Some(0b001));
    assert_eq!(symbol_table.get_dest_instr("D"), Some(0b010));
    assert_eq!(symbol_table.get_dest_instr("MD"), Some(0b011));
    assert_eq!(symbol_table.get_dest_instr("A"), Some(0b100));
    assert_eq!(symbol_table.get_dest_instr("AM"), Some(0b101));
    assert_eq!(symbol_table.get_dest_instr("AD"), Some(0b110));
    assert_eq!(symbol_table.get_dest_instr("AMD"), Some(0b111));
}

#[test]
fn symbol_table_it_provides_bits_for_dest_instructions() {
    dest_bits();
}

#[test]
fn lib_it_provides_bits_for_dest_instructions() {
    dest_bits();
}

#[test]
fn dest_bits_ignore_character_order() {
    let symbol_table = SymbolTable::new();
    for s in ["AMD", "ADM", "MAD", "MDA", "DAM", "DMA"] {
        assert_eq!(symbol_table.get_dest_instr(s), Some(0b111));
    }
    assert_eq!(symbol_table.get_dest_instr("DM"), symbol_table.get_dest_instr("MD"));
    assert_eq!(symbol_table.get_dest_instr("MA"), symbol_table.get_dest_instr("AM"));
}

#[test]
fn dest_bits_reject_unknown_or_empty() {
    let symbol_table = SymbolTable::new();
    assert_eq!(symbol_table.get_dest_instr(""), None);
    assert_eq!(symbol_table.get_dest_instr("X"), None);
    assert_eq!(symbol_table.get_dest_instr("AX"), None);
}

#[test]
fn comp_bits_cover_the_table() {
    let symbol_table = SymbolTable::new();
    assert_eq!(symbol_table.get_comp_instr("0"), Some(0b0101010));
    assert_eq!(symbol_table.get_comp_instr("A+1"), Some(0b0110111));
    assert_eq!(symbol_table.get_comp_instr("D|M"), Some(0b1010101));
    assert_eq!(symbol_table.get_comp_instr("M-D"), Some(0b1000111));
    assert_eq!(symbol_table.get_comp_instr("D&A"), Some(0));
    assert_eq!(symbol_table.get_comp_instr("A+D"), None);
    assert_eq!(symbol_table.get_jmp_instr("JXX"), None);
}
