//! Runs translated VM code, assembled, on a small Hack CPU.

use hack_tools::assembler::parse;
use hack_tools::vm_parser::Parser;
use hack_tools::writer::CodeWriter;

struct Cpu {
    rom: Vec<u16>,
    ram: Vec<u16>,
    a: u16,
    d: u16,
    pc: usize,
}

impl Cpu {
    fn new(binary: &[String]) -> Cpu {
        let rom = binary.iter().map(|l| u16::from_str_radix(l, 2).unwrap()).collect();
        Cpu { rom, ram: vec![0; 32768], a: 0, d: 0, pc: 0 }
    }

    fn step(&mut self) {
        let w = self.rom[self.pc];
        if w & 0x8000 == 0 {
            self.a = w;
            self.pc += 1;
            return;
        }
        let m = self.ram[(self.a & 0x7fff) as usize];
        let y0 = if w & 0x1000 != 0 { m } else { self.a };
        let bit = |k: u16| w & (1 << k) != 0;
        let mut x = self.d;
        let mut y = y0;
        if bit(11) {
            x = 0;
        }
        if bit(10) {
            x = !x;
        }
        if bit(9) {
            y = 0;
        }
        if bit(8) {
            y = !y;
        }
        let mut out = if bit(7) { x.wrapping_add(y) } else { x & y };
        if bit(6) {
            out = !out;
        }
        let addr = (self.a & 0x7fff) as usize;
        if bit(3) {
            self.ram[addr] = out;
        }
        if bit(4) {
            self.d = out;
        }
        if bit(5) {
            self.a = out;
        }
        let v = out as i16;
        let jump = (bit(2) && v < 0) || (bit(1) && v == 0) || (bit(0) && v > 0);
        self.pc = if jump { self.a as usize } else { self.pc + 1 };
    }
}

fn translate(lines: &[&str]) -> Vec<String> {
    let mut writer = CodeWriter::new();
    let mut parser = Parser::new(lines.iter().map(|l| l.to_string()).collect());
    while let Some(cmd) = parser.next() {
        writer.write(cmd.unwrap()).unwrap();
    }
    writer.lines().clone()
}

const SP: usize = 0;
const LCL: usize = 1;
const ARG: usize = 2;
const THIS: usize = 3;
const THAT: usize = 4;

/// Runs `call F k`, `function F 0`, `return` (with `body` inside F) from a
/// frame holding `args`, until the return has jumped back.
fn round_trip(args: &[u16], body: &[&str]) -> Cpu {
    let call = format!("call F {}", args.len());
    let mut src = vec![call.as_str(), "function F 0"];
    src.extend_from_slice(body);
    src.push("return");
    let binary = parse(&translate(&src)).unwrap();
    let last = binary.len() - 1;
    let mut cpu = Cpu::new(&binary);
    cpu.ram[LCL] = 300;
    cpu.ram[ARG] = 290;
    cpu.ram[THIS] = 3000;
    cpu.ram[THAT] = 4000;
    let mut sp = 310;
    for &v in args {
        cpu.ram[sp] = v;
        sp += 1;
    }
    cpu.ram[SP] = sp as u16;
    let mut steps = 0;
    loop {
        let at = cpu.pc;
        cpu.step();
        steps += 1;
        assert!(steps < 10_000);
        if at == last {
            break;
        }
    }
    cpu
}

#[test]
fn call_then_return_leaves_one_word_in_place_of_the_arguments() {
    for k in 0..4u16 {
        let args: Vec<u16> = (0..k).map(|i| 100 + i).collect();
        let cpu = round_trip(&args, &[]);
        let sp_before = 310 + k;
        assert_eq!(cpu.ram[SP], sp_before - k + 1);
        assert_eq!(cpu.ram[LCL], 300);
        assert_eq!(cpu.ram[ARG], 290);
        assert_eq!(cpu.ram[THIS], 3000);
        assert_eq!(cpu.ram[THAT], 4000);
    }
}

#[test]
fn call_then_return_hands_back_the_result() {
    let cpu = round_trip(&[7, 8], &["push constant 42"]);
    assert_eq!(cpu.ram[SP], 311);
    assert_eq!(cpu.ram[310], 42);
    assert_eq!(cpu.ram[LCL], 300);
    assert_eq!(cpu.ram[ARG], 290);
}

#[test]
fn return_jumps_to_the_return_label() {
    let src = ["call F 0", "function F 0", "return"];
    let code = translate(&src);
    let binary = parse(&code).unwrap();
    let ret_pos = code.iter().position(|l| l == "(ASM.F$ret.1)").unwrap();
    let ret_addr = code[..ret_pos]
        .iter()
        .filter(|l| !l.starts_with("//") && !l.starts_with('('))
        .count();
    let cpu = round_trip(&[], &[]);
    assert_eq!(cpu.pc, ret_addr);
    assert!(ret_addr < binary.len());
}

#[test]
fn comparison_results_on_the_machine() {
    let cases = [("eq", 5, 5, 0xffff), ("eq", 5, 6, 0), ("lt", 3, 9, 0xffff), ("lt", 9, 3, 0), ("gt", 9, 3, 0xffff), ("gt", 3, 3, 0)];
    for (op, x, y, expected) in cases {
        let px = format!("push constant {}", x);
        let py = format!("push constant {}", y);
        let mut src = vec![px.as_str(), py.as_str(), op];
        src.push("label STOP");
        let binary = parse(&translate(&src)).unwrap();
        let mut cpu = Cpu::new(&binary);
        cpu.ram[SP] = 256;
        while cpu.pc < binary.len() {
            cpu.step();
        }
        assert_eq!(cpu.ram[SP], 257);
        assert_eq!(cpu.ram[256], expected, "{} {} {}", op, x, y);
    }
}
