use hack_tools::reg_mgr::{RegMgr, RegMgrError};

#[test]
fn it_generates_error_for_negative_length() {
    let mgr = RegMgr::new(2, 1);
    assert!(mgr.is_err())
}

#[test]
fn it_generates_register_for_one_register_item() {
    let mut mgr = RegMgr::new(0, 1).unwrap();
    let reg = mgr.next().unwrap();
    assert_eq!(reg.to_string(), "R0".to_owned());
}

#[test]
fn it_generates_register_for_entire_range() {
    let mut mgr = RegMgr::new(0, 9).unwrap();
    let mut regs = Vec::new();
    for i in 0..=9 {
        let next = mgr.next();
        assert!(next.is_ok());
        let next = next.unwrap();
        assert_eq!(next.to_string(), format!("R{}", i));
        regs.push(next);
    }
}

#[test]
fn it_reuses_released_regs() {
    let mut mgr = RegMgr::new(0, 9).unwrap();
    for _ in 0..=9 {
        let next = mgr.next();
        assert!(next.is_ok());
        let next = next.unwrap();
        assert_eq!(next.to_string(), "R0".to_string());
        mgr.release(next);
    }
}

#[test]
fn it_raises_an_error_when_no_more_regs_available() {
    let mut mgr = RegMgr::new(0, 9).unwrap();
    let mut regs = Vec::new();
    for i in 0..=10 {
        let next = mgr.next();
        if i > 9 {
            assert!(next.is_err())
        } else {
            regs.push(next);
        }
    }
}

#[test]
fn invalid_range_names_its_bounds() {
    assert_eq!(RegMgr::new(15, 13).err(), Some(RegMgrError::InvalidRange("15:13".to_string())));
}

#[test]
fn scratch_registers_are_leased_in_order() {
    let mut mgr = RegMgr::new(13, 15).unwrap();
    let a = mgr.next().unwrap();
    let b = mgr.next().unwrap();
    assert_eq!(a.to_string(), "R13");
    assert_eq!(b.to_string(), "R14");
    mgr.release(a);
    assert_eq!(mgr.next().unwrap().to_string(), "R13");
    assert_eq!(mgr.next().unwrap().to_string(), "R15");
    assert_eq!(mgr.next().err(), Some(RegMgrError::NoFreeTmpSpace));
}
