use boat::stub_platform::{
    exception_raised, fence_i, get_exception, get_mip, get_sip, inst_fetch, is_reset, readmem, writemem, UNIT, get_resetval_x0, get_resetval_x1, get_resetval_x2, get_resetval_x3, get_resetval_x4, get_resetval_x5, get_resetval_x6, get_resetval_x7, get_resetval_x8, get_resetval_x9, get_resetval_x10, get_resetval_x11, get_resetval_x12, get_resetval_x13, get_resetval_x14, get_resetval_x15, get_resetval_x16, get_resetval_x17, get_resetval_x18, get_resetval_x19, get_resetval_x20, get_resetval_x21, get_resetval_x22, get_resetval_x23, get_resetval_x24, get_resetval_x25, get_resetval_x26, get_resetval_x27, get_resetval_x28, get_resetval_x29, get_resetval_x30, get_resetval_x31, get_resetval_mie, get_resetval_mip, get_resetval_mideleg, get_resetval_mstatus, get_resetval_mtvec, get_resetval_mcause, get_resetval_menvcfg, get_resetval_senvcfg, get_resetval_satp, get_resetval_misa, get_resetval_mtval, get_resetval_mepc, get_resetval_stvec, get_resetval_sepc, get_resetval_scause, get_resetval_stval, get_resetval_medeleg,
};

#[test]
fn stub_platform_answers() {
    assert_eq!(inst_fetch(0x8000_0000), 0x10b51063);
    assert_eq!(readmem(1, 2, 3), 0);
    assert_eq!(writemem(1, 2, 3, 4), UNIT);
    assert_eq!(fence_i(1, 2), UNIT);
    assert!(!exception_raised(UNIT));
    assert_eq!(get_exception(UNIT), 0);
    assert_eq!(get_mip(UNIT), 0);
    assert_eq!(get_sip(UNIT), 0);
    assert!(!is_reset(UNIT));
}

#[test]
fn registers_reset_to_zero() {
    let gprs = [
        get_resetval_x0, get_resetval_x1, get_resetval_x2, get_resetval_x3, get_resetval_x4,
        get_resetval_x5, get_resetval_x6, get_resetval_x7, get_resetval_x8, get_resetval_x9,
        get_resetval_x10, get_resetval_x11, get_resetval_x12, get_resetval_x13, get_resetval_x14,
        get_resetval_x15, get_resetval_x16, get_resetval_x17, get_resetval_x18, get_resetval_x19,
        get_resetval_x20, get_resetval_x21, get_resetval_x22, get_resetval_x23, get_resetval_x24,
        get_resetval_x25, get_resetval_x26, get_resetval_x27, get_resetval_x28, get_resetval_x29,
        get_resetval_x30, get_resetval_x31,
    ];
    let csrs = [
        get_resetval_mie, get_resetval_mip, get_resetval_mideleg, get_resetval_mstatus,
        get_resetval_mtvec, get_resetval_mcause, get_resetval_menvcfg, get_resetval_senvcfg,
        get_resetval_satp, get_resetval_misa, get_resetval_mtval, get_resetval_mepc,
        get_resetval_stvec, get_resetval_sepc, get_resetval_scause, get_resetval_stval,
        get_resetval_medeleg,
    ];
    for f in gprs.iter().chain(csrs.iter()) {
        assert_eq!(f(UNIT), 0);
    }
}
