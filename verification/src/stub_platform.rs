//! The fixed answers of the stand-in platform that the Sail model is linked
//! against when no emulator stands behind it: every register resets to
//! zero, no exception is ever raised, and memory reads as zero.
use vstd::prelude::*;

verus! {

/// The Sail model's unit value, as the stand-in platform passes it.
pub type Unit = i32;

pub const UNIT: Unit = 0;

/// The instruction word the stand-in platform answers every fetch with.
pub const FIXED_INSTRUCTION: u64 = 0x10b51063;

/// Every fetch gets the same instruction word.
pub fn inst_fetch(_pc: u64) -> (r: u64)
    ensures
        r == FIXED_INSTRUCTION,
{
    FIXED_INSTRUCTION
}

/// Memory reads as zero.
pub fn readmem(_virtaddress: u64, _rd_val: u64, _satp: u64) -> (r: u64)
    ensures
        r == 0,
{
    0x0000000000000000
}

/// Memory writes are dropped.
pub fn writemem(_virtaddress: u64, _data: u64, _bytes: u64, _satp: u64) -> (r: Unit)
    ensures
        r == UNIT,
{
    UNIT
}

/// Fences need no work.
pub fn fence_i(_pred: u16, _succ: u16) -> (r: Unit)
    ensures
        r == UNIT,
{
    UNIT
}

pub fn exception_raised(_u: Unit) -> (r: bool)
    ensures
        !r,
{
    false
}

pub fn get_exception(_u: Unit) -> (r: u64)
    ensures
        r == 0,
{
    0x0000
}

/// No machine interrupt is pending.
pub fn get_mip(_u: Unit) -> (r: u64)
    ensures
        r == 0,
{
    0x0000
}

/// No supervisor interrupt is pending.
pub fn get_sip(_u: Unit) -> (r: u64)
    ensures
        r == 0,
{
    0x0000
}

/// The platform never asks for a reset.
pub fn is_reset(_u: Unit) -> (r: bool)
    ensures
        !r,
{
    false
}

/// The value `x0` holds after reset.
pub fn get_resetval_x0(_u: Unit) -> (r: u64)
    ensures
        r == 0,
{
    0
}

/// The value `x1` holds after reset.
pub fn get_resetval_x1(_u: Unit) -> (r: u64)
    ensures
        r == 0,
{
    0
}

/// The value `x2` holds after reset.
pub fn get_resetval_x2(_u: Unit) -> (r: u64)
    ensures
        r == 0,
{
    0
}

/// The value `x3` holds after reset.
pub fn get_resetval_x3(_u: Unit) -> (r: u64)
    ensures
        r == 0,
{
    0
}

/// The value `x4` holds after reset.
pub fn get_resetval_x4(_u: Unit) -> (r: u64)
    ensures
        r == 0,
{
    0
}

/// The value `x5` holds after reset.
pub fn get_resetval_x5(_u: Unit) -> (r: u64)
    ensures
        r == 0,
{
    0
}

/// The value `x6` holds after reset.
pub fn get_resetval_x6(_u: Unit) -> (r: u64)
    ensures
        r == 0,
{
    0
}

/// The value `x7` holds after reset.
pub fn get_resetval_x7(_u: Unit) -> (r: u64)
    ensures
        r == 0,
{
    0
}

/// The value `x8` holds after reset.
pub fn get_resetval_x8(_u: Unit) -> (r: u64)
    ensures
        r == 0,
{
    0
}

/// The value `x9` holds after reset.
pub fn get_resetval_x9(_u: Unit) -> (r: u64)
    ensures
        r == 0,
{
    0
}

/// The value `x10` holds after reset.
pub fn get_resetval_x10(_u: Unit) -> (r: u64)
    ensures
        r == 0,
{
    0
}

/// The value `x11` holds after reset.
pub fn get_resetval_x11(_u: Unit) -> (r: u64)
    ensures
        r == 0,
{
    0
}

/// The value `x12` holds after reset.
pub fn get_resetval_x12(_u: Unit) -> (r: u64)
    ensures
        r == 0,
{
    0
}

/// The value `x13` holds after reset.
pub fn get_resetval_x13(_u: Unit) -> (r: u64)
    ensures
        r == 0,
{
    0
}

/// The value `x14` holds after reset.
pub fn get_resetval_x14(_u: Unit) -> (r: u64)
    ensures
        r == 0,
{
    0
}

/// The value `x15` holds after reset.
pub fn get_resetval_x15(_u: Unit) -> (r: u64)
    ensures
        r == 0,
{
    0
}

/// The value `x16` holds after reset.
pub fn get_resetval_x16(_u: Unit) -> (r: u64)
    ensures
        r == 0,
{
    0
}

/// The value `x17` holds after reset.
pub fn get_resetval_x17(_u: Unit) -> (r: u64)
    ensures
        r == 0,
{
    0
}

/// The value `x18` holds after reset.
pub fn get_resetval_x18(_u: Unit) -> (r: u64)
    ensures
        r == 0,
{
    0
}

/// The value `x19` holds after reset.
pub fn get_resetval_x19(_u: Unit) -> (r: u64)
    ensures
        r == 0,
{
    0
}

/// The value `x20` holds after reset.
pub fn get_resetval_x20(_u: Unit) -> (r: u64)
    ensures
        r == 0,
{
    0
}

/// The value `x21` holds after reset.
pub fn get_resetval_x21(_u: Unit) -> (r: u64)
    ensures
        r == 0,
{
    0
}

/// The value `x22` holds after reset.
pub fn get_resetval_x22(_u: Unit) -> (r: u64)
    ensures
        r == 0,
{
    0
}

/// The value `x23` holds after reset.
pub fn get_resetval_x23(_u: Unit) -> (r: u64)
    ensures
        r == 0,
{
    0
}

/// The value `x24` holds after reset.
pub fn get_resetval_x24(_u: Unit) -> (r: u64)
    ensures
        r == 0,
{
    0
}

/// The value `x25` holds after reset.
pub fn get_resetval_x25(_u: Unit) -> (r: u64)
    ensures
        r == 0,
{
    0
}

/// The value `x26` holds after reset.
pub fn get_resetval_x26(_u: Unit) -> (r: u64)
    ensures
        r == 0,
{
    0
}

/// The value `x27` holds after reset.
pub fn get_resetval_x27(_u: Unit) -> (r: u64)
    ensures
        r == 0,
{
    0
}

/// The value `x28` holds after reset.
pub fn get_resetval_x28(_u: Unit) -> (r: u64)
    ensures
        r == 0,
{
    0
}

/// The value `x29` holds after reset.
pub fn get_resetval_x29(_u: Unit) -> (r: u64)
    ensures
        r == 0,
{
    0
}

/// The value `x30` holds after reset.
pub fn get_resetval_x30(_u: Unit) -> (r: u64)
    ensures
        r == 0,
{
    0
}

/// The value `x31` holds after reset.
pub fn get_resetval_x31(_u: Unit) -> (r: u64)
    ensures
        r == 0,
{
    0
}

/// The value `mie` holds after reset.
pub fn get_resetval_mie(_u: Unit) -> (r: u64)
    ensures
        r == 0,
{
    0
}

/// The value `mip` holds after reset.
pub fn get_resetval_mip(_u: Unit) -> (r: u64)
    ensures
        r == 0,
{
    0
}

/// The value `mideleg` holds after reset.
pub fn get_resetval_mideleg(_u: Unit) -> (r: u64)
    ensures
        r == 0,
{
    0
}

/// The value `mstatus` holds after reset.
pub fn get_resetval_mstatus(_u: Unit) -> (r: u64)
    ensures
        r == 0,
{
    0
}

/// The value `mtvec` holds after reset.
pub fn get_resetval_mtvec(_u: Unit) -> (r: u64)
    ensures
        r == 0,
{
    0
}

/// The value `mcause` holds after reset.
pub fn get_resetval_mcause(_u: Unit) -> (r: u64)
    ensures
        r == 0,
{
    0
}

/// The value `menvcfg` holds after reset.
pub fn get_resetval_menvcfg(_u: Unit) -> (r: u64)
    ensures
        r == 0,
{
    0
}

/// The value `senvcfg` holds after reset.
pub fn get_resetval_senvcfg(_u: Unit) -> (r: u64)
    ensures
        r == 0,
{
    0
}

/// The value `satp` holds after reset.
pub fn get_resetval_satp(_u: Unit) -> (r: u64)
    ensures
        r == 0,
{
    0
}

/// The value `misa` holds after reset.
pub fn get_resetval_misa(_u: Unit) -> (r: u64)
    ensures
        r == 0,
{
    0
}

/// The value `mtval` holds after reset.
pub fn get_resetval_mtval(_u: Unit) -> (r: u64)
    ensures
        r == 0,
{
    0
}

/// The value `mepc` holds after reset.
pub fn get_resetval_mepc(_u: Unit) -> (r: u64)
    ensures
        r == 0,
{
    0
}

/// The value `stvec` holds after reset.
pub fn get_resetval_stvec(_u: Unit) -> (r: u64)
    ensures
        r == 0,
{
    0
}

/// The value `sepc` holds after reset.
pub fn get_resetval_sepc(_u: Unit) -> (r: u64)
    ensures
        r == 0,
{
    0
}

/// The value `scause` holds after reset.
pub fn get_resetval_scause(_u: Unit) -> (r: u64)
    ensures
        r == 0,
{
    0
}

/// The value `stval` holds after reset.
pub fn get_resetval_stval(_u: Unit) -> (r: u64)
    ensures
        r == 0,
{
    0
}

/// The value `medeleg` holds after reset.
pub fn get_resetval_medeleg(_u: Unit) -> (r: u64)
    ensures
        r == 0,
{
    0
}

} // verus!
