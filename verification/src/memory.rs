//! Little-endian byte-level access to the emulated physical memory.
use vstd::prelude::*;

verus! {

/// `256` raised to the power `n`.
pub open spec fn pow256(n: nat) -> nat
    decreases n,
{
    if n == 0 {
        1
    } else {
        256 * pow256((n - 1) as nat)
    }
}

/// The number that the bytes `s` encode, least significant byte first.
pub open spec fn le_value(s: Seq<u8>) -> nat
    decreases s.len(),
{
    if s.len() == 0 {
        0
    } else {
        s[0] as nat + 256 * le_value(s.drop_first())
    }
}

/// The `n` least significant bytes of `v`, least significant byte first.
pub open spec fn le_bytes(v: nat, n: nat) -> Seq<u8> {
    Seq::new(n, |i: int| ((v / pow256(i as nat)) % 256) as u8)
}

/// `s` with the bytes from `addr` on replaced by `bytes`.
pub open spec fn update_bytes(s: Seq<u8>, addr: int, bytes: Seq<u8>) -> Seq<u8> {
    Seq::new(s.len(), |i: int| if addr <= i < addr + bytes.len() { bytes[i - addr] } else { s[i] })
}

pub proof fn lemma_pow256_positive(n: nat)
    ensures
        pow256(n) > 0,
    decreases n,
{
    if n > 0 {
        lemma_pow256_positive((n - 1) as nat);
    }
}

pub proof fn lemma_pow256_monotonic(m: nat, n: nat)
    requires
        m <= n,
    ensures
        pow256(m) <= pow256(n),
    decreases n,
{
    if m < n {
        lemma_pow256_monotonic(m, (n - 1) as nat);
        lemma_pow256_positive((n - 1) as nat);
    }
}

/// A value of `s.len()` bytes is below `256` to the power of that length.
pub proof fn lemma_le_value_bound(s: Seq<u8>)
    ensures
        le_value(s) < pow256(s.len()),
    decreases s.len(),
{
    if s.len() > 0 {
        lemma_le_value_bound(s.drop_first());
        assert(s.drop_first().len() == s.len() - 1);
    }
}

/// Encoding `v` in `n` bytes and decoding the bytes again gives `v` modulo `256^n`.
pub proof fn lemma_le_value_of_le_bytes(v: nat, n: nat)
    ensures
        le_value(le_bytes(v, n)) == v % pow256(n),
    decreases n,
{
    lemma_pow256_positive(n);
    if n == 0 {
        assert(le_bytes(v, 0).len() == 0);
    } else {
        let s = le_bytes(v, n);
        let rest = le_bytes(v / 256, (n - 1) as nat);
        assert forall|i: int| 0 <= i < n - 1 implies #[trigger] s.drop_first()[i] == rest[i] by {
            lemma_pow256_positive(i as nat);
            vstd::arithmetic::div_mod::lemma_div_denominator(v as int, 256, pow256(i as nat) as int);
        }
        assert(s.drop_first() =~= rest);
        lemma_le_value_of_le_bytes(v / 256, (n - 1) as nat);
        lemma_pow256_positive((n - 1) as nat);
        vstd::arithmetic::div_mod::lemma_mod_breakdown(v as int, 256, pow256((n - 1) as nat) as int);
        assert(pow256(0) == 1);
        assert(v / 1 == v);
        assert(s[0] == (v % 256) as u8);
    }
}

/// The value of two byte strings one after the other: the second one's
/// value counts from `256` to the power of the first one's length on.
pub proof fn lemma_le_value_concat(x: Seq<u8>, y: Seq<u8>)
    ensures
        le_value(x + y) == le_value(x) + pow256(x.len()) * le_value(y),
    decreases x.len(),
{
    if x.len() == 0 {
        assert(x + y =~= y);
        assert(pow256(0) == 1);
    } else {
        assert((x + y).drop_first() =~= x.drop_first() + y);
        lemma_le_value_concat(x.drop_first(), y);
        let a = le_value(x.drop_first());
        let p = pow256(x.drop_first().len());
        let b = le_value(y);
        assert(256 * (a + p * b) == 256 * a + (256 * p) * b) by (nonlinear_arith);
        assert((x + y)[0] == x[0]);
        assert(pow256(x.len()) == 256 * p);
        assert(le_value(x) == x[0] + 256 * a);
        assert(le_value(x + y) == x[0] + 256 * le_value(x.drop_first() + y));
        assert(pow256(x.len()) * b == (256 * p) * b);
    }
}

/// Reads `width` bytes of `mem` from `addr` on as a little-endian number.
pub fn read_le(mem: &Vec<u8>, address: u64, width: u64) -> (v: u64)
    requires
        width <= 8,
        address + width <= mem@.len(),
    ensures
        v == le_value(mem@.subrange(address as int, address + width)),
{
    let len = mem.len();
    let addr = address as usize;
    let width = width as usize;
    let mut v: u64 = 0;
    let mut i: usize = width;
    while i > 0
        invariant
            i <= width <= 8,
            addr + width <= mem.len(),
            v == le_value(mem@.subrange(addr + i, addr + width)),
        decreases i,
    {
        i = i - 1;
        let ghost s = mem@.subrange(addr + i, addr + width);
        assert(s.drop_first() =~= mem@.subrange(addr + i + 1, addr + width));
        proof {
            lemma_le_value_bound(s.drop_first());
            lemma_pow256_monotonic(s.drop_first().len(), 7);
            reveal_with_fuel(pow256, 8);
        }
        v = mem[addr + i] as u64 + 256 * v;
    }
    v
}

/// Writes the `width` least significant bytes of `value` into `mem` from `addr` on.
pub fn write_le(mem: &mut Vec<u8>, address: u64, value: u64, width: u64)
    requires
        width <= 8,
        address + width <= old(mem)@.len(),
    ensures
        final(mem)@ == update_bytes(old(mem)@, address as int, le_bytes(value as nat, width as nat)),
{
    let len = mem.len();
    let addr = address as usize;
    let width = width as usize;
    let ghost bytes = le_bytes(value as nat, width as nat);
    let mut rest: u64 = value;
    let mut i: usize = 0;
    assert(pow256(0) == 1);
    assert(value as nat / 1 == value as nat);
    while i < width
        invariant
            i <= width <= 8,
            addr + width <= mem.len(),
            mem@.len() == old(mem)@.len(),
            bytes == le_bytes(value as nat, width as nat),
            rest as nat == value as nat / pow256(i as nat),
            forall|j: int| 0 <= j < mem@.len() ==> #[trigger] mem@[j] == (
                if addr <= j < addr + i { bytes[j - addr] } else { old(mem)@[j] }
            ),
        decreases width - i,
    {
        proof {
            lemma_pow256_positive(i as nat);
            vstd::arithmetic::div_mod::lemma_div_denominator(value as int, pow256(i as nat) as int, 256);
            assert(pow256((i + 1) as nat) == pow256(i as nat) * 256) by(nonlinear_arith)
                requires pow256((i + 1) as nat) == 256 * pow256(i as nat);
        }
        assert(bytes[i as int] == (rest % 256) as u8);
        mem.set(addr + i, (rest % 256) as u8);
        rest = rest / 256;
        i = i + 1;
    }
    assert(mem@ =~= update_bytes(old(mem)@, addr as int, bytes));
}

/// A little-endian read of the bytes just written gives back the value written,
/// cut to the width written.
pub proof fn lemma_read_after_write(mem: Seq<u8>, addr: int, value: u64, width: nat)
    requires
        0 <= addr,
        addr + width <= mem.len(),
    ensures
        le_value(update_bytes(mem, addr, le_bytes(value as nat, width)).subrange(addr, addr + width))
            == value as nat % pow256(width),
{
    let written = update_bytes(mem, addr, le_bytes(value as nat, width));
    assert(written.subrange(addr, addr + width) =~= le_bytes(value as nat, width));
    lemma_le_value_of_le_bytes(value as nat, width);
}

} // verus!
