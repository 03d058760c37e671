//! Writing numbers as text, as the `{}` and `{:#018x}` formats do.
use vstd::prelude::*;

verus! {

/// `String::push`.
#[verifier::external_body]
pub(crate) fn push_char(s: &mut String, c: char)
    ensures
        final(s)@ == old(s)@.push(c),
{
    s.push(c);
}

/// The lowercase hexadecimal digit for `d`, which is below 16.
pub open spec fn hex_digit(d: nat) -> char {
    if d < 10 {
        (48 + d) as char
    } else {
        (97 + d - 10) as char
    }
}

/// The decimal digit for `d`, which is below 10.
pub open spec fn decimal_digit(d: nat) -> char {
    (48 + d) as char
}

/// The `n` lowest hexadecimal digits of `v`, most significant first.
pub open spec fn hex_digits(v: nat, n: nat) -> Seq<char>
    decreases n,
{
    if n == 0 {
        Seq::empty()
    } else {
        hex_digits(v / 16, (n - 1) as nat).push(hex_digit(v % 16))
    }
}

/// `v` as `{:#018x}` writes a 64-bit value: `0x` and sixteen digits.
pub open spec fn hex_text(v: u64) -> Seq<char> {
    "0x"@ + hex_digits(v as nat, 16)
}

/// The decimal digits of `v`, most significant first, without leading zeros.
pub open spec fn decimal_text(v: nat) -> Seq<char>
    decreases v,
{
    if v < 10 {
        seq![decimal_digit(v)]
    } else {
        decimal_text(v / 10).push(decimal_digit(v % 10))
    }
}

fn push_hex_digits(s: &mut String, v: u64, n: u64)
    ensures
        final(s)@ == old(s)@ + hex_digits(v as nat, n as nat),
    decreases n,
{
    if n > 0 {
        push_hex_digits(s, v / 16, n - 1);
        let d = (v % 16) as u8;
        let c = if d < 10 { (48 + d) as char } else { (97 + d - 10) as char };
        push_char(s, c);
    }
    assert(old(s)@ + hex_digits(v as nat, n as nat) =~= final(s)@);
}

/// Appends `v` as `{:#018x}` writes it.
pub fn push_hex(s: &mut String, v: u64)
    ensures
        final(s)@ == old(s)@ + hex_text(v),
{
    s.append("0x");
    push_hex_digits(s, v, 16);
    assert(final(s)@ =~= old(s)@ + hex_text(v));
}

/// Appends the decimal digits of `v`.
pub fn push_decimal(s: &mut String, v: u64)
    ensures
        final(s)@ == old(s)@ + decimal_text(v as nat),
    decreases v,
{
    if v >= 10 {
        push_decimal(s, v / 10);
    }
    let d = (v % 10) as u8;
    push_char(s, (48 + d) as char);
    assert(final(s)@ =~= old(s)@ + decimal_text(v as nat));
}

/// `v` in decimal, as `{}` writes it.
pub fn decimal_string(v: u64) -> (s: String)
    ensures
        s@ == decimal_text(v as nat),
{
    let mut s = String::new();
    push_decimal(&mut s, v);
    assert(s@ =~= decimal_text(v as nat));
    s
}

/// `v` as `{:#018x}` writes it.
pub fn hex_string(v: u64) -> (s: String)
    ensures
        s@ == hex_text(v),
{
    let mut s = String::new();
    push_hex(&mut s, v);
    assert(s@ =~= hex_text(v));
    s
}

} // verus!
