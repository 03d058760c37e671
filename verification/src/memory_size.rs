//! The emulator's memory size, as given on its command line.
use vstd::prelude::*;
use vstd::utf8::{encode_utf8, is_ascii_chars, is_ascii_chars_encode_utf8};
use crate::numbers::{int_error_text, parse_uint, parse_uint_spec, scan_digits, IntErrorKind};
use crate::text::{decimal_digit, decimal_string, decimal_text, hex_digit, hex_digits};

verus! {

/// A number of bytes of emulated memory.
#[derive(Debug, Clone, Copy)]
pub struct MemorySize(pub usize);

/// `b` without the leading `0x` pairs, as `trim_start_matches("0x")` leaves it.
pub open spec fn strip_hex_prefixes(b: Seq<u8>) -> Seq<u8>
    decreases b.len(),
{
    if b.len() >= 2 && b[0] == 48 && b[1] == 120 {
        strip_hex_prefixes(b.subrange(2, b.len() as int))
    } else {
        b
    }
}

/// The size that the text `s` gives, or the message why it gives none.
///
/// Text that starts with `0x` is hexadecimal and must have 8 or 16 digits
/// after its `0x` prefixes; other text is decimal. A 16-digit value must
/// also fit in `usize`.
pub open spec fn memory_size_from_text(s: Seq<char>) -> Result<usize, Seq<char>> {
    let b = encode_utf8(s);
    if b.len() >= 2 && b[0] == 48 && b[1] == 120 {
        let raw = strip_hex_prefixes(b);
        if raw.len() == 8 {
            match parse_uint_spec(raw, 16, 0xffff_ffff) {
                Ok(v) => Ok(v as usize),
                Err(e) => Err("invalid hex string "@ + s + ": "@ + int_error_text(e)),
            }
        } else if raw.len() == 16 {
            match parse_uint_spec(raw, 16, 0xffff_ffff_ffff_ffff) {
                Ok(v) => if v <= usize::MAX {
                    Ok(v as usize)
                } else {
                    Err("you specify a 64 bit value but your system doesn't support it"@)
                },
                Err(e) => Err("invalid hex string "@ + s + ": "@ + int_error_text(e)),
            }
        } else {
            Err("fail decoding hex "@ + s + " to usize: only support 32-bit or 64-bit memory size"@)
        }
    } else {
        match parse_uint_spec(b, 10, usize::MAX as nat) {
            Ok(v) => Ok(v as usize),
            Err(e) => Err("fail converting digit "@ + s + " to usize: "@ + int_error_text(e)),
        }
    }
}

/// The ASCII bytes of `decimal_text(v)`.
pub open spec fn decimal_bytes(v: nat) -> Seq<u8>
    decreases v,
{
    if v < 10 {
        seq![(48 + v) as u8]
    } else {
        decimal_bytes(v / 10).push((48 + v % 10) as u8)
    }
}

proof fn lemma_decimal_text_bytes(v: nat)
    ensures
        is_ascii_chars(decimal_text(v)),
        encode_utf8(decimal_text(v)) == decimal_bytes(v),
        decimal_bytes(v).len() == decimal_text(v).len(),
        forall|i: int| 0 <= i < decimal_bytes(v).len() ==> 48 <= #[trigger] decimal_bytes(v)[i] <= 57,
    decreases v,
{
    if v >= 10 {
        lemma_decimal_text_bytes(v / 10);
        is_ascii_chars_encode_utf8(decimal_text(v / 10));
    }
    let t = decimal_text(v);
    assert(is_ascii_chars(t)) by {
        if v >= 10 {
            assert forall|i: int| 0 <= i < t.len() implies '\0' <= #[trigger] t[i] <= '\u{7f}' by {
                if i < t.len() - 1 {
                    assert(t[i] == decimal_text(v / 10)[i]);
                }
            }
        }
    }
    is_ascii_chars_encode_utf8(t);
    assert(encode_utf8(t) =~= decimal_bytes(v)) by {
        if v >= 10 {
            assert forall|i: int| 0 <= i < t.len() implies encode_utf8(t)[i] == #[trigger] decimal_bytes(v)[i] by {
                if i < t.len() - 1 {
                    assert(t[i] == decimal_text(v / 10)[i]);
                    assert(decimal_bytes(v)[i] == decimal_bytes(v / 10)[i]);
                } else {
                    assert(t[i] == decimal_digit(v % 10));
                    assert((decimal_digit(v % 10) as u8) == (48 + v % 10) as u8);
                }
            }
        } else {
            assert(t[0] == decimal_digit(v));
            assert((decimal_digit(v) as u8) == (48 + v) as u8);
        }
    }
}

proof fn lemma_scan_digits_push(acc: nat, s: Seq<u8>, c: u8, radix: nat, max: nat)
    ensures
        scan_digits(acc, s.push(c), radix, max) == match scan_digits(acc, s, radix, max) {
            Ok(a) => scan_digits(a, seq![c], radix, max),
            Err(e) => Err(e),
        },
    decreases s.len(),
{
    if s.len() == 0 {
        assert(s.push(c) =~= seq![c]);
    } else {
        assert(s.push(c).drop_first() =~= s.drop_first().push(c));
        if let Some(d) = crate::numbers::digit_value(s[0], radix) {
            lemma_scan_digits_push(acc * radix + d, s.drop_first(), c, radix, max);
        }
    }
}

proof fn lemma_scan_decimal_bytes(v: nat, max: nat)
    requires
        v <= max,
    ensures
        scan_digits(0, decimal_bytes(v), 10, max) == Ok::<nat, IntErrorKind>(v),
    decreases v,
{
    reveal_with_fuel(scan_digits, 2);
    if v < 10 {
        assert(seq![(48 + v) as u8].drop_first().len() == 0);
        assert(crate::numbers::digit_value((48 + v) as u8, 10) == Some(v));
        assert(0 * 10 + v == v);
    } else {
        lemma_scan_decimal_bytes(v / 10, max);
        lemma_scan_digits_push(0, decimal_bytes(v / 10), (48 + v % 10) as u8, 10, max);
        assert(seq![(48 + v % 10) as u8].drop_first().len() == 0);
        assert(crate::numbers::digit_value((48 + v % 10) as u8, 10) == Some(v % 10));
        assert((v / 10) * 10 + v % 10 == v);
    }
}

/// What the size writes as text reads back as the same size.
pub proof fn lemma_display_then_parse(m: MemorySize)
    ensures
        memory_size_from_text(decimal_text(m.bytes() as nat)) == Ok::<usize, Seq<char>>(m.bytes()),
{
    let v = m.bytes() as nat;
    lemma_decimal_text_bytes(v);
    lemma_scan_decimal_bytes(v, usize::MAX as nat);
    let b = decimal_bytes(v);
    assert(b.len() >= 2 ==> 48 <= b[1] <= 57);
}

/// `16` to the power `n`.
pub open spec fn pow16(n: nat) -> nat
    decreases n,
{
    if n == 0 {
        1
    } else {
        16 * pow16((n - 1) as nat)
    }
}

/// The bytes of a run of ASCII characters.
spec fn ascii_bytes(c: Seq<char>) -> Seq<u8> {
    c.map_values(|ch: char| ch as u8)
}

proof fn lemma_hex_digits_are_hex(v: nat, n: nat)
    ensures
        hex_digits(v, n).len() == n,
        forall|j: int| 0 <= j < n ==> {
            let c = #[trigger] hex_digits(v, n)[j];
            '0' <= c <= '9' || 'a' <= c <= 'f'
        },
    decreases n,
{
    if n > 0 {
        lemma_hex_digits_are_hex(v / 16, (n - 1) as nat);
        let d = v % 16;
        assert(hex_digit(d) == if d < 10 { (48 + d) as char } else { (97 + d - 10) as char });
        assert forall|j: int| 0 <= j < n implies {
            let c = #[trigger] hex_digits(v, n)[j];
            '0' <= c <= '9' || 'a' <= c <= 'f'
        } by {
            if j < n - 1 {
                assert(hex_digits(v, n)[j] == hex_digits(v / 16, (n - 1) as nat)[j]);
            }
        }
    }
}

proof fn lemma_scan_hex_digits(v: nat, n: nat, max: nat)
    requires
        v < pow16(n),
        v <= max,
    ensures
        scan_digits(0, ascii_bytes(hex_digits(v, n)), 16, max) == Ok::<nat, IntErrorKind>(v),
    decreases n,
{
    reveal_with_fuel(scan_digits, 2);
    if n == 0 {
        assert(ascii_bytes(hex_digits(v, n)).len() == 0);
    } else {
        let d = v % 16;
        let c = hex_digit(d);
        assert(v / 16 < pow16((n - 1) as nat)) by (nonlinear_arith)
            requires
                v < 16 * pow16((n - 1) as nat),
        ;
        lemma_scan_hex_digits(v / 16, (n - 1) as nat, max);
        assert(ascii_bytes(hex_digits(v, n)) =~= ascii_bytes(hex_digits(v / 16, (n - 1) as nat)).push(c as u8));
        lemma_scan_digits_push(0, ascii_bytes(hex_digits(v / 16, (n - 1) as nat)), c as u8, 16, max);
        assert(seq![c as u8].drop_first().len() == 0);
        if d < 10 {
            assert((c as u8) == (48 + d) as u8);
        } else {
            assert((c as u8) == (97 + d - 10) as u8);
        }
        assert(crate::numbers::digit_value(c as u8, 16) == Some(d));
        assert((v / 16) * 16 + d == v);
    }
}

/// Text that is `0x` and the hexadecimal digits of a value, eight of them for
/// a value that fits in 32 bits or sixteen for one that fits in `usize`, reads
/// back as that value, in base 16 whatever its digits are.
pub proof fn lemma_hex_text_parses(v: usize, n: nat)
    requires
        n == 8 && v <= 0xffff_ffff || n == 16,
    ensures
        memory_size_from_text("0x"@ + hex_digits(v as nat, n)) == Ok::<usize, Seq<char>>(v),
{
    reveal_strlit("0x");
    let digits = hex_digits(v as nat, n);
    let text = "0x"@ + digits;
    lemma_hex_digits_are_hex(v as nat, n);
    assert(is_ascii_chars(text)) by {
        assert forall|i: int| 0 <= i < text.len() implies '\0' <= #[trigger] text[i] <= '\u{7f}' by {
            if i >= 2 {
                assert(text[i] == digits[i - 2]);
            }
        }
    }
    is_ascii_chars_encode_utf8(text);
    let b = encode_utf8(text);
    assert(b[0] == 48 && b[1] == 120);
    let rest = b.subrange(2, b.len() as int);
    assert(rest =~= ascii_bytes(digits)) by {
        assert forall|j: int| 0 <= j < rest.len() implies rest[j] == #[trigger] ascii_bytes(digits)[j] by {
            assert(rest[j] == b[j + 2]);
            assert(text[j + 2] == digits[j]);
        }
    }
    assert(digits[1] != 'x');
    assert(strip_hex_prefixes(rest) == rest);
    assert(strip_hex_prefixes(b) == rest);
    reveal_with_fuel(pow16, 17);
    lemma_scan_hex_digits(v as nat, n, if n == 8 { 0xffff_ffffnat } else { 0xffff_ffff_ffff_ffffnat });
    assert(rest[0] != 43);
}

impl MemorySize {
    /// The number of bytes.
    pub open spec fn bytes(self) -> usize {
        self.0
    }

    pub fn to_usize(self) -> (r: usize)
        ensures
            r == self.bytes(),
    {
        self.0
    }

    pub fn as_usize(&self) -> (r: usize)
        ensures
            r == self.bytes(),
    {
        self.0
    }

    /// The size in decimal, as `Display` writes it.
    pub fn to_display_string(&self) -> (s: String)
        ensures
            s@ == decimal_text(self.bytes() as nat),
    {
        decimal_string(self.0 as u64)
    }

    /// Reads a size from `s`: decimal, or `0x` and 8 or 16 hexadecimal digits.
    pub fn from_str(s: &str) -> (r: Result<MemorySize, String>)
        ensures
            match r {
                Ok(m) => memory_size_from_text(s@) == Ok::<usize, Seq<char>>(m.bytes()),
                Err(msg) => memory_size_from_text(s@) == Err::<usize, Seq<char>>(msg@),
            },
    {
        let b = s.as_bytes();
        let len = b.len();
        if len >= 2 && b[0] == 48 && b[1] == 120 {
            let mut start: usize = 0;
            assert(b@.subrange(0, len as int) =~= b@);
            while len - start >= 2 && b[start] == 48 && b[start + 1] == 120
                invariant
                    start <= len,
                    len == b@.len(),
                    strip_hex_prefixes(b@) == strip_hex_prefixes(b@.subrange(start as int, len as int)),
                decreases len - start,
            {
                let ghost rest = b@.subrange(start as int, len as int);
                assert(rest.subrange(2, rest.len() as int) =~= b@.subrange(start + 2, len as int));
                start = start + 2;
            }
            assert(strip_hex_prefixes(b@.subrange(start as int, len as int)) == b@.subrange(start as int, len as int));
            let digits = len - start;
            let parsed = if digits == 8 {
                parse_uint(b, start, 16, 0xffff_ffff)
            } else if digits == 16 {
                parse_uint(b, start, 16, 0xffff_ffff_ffff_ffff)
            } else {
                let mut msg = String::from_str("fail decoding hex ");
                msg.append(s);
                msg.append(" to usize: only support 32-bit or 64-bit memory size");
                return Err(msg);
            };
            match parsed {
                Ok(v) => {
                    if v > usize::MAX as u64 {
                        return Err(String::from_str("you specify a 64 bit value but your system doesn't support it"));
                    }
                    Ok(MemorySize(v as usize))
                },
                Err(e) => {
                    let mut msg = String::from_str("invalid hex string ");
                    msg.append(s);
                    msg.append(": ");
                    msg.append(e.message().as_str());
                    Err(msg)
                },
            }
        } else {
            assert(b@.subrange(0, len as int) =~= b@);
            match parse_uint(b, 0, 10, usize::MAX as u64) {
                Ok(v) => Ok(MemorySize(v as usize)),
                Err(e) => {
                    let mut msg = String::from_str("fail converting digit ");
                    msg.append(s);
                    msg.append(" to usize: ");
                    msg.append(e.message().as_str());
                    Err(msg)
                },
            }
        }
    }
}

impl From<usize> for MemorySize {
    fn from(value: usize) -> (m: Self) {
        MemorySize(value)
    }
}

impl vstd::std_specs::convert::FromSpecImpl<usize> for MemorySize {
    open spec fn obeys_from_spec() -> bool {
        true
    }

    open spec fn from_spec(v: usize) -> Self {
        MemorySize(v)
    }
}

} // verus!
