//! Reading unsigned integers from text, the way `from_str_radix` of the
//! standard library does it.
use vstd::prelude::*;

verus! {

/// Why text is not an unsigned integer.
#[derive(Clone, Copy, Debug, PartialEq, Eq, Structural)]
pub enum IntErrorKind {
    /// There is no text.
    Empty,
    /// A character is not a digit of the radix.
    InvalidDigit,
    /// The number is above the largest value allowed.
    PosOverflow,
}

/// The text with which the standard library describes each error.
pub open spec fn int_error_text(kind: IntErrorKind) -> Seq<char> {
    match kind {
        IntErrorKind::Empty => "cannot parse integer from empty string"@,
        IntErrorKind::InvalidDigit => "invalid digit found in string"@,
        IntErrorKind::PosOverflow => "number too large to fit in target type"@,
    }
}

impl IntErrorKind {
    /// The error's description, as the standard library writes it.
    pub fn message(self) -> (s: String)
        ensures
            s@ == int_error_text(self),
    {
        match self {
            IntErrorKind::Empty => String::from_str("cannot parse integer from empty string"),
            IntErrorKind::InvalidDigit => String::from_str("invalid digit found in string"),
            IntErrorKind::PosOverflow => String::from_str("number too large to fit in target type"),
        }
    }
}

/// The value of the ASCII digit `c` in base `radix`, if it is one.
pub open spec fn digit_value(c: u8, radix: nat) -> Option<nat> {
    let v: int = if 48 <= c <= 57 {
        c - 48
    } else if 97 <= c <= 122 {
        c - 97 + 10
    } else if 65 <= c <= 90 {
        c - 65 + 10
    } else {
        radix as int
    };
    if v < radix { Some(v as nat) } else { None }
}

/// Reads the digits `s` after the digits already read, whose value is `acc`,
/// left to right: the first character that is no digit, or the first digit
/// after which the value exceeds `max`, decides the error.
pub open spec fn scan_digits(acc: nat, s: Seq<u8>, radix: nat, max: nat) -> Result<nat, IntErrorKind>
    decreases s.len(),
{
    if s.len() == 0 {
        Ok(acc)
    } else {
        match digit_value(s[0], radix) {
            None => Err(IntErrorKind::InvalidDigit),
            Some(d) => if acc * radix + d > max {
                Err(IntErrorKind::PosOverflow)
            } else {
                scan_digits(acc * radix + d, s.drop_first(), radix, max)
            },
        }
    }
}

/// The unsigned number that `s` spells in base `radix`, at most `max`: an
/// optional `+` and then one or more digits.
pub open spec fn parse_uint_spec(s: Seq<u8>, radix: nat, max: nat) -> Result<nat, IntErrorKind> {
    if s.len() == 0 {
        Err(IntErrorKind::Empty)
    } else if s.len() == 1 && (s[0] == 43 || s[0] == 45) {
        Err(IntErrorKind::InvalidDigit)
    } else if s[0] == 43 {
        scan_digits(0, s.drop_first(), radix, max)
    } else {
        scan_digits(0, s, radix, max)
    }
}

fn digit_value_exec(c: u8, radix: u64) -> (r: Option<u64>)
    requires
        radix <= 36,
    ensures
        r matches Some(v) ==> digit_value(c, radix as nat) == Some(v as nat),
        r is None ==> digit_value(c, radix as nat) is None,
{
    let v: u64 = if 48 <= c && c <= 57 {
        (c - 48) as u64
    } else if 97 <= c && c <= 122 {
        (c - 97 + 10) as u64
    } else if 65 <= c && c <= 90 {
        (c - 65 + 10) as u64
    } else {
        radix
    };
    if v < radix { Some(v) } else { None }
}

/// Reads `s[start..]` as an unsigned number in base `radix` no larger than
/// `max`, as `from_str_radix` does for an unsigned type whose largest value
/// is `max`.
pub fn parse_uint(s: &[u8], start: usize, radix: u64, max: u64) -> (r: Result<u64, IntErrorKind>)
    requires
        start <= s@.len(),
        2 <= radix <= 36,
    ensures
        match r {
            Ok(v) => parse_uint_spec(s@.subrange(start as int, s@.len() as int), radix as nat, max as nat)
                == Ok::<nat, IntErrorKind>(v as nat),
            Err(e) => parse_uint_spec(s@.subrange(start as int, s@.len() as int), radix as nat, max as nat)
                == Err::<nat, IntErrorKind>(e),
        },
        r matches Ok(v) ==> v <= max,
{
    let len = s.len();
    let ghost text = s@.subrange(start as int, len as int);
    if start == len {
        return Err(IntErrorKind::Empty);
    }
    if start + 1 == len && (s[start] == 43 || s[start] == 45) {
        return Err(IntErrorKind::InvalidDigit);
    }
    let mut i: usize = start;
    if s[start] == 43 {
        i = start + 1;
        assert(text.drop_first() =~= s@.subrange(i as int, len as int));
    } else {
        assert(text =~= s@.subrange(i as int, len as int));
    }
    let mut acc: u64 = 0;
    while i < len
        invariant
            start <= i <= len,
            len == s@.len(),
            2 <= radix <= 36,
            acc <= max,
            text == s@.subrange(start as int, len as int),
            parse_uint_spec(text, radix as nat, max as nat)
                == scan_digits(acc as nat, s@.subrange(i as int, len as int), radix as nat, max as nat),
        decreases len - i,
    {
        let ghost rest = s@.subrange(i as int, len as int);
        assert(rest.drop_first() =~= s@.subrange(i + 1, len as int));
        let d = match digit_value_exec(s[i], radix) {
            Some(d) => d,
            None => return Err(IntErrorKind::InvalidDigit),
        };
        assert(acc * radix <= 0xffff_ffff_ffff_ffff * 36) by (nonlinear_arith)
            requires
                acc <= 0xffff_ffff_ffff_ffff,
                radix <= 36,
        ;
        let next: u128 = acc as u128 * radix as u128 + d as u128;
        if next > max as u128 {
            return Err(IntErrorKind::PosOverflow);
        }
        acc = next as u64;
        i = i + 1;
    }
    assert(s@.subrange(i as int, len as int).len() == 0);
    Ok(acc)
}

} // verus!
