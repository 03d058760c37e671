use boat::difftest::hex_to_u64;
use boat::memory_size::MemorySize;
use boat::numbers::{parse_uint, IntErrorKind};
use boat::text::{decimal_string, hex_string};

#[test]
fn decimal_and_hex_formatting() {
    assert_eq!(decimal_string(0), "0");
    assert_eq!(decimal_string(1234567890), "1234567890");
    assert_eq!(decimal_string(u64::MAX), "18446744073709551615");
    assert_eq!(hex_string(0), "0x0000000000000000");
    assert_eq!(hex_string(0xdead_beef), "0x00000000deadbeef");
    assert_eq!(hex_string(u64::MAX), format!("{:#018x}", u64::MAX));
}

#[test]
fn parse_uint_follows_from_str_radix() {
    for text in ["", "+", "-", "+12", "-12", "12a", "ff", "FF", "0", "4294967295", "4294967296", "99999999999"] {
        let ours = parse_uint(text.as_bytes(), 0, 10, u32::MAX as u64);
        let std = u32::from_str_radix(text, 10);
        assert_eq!(ours.ok(), std.as_ref().ok().map(|v| *v as u64), "{text}");
        if let Err(e) = std {
            assert_eq!(ours.unwrap_err().message(), e.to_string(), "{text}");
        }
    }
    for text in ["ff", "FF", "fG", "+ffffffffffffffff", "10000000000000000", "ffffffffffffffffg"] {
        let ours = parse_uint(text.as_bytes(), 0, 16, u64::MAX);
        let std = u64::from_str_radix(text, 16);
        assert_eq!(ours.ok(), std.as_ref().ok().copied(), "{text}");
        if let Err(e) = std {
            assert_eq!(ours.unwrap_err().message(), e.to_string(), "{text}");
        }
    }
}

#[test]
fn error_kinds_are_described_as_std_does() {
    assert_eq!(IntErrorKind::Empty.message(), "cannot parse integer from empty string");
    assert_eq!(IntErrorKind::InvalidDigit.message(), "invalid digit found in string");
    assert_eq!(IntErrorKind::PosOverflow.message(), "number too large to fit in target type");
}

#[test]
fn hex_config_values() {
    assert_eq!(hex_to_u64("0x10000000"), Ok(0x1000_0000));
    assert_eq!(hex_to_u64("0xdeadbeef"), Ok(0xdead_beef));
    assert_eq!(hex_to_u64("deadbeef"), Ok(0xdead_beef));
    assert_eq!(hex_to_u64("0x0x10"), Ok(0x10));
    assert_eq!(hex_to_u64("0x"), Err(IntErrorKind::Empty));
    assert_eq!(hex_to_u64("0xq"), Err(IntErrorKind::InvalidDigit));
    assert_eq!(hex_to_u64("0x10000000000000000"), Err(IntErrorKind::PosOverflow));
}

fn size(text: &str) -> Result<usize, String> {
    MemorySize::from_str(text).map(|m| m.as_usize())
}

#[test]
fn memory_size_decimal() {
    assert_eq!(size("1024"), Ok(1024));
    assert_eq!(size("+7"), Ok(7));
    assert_eq!(size("abc"), Err(String::from("fail converting digit abc to usize: invalid digit found in string")));
    assert_eq!(size(""), Err(String::from("fail converting digit  to usize: cannot parse integer from empty string")));
    assert_eq!(
        size("18446744073709551616"),
        Err(String::from("fail converting digit 18446744073709551616 to usize: number too large to fit in target type"))
    );
}

#[test]
fn memory_size_hex() {
    assert_eq!(size("0xa0000000"), Ok(0xa000_0000));
    assert_eq!(size("0x0x0000ffff"), Ok(0xffff));
    assert_eq!(size("0x0000000100000000"), Ok(0x1_0000_0000));
    assert_eq!(
        size("0x123"),
        Err(String::from("fail decoding hex 0x123 to usize: only support 32-bit or 64-bit memory size"))
    );
    assert_eq!(size("0xzzzzzzzz"), Err(String::from("invalid hex string 0xzzzzzzzz: invalid digit found in string")));
}

#[test]
fn memory_size_text_reads_back() {
    for v in [0usize, 9, 10, 0xa000_0000, usize::MAX] {
        let m = MemorySize::from(v);
        let text = m.to_display_string();
        assert_eq!(text, v.to_string());
        assert_eq!(size(&text), Ok(v));
        assert_eq!(m.to_usize(), v);
    }
}
