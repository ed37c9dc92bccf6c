use gtkdownloadbar::decimal::{decimal_bytes, parse_u64_bytes};
use gtkdownloadbar::{bytes_on_disk, format_state_line, sum_state_file, StateFileError};

#[test]
fn parse_like_from_str() {
    assert_eq!(parse_u64_bytes(b"123"), Some(123));
    assert_eq!(parse_u64_bytes(b"+5"), Some(5));
    assert_eq!(parse_u64_bytes(b"007"), Some(7));
    assert_eq!(parse_u64_bytes(b""), None);
    assert_eq!(parse_u64_bytes(b"+"), None);
    assert_eq!(parse_u64_bytes(b"-1"), None);
    assert_eq!(parse_u64_bytes(b" 1"), None);
    assert_eq!(parse_u64_bytes(b"18446744073709551615"), Some(u64::MAX));
    assert_eq!(parse_u64_bytes(b"18446744073709551616"), None);
    for text in ["0", "42", "+9", "99999999999999999999", "1a", "-0"] {
        assert_eq!(parse_u64_bytes(text.as_bytes()), text.parse::<u64>().ok());
    }
}

#[test]
fn decimal_rendering() {
    assert_eq!(decimal_bytes(0), b"0".to_vec());
    assert_eq!(decimal_bytes(1234), b"1234".to_vec());
    assert_eq!(decimal_bytes(u64::MAX), u64::MAX.to_string().into_bytes());
}

#[test]
fn state_file_sums_byte_counts() {
    assert_eq!(sum_state_file(b"100:0\n200:100\n"), Ok(300));
    assert_eq!(sum_state_file(b"5:0\r\n7:5"), Ok(12));
    assert_eq!(sum_state_file(b"42\n"), Ok(42));
    assert_eq!(sum_state_file(b""), Ok(0));
}

#[test]
fn state_file_errors() {
    assert_eq!(sum_state_file(b"abc:1\n"), Err(StateFileError::InvalidNumber));
    assert_eq!(sum_state_file(b"\n"), Err(StateFileError::InvalidNumber));
    assert_eq!(sum_state_file(b"1:\xff\n2:0\n"), Err(StateFileError::InvalidUtf8));
    assert_eq!(sum_state_file(b"x:0\n1:\xff\n"), Err(StateFileError::InvalidNumber));
    assert_eq!(
        sum_state_file(b"18446744073709551615:0\n1:0\n"),
        Err(StateFileError::Overflow)
    );
}

#[test]
fn state_lines_read_back() {
    let mut text = String::new();
    text.push_str(&format_state_line(512000, 0));
    text.push_str(&format_state_line(512000, 512000));
    text.push_str(&format_state_line(17, 1024000));
    assert_eq!(format_state_line(17, 1024000), "17:1024000\n");
    assert_eq!(sum_state_file(text.as_bytes()), Ok(1024017));
}

#[test]
fn bytes_on_disk_prefers_state_file() {
    assert_eq!(bytes_on_disk(Some(b"10:0\n"), Some(99)), Ok(Some(10)));
    assert_eq!(bytes_on_disk(None, Some(99)), Ok(Some(99)));
    assert_eq!(bytes_on_disk(None, None), Ok(None));
    assert_eq!(bytes_on_disk(Some(b"z\n"), Some(99)), Err(StateFileError::InvalidNumber));
}
