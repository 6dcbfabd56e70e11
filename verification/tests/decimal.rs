use learn_cli::decimal::{chars_of, format_i32, format_u64, format_usize, parse_i32};

#[test]
fn numbers_are_written_as_display_writes_them() {
    for v in [0, 7, 10, 42, 999, -1, -10, 2147483647, -2147483648] {
        assert_eq!(format_i32(v), v.to_string());
    }
    assert_eq!(format_u64(u64::MAX), u64::MAX.to_string());
    assert_eq!(format_usize(0), "0");
    assert_eq!(format_usize(1234), "1234");
}

#[test]
fn numbers_are_read_as_parse_reads_them() {
    for s in ["0", "7", "+7", "-7", "007", "-0", "2147483647", "-2147483648", "2147483648",
        "-2147483649", "", "+", "-", "1a", " 1", "1 ", "99999999999", "٣"] {
        assert_eq!(parse_i32(s), s.parse::<i32>().ok(), "text {:?}", s);
    }
}

#[test]
fn written_numbers_read_back() {
    for v in [-1000, -1, 0, 1, 9, 10, 123456, i32::MAX, i32::MIN] {
        assert_eq!(parse_i32(&format_i32(v)), Some(v));
    }
}

#[test]
fn characters_are_listed() {
    assert_eq!(chars_of("héllo"), vec!['h', 'é', 'l', 'l', 'o']);
    assert_eq!(chars_of(""), Vec::<char>::new());
}
