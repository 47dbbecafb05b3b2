use historia::text::{parse_life_delta, parse_selection, read_i32_or_zero, read_usize_or_99};

#[test]
fn life_delta_values() {
    assert_eq!(parse_life_delta("-10"), -10);
    assert_eq!(parse_life_delta("+3"), 3);
    assert_eq!(parse_life_delta("  -7 \t"), -7);
    assert_eq!(parse_life_delta("2147483647"), 2147483647);
    assert_eq!(parse_life_delta("-2147483648"), -2147483648);
    assert_eq!(parse_life_delta("2147483648"), 0);
    assert_eq!(parse_life_delta(""), 0);
    assert_eq!(parse_life_delta("abc"), 0);
    assert_eq!(parse_life_delta("-"), 0);
    assert_eq!(parse_life_delta("1 2"), 0);
}

#[test]
fn trimmed_reads_take_no_white_space() {
    assert_eq!(read_i32_or_zero(" 5"), 0);
    assert_eq!(read_i32_or_zero("007"), 7);
    assert_eq!(read_usize_or_99("5 "), 99);
    assert_eq!(read_usize_or_99("12"), 12);
}

#[test]
fn selection_values() {
    assert_eq!(parse_selection("2\n"), 2);
    assert_eq!(parse_selection("  +1  "), 1);
    assert_eq!(parse_selection("0"), 0);
    assert_eq!(parse_selection("-1"), 99);
    assert_eq!(parse_selection("dos"), 99);
    assert_eq!(parse_selection(""), 99);
    assert_eq!(parse_selection("99999999999999999999999"), 99);
}
