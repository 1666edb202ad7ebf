use netcounters::counter::{read, READ_BUDGET};

fn content(text: &str) -> Option<Vec<u8>> {
    Some(text.as_bytes().to_vec())
}

#[test]
fn read_parses_a_kernel_counter_line() {
    assert_eq!(read(&content("12345\n")), 12345);
}

#[test]
fn read_of_a_missing_file_is_zero() {
    assert_eq!(read(&None), 0);
}

#[test]
fn read_of_content_without_leading_digit_is_zero() {
    assert_eq!(read(&content("abc")), 0);
    assert_eq!(read(&content("\n")), 0);
    assert_eq!(read(&content(" 42")), 0);
    assert_eq!(read(&content("-1")), 0);
    assert_eq!(read(&content("x123")), 0);
}

#[test]
fn read_of_an_empty_file_is_zero() {
    assert_eq!(read(&content("")), 0);
}

#[test]
fn read_stops_at_the_first_other_byte() {
    assert_eq!(read(&content("12a34")), 12);
    assert_eq!(read(&content("7 8 9")), 7);
    assert_eq!(read(&content("100\n200\n")), 100);
}

#[test]
fn read_takes_only_ascii_digits() {
    // '/' comes just before '0' and ':' just after '9'.
    assert_eq!(read(&content("5/")), 5);
    assert_eq!(read(&content("5:")), 5);
    assert_eq!(read(&content("/5")), 0);
    assert_eq!(read(&content(":5")), 0);
}

#[test]
fn read_accepts_content_without_a_newline() {
    assert_eq!(read(&content("0")), 0);
    assert_eq!(read(&content("9")), 9);
    assert_eq!(read(&content("4096")), 4096);
}

#[test]
fn read_ignores_leading_zeros() {
    assert_eq!(read(&content("007\n")), 7);
    assert_eq!(read(&content("0000000000")), 0);
}

#[test]
fn read_is_exact_up_to_the_largest_counter() {
    assert_eq!(read(&content("18446744073709551615\n")), u64::MAX);
    assert_eq!(read(&content("9999999999999999999\n")), 9_999_999_999_999_999_999);
}

#[test]
fn read_wraps_past_the_largest_counter() {
    assert_eq!(read(&content("18446744073709551616\n")), 0);
    assert_eq!(read(&content("18446744073709551617\n")), 1);
    assert_eq!(read(&content("36893488147419103232\n")), 0);
}

#[test]
fn read_budget_is_thirty_bytes() {
    assert_eq!(READ_BUDGET, 30);
}

#[test]
fn read_looks_at_no_byte_past_the_budget() {
    let mut text = "0".repeat(29);
    text.push('1');
    assert_eq!(text.len(), 30);
    assert_eq!(read(&content(&text)), 1);

    let mut text = "0".repeat(30);
    text.push('1');
    assert_eq!(text.len(), 31);
    assert_eq!(read(&content(&text)), 0);
}

#[test]
fn read_of_thirty_digits_is_their_value_modulo_two_to_the_64() {
    let mut text = String::from("1");
    text.push_str(&"0".repeat(30));
    // Only "1" and 29 zeros are seen: ten to the 29th.
    let expected = (10u128.pow(29) % (1u128 << 64)) as u64;
    assert_eq!(expected, 7_886_392_056_514_347_008);
    assert_eq!(read(&content(&text)), expected);
}

#[test]
fn read_gives_back_what_the_kernel_wrote() {
    let values = [
        0u64,
        1,
        9,
        10,
        99,
        100,
        12345,
        4_294_967_295,
        4_294_967_296,
        999_999_999_999_999_999,
        1_000_000_000_000_000_000,
        9_999_999_999_999_999_999,
        10_000_000_000_000_000_000,
        u64::MAX - 1,
        u64::MAX,
    ];
    for value in values {
        assert_eq!(read(&content(&format!("{}\n", value))), value);
        assert_eq!(read(&content(&format!("{}", value))), value);
        assert_eq!(read(&content(&format!("{} packets", value))), value);
    }
}
