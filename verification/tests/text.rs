use axiom_profiler::text::{
    bytes_eq, copy_range, is_word, join_tokens, parse_decimal, parse_hexadecimal, parse_number,
    split_line, to_owned_bytes,
};

fn words(list: &[&str]) -> Vec<Vec<u8>> {
    list.iter().map(|w| w.as_bytes().to_vec()).collect()
}

#[test]
fn split_gives_the_pieces_between_single_spaces() {
    assert_eq!(split_line(b"[mk-app] #1 f", b' '), words(&["[mk-app]", "#1", "f"]));
    assert_eq!(split_line(b"a  b", b' '), words(&["a", "", "b"]));
    assert_eq!(split_line(b"a ", b' '), words(&["a", ""]));
    assert_eq!(split_line(b" a", b' '), words(&["", "a"]));
}

#[test]
fn split_of_an_empty_line_is_one_empty_piece() {
    assert_eq!(split_line(b"", b' '), words(&[""]));
}

#[test]
fn split_then_join_gives_the_line_back() {
    let line = b"one two  three ";
    let parts = split_line(line, b' ');
    assert_eq!(join_tokens(&parts, 0, parts.len(), b' '), line.to_vec());
}

#[test]
fn join_puts_one_delimiter_between_pieces() {
    let parts = words(&["x", "1", "2", "3"]);
    assert_eq!(join_tokens(&parts, 1, 4, b' '), b"1 2 3".to_vec());
    assert_eq!(join_tokens(&parts, 1, 2, b' '), b"1".to_vec());
    assert_eq!(join_tokens(&parts, 2, 2, b' '), Vec::<u8>::new());
}

#[test]
fn decimal_numbers_are_read() {
    assert_eq!(parse_decimal(b"0"), Some(0));
    assert_eq!(parse_decimal(b"123"), Some(123));
    assert_eq!(parse_decimal(b"007"), Some(7));
}

#[test]
fn decimal_refuses_what_is_no_run_of_digits() {
    assert_eq!(parse_decimal(b""), None);
    assert_eq!(parse_decimal(b"12a"), None);
    assert_eq!(parse_decimal(b"+5"), None);
    assert_eq!(parse_decimal(b"-5"), None);
    assert_eq!(parse_decimal(b" 5"), None);
    assert_eq!(parse_decimal(b"ff"), None);
}

#[test]
fn decimal_refuses_a_number_that_overflows() {
    let largest = format!("{}", usize::MAX);
    assert_eq!(parse_decimal(largest.as_bytes()), Some(usize::MAX));
    let too_large = format!("{}0", usize::MAX);
    assert_eq!(parse_decimal(too_large.as_bytes()), None);
    assert_eq!(parse_number(b"256", 10, 255), None);
    assert_eq!(parse_number(b"255", 10, 255), Some(255));
    assert_eq!(parse_number(b"18446744073709551616", 10, u64::MAX), None);
}

#[test]
fn hexadecimal_numbers_are_read_with_and_without_prefix() {
    assert_eq!(parse_hexadecimal(b"0x1f"), Some(31));
    assert_eq!(parse_hexadecimal(b"1F"), Some(31));
    assert_eq!(parse_hexadecimal(b"0"), Some(0));
    assert_eq!(parse_hexadecimal(b"0xdeadBEEF"), Some(0xdead_beef));
    assert_eq!(parse_hexadecimal(b"0xffffffffffffffff"), Some(u64::MAX));
}

#[test]
fn hexadecimal_refuses_bad_digits_and_overflow() {
    assert_eq!(parse_hexadecimal(b""), None);
    assert_eq!(parse_hexadecimal(b"0x"), None);
    assert_eq!(parse_hexadecimal(b"0xg"), None);
    assert_eq!(parse_hexadecimal(b"x1"), None);
    assert_eq!(parse_hexadecimal(b"0x10000000000000000"), None);
}

#[test]
fn byte_strings_are_compared_and_copied() {
    assert!(bytes_eq(b"abc", b"abc"));
    assert!(!bytes_eq(b"abc", b"abd"));
    assert!(!bytes_eq(b"abc", b"ab"));
    assert!(bytes_eq(b"", b""));
    assert!(is_word(b"[instance]", "[instance]"));
    assert!(!is_word(b"[instance", "[instance]"));
    assert_eq!(to_owned_bytes(b"xyz"), b"xyz".to_vec());
    assert_eq!(copy_range(b"(#12", 1, 4), b"#12".to_vec());
    assert_eq!(copy_range(b"abc", 1, 1), Vec::<u8>::new());
}
