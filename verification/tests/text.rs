use minictr::path::UnixPath;
use minictr::text::{contains_word, decimal_text, display, text_of_two};

#[test]
fn numbers_are_written_in_decimal() {
    assert_eq!(decimal_text(0), "0");
    assert_eq!(decimal_text(7), "7");
    assert_eq!(decimal_text(1090), "1090");
    assert_eq!(
        decimal_text(u128::MAX),
        "340282366920938463463374607431768211455"
    );
}

#[test]
fn written_numbers_read_back() {
    for value in [0u128, 9, 10, 99, 100, 65535, u64::MAX.into()] {
        assert_eq!(decimal_text(value).parse::<u128>(), Ok(value));
    }
}

#[test]
fn texts_are_put_together_in_order() {
    assert_eq!(text_of_two("a", "b"), "ab");
    assert_eq!(text_of_two("", ""), "");
}

#[test]
fn words_stand_between_white_space() {
    assert!(contains_word("cpu io pids", "pids"));
    assert!(contains_word("pids", "pids"));
    assert!(contains_word("\tcpu\npids\n", "pids"));
    assert!(contains_word("cpu\u{a0}pids\u{3000}io", "pids"));
    assert!(!contains_word("cpupids pidsio", "pids"));
    assert!(!contains_word("", "pids"));
    assert!(!contains_word("a  b", ""));
    assert!(!contains_word("a b", "a b"));
}

#[test]
fn paths_are_shown_with_invalid_bytes_replaced() {
    assert_eq!(display(&UnixPath::from_text("/d\u{e9}/x")), "/d\u{e9}/x");
    let broken = UnixPath::new(vec![0x2f, 0xff, 0x61]);
    assert_eq!(display(&broken), "/\u{fffd}a");
}
