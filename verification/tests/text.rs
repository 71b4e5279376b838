use grepr::error::GrepError;
use grepr::text::{is_sentinel, join, to_decimal};

#[test]
fn sentinel_is_a_single_dash() {
    assert!(is_sentinel("-"));
    assert!(!is_sentinel(""));
    assert!(!is_sentinel("--"));
    assert!(!is_sentinel("a"));
    assert!(!is_sentinel("./-"));
}

#[test]
fn join_appends() {
    assert_eq!(join("ab", "cd"), "abcd");
    assert_eq!(join("", ""), "");
}

#[test]
fn decimal_of_small_and_large_numbers() {
    assert_eq!(to_decimal(0), "0");
    assert_eq!(to_decimal(7), "7");
    assert_eq!(to_decimal(10), "10");
    assert_eq!(to_decimal(1234567890), "1234567890");
    assert_eq!(to_decimal(usize::MAX), usize::MAX.to_string());
}

#[test]
fn messages_of_each_error() {
    let invalid = GrepError::InvalidPattern { pattern: "(".to_string() };
    assert_eq!(invalid.message(), "Invalid pattern \"(\"");
    let directory = GrepError::IsDirectory { path: "./src/".to_string() };
    assert_eq!(directory.message(), "./src/ is a directory");
    let missing = GrepError::Inaccessible {
        path: "nowhere".to_string(),
        reason: "No such file or directory (os error 2)".to_string(),
    };
    assert_eq!(missing.message(), "nowhere: No such file or directory (os error 2)");
}
