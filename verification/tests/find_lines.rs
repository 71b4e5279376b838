use grepr::lines::{read_lines, select_lines};
use grepr::find_lines;
use regex::{Regex, RegexBuilder};

#[test]
fn test_find_lines() {
    let text = b"Lorem\nIpsum\r\nDOLOR";

    // Pattern _or_ should match the one line, "Lorem"
    let re1 = Regex::new("or").unwrap();
    let matches = find_lines(text, &re1, false);
    assert_eq!(matches.len(), 1);
    assert_eq!(matches, vec!["Lorem\n"]);

    // When inverted, the function should match the other two lines
    let matches = find_lines(text, &re1, true);
    assert_eq!(matches.len(), 2);
    assert_eq!(matches, vec!["Ipsum\r\n", "DOLOR"]);

    // This regex will be case-insensitive
    let re2 = RegexBuilder::new("or").case_insensitive(true).build().unwrap();

    // The two lines "Lorem" and "DOLOR" should match
    let matches = find_lines(text, &re2, false);
    assert_eq!(matches.len(), 2);
    assert_eq!(matches, vec!["Lorem\n", "DOLOR"]);

    // When inverted, the one remaining line should match
    let matches = find_lines(text, &re2, true);
    assert_eq!(matches.len(), 1);
    assert_eq!(matches, vec!["Ipsum\r\n"]);
}

#[test]
fn empty_content_has_no_lines() {
    let any = Regex::new("").unwrap();
    assert!(read_lines(b"").is_empty());
    assert!(find_lines(b"", &any, false).is_empty());
    assert!(find_lines(b"", &any, true).is_empty());
}

#[test]
fn lines_keep_their_terminators() {
    assert_eq!(read_lines(b"a\nb\r\nc"), vec!["a\n", "b\r\n", "c"]);
    assert_eq!(read_lines(b"a\n"), vec!["a\n"]);
    assert_eq!(read_lines(b"\n\n"), vec!["\n", "\n"]);
    assert_eq!(read_lines(b"no terminator"), vec!["no terminator"]);
    assert_eq!(read_lines(b"\r\n\rx"), vec!["\r\n", "\rx"]);
}

#[test]
fn lines_are_read_as_utf8() {
    let content = "gr\u{fc}n\n\u{65e5}\u{672c}\n".as_bytes();
    assert_eq!(read_lines(content), vec!["gr\u{fc}n\n", "\u{65e5}\u{672c}\n"]);
}

#[test]
fn reading_stops_at_a_line_that_is_not_utf8() {
    let content = b"one\ntwo\n\xff\xfe\nfour\n";
    assert_eq!(read_lines(content), vec!["one\n", "two\n"]);
    let any = Regex::new("o").unwrap();
    assert_eq!(find_lines(content, &any, false), vec!["one\n", "two\n"]);
    assert!(read_lines(b"\xc3").is_empty());
    assert_eq!(read_lines(b"ok\n\xc3\n"), vec!["ok\n"]);
}

#[test]
fn pattern_that_matches_the_empty_string_selects_every_line() {
    let empty = Regex::new("").unwrap();
    let text = b"Lorem\nIpsum\r\nDOLOR";
    assert_eq!(find_lines(text, &empty, false), vec!["Lorem\n", "Ipsum\r\n", "DOLOR"]);
    assert!(find_lines(text, &empty, true).is_empty());
}

#[test]
fn a_selection_and_its_inverse_share_out_the_lines() {
    let content = b"alpha\nbeta\nalpha\ngamma\n\ndelta";
    let lines = read_lines(content);
    let pattern = Regex::new("al|mm").unwrap();
    let direct = find_lines(content, &pattern, false);
    let inverse = find_lines(content, &pattern, true);
    assert_eq!(direct, vec!["alpha\n", "alpha\n", "gamma\n"]);
    assert_eq!(inverse, vec!["beta\n", "\n", "delta"]);
    assert_eq!(direct.len() + inverse.len(), lines.len());
    for line in &lines {
        let here = direct.iter().filter(|kept| *kept == line).count();
        let there = inverse.iter().filter(|kept| *kept == line).count();
        let read = lines.iter().filter(|other| *other == line).count();
        assert_eq!(here + there, read);
        assert!(here == 0 || there == 0);
    }
}

#[test]
fn select_lines_keeps_the_order() {
    let lines: Vec<String> = vec!["b1\n".to_string(), "a\n".to_string(), "b2\n".to_string()];
    let pattern = Regex::new("^b").unwrap();
    assert_eq!(select_lines(&lines, &pattern, false), vec!["b1\n", "b2\n"]);
    assert_eq!(select_lines(&lines, &pattern, true), vec!["a\n"]);
}

#[test]
fn the_pattern_sees_the_terminator() {
    let ends_with_r = Regex::new("r$").unwrap();
    assert!(find_lines(b"bar\n", &ends_with_r, false).is_empty());
    assert_eq!(find_lines(b"bar\nbar", &ends_with_r, false), vec!["bar"]);
    let carriage_return = Regex::new("\r").unwrap();
    assert_eq!(find_lines(b"a\r\nb\n", &carriage_return, false), vec!["a\r\n"]);
}
