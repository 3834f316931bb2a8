use tsconcat::text::{is_space, split_line};

#[test]
fn split_plain_line() {
    assert_eq!(
        split_line("12:00 alpha beta"),
        Some(("12:00".to_string(), "alpha beta".to_string()))
    );
}

#[test]
fn split_collapses_runs() {
    assert_eq!(
        split_line("\t t  x \t y  "),
        Some(("t".to_string(), "x y".to_string()))
    );
}

#[test]
fn split_timestamp_only() {
    assert_eq!(split_line("t"), Some(("t".to_string(), String::new())));
    assert_eq!(split_line(" t  "), Some(("t".to_string(), String::new())));
}

#[test]
fn split_blank_is_none() {
    assert_eq!(split_line(""), None);
    assert_eq!(split_line(" \t\r\n"), None);
    assert_eq!(split_line("\u{2003}\u{3000}"), None);
}

#[test]
fn space_matches_std() {
    for u in 0u32..0x3100 {
        if let Some(c) = char::from_u32(u) {
            assert_eq!(is_space(c), c.is_whitespace(), "{:?}", c);
        }
    }
}
