use tsconcat::col::{merge_step, MergeError};

fn lines(v: &[&str]) -> Vec<String> {
    v.iter().map(|s| s.to_string()).collect()
}

fn run(files: Vec<Vec<String>>) -> (String, Result<(), MergeError>) {
    let mut out = String::new();
    let r = tsconcat::col::concat(files, &mut out);
    (out, r)
}

#[test]
fn test_concat() {
    let files = vec![
        lines(&["1 data1_file1", "2 data2_file1"]),
        lines(&["1 data1_file2", "2 data2_file2"]),
    ];
    let mut buffer = String::new();
    tsconcat::col::concat(files, &mut buffer).unwrap();
    let expected_output = "1 data1_file1 data1_file2\n2 data2_file1 data2_file2\n";
    assert_eq!(buffer, expected_output);
}

#[test]
fn empty_input_writes_nothing() {
    let (out, r) = run(vec![]);
    assert_eq!(r, Ok(()));
    assert_eq!(out, "");
}

#[test]
fn empty_files_write_nothing() {
    let (out, r) = run(vec![vec![], vec![]]);
    assert_eq!(r, Ok(()));
    assert_eq!(out, "");
}

#[test]
fn single_file_passthrough() {
    let (out, r) = run(vec![lines(&["1 a", "2 b"])]);
    assert_eq!(r, Ok(()));
    assert_eq!(out, "1 a\n2 b\n");
}

#[test]
fn length_mismatch_keeps_earlier_records() {
    let (out, r) = run(vec![lines(&["1 a", "2 b"]), lines(&["1 c"])]);
    assert_eq!(r, Err(MergeError::LineCountMismatch));
    assert_eq!(out, "1 a c\n");
}

#[test]
fn length_mismatch_shorter_first() {
    let (out, r) = run(vec![lines(&["1 a"]), lines(&["1 c", "2 d"])]);
    assert_eq!(r, Err(MergeError::LineCountMismatch));
    assert_eq!(out, "1 a c\n");
}

#[test]
fn timestamp_mismatch_at_first_step() {
    let (out, r) = run(vec![lines(&["1 x"]), lines(&["2 y"])]);
    assert_eq!(r, Err(MergeError::TimestampMismatch));
    assert_eq!(out, "");
}

#[test]
fn timestamp_mismatch_after_a_record() {
    let (out, r) = run(vec![lines(&["1 x", "2 x"]), lines(&["1 y", "3 y"])]);
    assert_eq!(r, Err(MergeError::TimestampMismatch));
    assert_eq!(out, "1 x y\n");
}

#[test]
fn malformed_blank_line() {
    let (out, r) = run(vec![lines(&["1 a"]), lines(&[" \t "])]);
    assert_eq!(r, Err(MergeError::MalformedLine(" \t ".to_string())));
    assert_eq!(out, "");
}

#[test]
fn malformed_empty_line() {
    let (out, r) = run(vec![lines(&["1 a", ""]), lines(&["1 b", "2 c"])]);
    assert_eq!(r, Err(MergeError::MalformedLine(String::new())));
    assert_eq!(out, "1 a b\n");
}

#[test]
fn malformed_reported_before_timestamp_mismatch() {
    let (_, r) = run(vec![lines(&["1 a"]), lines(&["2 b"]), lines(&[""])]);
    assert_eq!(r, Err(MergeError::MalformedLine(String::new())));
}

#[test]
fn merge_is_idempotent() {
    let files = vec![lines(&["1 a", "2 b"]), lines(&["1 c", "2 d"])];
    let (out1, r1) = run(files.clone());
    let (out2, r2) = run(files);
    assert_eq!(r1, r2);
    assert_eq!(out1, out2);
}

#[test]
fn payloads_follow_input_order() {
    let a = lines(&["7 zz"]);
    let b = lines(&["7 aa"]);
    let (out1, _) = run(vec![a.clone(), b.clone()]);
    let (out2, _) = run(vec![b, a]);
    assert_eq!(out1, "7 zz aa\n");
    assert_eq!(out2, "7 aa zz\n");
}

#[test]
fn whitespace_is_collapsed() {
    let (out, r) = run(vec![lines(&["  1\t a   b  "]), lines(&["1 c"])]);
    assert_eq!(r, Ok(()));
    assert_eq!(out, "1 a b c\n");
}

#[test]
fn timestamp_only_line_keeps_separator() {
    let (out, r) = run(vec![lines(&["5"]), lines(&["5 x"])]);
    assert_eq!(r, Ok(()));
    assert_eq!(out, "5  x\n");
}

#[test]
fn unicode_whitespace_separates() {
    let (out, r) = run(vec![lines(&["1\u{3000}a\u{a0}b"])]);
    assert_eq!(r, Ok(()));
    assert_eq!(out, "1 a b\n");
}

#[test]
fn appends_to_existing_output() {
    let mut out = String::from("head\n");
    let r = tsconcat::col::concat(vec![lines(&["1 a"])], &mut out);
    assert_eq!(r, Ok(()));
    assert_eq!(out, "head\n1 a\n");
}

#[test]
fn step_all_exhausted_ends() {
    assert_eq!(merge_step(&vec![None, None]), Ok(None));
    assert_eq!(merge_step(&vec![]), Ok(None));
}

#[test]
fn step_some_exhausted_fails() {
    let row = vec![Some("1 a".to_string()), None];
    assert_eq!(merge_step(&row), Err(MergeError::LineCountMismatch));
}

#[test]
fn step_emits_record() {
    let row = vec![Some("9 a b".to_string()), Some("9 c".to_string())];
    assert_eq!(merge_step(&row), Ok(Some("9 a b c\n".to_string())));
}
