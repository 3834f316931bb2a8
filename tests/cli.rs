use tsconcat::cli::{split_log_directives, Actions, Args};

fn args(color: bool, no_color: bool, log: Option<Vec<&str>>, action: Option<Actions>) -> Args {
    Args {
        color,
        no_color,
        log_time: false,
        verbose: 0,
        log: log.map(|v| v.iter().map(|s| s.to_string()).collect()),
        action,
    }
}

#[test]
fn directives_split_trim_and_drop_empty() {
    let input = vec![" a:INFO , b:DEBUG,,".to_string(), "".to_string(), "c:OFF".to_string()];
    assert_eq!(
        split_log_directives(&input),
        vec!["a:INFO".to_string(), "b:DEBUG".to_string(), "c:OFF".to_string()]
    );
}

#[test]
fn directives_of_blank_arguments() {
    let input = vec![" , \t ,".to_string()];
    assert!(split_log_directives(&input).is_empty());
    assert!(split_log_directives(&vec![]).is_empty());
}

#[test]
fn directives_keep_inner_spaces() {
    let input = vec!["\u{3000}x y\t".to_string()];
    assert_eq!(split_log_directives(&input), vec!["x y".to_string()]);
}

#[test]
fn log_directives_absent() {
    assert!(args(false, false, None, None).log_directives().is_empty());
    let a = args(false, false, Some(vec!["m:WARN,n:INFO"]), None);
    assert_eq!(a.log_directives(), vec!["m:WARN".to_string(), "n:INFO".to_string()]);
}

#[test]
fn color_flags() {
    assert_eq!(args(true, false, None, None).color_override(), Ok(Some(true)));
    assert_eq!(args(false, true, None, None).color_override(), Ok(Some(false)));
    assert_eq!(args(false, false, None, None).color_override(), Ok(None));
    assert!(args(true, true, None, None).color_override().is_err());
}

#[test]
fn files_from_action() {
    let files = vec!["a.txt".to_string(), "b.txt".to_string()];
    let a = args(false, false, None, Some(Actions::Concat { files: Some(files.clone()) }));
    assert_eq!(a.into_files(), Ok(files));
    let a = args(false, false, None, Some(Actions::Concat { files: None }));
    assert_eq!(a.into_files(), Ok(vec![]));
    assert!(args(false, false, None, None).into_files().is_err());
}
