use tsconcat::directive::{collect_directives, parse_log_directives, DirectiveError};
use tsconcat::level::Level;

fn strings(v: &[&str]) -> Vec<String> {
    v.iter().map(|s| s.to_string()).collect()
}

#[test]
fn valid_directive_gives_target_and_level() {
    let r = collect_directives(&strings(&["app.net.http:debug", "core:WARN"]), &vec![true, true]);
    assert_eq!(
        r,
        Ok(vec![("app::net::http".to_string(), Level::Debug), ("core".to_string(), Level::Warn)])
    );
}

#[test]
fn last_colon_splits() {
    let r = collect_directives(&strings(&["a:b.c:off"]), &vec![true]);
    assert_eq!(r, Ok(vec![("a:b::c".to_string(), Level::Off)]));
}

#[test]
fn invalid_directives_are_all_listed() {
    let r = collect_directives(&strings(&["x", "a:INFO", "y:TRACE"]), &vec![false, true, false]);
    assert_eq!(r, Err(DirectiveError::Invalid(strings(&["x", "y:TRACE"]))));
}

#[test]
fn directive_without_colon_is_invalid() {
    let r = collect_directives(&strings(&["nocolon"]), &vec![true]);
    assert_eq!(r, Err(DirectiveError::Invalid(strings(&["nocolon"]))));
}

#[test]
fn unknown_level_stops_reading() {
    let r = collect_directives(&strings(&["bad", "a:loud", "b:nope"]), &vec![false, true, true]);
    assert_eq!(r, Err(DirectiveError::UnknownLevel("loud".to_string())));
}

#[test]
fn no_directives() {
    assert_eq!(collect_directives(&vec![], &vec![]), Ok(vec![]));
    assert_eq!(parse_log_directives(&vec![]), Ok(vec![]));
}

#[test]
fn pattern_refuses_plain_directive() {
    let r = parse_log_directives(&strings(&["rsipe:DEBUG"]));
    assert_eq!(r, Err(DirectiveError::Invalid(strings(&["rsipe:DEBUG"]))));
}

#[test]
fn pattern_accepts_its_literal_level_list() {
    let r = parse_log_directives(&strings(&["a.b:TRACE,DEBUG,INFO,WARN,ERROR,OFF"]));
    assert_eq!(
        r,
        Err(DirectiveError::UnknownLevel("TRACE,DEBUG,INFO,WARN,ERROR,OFF".to_string()))
    );
}
