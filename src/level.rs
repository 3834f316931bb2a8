use vstd::prelude::*;

verus! {

/// How much of the log is shown, from everything (`Trace`) to nothing (`Off`).
#[derive(Clone, Copy, Debug, PartialEq, Eq, Structural)]
pub enum Level {
    Trace,
    Debug,
    Info,
    Warn,
    Error,
    Off,
}

/// The level that a lower-case name stands for.
pub open spec fn level_named(s: Seq<char>) -> Option<Level> {
    if s == "trace"@ {
        Some(Level::Trace)
    } else if s == "debug"@ {
        Some(Level::Debug)
    } else if s == "info"@ {
        Some(Level::Info)
    } else if s == "warn"@ {
        Some(Level::Warn)
    } else if s == "error"@ {
        Some(Level::Error)
    } else if s == "off"@ {
        Some(Level::Off)
    } else {
        None
    }
}

/// The lower-case form of `s`, as Unicode defines it.
pub uninterp spec fn lower_of(s: Seq<char>) -> Seq<char>;

/// Relies on str::to_lowercase: the result depends on the characters alone.
#[verifier::external_body]
fn lowercase(s: &str) -> (r: String)
    ensures
        r@ == lower_of(s@),
{
    s.to_lowercase()
}

/// The level named by `name`, which must already be in lower case.
pub fn level_from_lowercase(name: &String) -> (r: Result<Level, String>)
    ensures
        r is Ok <==> level_named(name@) is Some,
        r matches Ok(l) ==> level_named(name@) == Some(l),
{
    proof {
        reveal_strlit("trace");
        reveal_strlit("debug");
        reveal_strlit("info");
        reveal_strlit("warn");
        reveal_strlit("error");
        reveal_strlit("off");
    }
    if *name == String::from_str("trace") {
        Ok(Level::Trace)
    } else if *name == String::from_str("debug") {
        Ok(Level::Debug)
    } else if *name == String::from_str("info") {
        Ok(Level::Info)
    } else if *name == String::from_str("warn") {
        Ok(Level::Warn)
    } else if *name == String::from_str("error") {
        Ok(Level::Error)
    } else if *name == String::from_str("off") {
        Ok(Level::Off)
    } else {
        Err(String::from_str("unknown log level"))
    }
}

/// The level named by `level`, in any case.
pub fn level_from_str(level: &str) -> (r: Result<Level, String>)
    ensures
        r is Ok <==> level_named(lower_of(level@)) is Some,
        r matches Ok(l) ==> level_named(lower_of(level@)) == Some(l),
{
    let low = lowercase(level);
    level_from_lowercase(&low)
}

/// The default level for a count of verbosity flags.
pub fn level_for_verbosity(verbosity: u8) -> (r: Level)
    ensures
        verbosity == 0 ==> r == Level::Warn,
        verbosity == 1 ==> r == Level::Info,
        verbosity == 2 ==> r == Level::Debug,
        verbosity >= 3 ==> r == Level::Trace,
{
    match verbosity {
        0 => Level::Warn,
        1 => Level::Info,
        2 => Level::Debug,
        _ => Level::Trace,
    }
}

} // verus!
