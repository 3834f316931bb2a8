use vstd::prelude::*;
use crate::level::{level_from_str, level_named, lower_of, Level};
use crate::text::chars_of;

verus! {

#[verifier::external_type_specification]
#[verifier::external_body]
pub struct ExRegex(regex::Regex);

#[verifier::external_type_specification]
#[verifier::external_body]
pub struct ExRegexError(regex::Error);

/// Relies on regex::Regex::new, which compiles a pattern or reports why it
/// cannot; nothing is assumed of the outcome.
pub assume_specification[ regex::Regex::new ](re: &str) -> Result<regex::Regex, regex::Error>;

/// Relies on regex::Regex::is_match, which tests a haystack for a match;
/// nothing is assumed of the outcome.
pub assume_specification[ regex::Regex::is_match ](re: &regex::Regex, haystack: &str) -> bool;

/// The form a logging directive must have: dotted target, a colon, a level.
pub const LOG_DIRECTIVE_PATTERN: &'static str =
    r"^[a-zA-Z0-9_-]+(\.[a-zA-Z0-9_-]+)*:(TRACE,DEBUG,INFO,WARN,ERROR,OFF)$";

/// Why the logging directives were refused, over plain values.
pub enum DirectiveFault {
    BadPattern,
    Invalid(Seq<Seq<char>>),
    UnknownLevel(Seq<char>),
}

/// Why the logging directives were refused.
#[derive(Debug, PartialEq, Eq)]
pub enum DirectiveError {
    /// The directive pattern did not compile.
    BadPattern,
    /// These directives do not have the form TARGET:LEVEL.
    Invalid(Vec<String>),
    /// A directive names no known level; holds the level as written.
    UnknownLevel(String),
}

impl View for DirectiveError {
    type V = DirectiveFault;

    open spec fn view(&self) -> DirectiveFault {
        match self {
            DirectiveError::BadPattern => DirectiveFault::BadPattern,
            DirectiveError::Invalid(v) => DirectiveFault::Invalid(v@.map_values(|s: String| s@)),
            DirectiveError::UnknownLevel(s) => DirectiveFault::UnknownLevel(s@),
        }
    }
}

/// The index of the last colon of `s`, or -1 when it has none.
pub open spec fn last_colon(s: Seq<char>) -> int
    decreases s.len(),
{
    if s.len() == 0 {
        -1
    } else if s.last() == ':' {
        s.len() - 1
    } else {
        last_colon(s.drop_last())
    }
}

/// `s` with each dot written as `::`.
pub open spec fn dots_to_paths(s: Seq<char>) -> Seq<char>
    decreases s.len(),
{
    if s.len() == 0 {
        seq![]
    } else if s.last() == '.' {
        dots_to_paths(s.drop_last()) + seq![':', ':']
    } else {
        dots_to_paths(s.drop_last()).push(s.last())
    }
}

/// What one directive amounts to.
pub enum Entry {
    Invalid,
    BadLevel(Seq<char>),
    Good(Seq<char>, Level),
}

/// What directive `d` amounts to, given whether it has the form the
/// pattern asks for.
pub open spec fn entry_of(d: Seq<char>, ok: bool) -> Entry {
    let c = last_colon(d);
    if !ok || c < 0 {
        Entry::Invalid
    } else {
        let lv = d.skip(c + 1);
        match level_named(lower_of(lv)) {
            None => Entry::BadLevel(lv),
            Some(l) => Entry::Good(dots_to_paths(d.take(c)), l),
        }
    }
}

/// Reading the first `n` directives: the targets with their levels, the
/// invalid directives, and the first unknown level, where reading stops.
pub open spec fn scan(ds: Seq<Seq<char>>, oks: Seq<bool>, n: nat) -> (
    Seq<(Seq<char>, Level)>,
    Seq<Seq<char>>,
    Option<Seq<char>>,
)
    decreases n,
{
    if n == 0 {
        (seq![], seq![], None)
    } else {
        let (g, inv, bad) = scan(ds, oks, (n - 1) as nat);
        if bad is Some {
            (g, inv, bad)
        } else {
            match entry_of(ds[n - 1], oks[n - 1]) {
                Entry::Invalid => (g, inv.push(ds[n - 1]), None),
                Entry::BadLevel(lv) => (g, inv, Some(lv)),
                Entry::Good(t, l) => (g.push((t, l)), inv, None),
            }
        }
    }
}

/// The outcome of reading the directives `ds`, where `oks[i]` tells whether
/// `ds[i]` has the form the pattern asks for.
pub open spec fn collect_spec(ds: Seq<Seq<char>>, oks: Seq<bool>) -> Result<
    Seq<(Seq<char>, Level)>,
    DirectiveFault,
> {
    let (g, inv, bad) = scan(ds, oks, ds.len());
    match bad {
        Some(lv) => Err(DirectiveFault::UnknownLevel(lv)),
        None => if inv.len() > 0 {
            Err(DirectiveFault::Invalid(inv))
        } else {
            Ok(g)
        },
    }
}

pub open spec fn pairs_view(v: Seq<(String, Level)>) -> Seq<(Seq<char>, Level)> {
    v.map_values(|p: (String, Level)| (p.0@, p.1))
}

pub open spec fn collect_view(r: Result<Vec<(String, Level)>, DirectiveError>) -> Result<
    Seq<(Seq<char>, Level)>,
    DirectiveFault,
> {
    match r {
        Ok(v) => Ok(pairs_view(v@)),
        Err(e) => Err(e@),
    }
}

proof fn lemma_scan_stops(ds: Seq<Seq<char>>, oks: Seq<bool>, m: nat, n: nat)
    requires
        m <= n,
        scan(ds, oks, m).2 is Some,
    ensures
        scan(ds, oks, n) == scan(ds, oks, m),
    decreases n - m,
{
    if m < n {
        lemma_scan_stops(ds, oks, m, (n - 1) as nat);
    }
}

fn find_last_colon(chars: &Vec<char>) -> (r: Option<usize>)
    ensures
        r is None <==> last_colon(chars@) < 0,
        r matches Some(i) ==> i == last_colon(chars@) && i < chars.len(),
{
    let mut j = chars.len();
    assert(chars@.take(j as int) =~= chars@);
    while j > 0
        invariant
            j <= chars.len(),
            last_colon(chars@) == last_colon(chars@.take(j as int)),
        decreases j,
    {
        assert(chars@.take(j as int).drop_last() =~= chars@.take(j - 1));
        if chars[j - 1] == ':' {
            return Some(j - 1);
        }
        j = j - 1;
    }
    None
}

/// `line[..end]` with each dot written as `::`.
fn paths_of(line: &str, chars: &Vec<char>, end: usize) -> (r: String)
    requires
        chars@ == line@,
        end <= chars.len(),
    ensures
        r@ == dots_to_paths(line@.take(end as int)),
{
    let ghost s = line@;
    let mut out = String::new();
    let mut seg: usize = 0;
    let mut i: usize = 0;
    assert(s.take(0) =~= seq![]);
    while i < end
        invariant
            chars@ == s,
            s == line@,
            seg <= i <= end <= chars.len(),
            out@ + s.subrange(seg as int, i as int) == dots_to_paths(s.take(i as int)),
        decreases end - i,
    {
        assert(s.take(i + 1).drop_last() =~= s.take(i as int));
        if chars[i] == '.' {
            out.append(line.substring_char(seg, i));
            out.append("::");
            proof {
                reveal_strlit("::");
            }
            seg = i + 1;
            assert(out@ + s.subrange(seg as int, (i + 1) as int) =~= dots_to_paths(s.take(i + 1)));
        } else {
            assert(out@ + s.subrange(seg as int, (i + 1) as int) =~= dots_to_paths(s.take(i + 1)));
        }
        i = i + 1;
    }
    out.append(line.substring_char(seg, end));
    out
}

/// Reads the directives `ds`, where `oks[i]` tells whether `ds[i]` has the
/// form TARGET:LEVEL. Each valid directive gives its target, dots written as
/// `::`, and its level. The first unknown level ends the reading with an
/// error; otherwise any invalid directive makes an error that lists them all.
pub fn collect_directives(ds: &Vec<String>, oks: &Vec<bool>) -> (r: Result<
    Vec<(String, Level)>,
    DirectiveError,
>)
    requires
        ds.len() == oks.len(),
    ensures
        collect_view(r) == collect_spec(ds@.map_values(|s: String| s@), oks@),
{
    let ghost dv = ds@.map_values(|s: String| s@);
    let mut good: Vec<(String, Level)> = Vec::new();
    let mut invalid: Vec<String> = Vec::new();
    for i in 0..ds.len()
        invariant
            ds.len() == oks.len(),
            dv == ds@.map_values(|s: String| s@),
            scan(dv, oks@, i as nat) == (
                pairs_view(good@),
                invalid@.map_values(|s: String| s@),
                None::<Seq<char>>,
            ),
    {
        let d = ds[i].as_str();
        assert(d@ == dv[i as int]);
        let ghost gp = good@;
        let ghost ip = invalid@;
        let chars = chars_of(d);
        let colon = if oks[i] {
            find_last_colon(&chars)
        } else {
            None
        };
        match colon {
            None => {
                invalid.push(ds[i].clone());
                assert(invalid@.map_values(|s: String| s@) =~= ip.map_values(|s: String| s@).push(
                    dv[i as int],
                ));
            },
            Some(c) => {
                let lv = d.substring_char(c + 1, chars.len());
                assert(lv@ =~= dv[i as int].skip(c + 1));
                match level_from_str(lv) {
                    Err(_) => {
                        proof {
                            lemma_scan_stops(dv, oks@, (i + 1) as nat, dv.len());
                        }
                        return Err(DirectiveError::UnknownLevel(String::from_str(lv)));
                    },
                    Ok(l) => {
                        let t = paths_of(d, &chars, c);
                        good.push((t, l));
                        assert(pairs_view(good@) =~= pairs_view(gp).push((t@, l)));
                    },
                }
            },
        }
    }
    assert(dv.len() == ds.len());
    if invalid.len() > 0 {
        Err(DirectiveError::Invalid(invalid))
    } else {
        Ok(good)
    }
}

/// Reads the logging directives `ds`, testing each against
/// `LOG_DIRECTIVE_PATTERN`. Whatever the pattern decides, the outcome is
/// that of `collect_directives` for some such decisions, or `BadPattern`
/// when the pattern does not compile.
pub fn parse_log_directives(ds: &Vec<String>) -> (r: Result<Vec<(String, Level)>, DirectiveError>)
    ensures
        r matches Err(DirectiveError::BadPattern) || exists|oks: Seq<bool>|
            oks.len() == ds.len() && collect_view(r) == collect_spec(
                ds@.map_values(|s: String| s@),
                oks,
            ),
{
    let re = match regex::Regex::new(LOG_DIRECTIVE_PATTERN) {
        Ok(re) => re,
        Err(_) => {
            return Err(DirectiveError::BadPattern);
        },
    };
    let mut oks: Vec<bool> = Vec::new();
    for i in 0..ds.len()
        invariant
            oks.len() == i,
    {
        oks.push(re.is_match(ds[i].as_str()));
    }
    let r = collect_directives(ds, &oks);
    assert(oks@.len() == ds.len() && collect_view(r) == collect_spec(
        ds@.map_values(|s: String| s@),
        oks@,
    ));
    r
}
} // verus!
