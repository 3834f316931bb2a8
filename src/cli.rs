use vstd::prelude::*;
use crate::text::{chars_of, is_space, is_space_spec};

verus! {

/// The command line, once parsed.
pub struct Args {
    /// Force color output.
    pub color: bool,
    /// Force plain output.
    pub no_color: bool,
    /// Prepend the time to each log line.
    pub log_time: bool,
    /// How many times the verbosity flag was given.
    pub verbose: u8,
    /// Logging directives, each possibly holding several separated by commas.
    pub log: Option<Vec<String>>,
    /// What to do.
    pub action: Option<Actions>,
}

/// The actions the tool performs.
pub enum Actions {
    /// Merge the files, given in order.
    Concat { files: Option<Vec<String>> },
}

/// The pieces of `s` between commas, in order; there is one more piece than
/// there are commas.
pub open spec fn comma_pieces(s: Seq<char>) -> Seq<Seq<char>>
    decreases s.len(),
{
    if s.len() == 0 {
        seq![seq![]]
    } else {
        let t = comma_pieces(s.drop_last());
        if s.last() == ',' {
            t.push(seq![])
        } else {
            t.update(t.len() - 1, t.last().push(s.last()))
        }
    }
}

/// `s` without its leading whitespace.
pub open spec fn trim_start(s: Seq<char>) -> Seq<char>
    decreases s.len(),
{
    if s.len() > 0 && is_space_spec(s[0]) {
        trim_start(s.drop_first())
    } else {
        s
    }
}

/// `s` without its trailing whitespace.
pub open spec fn trim_end(s: Seq<char>) -> Seq<char>
    decreases s.len(),
{
    if s.len() > 0 && is_space_spec(s.last()) {
        trim_end(s.drop_last())
    } else {
        s
    }
}

/// `s` without whitespace at either end.
pub open spec fn trim(s: Seq<char>) -> Seq<char> {
    trim_end(trim_start(s))
}

/// The non-empty words of `ws`, in order.
pub open spec fn non_empty(ws: Seq<Seq<char>>) -> Seq<Seq<char>>
    decreases ws.len(),
{
    if ws.len() == 0 {
        seq![]
    } else if ws.last().len() > 0 {
        non_empty(ws.drop_last()).push(ws.last())
    } else {
        non_empty(ws.drop_last())
    }
}

/// The directives that one argument holds: its comma-separated pieces,
/// trimmed, the empty ones left out.
pub open spec fn directives_in(s: Seq<char>) -> Seq<Seq<char>> {
    non_empty(comma_pieces(s).map_values(|p: Seq<char>| trim(p)))
}

/// The directives of all arguments, in order.
pub open spec fn directives_all(args: Seq<Seq<char>>) -> Seq<Seq<char>>
    decreases args.len(),
{
    if args.len() == 0 {
        seq![]
    } else {
        directives_all(args.drop_last()) + directives_in(args.last())
    }
}

pub open spec fn views(v: Seq<String>) -> Seq<Seq<char>> {
    v.map_values(|s: String| s@)
}

proof fn lemma_trim_start(s: Seq<char>, a: int)
    requires
        0 <= a <= s.len(),
        forall|k: int| 0 <= k < a ==> is_space_spec(#[trigger] s[k]),
        a == s.len() || !is_space_spec(s[a]),
    ensures
        trim_start(s) == s.skip(a),
    decreases a,
{
    if a == 0 {
        assert(s.skip(0) =~= s);
    } else {
        let d = s.drop_first();
        assert forall|k: int| 0 <= k < a - 1 implies is_space_spec(#[trigger] d[k]) by {
            assert(d[k] == s[k + 1]);
        }
        lemma_trim_start(d, a - 1);
        assert(d.skip(a - 1) =~= s.skip(a));
    }
}

proof fn lemma_trim_end(s: Seq<char>, b: int)
    requires
        0 <= b <= s.len(),
        forall|k: int| b <= k < s.len() ==> is_space_spec(#[trigger] s[k]),
        b == 0 || !is_space_spec(s[b - 1]),
    ensures
        trim_end(s) == s.take(b),
    decreases s.len() - b,
{
    if b == s.len() {
        assert(s.take(b) =~= s);
    } else {
        let d = s.drop_last();
        assert forall|k: int| b <= k < d.len() implies is_space_spec(#[trigger] d[k]) by {
            assert(d[k] == s[k]);
        }
        lemma_trim_end(d, b);
        assert(d.take(b) =~= s.take(b));
    }
}

/// `chars[start..end]` trimmed of whitespace at both ends.
fn trimmed(line: &str, chars: &Vec<char>, start: usize, end: usize) -> (r: String)
    requires
        chars@ == line@,
        start <= end <= chars.len(),
    ensures
        r@ == trim(line@.subrange(start as int, end as int)),
{
    let ghost p = line@.subrange(start as int, end as int);
    let mut a = start;
    while a < end && is_space(chars[a])
        invariant
            start <= a <= end <= chars.len(),
            forall|k: int| start <= k < a ==> is_space_spec(#[trigger] chars@[k]),
        decreases end - a,
    {
        a = a + 1;
    }
    let mut b = end;
    while b > a && is_space(chars[b - 1])
        invariant
            start <= a <= b <= end <= chars.len(),
            forall|k: int| b <= k < end ==> is_space_spec(#[trigger] chars@[k]),
        decreases b,
    {
        b = b - 1;
    }
    proof {
        assert forall|k: int| 0 <= k < a - start implies is_space_spec(#[trigger] p[k]) by {
            assert(p[k] == chars@[start + k]);
        }
        lemma_trim_start(p, a - start);
        let q = p.skip(a - start);
        assert(q =~= line@.subrange(a as int, end as int));
        assert forall|k: int| b - a <= k < q.len() implies is_space_spec(#[trigger] q[k]) by {
            assert(q[k] == chars@[a + k]);
        }
        if b > a {
            assert(q[b - a - 1] == chars@[b - 1]);
        }
        lemma_trim_end(q, b - a);
        assert(q.take(b - a) =~= line@.subrange(a as int, b as int));
    }
    String::from_str(line.substring_char(a, b))
}

/// Appends to `out` the directives that `arg` holds.
fn push_directives(arg: &String, out: &mut Vec<String>)
    ensures
        views(final(out)@) == views(old(out)@) + directives_in(arg@),
{
    let line = arg.as_str();
    let chars = chars_of(line);
    let ghost s = line@;
    let ghost base = views(out@);
    let ghost mut done: Seq<Seq<char>> = seq![];
    let n = chars.len();
    let mut start: usize = 0;
    let mut i: usize = 0;
    assert(s.take(0) =~= seq![]);
    assert(done.push(s.subrange(0, 0)) =~= seq![seq![]]);
    while i < n
        invariant
            n == chars.len(),
            chars@ == s,
            s == line@,
            start <= i <= n,
            comma_pieces(s.take(i as int)) == done.push(s.subrange(start as int, i as int)),
            views(out@) == base + non_empty(done.map_values(|p: Seq<char>| trim(p))),
        decreases n - i,
    {
        assert(s.take(i + 1).drop_last() =~= s.take(i as int));
        if chars[i] == ',' {
            let piece = trimmed(line, &chars, start, i);
            let ghost before = done.map_values(|p: Seq<char>| trim(p));
            proof {
                done = done.push(s.subrange(start as int, i as int));
                assert(done.map_values(|p: Seq<char>| trim(p)).drop_last() =~= before);
            }
            if piece.unicode_len() > 0 {
                let ghost prev = out@;
                out.push(piece);
                assert(views(out@) =~= views(prev).push(piece@));
            }
            start = i + 1;
            assert(s.subrange(start as int, start as int) =~= seq![]);
        } else {
            assert(s.subrange(start as int, i as int).push(chars@[i as int]) =~= s.subrange(
                start as int,
                i + 1,
            ));
        }
        i = i + 1;
    }
    assert(s.take(n as int) =~= s);
    let piece = trimmed(line, &chars, start, n);
    let ghost before = done.map_values(|p: Seq<char>| trim(p));
    proof {
        done = done.push(s.subrange(start as int, n as int));
        assert(done.map_values(|p: Seq<char>| trim(p)).drop_last() =~= before);
    }
    if piece.unicode_len() > 0 {
        let ghost prev = out@;
        out.push(piece);
        assert(views(out@) =~= views(prev).push(piece@));
    }
}

/// The logging directives that the arguments hold: each argument split at
/// commas, each piece trimmed of whitespace, empty pieces left out.
pub fn split_log_directives(args: &Vec<String>) -> (r: Vec<String>)
    ensures
        views(r@) == directives_all(views(args@)),
{
    let mut out: Vec<String> = Vec::new();
    for i in 0..args.len()
        invariant
            views(out@) == directives_all(views(args@).take(i as int)),
    {
        proof {
            assert(views(args@).take(i + 1).drop_last() =~= views(args@).take(i as int));
            assert(views(args@).take(i + 1).last() == args@[i as int]@);
        }
        push_directives(&args[i], &mut out);
    }
    assert(views(args@).take(args.len() as int) =~= views(args@));
    out
}

impl Args {
    /// The color setting the flags ask for: `Some(true)` to force color,
    /// `Some(false)` to force plain output, `None` to leave it to the
    /// terminal. Giving both flags is an error.
    pub fn color_override(&self) -> (r: Result<Option<bool>, String>)
        ensures
            r is Err <==> self.color && self.no_color,
            r matches Ok(o) ==> o == if self.color {
                Some(true)
            } else if self.no_color {
                Some(false)
            } else {
                None
            },
    {
        if self.color && self.no_color {
            Err(String::from_str("Cannot use both --color and --no-color"))
        } else if self.color {
            Ok(Some(true))
        } else if self.no_color {
            Ok(Some(false))
        } else {
            Ok(None)
        }
    }

    /// The logging directives given, split and trimmed.
    pub fn log_directives(&self) -> (r: Vec<String>)
        ensures
            views(r@) == match self.log {
                Some(v) => directives_all(views(v@)),
                None => seq![],
            },
    {
        match &self.log {
            Some(v) => split_log_directives(v),
            None => {
                let r: Vec<String> = Vec::new();
                assert(views(r@) =~= seq![]);
                r
            },
        }
    }

    /// The files to merge; an error when no action was given.
    pub fn into_files(self) -> (r: Result<Vec<String>, String>)
        ensures
            r is Err <==> self.action is None,
            r matches Ok(v) ==> match self.action {
                Some(Actions::Concat { files: Some(f) }) => v@ == f@,
                _ => v@.len() == 0,
            },
    {
        match self.action {
            Some(Actions::Concat { files: Some(f) }) => Ok(f),
            Some(Actions::Concat { files: None }) => Ok(Vec::new()),
            None => Err(String::from_str("Missing action")),
        }
    }
}

} // verus!
