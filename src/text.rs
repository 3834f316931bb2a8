use vstd::prelude::*;

verus! {

/// The Unicode `White_Space` characters, the set that separates tokens.
pub open spec fn is_space_spec(c: char) -> bool {
    let u = c as u32;
    ||| 0x9 <= u <= 0xD
    ||| u == 0x20
    ||| u == 0x85
    ||| u == 0xA0
    ||| u == 0x1680
    ||| 0x2000 <= u <= 0x200A
    ||| u == 0x2028
    ||| u == 0x2029
    ||| u == 0x202F
    ||| u == 0x205F
    ||| u == 0x3000
}

/// The maximal runs of non-space characters of `s`, left to right.
pub open spec fn tokens(s: Seq<char>) -> Seq<Seq<char>>
    decreases s.len(),
{
    if s.len() == 0 {
        seq![]
    } else {
        let p = s.drop_last();
        let c = s.last();
        let t = tokens(p);
        if is_space_spec(c) {
            t
        } else if p.len() > 0 && !is_space_spec(p.last()) && t.len() > 0 {
            t.update(t.len() - 1, t.last().push(c))
        } else {
            t.push(seq![c])
        }
    }
}

/// The words of `ws` joined by single spaces.
pub open spec fn join_words(ws: Seq<Seq<char>>) -> Seq<char>
    decreases ws.len(),
{
    if ws.len() == 0 {
        seq![]
    } else if ws.len() == 1 {
        ws[0]
    } else {
        join_words(ws.drop_last()) + seq![' '] + ws.last()
    }
}

/// A line with no token at all (empty or only whitespace).
pub open spec fn is_malformed(line: Seq<char>) -> bool {
    tokens(line).len() == 0
}

/// The leading token of a line.
pub open spec fn timestamp_of(line: Seq<char>) -> Seq<char> {
    tokens(line)[0]
}

/// What follows the leading token, its tokens joined by single spaces.
pub open spec fn payload_of(line: Seq<char>) -> Seq<char> {
    join_words(tokens(line).drop_first())
}

/// Whether `c` is a Unicode whitespace character.
pub fn is_space(c: char) -> (r: bool)
    ensures
        r == is_space_spec(c),
{
    let u = c as u32;
    (0x9 <= u && u <= 0xD) || u == 0x20 || u == 0x85 || u == 0xA0 || u == 0x1680 || (0x2000
        <= u && u <= 0x200A) || u == 0x2028 || u == 0x2029 || u == 0x202F || u == 0x205F || u
        == 0x3000
}

/// Splits a line into its timestamp and its payload; `None` when the line
/// holds no token.
pub fn split_line(line: &str) -> (r: Option<(String, String)>)
    ensures
        r is None <==> is_malformed(line@),
        r matches Some((ts, data)) ==> ts@ == timestamp_of(line@) && data@ == payload_of(line@),
{
    let ghost s = line@;
    let n = line.unicode_len();
    let mut ts = String::new();
    let mut data = String::new();
    let mut have_ts = false;
    let mut have_data = false;
    let mut in_tok = false;
    let mut start: usize = 0;
    let mut i: usize = 0;
    let ghost mut done: Seq<Seq<char>> = seq![];
    for c in it: line.chars()
        invariant
            i == it.index(),
            it.seq() == s,
            0 <= start <= i <= s.len(),
            n == s.len(),
            s == line@,
            have_ts <==> done.len() > 0,
            have_data <==> done.len() > 1,
            have_ts ==> ts@ == done[0],
            done.len() > 0 ==> data@ == join_words(done.drop_first()),
            done.len() == 0 ==> data@.len() == 0,
            in_tok ==> start < i && tokens(s.take(i as int)) == done.push(s.subrange(start as int, i as int)),
            !in_tok ==> tokens(s.take(i as int)) == done,
            in_tok <==> (i > 0 && !is_space_spec(s[i - 1])),
    {
        assert(s.take(i + 1).drop_last() =~= s.take(i as int));
        assert(s.take(i + 1).last() == c);
        if is_space(c) {
            if in_tok {
                let tok = line.substring_char(start, i);
                proof {
                    lemma_push_drop_first(done, tok@);
                }
                if !have_ts {
                    ts = String::from_str(tok);
                    have_ts = true;
                } else if !have_data {
                    data = String::from_str(tok);
                    have_data = true;
                } else {
                    data.append(" ");
                    proof {
                        reveal_strlit(" ");
                    }
                    data.append(tok);
                }
                proof {
                    done = done.push(tok@);
                }
                in_tok = false;
            }
        } else {
            if !in_tok {
                in_tok = true;
                start = i;
                assert(s.subrange(i as int, i + 1) =~= seq![c]);
            } else {
                assert(s.subrange(start as int, i as int).push(c) =~= s.subrange(
                    start as int,
                    i + 1,
                ));
            }
        }
        i = i + 1;
    }
    assert(s.take(i as int) =~= s);
    if in_tok {
        let tok = line.substring_char(start, i);
        proof {
            lemma_push_drop_first(done, tok@);
        }
        if !have_ts {
            ts = String::from_str(tok);
            have_ts = true;
        } else if !have_data {
            data = String::from_str(tok);
        } else {
            data.append(" ");
            proof {
                reveal_strlit(" ");
            }
            data.append(tok);
        }
        proof {
            done = done.push(tok@);
        }
    }
    if have_ts {
        Some((ts, data))
    } else {
        None
    }
}

proof fn lemma_join_push(ws: Seq<Seq<char>>, t: Seq<char>)
    ensures
        join_words(ws.push(t)) == if ws.len() == 0 {
            t
        } else {
            join_words(ws) + seq![' '] + t
        },
{
    assert(ws.push(t).drop_last() =~= ws);
}

proof fn lemma_push_drop_first(done: Seq<Seq<char>>, t: Seq<char>)
    ensures
        done.len() > 0 ==> join_words(done.push(t).drop_first()) == if done.len() == 1 {
            t
        } else {
            join_words(done.drop_first()) + seq![' '] + t
        },
        done.len() == 0 ==> join_words(done.push(t).drop_first()).len() == 0,
        done.len() > 0 ==> done.push(t).drop_first() =~= done.drop_first().push(t),
        done.len() > 0 ==> done.push(t)[0] == done[0],
        done.len() == 0 ==> done.push(t)[0] == t && done.push(t).drop_first().len() == 0,
{
    if done.len() == 0 {
        assert(done.push(t).drop_first() =~= seq![]);
    } else {
        assert(done.push(t).drop_first() =~= done.drop_first().push(t));
        lemma_join_push(done.drop_first(), t);
    }
}

/// The characters of `line`, in order.
pub(crate) fn chars_of(line: &str) -> (r: Vec<char>)
    ensures
        r@ == line@,
{
    let mut chars: Vec<char> = Vec::new();
    for c in it: line.chars()
        invariant
            it.seq() == line@,
            chars@ == line@.take(it.index() as int),
    {
        assert(line@.take(it.index() + 1) =~= chars@.push(c));
        chars.push(c);
    }
    assert(chars@ =~= line@);
    chars
}

} // verus!
