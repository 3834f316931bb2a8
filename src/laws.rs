use vstd::prelude::*;
use crate::col::{
    fields, first_malformed, max_len, merge_from, merged, record_text, row_at, step_spec, Failure,
};
use crate::text::{is_malformed, is_space_spec, payload_of, timestamp_of, tokens};

verus! {

/// Merging no inputs succeeds and writes nothing.
pub proof fn law_empty_input()
    ensures
        merged(seq![]) == (Seq::<char>::empty(), Ok::<(), Failure>(())),
{
    let fs: Seq<Seq<Seq<char>>> = seq![];
    assert(row_at(fs, 0) =~= seq![]);
}

/// A line has no token exactly when every character of it is whitespace.
pub proof fn law_blank_iff_malformed(s: Seq<char>)
    ensures
        is_malformed(s) <==> forall|i: int| 0 <= i < s.len() ==> is_space_spec(#[trigger] s[i]),
    decreases s.len(),
{
    if s.len() > 0 {
        let p = s.drop_last();
        law_blank_iff_malformed(p);
        assert forall|i: int| 0 <= i < p.len() implies #[trigger] p[i] == s[i] by {}
        if !is_space_spec(s.last()) {
            assert(tokens(s).len() > 0);
        } else if forall|i: int| 0 <= i < p.len() ==> is_space_spec(#[trigger] p[i]) {
            assert forall|i: int| 0 <= i < s.len() implies is_space_spec(#[trigger] s[i]) by {
                if i < p.len() {
                    assert(p[i] == s[i]);
                }
            }
        } else {
            let j = choose|j: int| 0 <= j < p.len() && !is_space_spec(#[trigger] p[j]);
            assert(s[j] == p[j]);
        }
    }
}

/// When every input has a line and the `i`-th line is empty or whitespace
/// only, while the lines before it hold a token, the step fails citing that
/// line as it was read.
pub proof fn law_blank_line_fails(row: Seq<Option<Seq<char>>>, i: int)
    requires
        0 <= i < row.len(),
        forall|j: int| 0 <= j < row.len() ==> (#[trigger] row[j]) is Some,
        forall|c: int| 0 <= c < row[i]->0.len() ==> is_space_spec(#[trigger] row[i]->0[c]),
        forall|j: int| 0 <= j < i ==> !is_malformed(#[trigger] row[j]->0),
    ensures
        step_spec(row) == Err::<Option<Seq<char>>, Failure>(Failure::MalformedLine(row[i]->0)),
{
    law_blank_iff_malformed(row[i]->0);
    let lines = row.map_values(|o: Option<Seq<char>>| o->0);
    assert(lines[0] == row[0]->0);
    lemma_first_malformed_at(lines, i);
}

proof fn lemma_first_malformed_at(lines: Seq<Seq<char>>, i: int)
    requires
        0 <= i < lines.len(),
        is_malformed(lines[i]),
        forall|j: int| 0 <= j < i ==> !is_malformed(#[trigger] lines[j]),
    ensures
        first_malformed(lines) == Some(lines[i]),
    decreases lines.len(),
{
    if i < lines.len() - 1 {
        let p = lines.drop_last();
        assert forall|j: int| 0 <= j < i implies !is_malformed(#[trigger] p[j]) by {
            assert(p[j] == lines[j]);
        }
        lemma_first_malformed_at(p, i);
    } else {
        lemma_no_malformed(lines.drop_last());
    }
}

proof fn lemma_no_malformed(lines: Seq<Seq<char>>)
    requires
        forall|j: int| 0 <= j < lines.len() ==> !is_malformed(#[trigger] lines[j]),
    ensures
        first_malformed(lines) is None,
    decreases lines.len(),
{
    if lines.len() > 0 {
        let p = lines.drop_last();
        assert forall|j: int| 0 <= j < p.len() implies !is_malformed(#[trigger] p[j]) by {
            assert(p[j] == lines[j]);
        }
        lemma_no_malformed(p);
    }
}

/// Merging the same inputs twice writes the same output and ends the same way.
pub proof fn law_merge_idempotent(a: Seq<Seq<Seq<char>>>, b: Seq<Seq<Seq<char>>>)
    requires
        a == b,
    ensures
        merged(a).0 == merged(b).0,
        merged(a).1 == merged(b).1,
{
}

proof fn lemma_fields_append(a: Seq<Seq<char>>, b: Seq<Seq<char>>)
    ensures
        fields(a + b) == fields(a) + fields(b),
    decreases b.len(),
{
    if b.len() == 0 {
        assert(a + b =~= a);
        assert(fields(a) + fields(b) =~= fields(a));
    } else {
        assert((a + b).drop_last() =~= a + b.drop_last());
        lemma_fields_append(a, b.drop_last());
        assert(fields(a + b) =~= fields(a) + fields(b));
    }
}

/// In a record, the payload of the `i`-th input stands after those of the
/// inputs before it and before those of the inputs after it.
pub proof fn law_order_preserved(lines: Seq<Seq<char>>, i: int)
    requires
        0 <= i < lines.len(),
    ensures
        record_text(lines) == timestamp_of(lines[0]) + fields(lines.take(i)) + seq![' ']
            + payload_of(lines[i]) + fields(lines.skip(i + 1)) + seq!['\n'],
{
    let pre = lines.take(i);
    let one = seq![lines[i]];
    let post = lines.skip(i + 1);
    assert(lines =~= pre + one + post);
    lemma_fields_append(pre + one, post);
    lemma_fields_append(pre, one);
    assert(one.drop_last() =~= Seq::<Seq<char>>::empty());
    assert(fields(one.drop_last()) =~= seq![]);
    assert(one.last() == lines[i]);
    assert(fields(one) =~= seq![' '] + payload_of(lines[i]));
    assert(record_text(lines) =~= timestamp_of(lines[0]) + fields(lines.take(i)) + seq![' ']
        + payload_of(lines[i]) + fields(lines.skip(i + 1)) + seq!['\n']);
}

/// Inputs of different lengths never merge successfully.
pub proof fn law_unequal_lengths_fail(fs: Seq<Seq<Seq<char>>>, i: int, j: int)
    requires
        0 <= i < fs.len(),
        0 <= j < fs.len(),
        fs[i].len() != fs[j].len(),
    ensures
        merged(fs).1 is Err,
{
    if fs[i].len() < fs[j].len() {
        lemma_fails_from(fs, i, j, 0);
    } else {
        lemma_fails_from(fs, j, i, 0);
    }
}

proof fn lemma_fails_from(fs: Seq<Seq<Seq<char>>>, i: int, j: int, k: nat)
    requires
        0 <= i < fs.len(),
        0 <= j < fs.len(),
        fs[i].len() < fs[j].len(),
        k <= fs[i].len(),
    ensures
        merge_from(fs, k).1 is Err,
    decreases fs[i].len() - k,
{
    crate::col::lemma_max_len(fs);
    let row = row_at(fs, k as int);
    assert(row[j] is Some);
    if k == fs[i].len() {
        assert(row[i] is None);
    } else {
        match step_spec(row) {
            Ok(Some(rec)) => {
                lemma_fails_from(fs, i, j, k + 1);
            },
            _ => {},
        }
    }
}

} // verus!
