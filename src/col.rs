use vstd::prelude::*;
use crate::text::{is_malformed, payload_of, split_line, timestamp_of};

verus! {

/// What went wrong in a merge, over plain values.
pub enum Failure {
    IoOpenFailure(Seq<char>),
    IoReadFailure(Seq<char>),
    IoWriteFailure(Seq<char>),
    LineCountMismatch,
    MalformedLine(Seq<char>),
    TimestampMismatch,
}

/// Why a merge stopped early. Every error ends the merge.
#[derive(Debug, PartialEq, Eq)]
pub enum MergeError {
    /// A file could not be opened; holds the path.
    IoOpenFailure(String),
    /// Reading a line failed; holds the reason.
    IoReadFailure(String),
    /// Writing to the sink failed; holds the reason.
    IoWriteFailure(String),
    /// Some inputs ended while others still had lines.
    LineCountMismatch,
    /// A line held no timestamp token; holds the line as read.
    MalformedLine(String),
    /// The timestamps of one step differ across the inputs.
    TimestampMismatch,
}

impl View for MergeError {
    type V = Failure;

    open spec fn view(&self) -> Failure {
        match self {
            MergeError::IoOpenFailure(s) => Failure::IoOpenFailure(s@),
            MergeError::IoReadFailure(s) => Failure::IoReadFailure(s@),
            MergeError::IoWriteFailure(s) => Failure::IoWriteFailure(s@),
            MergeError::LineCountMismatch => Failure::LineCountMismatch,
            MergeError::MalformedLine(s) => Failure::MalformedLine(s@),
            MergeError::TimestampMismatch => Failure::TimestampMismatch,
        }
    }
}

/// The first malformed line of `lines`, if any.
pub open spec fn first_malformed(lines: Seq<Seq<char>>) -> Option<Seq<char>>
    decreases lines.len(),
{
    if lines.len() == 0 {
        None
    } else {
        match first_malformed(lines.drop_last()) {
            Some(l) => Some(l),
            None => if is_malformed(lines.last()) {
                Some(lines.last())
            } else {
                None
            },
        }
    }
}

/// Each line's payload preceded by one space, in input order.
pub open spec fn fields(lines: Seq<Seq<char>>) -> Seq<char>
    decreases lines.len(),
{
    if lines.len() == 0 {
        seq![]
    } else {
        fields(lines.drop_last()) + seq![' '] + payload_of(lines.last())
    }
}

/// The output record of one step whose lines all agree on the timestamp.
pub open spec fn record_text(lines: Seq<Seq<char>>) -> Seq<char> {
    timestamp_of(lines[0]) + fields(lines) + seq!['\n']
}

/// Whether every timestamp equals the first line's.
pub open spec fn timestamps_agree(lines: Seq<Seq<char>>) -> bool {
    forall|i: int| 0 <= i < lines.len() ==> timestamp_of(#[trigger] lines[i]) == timestamp_of(lines[0])
}

/// The outcome of one step, given the line read from each input (`None`
/// where that input is exhausted): `Ok(None)` ends the merge, `Ok(Some(r))`
/// emits the record `r`.
pub open spec fn step_spec(row: Seq<Option<Seq<char>>>) -> Result<Option<Seq<char>>, Failure> {
    if forall|i: int| 0 <= i < row.len() ==> (#[trigger] row[i]) is None {
        Ok(None)
    } else if exists|i: int| 0 <= i < row.len() && (#[trigger] row[i]) is None {
        Err(Failure::LineCountMismatch)
    } else {
        let lines = row.map_values(|o: Option<Seq<char>>| o->0);
        match first_malformed(lines) {
            Some(l) => Err(Failure::MalformedLine(l)),
            None => if timestamps_agree(lines) {
                Ok(Some(record_text(lines)))
            } else {
                Err(Failure::TimestampMismatch)
            },
        }
    }
}

pub open spec fn row_view(row: Seq<Option<String>>) -> Seq<Option<Seq<char>>> {
    row.map_values(|o: Option<String>| match o {
        Some(s) => Some(s@),
        None => None,
    })
}

pub open spec fn step_view(r: Result<Option<String>, MergeError>) -> Result<Option<Seq<char>>, Failure> {
    match r {
        Ok(Some(s)) => Ok(Some(s@)),
        Ok(None) => Ok(None),
        Err(e) => Err(e@),
    }
}

/// Decides one step of the merge from the line read from each input, in
/// input order (`None` where that input is exhausted).
pub fn merge_step(row: &Vec<Option<String>>) -> (r: Result<Option<String>, MergeError>)
    ensures
        step_view(r) == step_spec(row_view(row@)),
{
    let ghost rv = row_view(row@);
    let n = row.len();
    let mut all_absent = true;
    let mut any_absent = false;
    for i in 0..n
        invariant
            n == row.len(),
            rv == row_view(row@),
            all_absent <==> forall|j: int| 0 <= j < i ==> (#[trigger] rv[j]) is None,
            any_absent <==> exists|j: int| 0 <= j < i && (#[trigger] rv[j]) is None,
    {
        assert(rv[i as int] is None <==> row@[i as int] is None);
        if row[i].is_none() {
            any_absent = true;
        } else {
            all_absent = false;
        }
    }
    if all_absent {
        return Ok(None);
    }
    if any_absent {
        return Err(MergeError::LineCountMismatch);
    }
    let ghost lines = rv.map_values(|o: Option<Seq<char>>| o->0);
    let mut stamps: Vec<String> = Vec::new();
    let mut payloads: Vec<String> = Vec::new();
    for i in 0..n
        invariant
            n == row.len(),
            rv == row_view(row@),
            lines == rv.map_values(|o: Option<Seq<char>>| o->0),
            forall|j: int| 0 <= j < n ==> (#[trigger] rv[j]) is Some,
            first_malformed(lines.take(i as int)) is None,
            stamps.len() == i,
            payloads.len() == i,
            forall|j: int| 0 <= j < i ==> (#[trigger] stamps@[j])@ == timestamp_of(lines[j]),
            forall|j: int| 0 <= j < i ==> (#[trigger] payloads@[j])@ == payload_of(lines[j]),
    {
        assert(rv[i as int] is Some);
        let line = match &row[i] {
            Some(l) => l,
            None => {
                return Err(MergeError::LineCountMismatch);
            },
        };
        assert(line@ == lines[i as int]);
        assert(lines.take(i + 1).drop_last() =~= lines.take(i as int));
        match split_line(line.as_str()) {
            Some((ts, data)) => {
                stamps.push(ts);
                payloads.push(data);
            },
            None => {
                proof {
                    lemma_first_malformed_prefix(lines, i as int);
                }
                return Err(MergeError::MalformedLine(line.clone()));
            },
        }
    }
    assert(lines.take(n as int) =~= lines);
    let mut agree = true;
    for i in 0..n
        invariant
            n == row.len(),
            n > 0,
            lines.len() == n,
            stamps.len() == n,
            forall|j: int| 0 <= j < n ==> (#[trigger] stamps@[j])@ == timestamp_of(lines[j]),
            agree <==> forall|j: int| 0 <= j < i ==> timestamp_of(#[trigger] lines[j]) == timestamp_of(lines[0]),
    {
        if stamps[i] != stamps[0] {
            agree = false;
        }
    }
    assert(agree == timestamps_agree(lines));
    assert(first_malformed(lines) is None);
    if !agree {
        return Err(MergeError::TimestampMismatch);
    }
    let mut out = stamps[0].clone();
    let ghost head = out@;
    for i in 0..n
        invariant
            n == row.len(),
            lines.len() == n,
            payloads.len() == n,
            forall|j: int| 0 <= j < n ==> (#[trigger] payloads@[j])@ == payload_of(lines[j]),
            out@ == head + fields(lines.take(i as int)),
    {
        assert(lines.take(i + 1).drop_last() =~= lines.take(i as int));
        out.append(" ");
        proof {
            reveal_strlit(" ");
        }
        out.append(payloads[i].as_str());
    }
    out.append("\n");
    proof {
        reveal_strlit("\n");
        assert(lines.take(n as int) =~= lines);
    }
    assert(out@ == record_text(lines));
    Ok(Some(out))
}

proof fn lemma_first_malformed_prefix(lines: Seq<Seq<char>>, i: int)
    requires
        0 <= i < lines.len(),
        first_malformed(lines.take(i)) is None,
        is_malformed(lines[i]),
    ensures
        first_malformed(lines) == Some(lines[i]),
    decreases lines.len(),
{
    if i == lines.len() - 1 {
        assert(lines.drop_last() =~= lines.take(i));
    } else {
        assert(lines.drop_last().take(i) =~= lines.take(i));
        lemma_first_malformed_prefix(lines.drop_last(), i);
    }
}

/// The lines of each input, as plain values.
pub open spec fn contents(files: Seq<Vec<String>>) -> Seq<Seq<Seq<char>>> {
    files.map_values(|f: Vec<String>| f@.map_values(|s: String| s@))
}

/// The line of each input at step `k`, `None` where that input has ended.
pub open spec fn row_at(fs: Seq<Seq<Seq<char>>>, k: int) -> Seq<Option<Seq<char>>> {
    Seq::new(fs.len(), |i: int| if k < fs[i].len() { Some(fs[i][k]) } else { None })
}

/// The length of the longest input.
pub open spec fn max_len(fs: Seq<Seq<Seq<char>>>) -> nat
    decreases fs.len(),
{
    if fs.len() == 0 {
        0
    } else {
        let m = max_len(fs.drop_last());
        if fs.last().len() > m {
            fs.last().len()
        } else {
            m
        }
    }
}

/// The output written and the result of a merge that starts at step `k`.
pub open spec fn merge_from(fs: Seq<Seq<Seq<char>>>, k: nat) -> (Seq<char>, Result<(), Failure>)
    decreases max_len(fs) - k,
{
    match step_spec(row_at(fs, k as int)) {
        Ok(None) => (seq![], Ok(())),
        Err(f) => (seq![], Err(f)),
        Ok(Some(rec)) => if k < max_len(fs) {
            let (o, r) = merge_from(fs, k + 1);
            (rec + o, r)
        } else {
            (rec, Ok(()))
        },
    }
}

/// The output written and the result of merging the inputs `fs`.
pub open spec fn merged(fs: Seq<Seq<Seq<char>>>) -> (Seq<char>, Result<(), Failure>) {
    merge_from(fs, 0)
}

pub open spec fn result_view(r: Result<(), MergeError>) -> Result<(), Failure> {
    match r {
        Ok(()) => Ok(()),
        Err(e) => Err(e@),
    }
}

pub(crate) proof fn lemma_max_len(fs: Seq<Seq<Seq<char>>>)
    ensures
        forall|i: int| 0 <= i < fs.len() ==> (#[trigger] fs[i]).len() <= max_len(fs),
    decreases fs.len(),
{
    if fs.len() > 0 {
        lemma_max_len(fs.drop_last());
        assert forall|i: int| 0 <= i < fs.len() implies (#[trigger] fs[i]).len() <= max_len(fs) by {
            if i < fs.len() - 1 {
                assert(fs[i] == fs.drop_last()[i]);
            }
        }
    }
}

proof fn lemma_past_end(fs: Seq<Seq<Seq<char>>>, k: int)
    requires
        k >= max_len(fs),
    ensures
        step_spec(row_at(fs, k)) == Ok::<Option<Seq<char>>, Failure>(None),
{
    lemma_max_len(fs);
    let row = row_at(fs, k);
    assert forall|i: int| 0 <= i < row.len() implies (#[trigger] row[i]) is None by {
        assert(fs[i].len() <= max_len(fs));
    }
}

/// Merges the inputs `files`, each given as its lines in order, writing one
/// record per step to `out`. Records of the steps before a failing one stay
/// written; nothing is written for the failing step or after it.
pub fn concat(files: Vec<Vec<String>>, out: &mut String) -> (r: Result<(), MergeError>)
    ensures
        final(out)@ == old(out)@ + merged(contents(files@)).0,
        result_view(r) == merged(contents(files@)).1,
{
    let ghost fs = contents(files@);
    let ghost start = out@;
    let mut k: usize = 0;
    loop
        invariant
            fs == contents(files@),
            start == old(out)@,
            k <= max_len(fs),
            merged(fs).1 == merge_from(fs, k as nat).1,
            start + merged(fs).0 == out@ + merge_from(fs, k as nat).0,
        decreases max_len(fs) - k,
    {
        let mut row: Vec<Option<String>> = Vec::new();
        for i in 0..files.len()
            invariant
                fs == contents(files@),
                row.len() == i,
                row_view(row@) =~= row_at(fs, k as int).take(i as int),
        {
            let f = &files[i];
            assert(fs[i as int] == f@.map_values(|s: String| s@));
            assert(fs[i as int].len() == f.len());
            let ghost prev = row@;
            if k < f.len() {
                assert(fs[i as int][k as int] == f@[k as int]@);
                row.push(Some(f[k].clone()));
            } else {
                row.push(None);
            }
            assert(row@ == prev.push(row@[i as int]));
            assert(row_view(row@)[i as int] == row_at(fs, k as int)[i as int]);
            assert(row_view(row@) =~= row_at(fs, k as int).take(i + 1));
        }
        assert(row_at(fs, k as int).take(files.len() as int) =~= row_at(fs, k as int));
        match merge_step(&row) {
            Ok(None) => {
                assert(out@ == start + merged(fs).0);
                return Ok(());
            },
            Err(e) => {
                assert(out@ =~= start + merged(fs).0);
                return Err(e);
            },
            Ok(Some(rec)) => {
                proof {
                    if k >= max_len(fs) {
                        lemma_past_end(fs, k as int);
                    }
                }
                out.append(rec.as_str());
                assert(start + merged(fs).0 =~= out@ + merge_from(fs, (k + 1) as nat).0);
                k = k + 1;
            },
        }
    }
}

} // verus!
