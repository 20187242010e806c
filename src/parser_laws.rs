//! Laws of the line parser.
use vstd::prelude::*;
use crate::command::{classify, find_cc, is_src, src_tokens, tokens, RecordModel};
use crate::parser::{Directive, announced, effective, is_enter_line, is_leave_line, lemma_run_failed_stays, observe, run, step, TrackerState};

verus! {

proof fn lemma_no_src_tokens(toks: Seq<Seq<char>>)
    requires
        forall|i: int| 0 <= i < toks.len() ==> !is_src(#[trigger] toks[i]),
    ensures
        src_tokens(toks).len() == 0,
    decreases toks.len(),
{
    if toks.len() > 0 {
        let d = toks.drop_last();
        assert forall|i: int| 0 <= i < d.len() implies !is_src(#[trigger] d[i]) by {
            assert(d[i] == toks[i]);
        }
        assert(!is_src(toks[toks.len() - 1]));
        lemma_no_src_tokens(d);
    }
}

/// A line that names a compiler but no source file yields no records, and
/// as a line of the transcript it leaves the tracker as it was.
pub proof fn lemma_no_source_no_records(line: Seq<char>, st: TrackerState)
    requires
        find_cc(tokens(line), 0) is Some,
        forall|i: int| 0 <= i < tokens(line).len() ==> !is_src(#[trigger] tokens(line)[i]),
    ensures
        forall|dir: Seq<char>, root: Seq<char>| #[trigger] classify(line, dir, root) is None,
        !is_enter_line(line) && !is_leave_line(line) ==> step(st, line) == Ok::<_, ()>((st, Seq::<RecordModel>::empty())),
{
    lemma_no_src_tokens(tokens(line));
}

/// A line that leaves a directory other than the current one ends the
/// parse: the lines after it yield no records.
pub proof fn lemma_mismatch_stops(st: TrackerState, lines: Seq<Seq<char>>, j: int)
    requires
        0 <= j < lines.len(),
        !run(st, lines.subrange(0, j)).2,
        !is_enter_line(lines[j]),
        is_leave_line(lines[j]),
        announced(lines[j]) matches Some(d) && d != run(st, lines.subrange(0, j)).0.current,
    ensures
        run(st, lines).2,
        run(st, lines).1 == run(st, lines.subrange(0, j)).1,
{
    let pre = lines.subrange(0, j);
    let next = lines.subrange(0, j + 1);
    assert(next.drop_last() =~= pre);
    assert(next.last() == lines[j]);
    assert(observe(run(st, pre).0, lines[j]) is Err);
    assert(run(st, next).2);
    lemma_run_failed_stays(st, lines, j + 1);
}

/// A line that is no announcement and yields exactly one record.
pub open spec fn one_record_line(st: TrackerState, line: Seq<char>) -> bool {
    &&& !is_enter_line(line)
    &&& !is_leave_line(line)
    &&& classify(line, effective(st), st.root) matches Some(rs) && rs.len() == 1
}

/// The record of such a line.
pub open spec fn the_record(st: TrackerState, line: Seq<char>) -> RecordModel {
    classify(line, effective(st), st.root)->0[0]
}

/// Lines that each compile one source file yield one record each, in the
/// order of the lines, and leave the tracker as it was.
pub proof fn lemma_compile_lines_in_order(st: TrackerState, lines: Seq<Seq<char>>)
    requires
        forall|i: int| 0 <= i < lines.len() ==> one_record_line(st, #[trigger] lines[i]),
    ensures
        run(st, lines) == (st, Seq::new(lines.len(), |i: int| the_record(st, lines[i])), false),
    decreases lines.len(),
{
    if lines.len() > 0 {
        let d = lines.drop_last();
        assert forall|i: int| 0 <= i < d.len() implies one_record_line(st, #[trigger] d[i]) by {
            assert(d[i] == lines[i]);
        }
        lemma_compile_lines_in_order(st, d);
        let l = lines.last();
        assert(one_record_line(st, lines[lines.len() - 1]));
        let rs = classify(l, effective(st), st.root)->0;
        assert(rs =~= seq![the_record(st, l)]);
        assert(Seq::new(d.len(), |i: int| the_record(st, d[i])) + rs =~= Seq::new(
            lines.len(),
            |i: int| the_record(st, lines[i]),
        ));
    }
}

/// Entering a directory, compiling there and leaving it again: the records
/// of the compile line are resolved against the entered directory, and
/// afterwards no directory is current.
pub proof fn lemma_enter_compile_leave(
    st: TrackerState,
    enter: Seq<char>,
    compile: Seq<char>,
    leave: Seq<char>,
    d: Seq<char>,
)
    requires
        d.len() > 0,
        is_enter_line(enter),
        announced(enter) == Some(d),
        !is_enter_line(compile),
        !is_leave_line(compile),
        !is_enter_line(leave),
        is_leave_line(leave),
        announced(leave) == Some(d),
    ensures
        run(st, seq![enter, compile, leave]) == (
            TrackerState { root: st.root, current: Seq::empty() },
            match classify(compile, d, st.root) {
                Some(recs) => recs,
                None => Seq::<RecordModel>::empty(),
            },
            false,
        ),
{
    let inside = TrackerState { root: st.root, current: d };
    let l1 = seq![enter];
    let l2 = seq![enter, compile];
    let l3 = seq![enter, compile, leave];
    assert(l1.drop_last() =~= Seq::<Seq<char>>::empty());
    assert(l2.drop_last() =~= l1);
    assert(l3.drop_last() =~= l2);
    assert(observe(st, enter) == Ok::<_, (Seq<char>, Seq<char>)>((inside, Directive::Entered)));
    assert(l1.last() == enter);
    assert(l2.last() == compile);
    assert(l3.last() == leave);
    assert(step(st, enter) == Ok::<_, ()>((inside, Seq::<RecordModel>::empty())));
    assert(Seq::<RecordModel>::empty() + Seq::<RecordModel>::empty() =~= Seq::<RecordModel>::empty());
    assert(run(st, l1.drop_last()) == (st, Seq::<RecordModel>::empty(), false));
    assert(run(st, l1) == (inside, Seq::<RecordModel>::empty(), false));
    assert(effective(inside) == d);
    let recs = match classify(compile, d, st.root) {
        Some(r) => r,
        None => Seq::<RecordModel>::empty(),
    };
    assert(step(inside, compile) == Ok::<_, ()>((inside, recs)));
    assert(Seq::<RecordModel>::empty() + recs =~= recs);
    assert(run(st, l2) == (inside, recs, false));
    assert(recs + Seq::<RecordModel>::empty() =~= recs);
}

} // verus!
