//! Laws of the path algebra.
use vstd::prelude::*;
use crate::path::{common_from, common_len, components, dots, relative, is_dot, is_dotdot, join, lead_count, norm, norm_segments, push_segment, scan, slashes};

verus! {

/// A segment that normalisation can keep: non-empty, not `.`, and free of
/// separators.
pub open spec fn seg_ok(x: Seq<char>) -> bool {
    x.len() > 0 && !is_dot(x) && forall|i: int| 0 <= i < x.len() ==> x[i] != '/'
}

/// A stack of kept segments: every segment can be kept, and a `..` stands
/// only in a relative path, behind nothing but other `..` segments.
pub open spec fn stack_ok(st: Seq<Seq<char>>, rel: bool) -> bool {
    &&& forall|i: int| 0 <= i < st.len() ==> seg_ok(#[trigger] st[i])
    &&& forall|i: int|
        0 <= i < st.len() && is_dotdot(#[trigger] st[i]) ==> rel && forall|j: int|
            0 <= j < i ==> is_dotdot(st[j])
}

/// A segment free of separators.
pub open spec fn no_sep(x: Seq<char>) -> bool {
    forall|i: int| 0 <= i < x.len() ==> x[i] != '/'
}

proof fn lemma_push_segment_ok(st: Seq<Seq<char>>, item: Seq<char>, rel: bool)
    requires
        stack_ok(st, rel),
        no_sep(item),
    ensures
        stack_ok(push_segment(st, item, rel), rel),
{
    let r = push_segment(st, item, rel);
    if item.len() == 0 || is_dot(item) {
    } else if !is_dotdot(item) || (rel && st.len() == 0) || (st.len() > 0 && is_dotdot(st.last())) {
        assert forall|i: int| 0 <= i < r.len() && is_dotdot(#[trigger] r[i]) implies rel && forall|
            j: int,
        | 0 <= j < i ==> is_dotdot(r[j]) by {
            if i == st.len() {
                if st.len() > 0 {
                    assert(is_dotdot(st[st.len() - 1]));
                }
                assert forall|j: int| 0 <= j < i implies is_dotdot(r[j]) by {
                    if j < st.len() - 1 {
                        assert(is_dotdot(st[st.len() - 1]));
                    }
                }
            } else {
                assert(r[i] == st[i]);
                assert forall|j: int| 0 <= j < i implies is_dotdot(r[j]) by {
                    assert(r[j] == st[j]);
                }
            }
        }
        assert forall|i: int| 0 <= i < r.len() implies seg_ok(#[trigger] r[i]) by {
            if i < st.len() {
                assert(r[i] == st[i]);
            }
        }
    } else if st.len() > 0 {
        assert forall|i: int| 0 <= i < r.len() implies seg_ok(#[trigger] r[i]) by {
            assert(r[i] == st[i]);
        }
        assert forall|i: int| 0 <= i < r.len() && is_dotdot(#[trigger] r[i]) implies rel && forall|
            j: int,
        | 0 <= j < i ==> is_dotdot(r[j]) by {
            assert(r[i] == st[i]);
            assert forall|j: int| 0 <= j < i implies is_dotdot(r[j]) by {
                assert(r[j] == st[j]);
            }
        }
    }
}

proof fn lemma_scan_ok(s: Seq<char>, rel: bool)
    ensures
        stack_ok(scan(s, rel).0, rel),
        no_sep(scan(s, rel).1),
    decreases s.len(),
{
    if s.len() > 0 {
        lemma_scan_ok(s.drop_last(), rel);
        let prev = scan(s.drop_last(), rel);
        if s.last() == '/' {
            lemma_push_segment_ok(prev.0, prev.1, rel);
        } else {
            let c = prev.1.push(s.last());
            assert forall|i: int| 0 <= i < c.len() implies c[i] != '/' by {
                if i < prev.1.len() {
                    assert(c[i] == prev.1[i]);
                }
            }
        }
    }
}

/// The kept segments of any path form a well-formed stack.
pub proof fn lemma_norm_segments_ok(s: Seq<char>)
    ensures
        stack_ok(norm_segments(s), lead_count(s) == 0),
{
    let rel = lead_count(s) == 0;
    lemma_scan_ok(s, rel);
    lemma_push_segment_ok(scan(s, rel).0, scan(s, rel).1, rel);
}

proof fn lemma_push_kept(st: Seq<Seq<char>>, x: Seq<char>, rel: bool)
    requires
        stack_ok(st.push(x), rel),
    ensures
        push_segment(st, x, rel) == st.push(x),
{
    let p = st.push(x);
    assert(p[st.len() as int] == x);
    assert(seg_ok(p[st.len() as int]));
    if is_dotdot(x) {
        if st.len() > 0 {
            assert(is_dotdot(p[st.len() - 1]));
            assert(p[st.len() - 1] == st.last());
        }
    }
}

proof fn lemma_stack_ok_prefix(st: Seq<Seq<char>>, rel: bool, k: int)
    requires
        stack_ok(st, rel),
        0 <= k <= st.len(),
    ensures
        stack_ok(st.subrange(0, k), rel),
{
    let p = st.subrange(0, k);
    assert forall|i: int| 0 <= i < p.len() implies seg_ok(#[trigger] p[i]) by {
        assert(p[i] == st[i]);
    }
    assert forall|i: int| 0 <= i < p.len() && is_dotdot(#[trigger] p[i]) implies rel && forall|
        j: int,
    | 0 <= j < i ==> is_dotdot(p[j]) by {
        assert(p[i] == st[i]);
        assert forall|j: int| 0 <= j < i implies is_dotdot(p[j]) by {
            assert(p[j] == st[j]);
        }
    }
}

proof fn lemma_scan_segment(p: Seq<char>, x: Seq<char>, rel: bool)
    requires
        no_sep(x),
    ensures
        scan(p + x, rel) == (scan(p, rel).0, scan(p, rel).1 + x),
    decreases x.len(),
{
    if x.len() == 0 {
        assert(p + x =~= p);
        assert(scan(p, rel).1 + x =~= scan(p, rel).1);
    } else {
        let y = x.drop_last();
        assert((p + x).drop_last() =~= p + y);
        assert((p + x).last() == x.last());
        assert(x[x.len() - 1] != '/');
        lemma_scan_segment(p, y, rel);
        assert((scan(p, rel).1 + y).push(x.last()) =~= scan(p, rel).1 + x);
    }
}

proof fn lemma_scan_slashes(n: nat, rel: bool)
    ensures
        scan(slashes(n), rel) == (Seq::<Seq<char>>::empty(), Seq::<char>::empty()),
    decreases n,
{
    if n > 0 {
        assert(slashes(n).drop_last() =~= slashes((n - 1) as nat));
        lemma_scan_slashes((n - 1) as nat, rel);
    }
}

proof fn lemma_scan_joined(n: nat, st: Seq<Seq<char>>, rel: bool, k: int)
    requires
        stack_ok(st, rel),
        1 <= k <= st.len(),
    ensures
        scan(slashes(n) + join(st.subrange(0, k)), rel) == (st.subrange(0, k - 1), st[k - 1]),
    decreases k,
{
    assert(seg_ok(st[k - 1]));
    if k == 1 {
        assert(join(st.subrange(0, 1)) == st[0]);
        lemma_scan_slashes(n, rel);
        lemma_scan_segment(slashes(n), st[0], rel);
        assert(Seq::<char>::empty() + st[0] =~= st[0]);
        assert(st.subrange(0, 0) =~= Seq::<Seq<char>>::empty());
    } else {
        let pre = st.subrange(0, k - 1);
        let cur = st.subrange(0, k);
        assert(cur.drop_last() =~= pre);
        assert(join(cur) == join(pre) + seq!['/'] + st[k - 1]);
        let a = slashes(n) + join(pre);
        let p = a.push('/');
        assert(slashes(n) + join(cur) =~= p + st[k - 1]);
        lemma_scan_joined(n, st, rel, k - 1);
        lemma_scan_segment(p, st[k - 1], rel);
        assert(p.drop_last() =~= a);
        lemma_stack_ok_prefix(st, rel, k);
        assert(st.subrange(0, k - 1) == st.subrange(0, k - 2).push(st[k - 2]));
        assert(st.subrange(0, k) =~= st.subrange(0, k - 1).push(st[k - 1]));
        assert(st.subrange(0, k - 2).push(st[k - 2]) =~= st.subrange(0, k - 1));
        lemma_push_kept(st.subrange(0, k - 2), st[k - 2], rel);
        assert(Seq::<char>::empty() + st[k - 1] =~= st[k - 1]);
    }
}

proof fn lemma_join_first(st: Seq<Seq<char>>)
    requires
        st.len() > 0,
        st[0].len() > 0,
    ensures
        join(st).len() > 0,
        join(st)[0] == st[0][0],
    decreases st.len(),
{
    if st.len() > 1 {
        let d = st.drop_last();
        assert(d[0] == st[0]);
        lemma_join_first(d);
    }
}

proof fn lemma_lead_of_norm(s: Seq<char>)
    ensures
        lead_count(norm(s)) == lead_count(s),
{
    let n = lead_count(s);
    let st = norm_segments(s);
    lemma_norm_segments_ok(s);
    let nn = norm(s);
    let j = join(st);
    assert(nn == slashes(n) + j);
    if st.len() > 0 {
        assert(seg_ok(st[0]));
        lemma_join_first(st);
        assert(nn[n as int] == st[0][0]);
        assert(st[0][0] != '/');
    } else {
        assert(j =~= Seq::<char>::empty());
    }
    if n >= 1 {
        assert(nn[0] == '/');
    }
    if n == 2 {
        assert(nn[1] == '/');
    }
}

/// Normalising twice gives what normalising once gives.
pub proof fn lemma_norm_idempotent(s: Seq<char>)
    ensures
        norm(norm(s)) == norm(s),
{
    let n = lead_count(s);
    let rel = n == 0;
    let st = norm_segments(s);
    lemma_norm_segments_ok(s);
    lemma_lead_of_norm(s);
    let nn = norm(s);
    if st.len() == 0 {
        assert(nn =~= slashes(n));
        lemma_scan_slashes(n, rel);
    } else {
        assert(st.subrange(0, st.len() as int) =~= st);
        lemma_scan_joined(n, st, rel, st.len() as int);
        assert(st.subrange(0, st.len() - 1).push(st[st.len() - 1]) =~= st);
        lemma_push_kept(st.subrange(0, st.len() - 1), st[st.len() - 1], rel);
    }
    assert(norm_segments(nn) == st);
}

proof fn lemma_common_self(a: Seq<Seq<char>>, i: int)
    requires
        0 <= i <= a.len(),
    ensures
        common_from(a, a, i) == a.len(),
    decreases a.len() - i,
{
    if i < a.len() {
        lemma_common_self(a, i + 1);
    }
}

/// The path from an absolute directory to itself is `.`.
pub proof fn lemma_relative_self(p: Seq<char>)
    requires
        p.len() > 0,
        p[0] == '/',
    ensures
        relative(p, p) == seq!['.'],
{
    let c = components(p);
    lemma_common_self(c, 0);
    assert(common_len(c, c) == c.len());
    assert(c.len() > 0);
    assert((dots(0) + c.subrange(c.len() as int, c.len() as int)).len() == 0);
}

} // verus!
