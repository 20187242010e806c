//! Lexical path algebra: normalisation, absolutisation and relativisation.
//! Nothing here touches the filesystem.
use vstd::prelude::*;
use crate::text::{chars_view, copy_chars, extend_chars, same_chars};

verus! {

/// The segment `.`.
pub open spec fn is_dot(x: Seq<char>) -> bool {
    x == seq!['.']
}

/// The segment `..`.
pub open spec fn is_dotdot(x: Seq<char>) -> bool {
    x == seq!['.', '.']
}

/// How many leading separators normalisation keeps: none for a relative
/// path, two for a path that begins with exactly two, one for any other
/// absolute path.
pub open spec fn lead_count(s: Seq<char>) -> nat {
    if s.len() > 0 && s[0] == '/' {
        if s.len() >= 2 && s[1] == '/' && !(s.len() >= 3 && s[2] == '/') {
            2
        } else {
            1
        }
    } else {
        0
    }
}

/// Adds one segment to the stack of kept segments: empty and `.` segments
/// are dropped, `..` cancels the segment before it unless that one is `..`
/// too, and a relative path keeps its leading `..` segments.
pub open spec fn push_segment(st: Seq<Seq<char>>, item: Seq<char>, rel: bool) -> Seq<Seq<char>> {
    if item.len() == 0 || is_dot(item) {
        st
    } else if !is_dotdot(item) || (rel && st.len() == 0) || (st.len() > 0 && is_dotdot(st.last())) {
        st.push(item)
    } else if st.len() > 0 {
        st.drop_last()
    } else {
        st
    }
}

/// The state after reading the characters of `s`: the stack of kept
/// segments and the segment being read.
pub open spec fn scan(s: Seq<char>, rel: bool) -> (Seq<Seq<char>>, Seq<char>)
    decreases s.len(),
{
    if s.len() == 0 {
        (Seq::empty(), Seq::empty())
    } else {
        let prev = scan(s.drop_last(), rel);
        if s.last() == '/' {
            (push_segment(prev.0, prev.1, rel), Seq::empty())
        } else {
            (prev.0, prev.1.push(s.last()))
        }
    }
}

/// The segments that normalisation keeps, in order.
pub open spec fn norm_segments(s: Seq<char>) -> Seq<Seq<char>> {
    let rel = lead_count(s) == 0;
    push_segment(scan(s, rel).0, scan(s, rel).1, rel)
}

/// `n` separators.
pub open spec fn slashes(n: nat) -> Seq<char> {
    Seq::new(n, |i: int| '/')
}

/// The parts joined by single separators.
pub open spec fn join(parts: Seq<Seq<char>>) -> Seq<char>
    decreases parts.len(),
{
    if parts.len() == 0 {
        Seq::empty()
    } else if parts.len() == 1 {
        parts[0]
    } else {
        join(parts.drop_last()) + seq!['/'] + parts.last()
    }
}

/// The lexically normalised form of `s`.
pub open spec fn norm(s: Seq<char>) -> Seq<char> {
    slashes(lead_count(s)) + join(norm_segments(s))
}

fn is_dot_exec(x: &Vec<char>) -> (r: bool)
    ensures
        r == is_dot(x@),
{
    let r = x.len() == 1 && x[0] == '.';
    assert(r ==> x@ =~= seq!['.']);
    r
}

fn is_dotdot_exec(x: &Vec<char>) -> (r: bool)
    ensures
        r == is_dotdot(x@),
{
    let r = x.len() == 2 && x[0] == '.' && x[1] == '.';
    assert(r ==> x@ =~= seq!['.', '.']);
    r
}

fn push_segment_exec(st: &mut Vec<Vec<char>>, item: Vec<char>, rel: bool)
    ensures
        chars_view(final(st)@) == push_segment(chars_view(old(st)@), item@, rel),
{
    let ghost old_view = chars_view(st@);
    if item.len() == 0 || is_dot_exec(&item) {
        return;
    }
    let n = st.len();
    let last_is_dotdot = n > 0 && is_dotdot_exec(&st[n - 1]);
    if !is_dotdot_exec(&item) || (rel && n == 0) || last_is_dotdot {
        st.push(item);
        assert(chars_view(st@) =~= old_view.push(item@));
    } else if n > 0 {
        st.pop();
        assert(chars_view(st@) =~= old_view.drop_last());
    }
}

fn lead_count_exec(s: &Vec<char>) -> (r: usize)
    ensures
        r == lead_count(s@),
{
    if s.len() > 0 && s[0] == '/' {
        if s.len() >= 2 && s[1] == '/' && !(s.len() >= 3 && s[2] == '/') {
            2
        } else {
            1
        }
    } else {
        0
    }
}

/// The kept segments of `s` and its count of leading separators.
pub fn norm_parts(s: &Vec<char>) -> (r: (usize, Vec<Vec<char>>))
    ensures
        r.0 == lead_count(s@),
        chars_view(r.1@) == norm_segments(s@),
{
    let lead = lead_count_exec(s);
    let rel = lead == 0;
    let mut st: Vec<Vec<char>> = Vec::new();
    let mut cur: Vec<char> = Vec::new();
    let mut i: usize = 0;
    assert(chars_view(st@) =~= Seq::<Seq<char>>::empty());
    while i < s.len()
        invariant
            i <= s@.len(),
            rel == (lead_count(s@) == 0),
            chars_view(st@) == scan(s@.subrange(0, i as int), rel).0,
            cur@ == scan(s@.subrange(0, i as int), rel).1,
        decreases s@.len() - i,
    {
        assert(s@.subrange(0, i + 1).drop_last() =~= s@.subrange(0, i as int));
        if s[i] == '/' {
            let done = cur;
            cur = Vec::new();
            push_segment_exec(&mut st, done, rel);
        } else {
            cur.push(s[i]);
        }
        i += 1;
    }
    assert(s@.subrange(0, s@.len() as int) =~= s@);
    push_segment_exec(&mut st, cur, rel);
    (lead, st)
}

/// Appends the parts joined by single separators to `out`.
pub fn join_into(out: &mut Vec<char>, parts: &Vec<Vec<char>>)
    ensures
        final(out)@ == old(out)@ + join(chars_view(parts@)),
{
    let mut j: usize = 0;
    while j < parts.len()
        invariant
            j <= parts@.len(),
            out@ == old(out)@ + join(chars_view(parts@).subrange(0, j as int)),
        decreases parts@.len() - j,
    {
        let ghost pre = chars_view(parts@).subrange(0, j as int);
        let ghost next = chars_view(parts@).subrange(0, j + 1);
        assert(next.drop_last() =~= pre);
        if j > 0 {
            out.push('/');
        }
        extend_chars(out, parts[j].as_slice());
        j += 1;
        assert(out@ =~= old(out)@ + join(next));
    }
    assert(chars_view(parts@).subrange(0, parts@.len() as int) =~= chars_view(parts@));
}

/// Appends `n` separators to `out`.
fn push_slashes(out: &mut Vec<char>, n: usize)
    ensures
        final(out)@ == old(out)@ + slashes(n as nat),
{
    let mut k: usize = 0;
    while k < n
        invariant
            k <= n,
            out@ == old(out)@ + slashes(k as nat),
        decreases n - k,
    {
        out.push('/');
        k += 1;
        assert(out@ =~= old(out)@ + slashes(k as nat));
    }
}

/// The lexically normalised form of `s`, as characters.
pub fn norm_chars(s: &Vec<char>) -> (r: Vec<char>)
    ensures
        r@ == norm(s@),
{
    let (lead, st) = norm_parts(s);
    let mut out: Vec<char> = Vec::new();
    push_slashes(&mut out, lead);
    join_into(&mut out, &st);
    assert(out@ =~= norm(s@));
    out
}

/// `norm(base)`, a separator, and `norm(path)` normalised together; an
/// absolute `path` is only normalised. Resolving a relative path needs a
/// base: the functions that compute this ask for a non-empty one.
pub open spec fn absolute(path: Seq<char>, base: Seq<char>) -> Seq<char> {
    if lead_count(path) > 0 {
        norm(path)
    } else {
        norm(norm(base) + seq!['/'] + norm(path))
    }
}

/// The components of a path after normalisation: for an absolute path the
/// root, written `/`, and then the kept segments.
pub open spec fn components(s: Seq<char>) -> Seq<Seq<char>> {
    if lead_count(s) > 0 {
        seq![seq!['/']] + norm_segments(s)
    } else {
        norm_segments(s)
    }
}

/// The length of the longest common prefix of `a` and `b` that extends the
/// first `i` elements.
pub open spec fn common_from(a: Seq<Seq<char>>, b: Seq<Seq<char>>, i: int) -> int
    decreases a.len() - i,
{
    if 0 <= i < a.len() && i < b.len() && a[i] == b[i] {
        common_from(a, b, i + 1)
    } else {
        i
    }
}

/// The length of the longest common prefix of `a` and `b`.
pub open spec fn common_len(a: Seq<Seq<char>>, b: Seq<Seq<char>>) -> int {
    common_from(a, b, 0)
}

/// `n` segments `..`.
pub open spec fn dots(n: nat) -> Seq<Seq<char>> {
    Seq::new(n, |i: int| seq!['.', '.'])
}

/// The path that leads from `base` to `target`: after the components that
/// both share, one `..` for each remaining component of `base`, then the
/// remaining components of `target`; `.` when nothing remains. Paths that
/// share no component give the normalised `target`.
pub open spec fn relative(target: Seq<char>, base: Seq<char>) -> Seq<char> {
    let ct = components(target);
    let cb = components(base);
    let k = common_len(ct, cb);
    if k == 0 {
        if ct.len() == 0 && cb.len() == 0 {
            seq!['.']
        } else {
            norm(target)
        }
    } else {
        let parts = dots((cb.len() - k) as nat) + ct.subrange(k, ct.len() as int);
        if parts.len() == 0 {
            seq!['.']
        } else {
            join(parts)
        }
    }
}

/// The absolute form of `path` against `base`, as characters.
pub fn absolute_chars(path: &Vec<char>, base: &Vec<char>) -> (r: Vec<char>)
    requires
        base@.len() > 0 || lead_count(path@) > 0,
    ensures
        r@ == absolute(path@, base@),
{
    let np = norm_chars(path);
    if lead_count_exec(path) > 0 {
        return np;
    }
    let mut joined = norm_chars(base);
    joined.push('/');
    extend_chars(&mut joined, np.as_slice());
    assert(joined@ =~= norm(base@) + seq!['/'] + norm(path@));
    norm_chars(&joined)
}

fn components_exec(s: &Vec<char>) -> (r: Vec<Vec<char>>)
    ensures
        chars_view(r@) == components(s@),
{
    let (lead, mut st) = norm_parts(s);
    if lead > 0 {
        let ghost before = chars_view(st@);
        let root: Vec<char> = vec!['/'];
        st.insert(0, root);
        assert(root@ =~= seq!['/']);
        assert(chars_view(st@) =~= seq![seq!['/']] + before);
    }
    st
}

fn common_len_exec(a: &Vec<Vec<char>>, b: &Vec<Vec<char>>) -> (r: usize)
    ensures
        r as int == common_len(chars_view(a@), chars_view(b@)),
        r <= a@.len(),
        r <= b@.len(),
{
    let ghost va = chars_view(a@);
    let ghost vb = chars_view(b@);
    let mut i: usize = 0;
    while i < a.len() && i < b.len() && same_chars(a[i].as_slice(), b[i].as_slice())
        invariant
            i <= a@.len(),
            i <= b@.len(),
            va == chars_view(a@),
            vb == chars_view(b@),
            common_from(va, vb, 0) == common_from(va, vb, i as int),
        decreases a@.len() - i,
    {
        assert(va[i as int] == a@[i as int]@);
        i += 1;
    }
    if i < a.len() && i < b.len() {
        assert(va[i as int] == a@[i as int]@);
        assert(vb[i as int] == b@[i as int]@);
    }
    i
}

/// The path that leads from `base` to `target`, as characters.
pub fn relative_chars(target: &Vec<char>, base: &Vec<char>) -> (r: Vec<char>)
    ensures
        r@ == relative(target@, base@),
{
    let ct = components_exec(target);
    let cb = components_exec(base);
    let k = common_len_exec(&ct, &cb);
    let ghost vt = chars_view(ct@);
    if k == 0 {
        if ct.len() == 0 && cb.len() == 0 {
            return vec!['.'];
        }
        return norm_chars(target);
    }
    let mut parts: Vec<Vec<char>> = Vec::new();
    let ups = cb.len() - k;
    let mut j: usize = 0;
    while j < ups
        invariant
            j <= ups,
            chars_view(parts@) == dots(j as nat),
        decreases ups - j,
    {
        let ghost before = chars_view(parts@);
        let up: Vec<char> = vec!['.', '.'];
        parts.push(up);
        j += 1;
        assert(up@ =~= seq!['.', '.']);
        assert(chars_view(parts@) =~= before.push(up@));
        assert(chars_view(parts@) =~= dots(j as nat));
    }
    let mut i: usize = k;
    while i < ct.len()
        invariant
            k <= i <= ct@.len(),
            vt == chars_view(ct@),
            chars_view(parts@) == dots(ups as nat) + vt.subrange(k as int, i as int),
        decreases ct@.len() - i,
    {
        let seg = copy_chars(ct[i].as_slice());
        let ghost before = chars_view(parts@);
        assert(seg@ == vt[i as int]);
        parts.push(seg);
        assert(chars_view(parts@) =~= before.push(seg@));
        assert(vt.subrange(k as int, i + 1) =~= vt.subrange(k as int, i as int).push(vt[i as int]));
        i += 1;
        assert(chars_view(parts@) =~= dots(ups as nat) + vt.subrange(k as int, i as int));
    }
    if parts.len() == 0 {
        return vec!['.'];
    }
    let mut out: Vec<char> = Vec::new();
    join_into(&mut out, &parts);
    assert(out@ =~= join(chars_view(parts@)));
    out
}

} // verus!
