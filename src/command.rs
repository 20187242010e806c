//! Recognising compiler invocations in a line of a build transcript.
use vstd::prelude::*;
use crate::path::{absolute, absolute_chars, relative, relative_chars};
use crate::text::{
    chars_end_with, chars_from, chars_view, chars_of, chars_start_with, copy_chars, extend_chars, same_chars,
    string_of, strings_of,
};

verus! {

/// Whitespace as `char::is_whitespace` has it: the Unicode `White_Space`
/// property.
pub open spec fn is_ws(c: char) -> bool {
    let v = c as u32;
    (9 <= v <= 13) || v == 32 || v == 0x85 || v == 0xa0 || v == 0x1680 || (0x2000 <= v <= 0x200a)
        || v == 0x2028 || v == 0x2029 || v == 0x202f || v == 0x205f || v == 0x3000
}

fn is_ws_exec(c: char) -> (r: bool)
    ensures
        r == is_ws(c),
{
    let v = c as u32;
    (9 <= v && v <= 13) || v == 32 || v == 0x85 || v == 0xa0 || v == 0x1680 || (0x2000 <= v && v
        <= 0x200a) || v == 0x2028 || v == 0x2029 || v == 0x202f || v == 0x205f || v == 0x3000
}

/// Adds the token being read, if there is one, to the tokens.
pub open spec fn flush(toks: Seq<Seq<char>>, cur: Seq<char>) -> Seq<Seq<char>> {
    if cur.len() > 0 {
        toks.push(cur)
    } else {
        toks
    }
}

/// The state after reading the characters of `s`: the finished tokens and
/// the token being read.
pub open spec fn tok_scan(s: Seq<char>) -> (Seq<Seq<char>>, Seq<char>)
    decreases s.len(),
{
    if s.len() == 0 {
        (Seq::empty(), Seq::empty())
    } else {
        let prev = tok_scan(s.drop_last());
        if is_ws(s.last()) {
            (flush(prev.0, prev.1), Seq::empty())
        } else {
            (prev.0, prev.1.push(s.last()))
        }
    }
}

/// The maximal runs of non-whitespace characters of `s`, in order.
pub open spec fn tokens(s: Seq<char>) -> Seq<Seq<char>> {
    flush(tok_scan(s).0, tok_scan(s).1)
}

fn flush_exec(toks: &mut Vec<Vec<char>>, cur: Vec<char>)
    ensures
        chars_view(final(toks)@) == flush(chars_view(old(toks)@), cur@),
{
    if cur.len() > 0 {
        let ghost before = chars_view(toks@);
        toks.push(cur);
        assert(chars_view(toks@) =~= before.push(cur@));
    }
}

/// The whitespace-separated tokens of `line`.
pub fn tokenize(line: &Vec<char>) -> (r: Vec<Vec<char>>)
    ensures
        chars_view(r@) == tokens(line@),
{
    let mut toks: Vec<Vec<char>> = Vec::new();
    let mut cur: Vec<char> = Vec::new();
    let mut i: usize = 0;
    assert(chars_view(toks@) =~= Seq::<Seq<char>>::empty());
    while i < line.len()
        invariant
            i <= line@.len(),
            chars_view(toks@) == tok_scan(line@.subrange(0, i as int)).0,
            cur@ == tok_scan(line@.subrange(0, i as int)).1,
        decreases line@.len() - i,
    {
        assert(line@.subrange(0, i + 1).drop_last() =~= line@.subrange(0, i as int));
        if is_ws_exec(line[i]) {
            let done = cur;
            cur = Vec::new();
            flush_exec(&mut toks, done);
        } else {
            cur.push(line[i]);
        }
        i += 1;
    }
    assert(line@.subrange(0, line@.len() as int) =~= line@);
    flush_exec(&mut toks, cur);
    toks
}

/// A token that names a compiler.
pub open spec fn is_cc(t: Seq<char>) -> bool {
    crate::text::ends_with(t, "gcc"@) || crate::text::ends_with(t, "g++"@)
        || crate::text::ends_with(t, "clang"@) || crate::text::ends_with(t, "clang++"@)
}

/// A token that names a source file.
pub open spec fn is_src(t: Seq<char>) -> bool {
    crate::text::ends_with(t, ".c"@) || crate::text::ends_with(t, ".cc"@)
        || crate::text::ends_with(t, ".cpp"@) || crate::text::ends_with(t, ".cxx"@)
}

/// A token that names an object file.
pub open spec fn is_obj(t: Seq<char>) -> bool {
    crate::text::ends_with(t, ".o"@) || crate::text::ends_with(t, ".obj"@)
}

fn ends_with_str(t: &Vec<char>, suffix: &str) -> (r: bool)
    ensures
        r == crate::text::ends_with(t@, suffix@),
{
    let s = chars_of(suffix);
    chars_end_with(t.as_slice(), s.as_slice())
}

/// Whether the token names a compiler.
pub fn is_cc_exec(t: &Vec<char>) -> (r: bool)
    ensures
        r == is_cc(t@),
{
    ends_with_str(t, "gcc") || ends_with_str(t, "g++") || ends_with_str(t, "clang")
        || ends_with_str(t, "clang++")
}

/// Whether the token names a source file.
pub fn is_src_exec(t: &Vec<char>) -> (r: bool)
    ensures
        r == is_src(t@),
{
    ends_with_str(t, ".c") || ends_with_str(t, ".cc") || ends_with_str(t, ".cpp")
        || ends_with_str(t, ".cxx")
}

/// Whether the token names an object file.
pub fn is_obj_exec(t: &Vec<char>) -> (r: bool)
    ensures
        r == is_obj(t@),
{
    ends_with_str(t, ".o") || ends_with_str(t, ".obj")
}

/// Whether `s` ends with one of `targets`.
pub fn find_target(s: &str, targets: &[&str]) -> (r: bool)
    ensures
        r == exists|i: int| 0 <= i < targets@.len() && crate::text::ends_with(s@, #[trigger] targets@[i]@),
{
    let cs = chars_of(s);
    let mut i: usize = 0;
    while i < targets.len()
        invariant
            i <= targets@.len(),
            cs@ == s@,
            forall|j: int| 0 <= j < i ==> !crate::text::ends_with(s@, #[trigger] targets@[j]@),
        decreases targets@.len() - i,
    {
        let t = chars_of(targets[i]);
        if chars_end_with(cs.as_slice(), t.as_slice()) {
            return true;
        }
        i += 1;
    }
    false
}

/// The first token at or after `i` that names a compiler.
pub open spec fn find_cc(toks: Seq<Seq<char>>, i: int) -> Option<Seq<char>>
    decreases toks.len() - i,
{
    if i < 0 || i >= toks.len() {
        None
    } else if is_cc(toks[i]) {
        Some(toks[i])
    } else {
        find_cc(toks, i + 1)
    }
}

/// The tokens that name source files, in order.
pub open spec fn src_tokens(toks: Seq<Seq<char>>) -> Seq<Seq<char>>
    decreases toks.len(),
{
    if toks.len() == 0 {
        Seq::empty()
    } else if is_src(toks.last()) {
        src_tokens(toks.drop_last()).push(toks.last())
    } else {
        src_tokens(toks.drop_last())
    }
}

/// A path of the transcript made absolute against `dir` and then relative
/// to `root`.
pub open spec fn rebase(p: Seq<char>, dir: Seq<char>, root: Seq<char>) -> Seq<char> {
    relative(absolute(p, dir), root)
}

/// `x` followed by the arguments that follow, if any.
pub open spec fn prepend(x: Seq<char>, rest: Option<Seq<Seq<char>>>) -> Option<Seq<Seq<char>>> {
    match rest {
        Some(r) => Some(seq![x] + r),
        None => None,
    }
}

/// The arguments that the tokens from `i` on contribute to every record:
/// include paths rebased, macro definitions joined to their value, object
/// files rebased, compiler and source tokens left out, everything else as it
/// stands. A line whose last token is a bare `-I` or `-D` lacks that flag's
/// value: it is a malformed line, and yields no arguments and no records.
pub open spec fn base_args(toks: Seq<Seq<char>>, i: int, dir: Seq<char>, root: Seq<char>) -> Option<
    Seq<Seq<char>>,
>
    decreases toks.len() - i,
{
    if i < 0 || i >= toks.len() {
        Some(Seq::empty())
    } else {
        let t = toks[i];
        if crate::text::starts_with(t, "-I"@) {
            if t == "-I"@ {
                if i + 1 < toks.len() {
                    prepend(t + rebase(toks[i + 1], dir, root), base_args(toks, i + 2, dir, root))
                } else {
                    None
                }
            } else {
                prepend(
                    "-I"@ + rebase(t.subrange(2, t.len() as int), dir, root),
                    base_args(toks, i + 1, dir, root),
                )
            }
        } else if crate::text::starts_with(t, "-D"@) {
            if t == "-D"@ {
                if i + 1 < toks.len() {
                    prepend(t + toks[i + 1], base_args(toks, i + 2, dir, root))
                } else {
                    None
                }
            } else {
                prepend(t, base_args(toks, i + 1, dir, root))
            }
        } else if is_obj(t) {
            prepend(rebase(t, dir, root), base_args(toks, i + 1, dir, root))
        } else if !is_src(t) && !is_cc(t) {
            prepend(t, base_args(toks, i + 1, dir, root))
        } else {
            base_args(toks, i + 1, dir, root)
        }
    }
}

/// The index of the first token that names a compiler.
pub fn find_cc_exec(toks: &Vec<Vec<char>>) -> (r: Option<usize>)
    ensures
        match r {
            Some(i) => i < toks@.len() && find_cc(chars_view(toks@), 0) == Some(toks@[i as int]@),
            None => find_cc(chars_view(toks@), 0) is None,
        },
{
    let ghost tv = chars_view(toks@);
    let mut i: usize = 0;
    while i < toks.len()
        invariant
            i <= toks@.len(),
            tv == chars_view(toks@),
            find_cc(tv, 0) == find_cc(tv, i as int),
        decreases toks@.len() - i,
    {
        assert(tv[i as int] == toks@[i as int]@);
        if is_cc_exec(&toks[i]) {
            return Some(i);
        }
        i += 1;
    }
    None
}

/// The tokens that name source files, in order.
pub fn src_tokens_exec(toks: &Vec<Vec<char>>) -> (r: Vec<Vec<char>>)
    ensures
        chars_view(r@) == src_tokens(chars_view(toks@)),
{
    let ghost tv = chars_view(toks@);
    let mut r: Vec<Vec<char>> = Vec::new();
    let mut i: usize = 0;
    assert(chars_view(r@) =~= Seq::<Seq<char>>::empty());
    assert(tv.subrange(0, 0) =~= Seq::<Seq<char>>::empty());
    while i < toks.len()
        invariant
            i <= toks@.len(),
            tv == chars_view(toks@),
            chars_view(r@) == src_tokens(tv.subrange(0, i as int)),
        decreases toks@.len() - i,
    {
        let ghost pre = tv.subrange(0, i as int);
        let ghost next = tv.subrange(0, i + 1);
        assert(next.drop_last() =~= pre);
        assert(next.last() == toks@[i as int]@);
        if is_src_exec(&toks[i]) {
            let ghost before = chars_view(r@);
            let t = copy_chars(toks[i].as_slice());
            r.push(t);
            assert(chars_view(r@) =~= before.push(t@));
        }
        i += 1;
    }
    assert(tv.subrange(0, toks@.len() as int) =~= tv);
    r
}

/// `p` made absolute against `dir` and then relative to `root`.
pub fn rebase_exec(p: &Vec<char>, dir: &Vec<char>, root: &Vec<char>) -> (r: Vec<char>)
    requires
        dir@.len() > 0,
    ensures
        r@ == rebase(p@, dir@, root@),
{
    let a = absolute_chars(p, dir);
    relative_chars(&a, root)
}

/// `acc` followed by the arguments that follow, if any.
pub open spec fn prepend_all(acc: Seq<Seq<char>>, rest: Option<Seq<Seq<char>>>) -> Option<
    Seq<Seq<char>>,
> {
    match rest {
        Some(r) => Some(acc + r),
        None => None,
    }
}

proof fn lemma_prepend_step(acc: Seq<Seq<char>>, x: Seq<char>, rest: Option<Seq<Seq<char>>>)
    ensures
        prepend_all(acc, prepend(x, rest)) == prepend_all(acc.push(x), rest),
{
    if let Some(r) = rest {
        assert(acc + (seq![x] + r) =~= acc.push(x) + r);
    }
}

fn push_arg(acc: &mut Vec<Vec<char>>, x: Vec<char>)
    ensures
        chars_view(final(acc)@) == chars_view(old(acc)@).push(x@),
{
    let ghost before = chars_view(acc@);
    acc.push(x);
    assert(chars_view(acc@) =~= before.push(x@));
}

fn concat_chars(a: &Vec<char>, b: &Vec<char>) -> (r: Vec<char>)
    ensures
        r@ == a@ + b@,
{
    let mut r = copy_chars(a.as_slice());
    extend_chars(&mut r, b.as_slice());
    r
}

/// The arguments that the tokens contribute to every record, or `None`
/// where a bare `-I` or `-D` ends the line.
pub fn base_args_exec(toks: &Vec<Vec<char>>, dir: &Vec<char>, root: &Vec<char>) -> (r: Option<
    Vec<Vec<char>>,
>)
    requires
        dir@.len() > 0,
    ensures
        match r {
            Some(v) => base_args(chars_view(toks@), 0, dir@, root@) == Some(chars_view(v@)),
            None => base_args(chars_view(toks@), 0, dir@, root@) is None,
        },
{
    let ghost tv = chars_view(toks@);
    let dash_i = chars_of("-I");
    let dash_d = chars_of("-D");
    let mut acc: Vec<Vec<char>> = Vec::new();
    let mut i: usize = 0;
    assert(chars_view(acc@) =~= Seq::<Seq<char>>::empty());
    assert(prepend_all(Seq::empty(), base_args(tv, 0, dir@, root@)) == base_args(tv, 0, dir@, root@)) by {
        if let Some(r) = base_args(tv, 0, dir@, root@) {
            assert(Seq::<Seq<char>>::empty() + r =~= r);
        }
    }
    while i < toks.len()
        invariant
            i <= toks@.len(),
            dir@.len() > 0,
            tv == chars_view(toks@),
            dash_i@ == "-I"@,
            dash_d@ == "-D"@,
            base_args(tv, 0, dir@, root@) == prepend_all(chars_view(acc@), base_args(tv, i as int, dir@, root@)),
        decreases toks@.len() - i,
    {
        let t = &toks[i];
        let ghost a = chars_view(acc@);
        assert(tv[i as int] == t@);
        if chars_start_with(t.as_slice(), dash_i.as_slice()) {
            if same_chars(t.as_slice(), dash_i.as_slice()) {
                if i + 1 < toks.len() {
                    assert(tv[i + 1] == toks@[i + 1]@);
                    let rb = rebase_exec(&toks[i + 1], dir, root);
                    let x = concat_chars(t, &rb);
                    proof { lemma_prepend_step(a, x@, base_args(tv, i + 2, dir@, root@)); }
                    push_arg(&mut acc, x);
                    i += 2;
                } else {
                    return None;
                }
            } else {
                proof {
                    reveal_strlit("-I");
                }
                let rest = chars_from(t.as_slice(), 2);
                let rb = rebase_exec(&rest, dir, root);
                let x = concat_chars(&dash_i, &rb);
                proof { lemma_prepend_step(a, x@, base_args(tv, i + 1, dir@, root@)); }
                push_arg(&mut acc, x);
                i += 1;
            }
        } else if chars_start_with(t.as_slice(), dash_d.as_slice()) {
            if same_chars(t.as_slice(), dash_d.as_slice()) {
                if i + 1 < toks.len() {
                    assert(tv[i + 1] == toks@[i + 1]@);
                    let x = concat_chars(t, &toks[i + 1]);
                    proof { lemma_prepend_step(a, x@, base_args(tv, i + 2, dir@, root@)); }
                    push_arg(&mut acc, x);
                    i += 2;
                } else {
                    return None;
                }
            } else {
                let x = copy_chars(t.as_slice());
                proof { lemma_prepend_step(a, x@, base_args(tv, i + 1, dir@, root@)); }
                push_arg(&mut acc, x);
                i += 1;
            }
        } else if is_obj_exec(t) {
            let x = rebase_exec(t, dir, root);
            proof { lemma_prepend_step(a, x@, base_args(tv, i + 1, dir@, root@)); }
            push_arg(&mut acc, x);
            i += 1;
        } else if !is_src_exec(t) && !is_cc_exec(t) {
            let x = copy_chars(t.as_slice());
            proof { lemma_prepend_step(a, x@, base_args(tv, i + 1, dir@, root@)); }
            push_arg(&mut acc, x);
            i += 1;
        } else {
            i += 1;
        }
    }
    assert(prepend_all(chars_view(acc@), Some(Seq::empty())) == Some(chars_view(acc@))) by {
        assert(chars_view(acc@) + Seq::<Seq<char>>::empty() =~= chars_view(acc@));
    }
    Some(acc)
}

/// What one compile record holds.
pub struct RecordModel {
    pub directory: Seq<char>,
    pub file: Seq<char>,
    pub arguments: Seq<Seq<char>>,
}

/// One entry of the compile command database: the directory that the
/// paths are relative to, the source file, and the full argument list.
#[derive(Debug, Clone, PartialEq, Eq)]
pub struct CompileRecord {
    pub directory: String,
    pub file: String,
    pub arguments: Vec<String>,
}

impl View for CompileRecord {
    type V = RecordModel;

    open spec fn view(&self) -> RecordModel {
        RecordModel {
            directory: self.directory@,
            file: self.file@,
            arguments: self.arguments@.map_values(|a: String| a@),
        }
    }
}

/// The models of a sequence of records.
pub open spec fn records_view(v: Seq<CompileRecord>) -> Seq<RecordModel> {
    v.map_values(|r: CompileRecord| r@)
}

/// The record for source token `f`: its path rebased onto `root` is both
/// the file and the last argument, after the compiler and the base
/// arguments.
pub open spec fn record_for(
    cc: Seq<char>,
    args: Seq<Seq<char>>,
    f: Seq<char>,
    dir: Seq<char>,
    root: Seq<char>,
) -> RecordModel {
    RecordModel {
        directory: root,
        file: rebase(f, dir, root),
        arguments: seq![cc] + args + seq![rebase(f, dir, root)],
    }
}

/// The records that `line` yields when `dir` is the directory in effect
/// and `root` the build root: one per source token, provided the line
/// names a compiler and at least one source file. A line that ends on a
/// bare `-I` or `-D` is malformed and yields nothing.
pub open spec fn classify(line: Seq<char>, dir: Seq<char>, root: Seq<char>) -> Option<
    Seq<RecordModel>,
> {
    let toks = tokens(line);
    let files = src_tokens(toks);
    match (find_cc(toks, 0), base_args(toks, 0, dir, root)) {
        (Some(cc), Some(args)) => if files.len() == 0 {
            None
        } else {
            Some(files.map_values(|f: Seq<char>| record_for(cc, args, f, dir, root)))
        },
        _ => None,
    }
}

fn args_for(cc: &Vec<char>, args: &Vec<Vec<char>>, f: &Vec<char>) -> (r: Vec<Vec<char>>)
    ensures
        chars_view(r@) == seq![cc@] + chars_view(args@) + seq![f@],
{
    let mut r: Vec<Vec<char>> = Vec::new();
    push_arg(&mut r, copy_chars(cc.as_slice()));
    let mut i: usize = 0;
    while i < args.len()
        invariant
            i <= args@.len(),
            chars_view(r@) == seq![cc@] + chars_view(args@).subrange(0, i as int),
        decreases args@.len() - i,
    {
        let x = copy_chars(args[i].as_slice());
        push_arg(&mut r, x);
        assert(chars_view(args@).subrange(0, i + 1) =~= chars_view(args@).subrange(0, i as int).push(args@[i as int]@));
        i += 1;
        assert(chars_view(r@) =~= seq![cc@] + chars_view(args@).subrange(0, i as int));
    }
    assert(chars_view(args@).subrange(0, args@.len() as int) =~= chars_view(args@));
    push_arg(&mut r, copy_chars(f.as_slice()));
    assert(chars_view(r@) =~= seq![cc@] + chars_view(args@) + seq![f@]);
    r
}

/// The records that `line` yields when `dir` is the directory in effect and
/// `root` the build root.
pub fn classify_exec(line: &Vec<char>, dir: &Vec<char>, root: &Vec<char>) -> (r: Option<
    Vec<CompileRecord>,
>)
    requires
        dir@.len() > 0,
    ensures
        match r {
            Some(v) => classify(line@, dir@, root@) == Some(records_view(v@)),
            None => classify(line@, dir@, root@) is None,
        },
{
    let toks = tokenize(line);
    let cc = match find_cc_exec(&toks) {
        Some(i) => &toks[i],
        None => return None,
    };
    let files = src_tokens_exec(&toks);
    if files.len() == 0 {
        return None;
    }
    let args = match base_args_exec(&toks, dir, root) {
        Some(a) => a,
        None => return None,
    };
    let ghost fv = chars_view(files@);
    let ghost av = chars_view(args@);
    let ghost model = |f: Seq<char>| record_for(cc@, av, f, dir@, root@);
    let mut out: Vec<CompileRecord> = Vec::new();
    let mut j: usize = 0;
    while j < files.len()
        invariant
            j <= files@.len(),
            dir@.len() > 0,
            fv == chars_view(files@),
            av == chars_view(args@),
            model == (|f: Seq<char>| record_for(cc@, av, f, dir@, root@)),
            records_view(out@) == fv.subrange(0, j as int).map_values(model),
        decreases files@.len() - j,
    {
        let file = rebase_exec(&files[j], dir, root);
        let all = args_for(cc, &args, &file);
        let rec = CompileRecord {
            directory: string_of(root.as_slice()),
            file: string_of(file.as_slice()),
            arguments: strings_of(&all),
        };
        assert(rec@.arguments =~= chars_view(all@));
        assert(rec@ == model(fv[j as int]));
        let ghost before = records_view(out@);
        out.push(rec);
        assert(records_view(out@) =~= before.push(rec@));
        assert(fv.subrange(0, j + 1).map_values(model) =~= fv.subrange(0, j as int).map_values(model).push(model(fv[j as int])));
        j += 1;
    }
    assert(fv.subrange(0, files@.len() as int) =~= fv);
    Some(out)
}

} // verus!
