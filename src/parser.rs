//! The line parser: tracks the directory announced by the build tool and
//! turns compiler invocations into compile records.
use vstd::prelude::*;
use crate::command::{classify, classify_exec, records_view, tokenize, CompileRecord, RecordModel};
use crate::path::{absolute, absolute_chars, lead_count, norm, norm_chars, relative, relative_chars};
use crate::text::{chars_contain, chars_view, chars_of, chars_start_with, contains, copy_chars, same_chars, starts_with, string_of};

verus! {

/// The state of the directory tracker.
pub struct TrackerState {
    pub root: Seq<char>,
    pub current: Seq<char>,
}

/// The directory against which a source path is resolved: the current
/// directory, or the build root while none is set.
pub open spec fn effective(st: TrackerState) -> Seq<char> {
    if st.current.len() == 0 {
        st.root
    } else {
        st.current
    }
}

/// A line that announces entry into a directory.
pub open spec fn is_enter_line(l: Seq<char>) -> bool {
    (contains(l, "Make[1]"@) && contains(l, "Entering directory"@)) || contains(l, "+ cd"@)
}

/// A line that announces leaving a directory.
pub open spec fn is_leave_line(l: Seq<char>) -> bool {
    contains(l, "Make[1]"@) && contains(l, "Leaving directory"@)
}

/// A token that can name the directory of an announcement: it begins with a
/// separator or holds a quote followed by one.
pub open spec fn is_dir_token(t: Seq<char>) -> bool {
    contains(t, "'/"@) || starts_with(t, "/"@)
}

/// The tokens that can name the directory of an announcement, in order.
pub open spec fn dir_tokens(toks: Seq<Seq<char>>) -> Seq<Seq<char>>
    decreases toks.len(),
{
    if toks.len() == 0 {
        Seq::empty()
    } else if is_dir_token(toks.last()) {
        dir_tokens(toks.drop_last()).push(toks.last())
    } else {
        dir_tokens(toks.drop_last())
    }
}

/// A token with its surrounding quotes taken off.
pub open spec fn unquote(t: Seq<char>) -> Seq<char> {
    if t.len() >= 2 && t[0] == '\'' {
        t.subrange(1, t.len() - 1)
    } else {
        t
    }
}

/// The directory that an announcement names, where it names exactly one.
pub open spec fn announced(line: Seq<char>) -> Option<Seq<char>> {
    let d = dir_tokens(crate::command::tokens(line));
    if d.len() == 1 {
        Some(unquote(d[0]))
    } else {
        None
    }
}

/// What the directory tracker made of a line.
#[derive(Debug, Clone, Copy, PartialEq, Eq, Structural)]
pub enum Directive {
    /// The line announced entry into a directory, which is now current.
    Entered,
    /// The line announced leaving the current directory.
    Left,
    /// The line is an announcement that names no directory, or more than one;
    /// it is skipped.
    Malformed,
    /// The line is no announcement.
    NotADirective,
}

/// A fault that ends the parse.
#[derive(Debug, Clone, PartialEq, Eq)]
pub enum ParseError {
    /// A directory was left that is not the current one.
    DirectoryMismatch { expected: String, found: String },
}

/// What the tracker does with a line: the next state and the directive, or
/// `Err` with the current and the announced directory where a line leaves a
/// directory that is not the current one.
pub open spec fn observe(st: TrackerState, line: Seq<char>) -> Result<
    (TrackerState, Directive),
    (Seq<char>, Seq<char>),
> {
    if is_enter_line(line) {
        match announced(line) {
            Some(d) => Ok((TrackerState { root: st.root, current: d }, Directive::Entered)),
            None => Ok((st, Directive::Malformed)),
        }
    } else if is_leave_line(line) {
        match announced(line) {
            Some(d) => if d == st.current {
                Ok((TrackerState { root: st.root, current: Seq::empty() }, Directive::Left))
            } else {
                Err((st.current, d))
            },
            None => Ok((st, Directive::Malformed)),
        }
    } else {
        Ok((st, Directive::NotADirective))
    }
}

/// The records that a line yields and the state after it, or `Err` where the
/// line leaves a directory that is not the current one.
pub open spec fn step(st: TrackerState, line: Seq<char>) -> Result<(TrackerState, Seq<RecordModel>), ()> {
    match observe(st, line) {
        Ok((next, d)) => if d == Directive::NotADirective {
            match classify(line, effective(next), next.root) {
                Some(recs) => Ok((next, recs)),
                None => Ok((next, Seq::empty())),
            }
        } else {
            Ok((next, Seq::empty()))
        },
        Err(_) => Err(()),
    }
}

/// The state after the lines, the records that they yield in order, and
/// whether a line ended the parse; the records stop at that line.
pub open spec fn run(st: TrackerState, lines: Seq<Seq<char>>) -> (TrackerState, Seq<RecordModel>, bool)
    decreases lines.len(),
{
    if lines.len() == 0 {
        (st, Seq::empty(), false)
    } else {
        let prev = run(st, lines.drop_last());
        if prev.2 {
            prev
        } else {
            match step(prev.0, lines.last()) {
                Ok((next, recs)) => (next, prev.1 + recs, false),
                Err(_) => (prev.0, prev.1, true),
            }
        }
    }
}

/// Once a line has ended the parse, further lines change nothing.
pub proof fn lemma_run_failed_stays(st: TrackerState, lines: Seq<Seq<char>>, j: int)
    requires
        0 <= j <= lines.len(),
        run(st, lines.subrange(0, j)).2,
    ensures
        run(st, lines) == run(st, lines.subrange(0, j)),
    decreases lines.len(),
{
    if lines.len() == j {
        assert(lines.subrange(0, j) =~= lines);
    } else {
        let d = lines.drop_last();
        assert(d.subrange(0, j) =~= lines.subrange(0, j));
        lemma_run_failed_stays(st, d, j);
    }
}

/// The records that a line yields; none where it ends the parse.
pub open spec fn step_records(st: TrackerState, line: Seq<char>) -> Seq<RecordModel> {
    match step(st, line) {
        Ok((_, recs)) => recs,
        Err(_) => Seq::empty(),
    }
}

/// The state after a line; unchanged where it ends the parse.
pub open spec fn step_state(st: TrackerState, line: Seq<char>) -> TrackerState {
    match step(st, line) {
        Ok((next, _)) => next,
        Err(_) => st,
    }
}

/// The name of what serde_json's pretty printer writes for the records,
/// each an object with the keys `arguments`, `directory` and `file`.
pub uninterp spec fn pretty_json(records: Seq<RecordModel>) -> Seq<char>;

/// Relies on `serde_json::to_string_pretty` to write the records as a JSON
/// array of objects. It fails only where a `Serialize` impl fails or a map
/// key is no string; neither can happen for maps from strings to `Value`
/// written to a `Vec<u8>`, so a text always comes back.
#[verifier::external_body]
fn records_json(records: &Vec<CompileRecord>) -> (r: Option<String>)
    ensures
        r is Some,
        r matches Some(s) ==> s@ == pretty_json(records_view(records@)),
{
    let items: Vec<serde_json::Map<String, serde_json::Value>> = records.iter().map(|c| {
        let mut m = serde_json::Map::new();
        let args = c.arguments.iter().map(|a| serde_json::Value::String(a.clone())).collect();
        m.insert("arguments".to_string(), serde_json::Value::Array(args));
        m.insert("directory".to_string(), serde_json::Value::String(c.directory.clone()));
        m.insert("file".to_string(), serde_json::Value::String(c.file.clone()));
        m
    }).collect();
    serde_json::to_string_pretty(&items).ok()
}

fn dir_tokens_exec(toks: &Vec<Vec<char>>) -> (r: Vec<Vec<char>>)
    ensures
        chars_view(r@) == dir_tokens(chars_view(toks@)),
{
    let ghost tv = chars_view(toks@);
    let quote_sep = chars_of("'/");
    let sep = chars_of("/");
    let mut r: Vec<Vec<char>> = Vec::new();
    let mut i: usize = 0;
    assert(chars_view(r@) =~= Seq::<Seq<char>>::empty());
    assert(tv.subrange(0, 0) =~= Seq::<Seq<char>>::empty());
    while i < toks.len()
        invariant
            i <= toks@.len(),
            tv == chars_view(toks@),
            quote_sep@ == "'/"@,
            sep@ == "/"@,
            chars_view(r@) == dir_tokens(tv.subrange(0, i as int)),
        decreases toks@.len() - i,
    {
        let ghost pre = tv.subrange(0, i as int);
        let ghost next = tv.subrange(0, i + 1);
        assert(next.drop_last() =~= pre);
        assert(next.last() == toks@[i as int]@);
        let t = &toks[i];
        if chars_contain(t.as_slice(), quote_sep.as_slice()) || chars_start_with(t.as_slice(), sep.as_slice()) {
            let ghost before = chars_view(r@);
            let c = copy_chars(t.as_slice());
            r.push(c);
            assert(chars_view(r@) =~= before.push(c@));
        }
        i += 1;
    }
    assert(tv.subrange(0, toks@.len() as int) =~= tv);
    r
}

fn announced_exec(line: &Vec<char>) -> (r: Option<Vec<char>>)
    ensures
        match r {
            Some(d) => announced(line@) == Some(d@),
            None => announced(line@) is None,
        },
{
    let toks = tokenize(line);
    let d = dir_tokens_exec(&toks);
    if d.len() != 1 {
        return None;
    }
    let t = &d[0];
    assert(chars_view(d@)[0] == t@);
    if t.len() >= 2 && t[0] == '\'' {
        let mut u: Vec<char> = Vec::new();
        let mut i: usize = 1;
        while i < t.len() - 1
            invariant
                t@.len() >= 2,
                1 <= i <= t@.len() - 1,
                u@ == t@.subrange(1, i as int),
            decreases t@.len() - i,
        {
            u.push(t[i]);
            i += 1;
            assert(u@ =~= t@.subrange(1, i as int));
        }
        Some(u)
    } else {
        Some(copy_chars(t.as_slice()))
    }
}

/// The line parser: the build root, fixed at construction, and the
/// directory that the transcript last entered.
pub struct Parser {
    build_dir: String,
    directory: String,
}

impl View for Parser {
    type V = TrackerState;

    closed spec fn view(&self) -> TrackerState {
        TrackerState { root: self.build_dir@, current: self.directory@ }
    }
}

impl Parser {
    /// Well-formed: the build root is not empty, so neither is the
    /// directory in effect.
    pub open spec fn wf(&self) -> bool {
        self@.root.len() > 0
    }

    /// A parser whose build root, and first current directory, is `dir`
    /// normalised; `dir` is absolute.
    pub fn new(dir: &str) -> (r: Parser)
        requires
            dir@.len() > 0,
            dir@[0] == '/',
        ensures
            r.wf(),
            r@.root == norm(dir@),
            r@.current == norm(dir@),
    {
        let root = norm_chars(&chars_of(dir));
        assert(root@.len() >= lead_count(dir@));
        let build_dir = string_of(root.as_slice());
        let directory = build_dir.clone();
        Parser { build_dir, directory }
    }

    /// The build root.
    pub fn build_dir(&self) -> (r: &str)
        ensures
            r@ == self@.root,
    {
        self.build_dir.as_str()
    }

    /// The current directory; empty after a directory was left.
    pub fn directory(&self) -> (r: &str)
        ensures
            r@ == self@.current,
    {
        self.directory.as_str()
    }

    fn effective_dir(&self) -> (r: Vec<char>)
        requires
            self.wf(),
        ensures
            r@ == effective(self@),
            r@.len() > 0,
    {
        if self.directory.as_str().is_empty() {
            chars_of(self.build_dir.as_str())
        } else {
            chars_of(self.directory.as_str())
        }
    }

    /// The lexically normalised form of `path`.
    pub fn norm_path(path: &str) -> (r: String)
        ensures
            r@ == norm(path@),
    {
        let n = norm_chars(&chars_of(path));
        string_of(n.as_slice())
    }

    /// `src_path` made absolute against the current directory. A relative
    /// path needs a current directory to resolve against.
    pub fn absolute_path(&self, src_path: &str) -> (r: String)
        requires
            self@.current.len() > 0 || lead_count(src_path@) > 0,
        ensures
            r@ == absolute(src_path@, self@.current),
    {
        let dir = chars_of(self.directory.as_str());
        let a = absolute_chars(&chars_of(src_path), &dir);
        string_of(a.as_slice())
    }

    /// The path that leads from `base_path` to `src_path`.
    pub fn relative_path(src_path: &str, base_path: &str) -> (r: String)
        ensures
            r@ == relative(src_path@, base_path@),
    {
        let rel = relative_chars(&chars_of(src_path), &chars_of(base_path));
        string_of(rel.as_slice())
    }

    /// Offers `line` to the directory tracker.
    pub fn parse_directory(&mut self, line: &str) -> (r: Result<Directive, ParseError>)
        ensures
            match r {
                Ok(d) => observe(old(self)@, line@) == Ok::<_, (Seq<char>, Seq<char>)>((final(self)@, d)),
                Err(ParseError::DirectoryMismatch { expected, found }) => {
                    &&& observe(old(self)@, line@) == Err::<(TrackerState, Directive), _>((expected@, found@))
                    &&& final(self)@ == old(self)@
                },
            },
            final(self)@.root == old(self)@.root,
    {
        let l = chars_of(line);
        let make = chars_of("Make[1]");
        let entering = chars_of("Entering directory");
        let leaving = chars_of("Leaving directory");
        let plus_cd = chars_of("+ cd");
        let has_make = chars_contain(l.as_slice(), make.as_slice());
        if (has_make && chars_contain(l.as_slice(), entering.as_slice())) || chars_contain(l.as_slice(), plus_cd.as_slice()) {
            match announced_exec(&l) {
                Some(d) => {
                    self.directory = string_of(d.as_slice());
                    Ok(Directive::Entered)
                },
                None => Ok(Directive::Malformed),
            }
        } else if has_make && chars_contain(l.as_slice(), leaving.as_slice()) {
            match announced_exec(&l) {
                Some(d) => {
                    let cur = chars_of(self.directory.as_str());
                    if same_chars(d.as_slice(), cur.as_slice()) {
                        self.directory = String::new();
                        Ok(Directive::Left)
                    } else {
                        Err(ParseError::DirectoryMismatch {
                            expected: self.directory.clone(),
                            found: string_of(d.as_slice()),
                        })
                    }
                },
                None => Ok(Directive::Malformed),
            }
        } else {
            Ok(Directive::NotADirective)
        }
    }

    /// The records that `line` yields as a compiler invocation in the
    /// directory in effect.
    pub fn command_records(&self, line: &str) -> (r: Option<Vec<CompileRecord>>)
        requires
            self.wf(),
        ensures
            match r {
                Some(v) => classify(line@, effective(self@), self@.root) == Some(records_view(v@)),
                None => classify(line@, effective(self@), self@.root) is None,
            },
    {
        let dir = self.effective_dir();
        let root = chars_of(self.build_dir.as_str());
        classify_exec(&chars_of(line), &dir, &root)
    }

    /// The records that `line` yields as a compiler invocation, written as a
    /// JSON array.
    pub fn parser_command(&self, line: &str) -> (r: Option<String>)
        requires
            self.wf(),
        ensures
            r is Some == classify(line@, effective(self@), self@.root) is Some,
            r matches Some(s) ==> s@ == pretty_json(classify(line@, effective(self@), self@.root)->0),
    {
        match self.command_records(line) {
            Some(recs) => records_json(&recs),
            None => None,
        }
    }

    /// Offers `line` to the directory tracker and, where it is no
    /// announcement, to the command classifier.
    pub fn parse_records(&mut self, line: &str) -> (r: Result<Vec<CompileRecord>, ParseError>)
        requires
            old(self).wf(),
        ensures
            final(self)@.root == old(self)@.root,
            match r {
                Ok(v) => step(old(self)@, line@) == Ok::<_, ()>((final(self)@, records_view(v@))),
                Err(ParseError::DirectoryMismatch { expected, found }) => {
                    &&& step(old(self)@, line@) is Err
                    &&& observe(old(self)@, line@) == Err::<(TrackerState, Directive), _>((expected@, found@))
                    &&& final(self)@ == old(self)@
                },
            },
    {
        match self.parse_directory(line) {
            Ok(Directive::NotADirective) => match self.command_records(line) {
                Some(v) => Ok(v),
                None => {
                    let v: Vec<CompileRecord> = Vec::new();
                    assert(records_view(v@) =~= Seq::<RecordModel>::empty());
                    Ok(v)
                },
            },
            Ok(_) => {
                let v: Vec<CompileRecord> = Vec::new();
                assert(records_view(v@) =~= Seq::<RecordModel>::empty());
                Ok(v)
            },
            Err(e) => Err(e),
        }
    }

    /// Parses one line of the transcript; where it yields records, they come
    /// back written as a JSON array.
    pub fn parse_line(&mut self, line: &str) -> (r: Result<Option<String>, ParseError>)
        requires
            old(self).wf(),
        ensures
            r is Ok == step(old(self)@, line@) is Ok,
            r matches Ok(o) ==> (o is Some == (step_records(old(self)@, line@).len() > 0)),
            r matches Ok(Some(s)) ==> s@ == pretty_json(step_records(old(self)@, line@)),
            final(self)@ == step_state(old(self)@, line@),
            final(self)@.root == old(self)@.root,
    {
        match self.parse_records(line) {
            Ok(recs) => {
                if recs.len() == 0 {
                    Ok(None)
                } else {
                    Ok(records_json(&recs))
                }
            },
            Err(e) => Err(e),
        }
    }

    /// Parses the lines in order, appending their records to `out`; stops at
    /// the first line that leaves a directory that is not the current one.
    pub fn parse_lines(&mut self, lines: &Vec<String>, out: &mut Vec<CompileRecord>) -> (r: Result<(), ParseError>)
        requires
            old(self).wf(),
        ensures
            final(self)@.root == old(self)@.root,
            ({
                let res = run(old(self)@, lines@.map_values(|s: String| s@));
                &&& final(self)@ == res.0
                &&& records_view(final(out)@) == records_view(old(out)@) + res.1
                &&& r is Err <==> res.2
            }),
    {
        let ghost lv = lines@.map_values(|s: String| s@);
        let ghost st0 = self@;
        let ghost out0 = records_view(out@);
        let mut i: usize = 0;
        assert(lv.subrange(0, 0) =~= Seq::<Seq<char>>::empty());
        assert(out0 =~= out0 + Seq::<RecordModel>::empty());
        while i < lines.len()
            invariant
                i <= lines@.len(),
                lv == lines@.map_values(|s: String| s@),
                out0 == records_view(old(out)@),
                st0 == old(self)@,
                st0.root.len() > 0,
                self@.root == st0.root,
                self@ == run(st0, lv.subrange(0, i as int)).0,
                records_view(out@) == out0 + run(st0, lv.subrange(0, i as int)).1,
                !run(st0, lv.subrange(0, i as int)).2,
            decreases lines@.len() - i,
        {
            let ghost pre = lv.subrange(0, i as int);
            let ghost next = lv.subrange(0, i + 1);
            assert(next.drop_last() =~= pre);
            assert(next.last() == lines@[i as int]@);
            let ghost before = records_view(out@);
            match self.parse_records(lines[i].as_str()) {
                Ok(recs) => {
                    let mut recs = recs;
                    let ghost added = records_view(recs@);
                    out.append(&mut recs);
                    assert(records_view(out@) =~= before + added);
                    assert(out0 + run(st0, next).1 =~= before + added);
                },
                Err(e) => {
                    proof {
                        assert(run(st0, next).2);
                        lemma_run_failed_stays(st0, lv, i + 1);

                    }
                    return Err(e);
                },
            }
            i += 1;
        }
        assert(lv.subrange(0, lines@.len() as int) =~= lv);
        Ok(())
    }
}

} // verus!
