//! Framing of the records as one JSON array written piece by piece.
use vstd::prelude::*;
use crate::text::{chars_of, extend_chars, string_of};

verus! {

/// The bytes that open the output array.
pub open spec fn array_open() -> Seq<char> {
    "[\n"@
}

/// The bytes that close the output array.
pub open spec fn array_close() -> Seq<char> {
    "\n]"@
}

/// The bytes between two objects of the output array.
pub open spec fn separator() -> Seq<char> {
    ",\n"@
}

/// The objects of a pretty-printed JSON array: its text without the two
/// characters that open it and the two that close it. Text too short to
/// hold them is taken as it stands.
pub open spec fn array_body(s: Seq<char>) -> Seq<char> {
    if s.len() >= 4 {
        s.subrange(2, s.len() - 2)
    } else {
        s
    }
}

/// What the framer yields for one array: its objects, after a separator
/// where objects were written before.
pub open spec fn piece(started: bool, array_json: Seq<char>) -> Seq<char> {
    (if started { separator() } else { Seq::empty() }) + array_body(array_json)
}

/// What a fresh framer yields for the arrays, one after another.
pub open spec fn pieces(arrays: Seq<Seq<char>>) -> Seq<char>
    decreases arrays.len(),
{
    if arrays.len() == 0 {
        Seq::empty()
    } else {
        pieces(arrays.drop_last()) + piece(arrays.len() > 1, arrays.last())
    }
}

/// The objects of the arrays, in order, with a separator between each two.
pub open spec fn joined_bodies(arrays: Seq<Seq<char>>) -> Seq<char>
    decreases arrays.len(),
{
    if arrays.len() == 0 {
        Seq::empty()
    } else if arrays.len() == 1 {
        array_body(arrays[0])
    } else {
        joined_bodies(arrays.drop_last()) + separator() + array_body(arrays.last())
    }
}

/// The pieces that a fresh framer yields for a run of arrays hold the
/// objects of all of them, each two apart by one separator: between the
/// opening and the closing bytes they make one array.
pub proof fn lemma_pieces_join(arrays: Seq<Seq<char>>)
    ensures
        pieces(arrays) == joined_bodies(arrays),
    decreases arrays.len(),
{
    if arrays.len() == 1 {
        assert(pieces(arrays.drop_last()) == Seq::<char>::empty());
        assert(piece(false, arrays.last()) =~= array_body(arrays[0]));
        assert(pieces(arrays) =~= array_body(arrays[0]));
    } else if arrays.len() > 1 {
        lemma_pieces_join(arrays.drop_last());
        assert(joined_bodies(arrays.drop_last()) + (separator() + array_body(arrays.last())) =~= joined_bodies(arrays.drop_last()) + separator() + array_body(arrays.last()));
    }
}

/// Frames the records of the transcript into one array, and says when the
/// output should be flushed: after every `batch` pieces, the opening and
/// closing bytes included, so that no more than `batch - 1` pieces are ever
/// written and not flushed.
pub struct Framer {
    started: bool,
    pending: u32,
    batch: u32,
}

/// The state of a framer: whether an object was written, how many pieces
/// were written since the last flush, and how many make a batch.
pub struct FramerState {
    pub started: bool,
    pub pending: nat,
    pub batch: nat,
}

impl View for Framer {
    type V = FramerState;

    closed spec fn view(&self) -> FramerState {
        FramerState { started: self.started, pending: self.pending as nat, batch: self.batch as nat }
    }
}

impl Framer {
    /// Well-formed: a batch holds at least one piece, and fewer are pending.
    pub open spec fn wf(&self) -> bool {
        self@.batch > 0 && self@.pending < self@.batch
    }

    /// A framer that asks for a flush after every `batch` pieces.
    pub fn new(batch: u32) -> (r: Framer)
        requires
            batch > 0,
        ensures
            r.wf(),
            r@ == (FramerState { started: false, pending: 0, batch: batch as nat }),
    {
        Framer { started: false, pending: 0, batch }
    }

    /// Counts one piece written; whether the output should now be flushed.
    fn tick(&mut self) -> (flush: bool)
        requires
            old(self).wf(),
        ensures
            final(self).wf(),
            flush == (old(self)@.pending + 1 == old(self)@.batch),
            final(self)@ == (FramerState {
                started: old(self)@.started,
                pending: if flush { 0 } else { old(self)@.pending + 1 },
                batch: old(self)@.batch,
            }),
    {
        let flush = self.pending + 1 == self.batch;
        if flush {
            self.pending = 0;
        } else {
            self.pending = self.pending + 1;
        }
        flush
    }

    /// The bytes that open the array, a piece of their own; and whether the
    /// output should be flushed after them.
    pub fn open(&mut self) -> (r: (String, bool))
        requires
            old(self).wf(),
        ensures
            final(self).wf(),
            r.0@ == array_open(),
            r.1 == (old(self)@.pending + 1 == old(self)@.batch),
            final(self)@ == (FramerState {
                started: old(self)@.started,
                pending: if r.1 { 0 } else { old(self)@.pending + 1 },
                batch: old(self)@.batch,
            }),
    {
        let flush = self.tick();
        (string_of(chars_of("[\n").as_slice()), flush)
    }

    /// The bytes that close the array, a piece of their own; and whether the
    /// output should be flushed after them.
    pub fn close(&mut self) -> (r: (String, bool))
        requires
            old(self).wf(),
        ensures
            final(self).wf(),
            r.0@ == array_close(),
            r.1 == (old(self)@.pending + 1 == old(self)@.batch),
            final(self)@ == (FramerState {
                started: old(self)@.started,
                pending: if r.1 { 0 } else { old(self)@.pending + 1 },
                batch: old(self)@.batch,
            }),
    {
        let flush = self.tick();
        (string_of(chars_of("\n]").as_slice()), flush)
    }

    /// The bytes that add the objects of `array_json`, a pretty-printed JSON
    /// array, to the output, after a separator unless they are the first;
    /// and whether the output should be flushed after them.
    pub fn record(&mut self, array_json: &str) -> (r: (String, bool))
        requires
            old(self).wf(),
        ensures
            final(self).wf(),
            r.0@ == piece(old(self)@.started, array_json@),
            r.1 == (old(self)@.pending + 1 == old(self)@.batch),
            final(self)@ == (FramerState {
                started: true,
                pending: if r.1 { 0 } else { old(self)@.pending + 1 },
                batch: old(self)@.batch,
            }),
    {
        let s = chars_of(array_json);
        let mut out: Vec<char> = Vec::new();
        if self.started {
            let sep = chars_of(",\n");
            extend_chars(&mut out, sep.as_slice());
        }
        if s.len() >= 4 {
            let mut i: usize = 2;
            let end = s.len() - 2;
            let ghost head = out@;
            while i < end
                invariant
                    s@.len() >= 4,
                    end == s@.len() - 2,
                    2 <= i <= end,
                    out@ == head + s@.subrange(2, i as int),
                decreases end - i,
            {
                out.push(s[i]);
                i += 1;
                assert(out@ =~= head + s@.subrange(2, i as int));
            }
        } else {
            extend_chars(&mut out, s.as_slice());
        }
        assert(out@ =~= piece(self.started, array_json@));
        self.started = true;
        let flush = self.tick();
        (string_of(out.as_slice()), flush)
    }
}

} // verus!
