//! Sources of transcript lines.
use vstd::prelude::*;

verus! {

/// A source of transcript lines.
pub trait Reader {
    /// The next line, or `None` at the end of the input or on a line that
    /// could not be read.
    fn read_line(&mut self) -> Option<String>;

    /// Whether the end of the input has not been reached yet.
    fn readable(&self) -> bool;
}

/// A reader that hands out lines held in memory.
pub struct MockReader {
    lines: Vec<String>,
    next: usize,
    eof: bool,
}

impl View for MockReader {
    type V = (Seq<Seq<char>>, nat, bool);

    closed spec fn view(&self) -> (Seq<Seq<char>>, nat, bool) {
        (self.lines@.map_values(|s: String| s@), self.next as nat, self.eof)
    }
}

impl MockReader {
    /// A reader that hands out `lines` in order.
    pub fn new(lines: Vec<String>) -> (r: MockReader)
        ensures
            r@ == (lines@.map_values(|s: String| s@), 0nat, false),
    {
        MockReader { lines, next: 0, eof: false }
    }

    /// The next line, or `None` once all lines were handed out; from then
    /// on the reader is no longer readable.
    pub fn next_line(&mut self) -> (r: Option<String>)
        ensures
            old(self)@.1 < old(self)@.0.len() ==> {
                &&& r matches Some(s) && s@ == old(self)@.0[old(self)@.1 as int]
                &&& final(self)@ == (old(self)@.0, old(self)@.1 + 1, old(self)@.2)
            },
            old(self)@.1 >= old(self)@.0.len() ==> {
                &&& r is None
                &&& final(self)@ == (old(self)@.0, old(self)@.1, true)
            },
    {
        if self.next < self.lines.len() {
            let s = self.lines[self.next].clone();
            self.next = self.next + 1;
            Some(s)
        } else {
            self.eof = true;
            None
        }
    }

    /// Whether the end of the lines has not been reached yet.
    pub fn is_readable(&self) -> (r: bool)
        ensures
            r == !self@.2,
    {
        !self.eof
    }
}

impl Reader for MockReader {
    fn read_line(&mut self) -> Option<String> {
        self.next_line()
    }

    fn readable(&self) -> bool {
        self.is_readable()
    }
}

} // verus!
