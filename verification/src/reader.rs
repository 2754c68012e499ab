//! The input of one connection, held in memory and read front to back.

use crate::text::{first_in, is_first_in, lemma_first_in_exists, lemma_first_in_unique};
use vstd::prelude::*;

verus! {

/// The byte that ends a line.
pub const LINE_FEED: u8 = 10;

/// Whether `input` holds a whole line: a line feed stands somewhere in it.
pub open spec fn has_line(input: Seq<u8>) -> bool {
    first_in(input, set![LINE_FEED]) < input.len()
}

/// The length of the first line of `input`, its line feed included. Input
/// without a line feed is one line to its end.
pub open spec fn line_len(input: Seq<u8>) -> int {
    if has_line(input) {
        first_in(input, set![LINE_FEED]) + 1
    } else {
        input.len() as int
    }
}

/// A line lies within the input, and is empty only where the input is; input
/// that holds a whole line is not empty.
pub proof fn lemma_line_len(input: Seq<u8>)
    ensures
        0 <= line_len(input) <= input.len(),
        input.len() > 0 ==> line_len(input) > 0,
        has_line(input) ==> input.len() > 0,
{
    lemma_first_in_exists(input, set![LINE_FEED]);
}

/// A whole line stays the first line whatever follows the input.
pub proof fn lemma_line_in_longer_input(input: Seq<u8>, more: Seq<u8>)
    requires
        has_line(input),
    ensures
        has_line(input + more),
        line_len(input + more) == line_len(input),
        (input + more).take(line_len(input)) == input.take(line_len(input)),
        (input + more).skip(line_len(input)) == input.skip(line_len(input)) + more,
{
    lemma_first_in_exists(input, set![LINE_FEED]);
    let at = first_in(input, set![LINE_FEED]);
    let longer = input + more;
    assert forall|j: int| 0 <= j < at implies !set![LINE_FEED].contains(#[trigger] longer[j]) by {
        assert(longer[j] == input[j]);
    }
    assert(longer[at] == input[at]);
    assert(is_first_in(longer, set![LINE_FEED], at));
    lemma_first_in_unique(longer, set![LINE_FEED], at);
    assert(longer.take(at + 1) =~= input.take(at + 1));
    assert(longer.skip(at + 1) =~= input.skip(at + 1) + more);
}

/// Input without a whole line is one line, and nothing is left after it.
pub proof fn lemma_line_without_end(input: Seq<u8>)
    requires
        !has_line(input),
    ensures
        input.skip(line_len(input)) == Seq::<u8>::empty(),
        !has_line(Seq::<u8>::empty()),
{
    lemma_first_in_exists(Seq::<u8>::empty(), set![LINE_FEED]);
    assert(input.skip(input.len() as int) =~= Seq::<u8>::empty());
}

/// Bytes to be read once, in order. A read that asks for more than is left
/// takes what is left and leaves the reader starved.
pub struct Reader {
    data: Vec<u8>,
    pos: usize,
    starved: bool,
}

impl Reader {
    #[verifier::type_invariant]
    spec fn in_bounds(self) -> bool {
        self.pos <= self.data.len()
    }

    /// The bytes that have not been read yet.
    pub closed spec fn remaining(&self) -> Seq<u8> {
        self.data@.skip(self.pos as int)
    }

    /// Whether some read has run into the end of the input.
    pub closed spec fn starved(&self) -> bool {
        self.starved
    }

    /// A reader over `data`, with nothing read yet.
    pub fn new(data: Vec<u8>) -> (reader: Reader)
        ensures
            reader.remaining() == data@,
            !reader.starved(),
    {
        Reader { data, pos: 0, starved: false }
    }

    /// How many bytes are left to read.
    pub fn available(&self) -> (count: usize)
        ensures
            count == self.remaining().len(),
    {
        proof {
            use_type_invariant(self);
        }
        self.data.len() - self.pos
    }

    /// Whether some read has run into the end of the input.
    pub fn is_starved(&self) -> (starved: bool)
        ensures
            starved == self.starved(),
    {
        self.starved
    }

    /// Reads one line: the bytes up to and including the next line feed, or,
    /// where there is none, all that is left, which starves the reader.
    pub fn read_line(&mut self) -> (line: Vec<u8>)
        ensures
            line@ == old(self).remaining().take(line_len(old(self).remaining())),
            final(self).remaining() == old(self).remaining().skip(line_len(old(self).remaining())),
            final(self).starved() == (old(self).starved() || !has_line(old(self).remaining())),
    {
        proof {
            use_type_invariant(&*self);
        }
        let start = self.pos;
        let ghost input = self.remaining();
        let mut line: Vec<u8> = Vec::new();
        let mut at: usize = start;
        let mut found = false;
        while at < self.data.len() && !found
            invariant
                start <= at <= self.data.len(),
                self.pos == start,
                input == self.data@.skip(start as int),
                line@ == self.data@.subrange(start as int, at as int),
                !found ==> forall|j: int| start <= j < at ==> self.data@[j] != LINE_FEED,
                found ==> at > start && self.data@[at - 1] == LINE_FEED && forall|j: int|
                    start <= j < at - 1 ==> self.data@[j] != LINE_FEED,
            decreases self.data.len() - at,
        {
            let byte = self.data[at];
            line.push(byte);
            found = byte == LINE_FEED;
            at = at + 1;
        }
        proof {
            if found {
                assert(is_first_in(input, set![LINE_FEED], at - 1 - start));
                lemma_first_in_unique(input, set![LINE_FEED], at - 1 - start);
            } else {
                assert(is_first_in(input, set![LINE_FEED], at - start));
                lemma_first_in_unique(input, set![LINE_FEED], at - start);
            }
            assert(line@ =~= input.take(at - start));
            assert(self.data@.skip(at as int) =~= input.skip(at - start));
        }
        self.pos = at;
        if !found {
            self.starved = true;
        }
        line
    }

    /// Reads exactly `count` bytes. Where fewer are left, reads all of them,
    /// returns none, and leaves the reader starved.
    pub fn read_exact(&mut self, count: usize) -> (bytes: Option<Vec<u8>>)
        ensures
            count <= old(self).remaining().len() ==> {
                &&& bytes is Some
                &&& bytes->Some_0@ == old(self).remaining().take(count as int)
                &&& final(self).remaining() == old(self).remaining().skip(count as int)
                &&& final(self).starved() == old(self).starved()
            },
            count > old(self).remaining().len() ==> {
                &&& bytes is None
                &&& final(self).remaining() == Seq::<u8>::empty()
                &&& final(self).starved()
            },
    {
        proof {
            use_type_invariant(&*self);
        }
        let start = self.pos;
        let ghost input = self.remaining();
        if count > self.data.len() - start {
            self.pos = self.data.len();
            self.starved = true;
            assert(self.remaining() =~= Seq::<u8>::empty());
            return None;
        }
        let mut bytes: Vec<u8> = Vec::new();
        let mut i: usize = 0;
        while i < count
            invariant
                0 <= i <= count,
                start + count <= self.data.len(),
                self.pos == start,
                bytes@ == self.data@.subrange(start as int, start + i),
            decreases count - i,
        {
            bytes.push(self.data[start + i]);
            i = i + 1;
        }
        self.pos = start + count;
        proof {
            assert(bytes@ =~= input.take(count as int));
            assert(self.remaining() =~= input.skip(count as int));
        }
        Some(bytes)
    }
}

} // verus!
