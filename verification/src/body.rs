//! Request bodies as a sequence of chunks, and the body of a known length.

use crate::reader::Reader;
use vstd::prelude::*;
use vstd::string::*;

verus! {

/// One piece of a body: its bytes, and the extension that came with it.
#[derive(Debug, PartialEq)]
pub struct Chunk {
    pub buf: Vec<u8>,
    pub extension: String,
}

/// What a chunk holds.
pub struct ChunkView {
    pub buf: Seq<u8>,
    pub extension: Seq<char>,
}

impl View for Chunk {
    type V = ChunkView;

    open spec fn view(&self) -> ChunkView {
        ChunkView { buf: self.buf@, extension: self.extension@ }
    }
}

/// What a decoder hands out on one pull: a chunk, or the message of an error.
pub type Item = Result<ChunkView, Seq<char>>;

/// What the result of one pull holds.
pub open spec fn item_view(item: Result<Chunk, &'static str>) -> Item {
    match item {
        Ok(chunk) => Ok(chunk@),
        Err(message) => Err(message@),
    }
}

/// Whether more items may follow `item`: it is a chunk that holds bytes.
pub open spec fn is_data(item: Item) -> bool {
    item matches Ok(chunk) && chunk.buf.len() > 0
}

/// The bytes of the chunks that come before the first error, in order.
pub open spec fn payload(items: Seq<Item>) -> Seq<u8>
    decreases items.len(),
{
    if items.len() > 0 && items[0] is Ok {
        items[0]->Ok_0.buf + payload(items.drop_first())
    } else {
        Seq::empty()
    }
}

/// A body that is read piece by piece. The pieces come once, in order, and
/// there are finitely many of them.
pub trait BodyDecoder: Sized {
    /// The items that are still to come.
    spec fn items(&self) -> Seq<Item>;

    /// Whether the body has ended for good: every pull gives nothing.
    spec fn exhausted(&self) -> bool;

    /// An error or an empty chunk ends the body: nothing comes after it.
    proof fn lemma_last_item_ends(&self)
        ensures
            forall|i: int| 0 <= i < self.items().len() - 1 ==> is_data(#[trigger] self.items()[i]),
    ;

    /// A body that has ended has no items left.
    proof fn lemma_exhausted_is_empty(&self)
        ensures
            self.exhausted() ==> self.items().len() == 0,
    ;

    /// Whether the body has ended for good.
    fn is_exhausted(&self) -> (exhausted: bool)
        ensures
            exhausted == self.exhausted(),
    ;

    /// Pulls the next item, if there is one. A body that has ended stays as it
    /// is; a pull that gives nothing, an error or an empty chunk ends the body.
    fn next(&mut self) -> (item: Option<Result<Chunk, &'static str>>)
        ensures
            match item {
                Some(found) => {
                    &&& old(self).items().len() > 0
                    &&& item_view(found) == old(self).items()[0]
                    &&& final(self).items() == old(self).items().drop_first()
                    &&& !is_data(item_view(found)) ==> final(self).exhausted()
                },
                None => {
                    &&& old(self).items().len() == 0
                    &&& final(self).items().len() == 0
                    &&& final(self).exhausted()
                },
            },
            old(self).exhausted() ==> item is None && *final(self) == *old(self),
    ;

    /// Pulls until the body ends or fails, and returns the bytes of the chunks
    /// that came, in order. Extensions and the error, if any, are dropped.
    fn all_bytes(&mut self) -> (bytes: Vec<u8>)
        ensures
            bytes@ == payload(old(self).items()),
            final(self).items().len() == 0,
            final(self).exhausted(),
    {
        let mut bytes: Vec<u8> = Vec::new();
        let ghost all = self.items();
        loop
            invariant_except_break
                bytes@ + payload(self.items()) == payload(all),
            ensures
                bytes@ == payload(all),
                self.items().len() == 0,
                self.exhausted(),
            decreases self.items().len(),
        {
            let ghost before = self.items();
            proof {
                self.lemma_last_item_ends();
            }
            match self.next() {
                Some(Ok(mut chunk)) => {
                    let ghost so_far = bytes@;
                    bytes.append(&mut chunk.buf);
                    assert(bytes@ + payload(self.items()) =~= so_far + payload(before));
                },
                _ => {
                    proof {
                        assert(payload(before) =~= Seq::<u8>::empty());
                        assert(bytes@ + payload(before) =~= bytes@);
                        if before.len() > 1 {
                            assert(is_data(before[0]));
                        }
                    }
                    break ;
                },
            }
        }
        bytes
    }
}

/// The one item of a body of `length` bytes read from `input`: the first
/// `length` bytes, or an error where `input` is shorter.
pub open spec fn fixed_item(input: Seq<u8>, length: nat) -> Item {
    if length <= input.len() {
        Ok(ChunkView { buf: input.take(length as int), extension: Seq::empty() })
    } else {
        Err("Expected a body"@)
    }
}

/// A body whose length the request announced. It comes as one chunk.
pub struct Body {
    buf: Reader,
    length: usize,
    done: bool,
}

impl Body {
    /// The input that the body is read from.
    pub closed spec fn reader(&self) -> Reader {
        self.buf
    }

    /// The length that was announced.
    pub closed spec fn length(&self) -> nat {
        self.length as nat
    }

    /// Whether the one chunk, or the error in its place, has been handed out.
    pub closed spec fn done(&self) -> bool {
        self.done
    }

    /// A body of `length` bytes, to be read from `buf`.
    pub fn new(length: usize, buf: Reader) -> (body: Body)
        ensures
            body.reader() == buf,
            body.length() == length,
            !body.done(),
            body.items() == seq![fixed_item(buf.remaining(), length as nat)],
    {
        Body { buf, length, done: false }
    }

    /// Whether some read has run into the end of the input.
    pub fn is_starved(&self) -> (starved: bool)
        ensures
            starved == self.reader().starved(),
    {
        self.buf.is_starved()
    }
}

impl BodyDecoder for Body {
    open spec fn items(&self) -> Seq<Item> {
        if self.done() {
            Seq::empty()
        } else {
            seq![fixed_item(self.reader().remaining(), self.length())]
        }
    }

    open spec fn exhausted(&self) -> bool {
        self.done()
    }

    proof fn lemma_last_item_ends(&self) {
    }

    proof fn lemma_exhausted_is_empty(&self) {
    }

    fn is_exhausted(&self) -> (exhausted: bool) {
        self.done
    }

    /// On the first pull, reads the announced number of bytes in one piece.
    /// Input that is too short gives the error `Expected a body`. Every later
    /// pull gives nothing.
    fn next(&mut self) -> (item: Option<Result<Chunk, &'static str>>)
        ensures
            final(self).done(),
            final(self).length() == old(self).length(),
            !old(self).done() ==> {
                let input = old(self).reader().remaining();
                &&& item is Some
                &&& final(self).reader().remaining() == if old(self).length() <= input.len() {
                    input.skip(old(self).length() as int)
                } else {
                    Seq::empty()
                }
                &&& final(self).reader().starved() == (old(self).reader().starved() || input.len()
                    < old(self).length())
            },
    {
        if self.done {
            return None;
        }
        self.done = true;
        match self.buf.read_exact(self.length) {
            Some(buf) => Some(Ok(Chunk { buf, extension: String::new() })),
            None => Some(Err("Expected a body")),
        }
    }
}

} // verus!
