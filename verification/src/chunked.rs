//! Bodies in the chunked transfer coding.

use crate::body::{is_data, payload, BodyDecoder, Chunk, ChunkView, Item};
use crate::number::{
    hex, is_hex_digit, lemma_hex_digits, lemma_hex_round_trip, parse_u64, parse_unsigned,
};
use crate::reader::{
    has_line, lemma_line_in_longer_input, lemma_line_len, line_len, Reader, LINE_FEED,
};
use crate::text::{
    chars_of, decode, find_char, first_in, is_first_in, is_whitespace, lemma_first_in_unique,
    lemma_trim_bare, trim, trim_bounds,
};
use vstd::prelude::*;
use vstd::string::*;
use vstd::utf8::*;

verus! {

/// What the line that opens a chunk says.
#[derive(Debug, PartialEq)]
pub enum ChunkHeader {
    /// The line is blank: the body ends here.
    End,
    /// The size is not a number in base sixteen that fits in memory.
    Invalid,
    /// A chunk of this many bytes follows, with this extension.
    Size(usize, String),
}

/// What a chunk header holds.
pub enum ChunkHeaderView {
    End,
    Invalid,
    Size(nat, Seq<char>),
}

impl View for ChunkHeader {
    type V = ChunkHeaderView;

    open spec fn view(&self) -> ChunkHeaderView {
        match self {
            ChunkHeader::End => ChunkHeaderView::End,
            ChunkHeader::Invalid => ChunkHeaderView::Invalid,
            ChunkHeader::Size(size, extension) => ChunkHeaderView::Size(*size as nat, extension@),
        }
    }
}

/// What the line `line` says as the opening of a chunk. White space around
/// the line is left out. What stands before the first `;` is the size, in base
/// sixteen; what stands after it is the extension; both are trimmed.
pub open spec fn chunk_header(line: Seq<char>) -> ChunkHeaderView {
    let text = trim(line);
    if text.len() == 0 {
        ChunkHeaderView::End
    } else {
        let at = first_in(text, set![';']);
        let extension = if at < text.len() {
            trim(text.skip(at + 1))
        } else {
            Seq::empty()
        };
        match parse_unsigned(trim(text.take(at)), 16) {
            Some(size) => if size <= usize::MAX {
                ChunkHeaderView::Size(size, extension)
            } else {
                ChunkHeaderView::Invalid
            },
            None => ChunkHeaderView::Invalid,
        }
    }
}

/// Reads the line that opens a chunk.
pub fn read_chunk_header(line: &str) -> (header: ChunkHeader)
    ensures
        header@ == chunk_header(line@),
{
    let chars = chars_of(line);
    assert(chars@.subrange(0, chars.len() as int) =~= line@);
    let (lo, hi) = trim_bounds(&chars, 0, chars.len());
    if lo == hi {
        return ChunkHeader::End;
    }
    let ghost text = chars@.subrange(lo as int, hi as int);
    let at = find_char(&chars, lo, hi, ';');
    assert(text.take(at - lo) =~= chars@.subrange(lo as int, at as int));
    let (size_lo, size_hi) = trim_bounds(&chars, lo, at);
    let extension = if at < hi {
        assert(text.skip(at - lo + 1) =~= chars@.subrange(at + 1, hi as int));
        let (ext_lo, ext_hi) = trim_bounds(&chars, at + 1, hi);
        line.substring_char(ext_lo, ext_hi).to_owned()
    } else {
        String::new()
    };
    match parse_u64(&chars, size_lo, size_hi, 16) {
        Some(size) => if size <= usize::MAX as u64 {
            ChunkHeader::Size(size as usize, extension)
        } else {
            ChunkHeader::Invalid
        },
        None => ChunkHeader::Invalid,
    }
}

/// What one pull does to a decoder that has not stopped.
pub struct Step {
    /// The item handed out, if any.
    pub item: Option<Item>,
    /// How many bytes of the input are used up.
    pub consumed: int,
    /// Whether the decoder stops for good.
    pub stops: bool,
    /// Whether a read ran into the end of the input.
    pub starves: bool,
}

/// One pull on the input `input`.
///
/// The first line is the chunk header. A line that is not UTF-8 is the error
/// `Expected chunk size`; a blank line ends the body without an item; a size
/// that cannot be read is the error `Invalid chunk size`. A size of zero
/// gives the last chunk, which is empty; the two bytes after its line are
/// dropped if they are there. Any other size gives a chunk of that many
/// bytes, and the two bytes after them are dropped: input that ends within
/// the bytes is the error `Expected a chunk`, and input that ends within the
/// two bytes after them ends the body without an item. Only a chunk that
/// holds bytes lets the decoder go on.
pub open spec fn chunk_step(input: Seq<u8>) -> Step {
    let n = line_len(input);
    let rest = input.skip(n);
    let dry = !has_line(input);
    if !valid_utf8(input.take(n)) {
        Step { item: Some(Err("Expected chunk size"@)), consumed: n, stops: true, starves: dry }
    } else {
        match chunk_header(decode_utf8(input.take(n))) {
            ChunkHeaderView::End => Step { item: None, consumed: n, stops: true, starves: dry },
            ChunkHeaderView::Invalid => Step {
                item: Some(Err("Invalid chunk size"@)),
                consumed: n,
                stops: true,
                starves: dry,
            },
            ChunkHeaderView::Size(size, extension) => if size == 0 {
                Step {
                    item: Some(Ok(ChunkView { buf: Seq::empty(), extension })),
                    consumed: if rest.len() < 2 {
                        input.len() as int
                    } else {
                        n + 2
                    },
                    stops: true,
                    starves: dry || rest.len() < 2,
                }
            } else if rest.len() < size {
                Step {
                    item: Some(Err("Expected a chunk"@)),
                    consumed: input.len() as int,
                    stops: true,
                    starves: true,
                }
            } else if rest.len() < size + 2 {
                Step { item: None, consumed: input.len() as int, stops: true, starves: true }
            } else {
                Step {
                    item: Some(Ok(ChunkView { buf: rest.take(size as int), extension })),
                    consumed: n + size + 2,
                    stops: false,
                    starves: dry,
                }
            },
        }
    }
}

/// A pull uses up a part of the input, and more than nothing of it where the
/// decoder goes on.
pub proof fn lemma_chunk_step_consumes(input: Seq<u8>)
    ensures
        0 <= chunk_step(input).consumed <= input.len(),
        !chunk_step(input).stops ==> chunk_step(input).consumed > 0 && is_data(
            chunk_step(input).item->Some_0,
        ),
{
    lemma_line_len(input);
}

/// The items that pulling on the input `input` gives, one after the other,
/// until the decoder stops.
pub open spec fn chunk_items(input: Seq<u8>) -> Seq<Item>
    decreases input.len(),
    via chunk_items_decreases
{
    let step = chunk_step(input);
    match step.item {
        None => Seq::empty(),
        Some(item) => if step.stops {
            seq![item]
        } else {
            seq![item] + chunk_items(input.skip(step.consumed))
        },
    }
}

#[via_fn]
proof fn chunk_items_decreases(input: Seq<u8>) {
    lemma_chunk_step_consumes(input);
}

/// In the items of a chunked body, only the last can be an error or an empty
/// chunk.
pub proof fn lemma_chunk_items_end(input: Seq<u8>)
    ensures
        forall|i: int| 0 <= i < chunk_items(input).len() - 1 ==> is_data(#[trigger] chunk_items(input)[i]),
    decreases input.len(),
{
    let step = chunk_step(input);
    lemma_chunk_step_consumes(input);
    if step.item is Some && !step.stops {
        let tail = chunk_items(input.skip(step.consumed));
        lemma_chunk_items_end(input.skip(step.consumed));
        assert forall|i: int| 0 <= i < chunk_items(input).len() - 1 implies is_data(
            #[trigger] chunk_items(input)[i],
        ) by {
            if i > 0 {
                assert(chunk_items(input)[i] == tail[i - 1]);
            }
        }
    }
}

/// A decoder of the chunked transfer coding.
pub struct ChunkedDecoder {
    buf: Reader,
    stopped: bool,
}

impl ChunkedDecoder {
    /// The input that the body is read from.
    pub closed spec fn reader(&self) -> Reader {
        self.buf
    }

    /// Whether the decoder has stopped for good.
    pub closed spec fn stopped(&self) -> bool {
        self.stopped
    }

    /// A decoder that reads its chunks from `buf`.
    pub fn new(buf: Reader) -> (decoder: ChunkedDecoder)
        ensures
            decoder.reader() == buf,
            !decoder.stopped(),
            decoder.items() == chunk_items(buf.remaining()),
    {
        ChunkedDecoder { buf, stopped: false }
    }

    /// Whether some read has run into the end of the input.
    pub fn is_starved(&self) -> (starved: bool)
        ensures
            starved == self.reader().starved(),
    {
        self.buf.is_starved()
    }

}

/// Whether pulling on the input `input` until the decoder stops runs into the
/// end of the input.
pub open spec fn chunks_starve(input: Seq<u8>) -> bool
    decreases input.len(),
    via chunks_starve_decreases
{
    let step = chunk_step(input);
    step.starves || (!step.stops && chunks_starve(input.skip(step.consumed)))
}

#[via_fn]
proof fn chunks_starve_decreases(input: Seq<u8>) {
    lemma_chunk_step_consumes(input);
}

/// A pull that does not run into the end of the input goes the same way
/// whatever follows the input.
pub proof fn lemma_chunk_step_settled(input: Seq<u8>, more: Seq<u8>)
    requires
        !chunk_step(input).starves,
    ensures
        chunk_step(input + more) == chunk_step(input),
        (input + more).skip(chunk_step(input).consumed) == input.skip(chunk_step(input).consumed)
            + more,
{
    lemma_line_len(input);
    lemma_line_in_longer_input(input, more);
    let n = line_len(input);
    let rest = input.skip(n);
    let step = chunk_step(input);
    if valid_utf8(input.take(n)) {
        match chunk_header(decode_utf8(input.take(n))) {
            ChunkHeaderView::Size(size, extension) => {
                if size == 0 {
                    assert((rest + more).skip(2) =~= rest.skip(2) + more);
                    assert(input.skip(n + 2) =~= rest.skip(2));
                    assert((input + more).skip(n + 2) =~= (rest + more).skip(2));
                } else {
                    assert((rest + more).take(size as int) =~= rest.take(size as int));
                    assert((input + more).skip(n + size + 2) =~= input.skip(n + size + 2) + more);
                }
            },
            _ => {},
        }
    }
}

/// A body whose reading does not run into the end of the input is read the
/// same way whatever follows the input.
pub proof fn lemma_chunks_settled(input: Seq<u8>, more: Seq<u8>)
    requires
        !chunks_starve(input),
    ensures
        chunk_items(input + more) == chunk_items(input),
        !chunks_starve(input + more),
    decreases input.len(),
{
    let step = chunk_step(input);
    lemma_chunk_step_settled(input, more);
    lemma_chunk_step_consumes(input);
    if !step.stops {
        lemma_chunks_settled(input.skip(step.consumed), more);
    }
}

impl BodyDecoder for ChunkedDecoder {
    open spec fn items(&self) -> Seq<Item> {
        if self.stopped() {
            Seq::empty()
        } else {
            chunk_items(self.reader().remaining())
        }
    }

    open spec fn exhausted(&self) -> bool {
        self.stopped()
    }

    proof fn lemma_last_item_ends(&self) {
        lemma_chunk_items_end(self.reader().remaining());
    }

    proof fn lemma_exhausted_is_empty(&self) {
    }

    fn is_exhausted(&self) -> (exhausted: bool) {
        self.stopped
    }

    /// Reads one chunk, as `chunk_step` says. A decoder that has stopped gives
    /// nothing and reads nothing.
    fn next(&mut self) -> (item: Option<Result<Chunk, &'static str>>)
        ensures
            !old(self).stopped() ==> {
                let step = chunk_step(old(self).reader().remaining());
                &&& final(self).stopped() == step.stops
                &&& final(self).reader().remaining() == old(self).reader().remaining().skip(
                    step.consumed,
                )
                &&& final(self).reader().starved() == (old(self).reader().starved() || step.starves)
            },
    {
        if self.stopped {
            return None;
        }
        let ghost input = self.buf.remaining();
        proof {
            lemma_line_len(input);
            lemma_chunk_step_consumes(input);
        }
        let raw = self.buf.read_line();
        let ghost rest = self.buf.remaining();
        let line = match decode(raw) {
            Some(line) => line,
            None => {
                self.stopped = true;
                return Some(Err("Expected chunk size"));
            },
        };
        match read_chunk_header(line.as_str()) {
            ChunkHeader::End => {
                self.stopped = true;
                None
            },
            ChunkHeader::Invalid => {
                self.stopped = true;
                Some(Err("Invalid chunk size"))
            },
            ChunkHeader::Size(size, extension) => {
                if size == 0 {
                    self.stopped = true;
                    let _ = self.buf.read_exact(2);
                    proof {
                        if rest.len() >= 2 {
                            assert(rest.skip(2) =~= input.skip(line_len(input) + 2));
                        } else {
                            assert(Seq::<u8>::empty() =~= input.skip(input.len() as int));
                        }
                    }
                    return Some(Ok(Chunk { buf: Vec::new(), extension }));
                }
                match self.buf.read_exact(size) {
                    None => {
                        self.stopped = true;
                        assert(Seq::<u8>::empty() =~= input.skip(input.len() as int));
                        Some(Err("Expected a chunk"))
                    },
                    Some(buf) => match self.buf.read_exact(2) {
                        None => {
                            self.stopped = true;
                            assert(Seq::<u8>::empty() =~= input.skip(input.len() as int));
                            None
                        },
                        Some(_) => {
                            assert(rest.skip(size as int).skip(2) =~= input.skip(
                                line_len(input) + size + 2,
                            ));
                            Some(Ok(Chunk { buf, extension }))
                        },
                    },
                }
            },
        }
    }
}

/// One chunk as a sender writes it: the number of its bytes in base sixteen,
/// a line ending, the bytes, and a line ending.
pub open spec fn chunk_wire(payload: Seq<u8>) -> Seq<u8> {
    encode_utf8(hex(payload.len()) + seq!['\r', '\n']) + payload + seq![13u8, LINE_FEED]
}

/// A body as a sender writes it in chunks: one chunk for each of `payloads`,
/// and an empty chunk to end with.
pub open spec fn chunked_wire(payloads: Seq<Seq<u8>>) -> Seq<u8>
    decreases payloads.len(),
{
    if payloads.len() == 0 {
        chunk_wire(Seq::empty())
    } else {
        chunk_wire(payloads[0]) + chunked_wire(payloads.drop_first())
    }
}

/// The chunk that holds the bytes `payload` and no extension.
pub open spec fn plain_chunk(payload: Seq<u8>) -> Item {
    Ok(ChunkView { buf: payload, extension: Seq::empty() })
}

/// The items of a body that carries `payloads`: a chunk for each, and an
/// empty chunk to end with.
pub open spec fn sent_items(payloads: Seq<Seq<u8>>) -> Seq<Item>
    decreases payloads.len(),
{
    if payloads.len() == 0 {
        seq![plain_chunk(Seq::empty())]
    } else {
        seq![plain_chunk(payloads[0])] + sent_items(payloads.drop_first())
    }
}

/// A pull on a chunk as a sender writes it gives the chunk back and uses up
/// just what was written for it. A chunk that holds bytes lets the decoder go
/// on; the empty chunk stops it.
pub proof fn lemma_chunk_wire_step(payload: Seq<u8>, tail: Seq<u8>)
    requires
        payload.len() <= usize::MAX,
    ensures
        chunk_step(chunk_wire(payload) + tail) == (Step {
            item: Some(plain_chunk(payload)),
            consumed: chunk_wire(payload).len() as int,
            stops: payload.len() == 0,
            starves: false,
        }),
        (chunk_wire(payload) + tail).skip(chunk_wire(payload).len() as int) == tail,
{
    let n = payload.len();
    let digits = hex(n);
    let ending = seq!['\r', '\n'];
    let line = digits + ending;
    let head = encode_utf8(line);
    let input = chunk_wire(payload) + tail;
    lemma_hex_digits(n);
    lemma_hex_round_trip(n);
    assert(is_ascii_chars(line)) by {
        assert forall|i: int| 0 <= i < line.len() implies '\0' <= #[trigger] line[i] <= '\u{7f}' by {
            if i < digits.len() {
                assert(line[i] == digits[i] && is_hex_digit(digits[i]));
            } else {
                assert(line[i] == ending[i - digits.len()]);
            }
        }
    }
    is_ascii_chars_encode_utf8(line);
    encode_utf8_valid_utf8(line);
    encode_utf8_decode_utf8(line);
    let k = digits.len() as int;
    assert(line[k] == ending[0] && line[k + 1] == ending[1]);
    assert forall|j: int| 0 <= j < k + 1 implies !set![LINE_FEED].contains(#[trigger] input[j]) by {
        assert(input[j] == head[j]);
        assert(head[j] == line[j] as u8);
        if j < k {
            assert(line[j] == digits[j] && is_hex_digit(digits[j]));
        }
    }
    assert(input[k + 1] == head[k + 1]);
    assert(head[k + 1] == line[k + 1] as u8);
    assert(is_first_in(input, set![LINE_FEED], k + 1));
    lemma_first_in_unique(input, set![LINE_FEED], k + 1);
    assert(line_len(input) == k + 2);
    assert(input.take(k + 2) =~= head);
    let rest = input.skip(k + 2);
    assert(rest =~= payload + seq![13u8, LINE_FEED] + tail);
    assert forall|i: int| 0 <= i < digits.len() implies !is_whitespace(#[trigger] digits[i])
        && digits[i] != ';' by {
        assert(is_hex_digit(digits[i]));
    }
    assert(digits.last() == digits[digits.len() - 1]);
    lemma_trim_bare(digits, ending);
    lemma_trim_bare(digits, Seq::empty());
    assert(digits + Seq::<char>::empty() =~= digits);
    assert forall|j: int| 0 <= j < k implies !set![';'].contains(#[trigger] digits[j]) by {
        assert(is_hex_digit(digits[j]));
    }
    assert(is_first_in(digits, set![';'], k));
    lemma_first_in_unique(digits, set![';'], k);
    assert(digits.take(k) =~= digits);
    assert(chunk_header(line) == ChunkHeaderView::Size(n, Seq::empty()));
    if n > 0 {
        assert(rest.take(n as int) =~= payload);
        assert(input.skip(k + 2 + n + 2) =~= tail);
    } else {
        assert(payload =~= Seq::<u8>::empty());
        assert(input.skip(k + 2 + 2) =~= tail);
    }
}

/// What a sender writes in chunks is read back chunk for chunk: the decoder
/// hands out each of `payloads` as it was sent, then the empty chunk that ends
/// the body, and never runs into the end of the input.
pub proof fn lemma_chunked_round_trip(payloads: Seq<Seq<u8>>)
    requires
        forall|i: int| 0 <= i < payloads.len() ==> 0 < (#[trigger] payloads[i]).len() <= usize::MAX,
    ensures
        chunk_items(chunked_wire(payloads)) == sent_items(payloads),
        payload(chunk_items(chunked_wire(payloads))) == payloads.flatten(),
        !chunks_starve(chunked_wire(payloads)),
    decreases payloads.len(),
{
    if payloads.len() == 0 {
        let none = Seq::<u8>::empty();
        lemma_chunk_wire_step(none, none);
        assert(chunk_wire(none) + none =~= chunk_wire(none));
        let items = sent_items(payloads);
        assert(payload(items.drop_first()) =~= Seq::<u8>::empty());
        assert(payload(items) =~= Seq::<u8>::empty());
    } else {
        let first = payloads[0];
        let others = payloads.drop_first();
        lemma_chunk_wire_step(first, chunked_wire(others));
        lemma_chunked_round_trip(others);
        let items = sent_items(payloads);
        assert(items.drop_first() =~= sent_items(others));
        assert(payloads.first() == first);
    }
}

} // verus!
