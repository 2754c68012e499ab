//! The head of a request: the request line and the header lines, read off
//! the input line by line.

use crate::framing::{framing, Framing, InternalHeaders};
use crate::headers::{put, Field, HeaderMap};
use crate::method::Method;
use crate::reader::{
    has_line, lemma_line_in_longer_input, lemma_line_len, lemma_line_without_end, line_len, Reader,
    LINE_FEED,
};
use crate::request::{header_field, parse_header_line, parse_request_line, request_line, ParseError};
use crate::text::{
    decode, is_first_in, lemma_first_in_exists, lemma_first_in_unique, strip_line_ending,
    without_line_ending,
};
use crate::version::HttpVersion;
use vstd::prelude::*;
use vstd::string::*;
use vstd::utf8::*;

verus! {

/// A line of the head of a request, as it comes off the input.
pub enum HeadLine {
    /// The input has ended: there is no line.
    End,
    /// The line is not UTF-8.
    Unreadable,
    /// The line, without its line ending.
    Text(String),
}

/// What a line of the head holds.
pub enum HeadLineView {
    End,
    Unreadable,
    Text(Seq<char>),
}

impl View for HeadLine {
    type V = HeadLineView;

    open spec fn view(&self) -> HeadLineView {
        match self {
            HeadLine::End => HeadLineView::End,
            HeadLine::Unreadable => HeadLineView::Unreadable,
            HeadLine::Text(text) => HeadLineView::Text(text@),
        }
    }
}

/// The first line of `input`, read as a line of the head: it must be UTF-8,
/// and its line ending is left out.
pub open spec fn head_line(input: Seq<u8>) -> HeadLineView {
    if input.len() == 0 {
        HeadLineView::End
    } else if !valid_utf8(input.take(line_len(input))) {
        HeadLineView::Unreadable
    } else {
        HeadLineView::Text(strip_line_ending(decode_utf8(input.take(line_len(input)))))
    }
}

/// Reads one line of the head off `reader`.
pub fn read_head_line(reader: &mut Reader) -> (line: HeadLine)
    ensures
        line@ == head_line(old(reader).remaining()),
        final(reader).remaining() == old(reader).remaining().skip(
            line_len(old(reader).remaining()),
        ),
        final(reader).starved() == (old(reader).starved() || !has_line(old(reader).remaining())),
{
    proof {
        lemma_line_len(reader.remaining());
    }
    let raw = reader.read_line();
    if raw.len() == 0 {
        return HeadLine::End;
    }
    match decode(raw) {
        None => HeadLine::Unreadable,
        Some(text) => HeadLine::Text(without_line_ending(text.as_str())),
    }
}

/// What reading the header lines comes to.
pub struct HeaderBlock {
    /// The fields found, or the error that stopped the reading.
    pub fields: Result<Seq<Field>, ParseError>,
    /// The input that is left.
    pub rest: Seq<u8>,
    /// Whether the reading ran into the end of the input.
    pub starves: bool,
}

/// The header lines at the front of `input`, added to the fields `found`.
///
/// Lines are read until one is blank or the input ends. Each line must be
/// UTF-8 and hold a colon; the first that does not stops the reading with an
/// error. A field whose name came before replaces the earlier one.
pub open spec fn header_block(input: Seq<u8>, found: Seq<Field>) -> HeaderBlock
    decreases input.len(),
    via header_block_decreases
{
    let rest = input.skip(line_len(input));
    let starves = !has_line(input);
    match head_line(input) {
        HeadLineView::End => HeaderBlock { fields: Ok(found), rest, starves },
        HeadLineView::Unreadable => HeaderBlock {
            fields: Err(ParseError::ExpectedHeader),
            rest,
            starves,
        },
        HeadLineView::Text(line) => if line.len() == 0 {
            HeaderBlock { fields: Ok(found), rest, starves }
        } else {
            match header_field(line) {
                None => HeaderBlock { fields: Err(ParseError::MalformedHeader), rest, starves },
                Some((name, value)) => header_block(rest, put(found, name, value)),
            }
        },
    }
}

#[via_fn]
proof fn header_block_decreases(input: Seq<u8>, found: Seq<Field>) {
    lemma_line_len(input);
}

/// Reads the header lines off `reader`.
pub fn read_headers(reader: &mut Reader) -> (result: Result<HeaderMap, ParseError>)
    ensures
        match header_block(old(reader).remaining(), Seq::empty()).fields {
            Ok(fields) => result is Ok && result->Ok_0.entries() == fields,
            Err(error) => result is Err && result->Err_0 == error,
        },
        final(reader).remaining() == header_block(old(reader).remaining(), Seq::empty()).rest,
        final(reader).starved() == (old(reader).starved() || header_block(
            old(reader).remaining(),
            Seq::empty(),
        ).starves),
{
    let ghost all = reader.remaining();
    let ghost starved = reader.starved();
    let mut map = HeaderMap::new();
    loop
        invariant
            all == old(reader).remaining(),
            starved == old(reader).starved(),
            header_block(reader.remaining(), map.entries()) == header_block(all, Seq::empty()),
            starved ==> reader.starved(),
            reader.starved() ==> starved || reader.remaining().len() == 0,
        decreases reader.remaining().len(),
    {
        let ghost input = reader.remaining();
        proof {
            lemma_line_len(input);
            lemma_first_in_exists(input, set![LINE_FEED]);
        }
        let line = match read_head_line(reader) {
            HeadLine::End => {
                return Ok(map);
            },
            HeadLine::Unreadable => {
                return Err(ParseError::ExpectedHeader);
            },
            HeadLine::Text(line) => line,
        };
        if line.as_str().is_empty() {
            return Ok(map);
        }
        match parse_header_line(line.as_str()) {
            None => {
                return Err(ParseError::MalformedHeader);
            },
            Some((name, value)) => {
                map.insert(name, value);
            },
        }
    }
}

/// The fields as a request holds them: none at all where no field was sent.
pub open spec fn sent_fields(fields: Seq<Field>) -> Option<Seq<Field>> {
    if fields.len() == 0 {
        None
    } else {
        Some(fields)
    }
}

/// What a mapping that may be missing holds.
pub open spec fn fields_of(headers: Option<HeaderMap>) -> Option<Seq<Field>> {
    match headers {
        Some(map) => Some(map.entries()),
        None => None,
    }
}

/// The head of a request: all that comes before its body.
pub struct Head {
    pub method: Method,
    pub target: String,
    pub version: HttpVersion,
    pub headers: Option<HeaderMap>,
    pub framing: Framing,
}

/// What the head of a request holds.
pub struct HeadView {
    pub method: Method,
    pub target: Seq<char>,
    pub version: HttpVersion,
    pub headers: Option<Seq<Field>>,
    pub framing: Framing,
}

impl View for Head {
    type V = HeadView;

    open spec fn view(&self) -> HeadView {
        HeadView {
            method: self.method,
            target: self.target@,
            version: self.version,
            headers: fields_of(self.headers),
            framing: self.framing,
        }
    }
}

/// What reading the head of a request comes to.
pub struct HeadParse {
    /// The head, or the error that stopped the reading.
    pub head: Result<HeadView, ParseError>,
    /// The input that is left: the body, where the head was read.
    pub rest: Seq<u8>,
    /// Whether the reading ran into the end of the input.
    pub starves: bool,
}

/// The head of the request at the front of `input`.
///
/// The first line is the request line. The header lines follow it, up to the
/// first blank line or the end of the input. The header fields then decide
/// the framing of the body. The first step that fails gives its error, and
/// nothing after it is read.
pub open spec fn parse_head(input: Seq<u8>) -> HeadParse {
    let after = input.skip(line_len(input));
    let dry = !has_line(input);
    match head_line(input) {
        HeadLineView::End => HeadParse {
            head: Err(ParseError::ExpectedRequestLine),
            rest: after,
            starves: dry,
        },
        HeadLineView::Unreadable => HeadParse {
            head: Err(ParseError::UnreadableRequestLine),
            rest: after,
            starves: dry,
        },
        HeadLineView::Text(line) => match request_line(line) {
            Err(error) => HeadParse { head: Err(error), rest: after, starves: dry },
            Ok((method, target, version)) => {
                let block = header_block(after, Seq::empty());
                let starves = dry || block.starves;
                match block.fields {
                    Err(error) => HeadParse { head: Err(error), rest: block.rest, starves },
                    Ok(fields) => match framing(sent_fields(fields)) {
                        Err(error) => HeadParse { head: Err(error), rest: block.rest, starves },
                        Ok(framing) => HeadParse {
                            head: Ok(
                                HeadView {
                                    method,
                                    target,
                                    version,
                                    headers: sent_fields(fields),
                                    framing,
                                },
                            ),
                            rest: block.rest,
                            starves,
                        },
                    },
                }
            },
        },
    }
}

/// Reads the head of a request off `reader`, and leaves the body in it.
pub fn read_head(reader: &mut Reader) -> (result: Result<Head, ParseError>)
    ensures
        match parse_head(old(reader).remaining()).head {
            Ok(head) => result is Ok && result->Ok_0@ == head,
            Err(error) => result is Err && result->Err_0 == error,
        },
        final(reader).remaining() == parse_head(old(reader).remaining()).rest,
        final(reader).starved() == (old(reader).starved() || parse_head(
            old(reader).remaining(),
        ).starves),
{
    let line = match read_head_line(reader) {
        HeadLine::End => {
            return Err(ParseError::ExpectedRequestLine);
        },
        HeadLine::Unreadable => {
            return Err(ParseError::UnreadableRequestLine);
        },
        HeadLine::Text(line) => line,
    };
    let (method, target, version) = match parse_request_line(line.as_str()) {
        Ok(parts) => parts,
        Err(error) => {
            return Err(error);
        },
    };
    let map = match read_headers(reader) {
        Ok(map) => map,
        Err(error) => {
            return Err(error);
        },
    };
    let headers = if map.len() == 0 {
        None
    } else {
        Some(map)
    };
    let framing = match InternalHeaders::of(&headers).framing() {
        Ok(framing) => framing,
        Err(error) => {
            return Err(error);
        },
    };
    Ok(Head { method, target, version, headers, framing })
}

/// A text of ASCII characters, sent as UTF-8, is read line by line as it was
/// written: where its first line feed stands at `at`, the first line of the
/// head is the text up to there without its line ending, and what is left of
/// the input is the rest of the text.
pub proof fn lemma_ascii_head_line(text: Seq<char>, at: int)
    requires
        is_ascii_chars(text),
        0 <= at < text.len(),
        text[at] == '\n',
        forall|j: int| 0 <= j < at ==> text[j] != '\n',
    ensures
        has_line(encode_utf8(text)),
        line_len(encode_utf8(text)) == at + 1,
        head_line(encode_utf8(text)) == HeadLineView::Text(
            strip_line_ending(text.take(at + 1)),
        ),
        encode_utf8(text).skip(at + 1) == encode_utf8(text.skip(at + 1)),
{
    let bytes = encode_utf8(text);
    let line = text.take(at + 1);
    let rest = text.skip(at + 1);
    is_ascii_chars_encode_utf8(text);
    is_ascii_chars_encode_utf8(line);
    is_ascii_chars_encode_utf8(rest);
    assert(bytes[at] == text[at] as u8);
    assert forall|j: int| 0 <= j < at implies !set![LINE_FEED].contains(#[trigger] bytes[j]) by {
        assert(bytes[j] == text[j] as u8);
    }
    assert(is_first_in(bytes, set![LINE_FEED], at));
    lemma_first_in_unique(bytes, set![LINE_FEED], at);
    assert forall|i: int| 0 <= i < line.len() implies bytes.take(at + 1)[i] == encode_utf8(
        line,
    )[i] by {
        assert(line[i] == text[i]);
        assert(bytes[i] == text[i] as u8);
        assert(encode_utf8(line)[i] == line[i] as u8);
    }
    assert(bytes.take(at + 1) =~= encode_utf8(line));
    assert forall|i: int| 0 <= i < rest.len() implies bytes.skip(at + 1)[i] == encode_utf8(
        rest,
    )[i] by {
        assert(rest[i] == text[at + 1 + i]);
        assert(bytes[at + 1 + i] == text[at + 1 + i] as u8);
        assert(encode_utf8(rest)[i] == rest[i] as u8);
    }
    assert(bytes.skip(at + 1) =~= encode_utf8(rest));
    encode_utf8_valid_utf8(line);
    encode_utf8_decode_utf8(line);
}

/// Header lines whose reading does not run into the end of the input are read
/// the same way whatever follows the input, and what follows is left over.
pub proof fn lemma_header_block_settled(input: Seq<u8>, more: Seq<u8>, found: Seq<Field>)
    requires
        !header_block(input, found).starves,
    ensures
        header_block(input + more, found) == (HeaderBlock {
            fields: header_block(input, found).fields,
            rest: header_block(input, found).rest + more,
            starves: false,
        }),
    decreases input.len(),
{
    lemma_line_len(input);
    if !has_line(input) {
        lemma_line_without_end(input);
        let rest = input.skip(line_len(input));
        assert(header_block(rest, found).starves);
        match head_line(input) {
            HeadLineView::Text(line) => {
                if line.len() > 0 && header_field(line) is Some {
                    let field = header_field(line)->Some_0;
                    assert(header_block(rest, put(found, field.0, field.1)).starves);
                }
            },
            _ => {},
        }
    } else {
        lemma_line_in_longer_input(input, more);
        match head_line(input) {
            HeadLineView::Text(line) => {
                if line.len() > 0 && header_field(line) is Some {
                    let field = header_field(line)->Some_0;
                    lemma_header_block_settled(
                        input.skip(line_len(input)),
                        more,
                        put(found, field.0, field.1),
                    );
                }
            },
            _ => {},
        }
    }
}

/// A head whose reading does not run into the end of the input is read the
/// same way whatever follows the input, and what follows is left over.
pub proof fn lemma_head_settled(input: Seq<u8>, more: Seq<u8>)
    requires
        !parse_head(input).starves,
    ensures
        parse_head(input + more) == (HeadParse {
            head: parse_head(input).head,
            rest: parse_head(input).rest + more,
            starves: false,
        }),
{
    lemma_line_len(input);
    lemma_line_in_longer_input(input, more);
    let longer = input + more;
    assert(head_line(longer) == head_line(input));
    assert(longer.skip(line_len(longer)) == input.skip(line_len(input)) + more);
    match head_line(input) {
        HeadLineView::Text(line) => {
            if request_line(line) is Ok {
                lemma_header_block_settled(input.skip(line_len(input)), more, Seq::empty());
            }
        },
        _ => {},
    }
}

} // verus!
