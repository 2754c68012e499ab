//! How the header fields frame the body of a request.

use crate::body::{fixed_item, Body, BodyDecoder, Chunk, Item};
use crate::chunked::{chunk_items, chunk_step, chunks_starve, ChunkedDecoder};
use crate::head::fields_of;
use crate::headers::{to_map, Field, HeaderMap};
use crate::number::{parse_u64, parse_unsigned};
use crate::reader::Reader;
use crate::request::ParseError;
use crate::text::{chars_of, lowercased, same_text, to_lowercase};
use vstd::prelude::*;
use vstd::string::*;

verus! {

/// How the body of a request is framed.
#[derive(Debug, Clone, Copy, PartialEq, Eq, Structural)]
pub enum Framing {
    /// The request has no body.
    NoBody,
    /// The body is this many bytes long.
    FixedLength(usize),
    /// The body comes in chunks.
    Chunked,
}

/// The framing that the two fields give, each by its value where it is there,
/// the second already in small letters.
///
/// `Content-Length` comes first: its value must be a number in base ten that
/// fits in memory. Without it, a `Transfer-Encoding` that reads `chunked` in
/// small letters gives chunks. Anything else gives no body.
pub open spec fn framing_of(
    content_length: Option<Seq<char>>,
    lowered_encoding: Option<Seq<char>>,
) -> Result<Framing, ParseError> {
    match content_length {
        Some(length) => match parse_unsigned(length, 10) {
            Some(n) => if n <= usize::MAX {
                Ok(Framing::FixedLength(n as usize))
            } else {
                Err(ParseError::InvalidContentLength)
            },
            None => Err(ParseError::InvalidContentLength),
        },
        None => match lowered_encoding {
            Some(coding) => if coding == "chunked"@ {
                Ok(Framing::Chunked)
            } else {
                Ok(Framing::NoBody)
            },
            None => Ok(Framing::NoBody),
        },
    }
}

/// The framing that the two fields give, each by its value where it is there:
/// `framing_of` the first and the second put in small letters, so that
/// `Transfer-Encoding` counts in letters of either size.
pub open spec fn select_framing(
    content_length: Option<Seq<char>>,
    transfer_encoding: Option<Seq<char>>,
) -> Result<Framing, ParseError> {
    framing_of(
        content_length,
        match transfer_encoding {
            Some(coding) => Some(lowercased(coding)),
            None => None,
        },
    )
}

/// The framing that the two fields give, the second already in small letters.
pub fn choose_framing(content_length: &Option<String>, lowered_encoding: &Option<String>) -> (result:
    Result<Framing, ParseError>)
    ensures
        result == framing_of(text_of(*content_length), text_of(*lowered_encoding)),
{
    match content_length {
        Some(length) => {
            let chars = chars_of(length.as_str());
            assert(chars@.subrange(0, chars.len() as int) =~= length@);
            match parse_u64(&chars, 0, chars.len(), 10) {
                Some(n) => if n <= usize::MAX as u64 {
                    Ok(Framing::FixedLength(n as usize))
                } else {
                    Err(ParseError::InvalidContentLength)
                },
                None => Err(ParseError::InvalidContentLength),
            }
        },
        None => match lowered_encoding {
            Some(coding) => {
                if same_text(coding.as_str(), "chunked") {
                    Ok(Framing::Chunked)
                } else {
                    Ok(Framing::NoBody)
                }
            },
            None => Ok(Framing::NoBody),
        },
    }
}

/// The value of the field named `name`, if `fields` hold one.
pub open spec fn field_value(fields: Option<Seq<Field>>, name: Seq<char>) -> Option<Seq<char>> {
    match fields {
        Some(fields) => if to_map(fields).contains_key(name) {
            Some(to_map(fields)[name])
        } else {
            None
        },
        None => None,
    }
}

/// The framing that the header fields `fields` announce. The two names are
/// looked up as they are written here, capitals included.
pub open spec fn framing(fields: Option<Seq<Field>>) -> Result<Framing, ParseError> {
    select_framing(
        field_value(fields, "Content-Length"@),
        field_value(fields, "Transfer-Encoding"@),
    )
}

/// The header fields that decide how the body is framed.
pub struct InternalHeaders {
    pub content_length: Option<String>,
    pub transfer_encoding: Option<String>,
}

/// What a value that may be missing holds.
pub open spec fn text_of(value: Option<String>) -> Option<Seq<char>> {
    match value {
        Some(text) => Some(text@),
        None => None,
    }
}

impl InternalHeaders {
    /// Neither field.
    pub fn new() -> (fields: InternalHeaders)
        ensures
            fields.content_length is None,
            fields.transfer_encoding is None,
    {
        InternalHeaders { content_length: None, transfer_encoding: None }
    }

    /// The two fields as `headers` hold them.
    pub fn of(headers: &Option<HeaderMap>) -> (fields: InternalHeaders)
        ensures
            text_of(fields.content_length) == field_value(fields_of(*headers), "Content-Length"@),
            text_of(fields.transfer_encoding) == field_value(
                fields_of(*headers),
                "Transfer-Encoding"@,
            ),
    {
        let mut fields = InternalHeaders::new();
        match headers {
            Some(map) => {
                match map.get("Content-Length") {
                    Some(value) => {
                        fields.content_length = Some(value.clone());
                    },
                    None => {},
                }
                match map.get("Transfer-Encoding") {
                    Some(value) => {
                        fields.transfer_encoding = Some(value.clone());
                    },
                    None => {},
                }
            },
            None => {},
        }
        fields
    }

    /// The framing that the two fields give.
    pub fn framing(&self) -> (result: Result<Framing, ParseError>)
        ensures
            result == select_framing(
                text_of(self.content_length),
                text_of(self.transfer_encoding),
            ),
    {
        let lowered = match &self.transfer_encoding {
            Some(coding) => Some(to_lowercase(coding.as_str())),
            None => None,
        };
        choose_framing(&self.content_length, &lowered)
    }
}

/// The body of a request, in one of the two framings.
pub enum BodyStream {
    /// A body whose length was announced.
    FixedLength(Body),
    /// A body in chunks.
    Chunked(ChunkedDecoder),
}

impl BodyStream {
    /// The input that the body is read from.
    pub open spec fn reader(&self) -> Reader {
        match self {
            BodyStream::FixedLength(body) => body.reader(),
            BodyStream::Chunked(decoder) => decoder.reader(),
        }
    }

    /// The input that is left once the next item has been pulled. A body that
    /// has ended reads nothing; a body of a known length reads that many bytes,
    /// or all that is left where that is less; a body in chunks reads what
    /// `chunk_step` uses up.
    pub open spec fn remaining_after_pull(&self) -> Seq<u8> {
        let input = self.reader().remaining();
        match self {
            BodyStream::FixedLength(body) => if body.done() {
                input
            } else if body.length() <= input.len() {
                input.skip(body.length() as int)
            } else {
                Seq::empty()
            },
            BodyStream::Chunked(decoder) => if decoder.stopped() {
                input
            } else {
                input.skip(chunk_step(input).consumed)
            },
        }
    }

    /// Whether pulling the next item runs into the end of the input.
    pub open spec fn starves_on_pull(&self) -> bool {
        let input = self.reader().remaining();
        match self {
            BodyStream::FixedLength(body) => !body.done() && input.len() < body.length(),
            BodyStream::Chunked(decoder) => !decoder.stopped() && chunk_step(input).starves,
        }
    }

    /// The body that `framing` announces, to be read from `reader`.
    pub fn new(framing: Framing, reader: Reader) -> (body: Option<BodyStream>)
        ensures
            items_of(body) == body_items(framing, reader.remaining()),
            match framing {
                Framing::NoBody => body is None,
                Framing::FixedLength(length) => {
                    &&& body matches Some(BodyStream::FixedLength(fixed))
                    &&& fixed.reader() == reader
                    &&& fixed.length() == length
                    &&& !fixed.done()
                },
                Framing::Chunked => {
                    &&& body matches Some(BodyStream::Chunked(decoder))
                    &&& decoder.reader() == reader
                    &&& !decoder.stopped()
                },
            },
    {
        match framing {
            Framing::NoBody => None,
            Framing::FixedLength(length) => Some(BodyStream::FixedLength(Body::new(length, reader))),
            Framing::Chunked => Some(BodyStream::Chunked(ChunkedDecoder::new(reader))),
        }
    }

    /// Whether some read has run into the end of the input.
    pub fn is_starved(&self) -> (starved: bool)
        ensures
            starved == self.reader().starved(),
    {
        match self {
            BodyStream::FixedLength(body) => body.is_starved(),
            BodyStream::Chunked(decoder) => decoder.is_starved(),
        }
    }
}

/// The items of a body that may be missing.
pub open spec fn items_of(body: Option<BodyStream>) -> Option<Seq<Item>> {
    match body {
        Some(stream) => Some(stream.items()),
        None => None,
    }
}

/// The items of the body that `framing` announces, read from `input`.
pub open spec fn body_items(framing: Framing, input: Seq<u8>) -> Option<Seq<Item>> {
    match framing {
        Framing::NoBody => None,
        Framing::FixedLength(length) => Some(seq![fixed_item(input, length as nat)]),
        Framing::Chunked => Some(chunk_items(input)),
    }
}

impl BodyDecoder for BodyStream {
    open spec fn items(&self) -> Seq<Item> {
        match self {
            BodyStream::FixedLength(body) => body.items(),
            BodyStream::Chunked(decoder) => decoder.items(),
        }
    }

    open spec fn exhausted(&self) -> bool {
        match self {
            BodyStream::FixedLength(body) => body.exhausted(),
            BodyStream::Chunked(decoder) => decoder.exhausted(),
        }
    }

    proof fn lemma_last_item_ends(&self) {
        match self {
            BodyStream::FixedLength(body) => body.lemma_last_item_ends(),
            BodyStream::Chunked(decoder) => decoder.lemma_last_item_ends(),
        }
    }

    proof fn lemma_exhausted_is_empty(&self) {
        match self {
            BodyStream::FixedLength(body) => body.lemma_exhausted_is_empty(),
            BodyStream::Chunked(decoder) => decoder.lemma_exhausted_is_empty(),
        }
    }

    fn is_exhausted(&self) -> (exhausted: bool) {
        match self {
            BodyStream::FixedLength(body) => body.is_exhausted(),
            BodyStream::Chunked(decoder) => decoder.is_exhausted(),
        }
    }

    /// Pulls the next item of whichever body this is. The body stays of its
    /// kind, and its reader is left as that kind of body leaves it.
    fn next(&mut self) -> (item: Option<Result<Chunk, &'static str>>)
        ensures
            *final(self) is Chunked <==> *old(self) is Chunked,
            final(self).reader().remaining() == old(self).remaining_after_pull(),
            final(self).reader().starved() == (old(self).reader().starved() || old(
                self,
            ).starves_on_pull()),
    {
        match self {
            BodyStream::FixedLength(body) => body.next(),
            BodyStream::Chunked(decoder) => decoder.next(),
        }
    }
}

/// Whether reading the body that `framing` announces from `input`, to its
/// end, runs into the end of the input.
pub open spec fn body_starves(framing: Framing, input: Seq<u8>) -> bool {
    match framing {
        Framing::NoBody => false,
        Framing::FixedLength(length) => input.len() < length,
        Framing::Chunked => chunks_starve(input),
    }
}

} // verus!
