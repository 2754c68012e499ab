//! Requests: how the request line and the header lines are read, and the
//! request as a whole.

use crate::body::{BodyDecoder, Item};
use crate::chunked::{
    chunks_starve, lemma_chunk_step_consumes, lemma_chunks_settled, ChunkedDecoder,
};
use crate::framing::{body_items, body_starves, items_of, BodyStream, Framing};
use crate::head::{
    fields_of, header_block, lemma_ascii_head_line, lemma_head_settled, parse_head, read_head,
};
use crate::headers::{Field, HeaderMap};
use crate::method::{lemma_method_round_trip, Method};
use crate::reader::Reader;
use crate::text::{
    chars_of, find_char, first_in, is_ascii_whitespace, is_word, lemma_three_words, split_words,
    strip_line_ending, trim, trim_bounds, words,
};
use crate::version::{lemma_version_round_trip, HttpVersion};
use vstd::prelude::*;
use vstd::slice::slice_to_vec;
use vstd::string::*;
use vstd::utf8::*;

verus! {

/// Why the head of a request could not be read.
#[derive(Debug, Clone, Copy, PartialEq, Eq, Structural)]
pub enum ParseError {
    /// The input holds nothing at all.
    ExpectedRequestLine,
    /// The request line is not UTF-8.
    UnreadableRequestLine,
    /// The request line is not made of three words.
    InvalidRequestLine,
    /// The first word of the request line names no method.
    InvalidMethod,
    /// The third word of the request line names no version.
    UnknownVersion,
    /// A header line is not UTF-8.
    ExpectedHeader,
    /// A header line holds no colon.
    MalformedHeader,
    /// The value of `Content-Length` is not a number that fits in memory.
    InvalidContentLength,
}

impl ParseError {
    /// What went wrong, in words.
    pub open spec fn text(self) -> Seq<char> {
        match self {
            ParseError::ExpectedRequestLine => "Expected request line"@,
            ParseError::UnreadableRequestLine => "Couldn't get request line"@,
            ParseError::InvalidRequestLine => "Invalid request line"@,
            ParseError::InvalidMethod => "Invalid HTTP Method"@,
            ParseError::UnknownVersion => "Unknown HTTP version"@,
            ParseError::ExpectedHeader => "Expected a header"@,
            ParseError::MalformedHeader => "Malformed HTTP header"@,
            ParseError::InvalidContentLength => "Content-Length is not a number"@,
        }
    }

    /// What went wrong, in words.
    pub fn message(&self) -> (message: &'static str)
        ensures
            message@ == self.text(),
    {
        match self {
            ParseError::ExpectedRequestLine => "Expected request line",
            ParseError::UnreadableRequestLine => "Couldn't get request line",
            ParseError::InvalidRequestLine => "Invalid request line",
            ParseError::InvalidMethod => "Invalid HTTP Method",
            ParseError::UnknownVersion => "Unknown HTTP version",
            ParseError::ExpectedHeader => "Expected a header",
            ParseError::MalformedHeader => "Malformed HTTP header",
            ParseError::InvalidContentLength => "Content-Length is not a number",
        }
    }

    /// What went wrong, in words, as an owned string.
    pub fn to_string(&self) -> (message: String)
        ensures
            message@ == self.text(),
    {
        String::from_str(self.message())
    }
}

/// What the request line `line` says: its three words are the method, the
/// target and the version. Any other number of words is refused, then a word
/// that names no method, then a word that names no version.
pub open spec fn request_line(line: Seq<char>) -> Result<(Method, Seq<char>, HttpVersion), ParseError> {
    let parts = words(line);
    if parts.len() != 3 {
        Err(ParseError::InvalidRequestLine)
    } else {
        match Method::parse(parts[0]) {
            None => Err(ParseError::InvalidMethod),
            Some(method) => match HttpVersion::parse(parts[2]) {
                None => Err(ParseError::UnknownVersion),
                Some(version) => Ok((method, parts[1], version)),
            },
        }
    }
}

/// Reads a request line.
pub fn parse_request_line(request_line: &str) -> (result: Result<
    (Method, String, HttpVersion),
    ParseError,
>)
    ensures
        match self::request_line(request_line@) {
            Ok((method, target, version)) => {
                &&& result is Ok
                &&& result->Ok_0.0 == method
                &&& result->Ok_0.1@ == target
                &&& result->Ok_0.2 == version
            },
            Err(error) => result is Err && result->Err_0 == error,
        },
{
    let chars = chars_of(request_line);
    let parts = split_words(&chars);
    if parts.len() != 3 {
        return Err(ParseError::InvalidRequestLine);
    }
    let first = request_line.substring_char(parts[0].0, parts[0].1);
    let method = match Method::from_str(first) {
        Ok(method) => method,
        Err(_) => {
            return Err(ParseError::InvalidMethod);
        },
    };
    let third = request_line.substring_char(parts[2].0, parts[2].1);
    let version = match HttpVersion::from_str(third) {
        Ok(version) => version,
        Err(_) => {
            return Err(ParseError::UnknownVersion);
        },
    };
    let target = request_line.substring_char(parts[1].0, parts[1].1).to_owned();
    Ok((method, target, version))
}

/// The field that the header line `line` holds: the name is all that stands
/// before the first colon, as it is; the value is all that stands after it,
/// trimmed. A line without a colon holds no field.
pub open spec fn header_field(line: Seq<char>) -> Option<Field> {
    let at = first_in(line, set![':']);
    if at < line.len() {
        Some((line.take(at), trim(line.skip(at + 1))))
    } else {
        None
    }
}

/// Reads a header line.
pub fn parse_header_line(line: &str) -> (field: Option<(String, String)>)
    ensures
        match header_field(line@) {
            Some((name, value)) => field is Some && field->Some_0.0@ == name && field->Some_0.1@
                == value,
            None => field is None,
        },
{
    let chars = chars_of(line);
    assert(chars@.subrange(0, chars.len() as int) =~= line@);
    let at = find_char(&chars, 0, chars.len(), ':');
    if at == chars.len() {
        return None;
    }
    assert(line@.take(at as int) =~= line@.subrange(0, at as int));
    assert(line@.skip(at + 1) =~= chars@.subrange(at + 1, chars.len() as int));
    let (lo, hi) = trim_bounds(&chars, at + 1, chars.len());
    let name = line.substring_char(0, at).to_owned();
    let value = line.substring_char(lo, hi).to_owned();
    Some((name, value))
}

/// A request: its head, and its body still to be read.
pub struct Request {
    /// The target, as the request line gave it.
    pub path: String,
    pub headers: Option<HeaderMap>,
    pub body: Option<BodyStream>,
    pub http_version: HttpVersion,
    pub method: Method,
}

/// What a request holds.
pub struct RequestView {
    pub method: Method,
    pub http_version: HttpVersion,
    /// The target, as the request line gave it.
    pub path: Seq<char>,
    /// The header fields, each name once, in the order in which the names
    /// first came; the mapping is `to_map` of them.
    pub headers: Option<Seq<Field>>,
    /// The items that the body has yet to hand out.
    pub body: Option<Seq<Item>>,
}

impl View for Request {
    type V = RequestView;

    open spec fn view(&self) -> RequestView {
        RequestView {
            method: self.method,
            http_version: self.http_version,
            path: self.path@,
            headers: fields_of(self.headers),
            body: items_of(self.body),
        }
    }
}

/// The request that `input` holds, or the error that reading its head gives.
pub open spec fn parse_request(input: Seq<u8>) -> Result<RequestView, ParseError> {
    match parse_head(input).head {
        Ok(head) => Ok(
            RequestView {
                method: head.method,
                http_version: head.version,
                path: head.target,
                headers: head.headers,
                body: body_items(head.framing, parse_head(input).rest),
            },
        ),
        Err(error) => Err(error),
    }
}

impl Request {
    /// The target of the request, as the request line gave it.
    pub fn path(&self) -> (path: &str)
        ensures
            path@ == self.path@,
    {
        self.path.as_str()
    }

    /// Reads a request off `stream`: the head at once, the body when it is
    /// pulled.
    pub fn from(stream: Reader) -> (result: Result<Request, ParseError>)
        ensures
            match parse_request(stream.remaining()) {
                Ok(request) => result is Ok && result->Ok_0@ == request,
                Err(error) => result is Err && result->Err_0 == error,
            },
    {
        let mut stream = stream;
        match read_head(&mut stream) {
            Ok(head) => Ok(
                Request {
                    path: head.target,
                    headers: head.headers,
                    body: BodyStream::new(head.framing, stream),
                    http_version: head.version,
                    method: head.method,
                },
            ),
            Err(error) => Err(error),
        }
    }
}

/// A request without header fields as a client writes it: the method, the
/// target and the version with one space between them, a line ending, and a
/// blank line.
pub open spec fn bare_request(method: Method, target: Seq<char>, version: HttpVersion) -> Seq<char> {
    method.text() + seq![' '] + target + seq![' '] + version.text() + seq!['\r', '\n', '\r', '\n']
}

/// A request without header fields is read as it was written: whatever the
/// method, the version, and the target, as long as the target is one word of
/// ASCII characters, the request has that method, that target and that
/// version, no header fields and no body.
pub proof fn lemma_bare_request(method: Method, target: Seq<char>, version: HttpVersion)
    requires
        is_word(target),
        is_ascii_chars(target),
    ensures
        parse_request(encode_utf8(bare_request(method, target, version))) == Ok::<
            RequestView,
            ParseError,
        >(RequestView { method, http_version: version, path: target, headers: None, body: None }),
{
    reveal_strlit("GET");
    reveal_strlit("HEAD");
    reveal_strlit("OPTIONS");
    reveal_strlit("POST");
    reveal_strlit("PUT");
    reveal_strlit("PATCH");
    reveal_strlit("DELETE");
    reveal_strlit("HTTP/0.9");
    reveal_strlit("HTTP/1.0");
    reveal_strlit("HTTP/1.1");
    reveal_strlit("HTTP/2.0");
    reveal_strlit("HTTP/3.0");
    let name = method.text();
    let token = version.text();
    let first = name + seq![' '] + target + seq![' '] + token;
    let ending = seq!['\r', '\n', '\r', '\n'];
    let text = bare_request(method, target, version);
    let n = first.len() as int;
    assert(is_word(name) && is_ascii_chars(name));
    assert(is_word(token) && is_ascii_chars(token));
    assert(text =~= first + ending);
    assert forall|i: int| 0 <= i < n implies '\0' <= #[trigger] first[i] <= '\u{7f}' && first[i]
        != '\n' by {
        let a = name.len() as int;
        let b = a + 1 + target.len();
        if i < a {
            assert(first[i] == name[i]);
            assert(!is_ascii_whitespace(name[i]));
        } else if i == a {
        } else if i < b {
            assert(first[i] == target[i - a - 1]);
            assert(!is_ascii_whitespace(target[i - a - 1]));
        } else if i == b {
        } else {
            assert(first[i] == token[i - b - 1]);
            assert(!is_ascii_whitespace(token[i - b - 1]));
        }
    }
    assert(is_ascii_chars(text)) by {
        assert forall|i: int| 0 <= i < text.len() implies '\0' <= #[trigger] text[i] <= '\u{7f}' by {
            if i < n {
                assert(text[i] == first[i]);
            } else {
                assert(text[i] == ending[i - n]);
            }
        }
    }
    assert(text[n + 1] == ending[1]);
    assert forall|j: int| 0 <= j < n + 1 implies text[j] != '\n' by {
        if j < n {
            assert(text[j] == first[j]);
        } else {
            assert(text[j] == ending[0]);
        }
    }
    lemma_ascii_head_line(text, n + 1);
    assert(strip_line_ending(text.take(n + 2)) =~= first) by {
        let line = text.take(n + 2);
        assert(line.last() == ending[1]);
        assert(line.drop_last().last() == ending[0]);
        assert(line.drop_last().drop_last() =~= first);
    }
    lemma_three_words(name, target, token);
    lemma_method_round_trip(method);
    lemma_version_round_trip(version);
    assert(request_line(first) == Ok::<(Method, Seq<char>, HttpVersion), ParseError>(
        (method, target, version),
    ));
    let after = text.skip(n + 2);
    assert(after =~= seq!['\r', '\n']) by {
        assert(after.len() == 2);
        assert(after[0] == ending[2]);
        assert(after[1] == ending[3]);
    }
    assert(is_ascii_chars(after));
    lemma_ascii_head_line(after, 1);
    assert(after.take(2) =~= after);
    assert(strip_line_ending(after) =~= Seq::<char>::empty());
    let block = header_block(encode_utf8(after), Seq::empty());
    assert(block.fields == Ok::<Seq<Field>, ParseError>(Seq::empty()));
}

/// The smallest request: a method, the target `/`, the version 1.1, and a
/// blank line. Whatever the method, it is read as that method, with that
/// target and that version, without header fields and without a body.
pub proof fn lemma_minimal_request(method: Method)
    ensures
        parse_request(encode_utf8(method.text() + " / HTTP/1.1\r\n\r\n"@)) == Ok::<
            RequestView,
            ParseError,
        >(
            RequestView {
                method,
                http_version: HttpVersion::V1_1,
                path: "/"@,
                headers: None,
                body: None,
            },
        ),
{
    reveal_strlit(" / HTTP/1.1\r\n\r\n");
    reveal_strlit("/");
    reveal_strlit("HTTP/1.1");
    assert(is_word("/"@) && is_ascii_chars("/"@));
    assert(method.text() + " / HTTP/1.1\r\n\r\n"@ =~= bare_request(
        method,
        "/"@,
        HttpVersion::V1_1,
    ));
    lemma_bare_request(method, "/"@, HttpVersion::V1_1);
}

/// Whether `input` holds a whole request: reading its head, and then its body
/// to the end, never runs into the end of the input. More input would then
/// change nothing of what is read.
pub open spec fn is_whole(input: Seq<u8>) -> bool {
    let parse = parse_head(input);
    &&& !parse.starves
    &&& parse.head matches Ok(head) ==> !body_starves(head.framing, parse.rest)
}

/// Whether `input` holds a whole request. A connection is read until it does,
/// or until the peer has no more to send.
pub fn is_complete(input: &[u8]) -> (whole: bool)
    ensures
        whole == is_whole(input@),
{
    let mut reader = Reader::new(slice_to_vec(input));
    let head = match read_head(&mut reader) {
        Ok(head) => head,
        Err(_) => {
            return !reader.is_starved();
        },
    };
    if reader.is_starved() {
        return false;
    }
    match head.framing {
        Framing::NoBody => true,
        Framing::FixedLength(length) => length <= reader.available(),
        Framing::Chunked => {
            let ghost body = reader.remaining();
            let mut decoder = ChunkedDecoder::new(reader);
            while !decoder.is_exhausted()
                invariant
                    chunks_starve(body) == (decoder.reader().starved() || (!decoder.stopped()
                        && chunks_starve(decoder.reader().remaining()))),
                decreases
                        decoder.reader().remaining().len() + (if decoder.stopped() {
                            0int
                        } else {
                            1int
                        }),
            {
                proof {
                    lemma_chunk_step_consumes(decoder.reader().remaining());
                }
                let _ = decoder.next();
            }
            !decoder.is_starved()
        },
    }
}

/// A whole request is settled: whatever follows it on the connection, the
/// same request is read, or the same error given, and the body hands out the
/// same items.
pub proof fn lemma_whole_request_is_settled(input: Seq<u8>, more: Seq<u8>)
    requires
        is_whole(input),
    ensures
        is_whole(input + more),
        parse_request(input + more) == parse_request(input),
{
    lemma_head_settled(input, more);
    let parse = parse_head(input);
    match parse.head {
        Ok(head) => {
            match head.framing {
                Framing::NoBody => {},
                Framing::FixedLength(length) => {
                    assert((parse.rest + more).take(length as int) =~= parse.rest.take(
                        length as int,
                    ));
                },
                Framing::Chunked => {
                    lemma_chunks_settled(parse.rest, more);
                },
            }
        },
        Err(_) => {},
    }
}

} // verus!
