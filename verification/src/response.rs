//! Responses, and the bytes that carry them.

use crate::headers::{Field, HeaderMap};
use crate::number::{decimal, push_decimal};
use crate::request::ParseError;
use crate::status::Status;
use crate::version::HttpVersion;
use vstd::prelude::*;
use vstd::string::*;
use vstd::utf8::*;

verus! {

/// One header field written as `name: value`.
pub open spec fn field_text(field: Field) -> Seq<char> {
    field.0 + ": "@ + field.1
}

/// The header fields `fields`, each written as `name: value`, with `, `
/// between one and the next.
pub open spec fn joined(fields: Seq<Field>) -> Seq<char>
    decreases fields.len(),
{
    if fields.len() == 0 {
        Seq::empty()
    } else if fields.len() == 1 {
        field_text(fields[0])
    } else {
        joined(fields.drop_last()) + ", "@ + field_text(fields.last())
    }
}

/// The header block of a response, already written out. It goes onto the wire
/// as it is.
pub struct Headers {
    pub headers: String,
}

impl Headers {
    /// The fields of `map`, written out one after the other.
    pub fn from_hash_map(map: &HeaderMap) -> (block: Headers)
        ensures
            block.headers@ == joined(map.entries()),
    {
        let mut headers = String::new();
        let mut i: usize = 0;
        while i < map.len()
            invariant
                0 <= i <= map.entries().len(),
                headers@ == joined(map.entries().take(i as int)),
            decreases map.entries().len() - i,
        {
            let ghost before = map.entries().take(i as int);
            let ghost after = map.entries().take(i + 1);
            assert(after.drop_last() =~= before);
            assert(after.last() == map.entries()[i as int]);
            match map.entry(i) {
                Some((name, value)) => {
                    if i > 0 {
                        headers.append(", ");
                    }
                    headers.append(name.as_str());
                    headers.append(": ");
                    headers.append(value.as_str());
                },
                None => {},
            }
            assert(headers@ =~= joined(after));
            i = i + 1;
        }
        assert(map.entries().take(i as int) =~= map.entries());
        Headers { headers }
    }

    /// The header block `headers`.
    pub fn new(headers: &str) -> (block: Headers)
        ensures
            block.headers@ == headers@,
    {
        Headers { headers: headers.to_owned() }
    }
}

/// What a handler answers: a status, a header block and a body.
pub struct Response {
    pub headers: Headers,
    pub body: Vec<u8>,
    pub status: Status,
}

/// The head of a response: the status line, the length of the body, the
/// header block on lines of its own if it is not empty, and a blank line.
pub open spec fn head_text(
    version: HttpVersion,
    status: Status,
    headers: Seq<char>,
    length: nat,
) -> Seq<char> {
    version.text() + " "@ + decimal(status.number() as nat) + " "@ + status.reason_text()
        + "\r\nContent-Length: "@ + decimal(length) + (if headers.len() > 0 {
        "\r\n"@ + headers
    } else {
        Seq::empty()
    }) + "\r\n\r\n"@
}

impl Response {
    /// A response of these three parts.
    pub fn new(status: Status, headers: Headers, body: Vec<u8>) -> (response: Response)
        ensures
            response.status == status,
            response.headers == headers,
            response.body == body,
    {
        Response { headers, body, status }
    }

    /// The answer to a request whose head could not be read: status 400, no
    /// header block, and what went wrong as the body.
    pub fn bad_request(error: ParseError) -> (response: Response)
        ensures
            response.status == Status::BadRequest,
            response.headers.headers@ == Seq::<char>::empty(),
            response.body@ == encode_utf8(error.text()),
    {
        Response {
            headers: Headers { headers: String::new() },
            body: error.message().as_bytes_vec(),
            status: Status::BadRequest,
        }
    }

    /// What is sent where the head of a request could not be read: the answer
    /// that `bad_request` gives, and version 1.1 for its status line, since no
    /// request is there to name another.
    pub fn refuse(error: ParseError) -> (reply: (HttpVersion, Response))
        ensures
            reply.0 == HttpVersion::V1_1,
            reply.1.status == Status::BadRequest,
            reply.1.headers.headers@ == Seq::<char>::empty(),
            reply.1.body@ == encode_utf8(error.text()),
    {
        (HttpVersion::V1_1, Response::bad_request(error))
    }

    /// The head of the response as it goes onto the wire, with `version` in
    /// the status line.
    pub fn head(&self, version: &HttpVersion) -> (head: String)
        ensures
            head@ == head_text(*version, self.status, self.headers.headers@, self.body@.len()),
    {
        let mut head = version.to_string();
        head.append(" ");
        push_decimal(&mut head, self.status.code() as usize);
        head.append(" ");
        head.append(self.status.reason());
        head.append("\r\nContent-Length: ");
        push_decimal(&mut head, self.body.len());
        if !self.headers.headers.as_str().is_empty() {
            head.append("\r\n");
            head.append(self.headers.headers.as_str());
        }
        head.append("\r\n\r\n");
        assert(head@ =~= head_text(
            *version,
            self.status,
            self.headers.headers@,
            self.body@.len(),
        ));
        head
    }

    /// The whole response as it goes onto the wire: the head, then the body.
    pub fn serialize(&self, version: &HttpVersion) -> (wire: Vec<u8>)
        ensures
            wire@ == encode_utf8(
                head_text(*version, self.status, self.headers.headers@, self.body@.len()),
            ) + self.body@,
    {
        let head = self.head(version);
        let mut wire = head.as_str().as_bytes_vec();
        let ghost front = wire@;
        let mut i: usize = 0;
        while i < self.body.len()
            invariant
                0 <= i <= self.body.len(),
                wire@ == front + self.body@.take(i as int),
            decreases self.body.len() - i,
        {
            wire.push(self.body[i]);
            assert(wire@ =~= front + self.body@.take(i + 1));
            i = i + 1;
        }
        assert(self.body@.take(i as int) =~= self.body@);
        wire
    }
}

} // verus!
