use http::framing::{BodyStream, Framing};
use http::body::BodyDecoder;
use http::head::{read_head, read_head_line, read_headers, HeadLine};
use http::method::Method;
use http::reader::Reader;
use http::request::ParseError;
use http::version::HttpVersion;

fn text_of(line: HeadLine) -> Option<String> {
    match line {
        HeadLine::Text(text) => Some(text),
        _ => None,
    }
}

#[test]
fn the_head_leaves_the_body_in_the_reader() {
    let mut reader = Reader::new(
        b"PUT /file HTTP/1.0\r\nContent-Length: 4\r\nX: y\r\n\r\nbodyGET".to_vec(),
    );
    let head = read_head(&mut reader).ok().unwrap();
    assert_eq!(Method::Put, head.method);
    assert_eq!("/file", head.target);
    assert_eq!(HttpVersion::V1_0, head.version);
    assert_eq!(Framing::FixedLength(4), head.framing);
    assert_eq!(2, head.headers.unwrap().len());
    assert_eq!(7, reader.available());
    assert!(!reader.is_starved());
    let mut body = BodyStream::new(head.framing, reader).unwrap();
    assert_eq!(b"body".to_vec(), body.all_bytes());
    assert!(!body.is_starved());
}

#[test]
fn a_failed_head_stops_reading_where_it_failed() {
    let mut reader = Reader::new(b"GET / HTTP/1.1\r\nbroken\r\nHost: a\r\n\r\n".to_vec());
    assert_eq!(
        Some(ParseError::MalformedHeader),
        read_head(&mut reader).err()
    );
    assert_eq!(11, reader.available());
    let mut reader = Reader::new(b"GET /\r\nHost: a\r\n\r\n".to_vec());
    assert_eq!(
        Some(ParseError::InvalidRequestLine),
        read_head(&mut reader).err()
    );
    assert_eq!(11, reader.available());
}

#[test]
fn lines_of_the_head_come_without_their_ending() {
    let mut reader = Reader::new(b"one\r\ntwo\n\r\n\xff\nlast".to_vec());
    assert_eq!(Some("one".to_string()), text_of(read_head_line(&mut reader)));
    assert_eq!(Some("two".to_string()), text_of(read_head_line(&mut reader)));
    assert_eq!(Some(String::new()), text_of(read_head_line(&mut reader)));
    assert!(matches!(read_head_line(&mut reader), HeadLine::Unreadable));
    assert!(!reader.is_starved());
    assert_eq!(Some("last".to_string()), text_of(read_head_line(&mut reader)));
    assert!(reader.is_starved());
    assert!(matches!(read_head_line(&mut reader), HeadLine::End));
}

#[test]
fn header_lines_end_at_a_blank_line() {
    let mut reader = Reader::new(b"A: 1\r\nB: 2\r\n\r\nC: 3\r\n".to_vec());
    let map = read_headers(&mut reader).ok().unwrap();
    assert_eq!(2, map.len());
    assert_eq!(Some(&"1".to_string()), map.get("A"));
    assert_eq!(Some(&"2".to_string()), map.get("B"));
    assert_eq!(6, reader.available());
    let mut empty = Reader::new(b"\r\nA: 1\r\n".to_vec());
    assert_eq!(0, read_headers(&mut empty).ok().unwrap().len());
    assert_eq!(6, empty.available());
}

#[test]
fn a_pull_leaves_the_reader_where_the_body_left_it() {
    let mut fixed = BodyStream::new(Framing::FixedLength(3), Reader::new(b"abcdef".to_vec())).unwrap();
    assert!(fixed.next().is_some());
    assert!(!fixed.is_starved());
    assert!(fixed.next().is_none());
    assert!(!fixed.is_starved());
    let mut short = BodyStream::new(Framing::FixedLength(9), Reader::new(b"abcdef".to_vec())).unwrap();
    assert_eq!(Some(Err("Expected a body")), short.next());
    assert!(short.is_starved());
    let mut chunks = BodyStream::new(Framing::Chunked, Reader::new(b"3\r\nabc\r\n0\r\n".to_vec())).unwrap();
    assert!(chunks.next().is_some());
    assert!(!chunks.is_starved());
    assert!(!chunks.is_exhausted());
    assert!(chunks.next().is_some());
    assert!(chunks.is_starved());
    assert!(chunks.is_exhausted());
    assert!(BodyStream::new(Framing::NoBody, Reader::new(Vec::new())).is_none());
}
