use http::body::{Body, BodyDecoder, Chunk};
use http::reader::Reader;

#[test]
fn a_fixed_length_body_is_one_chunk() {
    let mut body = Body::new(10, Reader::new(b"0123456789".to_vec()));
    assert!(!body.is_exhausted());
    assert_eq!(
        Some(Ok(Chunk {
            buf: b"0123456789".to_vec(),
            extension: String::new(),
        })),
        body.next()
    );
    assert!(body.is_exhausted());
    assert_eq!(None, body.next());
    assert_eq!(None, body.next());
    assert!(body.is_exhausted());
    assert!(!body.is_starved());
}

#[test]
fn a_fixed_length_body_leaves_what_follows() {
    let mut body = Body::new(4, Reader::new(b"0123456789".to_vec()));
    assert_eq!(b"0123".to_vec(), body.all_bytes());
    assert!(body.all_bytes().is_empty());
}

#[test]
fn a_short_body_is_one_error() {
    let mut body = Body::new(10, Reader::new(b"012345678".to_vec()));
    assert_eq!(Some(Err("Expected a body")), body.next());
    assert_eq!(None, body.next());
    assert!(body.is_starved());
    let mut again = Body::new(10, Reader::new(b"012345678".to_vec()));
    assert!(again.all_bytes().is_empty());
}

#[test]
fn an_empty_body_is_one_empty_chunk() {
    let mut body = Body::new(0, Reader::new(Vec::new()));
    assert_eq!(
        Some(Ok(Chunk {
            buf: vec![],
            extension: String::new(),
        })),
        body.next()
    );
    assert_eq!(None, body.next());
}

#[test]
fn a_huge_length_is_a_short_body() {
    let mut body = Body::new(usize::MAX, Reader::new(b"abc".to_vec()));
    assert_eq!(Some(Err("Expected a body")), body.next());
}

#[test]
fn the_reader_reads_lines_and_bytes() {
    let mut reader = Reader::new(b"one\r\ntwo\nthree".to_vec());
    assert_eq!(14, reader.available());
    assert_eq!(b"one\r\n".to_vec(), reader.read_line());
    assert_eq!(Some(b"tw".to_vec()), reader.read_exact(2));
    assert_eq!(b"o\n".to_vec(), reader.read_line());
    assert!(!reader.is_starved());
    assert_eq!(b"three".to_vec(), reader.read_line());
    assert!(reader.is_starved());
    assert_eq!(0, reader.available());
    assert!(reader.read_line().is_empty());
    assert_eq!(Some(Vec::new()), reader.read_exact(0));
    assert_eq!(None, reader.read_exact(1));
}

#[test]
fn a_short_read_takes_what_is_left() {
    let mut reader = Reader::new(b"abc".to_vec());
    assert_eq!(None, reader.read_exact(4));
    assert!(reader.is_starved());
    assert_eq!(0, reader.available());
}
