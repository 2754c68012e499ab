use http::body::{BodyDecoder, Chunk};
use http::chunked::{read_chunk_header, ChunkHeader, ChunkedDecoder};
use http::reader::Reader;

fn decoder_over(body: &str) -> ChunkedDecoder {
    let body = String::from(body).replace('\n', "\r\n");
    ChunkedDecoder::new(Reader::new(body.into_bytes()))
}

fn collect(mut decoder: ChunkedDecoder) -> Vec<Chunk> {
    let mut chunks = Vec::new();
    while let Some(item) = decoder.next() {
        chunks.push(item.unwrap());
    }
    chunks
}

#[test]
fn it_parses_each_chunk() {
    let expected = vec![
        Chunk {
            buf: "Hello".as_bytes().to_vec(),
            extension: "name_only;key1=value1".to_string(),
        },
        Chunk {
            buf: "This is exactly 18".as_bytes().to_vec(),
            extension: "one_key".to_string(),
        },
        Chunk {
            buf: vec![],
            extension: String::new(),
        },
    ];
    let decoder = decoder_over(
        r"5; name_only;key1=value1 
Hello
12; one_key
This is exactly 18
0

",
    );
    let chunks: Vec<Chunk> = collect(decoder);
    assert_eq!(expected, chunks);
}

#[test]
fn chunked_it_parses_each_chunk() {
    let expected = vec![
        Chunk {
            buf: "Hello".as_bytes().to_vec(),
            extension: String::new(),
        },
        Chunk {
            buf: "This is exactly 18".as_bytes().to_vec(),
            extension: String::new(),
        },
        Chunk {
            buf: vec![],
            extension: String::new(),
        },
    ];
    let decoder = decoder_over(
        r"5
Hello
12
This is exactly 18
0

",
    );
    let chunks: Vec<Chunk> = collect(decoder);
    assert_eq!(expected, chunks);
}

#[test]
fn it_does_not_accept_an_invalid_chunk_size() {
    let mut decoder = decoder_over(
        r"5
Hello
i_should_be_in_hex
invalid chunk
7
ignored
0

",
    );
    assert_eq!(
        Chunk {
            buf: "Hello".as_bytes().to_vec(),
            extension: String::new(),
        },
        decoder
            .next()
            .expect("The first chunk was not parsed")
            .expect("The first chunk is valid")
    );
    assert_eq!(Err("Invalid chunk size"), decoder.next().unwrap());
    assert_eq!(None, decoder.next());
}

#[test]
fn chunked_it_does_not_accept_an_invalid_chunk_size() {
    let body = String::from("5\nHello\ni_should_be_in_hex\ninvalid chunk\n7\nignored\n0\n\n")
        .replace('\n', "\r\n");
    let mut decoder = ChunkedDecoder::new(Reader::new(body.into_bytes()));
    assert_eq!(
        Chunk {
            buf: "Hello".as_bytes().to_vec(),
            extension: String::new(),
        },
        decoder
            .next()
            .expect("The first chunk was not parsed")
            .expect("The first chunk is valid")
    );
    assert_eq!(Err("Invalid chunk size"), decoder.next().unwrap());
    assert_eq!(None, decoder.next());
    assert_eq!(None, decoder.next());
}

#[test]
fn it_accepts_an_extension_for_the_last_chunk() {
    let expected = vec![
        Chunk {
            buf: "Hello".as_bytes().to_vec(),
            extension: "name_only;key1=value1".to_string(),
        },
        Chunk {
            buf: "This is exactly 18".as_bytes().to_vec(),
            extension: "one_key".to_string(),
        },
        Chunk {
            buf: vec![],
            extension: "progress=100".to_string(),
        },
    ];
    let decoder = decoder_over(
        r"5; name_only;key1=value1 
Hello
12; one_key
This is exactly 18
0;progress=100

",
    );
    let chunks: Vec<Chunk> = collect(decoder);
    assert_eq!(expected, chunks);
}

#[test]
fn chunked_round_trip_concatenates_the_payloads() {
    let mut decoder = ChunkedDecoder::new(Reader::new(
        b"5\r\nHello\r\n12\r\nThis is exactly 18\r\n0\r\n\r\n".to_vec(),
    ));
    assert_eq!(b"HelloThis is exactly 18".to_vec(), decoder.all_bytes());
    assert_eq!(None, decoder.next());
}

#[test]
fn chunk_extensions_are_trimmed() {
    let decoder = ChunkedDecoder::new(Reader::new(
        b"5; name_only;key1=value1 \r\nHello\r\n0;progress=100\r\n\r\n".to_vec(),
    ));
    let chunks = collect(decoder);
    assert_eq!(2, chunks.len());
    assert_eq!("name_only;key1=value1", chunks[0].extension);
    assert_eq!(b"Hello".to_vec(), chunks[0].buf);
    assert_eq!("progress=100", chunks[1].extension);
    assert!(chunks[1].buf.is_empty());
}

#[test]
fn an_invalid_size_gives_one_error_and_then_nothing() {
    let mut decoder = ChunkedDecoder::new(Reader::new(b"i_should_be_in_hex\r\n".to_vec()));
    assert!(!decoder.is_exhausted());
    assert_eq!(Some(Err("Invalid chunk size")), decoder.next());
    assert!(decoder.is_exhausted());
    assert_eq!(None, decoder.next());
    assert_eq!(None, decoder.next());
    assert!(decoder.all_bytes().is_empty());
}

#[test]
fn a_size_line_that_is_not_utf8_is_an_error() {
    let mut decoder = ChunkedDecoder::new(Reader::new(vec![0xFF, 0xFE, b'\r', b'\n']));
    assert_eq!(Some(Err("Expected chunk size")), decoder.next());
    assert_eq!(None, decoder.next());
}

#[test]
fn a_short_chunk_is_an_error() {
    let mut decoder = ChunkedDecoder::new(Reader::new(b"5\r\nHel".to_vec()));
    assert_eq!(Some(Err("Expected a chunk")), decoder.next());
    assert_eq!(None, decoder.next());
}

#[test]
fn a_chunk_without_its_line_ending_is_dropped() {
    let mut decoder = ChunkedDecoder::new(Reader::new(b"5\r\nHello\r".to_vec()));
    assert_eq!(None, decoder.next());
    assert_eq!(None, decoder.next());
}

#[test]
fn a_blank_size_line_ends_the_body() {
    let mut decoder = ChunkedDecoder::new(Reader::new(b"\r\n5\r\nHello\r\n".to_vec()));
    assert_eq!(None, decoder.next());
    assert_eq!(None, decoder.next());
    let mut empty = ChunkedDecoder::new(Reader::new(Vec::new()));
    assert_eq!(None, empty.next());
}

#[test]
fn the_last_chunk_comes_without_a_final_line_ending() {
    let mut decoder = ChunkedDecoder::new(Reader::new(b"0;done\r\n".to_vec()));
    assert_eq!(
        Some(Ok(Chunk {
            buf: vec![],
            extension: "done".to_string(),
        })),
        decoder.next()
    );
    assert!(decoder.is_exhausted());
    assert!(decoder.is_starved());
    assert_eq!(None, decoder.next());
}

#[test]
fn sizes_are_read_in_base_sixteen() {
    assert_eq!(
        ChunkHeader::Size(18, String::new()),
        read_chunk_header("12\r\n")
    );
    assert_eq!(
        ChunkHeader::Size(255, "a=b".to_string()),
        read_chunk_header(" fF ; a=b \r\n")
    );
    assert_eq!(
        ChunkHeader::Size(10, String::new()),
        read_chunk_header("+a\r\n")
    );
    assert_eq!(ChunkHeader::End, read_chunk_header(" \r\n"));
    assert_eq!(ChunkHeader::Invalid, read_chunk_header(";ext\r\n"));
    assert_eq!(ChunkHeader::Invalid, read_chunk_header("0x10\r\n"));
    assert_eq!(ChunkHeader::Invalid, read_chunk_header("-1\r\n"));
    assert_eq!(
        ChunkHeader::Invalid,
        read_chunk_header("10000000000000000\r\n")
    );
    assert_eq!(
        ChunkHeader::Size(usize::MAX, String::new()),
        read_chunk_header(&format!("{:x}\r\n", usize::MAX))
    );
}

#[test]
fn chunks_written_by_a_sender_are_read_back() {
    let payloads: Vec<Vec<u8>> = vec![
        b"Hello".to_vec(),
        vec![b'\n'; 17],
        (0..=255u8).collect(),
        b"0\r\n\r\n".to_vec(),
        vec![b';'; 4096],
    ];
    let mut wire = Vec::new();
    for payload in &payloads {
        wire.extend_from_slice(format!("{:x}\r\n", payload.len()).as_bytes());
        wire.extend_from_slice(payload);
        wire.extend_from_slice(b"\r\n");
    }
    wire.extend_from_slice(b"0\r\n\r\n");
    let mut expected: Vec<Chunk> = payloads
        .iter()
        .map(|payload| Chunk {
            buf: payload.clone(),
            extension: String::new(),
        })
        .collect();
    expected.push(Chunk {
        buf: vec![],
        extension: String::new(),
    });
    assert_eq!(
        expected,
        collect(ChunkedDecoder::new(Reader::new(wire.clone())))
    );
    let mut decoder = ChunkedDecoder::new(Reader::new(wire));
    assert_eq!(payloads.concat(), decoder.all_bytes());
    assert!(decoder.is_exhausted());
    assert!(!decoder.is_starved());
}
