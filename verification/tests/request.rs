use http::body::BodyDecoder;
use http::method::Method;
use http::reader::Reader;
use http::framing::{choose_framing, Framing, InternalHeaders};
use http::request::{
    is_complete, parse_header_line, parse_request_line, ParseError, Request,
};
use http::version::HttpVersion;

fn request(text: &str) -> Result<Request, ParseError> {
    Request::from(Reader::new(text.as_bytes().to_vec()))
}

#[test]
fn it_parses_the_correct_version() {
    assert_eq!(
        HttpVersion::V1_0,
        request("GET / HTTP/1.0\r\n\r\n").unwrap().http_version
    );
    assert_eq!(
        HttpVersion::V1_1,
        request("GET / HTTP/1.1\r\n\r\n").unwrap().http_version
    );
    assert_eq!(
        HttpVersion::V0_9,
        request("GET / HTTP/0.9\r\n\r\n").unwrap().http_version
    );
}

#[test]
fn it_parses_the_correct_method() {
    assert_eq!(
        Method::Get,
        request("GET / HTTP/1.1\r\n\r\n").unwrap().method
    );
    assert_eq!(
        Method::Post,
        request("POST / HTTP/1.1\r\n\r\n").unwrap().method
    );
    assert_eq!(
        Method::Head,
        request("HEAD / HTTP/1.1\r\n\r\n").unwrap().method
    );
    assert_eq!(
        Method::Put,
        request("PUT / HTTP/1.1\r\n\r\n").unwrap().method
    );
    assert_eq!(
        Method::Patch,
        request("PATCH / HTTP/1.1\r\n\r\n").unwrap().method
    );
}

#[test]
fn it_parses_a_get_request() {
    let body = String::from("GET / HTTP/1.1\r\n\r\n");
    let request = Request::from(Reader::new(body.into_bytes()));
    let request = request.unwrap();

    assert_eq!(Method::Get, request.method);
    assert_eq!(HttpVersion::V1_1, request.http_version);
    assert!(request.headers.is_none());
    assert_eq!("/".to_string(), request.path());
}

#[test]
fn it_parses_a_get_request_with_headers() {
    let body = String::from("GET / HTTP/1.1\r\nHost: localhost:80\r\nUser-Agent: rust\r\n\r\n");
    let request = Request::from(Reader::new(body.into_bytes()));
    let request = request.unwrap();

    assert_eq!(Method::Get, request.method);
    assert_eq!(HttpVersion::V1_1, request.http_version);
    assert!(request.headers.is_some());
    assert_eq!("/".to_string(), request.path());
}

#[test]
fn it_parses_a_post_request_with_body() {
    let body = String::from(
        "POST / HTTP/1.1\r\nHost: localhost:80\r\nContent-Length: 10\r\n\r\n0123456789",
    );
    let request = Request::from(Reader::new(body.into_bytes()));
    let request = request.unwrap();

    assert_eq!(Method::Post, request.method);
    assert_eq!(HttpVersion::V1_1, request.http_version);
    assert!(request.headers.is_some());
    assert_eq!("/".to_string(), request.path());
    assert_eq!(
        "0123456789".to_string(),
        String::from_utf8(request.body.unwrap().all_bytes()).unwrap()
    );
}

#[test]
fn every_method_is_read_from_a_minimal_request() {
    let methods = [
        Method::Get,
        Method::Head,
        Method::Options,
        Method::Post,
        Method::Put,
        Method::Patch,
        Method::Delete,
    ];
    for method in methods {
        let text = format!("{} / HTTP/1.1\r\n\r\n", method.as_str());
        let request = request(&text).unwrap();
        assert_eq!(method, request.method);
        assert_eq!(HttpVersion::V1_1, request.http_version);
        assert_eq!("/", request.path());
        assert!(request.headers.is_none());
        assert!(request.body.is_none());
        assert_eq!(Ok(method), Method::from_str(&method.to_string()));
    }
}

#[test]
fn every_version_is_read_back() {
    let versions = [
        (HttpVersion::V0_9, "HTTP/0.9"),
        (HttpVersion::V1_0, "HTTP/1.0"),
        (HttpVersion::V1_1, "HTTP/1.1"),
        (HttpVersion::V2_0, "HTTP/2.0"),
        (HttpVersion::V3_0, "HTTP/3.0"),
    ];
    for (version, text) in versions {
        assert_eq!(text, version.as_str());
        assert_eq!(text, version.to_string());
        assert_eq!(Ok(version), HttpVersion::from_str(text));
    }
    assert_eq!(Err("Unknown HTTP version"), HttpVersion::from_str("HTTP/1.2"));
    assert_eq!(Err("Unknown HTTP version"), HttpVersion::from_str("http/1.1"));
    assert_eq!(Err("Invalid HTTP Method"), Method::from_str("get"));
    assert_eq!(Err("Invalid HTTP Method"), Method::from_str("TRACE"));
}

#[test]
fn request_lines_are_three_words() {
    assert_eq!(
        Ok((Method::Get, "/a?b=c".to_string(), HttpVersion::V1_0)),
        parse_request_line("GET /a?b=c HTTP/1.0")
    );
    assert_eq!(
        Ok((Method::Delete, "/x".to_string(), HttpVersion::V2_0)),
        parse_request_line("  DELETE \t /x   HTTP/2.0 ")
    );
    assert_eq!(
        Err(ParseError::InvalidRequestLine),
        parse_request_line("GET /")
    );
    assert_eq!(Err(ParseError::InvalidRequestLine), parse_request_line(""));
    assert_eq!(
        Err(ParseError::InvalidRequestLine),
        parse_request_line("GET / HTTP/1.1 extra")
    );
    assert_eq!(
        Err(ParseError::InvalidMethod),
        parse_request_line("FETCH / HTTP/1.1")
    );
    assert_eq!(
        Err(ParseError::InvalidMethod),
        parse_request_line("FETCH / HTTP/9.9")
    );
    assert_eq!(
        Err(ParseError::UnknownVersion),
        parse_request_line("GET / HTTP/9.9")
    );
}

#[test]
fn header_lines_split_at_the_first_colon() {
    assert_eq!(
        Some(("Host".to_string(), "localhost:80".to_string())),
        parse_header_line("Host: localhost:80")
    );
    assert_eq!(
        Some(("Empty".to_string(), String::new())),
        parse_header_line("Empty:")
    );
    assert_eq!(
        Some((" Spaced ".to_string(), "value".to_string())),
        parse_header_line(" Spaced :\t value \u{a0}")
    );
    assert_eq!(None, parse_header_line("no colon here"));
}

#[test]
fn headers_keep_the_last_value_of_a_name() {
    let request =
        request("GET / HTTP/1.1\r\nX-A: 1\r\nHost: example\r\nX-A: 2\r\nx-a: 3\r\n\r\n").unwrap();
    let headers = request.headers.unwrap();
    assert_eq!(3, headers.len());
    assert_eq!(Some(&"2".to_string()), headers.get("X-A"));
    assert_eq!(Some(&"3".to_string()), headers.get("x-a"));
    assert_eq!(Some(&"example".to_string()), headers.get("Host"));
    assert_eq!(None, headers.get("host"));
    assert!(headers.contains_key("Host"));
    assert_eq!(
        Some((&"X-A".to_string(), &"2".to_string())),
        headers.entry(0)
    );
    assert_eq!(
        Some((&"Host".to_string(), &"example".to_string())),
        headers.entry(1)
    );
    assert_eq!(
        Some((&"x-a".to_string(), &"3".to_string())),
        headers.entry(2)
    );
    assert_eq!(None, headers.entry(3));
}

#[test]
fn the_head_ends_with_the_input() {
    let request = request("GET /x HTTP/1.1\nHost: here").unwrap();
    assert_eq!("/x", request.path());
    assert_eq!(
        Some(&"here".to_string()),
        request.headers.unwrap().get("Host")
    );
    assert!(request.body.is_none());
}

#[test]
fn each_error_has_its_input() {
    assert_eq!(
        Some(ParseError::ExpectedRequestLine),
        request("").err()
    );
    assert_eq!(
        Some(ParseError::UnreadableRequestLine),
        Request::from(Reader::new(vec![b'G', 0xFF, b'\n'])).err()
    );
    assert_eq!(
        Some(ParseError::InvalidRequestLine),
        request("GET /\r\n\r\n").err()
    );
    assert_eq!(
        Some(ParseError::InvalidRequestLine),
        request("\r\n").err()
    );
    assert_eq!(
        Some(ParseError::InvalidMethod),
        request("get / HTTP/1.1\r\n\r\n").err()
    );
    assert_eq!(
        Some(ParseError::UnknownVersion),
        request("GET / HTTP/1.2\r\n\r\n").err()
    );
    let mut bad_header = b"GET / HTTP/1.1\r\nHost: a\r\n".to_vec();
    bad_header.extend_from_slice(&[0xC0, b':', b'\n', b'\n']);
    assert_eq!(
        Some(ParseError::ExpectedHeader),
        Request::from(Reader::new(bad_header)).err()
    );
    assert_eq!(
        Some(ParseError::MalformedHeader),
        request("GET / HTTP/1.1\r\nHost localhost\r\n\r\n").err()
    );
    assert_eq!(
        Some(ParseError::InvalidContentLength),
        request("POST / HTTP/1.1\r\nContent-Length: ten\r\n\r\n").err()
    );
    assert_eq!(
        Some(ParseError::InvalidContentLength),
        request("POST / HTTP/1.1\r\nContent-Length:\r\n\r\n").err()
    );
    assert_eq!(
        Some(ParseError::InvalidContentLength),
        request("POST / HTTP/1.1\r\nContent-Length: 99999999999999999999999\r\n\r\n").err()
    );
    assert_eq!(
        Some(ParseError::InvalidRequestLine),
        request("GET /\r\nHost localhost\r\n\r\n").err()
    );
}

#[test]
fn errors_say_what_went_wrong() {
    assert_eq!(
        "Expected request line",
        ParseError::ExpectedRequestLine.message()
    );
    assert_eq!(
        "Couldn't get request line",
        ParseError::UnreadableRequestLine.message()
    );
    assert_eq!(
        "Invalid request line",
        ParseError::InvalidRequestLine.to_string()
    );
    assert_eq!("Invalid HTTP Method", ParseError::InvalidMethod.message());
    assert_eq!("Unknown HTTP version", ParseError::UnknownVersion.message());
    assert_eq!("Expected a header", ParseError::ExpectedHeader.message());
    assert_eq!(
        "Malformed HTTP header",
        ParseError::MalformedHeader.message()
    );
    assert_eq!(
        "Content-Length is not a number",
        ParseError::InvalidContentLength.message()
    );
}

#[test]
fn a_body_is_chosen_by_the_header_fields() {
    let mut fields = InternalHeaders::new();
    assert_eq!(Ok(Framing::NoBody), fields.framing());
    fields.transfer_encoding = Some("ChUnKeD".to_string());
    assert_eq!(Ok(Framing::Chunked), fields.framing());
    fields.transfer_encoding = Some("gzip".to_string());
    assert_eq!(Ok(Framing::NoBody), fields.framing());
    fields.transfer_encoding = Some("chun\u{212a}ed".to_string());
    assert_eq!(Ok(Framing::Chunked), fields.framing());
    fields.transfer_encoding = Some("CHUNKED".to_string());
    assert_eq!(Ok(Framing::Chunked), fields.framing());
    fields.transfer_encoding = Some("chunked ".to_string());
    assert_eq!(Ok(Framing::NoBody), fields.framing());
    fields.content_length = Some("+42".to_string());
    assert_eq!(Ok(Framing::FixedLength(42)), fields.framing());
    fields.content_length = Some("007".to_string());
    assert_eq!(Ok(Framing::FixedLength(7)), fields.framing());
    fields.content_length = Some("4 2".to_string());
    assert_eq!(Err(ParseError::InvalidContentLength), fields.framing());
    fields.content_length = Some("-1".to_string());
    assert_eq!(Err(ParseError::InvalidContentLength), fields.framing());
}

#[test]
fn content_length_wins_over_transfer_encoding() {
    let mut request = request(
        "POST / HTTP/1.1\r\nTransfer-Encoding: chunked\r\nContent-Length: 3\r\n\r\n5\r\nHello\r\n0\r\n\r\n",
    )
    .unwrap();
    assert_eq!(b"5\r\n".to_vec(), request.body.as_mut().unwrap().all_bytes());
}

#[test]
fn a_chunked_request_is_decoded() {
    let mut request = request(
        "POST /up HTTP/1.1\r\nTransfer-Encoding: Chunked\r\n\r\n5\r\nHello\r\n12\r\nThis is exactly 18\r\n0\r\n\r\n",
    )
    .unwrap();
    let body = request.body.as_mut().unwrap();
    assert_eq!(b"HelloThis is exactly 18".to_vec(), body.all_bytes());
    assert_eq!(None, body.next());
    assert!(!body.is_starved());
}

#[test]
fn header_names_are_case_sensitive_for_framing() {
    let request = request("POST / HTTP/1.1\r\ncontent-length: 3\r\n\r\nabc").unwrap();
    assert!(request.body.is_none());
}

#[test]
fn a_request_is_whole_when_nothing_is_missing() {
    assert!(!is_complete(b""));
    assert!(!is_complete(b"GET / HTTP/1.1"));
    assert!(!is_complete(b"GET / HTTP/1.1\r\n"));
    assert!(!is_complete(b"GET / HTTP/1.1\r\nHost: a\r\n"));
    assert!(!is_complete(b"GET / HTTP/1.1\r\nHost: a\r\n\r"));
    assert!(is_complete(b"GET / HTTP/1.1\r\n\r\n"));
    assert!(is_complete(b"GET / HTTP/1.1\r\nHost: a\r\n\r\n"));
    assert!(is_complete(b"GET /\r\n"));
    assert!(!is_complete(b"GET /"));
    assert!(is_complete(b"GET / HTTP/1.1\r\nHost a\r\n"));
    assert!(!is_complete(
        b"POST / HTTP/1.1\r\nContent-Length: 10\r\n\r\n012345678"
    ));
    assert!(is_complete(
        b"POST / HTTP/1.1\r\nContent-Length: 10\r\n\r\n0123456789"
    ));
    assert!(is_complete(
        b"POST / HTTP/1.1\r\nContent-Length: ten\r\n\r\n"
    ));
    let chunked = b"POST / HTTP/1.1\r\nTransfer-Encoding: chunked\r\n\r\n5\r\nHello\r\n0\r\n\r\n";
    for end in 0..chunked.len() {
        assert!(!is_complete(&chunked[..end]), "{end}");
    }
    assert!(is_complete(chunked));
    assert!(is_complete(
        b"POST / HTTP/1.1\r\nTransfer-Encoding: chunked\r\n\r\nxyz\r\n"
    ));
}

#[test]
fn a_whole_request_is_read_the_same_whatever_follows() {
    let whole: [&[u8]; 5] = [
        b"GET / HTTP/1.1\r\n\r\n",
        b"GET /\r\n",
        b"POST / HTTP/1.1\r\nContent-Length: 3\r\n\r\nabc",
        b"POST / HTTP/1.1\r\nTransfer-Encoding: chunked\r\n\r\n3\r\nabc\r\n0;x\r\n\r\n",
        b"POST / HTTP/1.1\r\nTransfer-Encoding: chunked\r\n\r\nzz\r\n",
    ];
    for input in whole {
        assert!(is_complete(input));
        let mut longer = input.to_vec();
        longer.extend_from_slice(b"GET /next HTTP/1.1\r\n\r\n");
        assert!(is_complete(&longer));
        let first = Request::from(Reader::new(input.to_vec()));
        let second = Request::from(Reader::new(longer));
        match (first, second) {
            (Ok(mut a), Ok(mut b)) => {
                assert_eq!(a.method, b.method);
                assert_eq!(a.http_version, b.http_version);
                assert_eq!(a.path(), b.path());
                assert_eq!(a.headers.is_some(), b.headers.is_some());
                match (a.body.as_mut(), b.body.as_mut()) {
                    (Some(x), Some(y)) => loop {
                        let item = x.next();
                        assert_eq!(item, y.next());
                        if item.is_none() {
                            break;
                        }
                    },
                    (None, None) => {}
                    _ => panic!("one request has a body, the other has none"),
                }
            }
            (Err(a), Err(b)) => assert_eq!(a, b),
            _ => panic!("one request is read, the other is refused"),
        }
    }
}

#[test]
fn the_coding_is_compared_once_it_is_in_small_letters() {
    let chunked = Some("chunked".to_string());
    assert_eq!(Ok(Framing::Chunked), choose_framing(&None, &chunked));
    assert_eq!(
        Ok(Framing::NoBody),
        choose_framing(&None, &Some("Chunked".to_string()))
    );
    assert_eq!(
        Ok(Framing::NoBody),
        choose_framing(&None, &Some("chun\u{212a}ed".to_string()))
    );
    assert_eq!(
        Ok(Framing::NoBody),
        choose_framing(&None, &Some("gzip".to_string()))
    );
    assert_eq!(Ok(Framing::NoBody), choose_framing(&None, &None));
    assert_eq!(
        Ok(Framing::FixedLength(12)),
        choose_framing(&Some("12".to_string()), &chunked)
    );
    assert_eq!(
        Err(ParseError::InvalidContentLength),
        choose_framing(&Some("twelve".to_string()), &chunked)
    );
}

#[test]
fn a_chunked_body_is_announced_in_letters_of_either_size() {
    for coding in ["chunked", "Chunked", "CHUNKED", "chun\u{212a}ed"] {
        let text = format!(
            "POST / HTTP/1.1\r\nTransfer-Encoding: {coding}\r\n\r\n3\r\nabc\r\n0\r\n\r\n"
        );
        let mut request = request(&text).unwrap();
        assert_eq!(
            b"abc".to_vec(),
            request.body.as_mut().unwrap().all_bytes(),
            "{coding}"
        );
    }
    let plain = request("POST / HTTP/1.1\r\nTransfer-Encoding: gzip\r\n\r\n3\r\nabc\r\n").unwrap();
    assert!(plain.body.is_none());
}
