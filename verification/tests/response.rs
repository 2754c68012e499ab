use http::headers::HeaderMap;
use http::framing::{Framing, InternalHeaders};
use http::request::{parse_header_line, ParseError};
use http::response::{Headers, Response};
use http::status::Status;
use http::version::HttpVersion;

#[test]
fn a_response_without_headers_is_serialized() {
    let response = Response::new(Status::Okay, Headers::new(""), b"OK".to_vec());
    assert_eq!(
        b"HTTP/1.1 200 OK\r\nContent-Length: 2\r\n\r\nOK".to_vec(),
        response.serialize(&HttpVersion::V1_1)
    );
    assert_eq!(
        "HTTP/1.0 200 OK\r\nContent-Length: 2\r\n\r\n",
        response.head(&HttpVersion::V1_0)
    );
}

#[test]
fn the_header_block_goes_out_as_it_is() {
    let response = Response::new(
        Status::TemporaryRedirect,
        Headers::new("Location: /login\r\nX-Server: RustHTTP"),
        Vec::new(),
    );
    assert_eq!(
        "HTTP/1.1 307 Temporary Redirect\r\nContent-Length: 0\r\nLocation: /login\r\nX-Server: RustHTTP\r\n\r\n",
        response.head(&HttpVersion::V1_1)
    );
    assert_eq!(
        response.head(&HttpVersion::V1_1).into_bytes(),
        response.serialize(&HttpVersion::V1_1)
    );
}

#[test]
fn the_length_is_written_in_base_ten() {
    let response = Response::new(Status::NotFound, Headers::new(""), vec![b'x'; 1205]);
    let wire = response.serialize(&HttpVersion::V2_0);
    let head = b"HTTP/2.0 404 Not Found\r\nContent-Length: 1205\r\n\r\n";
    assert_eq!(head.to_vec(), wire[..head.len()].to_vec());
    assert_eq!(head.len() + 1205, wire.len());
    assert!(wire[head.len()..].iter().all(|byte| *byte == b'x'));
}

#[test]
fn a_body_need_not_be_text() {
    let response = Response::new(Status::Okay, Headers::new(""), vec![0, 159, 255, 10]);
    let wire = response.serialize(&HttpVersion::V1_1);
    assert_eq!(vec![0, 159, 255, 10], wire[wire.len() - 4..].to_vec());
}

#[test]
fn an_unreadable_head_is_answered_with_400() {
    let response = Response::bad_request(ParseError::MalformedHeader);
    assert_eq!(400, response.status.code());
    assert_eq!(
        b"HTTP/1.1 400 Bad Request\r\nContent-Length: 21\r\n\r\nMalformed HTTP header".to_vec(),
        response.serialize(&HttpVersion::V1_1)
    );
}

#[test]
fn header_fields_are_written_out() {
    let mut map = HeaderMap::new();
    assert_eq!("", Headers::from_hash_map(&map).headers);
    map.insert("Host".to_string(), "localhost".to_string());
    assert_eq!("Host: localhost", Headers::from_hash_map(&map).headers);
    map.insert("Accept".to_string(), "*/*".to_string());
    map.insert("Host".to_string(), "example".to_string());
    assert_eq!(
        "Host: example, Accept: */*",
        Headers::from_hash_map(&map).headers
    );
}

#[test]
fn statuses_have_their_numbers_and_phrases() {
    assert_eq!(100, Status::Continue.code());
    assert_eq!("Continue", Status::Continue.reason());
    assert_eq!(200, Status::Okay.code());
    assert_eq!("OK", Status::Okay.to_string());
    assert_eq!(226, Status::ImUsed.code());
    assert_eq!("IM Used", Status::ImUsed.reason());
    assert_eq!(418, Status::Teapot.code());
    assert_eq!("I'm a teapot", Status::Teapot.reason());
    assert_eq!(451, Status::UnavailableForLegalReasons.code());
    assert_eq!(511, Status::NetworkAuthenticationRequired.code());
    assert_eq!(
        "Network Authentication Required",
        Status::NetworkAuthenticationRequired.to_string()
    );
    assert_eq!(505, Status::HttpVersionNotSupported.code());
    assert_eq!(
        "HTTP Version Not Supported",
        Status::HttpVersionNotSupported.reason()
    );
}

#[test]
fn every_status_has_its_own_number() {
    let all = [
        (Status::Continue, 100, "Continue"),
        (Status::SwitchingProtocols, 101, "Switching Protocols"),
        (Status::Processing, 102, "Processing"),
        (Status::Okay, 200, "OK"),
        (Status::Created, 201, "Created"),
        (Status::Accepted, 202, "Accepted"),
        (Status::NonAuthoritativeInformation, 203, "Non-Authoritative Information"),
        (Status::NoContent, 204, "No Content"),
        (Status::ResetContent, 205, "Reset Content"),
        (Status::PartialContent, 206, "Partial Content"),
        (Status::MultiStatus, 207, "Multi-Status"),
        (Status::AlreadyReported, 208, "Already Reported"),
        (Status::ImUsed, 226, "IM Used"),
        (Status::MultipleChoices, 300, "Multiple Choices"),
        (Status::MovedPermanently, 301, "Moved Permanently"),
        (Status::Found, 302, "Found"),
        (Status::SeeOther, 303, "See Other"),
        (Status::NotModified, 304, "Not Modified"),
        (Status::UseProxy, 305, "Use Proxy"),
        (Status::TemporaryRedirect, 307, "Temporary Redirect"),
        (Status::PermanentRedirect, 308, "Permanent Redirect"),
        (Status::BadRequest, 400, "Bad Request"),
        (Status::Unauthorized, 401, "Unauthorized"),
        (Status::PaymentRequired, 402, "Payment Required"),
        (Status::Forbidden, 403, "Forbidden"),
        (Status::NotFound, 404, "Not Found"),
        (Status::MethodNotAllowed, 405, "Method Not Allowed"),
        (Status::NotAcceptable, 406, "Not Acceptable"),
        (Status::ProxyAuthenticationRequired, 407, "Proxy Authentication Required"),
        (Status::RequestTimeout, 408, "Request Timeout"),
        (Status::Conflict, 409, "Conflict"),
        (Status::Gone, 410, "Gone"),
        (Status::LengthRequired, 411, "Length Required"),
        (Status::PreconditionFailed, 412, "Precondition Failed"),
        (Status::PayloadTooLarge, 413, "Payload Too Large"),
        (Status::UriTooLong, 414, "URI Too Long"),
        (Status::UnsupportedMediaType, 415, "Unsupported Media Type"),
        (Status::RangeNotSatisfiable, 416, "Range Not Satisfiable"),
        (Status::ExpectationFailed, 417, "Expectation Failed"),
        (Status::Teapot, 418, "I'm a teapot"),
        (Status::MisdirectedRequest, 421, "Misdirected Request"),
        (Status::UnprocessableEntity, 422, "Unprocessable Entity"),
        (Status::Locked, 423, "Locked"),
        (Status::FailedDependency, 424, "Failed Dependency"),
        (Status::UpgradeRequired, 426, "Upgrade Required"),
        (Status::PreconditionRequired, 428, "Precondition Required"),
        (Status::TooManyRequests, 429, "Too Many Requests"),
        (Status::RequestHeaderFieldsTooLarge, 431, "Request Header Fields Too Large"),
        (Status::UnavailableForLegalReasons, 451, "Unavailable For Legal Reasons"),
        (Status::InternalServerError, 500, "Internal Server Error"),
        (Status::NotImplemented, 501, "Not Implemented"),
        (Status::BadGateway, 502, "Bad Gateway"),
        (Status::ServiceUnavailable, 503, "Service Unavailable"),
        (Status::GatewayTimeout, 504, "Gateway Timeout"),
        (Status::HttpVersionNotSupported, 505, "HTTP Version Not Supported"),
        (Status::VariantAlsoNegotiates, 506, "Variant Also Negotiates"),
        (Status::InsufficientStorage, 507, "Insufficient Storage"),
        (Status::LoopDetected, 508, "Loop Detected"),
        (Status::NotExtended, 510, "Not Extended"),
        (Status::NetworkAuthenticationRequired, 511, "Network Authentication Required"),
    ];
    assert_eq!(60, all.len());
    for (index, (status, number, phrase)) in all.iter().enumerate() {
        assert_eq!(*number, status.code());
        assert_eq!(*phrase, status.reason());
        assert_eq!(*phrase, status.to_string());
        assert!((100..=511).contains(&status.code()));
        for (other, _, _) in &all[index + 1..] {
            assert_ne!(status.code(), other.code());
        }
    }
}

#[test]
fn the_length_that_is_written_is_read_back() {
    for length in [0usize, 1, 9, 10, 255, 4096, 1_000_000] {
        let response = Response::new(Status::Okay, Headers::new(""), vec![b'a'; length]);
        let head = response.head(&HttpVersion::V1_1);
        let line = head.split("\r\n").nth(1).unwrap();
        let (name, value) = parse_header_line(line).unwrap();
        assert_eq!("Content-Length", name);
        let fields = InternalHeaders {
            content_length: Some(value),
            transfer_encoding: None,
        };
        assert_eq!(Ok(Framing::FixedLength(length)), fields.framing());
    }
}

#[test]
fn a_refusal_goes_out_under_version_1_1() {
    let (version, response) = Response::refuse(ParseError::InvalidMethod);
    assert_eq!(HttpVersion::V1_1, version);
    assert_eq!(400, response.status.code());
    assert_eq!("", response.headers.headers);
    assert_eq!(
        b"HTTP/1.1 400 Bad Request\r\nContent-Length: 19\r\n\r\nInvalid HTTP Method".to_vec(),
        response.serialize(&version)
    );
}
