use hdl_sv::error::AppError;
use hdl_sv::fields::{field_value, find_field};
use hdl_sv::fs::{
    on_write_failure, serve_file, stream_file, FileDetails, StreamEnd, StreamState, WriteFailure,
};
use hdl_sv::http::{
    read_headers, send_response, HeaderRead, Request, Response, ResponseBody, MAX_HEADER_BYTES,
};
use hdl_sv::range::{parse_range_header, resolve_range, ByteRange};
use hdl_sv::response::{
    create_error_response, error_response, get_mime_type, send_error_response, HttpResponse,
};
use hdl_sv::text::{chars_of, decimal_string, parse_u64};

fn pair(name: &str, value: &str) -> (String, String) {
    (name.to_string(), value.to_string())
}

#[test]
fn parse_reads_line_and_fields() {
    let request = Request::parse(
        "GET /a%20b HTTP/1.1\r\nHost: example.org\r\nX-Thing:  one \r\nno colon here\r\nx-thing: two\r\n  ACCEPT : */*",
    )
    .unwrap();
    assert_eq!(request.method, "GET");
    assert_eq!(request.path, "/a b");
    assert_eq!(
        request.headers,
        vec![
            pair("host", "example.org"),
            pair("x-thing", "one, two"),
            pair("accept", "*/*"),
        ]
    );
    assert_eq!(field_value(&request.headers, "x-thing").unwrap(), "one, two");
    assert_eq!(field_value(&request.headers, "X-Thing"), None);
    assert_eq!(find_field(&request.headers, "accept"), Some(2));
}

#[test]
fn parse_stops_at_the_first_empty_line() {
    let request = Request::parse("GET / HTTP/1.1\nA: 1\n   \nB: 2").unwrap();
    assert_eq!(request.headers, vec![pair("a", "1")]);
    let request = Request::parse("  GET \t /x   HTTP/1.0  \r").unwrap();
    assert_eq!(request.method, "GET");
    assert_eq!(request.path, "/x");
    assert!(request.headers.is_empty());
    let request = Request::parse("DELETE\u{a0}/y\u{2003}HTTP/1.1").unwrap();
    assert_eq!(request.method, "DELETE");
    assert_eq!(request.path, "/y");
}

#[test]
fn parse_rejects_what_is_no_request_line() {
    for head in ["", "GET", "GET /", "GET / HTTP/1.1 more", "GET / http/1.1", "GET / HTTP/2.0", "\nGET / HTTP/1.1"] {
        assert_eq!(Request::parse(head), Err(AppError::BadRequest));
    }
    assert!(Request::parse("GET / HTTP/1.").is_ok());
}

#[test]
fn header_names_are_lowered_by_the_rules_of_unicode() {
    let request = Request::parse("GET / HTTP/1.1\nÉTAT-ΣΑΣ: x").unwrap();
    assert_eq!(request.headers, vec![pair("état-σας", "x")]);
}

#[test]
fn decode_url_resolves_escapes_and_keeps_the_rest() {
    assert_eq!(Request::decode_url("/a%20b"), "/a b");
    assert_eq!(Request::decode_url("%41%62%7e"), "Ab~");
    assert_eq!(Request::decode_url("%e9"), "\u{e9}");
    assert_eq!(Request::decode_url("%zz%4"), "%zz%4");
    assert_eq!(Request::decode_url("%"), "%");
    assert_eq!(Request::decode_url("100%"), "100%");
    assert_eq!(Request::decode_url("%+5x"), "%+5x");
    assert_eq!(Request::decode_url("%2541"), "%41");
    assert_eq!(Request::decode_url(""), "");
}

#[test]
fn read_headers_decides_after_each_read() {
    assert_eq!(read_headers(b"", false), HeaderRead::Incomplete);
    assert_eq!(read_headers(b"", true), HeaderRead::Malformed);
    assert_eq!(read_headers(b"GET / HTTP/1.1\r\n", false), HeaderRead::Incomplete);
    assert_eq!(read_headers(b"GET / HTTP/1.1\r\n", true), HeaderRead::Malformed);
    assert_eq!(
        read_headers(b"GET / HTTP/1.1\r\nA: b\r\n\r\nbody", false),
        HeaderRead::Complete("GET / HTTP/1.1\r\nA: b".to_string())
    );
    // the first empty line ends the head, of whichever kind it is
    assert_eq!(
        read_headers(b"GET / HTTP/1.1\n\nrest\r\n\r\n", false),
        HeaderRead::Complete("GET / HTTP/1.1".to_string())
    );
    assert_eq!(
        read_headers(b"GET / HTTP/1.1\r\n\r\nrest\n\n", false),
        HeaderRead::Complete("GET / HTTP/1.1".to_string())
    );
    assert_eq!(
        read_headers(b"a\n\nb", true),
        HeaderRead::Complete("a".to_string())
    );
    assert_eq!(read_headers(b"\n\n", false), HeaderRead::Complete(String::new()));
    assert_eq!(
        read_headers("h\u{e9}\r\n\r\n".as_bytes(), false),
        HeaderRead::Complete("h\u{e9}".to_string())
    );
    // a head that is no text is a bad request at once
    assert_eq!(read_headers(b"\xff\r\n\r\n", false), HeaderRead::Malformed);
    assert_eq!(read_headers(b"\xff\r\n", false), HeaderRead::Incomplete);
    let full = vec![b'a'; MAX_HEADER_BYTES];
    assert_eq!(read_headers(&full, false), HeaderRead::Malformed);
    assert_eq!(read_headers(&full[1..], false), HeaderRead::Incomplete);
}

#[test]
fn bytes_after_the_head_play_no_part() {
    let head = b"GET / HTTP/1.1\r\nA: b\r\n\r\n".to_vec();
    let expected = HeaderRead::Complete("GET / HTTP/1.1\r\nA: b".to_string());
    assert_eq!(read_headers(&head, false), expected);
    let tails: [&[u8]; 5] = [b"\xff", b"\n\n", b"\r\n\r\n", b"\x00\x80\xfe body", b"\xc3"];
    for tail in tails {
        let mut received = head.clone();
        received.extend_from_slice(tail);
        assert_eq!(read_headers(&received, false), expected);
        assert_eq!(read_headers(&received, true), expected);
        assert_eq!(Request::from_stream(&received), Request::from_stream(&head));
    }
    let mut long = head.clone();
    long.extend_from_slice(&vec![0xff; 2 * MAX_HEADER_BYTES]);
    assert_eq!(read_headers(&long, false), expected);
    assert!(Request::from_stream(&long).is_ok());
    // an empty line of the other kind after the first changes nothing
    let mut received = b"GET / HTTP/1.1\n\n".to_vec();
    let alone = Request::from_stream(&received);
    received.extend_from_slice(b"\xff\r\n\r\n");
    assert_eq!(Request::from_stream(&received), alone);
    assert!(alone.is_ok());
}

#[test]
fn the_head_must_end_within_its_limit() {
    // the empty line ends with the last byte that is looked at
    let mut fits = vec![b'a'; MAX_HEADER_BYTES - 4];
    fits.extend_from_slice(b"\r\n\r\n");
    assert_eq!(
        read_headers(&fits, false),
        HeaderRead::Complete("a".repeat(MAX_HEADER_BYTES - 4))
    );
    let mut fits = vec![b'a'; MAX_HEADER_BYTES - 2];
    fits.extend_from_slice(b"\n\nmore");
    assert_eq!(
        read_headers(&fits, false),
        HeaderRead::Complete("a".repeat(MAX_HEADER_BYTES - 2))
    );
    // one byte later it does not
    let mut late = vec![b'a'; MAX_HEADER_BYTES - 3];
    late.extend_from_slice(b"\r\n\r\n");
    assert_eq!(read_headers(&late, false), HeaderRead::Malformed);
    let mut late = vec![b'a'; MAX_HEADER_BYTES - 1];
    late.extend_from_slice(b"\n\n");
    assert_eq!(read_headers(&late, false), HeaderRead::Malformed);
    let mut beyond = vec![b'a'; MAX_HEADER_BYTES];
    beyond.extend_from_slice(b"\r\n\r\n");
    assert_eq!(read_headers(&beyond, false), HeaderRead::Malformed);
    let mut request = b"GET /".to_vec();
    request.extend_from_slice(&vec![b'a'; MAX_HEADER_BYTES]);
    request.extend_from_slice(b" HTTP/1.1\r\n\r\n");
    assert_eq!(Request::from_stream(&request), Err(AppError::BadRequest));
}

#[test]
fn from_stream_reads_a_whole_request() {
    let request = Request::from_stream(b"GET /x HTTP/1.1\r\nRange: bytes=0-1\r\n\r\n").unwrap();
    assert_eq!(request.path, "/x");
    assert_eq!(request.headers, vec![pair("range", "bytes=0-1")]);
    assert_eq!(Request::from_stream(b"GET /x HTTP/1.1\r\n"), Err(AppError::BadRequest));
}

#[test]
fn head_names_server_connection_and_length() {
    let response = Response {
        status_code: 200,
        status_text: "OK".to_string(),
        headers: vec![pair("X-A", "1"), pair("X-A", "2")],
        body: ResponseBody::Text("héllo".to_string()),
    };
    assert_eq!(
        response.head(),
        "HTTP/1.1 200 OK\r\nServer: hdl_sv/2.0.0\r\nConnection: close\r\nX-A: 1\r\nX-A: 2\r\nContent-Length: 6\r\n\r\n"
    );
    assert_eq!(response.content_length(), 6);
    let mut wire = b"before".to_vec();
    send_response(&mut wire, &response);
    let mut expected = b"before".to_vec();
    expected.extend_from_slice(response.head().as_bytes());
    expected.extend_from_slice("héllo".as_bytes());
    assert_eq!(wire, expected);
}

#[test]
fn streamed_response_sends_its_head_only() {
    let response = serve_file("/srv/files/dir/big file.txt", 100, &vec![pair("range", "bytes=10-19")], 4).unwrap();
    assert_eq!(response.status_code, 206);
    assert_eq!(response.status_text, "Partial Content");
    assert_eq!(
        response.headers,
        vec![
            pair("Content-Range", "bytes 10-19/100"),
            pair("Content-Disposition", "attachment; filename=\"big file.txt\""),
            pair("Content-Type", "application/octet-stream"),
            pair("Accept-Ranges", "bytes"),
            pair("Cache-Control", "public, max-age=3600"),
        ]
    );
    let expected = FileDetails {
        path: "/srv/files/dir/big file.txt".to_string(),
        size: 100,
        chunk_size: 4,
        range: Some(ByteRange { start: 10, end: 19, size: 100 }),
    };
    assert_eq!(response.body, ResponseBody::Stream(expected));
    assert_eq!(response.content_length(), 10);
    let mut wire = Vec::new();
    send_response(&mut wire, &response);
    assert_eq!(wire, response.head().as_bytes());
    assert!(response.head().contains("\r\nContent-Length: 10\r\n\r\n"));
}

#[test]
fn serve_file_without_range_and_with_bad_ranges() {
    let response = serve_file("a.bin", 0, &Vec::new(), 8).unwrap();
    assert_eq!(response.status_code, 200);
    assert_eq!(response.status_text, "OK");
    assert_eq!(response.body, ResponseBody::Stream(FileDetails::new("a.bin".to_string(), 0, 8)));
    assert_eq!(response.content_length(), 0);
    assert_eq!(response.headers[0], pair("Content-Disposition", "attachment; filename=\"a.bin\""));
    assert_eq!(
        serve_file("a.bin", 0, &vec![pair("range", "bytes=0-")], 8),
        Err(AppError::RangeNotSatisfiable)
    );
    assert_eq!(
        serve_file("a.bin", 10, &vec![pair("range", "bytes=0-10")], 8),
        Err(AppError::RangeNotSatisfiable)
    );
    assert_eq!(
        serve_file("a.bin", 10, &vec![pair("range", "items=0-1")], 8),
        Err(AppError::BadRequest)
    );
    // only the field named `range` counts
    assert!(serve_file("a.bin", 10, &vec![pair("Range", "items=0-1")], 8).is_ok());
}

#[test]
fn range_headers() {
    assert_eq!(parse_range_header("bytes=0-0"), Some((0, Some(0))));
    assert_eq!(parse_range_header("bytes=12-"), Some((12, None)));
    assert_eq!(parse_range_header("bytes=+1-+2"), Some((1, Some(2))));
    assert_eq!(parse_range_header("bytes=007-08"), Some((7, Some(8))));
    assert_eq!(
        parse_range_header("bytes=18446744073709551615-"),
        Some((u64::MAX, None))
    );
    for bad in ["", "bytes=", "bytes=-", "bytes=1", "bytes= 1-2", "bytes=1-2 ", "Bytes=1-2", "bytes=18446744073709551616-", "bytes=1--2", "bytes=+-1", "bytes=1-+"] {
        assert_eq!(parse_range_header(bad), None);
    }
    assert_eq!(resolve_range(5, 2, Some(4)), Some(ByteRange { start: 2, end: 4, size: 5 }));
    assert_eq!(resolve_range(5, 2, None), Some(ByteRange { start: 2, end: 4, size: 5 }));
    assert_eq!(resolve_range(5, 4, Some(4)).unwrap().length(), 1);
    assert_eq!(resolve_range(5, 5, None), None);
    assert_eq!(resolve_range(5, 0, Some(5)), None);
    assert_eq!(resolve_range(5, 3, Some(2)), None);
    assert_eq!(resolve_range(0, 0, None), None);
    assert_eq!(ByteRange::from_header("bytes=1-3", 4), Ok(ByteRange { start: 1, end: 3, size: 4 }));
    assert_eq!(ByteRange::from_header("bytes=1-4", 4), Err(AppError::RangeNotSatisfiable));
    assert_eq!(ByteRange::from_header("1-3", 4), Err(AppError::BadRequest));
}

#[test]
fn streaming_sends_the_range_in_chunks() {
    let source: Vec<u8> = (0..=99).collect();
    let whole = FileDetails::new("f".to_string(), 100, 7);
    let mut out = vec![255];
    stream_file(&mut out, &source, &whole);
    assert_eq!(out[0], 255);
    assert_eq!(&out[1..], &source[..]);
    let part = FileDetails { range: Some(ByteRange { start: 10, end: 19, size: 100 }), ..whole.clone() };
    let mut out = Vec::new();
    stream_file(&mut out, &source, &part);
    assert_eq!(out, &source[10..20]);
    // a file that has become shorter ends the stream early
    let mut out = Vec::new();
    stream_file(&mut out, &source[..15], &part);
    assert_eq!(out, &source[10..15]);
    let mut out = Vec::new();
    stream_file(&mut out, &source[..5], &part);
    assert!(out.is_empty());
    // nothing can be read zero bytes at a time
    let stuck = FileDetails { chunk_size: 0, ..whole };
    let mut out = Vec::new();
    stream_file(&mut out, &source, &stuck);
    assert!(out.is_empty());
}

#[test]
fn stream_state_steps() {
    let details = FileDetails {
        path: "f".to_string(),
        size: 100,
        chunk_size: 8,
        range: Some(ByteRange { start: 90, end: 99, size: 100 }),
    };
    assert_eq!(details.offset(), 90);
    assert_eq!(details.content_length(), 10);
    let state = details.start();
    assert_eq!(state, StreamState { position: 90, remaining: 10 });
    assert_eq!(state.next_read(8), 8);
    let state = state.advance(8);
    assert_eq!(state, StreamState { position: 98, remaining: 2 });
    assert_eq!(state.next_read(8), 2);
    assert_eq!(state.advance(2).next_read(8), 0);
    assert_eq!(on_write_failure(WriteFailure::BrokenPipe), StreamEnd::Quiet);
    assert_eq!(on_write_failure(WriteFailure::ConnectionReset), StreamEnd::Quiet);
    assert_eq!(on_write_failure(WriteFailure::WouldBlock), StreamEnd::Quiet);
    assert_eq!(on_write_failure(WriteFailure::Other), StreamEnd::Teardown);
}

#[test]
fn numbers_as_text_and_back() {
    assert_eq!(decimal_string(0), "0");
    assert_eq!(decimal_string(10), "10");
    assert_eq!(decimal_string(u64::MAX), "18446744073709551615");
    let chars = chars_of("x+042y");
    assert_eq!(parse_u64(&chars, 1, 5), Some(42));
    assert_eq!(parse_u64(&chars, 2, 5), Some(42));
    assert_eq!(parse_u64(&chars, 1, 2), None);
    assert_eq!(parse_u64(&chars, 3, 3), None);
    assert_eq!(parse_u64(&chars, 0, 5), None);
    assert_eq!(parse_u64(&chars_of("٣"), 0, 1), None);
}

#[test]
fn mime_types_by_extension() {
    assert_eq!(get_mime_type("index.html"), "text/html");
    assert_eq!(get_mime_type("/a/b/index.htm"), "text/html");
    assert_eq!(get_mime_type("s.css"), "text/css");
    assert_eq!(get_mime_type("s.js"), "application/javascript");
    assert_eq!(get_mime_type("s.json"), "application/json");
    assert_eq!(get_mime_type("s.xml"), "application/xml");
    assert_eq!(get_mime_type("test.txt"), "text/plain");
    assert_eq!(get_mime_type("s.md"), "text/markdown");
    assert_eq!(get_mime_type("s.png"), "image/png");
    assert_eq!(get_mime_type("s.jpg"), "image/jpeg");
    assert_eq!(get_mime_type("s.jpeg"), "image/jpeg");
    assert_eq!(get_mime_type("s.gif"), "image/gif");
    assert_eq!(get_mime_type("s.svg"), "image/svg+xml");
    assert_eq!(get_mime_type("s.ico"), "image/x-icon");
    assert_eq!(get_mime_type("test.pdf"), "application/pdf");
    assert_eq!(get_mime_type("s.zip"), "application/zip");
    assert_eq!(get_mime_type("s.tar"), "application/x-tar");
    assert_eq!(get_mime_type("s.tar.gz"), "application/gzip");
    assert_eq!(get_mime_type("s.mp4"), "video/mp4");
    assert_eq!(get_mime_type("s.mp3"), "audio/mpeg");
    assert_eq!(get_mime_type("s.wav"), "audio/wav");
    assert_eq!(get_mime_type("s.TXT"), "application/octet-stream");
    assert_eq!(get_mime_type("txt"), "application/octet-stream");
    assert_eq!(get_mime_type(".txt"), "application/octet-stream");
    assert_eq!(get_mime_type("a.txt/b"), "application/octet-stream");
    assert_eq!(get_mime_type("a."), "application/octet-stream");
    assert_eq!(get_mime_type("dir/.hidden.txt"), "text/plain");
    assert_eq!(get_mime_type(""), "application/octet-stream");
}

#[test]
fn http_response_builders() {
    let response = HttpResponse::new(200, "OK");
    assert_eq!(response.status_code, 200);
    assert_eq!(response.status_text, "OK");
    assert_eq!(
        response.headers,
        vec![
            pair("Server", "hdl_sv/2.0.0"),
            pair("Connection", "close"),
            pair("Cache-Control", "no-cache"),
        ]
    );
    assert!(response.body.is_empty());
    let html = HttpResponse::new(200, "OK").with_html_body("<p>é</p>".to_string());
    assert_eq!(html.headers[3], pair("Content-Type", "text/html; charset=utf-8"));
    assert_eq!(html.body, "<p>é</p>".as_bytes());
    let file = HttpResponse::new(200, "OK").with_file_body(vec![1, 2, 3], "image/png");
    assert_eq!(file.headers[3], pair("Content-Type", "image/png"));
    assert_eq!(file.body, vec![1, 2, 3]);
    let challenge = HttpResponse::new(401, "Unauthorized").with_auth_challenge();
    assert_eq!(challenge.headers[3], pair("WWW-Authenticate", "Basic realm=\"Restricted\""));
    let more = HttpResponse::new(200, "OK")
        .add_header("X-A".to_string(), "1".to_string())
        .add_header("X-A".to_string(), "2".to_string());
    assert_eq!(&more.headers[3..], &[pair("X-A", "1"), pair("X-A", "2")]);
    let mut wire = b">".to_vec();
    file.send(&mut wire);
    let mut expected = b">HTTP/1.1 200 OK\r\nContent-Length: 3\r\nServer: hdl_sv/2.0.0\r\nConnection: close\r\nCache-Control: no-cache\r\nContent-Type: image/png\r\n\r\n".to_vec();
    expected.extend_from_slice(&[1, 2, 3]);
    assert_eq!(wire, expected);
}

#[test]
fn errors_map_to_statuses_and_responses() {
    let table = [
        (AppError::BadRequest, 400, "Bad Request", "Bad request"),
        (AppError::Unauthorized, 401, "Unauthorized", "Unauthorized"),
        (AppError::Forbidden, 403, "Forbidden", "Forbidden"),
        (AppError::NotFound, 404, "Not Found", "Not Found"),
        (AppError::MethodNotAllowed, 405, "Method Not Allowed", "Method not allowed"),
        (AppError::RangeNotSatisfiable, 416, "Requested Range Not Satisfiable", "Range not satisfiable"),
        (AppError::InvalidPath, 500, "Internal Server Error", "Invalid path"),
        (AppError::Io("gone".to_string()), 500, "Internal Server Error", "IO error: gone"),
        (AppError::Glob("bad".to_string()), 500, "Internal Server Error", "Glob pattern error: bad"),
        (AppError::AddrParse("bad".to_string()), 500, "Internal Server Error", "Address parse error: bad"),
        (AppError::DirectoryNotFound("/x".to_string()), 500, "Internal Server Error", "Directory not found: /x"),
        (AppError::InternalServerError("oops".to_string()), 500, "Internal Server Error", "Internal server error: oops"),
    ];
    for (error, code, text, message) in table {
        assert_eq!(error.status(), (code, text));
        assert_eq!(error.message(), message);
        let response = error_response(&error);
        assert_eq!(response.status_code, code);
        assert_eq!(response.status_text, text);
        assert_eq!(
            response.headers.iter().any(|(name, _)| name == "WWW-Authenticate"),
            code == 401
        );
        if code == 416 {
            assert!(response.body.is_empty());
            assert_eq!(response.headers.len(), 3);
        } else {
            assert_eq!(response, create_error_response(code, text));
            let page = String::from_utf8(response.body.clone()).unwrap();
            assert!(page.contains(&format!("<div class=\"error-code\">{}</div>", code)));
            assert!(page.contains(&format!("<h1 class=\"error-title\">{}</h1>", text)));
            assert!(page.contains(hdl_sv::templates::get_error_description(code)));
        }
        let mut wire = Vec::new();
        send_error_response(&mut wire, &error);
        let mut expected = Vec::new();
        response.send(&mut expected);
        assert_eq!(wire, expected);
    }
}

#[test]
fn plain_send_response_reports_errors_with_their_page() {
    let mut wire = Vec::new();
    hdl_sv::response::send_response(&mut wire, 200, "OK", "<p>hi</p>");
    let text = String::from_utf8(wire).unwrap();
    assert!(text.starts_with("HTTP/1.1 200 OK\r\nContent-Length: 9\r\n"));
    assert!(text.ends_with("\r\n\r\n<p>hi</p>"));
    let mut wire = Vec::new();
    hdl_sv::response::send_response(&mut wire, 404, "Not Found", "ignored");
    let mut expected = Vec::new();
    create_error_response(404, "Not Found").send(&mut expected);
    assert_eq!(wire, expected);
}
