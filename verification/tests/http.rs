use lapdev_kube::http_buffer_parser;
use lapdev_kube::http_parser::{
    continue_header_read, get_content_length, get_header_value, get_host_header,
    parse_http_request_from_buffer, start_header_read, HeaderReadError, HeaderReadStatus,
    HeaderStep, HttpParseError, RawHeader, ReadEvent,
};
use lapdev_kube::protocol_detector::{
    classify, continue_detection, detect_http_in_buffer, finish_detection, start_detection,
    DetectStep, HeadOutcome, ProtocolType,
};

#[test]
fn test_parse_basic_get_request() {
    let request_data =
        b"GET /api/health HTTP/1.1\r\nHost: localhost:8080\r\nUser-Agent: test\r\n\r\n";

    let (request, body_start) = parse_http_request_from_buffer(request_data).unwrap();

    assert_eq!(request.method, "GET");
    assert_eq!(request.path, "/api/health");
    assert_eq!(body_start, request_data.len());

    let host = get_host_header(&request.headers);
    assert_eq!(host, Some(&"localhost:8080".to_string()));
}

#[test]
fn test_parse_post_with_body() {
    let request_data = b"POST /api/data HTTP/1.1\r\nHost: localhost:8080\r\nContent-Type: application/json\r\nContent-Length: 13\r\n\r\n{\"test\": true}";

    let (request, body_start) = parse_http_request_from_buffer(request_data).unwrap();

    assert_eq!(request.method, "POST");
    assert_eq!(request.path, "/api/data");

    let body = &request_data[body_start..];
    assert_eq!(body, b"{\"test\": true}");

    let content_length = get_content_length(&request.headers);
    assert_eq!(content_length, Some(13));
}

#[test]
fn test_get_header_value() {
    let headers = vec![
        ("Host".to_string(), "example.com".to_string()),
        ("Content-Type".to_string(), "application/json".to_string()),
        ("Authorization".to_string(), "Bearer token123".to_string()),
    ];

    assert_eq!(
        get_header_value(&headers, "host"),
        Some(&"example.com".to_string())
    );
    assert_eq!(
        get_header_value(&headers, "HOST"),
        Some(&"example.com".to_string())
    );
    assert_eq!(
        get_header_value(&headers, "content-type"),
        Some(&"application/json".to_string())
    );
    assert_eq!(
        get_header_value(&headers, "authorization"),
        Some(&"Bearer token123".to_string())
    );
    assert_eq!(get_header_value(&headers, "nonexistent"), None);
}

#[test]
fn http_parser_test_incomplete_request() {
    let incomplete_data = b"GET /api/health HTTP/1.1\r\nHost: localhost";
    assert!(parse_http_request_from_buffer(incomplete_data).is_err());

    let complete_data = b"GET /api/health HTTP/1.1\r\nHost: localhost\r\n\r\n";
    assert!(parse_http_request_from_buffer(complete_data).is_ok());
}

#[test]
fn test_parse_request_with_multiple_headers() {
    let request_data = b"POST /api/test HTTP/1.1\r\nHost: example.com\r\nUser-Agent: test-client\r\nContent-Type: application/json\r\nContent-Length: 26\r\nAuthorization: Bearer abc123\r\n\r\n{\"message\": \"hello world\"}";

    let (parsed_request, body_start) = parse_http_request_from_buffer(request_data).unwrap();

    assert_eq!(parsed_request.method, "POST");
    assert_eq!(parsed_request.path, "/api/test");

    assert_eq!(
        get_host_header(&parsed_request.headers),
        Some(&"example.com".to_string())
    );
    assert_eq!(get_content_length(&parsed_request.headers), Some(26));
    assert_eq!(
        get_header_value(&parsed_request.headers, "user-agent"),
        Some(&"test-client".to_string())
    );
    assert_eq!(
        get_header_value(&parsed_request.headers, "content-type"),
        Some(&"application/json".to_string())
    );
    assert_eq!(
        get_header_value(&parsed_request.headers, "authorization"),
        Some(&"Bearer abc123".to_string())
    );

    let body = &request_data[body_start..];
    assert_eq!(body, b"{\"message\": \"hello world\"}");
    assert_eq!(body.len(), 26);
}

#[test]
fn test_get_host_header() {
    let headers = vec![
        ("Content-Type".to_string(), "application/json".to_string()),
        ("Host".to_string(), "api.example.com".to_string()),
        ("Authorization".to_string(), "Bearer token".to_string()),
    ];

    assert_eq!(
        get_host_header(&headers),
        Some(&"api.example.com".to_string())
    );

    let headers_mixed_case = vec![("host".to_string(), "lowercase.example.com".to_string())];
    assert_eq!(
        get_host_header(&headers_mixed_case),
        Some(&"lowercase.example.com".to_string())
    );

    let headers_no_host = vec![("Content-Type".to_string(), "application/json".to_string())];
    assert_eq!(get_host_header(&headers_no_host), None);
}

#[test]
fn test_get_content_length() {
    let headers = vec![
        ("Host".to_string(), "example.com".to_string()),
        ("Content-Length".to_string(), "42".to_string()),
        ("Content-Type".to_string(), "application/json".to_string()),
    ];

    assert_eq!(get_content_length(&headers), Some(42));

    let headers_mixed_case = vec![("content-length".to_string(), "1024".to_string())];
    assert_eq!(get_content_length(&headers_mixed_case), Some(1024));

    let headers_invalid = vec![("Content-Length".to_string(), "not-a-number".to_string())];
    assert_eq!(get_content_length(&headers_invalid), None);

    let headers_no_cl = vec![("Host".to_string(), "example.com".to_string())];
    assert_eq!(get_content_length(&headers_no_cl), None);
}

/// Feeds chunks to the header reader until it stops.
fn read_all(chunks: &[&[u8]]) -> (Vec<u8>, HeaderStep) {
    let mut buffer = Vec::new();
    let mut step = start_header_read(&buffer);
    for chunk in chunks {
        match step {
            HeaderStep::Read(max) => {
                assert!(chunk.len() <= max);
                step = continue_header_read(&mut buffer, ReadEvent::Data(chunk.to_vec()));
            }
            _ => break,
        }
    }
    (buffer, step)
}

#[test]
fn test_boundary_spanning_with_chunked_stream() {
    let chunks: [&[u8]; 3] = [
        b"GET /test HTTP/1.1\r\nHost: example.com\r",
        b"\n\r\n",
        b"Body data here",
    ];
    let (buffer, step) = read_all(&chunks);
    assert_eq!(
        step,
        HeaderStep::Done(HeaderReadStatus::Complete),
        "Should successfully read request with boundary-spanning marker"
    );
    let (request, _) = parse_http_request_from_buffer(&buffer).expect("Failed to parse request");
    assert_eq!(request.method, "GET");
    assert_eq!(request.path, "/test");
    assert_eq!(
        get_host_header(&request.headers),
        Some(&"example.com".to_string())
    );

    let chunks: [&[u8]; 3] = [
        b"POST /api HTTP/1.1\r\nContent-Type: application/json\r\n",
        b"\r\n",
        b"{\"data\": \"test\"}",
    ];
    let (buffer, step) = read_all(&chunks);
    assert_eq!(
        step,
        HeaderStep::Done(HeaderReadStatus::Complete),
        "Should handle different boundary split"
    );
    let (request, _) = parse_http_request_from_buffer(&buffer).expect("Failed to parse request");
    assert_eq!(request.method, "POST");
    assert_eq!(request.path, "/api");
    assert_eq!(
        get_header_value(&request.headers, "content-type"),
        Some(&"application/json".to_string())
    );

    let chunks: [&[u8]; 6] = [
        b"PUT /upload HTTP/1.1\r\nHost: api.example.com",
        b"\r",
        b"\n",
        b"\r",
        b"\n",
        b"Upload content",
    ];
    let (buffer, step) = read_all(&chunks);
    assert_eq!(
        step,
        HeaderStep::Done(HeaderReadStatus::Complete),
        "Should handle extremely fragmented boundary marker"
    );
    let (request, _) = parse_http_request_from_buffer(&buffer).expect("Failed to parse request");
    assert_eq!(request.method, "PUT");
    assert_eq!(request.path, "/upload");
    assert_eq!(
        get_host_header(&request.headers),
        Some(&"api.example.com".to_string())
    );
}

/// Reads a `HEAD` request out of chunks.
fn assert_head_request(chunks: &[&[u8]], description: &str) {
    let (buffer, step) = read_all(chunks);
    assert_eq!(
        step,
        HeaderStep::Done(HeaderReadStatus::Complete),
        "Should handle boundary split: {}",
        description
    );
    let (request, _) = parse_http_request_from_buffer(&buffer).expect("Failed to parse request");
    assert_eq!(request.method, "HEAD");
    assert_eq!(request.path, "/status");
    assert_eq!(
        get_host_header(&request.headers),
        Some(&"test.example.com".to_string())
    );
}

#[test]
fn test_all_possible_boundary_splits() {
    let base: &[u8] = b"HEAD /status HTTP/1.1\r\nHost: test.example.com";
    let marker: &[u8] = b"\r\n\r\n";
    let body: &[u8] = b"Optional body content";

    let cases = [
        (1, "\\r | \\n\\r\\n"),
        (2, "\\r\\n | \\r\\n"),
        (3, "\\r\\n\\r | \\n"),
    ];
    for (split, description) in cases {
        let first = [base, &marker[..split]].concat();
        let second = [&marker[split..], body].concat();
        assert_head_request(&[&first, &second], description);
    }

    let three = [&b"\n\r\n"[..], body].concat();
    assert_head_request(
        &[base, b"\r", &three],
        "three-way: base | \\r | \\n\\r\\n+body",
    );
    let four = [&b"\r\n"[..], body].concat();
    assert_head_request(
        &[base, b"\r", b"\n", &four],
        "four-way: base | \\r | \\n | \\r\\n+body",
    );
    let five = [&b"\n"[..], body].concat();
    assert_head_request(
        &[base, b"\r", b"\n", b"\r", &five],
        "five-way: base | \\r | \\n | \\r | \\n+body",
    );
    assert_head_request(
        &[base, b"\r", b"\n", b"\r", b"\n", body],
        "six-way: all separate",
    );
}

#[test]
fn test_read_http_headers_immediate_deadline_times_out() {
    let mut buffer = Vec::new();
    assert_eq!(start_header_read(&buffer), HeaderStep::Read(1024));
    let step = continue_header_read(&mut buffer, ReadEvent::TimedOut);

    assert_eq!(step, HeaderStep::Done(HeaderReadStatus::TimedOut));
    assert!(buffer.is_empty());
}

#[test]
fn test_read_http_headers_deadline_succeeds_before_timeout() {
    let request = b"GET /ok HTTP/1.1\r\nHost: example.com\r\nUser-Agent: test\r\n\r\n";
    let (buffer, step) = read_all(&[&request[..]]);

    assert_eq!(step, HeaderStep::Done(HeaderReadStatus::Complete));
    assert_eq!(buffer, request.to_vec());
}

#[test]
fn headers_larger_than_the_limit_are_refused() {
    let chunk = vec![b'a'; 1024];
    let chunks: Vec<&[u8]> = (0..8).map(|_| chunk.as_slice()).collect();
    let (buffer, step) = read_all(&chunks);
    assert_eq!(buffer.len(), 8192);
    assert_eq!(step, HeaderStep::Failed(HeaderReadError::TooLarge));
    assert_eq!(
        HeaderReadError::TooLarge.message(),
        "HTTP headers exceed maximum size of 8192 bytes"
    );
}

#[test]
fn closed_and_late_connections_stop_the_header_reader() {
    let mut buffer = b"GET / HT".to_vec();
    assert_eq!(start_header_read(&buffer), HeaderStep::Read(1024));
    assert_eq!(
        continue_header_read(&mut buffer, ReadEvent::Data(Vec::new())),
        HeaderStep::Failed(HeaderReadError::UnexpectedEof)
    );
    assert_eq!(
        continue_header_read(&mut buffer, ReadEvent::TimedOut),
        HeaderStep::Done(HeaderReadStatus::TimedOut)
    );
    assert_eq!(buffer, b"GET / HT".to_vec());
}

#[test]
fn parse_errors_have_texts() {
    match parse_http_request_from_buffer(b"GET / HTTP/9.9\r\n\r\n") {
        Err(HttpParseError::Parse(_)) => {}
        other => panic!("unexpected {:?}", other),
    }
    match parse_http_request_from_buffer(b"GET /") {
        Err(e) => assert_eq!(e.message(), "Incomplete HTTP request"),
        Ok(_) => panic!("incomplete request was accepted"),
    }
    assert_eq!(
        HttpParseError::Parse("x".to_string()).message(),
        "HTTP parse error: x"
    );
}

#[test]
fn invalid_header_bytes_are_replaced_or_dropped() {
    let request = b"GET / HTTP/1.1\r\nX-Raw: \xff\r\nHost: h\r\n\r\n";
    let (lossy, _) = parse_http_request_from_buffer(request).unwrap();
    assert_eq!(lossy.headers.len(), 2);
    assert_eq!(lossy.headers[0].1, "\u{fffd}");
    let (routed, _) = http_buffer_parser::parse_http_request_from_buffer(request).unwrap();
    assert_eq!(routed.headers.len(), 1);
    assert_eq!(routed.headers[0].0, "Host");
}

#[test]
fn test_parse_simple_get_request() {
    let request_data =
        b"GET /api/health HTTP/1.1\r\nHost: localhost:8080\r\nUser-Agent: test\r\n\r\n";

    let (request, body_start) =
        http_buffer_parser::parse_http_request_from_buffer(request_data).unwrap();

    assert_eq!(request.method, "GET");
    assert_eq!(request.path, "/api/health");
    assert_eq!(request.version, 1);

    let host_header = request.headers.iter().find(|(name, _)| name == "Host");
    assert!(host_header.is_some());
    assert_eq!(host_header.unwrap().1, "localhost:8080");

    assert_eq!(body_start, request_data.len());
}

#[test]
fn test_parse_post_request_with_body() {
    let request_data = b"POST /api/data HTTP/1.1\r\nHost: localhost:8080\r\nContent-Type: application/json\r\nContent-Length: 13\r\n\r\n{\"test\": true}";

    let (request, body_start) =
        http_buffer_parser::parse_http_request_from_buffer(request_data).unwrap();

    assert_eq!(request.method, "POST");
    assert_eq!(request.path, "/api/data");
    assert_eq!(request.version, 1);

    let content_type_header = request
        .headers
        .iter()
        .find(|(name, _)| name.eq_ignore_ascii_case("content-type"));
    assert!(content_type_header.is_some());
    assert_eq!(content_type_header.unwrap().1, "application/json");

    assert!(body_start < request_data.len());

    let body = &request_data[body_start..];
    assert_eq!(body, b"{\"test\": true}");

    let raw_headers: Vec<RawHeader> = request
        .headers
        .iter()
        .map(|(name, value)| RawHeader {
            name: name.clone(),
            value: value.as_bytes().to_vec(),
        })
        .collect();
    assert_eq!(
        http_buffer_parser::get_content_length(&raw_headers),
        Some(13)
    );
}

#[test]
fn test_parse_request_with_otel_headers() {
    let request_data = b"GET /api/trace HTTP/1.1\r\nHost: localhost\r\ntraceparent: 00-4bf92f3577b34da6a3ce929d0e0e4736-00f067aa0ba902b7-01\r\nbaggage: userId=alice,env=prod\r\n\r\n";

    let (request, _) = http_buffer_parser::parse_http_request_from_buffer(request_data).unwrap();

    let traceparent_header = request
        .headers
        .iter()
        .find(|(name, _)| name == "traceparent");
    assert!(traceparent_header.is_some());
    assert_eq!(
        traceparent_header.unwrap().1,
        "00-4bf92f3577b34da6a3ce929d0e0e4736-00f067aa0ba902b7-01"
    );

    let baggage_header = request.headers.iter().find(|(name, _)| name == "baggage");
    assert!(baggage_header.is_some());
    assert_eq!(baggage_header.unwrap().1, "userId=alice,env=prod");
}

#[test]
fn http_buffer_parser_test_incomplete_request() {
    let incomplete_data = b"GET /api/health HTTP/1.1\r\nHost: localhost";
    assert!(http_buffer_parser::parse_http_request_from_buffer(incomplete_data).is_err());

    let complete_data = b"GET /api/health HTTP/1.1\r\nHost: localhost\r\n\r\n";
    assert!(http_buffer_parser::parse_http_request_from_buffer(complete_data).is_ok());
}

#[test]
fn test_detect_http_get() {
    let buffer = b"GET /api/health HTTP/1.1\r\nHost: localhost\r\n\r\n";
    let result = detect_http_in_buffer(buffer);

    match result {
        Some(ProtocolType::Http { method, path }) => {
            assert_eq!(method, "GET");
            assert_eq!(path, "/api/health");
        }
        _ => panic!("Expected HTTP detection"),
    }
}

#[test]
fn test_detect_http_post() {
    let buffer =
        b"POST /api/data HTTP/1.1\r\nContent-Type: application/json\r\n\r\n{\"test\": true}";
    let result = detect_http_in_buffer(buffer);

    match result {
        Some(ProtocolType::Http { method, path }) => {
            assert_eq!(method, "POST");
            assert_eq!(path, "/api/data");
        }
        _ => panic!("Expected HTTP detection"),
    }
}

#[test]
fn test_detect_non_http() {
    let buffer = b"\x16\x03\x01\x00\xf4\x01\x00\x00\xf0\x03\x03"; // TLS handshake
    let result = detect_http_in_buffer(buffer);

    assert!(result.is_none());
}

#[test]
fn test_detect_binary() {
    let buffer = b"\x00\x01\x02\x03\x04\x05"; // Binary data
    let result = detect_http_in_buffer(buffer);

    assert!(result.is_none());
}

/// Feeds chunks to the detector, then to the header reader where the protocol
/// is HTTP/1.
fn detect(chunks: &[&[u8]]) -> (ProtocolType, Vec<u8>, bool) {
    let mut buffer = Vec::new();
    let mut next = 0;
    let mut timed_out = false;
    let mut step = start_detection();
    while let DetectStep::Read(max) = step {
        let chunk = if next < chunks.len() { chunks[next].to_vec() } else { Vec::new() };
        assert!(chunk.len() <= max);
        next += 1;
        let (s, t) = continue_detection(&mut buffer, ReadEvent::Data(chunk));
        step = s;
        timed_out = timed_out || t;
    }
    let protocol = classify(&buffer);
    let mut head = HeadOutcome::NotRead;
    if let ProtocolType::Http { .. } = protocol {
        let mut step = start_header_read(&buffer);
        while let HeaderStep::Read(_) = step {
            let chunk = if next < chunks.len() { chunks[next].to_vec() } else { Vec::new() };
            next += 1;
            step = continue_header_read(&mut buffer, ReadEvent::Data(chunk));
        }
        head = match step {
            HeaderStep::Done(HeaderReadStatus::Complete) => HeadOutcome::Complete,
            HeaderStep::Done(HeaderReadStatus::TimedOut) => HeadOutcome::TimedOut,
            HeaderStep::Failed(HeaderReadError::TooLarge) => HeadOutcome::InvalidData,
            HeaderStep::Failed(HeaderReadError::UnexpectedEof) => HeadOutcome::UnexpectedEof,
            HeaderStep::Read(_) => unreachable!(),
        };
    }
    let result = finish_detection(protocol, buffer, timed_out, head).unwrap();
    (result.protocol, result.buffer, result.timed_out)
}

fn chunked(data: &[u8], size: usize) -> Vec<&[u8]> {
    data.chunks(size).collect()
}

#[test]
fn test_detect_http2_preface() {
    let (protocol, _, _) = detect(&[b"PRI * HTTP/2.0\r\n\r\nSM\r\n\r\n"]);
    assert!(matches!(protocol, ProtocolType::Http2));
    let (partial, _, _) = detect(&[b"PRI * HTT"]);
    assert!(matches!(partial, ProtocolType::Http2));
}

#[test]
fn test_detect_http_uncommon_verb() {
    let (protocol, _, _) = detect(&[b"PROPFIND /calendar HTTP/1.1\r\nHost: example.com\r\n\r\n"]);
    match protocol {
        ProtocolType::Http { method, path } => {
            assert_eq!(method, "PROPFIND");
            assert_eq!(path, "/calendar");
        }
        _ => panic!("Expected HTTP detection for PROPFIND"),
    }
}

#[test]
fn test_detect_http_reads_until_headers_complete() {
    let headers = b"GET / HTTP/1.1\r\nHost: example.com\r\nUser-Agent: test\r\n\r\n";
    let mut data = headers.to_vec();
    data.extend_from_slice(b"body-should-remain");
    let (protocol, buffer, _) = detect(&chunked(&data, headers.len()));
    assert!(matches!(protocol, ProtocolType::Http { .. }));
    assert_eq!(buffer.len(), headers.len());
    assert_eq!(buffer, headers.to_vec());
}

#[test]
fn test_detect_http_gathers_headers_across_chunks() {
    let headers =
        b"POST /submit HTTP/1.1\r\nHost: example.com\r\nContent-Type: text/plain\r\n\r\n";
    let (protocol, buffer, _) = detect(&chunked(headers, 7));
    assert!(matches!(protocol, ProtocolType::Http { .. }));
    assert!(buffer.ends_with(b"\r\n\r\n"));
}

#[test]
fn test_detect_http_long_first_line() {
    let long_path = format!("/{}", "a".repeat(5000));
    let request = format!(
        "GET {} HTTP/1.1\r\nHost: example.com\r\nUser-Agent: test\r\n\r\n",
        long_path
    );
    let (protocol, _, _) = detect(&chunked(request.as_bytes(), 512));
    match protocol {
        ProtocolType::Http { method, path } => {
            assert_eq!(method, "GET");
            assert_eq!(path, long_path);
        }
        _ => panic!("Expected HTTP detection for long request line"),
    }
}

#[test]
fn silent_and_failed_connections_are_told_apart() {
    assert!(matches!(classify(b""), ProtocolType::Tcp));
    assert!(matches!(classify(b"get / HTTP/1.1\r\n"), ProtocolType::Tcp));
    let mut buffer = Vec::new();
    assert_eq!(
        continue_detection(&mut buffer, ReadEvent::TimedOut),
        (DetectStep::Decide, true)
    );
    let late = finish_detection(ProtocolType::Tcp, Vec::new(), false, HeadOutcome::TimedOut);
    assert!(late.unwrap().timed_out);
    assert!(finish_detection(ProtocolType::Tcp, Vec::new(), false, HeadOutcome::Failed).is_none());
}

#[test]
fn bodies_do_not_change_requests() {
    let head = b"GET /a HTTP/1.1\r\nHost: h\r\n\r\n";
    let (request, body_start) = parse_http_request_from_buffer(head).unwrap();
    assert_eq!(body_start, head.len());
    for rest in [&b"X: y\r\n\r\n"[..], b"\r\n", b" folded", b"\0\xff"] {
        let longer = [&head[..], rest].concat();
        let (other, start) = parse_http_request_from_buffer(&longer).unwrap();
        assert_eq!(start, body_start);
        assert_eq!(other.method, request.method);
        assert_eq!(other.path, request.path);
        assert_eq!(other.headers, request.headers);
        let (routed, start) = http_buffer_parser::parse_http_request_from_buffer(&longer).unwrap();
        assert_eq!(start, body_start);
        assert_eq!(routed.headers, request.headers);
    }
    let lines: String = (0..64).map(|i| format!("H{}: v\r\n", i)).collect();
    let full = format!("GET / HTTP/1.1\r\n{}\r\n", lines);
    assert_eq!(parse_http_request_from_buffer(full.as_bytes()).unwrap().0.headers.len(), 64);
    let over = format!("GET / HTTP/1.1\r\n{}Last: v\r\n\r\n", lines);
    assert!(parse_http_request_from_buffer(over.as_bytes()).is_err());
}
