//! Tests for the wire layer: the chunked codec, the parser, requests and
//! responses.

use localhost::http::chunked::{ChunkedDecoder, ChunkedEncoder, ChunkedUtils, find_crlf,
    find_empty_line};
use localhost::http::parse::HttpParser;
use localhost::http::request::{HttpRequest, Method};
use localhost::net::conn::Connection;
use localhost::net::timeout::{ConnectionState, TimeoutConfig, TimeoutManager};

#[test]
fn test_chunked_decoder_simple() {
    let mut decoder = ChunkedDecoder::new(1024, 4096);
    let data = b"5\r\nHello\r\n5\r\nWorld\r\n0\r\n\r\n";
    let consumed = decoder.process(data).unwrap();
    assert_eq!(consumed, data.len());
    assert!(decoder.is_complete());
    assert_eq!(decoder.body(), b"HelloWorld");
}

#[test]
fn test_chunked_decoder_with_trailer() {
    let mut decoder = ChunkedDecoder::new(1024, 4096);
    let data = b"4\r\nTest\r\n0\r\nX-Custom: value\r\n\r\n";
    let consumed = decoder.process(data).unwrap();
    assert_eq!(consumed, data.len());
    assert!(decoder.is_complete());
    assert_eq!(decoder.body(), b"Test");
    assert_eq!(decoder.trailer_headers().len(), 1);
    assert_eq!(
        decoder.trailer_headers()[0],
        ("X-Custom".to_string(), "value".to_string())
    );
}

#[test]
fn test_chunked_encoder_simple() {
    let mut encoder = ChunkedEncoder::new();
    encoder.encode_chunk(b"Hello").unwrap();
    encoder.encode_chunk(b"World").unwrap();
    encoder.finalize(None).unwrap();
    let expected: &[u8] = b"5\r\nHello\r\n5\r\nWorld\r\n0\r\n\r\n";
    assert_eq!(encoder.data(), expected);
}

#[test]
fn test_chunked_encoder_with_trailer() {
    let mut encoder = ChunkedEncoder::new();
    encoder.encode_chunk(b"Test").unwrap();
    let trailer_headers = vec![("X-Custom".to_string(), "value".to_string())];
    encoder.finalize(Some(&trailer_headers)).unwrap();
    let expected: &[u8] = b"4\r\nTest\r\n0\r\nX-Custom: value\r\n\r\n";
    assert_eq!(encoder.data(), expected);
}

#[test]
fn test_chunked_encoder_complete() {
    let data = b"Hello World";
    let encoded = ChunkedEncoder::encode_complete(data, None).unwrap();
    let expected: &[u8] = b"B\r\nHello World\r\n0\r\n\r\n";
    assert_eq!(encoded, expected);
}

#[test]
fn test_chunked_utils() {
    assert!(ChunkedUtils::should_use_chunked(None, "HTTP/1.1"));
    assert!(!ChunkedUtils::should_use_chunked(Some(100), "HTTP/1.1"));
    assert!(!ChunkedUtils::should_use_chunked(None, "HTTP/1.0"));
    let encodings = ChunkedUtils::parse_transfer_encoding("chunked, gzip");
    assert_eq!(encodings, vec!["chunked".to_string(), "gzip".to_string()]);
    assert!(ChunkedUtils::is_chunked_encoding(&encodings));
    assert_eq!(ChunkedUtils::optimal_chunk_size(Some(500)), 512);
    assert_eq!(ChunkedUtils::optimal_chunk_size(Some(5000)), 4096);
    assert_eq!(ChunkedUtils::optimal_chunk_size(None), 16384);
}

#[test]
fn test_find_crlf() {
    assert_eq!(find_crlf(b"test\r\nmore"), Some(4));
    assert_eq!(find_crlf(b"no crlf here"), None);
    assert_eq!(find_crlf(b"\r\n"), Some(0));
}

#[test]
fn test_find_empty_line() {
    assert_eq!(find_empty_line(b"header\r\n\r\nbody"), Some(6));
    assert_eq!(find_empty_line(b"no empty line"), None);
    assert_eq!(find_empty_line(b"\r\n\r\n"), Some(0));
}

#[test]
fn test_chunked_round_trip_bytes() {
    let body = b"The quick brown fox jumps over the lazy dog";
    let encoded = ChunkedEncoder::encode_complete(body, None).unwrap();
    let mut decoder = ChunkedDecoder::new(1 << 20, 1 << 20);
    decoder.process(&encoded).unwrap();
    assert!(decoder.is_complete());
    assert_eq!(decoder.body(), body);
}

#[test]
fn test_chunked_round_trip_trailers() {
    let body = b"payload";
    let trailers = vec![("X-Sum".to_string(), "42".to_string())];
    let encoded = ChunkedEncoder::encode_complete(body, Some(&trailers)).unwrap();
    let mut decoder = ChunkedDecoder::new(1 << 20, 1 << 20);
    decoder.process(&encoded).unwrap();
    assert!(decoder.is_complete());
    assert_eq!(decoder.body(), body);
    assert_eq!(decoder.trailer_headers(), &trailers[..]);
}

#[test]
fn test_parser_minimal_get() {
    let mut parser = HttpParser::new();
    let wire = b"GET / HTTP/1.1\r\nHost: x\r\n\r\n";
    let request = parser.parse(wire).unwrap().unwrap();
    assert_eq!(request.method, Method::GET);
    assert_eq!(request.path, "/");
    assert_eq!(request.version, "HTTP/1.1");
    assert_eq!(request.get_header("host"), Some("x"));
    assert!(request.connection_keep_alive());
}

#[test]
fn test_parser_restartable_any_split() {
    let wire: &[u8] = b"POST /p HTTP/1.1\r\nHost: x\r\nContent-Length: 5\r\n\r\nhello";
    let mut whole = HttpParser::new();
    let expected = whole.parse(wire).unwrap().unwrap();
    for split in 0..wire.len() {
        let mut parser = HttpParser::new();
        let first = parser.parse(&wire[..split]).unwrap();
        if split < wire.len() {
            assert!(first.is_none() || split == wire.len());
        }
        let second = parser.parse(&wire[split..]).unwrap().unwrap();
        assert_eq!(second.method, expected.method);
        assert_eq!(second.path, expected.path);
        assert_eq!(second.body, expected.body);
    }
}

#[test]
fn test_parser_chunked_post() {
    let mut parser = HttpParser::new();
    let wire = b"POST /p HTTP/1.1\r\nHost: x\r\nTransfer-Encoding: chunked\r\n\r\n5\r\nHello\r\n5\r\nWorld\r\n0\r\n\r\n";
    let request = parser.parse(wire).unwrap().unwrap();
    assert_eq!(request.body, b"HelloWorld".to_vec());
    assert_eq!(request.body.len(), 10);
}

#[test]
fn test_parser_pipelined_reset() {
    let mut parser = HttpParser::new();
    let one = b"GET / HTTP/1.1\r\nHost: x\r\n\r\n";
    let mut wire = Vec::new();
    wire.extend_from_slice(one);
    wire.extend_from_slice(one);
    let first = parser.parse(&wire).unwrap().unwrap();
    assert_eq!(first.path, "/");
    parser.reset();
    let second = parser.parse(b"").unwrap().unwrap();
    assert_eq!(second.path, "/");
    assert_eq!(second.method, Method::GET);
}

#[test]
fn test_parser_request_line_cap() {
    let mut parser = HttpParser::with_limits(64, 65536, 1024, 1024);
    let mut wire = Vec::new();
    wire.extend_from_slice(b"GET /");
    wire.extend_from_slice(&[b'a'; 200]);
    assert!(parser.parse(&wire).is_err());
}

#[test]
fn test_parser_header_cap() {
    let mut parser = HttpParser::with_limits(8192, 64, 1024, 1024);
    let mut wire = Vec::new();
    wire.extend_from_slice(b"GET / HTTP/1.1\r\n");
    for _ in 0..20 {
        wire.extend_from_slice(b"X-Filler: aaaaaaaaaaaaaaaa\r\n");
    }
    wire.extend_from_slice(b"\r\n");
    assert!(parser.parse(&wire).is_err());
}

#[test]
fn test_parser_body_cap() {
    let mut parser = HttpParser::with_limits(8192, 65536, 4, 1024);
    let wire = b"POST / HTTP/1.1\r\nHost: x\r\nContent-Length: 10\r\n\r\n0123456789";
    assert!(parser.parse(wire).is_err());
}

#[test]
fn test_header_lookup_case_insensitive() {
    let mut parser = HttpParser::new();
    let request = parser
        .parse(b"GET / HTTP/1.1\r\nHost: x\r\nContent-Length: 0\r\n\r\n")
        .unwrap()
        .unwrap();
    assert_eq!(
        request.get_header("content-length"),
        request.get_header("Content-Length")
    );
    assert_eq!(request.get_header("content-length"), Some("0"));
}

#[test]
fn test_http10_default_close() {
    let mut conn = Connection::new();
    let done = conn
        .feed_bytes(b"GET / HTTP/1.0\r\nHost: x\r\n\r\n")
        .unwrap();
    assert!(done);
    assert!(!conn.should_keep_alive());
    let mut response = localhost::http::response::HttpResponse::ok();
    conn.queue_response(&mut response);
    assert_eq!(response.get_header("Connection"), Some("close"));
    let n = conn.pending_bytes().len();
    let finished = conn.advance_write(n);
    assert!(finished);
    let close = conn.finish_response();
    assert!(close);
}

#[test]
fn test_connection_keep_alive_cycle() {
    let mut conn = Connection::new();
    let done = conn.feed_bytes(b"GET / HTTP/1.1\r\nHost: x\r\n\r\n").unwrap();
    assert!(done);
    assert!(conn.should_keep_alive());
    let mut response = localhost::http::response::HttpResponse::ok();
    response.set_body(b"hi");
    conn.queue_response(&mut response);
    assert_eq!(response.get_header("Connection"), Some("keep-alive"));
    let n = conn.pending_bytes().len();
    assert!(n > 0);
    assert!(conn.advance_write(n));
    let close = conn.finish_response();
    assert!(!close);
    let again = conn.feed_bytes(b"GET /2 HTTP/1.1\r\nHost: x\r\n\r\n").unwrap();
    assert!(again);
}

#[test]
fn test_head_preserves_content_length() {
    let mut response = localhost::http::response::HttpResponse::ok();
    let body = [7u8; 42];
    response.set_body(&body);
    assert_eq!(response.get_header("Content-Length"), Some("42"));
    localhost::fs::static_files::elide_body_for_head(&mut response);
    assert_eq!(response.body(), None);
    assert_eq!(response.get_header("Content-Length"), Some("42"));
}

#[test]
fn test_response_serialization() {
    let mut response = localhost::http::response::HttpResponse::new(200);
    response.set_body(b"abc");
    let wire = response.to_bytes();
    let text = String::from_utf8(wire).unwrap();
    assert!(text.starts_with("HTTP/1.1 200 OK\r\n"));
    assert!(text.contains("Content-Length: 3\r\n"));
    assert!(text.ends_with("\r\n\r\nabc"));
}

#[test]
fn test_missing_host_rejected() {
    let mut conn = Connection::new();
    let r = conn.feed_bytes(b"GET / HTTP/1.1\r\n\r\n");
    assert!(r.is_err());
}

#[test]
fn test_timeout_expiry_exact() {
    let cfg = TimeoutConfig {
        read_header_timeout: 200,
        read_body_timeout: 15000,
        write_timeout: 5000,
        keep_alive_timeout: 10000,
        request_timeout: 30000,
    };
    let mut manager = TimeoutManager::new(cfg);
    manager.add_connection(7, 1000);
    assert!(manager.check_timeouts(1200).is_empty());
    assert_eq!(manager.check_timeouts(1201), vec![7]);
    manager.update_activity(7, 1201);
    assert!(manager.check_timeouts(1300).is_empty());
}

#[test]
fn test_timeout_phase_selection() {
    let cfg = TimeoutConfig::default();
    let mut manager = TimeoutManager::new(cfg);
    manager.add_connection(3, 0);
    manager.set_connection_state(3, ConnectionState::KeepAlive, 0);
    assert!(manager.check_timeouts(10000).is_empty());
    assert_eq!(manager.check_timeouts(10001), vec![3]);
}

#[test]
fn test_no_descriptor_left_after_removal() {
    let cfg = TimeoutConfig::default();
    let mut manager = TimeoutManager::new(cfg);
    for fd in 0..10 {
        manager.add_connection(fd, 0);
    }
    assert_eq!(manager.connection_count(), 10);
    for fd in 0..10 {
        manager.remove_connection(fd);
    }
    assert_eq!(manager.connection_count(), 0);
}

#[test]
fn test_next_wake_floor() {
    let cfg = TimeoutConfig::default();
    let mut manager = TimeoutManager::new(cfg);
    manager.add_connection(1, 1000);
    assert_eq!(manager.next_timeout_check(5999), 100);
    assert_eq!(manager.next_timeout_check(1000), 5000);
    assert_eq!(manager.next_timeout_check(3000), 3000);
}

#[test]
fn test_response_close_suggestion_closes() {
    let mut conn = Connection::new();
    let done = conn.feed_bytes(b"GET / HTTP/1.1\r\nHost: x\r\n\r\n").unwrap();
    assert!(done);
    assert!(conn.should_keep_alive());
    let mut response = localhost::http::response::HttpResponse::ok();
    response.set_header("Connection", "close");
    conn.queue_response(&mut response);
    assert!(!conn.should_keep_alive());
    assert_eq!(response.get_header("Connection"), Some("close"));
    assert!(conn.advance_write(1 << 20));
    assert!(conn.finish_response());
}

#[test]
fn test_timeout_manager_one_record_per_fd() {
    let mut manager = TimeoutManager::new(TimeoutConfig::default());
    manager.add_connection(5, 0);
    manager.add_connection(5, 10);
    assert_eq!(manager.connection_count(), 1);
    let expired = manager.check_timeouts(1_000_000);
    assert_eq!(expired, vec![5]);
}
