use http_server::api_err::ApiErr;
use http_server::http_method::HttpMethod;
use http_server::mock_stream::MockTcpStream;
use http_server::server::declared_body_length;
use http_server::server::handle_connection;
use http_server::server::pool_threads;
use http_server::server::read_head;

#[test]
fn handle_message_without_body() {
    let bytes = b"GET / HTTP/1.1\r\nHost: localhost:8080\r\n\r\n";
    let mut stream = MockTcpStream {
        read_data: bytes.to_vec(),
        position: 0,
        write_data: vec![],
    };

    let request = handle_connection(&mut stream).unwrap();
    assert_eq!(request.method, HttpMethod::Get);
    assert_eq!(request.path, "/");
    assert_eq!(request.headers.len(), 1);
    assert_eq!(
        request.headers.get("Host"),
        Some(&"localhost:8080".to_string())
    );
    assert_eq!(request.body, "");
}

#[test]
fn handle_message_with_body() {
    let bytes = b"POST / HTTP/1.1\r\nHost: localhost:8080\r\nContent-Length: 5\r\nContent-Type: text/plain\r\n\r\nHello";
    let mut stream = MockTcpStream {
        read_data: bytes.to_vec(),
        position: 0,
        write_data: vec![],
    };

    let request = handle_connection(&mut stream).unwrap();
    assert_eq!(request.method, HttpMethod::Post);
    assert_eq!(request.path, "/");
    assert_eq!(request.headers.len(), 3);
    assert_eq!(
        request.headers.get("Host"),
        Some(&"localhost:8080".to_string())
    );
    assert_eq!(
        request.headers.get("Content-Length"),
        Some(&"5".to_string())
    );
    assert_eq!(
        request.headers.get("Content-Type"),
        Some(&"text/plain".to_string())
    );
    assert_eq!(request.body, "Hello");
}

#[test]
fn handle_message_read_up_to_content_length() {
    let bytes = b"POST / HTTP/1.1\r\nHost: localhost:8080\r\nContent-Length: 3\r\nContent-Type: text/plain\r\n\r\nHello";
    let mut stream = MockTcpStream {
        read_data: bytes.to_vec(),
        position: 0,
        write_data: vec![],
    };

    let request = handle_connection(&mut stream).unwrap();
    assert_eq!(request.method, HttpMethod::Post);
    assert_eq!(request.path, "/");
    assert_eq!(request.headers.len(), 3);
    assert_eq!(
        request.headers.get("Host"),
        Some(&"localhost:8080".to_string())
    );
    assert_eq!(
        request.headers.get("Content-Length"),
        Some(&"3".to_string())
    );
    assert_eq!(
        request.headers.get("Content-Type"),
        Some(&"text/plain".to_string())
    );
    assert_eq!(request.body, "Hel");
}

#[test]
fn handle_message_read_up_to_content_length_shorter_than_body() {
    let bytes = b"POST / HTTP/1.1\r\nHost: localhost:8080\r\nContent-Length: 3\r\nContent-Type: text/plain\r\n\r\nHello";
    let mut stream = MockTcpStream {
        read_data: bytes.to_vec(),
        position: 0,
        write_data: vec![],
    };

    let request = handle_connection(&mut stream).unwrap();
    assert_eq!(request.method, HttpMethod::Post);
    assert_eq!(request.path, "/");
    assert_eq!(request.headers.len(), 3);
    assert_eq!(
        request.headers.get("Host"),
        Some(&"localhost:8080".to_string())
    );
    assert_eq!(
        request.headers.get("Content-Length"),
        Some(&"3".to_string())
    );
    assert_eq!(
        request.headers.get("Content-Type"),
        Some(&"text/plain".to_string())
    );
    assert_eq!(request.body, "Hel");
}

#[test]
fn handle_message_leaves_extra_bytes_unread() {
    let bytes = b"POST / HTTP/1.1\r\nContent-Length: 3\r\n\r\nHello";
    let mut stream = MockTcpStream {
        read_data: bytes.to_vec(),
        position: 0,
        write_data: vec![],
    };

    let request = handle_connection(&mut stream).unwrap();
    assert_eq!(request.body, "Hel");
    assert_eq!(stream.position, bytes.len() - 2);
}

#[test]
fn handle_message_short_stream_is_stream_error() {
    let bytes = b"POST / HTTP/1.1\r\nContent-Length: 5\r\n\r\nHel";
    let mut stream = MockTcpStream {
        read_data: bytes.to_vec(),
        position: 0,
        write_data: vec![],
    };

    let result = handle_connection(&mut stream);
    assert!(matches!(result, Err(ApiErr::StreamError(_))));
}

#[test]
fn handle_message_unknown_verb_is_invalid_method() {
    let bytes = b"FOO / HTTP/1.1\r\n\r\n";
    let mut stream = MockTcpStream {
        read_data: bytes.to_vec(),
        position: 0,
        write_data: vec![],
    };

    let result = handle_connection(&mut stream);
    assert!(matches!(result, Err(ApiErr::InvalidMethod)));
}

#[test]
fn handle_message_one_token_start_line_is_invalid_request() {
    let bytes = b"GET\r\n\r\n";
    let mut stream = MockTcpStream {
        read_data: bytes.to_vec(),
        position: 0,
        write_data: vec![],
    };

    let result = handle_connection(&mut stream);
    assert!(matches!(result, Err(ApiErr::InvalidRequest)));
}

#[test]
fn handle_message_bad_content_length_is_invalid_request() {
    let bytes = b"POST / HTTP/1.1\r\nContent-Length: abc\r\n\r\n";
    let mut stream = MockTcpStream {
        read_data: bytes.to_vec(),
        position: 0,
        write_data: vec![],
    };

    let result = handle_connection(&mut stream);
    assert!(matches!(result, Err(ApiErr::InvalidRequest)));
}

#[test]
fn handle_message_missing_terminator_is_stream_error() {
    let bytes = b"GET / HTTP/1.1\r\nHost: x";
    let mut stream = MockTcpStream {
        read_data: bytes.to_vec(),
        position: 0,
        write_data: vec![],
    };

    let result = handle_connection(&mut stream);
    assert!(matches!(result, Err(ApiErr::StreamError(_))));
    assert_eq!(stream.position, bytes.len());
}

#[test]
fn handle_message_duplicate_header_last_wins() {
    let bytes = b"GET / HTTP/1.1\r\nX-Tag: 1\r\nX-Tag: 2\r\n\r\n";
    let mut stream = MockTcpStream {
        read_data: bytes.to_vec(),
        position: 0,
        write_data: vec![],
    };

    let request = handle_connection(&mut stream).unwrap();
    assert_eq!(request.headers.len(), 1);
    assert_eq!(request.headers.get("X-Tag"), Some(&"2".to_string()));
}

#[test]
fn handle_message_invalid_utf8_body_is_replaced() {
    let mut bytes = b"POST / HTTP/1.1\r\nContent-Length: 1\r\n\r\n".to_vec();
    bytes.push(0xFF);
    let mut stream = MockTcpStream {
        read_data: bytes,
        position: 0,
        write_data: vec![],
    };

    let request = handle_connection(&mut stream).unwrap();
    assert_eq!(request.body, "\u{FFFD}");
}

#[test]
fn read_head_trims_terminator() {
    let bytes = b"GET / HTTP/1.1\r\nHost: x\r\n\r\nEXTRA";
    let mut stream = MockTcpStream {
        read_data: bytes.to_vec(),
        position: 0,
        write_data: vec![],
    };

    let head = read_head(&mut stream).unwrap();
    assert_eq!(head, b"GET / HTTP/1.1\r\nHost: x".to_vec());
    assert_eq!(stream.position, bytes.len() - 5);
}

#[test]
fn pool_threads_is_five_per_route_capped() {
    assert_eq!(pool_threads(0), 0);
    assert_eq!(pool_threads(2), 10);
    assert_eq!(pool_threads(8), 40);
    assert_eq!(pool_threads(100), 40);
}

#[test]
fn from_string_accepts_only_known_verbs() {
    assert_eq!(HttpMethod::from_string("GET").unwrap(), HttpMethod::Get);
    assert_eq!(HttpMethod::from_string("POST").unwrap(), HttpMethod::Post);
    assert_eq!(HttpMethod::from_string("PUT").unwrap(), HttpMethod::Put);
    assert_eq!(HttpMethod::from_string("DELETE").unwrap(), HttpMethod::Delete);
    assert_eq!(HttpMethod::from_string("PATCH").unwrap(), HttpMethod::Patch);
    assert!(matches!(
        HttpMethod::from_string("FOO"),
        Err(ApiErr::InvalidMethod)
    ));
    assert!(matches!(
        HttpMethod::from_string("get"),
        Err(ApiErr::InvalidMethod)
    ));
}

#[test]
fn declared_body_length_reads_content_length() {
    assert_eq!(
        declared_body_length(b"POST / HTTP/1.1\r\nContent-Length: 7\r\n\r\n").unwrap(),
        7
    );
    assert_eq!(
        declared_body_length(b"GET / HTTP/1.1\r\nHost: x\r\n\r\n").unwrap(),
        0
    );
    assert!(matches!(
        declared_body_length(b"POST / HTTP/1.1\r\nContent-Length: -1\r\n\r\n"),
        Err(ApiErr::InvalidRequest)
    ));
}

#[test]
fn mock_stream_reads_and_writes() {
    let mut stream = MockTcpStream {
        read_data: b"abcdef".to_vec(),
        position: 0,
        write_data: vec![],
    };
    assert_eq!(stream.read(4), b"abcd".to_vec());
    assert_eq!(stream.read(4), b"ef".to_vec());
    assert_eq!(stream.read(4), Vec::<u8>::new());

    let mut stream = MockTcpStream {
        read_data: b"abc".to_vec(),
        position: 0,
        write_data: vec![],
    };
    assert!(matches!(stream.read_exact(4), Err(ApiErr::StreamError(_))));
    assert_eq!(stream.position, 0);
    assert_eq!(stream.read_exact(2).unwrap(), b"ab".to_vec());
    assert_eq!(stream.position, 2);

    assert_eq!(stream.write(b"xy"), 2);
    stream.flush();
    assert_eq!(stream.write_data, b"xy".to_vec());
}
