use edgeserve::fastcgi::{
    encode_begin_request, encode_length, encode_params, encode_stream, parse_http_response,
    parse_record_header, FastCGIConfig, FastCGIProxy, FastCgiError, PathProbe, ResponseCollector,
    FCGI_END_REQUEST, FCGI_PARAMS, FCGI_STDIN, FCGI_STDOUT,
};

fn proxy(root: &str) -> FastCGIProxy {
    let mut config = FastCGIConfig::default();
    config.document_root = root.to_string();
    FastCGIProxy::new(config)
}

#[test]
fn length_boundary_127_and_128() {
    assert_eq!(encode_length(127), vec![127u8]);
    assert_eq!(encode_length(128), vec![0x80u8, 0, 0, 128]);
    assert_eq!(encode_length(0x01020304), vec![0x81u8, 0x02, 0x03, 0x04]);
}

#[test]
fn record_is_padded_to_eight() {
    let p = proxy("/srv");
    let r = p.build_packet(FCGI_STDOUT, 0x0102, b"hello");
    assert_eq!(r, vec![1, 6, 1, 2, 0, 5, 3, 0, b'h', b'e', b'l', b'l', b'o', 0, 0, 0]);
    let empty = p.build_packet(FCGI_PARAMS, 1, &[]);
    assert_eq!(empty, vec![1, 4, 0, 1, 0, 0, 0, 0]);
}

#[test]
fn begin_request_record() {
    assert_eq!(
        encode_begin_request(1),
        vec![1, 1, 0, 1, 0, 8, 0, 0, 0, 1, 0, 0, 0, 0, 0, 0]
    );
}

#[test]
fn params_encoding() {
    let params = vec![("A".to_string(), "xyz".to_string())];
    assert_eq!(encode_params(&params), vec![1, 3, b'A', b'x', b'y', b'z']);
    let long = "v".repeat(200);
    let enc = encode_params(&vec![("K".to_string(), long.clone())]);
    assert_eq!(&enc[..6], &[1, 0x80, 0, 0, 200, b'K']);
    assert_eq!(enc.len(), 1 + 4 + 1 + 200);
}

#[test]
fn fastcgi_hello_stdin_and_params() {
    let p = proxy("/srv");
    let probes = vec![PathProbe { path: "/srv/hi.php".to_string(), exists: true, is_dir: false }];
    let script = p.resolve_script_path(&"/hi.php".to_string(), &probes).unwrap();
    assert_eq!(script, "/srv/hi.php");
    let headers = vec![
        ("host".to_string(), "example.com".to_string()),
        ("content-length".to_string(), "10".to_string()),
        ("content-type".to_string(), "application/x-www-form-urlencoded".to_string()),
    ];
    let params = p.build_params(&"POST".to_string(), &"/hi.php".to_string(), &headers, &script);
    let get = |k: &str| params.iter().find(|(n, _)| n == k).map(|(_, v)| v.clone());
    assert_eq!(get("SCRIPT_FILENAME").as_deref(), Some("/srv/hi.php"));
    assert_eq!(get("REQUEST_METHOD").as_deref(), Some("POST"));
    assert_eq!(get("CONTENT_LENGTH").as_deref(), Some("10"));
    assert_eq!(get("SERVER_NAME").as_deref(), Some("example.com"));
    assert_eq!(get("HTTP_CONTENT_TYPE").as_deref(), Some("application/x-www-form-urlencoded"));
    assert_eq!(get("QUERY_STRING").as_deref(), Some(""));
    assert_eq!(get("DOCUMENT_ROOT").as_deref(), Some("/srv"));
    let stdin = encode_stream(FCGI_STDIN, 1, &b"name=World".to_vec());
    let mut expected = vec![1, 5, 0, 1, 0, 10, 6, 0];
    expected.extend_from_slice(b"name=World");
    expected.extend_from_slice(&[0; 6]);
    expected.extend_from_slice(&[1, 5, 0, 1, 0, 0, 0, 0]);
    assert_eq!(stdin, expected);
}

#[test]
fn large_stream_is_chunked() {
    let data = vec![7u8; 70000];
    let out = encode_stream(FCGI_STDIN, 1, &data);
    assert_eq!(out.len(), 8 + 65535 + 1 + 8 + (70000 - 65535) + 7 + 8);
    assert_eq!(&out[..8], &[1, 5, 0, 1, 0xff, 0xff, 1, 0]);
}

#[test]
fn reply_status_headers_and_body() {
    let r = parse_http_response(&b"Status: 404 Not Found\r\nContent-Type: text/html\r\n\r\nmissing".to_vec())
        .unwrap();
    assert_eq!(r.status, 404);
    assert_eq!(r.headers, vec![(b"Content-Type".to_vec(), b"text/html".to_vec())]);
    assert_eq!(r.body, b"missing".to_vec());
    let r = parse_http_response(&b"X-A: 1\r\n\r\nhello".to_vec()).unwrap();
    assert_eq!(r.status, 200);
    let r = parse_http_response(&b"Status: 42\r\n\r\n".to_vec()).unwrap();
    assert_eq!(r.status, 200);
    assert!(matches!(
        parse_http_response(&b"no separator".to_vec()),
        Err(FastCgiError::InvalidResponse)
    ));
}

#[test]
fn collector_gathers_stdout_until_end() {
    let mut c = ResponseCollector::new(1);
    let h = parse_record_header(&[1, FCGI_STDOUT, 0, 1, 0, 3, 5, 0]);
    assert_eq!(h.content_length, 3);
    c.accept(&h, b"abc").unwrap();
    let other = parse_record_header(&[1, FCGI_STDOUT, 0, 2, 0, 1, 0, 0]);
    c.accept(&other, b"z").unwrap();
    let end = parse_record_header(&[1, FCGI_END_REQUEST, 0, 1, 0, 8, 0, 0]);
    c.accept(&end, &[0; 8]).unwrap();
    assert!(c.done);
    assert_eq!(c.stdout, b"abc".to_vec());
    let bad = parse_record_header(&[2, FCGI_STDOUT, 0, 1, 0, 0, 0, 0]);
    assert_eq!(c.accept(&bad, &[]), Err(FastCgiError::InvalidVersion));
}

#[test]
fn script_resolution_rules() {
    let p = proxy("/srv");
    let dir = vec![
        PathProbe { path: "/srv/app".to_string(), exists: true, is_dir: true },
        PathProbe { path: "/srv/app/index.php".to_string(), exists: true, is_dir: false },
    ];
    assert_eq!(p.resolve_script_path(&"/app".to_string(), &dir).unwrap(), "/srv/app/index.php");
    let plain = vec![PathProbe { path: "/srv/info.php".to_string(), exists: true, is_dir: false }];
    assert_eq!(p.resolve_script_path(&"/info".to_string(), &plain).unwrap(), "/srv/info.php");
    assert_eq!(p.resolve_script_path(&"/style.css".to_string(), &plain), Err(FastCgiError::NotPhp));
    assert_eq!(p.resolve_script_path(&"/gone.php".to_string(), &plain), Err(FastCgiError::ScriptNotFound));
    let paths = p.script_probe_paths(&"/app".to_string());
    assert_eq!(paths, vec!["/srv/app", "/srv/app/index.php", "/srv/app/index.html", "/srv/app.php"]);
}

#[test]
fn connect_address_choice() {
    let p = proxy("/srv");
    assert_eq!(p.connect_address().unwrap(), "127.0.0.1:9000");
    let mut cfg = FastCGIConfig::default();
    cfg.socket_path = None;
    assert_eq!(FastCGIProxy::new(cfg.clone()).connect_address(), Err(FastCgiError::NoConnection));
    cfg.tcp_addr = Some("10.0.0.1:9001".to_string());
    assert_eq!(FastCGIProxy::new(cfg).connect_address().unwrap(), "10.0.0.1:9001");
}
