use edgeserve::proxy::{
    backend_target, upstream_request,
    connect_target, upstream_accepted, upstream_connect_request,
    credentials_match, is_websocket_request, validate_proxy_auth, AuthType, HeaderConfig,
    ProxyAuth, ProxyCommand, ProxyFamily, ProxyProtocol, ProxyProtocolError, RateCounter,
};

fn headers() -> HeaderConfig {
    HeaderConfig {
        preserve_host: false,
        add_forwarded_headers: true,
        add_real_ip: true,
        add_proxy_headers: true,
        remove_headers: vec!["Connection".to_string(), "Upgrade".to_string()],
        add_headers: vec![("X-Extra".to_string(), "1".to_string())],
        via_header: Some("miwidothttp/1.0".to_string()),
    }
}

fn get<'a>(hs: &'a [(String, String)], name: &str) -> Option<&'a str> {
    hs.iter().find(|(n, _)| n.eq_ignore_ascii_case(name)).map(|(_, v)| v.as_str())
}

#[test]
fn upstream_headers_are_set() {
    let mut hs = vec![
        ("connection".to_string(), "keep-alive".to_string()),
        ("x-forwarded-for".to_string(), "1.1.1.1".to_string()),
        ("accept".to_string(), "*/*".to_string()),
    ];
    headers().add_proxy_headers(&mut hs, "10.0.0.9", "example.com");
    assert_eq!(get(&hs, "Forwarded"), Some("for=10.0.0.9;host=example.com;proto=http"));
    assert_eq!(get(&hs, "X-Real-IP"), Some("10.0.0.9"));
    assert_eq!(get(&hs, "X-Forwarded-For"), Some("1.1.1.1, 10.0.0.9"));
    assert_eq!(get(&hs, "X-Forwarded-Proto"), Some("http"));
    assert_eq!(get(&hs, "Via"), Some("miwidothttp/1.0"));
    assert_eq!(get(&hs, "X-Extra"), Some("1"));
    assert_eq!(get(&hs, "Connection"), None);
    assert_eq!(get(&hs, "accept"), Some("*/*"));
    assert_eq!(hs.iter().filter(|(n, _)| n.eq_ignore_ascii_case("x-forwarded-for")).count(), 1);
}

#[test]
fn websocket_detection() {
    assert!(is_websocket_request(&vec![("Upgrade".to_string(), "WebSocket".to_string())]));
    assert!(!is_websocket_request(&vec![("Upgrade".to_string(), "h2c".to_string())]));
    assert!(!is_websocket_request(&Vec::new()));
}

#[test]
fn basic_proxy_credentials() {
    let auth = ProxyAuth {
        auth_type: AuthType::Basic,
        username: "alice".to_string(),
        password: "secret".to_string(),
        realm: None,
    };
    // "alice:secret" in base64
    assert!(validate_proxy_auth("Basic YWxpY2U6c2VjcmV0", &auth));
    assert!(!validate_proxy_auth("Basic YWxpY2U6d3Jvbmc=", &auth));
    assert!(!validate_proxy_auth("Bearer YWxpY2U6c2VjcmV0", &auth));
    assert!(!validate_proxy_auth("Basic !!!", &auth));
    assert!(credentials_match(&Some(b"alice:secret".to_vec()), &auth));
    assert!(!credentials_match(&None, &auth));
    let digest = ProxyAuth { auth_type: AuthType::Digest, ..auth };
    assert!(!credentials_match(&Some(b"alice:secret".to_vec()), &digest));
}

#[test]
fn per_client_rate_limit() {
    let mut rc = RateCounter::new();
    assert!(rc.check_rate_limit("1.2.3.4", Some(2)));
    assert!(rc.check_rate_limit("1.2.3.4", Some(2)));
    assert!(!rc.check_rate_limit("1.2.3.4", Some(2)));
    assert!(rc.check_rate_limit("5.6.7.8", Some(2)));
    assert!(rc.check_rate_limit("1.2.3.4", None));
}

#[test]
fn proxy_protocol_v1() {
    let p = ProxyProtocol::parse(&b"PROXY TCP4 192.168.1.1 192.168.1.2 12345 80\r\n".to_vec())
        .unwrap()
        .unwrap();
    assert_eq!(p.version, 1);
    assert_eq!(p.family, ProxyFamily::Inet);
    assert_eq!(p.src_ip, "192.168.1.1");
    assert_eq!(p.dest_ip, "192.168.1.2");
    assert_eq!((p.src_port, p.dest_port), (12345, 80));
    assert_eq!(
        ProxyProtocol::parse(&b"PROXY TCP4 1.1.1.1 2.2.2.2 x 80\r\n".to_vec()).unwrap_err(),
        ProxyProtocolError::BadPort
    );
    assert!(ProxyProtocol::parse(&b"PROXY UNKNOWN\r\n".to_vec()).unwrap().is_none());
    assert!(ProxyProtocol::parse(&b"GET / HTTP/1.1\r\n".to_vec()).unwrap().is_none());
}

#[test]
fn proxy_protocol_v2() {
    let mut buf = vec![0x0D, 0x0A, 0x0D, 0x0A, 0x00, 0x0D, 0x0A, 0x51, 0x55, 0x49, 0x54, 0x0A];
    buf.extend_from_slice(&[0x21, 0x11, 0x00, 0x0C]);
    buf.extend_from_slice(&[10, 0, 0, 1, 10, 0, 0, 2, 0x30, 0x39, 0x00, 0x50]);
    let p = ProxyProtocol::parse(&buf).unwrap().unwrap();
    assert_eq!(p.version, 2);
    assert_eq!(p.command, ProxyCommand::Proxy);
    assert_eq!(p.src_ip, "10.0.0.1");
    assert_eq!(p.dest_ip, "10.0.0.2");
    assert_eq!((p.src_port, p.dest_port), (12345, 80));
    buf[13] = 0x21;
    assert!(ProxyProtocol::parse(&buf).unwrap().is_none());
}

#[test]
fn upstream_connect_requests() {
    assert_eq!(connect_target("example.com", None), "example.com:443");
    assert_eq!(connect_target("example.com", Some(8443)), "example.com:8443");
    assert_eq!(
        upstream_connect_request("example.com:443", &None),
        "CONNECT example.com:443 HTTP/1.1\r\nHost: example.com:443\r\n\r\n"
    );
    let auth = Some(ProxyAuth {
        auth_type: AuthType::Basic,
        username: "alice".to_string(),
        password: "secret".to_string(),
        realm: None,
    });
    assert_eq!(
        upstream_connect_request("h:1", &auth),
        "CONNECT h:1 HTTP/1.1\r\nHost: h:1\r\nProxy-Authorization: Basic YWxpY2U6c2VjcmV0\r\n\r\n"
    );
    assert!(upstream_accepted(&b"HTTP/1.1 200 Connection Established\r\n\r\n".to_vec()));
    assert!(!upstream_accepted(&b"HTTP/1.1 407 Proxy Authentication Required\r\n\r\n".to_vec()));
}

#[test]
fn forward_proxy_authentication() {
    let mut cfg = edgeserve::proxy::ProxyConfig::default();
    assert!(cfg.authenticate_request(&Vec::new()));
    cfg.authentication = Some(ProxyAuth {
        auth_type: AuthType::Basic,
        username: "alice".to_string(),
        password: "secret".to_string(),
        realm: None,
    });
    assert!(!cfg.authenticate_request(&Vec::new()));
    let ok = vec![("Proxy-Authorization".to_string(), "Basic YWxpY2U6c2VjcmV0".to_string())];
    assert!(cfg.authenticate_request(&ok));
    assert_eq!(cfg.headers.via_header.as_deref(), Some("miwidothttp/1.0"));
}

#[test]
fn reverse_proxy_request_and_target() {
    let hs = vec![
        ("Host".to_string(), "example.com".to_string()),
        ("Content-Length".to_string(), "3".to_string()),
        ("Connection".to_string(), "keep-alive".to_string()),
        ("Accept".to_string(), "*/*".to_string()),
    ];
    let (url, out) = upstream_request("http://10.0.0.1:3000", "/a?b=1", &hs, &vec!["connection".to_string()]);
    assert_eq!(url, "http://10.0.0.1:3000/a?b=1");
    assert_eq!(out, vec![("Accept".to_string(), "*/*".to_string())]);
    assert_eq!(backend_target(&Some("http://t".to_string()), Some(1)).as_deref(), Some("http://t"));
    assert_eq!(backend_target(&None, Some(3000)).as_deref(), Some("http://localhost:3000"));
    assert!(backend_target(&None, None).is_none());
    assert!(!upstream_accepted(&b"HTTP/1.1 407 Denied 200\r\n\r\n".to_vec()));
    assert!(!upstream_accepted(&b"xx 200 OK\r\n".to_vec()));
}
