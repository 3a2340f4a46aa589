use edgeserve::session::{
    session_id_from,
    csrf_allows, extract_csrf_token, generate_csrf_token, generate_session_id, hex_encode,
    validate_csrf_token, FileStore, MemoryStore, SameSite, Session, SessionConfig, SessionManager,
};

fn headers(pairs: &[(&str, &str)]) -> Vec<(String, String)> {
    pairs.iter().map(|(k, v)| (k.to_string(), v.to_string())).collect()
}

#[test]
fn test_memory_store() {
    let mut store = MemoryStore::new();
    let mut session = Session::new(1_000, 3600);
    session.set("user".to_string(), "\"john\"".to_string());
    let id = session.id.clone();
    store.save(session);
    let loaded = store.load(&id).unwrap();
    assert_eq!(loaded.id, id);
    assert_eq!(loaded.get("user").as_deref(), Some("\"john\""));
    store.delete(&id);
    assert!(store.load(&id).is_none());
}

#[test]
fn test_session_expiration() {
    let session = Session::with_tokens("abc".to_string(), "t".to_string(), 100, 0);
    assert!(!session.is_expired(99));
    assert!(session.is_expired(100));
}

#[test]
fn test_csrf_token_generation() {
    let session = Session::new(0, 3600);
    assert!(session.csrf_token.is_some());
    assert!(!session.csrf_token.unwrap().is_empty());
    assert_eq!(generate_csrf_token().len(), 44);
}

#[test]
fn session_ids_are_hex_digests() {
    let a = generate_session_id();
    let b = generate_session_id();
    assert_eq!(a.len(), 64);
    assert!(a.chars().all(|c| c.is_ascii_hexdigit() && !c.is_ascii_uppercase()));
    assert_ne!(a, b);
    assert_eq!(hex_encode(&vec![0x00, 0xab, 0x7f]), "00ab7f");
}

#[test]
fn create_then_load_round_trip() {
    let mut m = SessionManager::new(SessionConfig::default());
    let hs = headers(&[("User-Agent", "test-agent"), ("X-Real-IP", "10.0.0.1")]);
    let mut s = m.create_session(&hs, 1_000);
    s.set("k".to_string(), "1".to_string());
    m.logout(&mut s);
    let loaded = m.load_session(&s.id, &hs, 1_500).unwrap();
    assert_eq!(loaded.id, s.id);
    assert_eq!(loaded.data, s.data);
    assert_eq!(loaded.last_accessed, 1_500);
    assert_eq!(loaded.expires_at, 1_500 + 3600);
    assert_eq!(loaded.ip_address.as_deref(), Some("10.0.0.1"));
    let other_agent = headers(&[("User-Agent", "other")]);
    assert!(m.load_session(&s.id, &other_agent, 1_600).is_none());
    assert!(m.load_session(&s.id, &hs, 1_500 + 3600 + 1).is_none());
    assert!(m.load_session(&s.id, &hs, 1_600).is_none());
}

#[test]
fn destroy_then_load_finds_nothing() {
    let mut m = SessionManager::new(SessionConfig::default());
    let hs = headers(&[("User-Agent", "agent")]);
    let s = m.create_session(&hs, 0);
    assert!(m.load_session(&s.id, &hs, 1).is_some());
    m.destroy_session(&s.id);
    assert!(m.load_session(&s.id, &hs, 1).is_none());
}

#[test]
fn session_csrf_scenario() {
    let mut m = SessionManager::new(SessionConfig::default());
    let s = m.create_session(&headers(&[]), 0);
    assert!(csrf_allows("GET", &headers(&[]), &s));
    assert!(!csrf_allows("POST", &headers(&[]), &s));
    let token = s.csrf_token.clone().unwrap();
    assert!(csrf_allows("POST", &headers(&[("X-CSRF-Token", &token)]), &s));
    assert!(csrf_allows("DELETE", &headers(&[("x-xsrf-token", &token)]), &s));
    assert!(!csrf_allows("PUT", &headers(&[("X-CSRF-Token", "forged")]), &s));
    assert!(validate_csrf_token(&s, &token));
    assert_eq!(extract_csrf_token(&headers(&[("X-XSRF-Token", "v")])).as_deref(), Some("v"));
}

#[test]
fn cookie_and_file_paths() {
    let mut cfg = SessionConfig::default();
    cfg.cookie_domain = Some("example.com".to_string());
    cfg.cookie_same_site = SameSite::Unrestricted;
    let m = SessionManager::new(cfg);
    assert_eq!(
        m.create_cookie("abc"),
        "session_id=abc; Path=/; SameSite=None; Domain=example.com; Secure; HttpOnly; Max-Age=3600"
    );
    let fs = FileStore { base_path: "/var/sessions".to_string() };
    assert_eq!(fs.session_path("abcdef"), "/var/sessions/ab/abcdef.json");
    assert_eq!(fs.session_path("a"), "/var/sessions/00/a.json");
}

#[test]
fn login_caps_sessions_and_regenerates_id() {
    let mut cfg = SessionConfig::default();
    cfg.max_sessions_per_user = Some(2);
    let mut m = SessionManager::new(cfg);
    let hs = headers(&[("User-Agent", "agent")]);
    let mut first = m.create_session(&hs, 10);
    m.login_with_tokens(&mut first, "u1".to_string(), "id-a".to_string(), "csrf-a".to_string());
    assert_eq!(first.id, "id-a");
    assert_eq!(first.csrf_token.as_deref(), Some("csrf-a"));
    assert_eq!(first.user_id.as_deref(), Some("u1"));
    let mut second = m.create_session(&hs, 20);
    let second_old = second.id.clone();
    m.login_with_tokens(&mut second, "u1".to_string(), "id-b".to_string(), "csrf-b".to_string());
    assert!(m.load_session(&second_old, &hs, 21).is_none());
    assert!(m.load_session("id-a", &hs, 21).is_some());
    let mut third = m.create_session(&hs, 30);
    m.login_with_tokens(&mut third, "u1".to_string(), "id-c".to_string(), "csrf-c".to_string());
    assert!(m.load_session("id-a", &hs, 31).is_none());
    assert!(m.load_session("id-b", &hs, 31).is_some());
    assert!(m.load_session("id-c", &hs, 31).is_some());
    let mut fourth = m.create_session(&hs, 40);
    let before = fourth.id.clone();
    m.login(&mut fourth, "u2".to_string());
    assert_ne!(fourth.id, before);
    assert_eq!(fourth.id.len(), 64);
}

#[test]
fn session_id_from_cookie_header() {
    let m = SessionManager::new(SessionConfig::default());
    let h = headers(&[("Cookie", "theme=dark; session_id=abc123 ; other=x")]);
    assert_eq!(m.extract_session_id(&h).as_deref(), Some("abc123"));
    assert!(m.extract_session_id(&headers(&[("Cookie", "theme=dark")])).is_none());
    assert!(m.extract_session_id(&headers(&[])).is_none());
    assert_eq!(m.extract_session_id(&headers(&[("cookie", "session_id=a=b")])).as_deref(), Some("a=b"));
}

#[test]
fn binding_needs_the_header_and_time_never_goes_back() {
    let mut m = SessionManager::new(SessionConfig::default());
    let hs = headers(&[("User-Agent", "agent")]);
    let s = m.create_session(&hs, 1_000);
    assert!(m.load_session(&s.id, &headers(&[]), 1_100).is_none());
    let later = m.load_session(&s.id, &hs, 1_200).unwrap();
    assert_eq!(later.last_accessed, 1_200);
    let earlier = m.load_session(&s.id, &hs, 1_150).unwrap();
    assert_eq!(earlier.last_accessed, 1_200);
    assert_eq!(earlier.expires_at, 1_200 + 3600);
    assert!(m.load_session(&s.id, &hs, 1_200 + 3600).is_none());
}

#[test]
fn resolve_by_cookie_or_create() {
    let mut m = SessionManager::new(SessionConfig::default());
    let hs = headers(&[("User-Agent", "agent")]);
    let (fresh, created) = m.resolve_session_with_tokens(&hs, 10, "id-1".to_string(), "tok".to_string());
    assert!(created);
    assert_eq!(fresh.id, "id-1");
    assert_eq!(fresh.csrf_token.as_deref(), Some("tok"));
    let with_cookie = headers(&[("User-Agent", "agent"), ("Cookie", "session_id=id-1")]);
    let (again, created) = m.resolve_session_with_tokens(&with_cookie, 20, "id-2".to_string(), "x".to_string());
    assert!(!created);
    assert_eq!(again.id, "id-1");
    let stale = headers(&[("User-Agent", "agent"), ("Cookie", "session_id=unknown")]);
    let (other, created) = m.resolve_session(&stale, 30);
    assert!(created);
    assert_eq!(other.id.len(), 64);
    assert_eq!(other.csrf_token.unwrap().len(), 44);
}

#[test]
fn session_id_is_digest_of_inputs() {
    let a = session_id_from(&vec![1u8; 16], &vec![2u8; 16], 7);
    let b = session_id_from(&vec![1u8; 16], &vec![2u8; 16], 7);
    let c = session_id_from(&vec![1u8; 16], &vec![2u8; 16], 8);
    assert_eq!(a, b);
    assert_ne!(a, c);
    assert_eq!(a.len(), 64);
}
