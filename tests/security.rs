use edgeserve::dispatcher::{admit_request, breaker_failure, route, Route};
use edgeserve::rewrite::RewriteAction;
use edgeserve::error::{get_user_friendly_message, ErrorKind};
use edgeserve::security::{check_request_size, RateLimiter, SecurityConfig};
use edgeserve::vhost::{AccessControl, VHostManager, VirtualHost};

fn hs(pairs: &[(&str, &str)]) -> Vec<(String, String)> {
    pairs.iter().map(|(k, v)| (k.to_string(), v.to_string())).collect()
}

fn host(domain: &str, deny: Option<&str>) -> VirtualHost {
    VirtualHost {
        domains: vec![domain.to_string()],
        priority: 0,
        ssl: None,
        root: None,
        backend: None,
        logging: None,
        limits: None,
        headers: None,
        error_pages: None,
        redirects: None,
        rewrites: None,
        access_control: deny.map(|d| AccessControl { allow: None, deny: Some(vec![d.to_string()]), auth: None }),
    }
}

#[test]
fn security_headers_added() {
    let mut h = hs(&[("x-frame-options", "SAMEORIGIN")]);
    let mut cfg = SecurityConfig::default();
    cfg.hsts_max_age = 600;
    cfg.add_security_headers(&mut h);
    let get = |n: &str| h.iter().filter(|(k, _)| k.eq_ignore_ascii_case(n)).map(|(_, v)| v.clone()).collect::<Vec<_>>();
    assert_eq!(get("X-Frame-Options"), vec!["DENY"]);
    assert_eq!(get("X-Content-Type-Options"), vec!["nosniff"]);
    assert_eq!(get("Referrer-Policy"), vec!["strict-origin-when-cross-origin"]);
    assert_eq!(get("Permissions-Policy"), vec!["geolocation=(), microphone=(), camera=()"]);
    assert_eq!(get("Strict-Transport-Security"), vec!["max-age=600; includeSubDomains; preload"]);
    assert_eq!(get("Content-Security-Policy").len(), 1);
}

#[test]
fn sliding_window_rate_limit() {
    let mut cfg = SecurityConfig::default();
    cfg.rate_limit_requests = 2;
    cfg.rate_limit_window_ms = 1000;
    let mut rl = RateLimiter::new(cfg);
    assert!(rl.check_rate_limit("1.1.1.1", 0));
    assert!(rl.check_rate_limit("1.1.1.1", 500));
    assert!(!rl.check_rate_limit("1.1.1.1", 900));
    assert!(rl.check_rate_limit("2.2.2.2", 900));
    assert!(rl.check_rate_limit("1.1.1.1", 1000));
}

#[test]
fn size_ceilings() {
    let mut cfg = SecurityConfig::default();
    cfg.max_header_size = 20;
    cfg.max_body_size = 100;
    assert_eq!(check_request_size(&cfg, &hs(&[("content-length", "100")])), None);
    assert_eq!(check_request_size(&cfg, &hs(&[("content-length", "101")])), Some(413));
    assert_eq!(check_request_size(&cfg, &hs(&[("x-long-header-name", "value-that-is-long")])), Some(431));
    assert_eq!(check_request_size(&cfg, &hs(&[("content-length", "abc")])), None);
}

#[test]
fn error_statuses_and_messages() {
    assert_eq!(ErrorKind::NoVHost.status(), 404);
    assert_eq!(ErrorKind::NotAuthorized { proxy: true }.status(), 407);
    assert_eq!(ErrorKind::NotAuthorized { proxy: false }.status(), 401);
    assert_eq!(ErrorKind::BreakerOpen.status(), 503);
    assert_eq!(ErrorKind::UpstreamTimeout.status(), 504);
    assert_eq!(ErrorKind::HeadersTooLarge.status(), 431);
    assert_eq!(get_user_friendly_message(404), "The page you're looking for doesn't exist.");
    assert_eq!(get_user_friendly_message(418), "An error occurred (418)");
}

#[test]
fn admission_stages_in_order() {
    let registry = VHostManager::new(vec![host("example.com", Some("9.9.9.9"))]).unwrap();
    let mut cfg = SecurityConfig::default();
    cfg.rate_limit_requests = 1;
    let mut rl = RateLimiter::new(cfg.clone());
    assert_eq!(admit_request(&registry, &mut rl, &cfg, "nope.org", "1.1.1.1", &hs(&[]), 0), Err(ErrorKind::NoVHost));
    assert_eq!(admit_request(&registry, &mut rl, &cfg, "example.com", "9.9.9.9", &hs(&[]), 0), Err(ErrorKind::AccessDenied));
    assert_eq!(admit_request(&registry, &mut rl, &cfg, "example.com", "1.1.1.1", &hs(&[]), 0), Ok(()));
    assert_eq!(
        admit_request(&registry, &mut rl, &cfg, "example.com", "1.1.1.1", &hs(&[]), 10),
        Err(ErrorKind::RateLimited { retry_after_secs: 60 })
    );
    let big = hs(&[("content-length", "999999999999")]);
    assert_eq!(admit_request(&registry, &mut rl, &cfg, "example.com", "3.3.3.3", &big, 0), Err(ErrorKind::RequestTooLarge));
}

#[test]
fn adapter_routing_and_breaker_failures() {
    let r = route(&Some(RewriteAction::Redirect { location: "/n".to_string(), permanent: false }), "/o", &None, true);
    assert!(matches!(r, Route::Respond { status: 302, location: Some(ref l) } if l == "/n"));
    assert!(matches!(route(&Some(RewriteAction::Forbidden), "/", &None, true), Route::Respond { status: 403, .. }));
    assert!(matches!(route(&Some(RewriteAction::Gone), "/", &None, true), Route::Respond { status: 410, .. }));
    let up = route(&None, "/api", &Some("http://10.0.0.1:3000".to_string()), true);
    assert!(matches!(up, Route::Upstream { ref url } if url == "http://10.0.0.1:3000"));
    assert!(matches!(route(&None, "/index.php", &None, true), Route::FastCgi));
    assert!(matches!(route(&None, "/style.css", &None, true), Route::Static));
    assert!(matches!(route(&None, "/style.css", &None, false), Route::Respond { status: 404, .. }));
    assert!(breaker_failure(&ErrorKind::UpstreamTimeout));
    assert!(breaker_failure(&ErrorKind::UpstreamUnavailable));
    assert!(!breaker_failure(&ErrorKind::NotFound));
}
