use edgeserve::vhost::{AccessControl, Redirect, VHostManager, VirtualHost};

fn host(domains: &[&str], priority: i32) -> VirtualHost {
    VirtualHost {
        domains: domains.iter().map(|d| d.to_string()).collect(),
        priority,
        ssl: None,
        root: None,
        backend: None,
        logging: None,
        limits: None,
        headers: None,
        error_pages: None,
        redirects: None,
        rewrites: None,
        access_control: None,
    }
}

#[test]
fn test_exact_domain_match() {
    let manager = VHostManager::new(vec![host(&["example.com"], 100)]).unwrap();
    assert!(manager.get_vhost("example.com").is_some());
    assert!(manager.get_vhost("other.com").is_none());
}

#[test]
fn test_wildcard_domain_match() {
    let manager = VHostManager::new(vec![host(&["*.example.com"], 100)]).unwrap();
    assert!(manager.get_vhost("sub.example.com").is_some());
    assert!(manager.get_vhost("another.example.com").is_some());
    assert!(manager.get_vhost("example.com").is_none());
}

#[test]
fn test_priority_ordering() {
    let manager =
        VHostManager::new(vec![host(&["*.example.com"], 50), host(&["specific.example.com"], 100)])
            .unwrap();
    assert!(manager.get_vhost("specific.example.com").is_some());
    assert_eq!(manager.get_vhost("specific.example.com").unwrap().priority, 100);
}

#[test]
fn exact_beats_higher_priority_wildcard() {
    let manager =
        VHostManager::new(vec![host(&["*.example.com"], 500), host(&["a.example.com"], 1)]).unwrap();
    assert_eq!(manager.get_vhost("a.example.com").unwrap().priority, 1);
    assert_eq!(manager.get_vhost("b.example.com").unwrap().priority, 500);
}

#[test]
fn highest_priority_wildcard_wins_then_default() {
    let manager = VHostManager::new(vec![
        host(&["*.example.com"], 10),
        host(&["_"], 0),
        host(&["*.example.com"], 20),
    ])
    .unwrap();
    assert_eq!(manager.get_vhost("x.example.com").unwrap().priority, 20);
    assert_eq!(manager.get_vhost("x.y.example.com").unwrap().priority, 0);
    assert_eq!(manager.get_vhost("elsewhere.org").unwrap().priority, 0);
    assert_eq!(manager.get_vhost_count(), 3);
    assert_eq!(manager.list_vhosts(), vec!["*.example.com", "_", "*.example.com"]);
}

#[test]
fn access_control_deny_then_allow() {
    let mut h = host(&["example.com"], 1);
    h.access_control = Some(AccessControl {
        allow: Some(vec!["10.0.0.0/8".to_string(), "192.168.*.*".to_string()]),
        deny: Some(vec!["10.0.0.5".to_string()]),
        auth: None,
    });
    let manager = VHostManager::new(vec![h, host(&["open.com"], 1)]).unwrap();
    assert!(!manager.check_access("example.com", "10.0.0.5"));
    assert!(manager.check_access("example.com", "10.0.0.7"));
    assert!(manager.check_access("example.com", "192.168.1.20"));
    assert!(!manager.check_access("example.com", "172.16.0.1"));
    assert!(manager.check_access("open.com", "172.16.0.1"));
    assert!(!manager.check_access("unknown.com", "172.16.0.1"));
}

#[test]
fn redirects_by_prefix() {
    let mut h = host(&["example.com"], 1);
    h.redirects = Some(vec![Redirect {
        from: "/old".to_string(),
        to: "/new".to_string(),
        status: 301,
        permanent: true,
    }]);
    let manager = VHostManager::new(vec![h]).unwrap();
    let r = manager.find_redirect("example.com", "/old/page").unwrap();
    assert_eq!(r.to, "/new");
    assert!(manager.find_redirect("example.com", "/other").is_none());
}
