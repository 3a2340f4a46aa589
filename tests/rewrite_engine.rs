use edgeserve::rewrite_engine::{
    ConditionFlag, RewriteCondition, RewriteConfig, RewriteEngine, RewriteFlag, RewriteResult,
    RewriteRule,
};

fn rule(pattern: &str, replacement: &str, flags: Vec<RewriteFlag>) -> RewriteRule {
    RewriteRule { pattern: pattern.to_string(), replacement: replacement.to_string(), flags }
}

#[test]
fn rewrite_engine_test_simple_rewrite() {
    let mut config = RewriteConfig::new();
    config.rules.push(rule("^/old/(.*)$", "/new/$1", vec![RewriteFlag::L]));
    let engine = RewriteEngine::new(config).unwrap();
    let result = engine.process_url("/old/page.html", None, &Vec::new());
    match result {
        RewriteResult::Rewrite { url } => assert_eq!(url, "/new/page.html"),
        _ => panic!("Expected rewrite result"),
    }
}

#[test]
fn test_redirect() {
    let mut config = RewriteConfig::new();
    config.rules.push(rule("^/temp$", "/permanent", vec![RewriteFlag::R301]));
    let engine = RewriteEngine::new(config).unwrap();
    let result = engine.process_url("/temp", None, &Vec::new());
    match result {
        RewriteResult::Redirect { url, permanent } => {
            assert_eq!(url, "/permanent");
            assert!(permanent);
        }
        _ => panic!("Expected redirect result"),
    }
}

#[test]
fn no_rules_no_match() {
    let engine = RewriteEngine::new(RewriteConfig::new()).unwrap();
    assert!(matches!(engine.process_url("/x", None, &Vec::new()), RewriteResult::NoMatch));
}

#[test]
fn internal_rewrite_loop_is_bounded() {
    let mut config = RewriteConfig::new();
    config.rules.push(rule("^(.*)$", "$1x", vec![]));
    let engine = RewriteEngine::new(config).unwrap();
    match engine.process_url("/a", None, &Vec::new()) {
        RewriteResult::Rewrite { url } => assert_eq!(url, format!("/a{}", "x".repeat(32))),
        _ => panic!("expected a rewrite"),
    }
}

#[test]
fn query_string_append_and_get_url() {
    let mut config = RewriteConfig::new();
    config.rules.push(rule("^/s$", "/search?x=1", vec![RewriteFlag::QSA, RewriteFlag::R302]));
    let engine = RewriteEngine::new(config).unwrap();
    let r = engine.process_url("/s", Some("q=rust"), &Vec::new());
    assert_eq!(r.get_url(), "/search?x=1&q=rust");
    assert!(matches!(r, RewriteResult::Redirect { permanent: false, .. }));
    assert_eq!(RewriteResult::Forbidden.get_url(), "");
}

#[test]
fn header_condition_redirects_to_https() {
    let config = RewriteConfig {
        rules: vec![rule("^(.*)$", "https://%{HTTP:HOST}$1", vec![RewriteFlag::R301, RewriteFlag::L])],
        conditions: vec![RewriteCondition {
            test_string: "%{HTTP:X-FORWARDED-PROTO}".to_string(),
            pattern: "^http$".to_string(),
            flags: vec![],
        }],
    };
    let engine = RewriteEngine::new(config).unwrap();
    let headers = vec![
        ("x-forwarded-proto".to_string(), "http".to_string()),
        ("host".to_string(), "example.com".to_string()),
    ];
    match engine.process_url("/p", None, &headers) {
        RewriteResult::Redirect { url, permanent } => {
            assert_eq!(url, "https://%{HTTP:HOST}/p");
            assert!(permanent);
        }
        _ => panic!("expected a redirect"),
    }
    let headers = vec![("x-forwarded-proto".to_string(), "https".to_string())];
    assert!(matches!(engine.process_url("/p", None, &headers), RewriteResult::NoMatch));
    let mut config = RewriteConfig::new();
    config.add_force_https();
    assert_eq!(config.conditions[0].test_string, "%{HTTP:X-Forwarded-Proto}");
    assert_eq!(config.rules[0].replacement, "https://%{HTTP:Host}$1");
}

#[test]
fn env_variables_in_conditions() {
    let config = RewriteConfig {
        rules: vec![rule("^/(.*)$", "/maint/$1", vec![RewriteFlag::L])],
        conditions: vec![RewriteCondition {
            test_string: "%{ENV:MODE}".to_string(),
            pattern: "^MAINT".to_string(),
            flags: vec![ConditionFlag::NC],
        }],
    };
    let engine = RewriteEngine::new(config.clone()).unwrap();
    assert!(matches!(engine.process_url("/a", None, &Vec::new()), RewriteResult::NoMatch));
    let engine = RewriteEngine::new(config)
        .unwrap()
        .with_env(vec![("MODE".to_string(), "maintenance".to_string())]);
    match engine.process_url("/a", None, &Vec::new()) {
        RewriteResult::Rewrite { url } => assert_eq!(url, "/maint/a"),
        _ => panic!("expected a rewrite"),
    }
}

#[test]
fn forbidden_and_gone_flags() {
    let mut config = RewriteConfig::new();
    config.rules.push(rule("^/secret", "", vec![RewriteFlag::F]));
    config.rules.push(rule("^/old", "", vec![RewriteFlag::G]));
    let engine = RewriteEngine::new(config).unwrap();
    assert!(matches!(engine.process_url("/secret", None, &Vec::new()), RewriteResult::Forbidden));
    assert!(matches!(engine.process_url("/old", None, &Vec::new()), RewriteResult::Gone));
}

#[test]
fn clean_urls_rules() {
    let mut config = RewriteConfig::new();
    config.add_clean_urls();
    config.add_remove_trailing_slash();
    config.add_force_www("example.com");
    assert_eq!(config.rules.len(), 4);
    assert_eq!(config.conditions[0].pattern, "^example\\.com$");
    assert_eq!(config.rules[3].replacement, "https://www.example.com$1");
    let mut clean = RewriteConfig::new();
    clean.add_clean_urls();
    let engine = RewriteEngine::new(clean).unwrap();
    match engine.process_url("/about", None, &Vec::new()) {
        RewriteResult::Rewrite { url } => assert_eq!(url, "/about.html"),
        _ => panic!("expected a rewrite"),
    }
    match engine.process_url("/about.html", None, &Vec::new()) {
        RewriteResult::Redirect { url, .. } => assert_eq!(url, "/about"),
        _ => panic!("expected a redirect"),
    }
}

#[test]
fn plain_r_flag_is_temporary_and_last_rewrite_is_kept() {
    let mut config = RewriteConfig::new();
    config.rules.push(rule("^/a$", "/b", vec![RewriteFlag::R]));
    let engine = RewriteEngine::new(config).unwrap();
    match engine.process_url("/a", None, &Vec::new()) {
        RewriteResult::Redirect { url, permanent } => {
            assert_eq!(url, "/b");
            assert!(!permanent);
        }
        _ => panic!("expected a redirect"),
    }
    let mut config = RewriteConfig::new();
    config.rules.push(rule("^/x$", "/y", vec![]));
    let engine = RewriteEngine::new(config).unwrap();
    match engine.process_url("/x", None, &Vec::new()) {
        RewriteResult::Rewrite { url } => assert_eq!(url, "/y"),
        _ => panic!("expected a rewrite"),
    }
}
