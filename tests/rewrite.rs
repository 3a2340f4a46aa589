use edgeserve::rewrite::{
    common_rewrites, ConditionFlag, FileFacts, RewriteAction, RewriteCondition, RewriteContext,
    RewriteEngine, RewriteError, RewriteFlag, RewriteRule,
};

fn context(uri: &str, headers: Vec<(String, String)>) -> RewriteContext {
    RewriteContext {
        uri: uri.to_string(),
        scheme: "http".to_string(),
        method: "GET".to_string(),
        headers,
        remote_addr: "127.0.0.1".to_string(),
        server_name: "example.com".to_string(),
        variables: Vec::new(),
        files: Vec::new(),
    }
}

fn rule(pattern: &str, replacement: &str, flags: Option<Vec<RewriteFlag>>) -> RewriteRule {
    RewriteRule {
        pattern: pattern.to_string(),
        replacement: replacement.to_string(),
        flags,
        conditions: None,
    }
}

#[test]
fn rewrite_test_simple_rewrite() {
    let rules = vec![rule(r"^/old/(.*)$", "/new/$1", None)];
    let engine = RewriteEngine::new(rules).unwrap();
    let mut context = context("/old/page", Vec::new());
    let action = engine.process(&mut context);
    assert!(action.is_some());
    assert_eq!(context.path(), "/new/page");
    match action {
        Some(RewriteAction::Internal { uri }) => assert_eq!(uri, "/new/page"),
        _ => panic!("Expected internal rewrite"),
    }
}

#[test]
fn test_redirect_flag() {
    let rules = vec![rule(r"^/temp$", "/permanent", Some(vec![RewriteFlag::Permanent]))];
    let engine = RewriteEngine::new(rules).unwrap();
    let mut context = context("/temp", Vec::new());
    let action = engine.process(&mut context);
    match action {
        Some(RewriteAction::Redirect { location, permanent }) => {
            assert_eq!(location, "/permanent");
            assert!(permanent);
        }
        _ => panic!("Expected redirect action"),
    }
}

#[test]
fn test_condition_matching() {
    let rules = vec![RewriteRule {
        pattern: r"^(.*)$".to_string(),
        replacement: "/mobile$1".to_string(),
        flags: None,
        conditions: Some(vec![RewriteCondition {
            test_string: "$http_user_agent".to_string(),
            pattern: r"Mobile|Android|iPhone".to_string(),
            flags: Some(vec![ConditionFlag::NoCase]),
        }]),
    }];
    let engine = RewriteEngine::new(rules).unwrap();
    let headers = vec![("user-agent".to_string(), "Mozilla/5.0 iPhone".to_string())];
    let mut context = context("/page", headers);
    let action = engine.process(&mut context);
    assert!(action.is_some());
    assert_eq!(context.path(), "/mobile/page");
}

#[test]
fn condition_not_matching_leaves_uri() {
    let rules = vec![RewriteRule {
        pattern: r"^(.*)$".to_string(),
        replacement: "/mobile$1".to_string(),
        flags: None,
        conditions: Some(vec![RewriteCondition {
            test_string: "$http_user_agent".to_string(),
            pattern: r"Mobile|Android|iPhone".to_string(),
            flags: Some(vec![ConditionFlag::NoCase]),
        }]),
    }];
    let engine = RewriteEngine::new(rules).unwrap();
    let headers = vec![("user-agent".to_string(), "Desktop Browser".to_string())];
    let mut context = context("/page", headers);
    assert!(engine.process(&mut context).is_none());
    assert_eq!(context.uri, "/page");
}

#[test]
fn no_rules_give_no_match() {
    let engine = RewriteEngine::new(Vec::new()).unwrap();
    let mut context = context("/anything?x=1", Vec::new());
    assert!(engine.process(&mut context).is_none());
    assert_eq!(context.uri, "/anything?x=1");
}

#[test]
fn temporary_redirect_and_terminal_flags() {
    let engine = RewriteEngine::new(vec![rule("^/a$", "/b", Some(vec![RewriteFlag::Redirect]))]).unwrap();
    let mut ctx = context("/a", Vec::new());
    match engine.process(&mut ctx) {
        Some(RewriteAction::Redirect { location, permanent }) => {
            assert_eq!(location, "/b");
            assert!(!permanent);
        }
        _ => panic!("expected a temporary redirect"),
    }
    let engine = RewriteEngine::new(vec![rule("^/x", "", Some(vec![RewriteFlag::Forbidden]))]).unwrap();
    assert!(matches!(engine.process(&mut context("/x", Vec::new())), Some(RewriteAction::Forbidden)));
    let engine = RewriteEngine::new(vec![rule("^/x", "", Some(vec![RewriteFlag::Gone]))]).unwrap();
    assert!(matches!(engine.process(&mut context("/x", Vec::new())), Some(RewriteAction::Gone)));
    let engine =
        RewriteEngine::new(vec![rule("^/api/(.*)$", "http://backend/$1", Some(vec![RewriteFlag::Proxy]))])
            .unwrap();
    match engine.process(&mut context("/api/users", Vec::new())) {
        Some(RewriteAction::Proxy { backend }) => assert_eq!(backend, "http://backend/users"),
        _ => panic!("expected a proxy action"),
    }
}

#[test]
fn rewrites_chain_and_last_stops() {
    let engine = RewriteEngine::new(vec![
        rule("^/a$", "/b", None),
        rule("^/b$", "/c", Some(vec![RewriteFlag::Last])),
        rule("^/c$", "/d", None),
    ])
    .unwrap();
    let mut ctx = context("/a", Vec::new());
    match engine.process(&mut ctx) {
        Some(RewriteAction::Internal { uri }) => assert_eq!(uri, "/c"),
        _ => panic!("expected an internal rewrite"),
    }
    assert_eq!(ctx.uri, "/c");
}

#[test]
fn variables_are_expanded() {
    let mut ctx = context("/p?q=1", Vec::new());
    ctx.variables.push(("site".to_string(), "blue".to_string()));
    let engine = RewriteEngine::new(vec![rule(
        "^/p",
        "https://$host/x?$args&m=$request_method&s=${site}&ip=$remote_addr",
        Some(vec![RewriteFlag::Permanent]),
    )])
    .unwrap();
    match engine.process(&mut ctx) {
        Some(RewriteAction::Redirect { location, .. }) => {
            assert_eq!(location, "https://example.com/x?q=1&m=GET&s=blue&ip=127.0.0.1")
        }
        _ => panic!("expected a redirect"),
    }
}

#[test]
fn or_not_and_file_conditions() {
    let cond = |test: &str, pattern: &str, flags: Vec<ConditionFlag>| RewriteCondition {
        test_string: test.to_string(),
        pattern: pattern.to_string(),
        flags: Some(flags),
    };
    let engine = RewriteEngine::new(vec![RewriteRule {
        pattern: "^(.*)$".to_string(),
        replacement: "/hit$1".to_string(),
        flags: Some(vec![RewriteFlag::Last]),
        conditions: Some(vec![
            cond("$host", "^nomatch$", vec![ConditionFlag::Or]),
            cond("$host", "^example", vec![]),
            cond("/srv$request_uri", "", vec![ConditionFlag::File, ConditionFlag::Not]),
        ]),
    }])
    .unwrap();
    let mut ctx = context("/page", Vec::new());
    assert!(matches!(engine.process(&mut ctx), Some(RewriteAction::Internal { .. })));
    assert_eq!(ctx.uri, "/hit/page");
    let mut ctx = context("/page", Vec::new());
    ctx.files.push(FileFacts {
        path: "/srv/page".to_string(),
        is_file: true,
        is_dir: false,
        is_symlink: false,
        size: 10,
    });
    assert!(engine.process(&mut ctx).is_none());
}

#[test]
fn invalid_pattern_is_refused() {
    let r = RewriteEngine::new(vec![rule("^(unclosed", "/x", None)]);
    match r {
        Err(RewriteError::InvalidPattern { pattern }) => assert_eq!(pattern, "^(unclosed"),
        Ok(_) => panic!("expected an error"),
    }
}

#[test]
fn nocase_rule_matches_any_case() {
    let engine =
        RewriteEngine::new(vec![rule("^/ABC$", "/lower", Some(vec![RewriteFlag::NoCase]))]).unwrap();
    let mut ctx = context("/abc", Vec::new());
    assert!(engine.process(&mut ctx).is_some());
    assert_eq!(ctx.uri, "/lower");
}

#[test]
fn common_rewrites_force_https() {
    let rules = common_rewrites();
    assert_eq!(rules.len(), 4);
    let engine = RewriteEngine::new(vec![rules[3].clone()]).unwrap();
    let mut ctx = context("/page", Vec::new());
    match engine.process(&mut ctx) {
        Some(RewriteAction::Redirect { location, permanent }) => {
            assert_eq!(location, "https://example.com/page");
            assert!(permanent);
        }
        _ => panic!("expected a redirect"),
    }
}
