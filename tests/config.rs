use edgeserve::config::{
    default_bind_address, default_http_port, default_https_port, default_static_dir, AppType,
    BackendConfig, CloudflareConfig, Config, ServerConfig, SslConfig,
};
use edgeserve::vhost::{LoadBalanceStrategy, VHostBackend, VHostLimits, VHostManager, VirtualHost};

#[test]
fn defaults_and_backend_lookup() {
    assert_eq!(default_http_port(), 8080);
    assert_eq!(default_https_port(), 8443);
    assert_eq!(default_bind_address(), "0.0.0.0");
    assert_eq!(default_static_dir(), "./static");
    let backend = BackendConfig {
        url: "http://127.0.0.1:3000".to_string(),
        app_type: AppType::NodeJS,
        health_check: None,
        process: None,
    };
    let config = Config {
        server: ServerConfig { http_port: 80, https_port: 443, enable_https: false, workers: None },
        ssl: SslConfig { cert_path: None, key_path: None, auto_cert: false, domains: vec![] },
        cloudflare: CloudflareConfig { api_token: None, zone_id: None, email: None, api_key: None },
        cluster: None,
        backends: vec![("app.example.com".to_string(), backend)],
    };
    assert_eq!(config.get_backend("app.example.com").unwrap().url, "http://127.0.0.1:3000");
    assert!(config.get_backend("other").is_none());
}

#[test]
fn vhost_backend_and_limits() {
    let host = VirtualHost {
        domains: vec!["api.example.com".to_string()],
        priority: 1,
        ssl: None,
        root: None,
        backend: Some(VHostBackend {
            urls: vec!["http://10.0.0.1".to_string(), "http://10.0.0.2".to_string()],
            strategy: LoadBalanceStrategy::RoundRobin,
            health_check: None,
            timeout: None,
            retry: None,
        }),
        logging: None,
        limits: Some(VHostLimits { rate_limit: Some(50), max_connections: None, max_request_size: None, timeout: None }),
        headers: None,
        error_pages: None,
        redirects: None,
        rewrites: None,
        access_control: None,
    };
    let m = VHostManager::new(vec![host]).unwrap();
    assert_eq!(m.get_rate_limit("api.example.com"), Some(50));
    assert_eq!(m.get_backend_urls("api.example.com").unwrap(), vec!["http://10.0.0.1", "http://10.0.0.2"]);
    assert!(m.get_backend_urls("none.example.com").is_none());
}
