use edgeserve::metrics::{format_duration, MetricsCollector, RequestMetrics};
use edgeserve::process::{launch_command, LaunchError, ProcessInfo};
use edgeserve::config::{AppType, ProcessConfig};
use edgeserve::process_manager::{names_to_restart, AppType as Kind, ProcessConfig as PmConfig, ProcessEntry, ProcessStatus};

#[test]
fn formats_durations() {
    assert_eq!(format_duration(7), "7s");
    assert_eq!(format_duration(300), "5m 0s");
    assert_eq!(format_duration(3 * 3600 + 5), "3h 0m 5s");
    assert_eq!(format_duration(86400 + 2 * 3600 + 3 * 60 + 4), "1d 2h 3m 4s");
}

#[test]
fn request_timing() {
    let m = RequestMetrics::started_at("GET".to_string(), 10, 1_000);
    assert_eq!(m.duration_at(1_250), 250);
    assert_eq!(m.duration_at(10), 0);
    let live = RequestMetrics::new("POST".to_string(), 3);
    assert_eq!(live.method, "POST");
    assert_eq!(live.bytes_in, 3);
}

#[test]
fn collector_counts_and_exposition() {
    let mut c = MetricsCollector::new();
    c.record_request("GET", 200, 1_000, 10, 100);
    c.record_request("GET", 503, 30_000, 5, 50);
    c.record_request("POST", 200, 2_000_000, 1, 1);
    c.increment_connections();
    c.increment_connections();
    c.decrement_connections();
    let text = c.get_prometheus_metrics(42, Some(2));
    assert!(text.starts_with("# HELP http_requests_total Total number of HTTP requests\n# TYPE http_requests_total counter\n"));
    assert!(text.contains("http_requests_total{method=\"GET\",status=\"200\"} 1\n"));
    assert!(text.contains("http_requests_total{method=\"POST\",status=\"503\"} 0\n"));
    assert!(text.contains("http_request_duration_seconds_bucket{le=\"0.005\"} 1\n"));
    assert!(text.contains("http_request_duration_seconds_bucket{le=\"0.05\"} 2\n"));
    assert!(text.contains("http_request_duration_seconds_bucket{le=\"+Inf\"} 3\n"));
    assert!(text.contains("http_request_duration_seconds_sum 2.031\n"));
    assert!(text.contains("http_request_duration_quantile{quantile=\"0.5\"} 0.030\n"));
    assert!(text.contains("http_request_duration_quantile{quantile=\"0.99\"} 0.030\n"));
    assert!(text.contains("http_connections_active 1\n"));
    assert!(text.contains("http_bytes_received_total 16\n"));
    assert!(text.contains("http_bytes_sent_total 151\n"));
    assert!(text.contains("http_errors_total 1\n"));
    assert!(text.contains("process_uptime_seconds 42\n"));
    assert!(text.ends_with("process_resident_memory_bytes 2048\n"));
}

#[test]
fn reservoir_drops_oldest_half() {
    let mut c = MetricsCollector::new();
    for i in 0..10_001u64 {
        c.record_request("GET", 200, i, 0, 0);
    }
    let text = c.get_prometheus_metrics(0, None);
    assert!(text.contains("http_request_duration_seconds_count 5001\n"));
    assert!(text.contains("http_requests_total{method=\"GET\",status=\"200\"} 10001\n"));
}

#[test]
fn tomcat_launch_recipe() {
    let config = ProcessConfig {
        command: "ignored".to_string(),
        args: vec![],
        env: vec![
            ("CATALINA_HOME".to_string(), "/opt/tomcat".to_string()),
            ("JAVA_HOME".to_string(), "/usr/lib/jvm".to_string()),
            ("APP_MODE".to_string(), "prod".to_string()),
        ],
        working_dir: None,
        auto_restart: true,
    };
    let cmd = launch_command(AppType::Tomcat, &config).unwrap().unwrap();
    assert_eq!(cmd.program, "/opt/tomcat/bin/catalina.sh");
    assert_eq!(cmd.args, vec!["run".to_string()]);
    assert_eq!(
        cmd.env,
        vec![
            ("CATALINA_HOME".to_string(), "/opt/tomcat".to_string()),
            ("CATALINA_BASE".to_string(), "/opt/tomcat".to_string()),
            ("JAVA_HOME".to_string(), "/usr/lib/jvm".to_string()),
            ("JAVA_OPTS".to_string(), "-Xms512m -Xmx1024m -XX:MaxMetaspaceSize=256m".to_string()),
            ("APP_MODE".to_string(), "prod".to_string()),
        ]
    );
    let mut missing = config.clone();
    missing.env.remove(1);
    match launch_command(AppType::Tomcat, &missing) {
        Err(LaunchError::MissingEnv { name }) => assert_eq!(name, "JAVA_HOME"),
        _ => panic!("expected a missing variable"),
    }
    let py = launch_command(AppType::Python, &config).unwrap().unwrap();
    assert_eq!(py.env.last().unwrap(), &("PYTHONUNBUFFERED".to_string(), "1".to_string()));
    assert!(launch_command(AppType::Static, &config).unwrap().is_none());
}

#[test]
fn restart_back_off() {
    let config = ProcessConfig {
        command: "node".to_string(),
        args: vec![],
        env: vec![],
        working_dir: None,
        auto_restart: true,
    };
    let mut info = ProcessInfo { pid: 1, app_type: AppType::NodeJS, config, restart_count: 5, last_restart_ms: Some(0) };
    assert!(info.restart_allowed(1_000));
    info.record_restart(2, 1_000);
    assert_eq!(info.restart_count, 6);
    assert!(!info.restart_allowed(30_000));
    assert!(info.restart_allowed(61_000));
}

#[test]
fn monitor_restarts_failed_entries() {
    let cfg = |auto: bool| PmConfig {
        app_type: Kind::NodeJs,
        command: "node".to_string(),
        args: vec![],
        working_dir: ".".to_string(),
        env: vec![],
        port: 3000,
        health_check: None,
        auto_restart: auto,
    };
    let entries = vec![
        ProcessEntry { name: "a".to_string(), config: cfg(true), status: ProcessStatus::Failed, restarts: 0 },
        ProcessEntry { name: "b".to_string(), config: cfg(false), status: ProcessStatus::Failed, restarts: 0 },
        ProcessEntry { name: "c".to_string(), config: cfg(true), status: ProcessStatus::Running, restarts: 0 },
    ];
    assert_eq!(names_to_restart(&entries), vec!["a".to_string()]);
    assert_eq!(Kind::PhpFpm.to_string(), "PHP-FPM");
}

#[test]
fn json_figures() {
    let mut c = MetricsCollector::new();
    c.record_request("GET", 200, 4_000, 100, 1000);
    c.record_request("GET", 500, 10_000, 100, 1000);
    c.record_request("GET", 200, 1_000, 100, 1000);
    let j = c.get_json_metrics(3);
    assert_eq!(j.total, 3);
    assert_eq!(j.per_second, 1);
    assert_eq!(j.errors, 1);
    assert_eq!(j.p50_ms, 4);
    assert_eq!(j.p99_ms, 4);
    assert_eq!(j.avg_ms, 5);
    assert_eq!(j.in_rate, 100);
    assert_eq!(j.out_rate, 1000);
    assert_eq!(j.uptime_text, "3s");
    let empty = MetricsCollector::new().get_json_metrics(0);
    assert_eq!((empty.p50_ms, empty.avg_ms, empty.per_second), (0, 0, 0));
}
