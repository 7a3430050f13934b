use bpm::process_manager::health::{
    check_health, parse_http_status, parse_http_url, CommandExit, HealthCheckConfig,
    HealthCheckType, HealthStatus, ProbeOutcome,
};
use bpm::process_manager::monitor::{health_check_due, record_health_result};
use bpm::process_manager::registry::{ProcessInfo, ProcessRegistry, ProcessState};

fn tcp_config() -> HealthCheckConfig {
    HealthCheckConfig {
        check_type: HealthCheckType::Tcp { host: "127.0.0.1".to_string(), port: 22 },
        interval: 1,
        timeout: 1,
        retries: 3,
        start_period: 0,
    }
}

fn command_config(cmd: &str) -> HealthCheckConfig {
    HealthCheckConfig {
        check_type: HealthCheckType::Command { cmd: cmd.to_string(), args: Vec::new() },
        interval: 30,
        timeout: 5,
        retries: 3,
        start_period: 10,
    }
}

#[test]
fn test_tcp_localhost() {
    let config = tcp_config();
    let status = check_health(
        &config,
        &ProbeOutcome::TcpConnect { success: true, error: String::new() },
    );
    assert!(matches!(status, HealthStatus::Healthy | HealthStatus::Unhealthy(_)));
    assert_eq!(status, HealthStatus::Healthy);

    let status = check_health(
        &config,
        &ProbeOutcome::TcpConnect { success: false, error: "refused".to_string() },
    );
    assert_eq!(status, HealthStatus::Unhealthy("Connection failed: refused".to_string()));
}

#[test]
fn test_command_true() {
    let status = check_health(
        &command_config("true"),
        &ProbeOutcome::CommandRun {
            timed_out: false,
            run: Ok(CommandExit { success: true, code: 0 }),
        },
    );
    assert_eq!(status, HealthStatus::Healthy);
}

#[test]
fn test_command_false() {
    let status = check_health(
        &command_config("false"),
        &ProbeOutcome::CommandRun {
            timed_out: false,
            run: Ok(CommandExit { success: false, code: 1 }),
        },
    );
    assert!(matches!(status, HealthStatus::Unhealthy(_)));
    assert_eq!(status, HealthStatus::Unhealthy("Command exited with code: 1".to_string()));
}

#[test]
fn test_command_timeout() {
    let status = check_health(
        &command_config("slow"),
        &ProbeOutcome::CommandRun {
            timed_out: true,
            run: Ok(CommandExit { success: true, code: 0 }),
        },
    );
    assert_eq!(status, HealthStatus::Unhealthy("Command timed out".to_string()));
}

#[test]
fn test_http_classification() {
    let config = HealthCheckConfig {
        check_type: HealthCheckType::Http {
            url: "http://localhost:8080/health".to_string(),
            expected_status: None,
        },
        interval: 30,
        timeout: 5,
        retries: 3,
        start_period: 10,
    };
    let ok = ProbeOutcome::HttpExchange {
        response: Ok("HTTP/1.1 200 OK\r\nContent-Length: 0\r\n\r\n".to_string()),
    };
    assert_eq!(check_health(&config, &ok), HealthStatus::Healthy);

    let not_found = ProbeOutcome::HttpExchange {
        response: Ok("HTTP/1.1 404 Not Found\r\n\r\n".to_string()),
    };
    assert_eq!(
        check_health(&config, &not_found),
        HealthStatus::Unhealthy("Status code: 404".to_string())
    );

    let garbled = ProbeOutcome::HttpExchange { response: Ok("not http".to_string()) };
    assert_eq!(
        check_health(&config, &garbled),
        HealthStatus::Unhealthy("Invalid HTTP response".to_string())
    );

    let expected = HealthCheckConfig {
        check_type: HealthCheckType::Http {
            url: "http://localhost/".to_string(),
            expected_status: Some(204),
        },
        ..config
    };
    let no_content = ProbeOutcome::HttpExchange {
        response: Ok("HTTP/1.1 200 OK\r\n\r\n".to_string()),
    };
    assert_eq!(
        check_health(&expected, &no_content),
        HealthStatus::Unhealthy("Expected status 204, got 200".to_string())
    );
}

#[test]
fn test_parse_http_url_parts() {
    let (host, port, path) = parse_http_url("http://example.com:3000/status/ping");
    assert_eq!(host, "example.com");
    assert_eq!(port, 3000);
    assert_eq!(path, "/status/ping");

    let (host, port, path) = parse_http_url("https://example.com");
    assert_eq!(host, "example.com");
    assert_eq!(port, 80);
    assert_eq!(path, "/");

    let (host, port, path) = parse_http_url("localhost:badport/x");
    assert_eq!(host, "localhost");
    assert_eq!(port, 80);
    assert_eq!(path, "/x");
}

#[test]
fn test_parse_http_status_line() {
    assert_eq!(parse_http_status("HTTP/1.1 301 Moved\r\nLocation: /\r\n\r\n"), Some(301));
    assert_eq!(parse_http_status(""), None);
    assert_eq!(parse_http_status("HTTP/1.1 notanumber\r\n"), None);
    assert_eq!(parse_http_status("HTTP/1.1 99999 Huge\r\n"), None);
}

fn probed_process(name: &str, retries: u32) -> ProcessInfo {
    ProcessInfo {
        name: name.to_string(),
        pid: Some(321),
        state: ProcessState::Running,
        config_path: "/tmp/test.json".to_string(),
        script: "svc".to_string(),
        args: Vec::new(),
        cwd: None,
        env: Vec::new(),
        restart_count: 0,
        started_at: Some(1_000),
        cpu_usage: 0,
        memory_usage: 0,
        stdout_log: "/tmp/out.log".to_string(),
        stderr_log: "/tmp/err.log".to_string(),
        auto_restart: true,
        max_memory: 0,
        healthcheck: Some(HealthCheckConfig {
            check_type: HealthCheckType::Tcp { host: "127.0.0.1".to_string(), port: 1 },
            interval: 1,
            timeout: 1,
            retries,
            start_period: 2,
        }),
        health_status: HealthStatus::Unknown,
        last_health_check: None,
        health_failures: 0,
        watch_dirs: Vec::new(),
        watch_patterns: Vec::new(),
    }
}

#[test]
fn test_health_check_scheduling() {
    let mut p = probed_process("svc", 3);
    // never checked: the start period gates the first probe
    assert!(!health_check_due(&p, 1_001));
    assert!(health_check_due(&p, 1_002));
    // checked before: the interval gates the next probe
    p.last_health_check = Some(1_010);
    assert!(!health_check_due(&p, 1_010));
    assert!(health_check_due(&p, 1_011));
    // no health check configured: never due
    p.healthcheck = None;
    assert!(!health_check_due(&p, 9_999));
}

#[test]
fn test_health_restart_after_retries() {
    // three consecutive failures against retries=3 mark the record
    // Restarting and raise its restart count by one
    let mut registry = ProcessRegistry::new();
    registry.register(probed_process("svc", 3)).unwrap();

    let fail = || HealthStatus::Unhealthy("Connection failed: refused".to_string());
    assert!(!record_health_result(&mut registry, "svc", fail(), 1_003));
    assert_eq!(registry.get("svc").unwrap().health_failures, 1);
    assert!(!record_health_result(&mut registry, "svc", fail(), 1_004));
    assert_eq!(registry.get("svc").unwrap().health_failures, 2);
    assert!(record_health_result(&mut registry, "svc", fail(), 1_005));

    let rec = registry.get("svc").unwrap();
    assert_eq!(rec.state, ProcessState::Restarting);
    assert_eq!(rec.restart_count, 1);
    assert_eq!(rec.health_failures, 0);
    assert_eq!(rec.last_health_check, Some(1_005));
}

#[test]
fn test_healthy_result_resets_failures() {
    let mut registry = ProcessRegistry::new();
    registry.register(probed_process("svc", 3)).unwrap();
    let fail = HealthStatus::Unhealthy("boom".to_string());
    assert!(!record_health_result(&mut registry, "svc", fail, 1_003));
    assert!(!record_health_result(&mut registry, "svc", HealthStatus::Healthy, 1_004));
    let rec = registry.get("svc").unwrap();
    assert_eq!(rec.health_failures, 0);
    assert_eq!(rec.health_status, HealthStatus::Healthy);
}
