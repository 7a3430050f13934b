use bpm::config::error::ConfigError;
use bpm::config::read_config::{
    parse_duration, App, AppConfig, HealthCheck, HealthCheckType, LogConfig, RestartConfig,
    RestartPolicy,
};
use bpm::config::state::{refs_lookup_first, BpmConfig};

fn app(name: &str, script: &str, args: &[&str]) -> App {
    App {
        name: name.to_string(),
        script: script.to_string(),
        args: args.iter().map(|a| a.to_string()).collect(),
        cwd: None,
        env: Vec::new(),
        log: LogConfig::default(),
        restart: RestartConfig::default(),
        healthcheck: None,
        schedule: None,
    }
}

#[test]
fn test_parse_single_app() {
    let config = AppConfig::SingleApp(Box::new(app("test-app", "node", &["app.js"])));
    let (_, apps) = config.get_apps();

    assert_eq!(apps.len(), 1);
    assert_eq!(apps[0].name, "test-app");
    assert_eq!(apps[0].script, "node");
    assert_eq!(apps[0].args, vec!["app.js"]);
}

#[test]
fn test_parse_multi_app() {
    let config = AppConfig::MultiApp(vec![(
        "my-project".to_string(),
        vec![app("app1", "node", &["a.js"]), app("app2", "python", &["b.py"])],
    )]);
    let (project_name, apps) = config.get_apps();

    assert_eq!(project_name, Some("my-project".to_string()));
    assert_eq!(apps.len(), 2);
}

#[test]
fn test_parse_healthcheck() {
    let mut a = app("test-app", "node", &["app.js"]);
    a.healthcheck = Some(HealthCheck {
        check_type: HealthCheckType::Tcp,
        interval: "30s".to_string(),
        timeout: "5s".to_string(),
        retries: 3,
        start_period: None,
        url: None,
        command: None,
        host: Some("127.0.0.1".to_string()),
        port: Some(3000),
    });
    let config = AppConfig::SingleApp(Box::new(a));
    let (_, apps) = config.get_apps();

    let hc = apps[0].healthcheck.as_ref().unwrap();
    assert!(matches!(hc.check_type, HealthCheckType::Tcp));
    assert_eq!(hc.port, Some(3000));
    assert_eq!(hc.retries, 3);
}

#[test]
fn test_parse_restart_policy() {
    let mut a = app("test", "node", &[]);
    a.restart = RestartConfig {
        policy: RestartPolicy::OnFailure,
        max_restarts: 5,
        restart_delay: 10,
    };
    let config = AppConfig::SingleApp(Box::new(a));
    let (_, apps) = config.get_apps();

    assert!(matches!(apps[0].restart.policy, RestartPolicy::OnFailure));
    assert_eq!(apps[0].restart.max_restarts, 5);
}

#[test]
fn test_default_values() {
    let a = app("minimal", "echo", &[]);

    assert_eq!(a.log.out, "stdout");
    assert_eq!(a.log.error, "stderr");
    assert!(matches!(a.restart.policy, RestartPolicy::OnFailure));
    assert_eq!(a.restart.max_restarts, -1);
}

#[test]
fn test_parse_duration_suffixes() {
    assert_eq!(parse_duration("30s"), Ok(30));
    assert_eq!(parse_duration("5min"), Ok(300));
    assert_eq!(parse_duration("5m"), Ok(300));
    assert_eq!(parse_duration("2hr"), Ok(7200));
    assert_eq!(parse_duration("2h"), Ok(7200));
    assert_eq!(parse_duration("7"), Err(ConfigError::InvalidDuration));
    assert_eq!(parse_duration("ms"), Err(ConfigError::InvalidDuration));
    assert_eq!(parse_duration("x5s"), Err(ConfigError::InvalidDuration));
    assert_eq!(parse_duration(""), Err(ConfigError::InvalidDuration));
}

#[test]
fn test_enable_disable_delete_flow() {
    let config = AppConfig::SingleApp(Box::new(app("svc", "node", &[])));
    let mut state = BpmConfig::new(0);
    state.enable_apps_from_config(&config, "/etc/bpm/svc.json", Some("abc123".to_string()), 10);
    assert_eq!(state.last_updated, 10);
    let bound = refs_lookup_first(&state.enabled, "svc").unwrap();
    assert_eq!(bound.config_path, "/etc/bpm/svc.json");
    assert_eq!(bound.checksum, Some("abc123".to_string()));

    state.disable_app("svc", 20);
    assert!(refs_lookup_first(&state.enabled, "svc").is_none());
    assert!(refs_lookup_first(&state.disabled, "svc").is_some());
    assert_eq!(state.last_updated, 20);

    state.delete_app("svc", 30);
    assert!(refs_lookup_first(&state.disabled, "svc").is_none());
    assert!(refs_lookup_first(&state.deleted, "svc").is_some());
    assert_eq!(state.last_updated, 30);

    // deleting an unknown name changes nothing
    state.delete_app("ghost", 40);
    assert_eq!(state.last_updated, 30);
}
