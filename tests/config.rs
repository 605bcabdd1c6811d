use cnc_ctrl::config::{
    apply_template, expand_path, GeneralConfig, LogLevel, ProcessConfig, Step, TaskConfig,
    TaskKind,
};

fn task(wait: bool) -> TaskConfig {
    TaskConfig { kind: TaskKind::Process(ProcessConfig { command: "true".to_string() }), wait }
}

#[test]
fn template_replaces_every_placeholder() {
    assert_eq!(apply_template("out/{%t}/points_{%t}.csv", "20240101_120000"), "out/20240101_120000/points_20240101_120000.csv");
    assert_eq!(apply_template("no placeholder", "x"), "no placeholder");
    assert_eq!(apply_template("{%t", "x"), "{%t");
    assert_eq!(apply_template("{%{%t}t}", "A"), "{%At}");
    assert_eq!(apply_template("", "x"), "");
}

#[test]
fn home_is_expanded() {
    assert_eq!(expand_path("~/jobs/a.nc", Some("/home/pi")), "/home/pi/jobs/a.nc");
    assert_eq!(expand_path("/abs/a.nc", Some("/home/pi")), "/abs/a.nc");
    assert_eq!(expand_path("~/jobs/a.nc", None), "~/jobs/a.nc");
    assert_eq!(expand_path("~user/a", Some("/home/pi")), "~user/a");
}

#[test]
fn first_step_always_waits() {
    assert!(Step { index: 0, task: task(false) }.should_wait());
    assert!(!Step { index: 1, task: task(false) }.should_wait());
    assert!(Step { index: 3, task: task(true) }.should_wait());
}

#[test]
fn default_general_config() {
    let c = GeneralConfig::with_log_path(Some("/var/log/cnc".to_string()));
    assert_eq!(c.logs.path.as_deref(), Some("/var/log/cnc"));
    assert_eq!(c.logs.level, LogLevel::Info);
    assert_eq!(c.gpio.signal.pin, 17);
    assert_eq!(c.gpio.signal.debounce_ms, 30);
}
