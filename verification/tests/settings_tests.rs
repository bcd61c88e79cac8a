use scon::model::{Config, Runtime};
use scon::settings::{config_set, show_text, SettingsError};

#[test]
fn default_settings() {
    let c = Config::default_config();
    assert!(!c.use_sudo);
    assert_eq!(c.container_runtime, Runtime::Docker);
}

#[test]
fn set_use_sudo_true_then_show_reports_it() {
    let mut c = Config::default_config();
    let r = config_set(&mut c, &"use_sudo".to_string(), &"true".to_string());
    assert!(r.is_ok());
    assert!(c.use_sudo);
    let report = show_text(&c);
    assert!(report.contains("use_sudo: true"));
    assert!(report.contains("container_runtime: docker"));
}

#[test]
fn set_use_sudo_false() {
    let mut c = Config {
        use_sudo: true,
        container_runtime: Runtime::Podman,
    };
    let r = config_set(&mut c, &"use_sudo".to_string(), &"false".to_string());
    assert!(r.is_ok());
    assert!(!c.use_sudo);
    assert_eq!(c.container_runtime, Runtime::Podman);
}

#[test]
fn set_runtime_to_podman() {
    let mut c = Config::default_config();
    let r = config_set(
        &mut c,
        &"container_runtime".to_string(),
        &"podman".to_string(),
    );
    assert!(r.is_ok());
    assert_eq!(c.container_runtime, Runtime::Podman);
    assert!(show_text(&c).contains("container_runtime: podman"));
}

#[test]
fn invalid_runtime_value_is_rejected_and_changes_nothing() {
    let mut c = Config::default_config();
    let r = config_set(
        &mut c,
        &"container_runtime".to_string(),
        &"xyz".to_string(),
    );
    assert!(matches!(r, Err(SettingsError::InvalidRuntime)));
    assert_eq!(c, Config::default_config());
}

#[test]
fn invalid_use_sudo_value_is_rejected() {
    let mut c = Config::default_config();
    let r = config_set(&mut c, &"use_sudo".to_string(), &"yes".to_string());
    assert!(matches!(r, Err(SettingsError::InvalidUseSudo)));
    assert_eq!(c, Config::default_config());
}

#[test]
fn invalid_key_is_rejected() {
    let mut c = Config::default_config();
    let r = config_set(&mut c, &"runtime".to_string(), &"docker".to_string());
    assert!(matches!(r, Err(SettingsError::InvalidKey)));
    assert_eq!(c, Config::default_config());
}

#[test]
fn show_text_exact_report() {
    let c = Config::default_config();
    assert_eq!(
        show_text(&c),
        "Current configuration:\n  use_sudo: false\n  container_runtime: docker\n"
    );
}
