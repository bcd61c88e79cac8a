use scon::commands::{
    commit_command, ps_any_command, ps_running_command, rmi_command, run_command, stop_command,
    version_command,
};
use scon::decimal::{i64_to_dec, u64_to_dec};
use scon::model::{Config, Runtime};

fn plain() -> Config {
    Config {
        use_sudo: false,
        container_runtime: Runtime::Docker,
    }
}

fn elevated_podman() -> Config {
    Config {
        use_sudo: true,
        container_runtime: Runtime::Podman,
    }
}

#[test]
fn version_probe_command() {
    assert_eq!(version_command(&plain()), "docker --version");
    assert_eq!(version_command(&elevated_podman()), "sudo podman --version");
}

#[test]
fn run_command_text() {
    let c = plain();
    assert_eq!(
        run_command(&c, &"web".to_string(), &"nginx:latest".to_string()),
        "docker run -d --name web nginx:latest sleep infinity"
    );
    let c = elevated_podman();
    assert_eq!(
        run_command(&c, &"db".to_string(), &"postgres:16".to_string()),
        "sudo podman run -d --name db postgres:16 sleep infinity"
    );
}

#[test]
fn query_command_texts() {
    let c = plain();
    assert_eq!(
        ps_running_command(&c, &"web".to_string()),
        "docker ps -q -f name=web"
    );
    assert_eq!(
        ps_any_command(&c, &"web".to_string()),
        "docker ps -a --filter name=web --format '{{.ID}}'"
    );
}

#[test]
fn stop_and_commit_command_texts() {
    let c = plain();
    assert_eq!(stop_command(&c, &"web".to_string()), "docker stop web");
    assert_eq!(
        commit_command(&c, &"web".to_string(), &"web:v1".to_string()),
        "docker commit web web:v1"
    );
    let c = elevated_podman();
    assert_eq!(stop_command(&c, &"web".to_string()), "sudo podman stop web");
}

#[test]
fn rmi_command_text() {
    let c = plain();
    assert_eq!(
        rmi_command(&c, &"web:v2".to_string()),
        "docker rmi web:v2"
    );
}

#[test]
fn decimal_rendering() {
    assert_eq!(u64_to_dec(0), "0");
    assert_eq!(u64_to_dec(7), "7");
    assert_eq!(u64_to_dec(10), "10");
    assert_eq!(u64_to_dec(90210), "90210");
    assert_eq!(u64_to_dec(u64::MAX), "18446744073709551615");
    assert_eq!(i64_to_dec(0), "0");
    assert_eq!(i64_to_dec(1700000000), "1700000000");
    assert_eq!(i64_to_dec(-42), "-42");
    assert_eq!(i64_to_dec(i64::MIN), "-9223372036854775808");
    assert_eq!(i64_to_dec(i64::MAX), "9223372036854775807");
}
