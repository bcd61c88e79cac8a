use scon::lifecycle::{DeleteOption, LifecycleError, StartAction, StopAction};
use scon::model::{HistoryEntry, Registry, StatefulContainer};

fn sample_registry() -> Registry {
    let mut reg = Registry::new();
    let r = reg.create(true, &"web".to_string(), &"nginx:latest".to_string());
    assert!(r.is_ok());
    reg
}

#[test]
fn create_registers_one_entry() {
    let reg = sample_registry();
    assert_eq!(reg.containers.len(), 1);
    assert_eq!(reg.containers[0].name, "web");
    assert_eq!(reg.containers[0].image, "nginx:latest");
    assert!(reg.containers[0].history.is_empty());
}

#[test]
fn create_rejects_duplicate_name_and_changes_nothing() {
    let mut reg = sample_registry();
    let r = reg.create(true, &"web".to_string(), &"redis:7".to_string());
    assert!(matches!(r, Err(LifecycleError::DuplicateName)));
    assert_eq!(reg.containers.len(), 1);
    assert_eq!(reg.containers[0].image, "nginx:latest");
}

#[test]
fn create_rejects_unavailable_runtime() {
    let mut reg = Registry::new();
    let r = reg.create(false, &"web".to_string(), &"nginx:latest".to_string());
    assert!(matches!(r, Err(LifecycleError::RuntimeUnavailable)));
    assert_eq!(reg.containers.len(), 0);
}

#[test]
fn start_plan_unknown_name() {
    let reg = sample_registry();
    let plan = reg.start_plan(&"db".to_string(), &None);
    assert!(matches!(plan, StartAction::NotFound));
}

#[test]
fn start_plan_runs_base_image_when_nothing_runs() {
    let reg = sample_registry();
    match reg.start_plan(&"web".to_string(), &None) {
        StartAction::Run(image) => assert_eq!(image, "nginx:latest"),
        other => panic!("expected a run action, got {:?}", other),
    }
}

#[test]
fn start_plan_recognizes_recorded_instance() {
    let mut reg = sample_registry();
    reg.record_start(&"web".to_string(), "abc123".to_string(), 1700000000)
        .unwrap();
    let plan = reg.start_plan(&"web".to_string(), &Some("abc123".to_string()));
    assert!(matches!(plan, StartAction::AlreadyCurrent));
}

#[test]
fn start_plan_flags_unrecognized_instance() {
    let mut reg = sample_registry();
    reg.record_start(&"web".to_string(), "abc123".to_string(), 1700000000)
        .unwrap();
    let plan = reg.start_plan(&"web".to_string(), &Some("zzz999".to_string()));
    assert!(matches!(plan, StartAction::Conflict));
}

#[test]
fn record_start_appends_base_image_entry() {
    let mut reg = sample_registry();
    let r = reg.record_start(&"web".to_string(), "abc123".to_string(), 1700000000);
    assert!(r.is_ok());
    let h = &reg.containers[0].history;
    assert_eq!(h.len(), 1);
    assert_eq!(h[0].container_id, "abc123");
    assert_eq!(h[0].timestamp, 1700000000);
    assert_eq!(h[0].image, "nginx:latest");
}

#[test]
fn record_start_unknown_name() {
    let mut reg = sample_registry();
    let r = reg.record_start(&"db".to_string(), "abc".to_string(), 0);
    assert!(matches!(r, Err(LifecycleError::NotFound)));
    assert!(reg.containers[0].history.is_empty());
}

#[test]
fn stop_plan_first_stop_on_empty_history_derives_v1() {
    let reg = sample_registry();
    match reg.stop_plan(&"web".to_string(), &Some("abc123".to_string())) {
        StopAction::Proceed(tag) => assert_eq!(tag, "web:v1"),
        other => panic!("expected a proceed action, got {:?}", other),
    }
}

#[test]
fn stop_plan_reports_missing_instance() {
    let reg = sample_registry();
    let plan = reg.stop_plan(&"web".to_string(), &None);
    assert!(matches!(plan, StopAction::NoInstance));
    let plan = reg.stop_plan(&"db".to_string(), &Some("abc".to_string()));
    assert!(matches!(plan, StopAction::NotFound));
}

#[test]
fn scenario_create_start_stop_delete() {
    let mut reg = Registry::new();
    reg.create(true, &"web".to_string(), &"nginx:latest".to_string())
        .unwrap();
    assert_eq!(reg.containers.len(), 1);
    assert!(reg.containers[0].history.is_empty());

    match reg.start_plan(&"web".to_string(), &None) {
        StartAction::Run(image) => assert_eq!(image, "nginx:latest"),
        other => panic!("expected a run action, got {:?}", other),
    }
    reg.record_start(&"web".to_string(), "abc123".to_string(), 1700000000)
        .unwrap();
    assert_eq!(reg.containers[0].history.len(), 1);
    assert_eq!(reg.containers[0].history[0].container_id, "abc123");
    assert_eq!(reg.containers[0].history[0].image, "nginx:latest");

    // The tag rule counts every history entry: one start entry so far,
    // hence the first committed snapshot is version two.
    match reg.stop_plan(&"web".to_string(), &Some("abc123".to_string())) {
        StopAction::Proceed(tag) => assert_eq!(tag, "web:v2"),
        other => panic!("expected a proceed action, got {:?}", other),
    }
    reg.record_stop(&"web".to_string(), "abc123".to_string(), 1700000100)
        .unwrap();
    assert_eq!(reg.containers[0].history.len(), 2);
    assert_eq!(reg.containers[0].history[1].image, "web:v2");

    let r = reg.delete(&"web".to_string(), DeleteOption::EntryOnly, &None);
    assert!(r.is_ok());
    assert!(reg.containers.is_empty());
}

#[test]
fn stop_start_stop_versions_increase() {
    let mut reg = sample_registry();
    let name = "web".to_string();
    reg.record_stop(&name, "id1".to_string(), 10).unwrap();
    assert_eq!(reg.containers[0].history[0].image, "web:v1");
    reg.record_start(&name, "id2".to_string(), 20).unwrap();
    reg.record_stop(&name, "id2".to_string(), 30).unwrap();
    assert_eq!(reg.containers[0].history[2].image, "web:v3");
    assert_eq!(reg.containers[0].history.len(), 3);
}

#[test]
fn delete_rejected_while_running() {
    let mut reg = sample_registry();
    let r = reg.delete(
        &"web".to_string(),
        DeleteOption::EntryOnly,
        &Some("abc123".to_string()),
    );
    assert!(matches!(r, Err(LifecycleError::StillRunning)));
    assert_eq!(reg.containers.len(), 1);
}

#[test]
fn delete_unknown_name() {
    let mut reg = sample_registry();
    let r = reg.delete(&"db".to_string(), DeleteOption::EntryOnly, &None);
    assert!(matches!(r, Err(LifecycleError::NotFound)));
    assert_eq!(reg.containers.len(), 1);
}

#[test]
fn delete_leaves_other_containers_untouched() {
    let mut reg = sample_registry();
    reg.create(true, &"db".to_string(), &"postgres:16".to_string())
        .unwrap();
    reg.record_start(&"db".to_string(), "dbid".to_string(), 5)
        .unwrap();
    let r = reg.delete(&"web".to_string(), DeleteOption::EntryOnly, &None);
    assert!(matches!(r, Ok(ref images) if images.is_empty()));
    assert_eq!(reg.containers.len(), 1);
    assert_eq!(reg.containers[0].name, "db");
    assert_eq!(reg.containers[0].image, "postgres:16");
    assert_eq!(reg.containers[0].history.len(), 1);
    assert_eq!(reg.containers[0].history[0].container_id, "dbid");
}

fn registry_with_snapshots() -> Registry {
    let mut reg = Registry::new();
    reg.containers.push(StatefulContainer {
        name: "web".to_string(),
        image: "nginx:latest".to_string(),
        history: vec![
            HistoryEntry {
                container_id: "a".to_string(),
                timestamp: 1,
                image: "nginx:latest".to_string(),
            },
            HistoryEntry {
                container_id: "a".to_string(),
                timestamp: 2,
                image: "web:v2".to_string(),
            },
            HistoryEntry {
                container_id: "b".to_string(),
                timestamp: 3,
                image: "nginx:latest".to_string(),
            },
            HistoryEntry {
                container_id: "b".to_string(),
                timestamp: 4,
                image: "web:v4".to_string(),
            },
        ],
    });
    reg
}

#[test]
fn delete_all_snapshots_lists_every_snapshot_tag() {
    let mut reg = registry_with_snapshots();
    let r = reg.delete(&"web".to_string(), DeleteOption::AllSnapshots, &None);
    let images = r.unwrap();
    assert_eq!(images, vec!["web:v2".to_string(), "web:v4".to_string()]);
    assert!(reg.containers.is_empty());
}

#[test]
fn delete_keep_latest_spares_the_most_recent_snapshot() {
    let mut reg = registry_with_snapshots();
    let r = reg.delete(&"web".to_string(), DeleteOption::KeepLatestSnapshot, &None);
    let images = r.unwrap();
    assert_eq!(images, vec!["web:v2".to_string()]);
    assert!(reg.containers.is_empty());
}

#[test]
fn snapshot_tag_formats_name_and_version() {
    assert_eq!(scon::lifecycle::snapshot_tag(&"web".to_string(), 0), "web:v1");
    assert_eq!(scon::lifecycle::snapshot_tag(&"web".to_string(), 41), "web:v42");
    assert_eq!(
        scon::lifecycle::snapshot_tag(&"app".to_string(), 99),
        "app:v100"
    );
}
