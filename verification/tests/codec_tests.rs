use scon::codec::{encode_config, encode_registry};
use scon::model::{Config, HistoryEntry, Registry, Runtime, StatefulContainer};
use scon::render::list_text;

fn two_container_registry() -> Registry {
    let mut reg = Registry::new();
    reg.containers.push(StatefulContainer {
        name: "web".to_string(),
        image: "nginx:latest".to_string(),
        history: vec![
            HistoryEntry {
                container_id: "abc123".to_string(),
                timestamp: 1700000000,
                image: "nginx:latest".to_string(),
            },
            HistoryEntry {
                container_id: "abc123".to_string(),
                timestamp: 1700000100,
                image: "web:v2".to_string(),
            },
        ],
    });
    reg.containers.push(StatefulContainer {
        name: "db".to_string(),
        image: "postgres:16".to_string(),
        history: vec![],
    });
    reg
}

#[test]
fn encode_empty_registry() {
    let reg = Registry::new();
    assert_eq!(encode_registry(&reg), "[]");
}

#[test]
fn encode_registry_exact_text() {
    let reg = two_container_registry();
    let expected = "[\n  {\n    \"name\": \"web\",\n    \"image\": \"nginx:latest\",\n    \"history\": [\n      {\n        \"container_id\": \"abc123\",\n        \"timestamp\": 1700000000,\n        \"image\": \"nginx:latest\"\n      },\n      {\n        \"container_id\": \"abc123\",\n        \"timestamp\": 1700000100,\n        \"image\": \"web:v2\"\n      }\n    ]\n  },\n  {\n    \"name\": \"db\",\n    \"image\": \"postgres:16\",\n    \"history\": []\n  }\n]";
    assert_eq!(encode_registry(&reg), expected);
}

#[test]
fn encode_escapes_quotes_and_backslashes() {
    let mut reg = Registry::new();
    reg.containers.push(StatefulContainer {
        name: "we\"b\\x".to_string(),
        image: "img".to_string(),
        history: vec![],
    });
    assert_eq!(encode_registry(&reg), "[\n  {\n    \"name\": \"we\\\"b\\\\x\",\n    \"image\": \"img\",\n    \"history\": []\n  }\n]");
}

#[test]
fn encode_config_exact_text() {
    let c = Config {
        use_sudo: true,
        container_runtime: Runtime::Podman,
    };
    assert_eq!(
        encode_config(&c),
        "{\n  \"use_sudo\": true,\n  \"container_runtime\": \"podman\"\n}"
    );
    assert_eq!(
        encode_config(&Config::default_config()),
        "{\n  \"use_sudo\": false,\n  \"container_runtime\": \"docker\"\n}"
    );
}

// The persisted text round trip: what the library saves, a JSON reader
// loads back as the identical sequence of containers, history order kept.
#[test]
fn registry_save_load_round_trip() {
    let reg = two_container_registry();
    let text = encode_registry(&reg);
    let value: serde_json::Value = serde_json::from_str(&text).unwrap();
    let arr = value.as_array().unwrap();
    assert_eq!(arr.len(), reg.containers.len());
    for (c, v) in reg.containers.iter().zip(arr.iter()) {
        assert_eq!(v["name"].as_str().unwrap(), c.name);
        assert_eq!(v["image"].as_str().unwrap(), c.image);
        let hist = v["history"].as_array().unwrap();
        assert_eq!(hist.len(), c.history.len());
        for (e, ev) in c.history.iter().zip(hist.iter()) {
            assert_eq!(ev["container_id"].as_str().unwrap(), e.container_id);
            assert_eq!(ev["timestamp"].as_i64().unwrap(), e.timestamp);
            assert_eq!(ev["image"].as_str().unwrap(), e.image);
        }
    }
}

#[test]
fn config_round_trip_through_json_reader() {
    let c = Config {
        use_sudo: true,
        container_runtime: Runtime::Podman,
    };
    let text = encode_config(&c);
    let value: serde_json::Value = serde_json::from_str(&text).unwrap();
    assert_eq!(value["use_sudo"].as_bool().unwrap(), true);
    assert_eq!(value["container_runtime"].as_str().unwrap(), "podman");
}

#[test]
fn list_text_empty_registry() {
    let reg = Registry::new();
    assert_eq!(list_text(&reg), "No stateful containers found.\n");
}

#[test]
fn list_text_reports_containers_and_history() {
    let reg = two_container_registry();
    let text = list_text(&reg);
    let expected = "Stateful Container: web\n  Current Image: nginx:latest\n  History:\n    - id: abc123, at: 1700000000, image: nginx:latest\n    - id: abc123, at: 1700000100, image: web:v2\nStateful Container: db\n  Current Image: postgres:16\n  History:\n";
    assert_eq!(text, expected);
}
