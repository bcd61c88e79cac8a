use scon::codec::encode_registry;
use scon::model::{HistoryEntry, Registry, StatefulContainer};
use scon::parse::{parse_registry, reload};

fn sample_registry() -> Registry {
    let mut reg = Registry::new();
    reg.containers.push(StatefulContainer {
        name: "web".to_string(),
        image: "nginx:latest".to_string(),
        history: vec![
            HistoryEntry {
                container_id: "abc123".to_string(),
                timestamp: 1700000000,
                image: "nginx:latest".to_string(),
            },
            HistoryEntry {
                container_id: "abc123".to_string(),
                timestamp: -5,
                image: "web:v2".to_string(),
            },
        ],
    });
    reg.containers.push(StatefulContainer {
        name: "we\"ird\\name".to_string(),
        image: "img".to_string(),
        history: vec![],
    });
    reg
}

fn assert_same(a: &Registry, b: &Registry) {
    assert_eq!(a.containers.len(), b.containers.len());
    for (x, y) in a.containers.iter().zip(b.containers.iter()) {
        assert_eq!(x.name, y.name);
        assert_eq!(x.image, y.image);
        assert_eq!(x.history.len(), y.history.len());
        for (e, f) in x.history.iter().zip(y.history.iter()) {
            assert_eq!(e.container_id, f.container_id);
            assert_eq!(e.timestamp, f.timestamp);
            assert_eq!(e.image, f.image);
        }
    }
}

#[test]
fn round_trip_reproduces_the_registry() {
    let reg = sample_registry();
    let back = reload(&reg).unwrap();
    assert_same(&reg, &back);
}

#[test]
fn round_trip_of_the_empty_registry() {
    let reg = Registry::new();
    let back = reload(&reg).unwrap();
    assert!(back.containers.is_empty());
}

#[test]
fn parse_reads_saved_text() {
    let reg = sample_registry();
    let text = encode_registry(&reg);
    let back = parse_registry(&text).unwrap();
    assert_same(&reg, &back);
}

#[test]
fn parse_reads_extreme_timestamps() {
    let mut reg = Registry::new();
    reg.containers.push(StatefulContainer {
        name: "t".to_string(),
        image: "i".to_string(),
        history: vec![
            HistoryEntry {
                container_id: "a".to_string(),
                timestamp: i64::MIN,
                image: "i".to_string(),
            },
            HistoryEntry {
                container_id: "b".to_string(),
                timestamp: i64::MAX,
                image: "i".to_string(),
            },
        ],
    });
    let back = reload(&reg).unwrap();
    assert_same(&reg, &back);
}

#[test]
fn parse_rejects_corrupt_text() {
    assert!(parse_registry("").is_none());
    assert!(parse_registry("not json").is_none());
    assert!(parse_registry("[").is_none());
    assert!(parse_registry("[]]").is_none());
    assert!(parse_registry("[{\"name\":\"web\",\"image\":\"i\",\"history\":[]}]").is_none());
    assert!(
        parse_registry(
            "[\n  {\n    \"name\": \"w\",\n    \"image\": \"i\",\n    \"history\": [\n      {\n        \"container_id\": \"a\",\n        \"timestamp\": 007,\n        \"image\": \"i\"\n      }\n    ]\n  }\n]"
        )
        .is_none()
    );
    assert!(
        parse_registry(
            "[\n  {\n    \"name\": \"w\",\n    \"image\": \"i\",\n    \"history\": [\n      {\n        \"container_id\": \"a\",\n        \"timestamp\": -0,\n        \"image\": \"i\"\n      }\n    ]\n  }\n]"
        )
        .is_none()
    );
}

#[test]
fn parse_accepts_exact_canonical_text() {
    let text = "[\n  {\n    \"name\": \"web\",\n    \"image\": \"nginx:latest\",\n    \"history\": [\n      {\n        \"container_id\": \"abc\",\n        \"timestamp\": -42,\n        \"image\": \"web:v1\"\n      }\n    ]\n  }\n]";
    let reg = parse_registry(text).unwrap();
    assert_eq!(reg.containers.len(), 1);
    assert_eq!(reg.containers[0].name, "web");
    assert_eq!(reg.containers[0].history.len(), 1);
    assert_eq!(reg.containers[0].history[0].timestamp, -42);
    assert_eq!(reg.containers[0].history[0].image, "web:v1");
}
