use kafka_rocksdb::consumer::kafka_client_config;
use kafka_rocksdb::error::KafkaRocksDBError;
use kafka_rocksdb::kafka_stream_ext::{CommitPolicy, ProgressTracker};
use kafka_rocksdb::settings::{
    is_kafka_env_key, kafka_environment_settings, normalized_kafka_key, str_eq, ConfigEntry,
    ConfigMap, PrometheusExporterSettings, RocksDBSettings, Settings,
};
use kafka_rocksdb::stream_signal_ext::{GateState, TerminationGate};

fn entry(k: &str, v: &str) -> ConfigEntry {
    ConfigEntry {
        key: k.to_string(),
        value: v.to_string(),
    }
}

fn settings_with_kafka(pairs: &[(&str, &str)]) -> Settings {
    let mut kafka = ConfigMap::new();
    for (k, v) in pairs {
        kafka.insert(k.to_string(), v.to_string());
    }
    Settings {
        topics: vec![String::from("prices")],
        kafka,
        rocksdb: RocksDBSettings {
            directory: String::from("/var/lib/kafka-rocksdb"),
        },
        prometheus: PrometheusExporterSettings {
            address: String::from("127.0.0.1:9184"),
        },
    }
}

#[test]
fn config_map_later_insert_wins() {
    let mut m = ConfigMap::new();
    assert!(m.get("group.id").is_none());
    m.insert("group.id".to_string(), "one".to_string());
    m.insert("group.id".to_string(), "two".to_string());
    assert_eq!(m.get("group.id"), Some(&"two".to_string()));
}

#[test]
fn override_kafka_settings_prefers_the_overrides() {
    let mut s = settings_with_kafka(&[("group.id", "configured"), ("client.id", "kr")]);
    let mut overrides = ConfigMap::new();
    overrides.insert("group.id".to_string(), "from-env".to_string());
    overrides.insert("fetch.min.bytes".to_string(), "1".to_string());
    s.override_kafka_settings(overrides);
    assert_eq!(s.kafka.get("group.id"), Some(&"from-env".to_string()));
    assert_eq!(s.kafka.get("client.id"), Some(&"kr".to_string()));
    assert_eq!(s.kafka.get("fetch.min.bytes"), Some(&"1".to_string()));
    assert!(s.kafka.get("absent").is_none());
}

#[test]
fn environment_entries_are_filtered_and_normalized() {
    let vars = vec![
        entry("KR_KAFKA_BOOTSTRAP_SERVERS", "localhost:9092"),
        entry("PATH", "/usr/bin"),
        entry("KR_KAFKA_GROUP_ID", "kr"),
        entry("KR_PROMETHEUS_ADDRESS", "127.0.0.1:9184"),
    ];
    let m = kafka_environment_settings(&vars);
    assert_eq!(
        m.get("bootstrap.servers"),
        Some(&"localhost:9092".to_string())
    );
    assert_eq!(m.get("group.id"), Some(&"kr".to_string()));
    assert!(m.get("prometheus.address").is_none());
    assert!(m.get("PATH").is_none());
}

#[test]
fn later_environment_entry_wins() {
    let vars = vec![
        entry("KR_KAFKA_GROUP_ID", "first"),
        entry("KR_KAFKA_GROUP_ID", "second"),
    ];
    let m = kafka_environment_settings(&vars);
    assert_eq!(m.get("group.id"), Some(&"second".to_string()));
}

#[test]
fn environment_key_prefix_is_exact() {
    assert!(is_kafka_env_key("KR_KAFKA_GROUP_ID"));
    assert!(is_kafka_env_key("KR_KAFKA_"));
    assert!(!is_kafka_env_key("KR_KAFK"));
    assert!(!is_kafka_env_key(""));
    assert!(!is_kafka_env_key("kr_kafka_group_id"));
    assert!(!is_kafka_env_key("XKR_KAFKA_GROUP_ID"));
}

#[test]
fn environment_key_normalization_lowers_and_dots() {
    assert_eq!(normalized_kafka_key("KR_KAFKA_GROUP_ID"), "group.id");
    assert_eq!(
        normalized_kafka_key("KR_KAFKA_BOOTSTRAP_SERVERS"),
        "bootstrap.servers"
    );
    assert_eq!(normalized_kafka_key("KR_KAFKA_"), "");
    assert_eq!(normalized_kafka_key("KR_KAFKA_Mixed9Z"), "mixed9z");
    // Lowercasing is the full one, not only ASCII.
    assert_eq!(normalized_kafka_key("KR_KAFKA_GRÖSSE"), "grösse");
}

#[test]
fn client_config_defaults_come_first_and_overrides_follow() {
    let s = settings_with_kafka(&[("group.id", "kr"), ("auto.offset.reset", "latest")]);
    let pairs = kafka_client_config(&s);
    let as_tuples: Vec<(&str, &str)> = pairs
        .iter()
        .map(|e| (e.key.as_str(), e.value.as_str()))
        .collect();
    assert_eq!(
        as_tuples,
        vec![
            ("auto.offset.reset", "earliest"),
            ("enable.auto.commit", "true"),
            ("enable.auto.offset.store", "false"),
            ("group.id", "kr"),
            ("auto.offset.reset", "latest"),
        ]
    );
}

#[test]
fn str_eq_compares_by_characters() {
    assert!(str_eq("", ""));
    assert!(str_eq("topic", "topic"));
    assert!(!str_eq("topic", "topics"));
    assert!(!str_eq("topic", "topik"));
}

#[test]
fn gate_runs_drains_and_stops_once() {
    let mut g = TerminationGate::new();
    assert_eq!(g.state, GateState::Running);
    assert!(g.request_allowed());
    // Completing while running changes nothing: the stream did not end.
    g.complete();
    assert_eq!(g.state, GateState::Running);
    g.on_signal();
    assert_eq!(g.state, GateState::Draining);
    assert!(!g.request_allowed());
    g.on_signal();
    assert_eq!(g.state, GateState::Draining);
    g.complete();
    assert_eq!(g.state, GateState::Stopped);
    g.complete();
    assert_eq!(g.state, GateState::Stopped);
}

#[test]
fn fail_loud_tracker_escalates_a_commit_failure() {
    let mut t = ProgressTracker::new(CommitPolicy::FailLoud);
    assert_eq!(t.policy(), CommitPolicy::FailLoud);
    match t.record_commit("prices", 0, 5, false) {
        Err(KafkaRocksDBError::KafkaError) => {}
        other => panic!("expected the log client's error, got {:?}", other),
    }
    assert_eq!(t.committed("prices", 0), None);
    // A delivered commit still advances the cursor.
    t.record_commit("prices", 0, 5, true).unwrap();
    assert_eq!(t.committed("prices", 0), Some(5));
}

#[test]
fn fail_soft_tracker_swallows_a_commit_failure() {
    let mut t = ProgressTracker::new(CommitPolicy::FailSoft);
    assert!(t.record_commit("prices", 1, 3, false).is_ok());
    assert_eq!(t.committed("prices", 1), None);
    t.record_commit("prices", 1, 3, true).unwrap();
    assert_eq!(t.committed("prices", 1), Some(3));
}
