use kafka_rocksdb::database::Database;
use kafka_rocksdb::error::KafkaRocksDBError;
use kafka_rocksdb::kafka_rocksdb::{KafkaRocksDB, OffsetCommit, StorageAck, Step};
use kafka_rocksdb::record::Record;
use kafka_rocksdb::settings::{ConfigMap, PrometheusExporterSettings, RocksDBSettings, Settings};
use kafka_rocksdb::stream_signal_ext::GateState;

fn settings(topics: &[&str]) -> Settings {
    Settings {
        topics: topics.iter().map(|t| t.to_string()).collect(),
        kafka: ConfigMap::new(),
        rocksdb: RocksDBSettings {
            directory: String::from("/var/lib/kafka-rocksdb"),
        },
        prometheus: PrometheusExporterSettings {
            address: String::from("127.0.0.1:9184"),
        },
    }
}

fn record(topic: &str, partition: u32, offset: u64, key: Option<&str>, value: Option<&str>) -> Record {
    Record {
        topic: topic.to_string(),
        partition,
        offset,
        key: key.map(|k| k.as_bytes().to_vec()),
        value: value.map(|v| v.as_bytes().to_vec()),
    }
}

/// Applies one record with a durable write and delivers its commit,
/// panicking on anything the happy path does not expect.
fn apply_and_commit(p: &mut KafkaRocksDB, r: &Record) {
    match p.handle_message(r, StorageAck::Durable) {
        Step::Commit(c) => {
            p.on_commit_result(&c, true).unwrap();
        }
        other => panic!("expected a commit request, got {:?}", step_name(&other)),
    }
}

fn step_name(s: &Step) -> &'static str {
    match s {
        Step::Skipped => "Skipped",
        Step::Commit(_) => "Commit",
        Step::Fatal(_) => "Fatal",
    }
}

#[test]
fn last_value_wins_and_absent_value_deletes() {
    let mut p = KafkaRocksDB::new(&settings(&["prices"]));
    apply_and_commit(&mut p, &record("prices", 0, 1, Some("AAPL"), Some("100")));
    assert_eq!(p.get("prices", b"AAPL"), Some(&b"100".to_vec()));
    apply_and_commit(&mut p, &record("prices", 0, 2, Some("AAPL"), Some("101")));
    assert_eq!(p.get("prices", b"AAPL"), Some(&b"101".to_vec()));
    apply_and_commit(&mut p, &record("prices", 0, 3, Some("AAPL"), None));
    assert_eq!(p.get("prices", b"AAPL"), None);
}

#[test]
fn distinct_keys_keep_their_last_values() {
    let mut p = KafkaRocksDB::new(&settings(&["prices"]));
    apply_and_commit(&mut p, &record("prices", 0, 1, Some("AAPL"), Some("100")));
    apply_and_commit(&mut p, &record("prices", 0, 2, Some("MSFT"), Some("50")));
    apply_and_commit(&mut p, &record("prices", 0, 3, Some("GOOG"), None));
    assert_eq!(p.get("prices", b"AAPL"), Some(&b"100".to_vec()));
    assert_eq!(p.get("prices", b"MSFT"), Some(&b"50".to_vec()));
    assert_eq!(p.get("prices", b"GOOG"), None);
}

#[test]
fn write_completes_before_commit_is_requested() {
    // The instrumented commit collaborator: at the moment the pipeline
    // asks for the commit of offset O, the write for O must already be
    // readable in the store.
    let mut p = KafkaRocksDB::new(&settings(&["prices"]));
    let r = record("prices", 3, 17, Some("AAPL"), Some("100"));
    match p.handle_message(&r, StorageAck::Durable) {
        Step::Commit(c) => {
            assert_eq!(p.get("prices", b"AAPL"), Some(&b"100".to_vec()));
            assert_eq!(c.topic, "prices");
            assert_eq!(c.partition, 3);
            assert_eq!(c.offset, 17);
            p.on_commit_result(&c, true).unwrap();
            assert_eq!(p.committed("prices", 3), Some(17));
        }
        other => panic!("expected a commit request, got {:?}", step_name(&other)),
    }
}

#[test]
fn commit_failure_does_not_abort_the_next_offset() {
    let mut p = KafkaRocksDB::new(&settings(&["prices"]));
    match p.handle_message(&record("prices", 0, 5, Some("AAPL"), Some("100")), StorageAck::Durable) {
        Step::Commit(c) => {
            // The commit call for offset 5 fails; fail-soft swallows it.
            assert!(p.on_commit_result(&c, false).is_ok());
            assert_eq!(p.committed("prices", 0), None);
        }
        other => panic!("expected a commit request, got {:?}", step_name(&other)),
    }
    // Offset 6 on the same partition is processed as if nothing happened.
    match p.handle_message(&record("prices", 0, 6, Some("AAPL"), Some("101")), StorageAck::Durable) {
        Step::Commit(c) => {
            p.on_commit_result(&c, true).unwrap();
            assert_eq!(p.committed("prices", 0), Some(6));
        }
        other => panic!("expected a commit request, got {:?}", step_name(&other)),
    }
    assert_eq!(p.get("prices", b"AAPL"), Some(&b"101".to_vec()));
}

#[test]
fn apply_failure_is_fatal_and_never_committed() {
    let mut p = KafkaRocksDB::new(&settings(&["prices"]));
    let r = record("prices", 0, 9, Some("AAPL"), Some("100"));
    match p.handle_message(&r, StorageAck::MediumFailure) {
        Step::Fatal(e) => assert_eq!(e, KafkaRocksDBError::RocksDBError),
        other => panic!("expected a fatal step, got {:?}", step_name(&other)),
    }
    // Nothing was applied and no commit was requested for offset 9.
    assert_eq!(p.get("prices", b"AAPL"), None);
    assert_eq!(p.committed("prices", 0), None);
}

#[test]
fn replaying_a_record_is_idempotent() {
    let mut p = KafkaRocksDB::new(&settings(&["prices"]));
    let r = record("prices", 0, 4, Some("AAPL"), Some("100"));
    apply_and_commit(&mut p, &r);
    assert_eq!(p.get("prices", b"AAPL"), Some(&b"100".to_vec()));
    // Redelivery after a simulated crash between write and commit.
    apply_and_commit(&mut p, &r);
    assert_eq!(p.get("prices", b"AAPL"), Some(&b"100".to_vec()));

    let d = record("prices", 0, 5, Some("AAPL"), None);
    apply_and_commit(&mut p, &d);
    assert_eq!(p.get("prices", b"AAPL"), None);
    apply_and_commit(&mut p, &d);
    assert_eq!(p.get("prices", b"AAPL"), None);
}

#[test]
fn namespaces_are_independent() {
    let mut p = KafkaRocksDB::new(&settings(&["a", "b"]));
    apply_and_commit(&mut p, &record("a", 0, 1, Some("x"), Some("v1")));
    apply_and_commit(&mut p, &record("b", 0, 1, Some("x"), Some("v2")));
    assert_eq!(p.get("a", b"x"), Some(&b"v1".to_vec()));
    assert_eq!(p.get("b", b"x"), Some(&b"v2".to_vec()));
    // Deleting in one namespace leaves the other untouched.
    apply_and_commit(&mut p, &record("a", 0, 2, Some("x"), None));
    assert_eq!(p.get("a", b"x"), None);
    assert_eq!(p.get("b", b"x"), Some(&b"v2".to_vec()));
}

#[test]
fn termination_mid_apply_drains_and_commits_the_inflight_record() {
    let mut p = KafkaRocksDB::new(&settings(&["prices"]));
    assert!(p.request_allowed());
    let r = record("prices", 0, 8, Some("AAPL"), Some("100"));
    // The record is mid-apply when the signal fires.
    let step = p.handle_message(&r, StorageAck::Durable);
    p.on_termination_signal();
    assert!(!p.request_allowed());
    assert_eq!(p.gate_state(), GateState::Draining);
    // The in-flight apply completed and its commit is still issued.
    match step {
        Step::Commit(c) => {
            p.on_commit_result(&c, true).unwrap();
            assert_eq!(p.committed("prices", 0), Some(8));
        }
        other => panic!("expected a commit request, got {:?}", step_name(&other)),
    }
    p.drain_complete();
    assert_eq!(p.gate_state(), GateState::Stopped);
    assert!(!p.request_allowed());
    // A late signal changes nothing.
    p.on_termination_signal();
    assert_eq!(p.gate_state(), GateState::Stopped);
}

#[test]
fn keyless_record_is_skipped_without_store_mutation() {
    let mut p = KafkaRocksDB::new(&settings(&["prices"]));
    let before = p.messages_processed();
    match p.handle_message(&record("prices", 0, 1, None, Some("100")), StorageAck::Durable) {
        Step::Skipped => {}
        other => panic!("expected a skip, got {:?}", step_name(&other)),
    }
    assert_eq!(p.messages_processed(), before);
    assert_eq!(p.get("prices", b"AAPL"), None);
    assert_eq!(p.committed("prices", 0), None);
    // Processing continues with the next record.
    apply_and_commit(&mut p, &record("prices", 0, 2, Some("AAPL"), Some("100")));
    assert_eq!(p.get("prices", b"AAPL"), Some(&b"100".to_vec()));
}

#[test]
fn undeclared_topic_is_a_fatal_configuration_defect() {
    let mut p = KafkaRocksDB::new(&settings(&["prices"]));
    match p.handle_message(&record("trades", 0, 1, Some("k"), Some("v")), StorageAck::Durable) {
        Step::Fatal(KafkaRocksDBError::ColumnFamilyNotFound(t)) => assert_eq!(t, "trades"),
        other => panic!("expected a fatal step, got {:?}", step_name(&other)),
    }
    assert_eq!(p.get("trades", b"k"), None);
}

#[test]
fn processed_counter_counts_only_successful_applies() {
    let mut p = KafkaRocksDB::new(&settings(&["prices"]));
    assert_eq!(p.messages_processed(), 0);
    apply_and_commit(&mut p, &record("prices", 0, 1, Some("AAPL"), Some("1")));
    assert_eq!(p.messages_processed(), 1);
    // A skipped record, an undeclared topic and a medium failure are not
    // applies and do not count.
    let _ = p.handle_message(&record("prices", 0, 2, None, Some("2")), StorageAck::Durable);
    let _ = p.handle_message(&record("other", 0, 3, Some("k"), Some("3")), StorageAck::Durable);
    let _ = p.handle_message(
        &record("prices", 0, 4, Some("k"), Some("4")),
        StorageAck::MediumFailure,
    );
    assert_eq!(p.messages_processed(), 1);
}

#[test]
fn commit_cursor_never_moves_backwards() {
    let mut p = KafkaRocksDB::new(&settings(&["prices"]));
    let high = OffsetCommit {
        topic: String::from("prices"),
        partition: 2,
        offset: 40,
    };
    let low = OffsetCommit {
        topic: String::from("prices"),
        partition: 2,
        offset: 7,
    };
    p.on_commit_result(&high, true).unwrap();
    assert_eq!(p.committed("prices", 2), Some(40));
    p.on_commit_result(&low, true).unwrap();
    assert_eq!(p.committed("prices", 2), Some(40));
    // Cursors for different partitions are independent.
    let other = OffsetCommit {
        topic: String::from("prices"),
        partition: 3,
        offset: 7,
    };
    p.on_commit_result(&other, true).unwrap();
    assert_eq!(p.committed("prices", 3), Some(7));
    assert_eq!(p.committed("prices", 2), Some(40));
}

#[test]
fn duplicate_topics_share_one_namespace() {
    let mut db = Database::new(&settings(&["prices", "prices"]));
    db.update("prices", b"k", Some(b"v")).unwrap();
    assert_eq!(db.get("prices", b"k"), Some(&b"v".to_vec()));
}

#[test]
fn database_rejects_undeclared_namespace() {
    let mut db = Database::new(&settings(&["prices"]));
    match db.update("trades", b"k", Some(b"v")) {
        Err(KafkaRocksDBError::ColumnFamilyNotFound(t)) => assert_eq!(t, "trades"),
        other => panic!("expected a missing namespace error, got {:?}", other),
    }
}

#[test]
fn database_delete_of_absent_key_is_a_no_op() {
    let mut db = Database::new(&settings(&["prices"]));
    db.update("prices", b"k", None).unwrap();
    assert_eq!(db.get("prices", b"k"), None);
    db.update("prices", b"k", Some(b"v")).unwrap();
    db.update("prices", b"other", None).unwrap();
    assert_eq!(db.get("prices", b"k"), Some(&b"v".to_vec()));
}
