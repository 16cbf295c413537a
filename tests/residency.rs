use bson::Bson;
use rusdb::collection::Collection;
use rusdb::config::{EngineConfig, GrpcConfig, LogConfig, LogLevel, RusDbConfig};
use rusdb::document::Document;
use rusdb::lifecycle::{step, LoopAction, LoopEvent, LoopKind, LoopState};
use rusdb::persist::{decode_collection, encode_collection};
use rusdb::service::RusDbServ;
use rusdb::store::ResidencyTable;

fn bytes_of(k: &str, v: Bson) -> Vec<u8> {
    let mut d = bson::Document::new();
    d.insert(k, v);
    bson::to_vec(&d).unwrap()
}

#[test]
fn swept_collection_reloads_identically() {
    let serv = RusDbServ;
    let name = "users".to_string();
    let mut table = ResidencyTable::new(600_000);
    assert!(!table.touch(&name, 1_000));
    let mut col = Collection::new();
    serv.insert(&mut col, &vec![bytes_of("x", Bson::Int32(1))], false).unwrap();
    let disk = encode_collection(&col).unwrap();
    assert!(table.expired(600_999).is_empty());
    let gone = table.expired(601_000);
    assert_eq!(gone, vec!["users".to_string()]);
    assert!(table.is_resident(&name));
    assert!(table.evict(&name));
    assert!(!table.evict(&name));
    assert!(!table.is_resident(&name));
    assert!(!table.touch(&name, 700_000));
    let back = decode_collection(&disk).unwrap();
    let before = serv.find(&col, None, None);
    let after = serv.find(&back, None, None);
    assert_eq!(before.len(), after.len());
    assert_eq!(before[0].fields.len(), after[0].fields.len());
    for (a, b) in before[0].fields.iter().zip(after[0].fields.iter()) {
        assert_eq!(a.key, b.key);
        assert_eq!(a.value, b.value);
    }
}

#[test]
fn touch_refreshes_flush_time() {
    let mut table = ResidencyTable::new(10);
    let a = "a".to_string();
    let b = "b".to_string();
    assert!(!table.touch(&a, 0));
    assert!(!table.touch(&b, 5));
    assert!(table.touch(&a, 8));
    assert_eq!(table.entries[0].last_access, 8);
    assert_eq!(table.entries[0].flush_at, 18);
    assert_eq!(table.expired(15), vec!["b".to_string()]);
    assert!(table.evict(&b));
    assert_eq!(table.names(), vec!["a".to_string()]);
}

#[test]
fn flush_time_saturates() {
    let mut table = ResidencyTable::new(10);
    table.touch(&"a".to_string(), u64::MAX - 3);
    assert_eq!(table.entries[0].flush_at, u64::MAX);
}

#[test]
fn sanitize_lowers_and_refuses_separators() {
    let serv = RusDbServ;
    assert_eq!(serv.sanitize_collection("UsErS"), Some("users".to_string()));
    assert_eq!(serv.sanitize_collection("a.b"), None);
    assert_eq!(serv.sanitize_collection("../etc"), None);
    assert_eq!(serv.sanitize_collection("a\\b"), None);
    assert_eq!(serv.sanitize_collection(""), Some(String::new()));
}

#[test]
fn log_levels() {
    let lv = |l: Option<u8>| LogConfig { path: None, level: l };
    assert_eq!(lv(Some(0)).log_level(false), LogLevel::Off);
    assert_eq!(lv(Some(1)).log_level(false), LogLevel::Error);
    assert_eq!(lv(Some(2)).log_level(false), LogLevel::Warn);
    assert_eq!(lv(Some(3)).log_level(false), LogLevel::Info);
    assert_eq!(lv(Some(4)).log_level(false), LogLevel::Debug);
    assert_eq!(lv(Some(5)).log_level(false), LogLevel::Trace);
    assert_eq!(lv(Some(200)).log_level(true), LogLevel::Trace);
    assert_eq!(lv(None).log_level(true), LogLevel::Debug);
    assert_eq!(lv(None).log_level(false), LogLevel::Info);
}

#[test]
fn config_defaults() {
    let c = RusDbConfig::default();
    assert_eq!(c.grpc.ip, "127.0.0.1");
    assert_eq!(c.grpc.port, 8009);
    assert_eq!(c.engine.cache_time, 1);
    assert_eq!(c.engine.flush_time, 10);
    assert!(c.engine.dir.is_none());
    assert!(c.logging.is_none());
    assert_eq!(GrpcConfig::default().port, 8009);
    let l = LogConfig::default();
    assert!(l.path.is_none() && l.level.is_none());
    let e = EngineConfig::default();
    assert_eq!(e.sync_period_ms(), 60_000);
    assert_eq!(e.flush_interval_ms(), 600_000);
    assert_eq!(e.storage_dir(), "./rusdb");
    let e2 = EngineConfig { cache_time: 2, flush_time: 3, dir: Some("/data".to_string()) };
    assert_eq!(e2.storage_dir(), "/data");
}

#[test]
fn loops_stop_on_shutdown() {
    assert_eq!(step(LoopKind::Sync, LoopState::Running, LoopEvent::Tick), (LoopState::Running, LoopAction::SyncAll));
    assert_eq!(step(LoopKind::Sweep, LoopState::Running, LoopEvent::Tick), (LoopState::Running, LoopAction::SweepExpired));
    assert_eq!(step(LoopKind::Sync, LoopState::Running, LoopEvent::Shutdown), (LoopState::Draining, LoopAction::FinalSync));
    assert_eq!(step(LoopKind::Sweep, LoopState::Running, LoopEvent::Shutdown), (LoopState::Stopped, LoopAction::Exit));
    assert_eq!(step(LoopKind::Sync, LoopState::Draining, LoopEvent::Drained), (LoopState::Stopped, LoopAction::Exit));
    assert_eq!(step(LoopKind::Sync, LoopState::Draining, LoopEvent::Tick), (LoopState::Draining, LoopAction::Wait));
    assert_eq!(step(LoopKind::Sync, LoopState::Stopped, LoopEvent::Tick), (LoopState::Stopped, LoopAction::Wait));
}

#[test]
fn document_set_and_merge() {
    let mut d = Document::new();
    d.set("a".to_string(), vec![1]);
    d.set("b".to_string(), vec![2]);
    d.set("a".to_string(), vec![3]);
    assert_eq!(d.len(), 2);
    assert_eq!(d.fields[0].key, "a");
    assert_eq!(d.fields[0].value, vec![3]);
    let mut u = Document::new();
    u.set("_id".to_string(), vec![7]);
    u.set("c".to_string(), vec![4]);
    d.merge(&u);
    assert_eq!(d.len(), 3);
    assert!(d.get(&"_id".to_string()).is_none());
    assert_eq!(d.get(&"c".to_string()), Some(&vec![4]));
}
