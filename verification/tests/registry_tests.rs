use rayon::iter::{IntoParallelRefIterator, ParallelIterator};
use sigscan::RiskRegistry;
use std::sync::Mutex;

#[test]
fn record_and_lookup() {
    let mut reg = RiskRegistry::new();
    assert_eq!(reg.len(), 0);
    reg.record(b"/tmp/a".to_vec(), b"SIG1".to_vec());
    reg.record(b"/tmp/b".to_vec(), b"SIG2".to_vec());
    assert_eq!(reg.len(), 2);
    assert_eq!(reg.lookup(&b"/tmp/a".to_vec()), Some(b"SIG1".to_vec()));
    assert_eq!(reg.lookup(&b"/tmp/b".to_vec()), Some(b"SIG2".to_vec()));
    assert_eq!(reg.lookup(&b"/tmp/c".to_vec()), None);
}

#[test]
fn record_overwrites_same_path() {
    let mut reg = RiskRegistry::new();
    reg.record(b"/tmp/a".to_vec(), b"OLD".to_vec());
    reg.record(b"/tmp/a".to_vec(), b"NEW".to_vec());
    assert_eq!(reg.len(), 1);
    assert_eq!(reg.lookup(&b"/tmp/a".to_vec()), Some(b"NEW".to_vec()));
}

#[test]
fn snapshot_is_a_point_in_time_copy_in_order() {
    let mut reg = RiskRegistry::new();
    reg.record(b"p1".to_vec(), b"s1".to_vec());
    reg.record(b"p2".to_vec(), b"s2".to_vec());
    let snap = reg.snapshot();
    reg.record(b"p3".to_vec(), b"s3".to_vec());
    assert_eq!(snap.len(), 2);
    assert_eq!(snap[0].path, b"p1".to_vec());
    assert_eq!(snap[0].id, b"s1".to_vec());
    assert_eq!(snap[1].path, b"p2".to_vec());
    assert_eq!(snap[1].id, b"s2".to_vec());
    assert_eq!(reg.len(), 3);
}

#[test]
fn concurrent_records_lose_nothing() {
    // Many workers record distinct paths through a shared lock: every path
    // ends up registered exactly once, for any worker count.
    let reg = Mutex::new(RiskRegistry::new());
    let paths: Vec<Vec<u8>> = (0..200).map(|i| format!("/scan/file{}", i).into_bytes()).collect();
    paths.par_iter().for_each(|p| {
        reg.lock().unwrap().record(p.clone(), b"SIG".to_vec());
    });
    let reg = reg.into_inner().unwrap();
    assert_eq!(reg.len(), 200);
    for p in &paths {
        assert_eq!(reg.lookup(p), Some(b"SIG".to_vec()));
    }
}
