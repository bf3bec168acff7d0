use sigscan::{render_findings, ScanEntry, Scanner, SignatureStore};

fn db(lines: &[&str]) -> Vec<Vec<u8>> {
    lines.iter().map(|l| l.as_bytes().to_vec()).collect()
}

fn eicar_store() -> SignatureStore {
    SignatureStore::load(&db(&["EICAR=58354f2150254041"])).unwrap()
}

#[test]
fn round_trip_eicar() {
    // A database {"EICAR"="58354f2150254041"} and a file beginning with
    // those bytes produce exactly one finding: path -> "EICAR".
    let mut scanner = Scanner::new(eicar_store());
    let contents = b"X5O!P%@AP[4\\PZX54(P^)7CC)7}".to_vec();
    let matched = scanner.visit_file(&b"/scan/eicar.com".to_vec(), Some(&contents), 3);
    assert_eq!(matched, Some(b"EICAR".to_vec()));
    let snap = scanner.get_risk_files().snapshot();
    assert_eq!(snap.len(), 1);
    assert_eq!(snap[0].path, b"/scan/eicar.com".to_vec());
    assert_eq!(snap[0].id, b"EICAR".to_vec());
}

#[test]
fn clean_file_is_never_registered() {
    let mut scanner = Scanner::new(eicar_store());
    let contents = b"plain text, nothing to see".to_vec();
    let matched = scanner.visit_file(&b"/scan/clean.txt".to_vec(), Some(&contents), 1);
    assert_eq!(matched, None);
    assert_eq!(scanner.get_risk_files().len(), 0);
    assert_eq!(scanner.get_files().len(), 1);
}

fn entries_with_times(base_ms: u64) -> Vec<ScanEntry> {
    let mut es = vec![ScanEntry::Directory { path: b"/scan".to_vec(), elapsed_ms: base_ms }];
    for i in 0..20 {
        let path = format!("/scan/f{}", i).into_bytes();
        let contents = if i % 2 == 0 {
            b"X5O!P%@A tail".to_vec()
        } else {
            b"harmless".to_vec()
        };
        es.push(ScanEntry::File { path, contents: Some(contents), elapsed_ms: base_ms + i });
    }
    es
}

#[test]
fn scanning_twice_gives_identical_findings() {
    // Identical discoveries with different timing values: both runs give the
    // same registry and the same found lists.
    let mut s1 = Scanner::new(eicar_store());
    let mut s2 = Scanner::new(eicar_store());
    s1.run(&entries_with_times(1), 11);
    s2.run(&entries_with_times(99), 42);
    assert_eq!(s1.get_files(), s2.get_files());
    assert_eq!(s1.get_dirs(), s2.get_dirs());
    let snap1 = s1.get_risk_files().snapshot();
    let snap2 = s2.get_risk_files().snapshot();
    assert_eq!(snap1.len(), snap2.len());
    for (a, b) in snap1.iter().zip(snap2.iter()) {
        assert_eq!(a.path, b.path);
        assert_eq!(a.id, b.id);
    }
}

#[test]
fn every_file_is_recorded_exactly_once() {
    let mut scanner = Scanner::new(eicar_store());
    let es = entries_with_times(0);
    let stats = scanner.run(&es, 7);
    assert_eq!(stats.elapsed_ms, 7);
    let files = scanner.get_files();
    assert_eq!(files.len(), 20);
    for i in 0..20 {
        assert_eq!(files[i], format!("/scan/f{}", i).into_bytes());
    }
    let mut sorted = files.clone();
    sorted.sort();
    sorted.dedup();
    assert_eq!(sorted.len(), 20);
    assert_eq!(scanner.get_dirs().len(), 1);
    // Half the files began with the pattern.
    assert_eq!(scanner.get_risk_files().len(), 10);
}

#[test]
fn unreadable_file_is_logged_and_skipped() {
    // One unreadable file among ten: the other nine are processed, the
    // failure is logged, and the scan completes.
    let mut scanner = Scanner::new(eicar_store());
    let mut es: Vec<ScanEntry> = Vec::new();
    for i in 0..10 {
        let path = format!("/scan/f{}", i).into_bytes();
        let contents = if i == 5 { None } else { Some(b"X5O!P%@A tail".to_vec()) };
        es.push(ScanEntry::File { path, contents, elapsed_ms: 1 });
    }
    scanner.run(&es, 9);
    assert_eq!(scanner.get_files().len(), 10);
    assert_eq!(scanner.get_risk_files().len(), 9);
    assert_eq!(scanner.get_risk_files().lookup(&b"/scan/f5".to_vec()), None);
    let log = scanner.drain_log();
    assert!(log.contains(&b"Unreadable file: /scan/f5".to_vec()));
}

#[test]
fn run_logs_one_line_per_entry_plus_total() {
    let mut scanner = Scanner::new(eicar_store());
    let es = vec![
        ScanEntry::Directory { path: b"/d".to_vec(), elapsed_ms: 0 },
        ScanEntry::File { path: b"/d/x".to_vec(), contents: Some(b"hi".to_vec()), elapsed_ms: 2 },
        ScanEntry::File { path: b"/d/y".to_vec(), contents: None, elapsed_ms: 0 },
    ];
    scanner.run(&es, 15);
    let log = scanner.drain_log();
    assert_eq!(log.len(), 4);
    assert_eq!(log[0], b"Directory: /d - Time: 0ms".to_vec());
    assert_eq!(log[1], b"File: /d/x - Time: 2ms".to_vec());
    assert_eq!(log[2], b"Unreadable file: /d/y".to_vec());
    assert_eq!(log[3], b"Total runtime: 15ms".to_vec());
    // Draining empties the sink.
    assert_eq!(scanner.drain_log().len(), 0);
}

#[test]
fn findings_render_as_risky_file_lines() {
    let mut scanner = Scanner::new(eicar_store());
    scanner.visit_file(&b"/scan/bad".to_vec(), Some(&b"X5O!P%@A".to_vec()), 1);
    let snap = scanner.get_risk_files().snapshot();
    let lines = render_findings(&snap);
    assert_eq!(lines.len(), 1);
    assert_eq!(lines[0], b"Risky file: /scan/bad - Signature: EICAR".to_vec());
}
