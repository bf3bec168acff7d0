use sigscan::{LoadError, SignatureStore};

fn db(lines: &[&str]) -> Vec<Vec<u8>> {
    lines.iter().map(|l| l.as_bytes().to_vec()).collect()
}

#[test]
fn load_one_entry_and_match_it() {
    let store = SignatureStore::load(&db(&["EICAR=58354f2150254041"])).unwrap();
    assert_eq!(store.len(), 1);
    // 58 35 4f 21 50 25 40 41 = "X5O!P%@A"
    let mut file = b"X5O!P%@A-rest-of-the-file".to_vec();
    assert_eq!(store.match_prefix(&file), Some(b"EICAR".to_vec()));
    // A file that does not start with the pattern is not flagged.
    file = b"harmless X5O!P%@A".to_vec();
    assert_eq!(store.match_prefix(&file), None);
}

#[test]
fn decoded_pattern_is_bytes_not_hex_text() {
    // The stored pattern must be the decoded bytes: a file starting with the
    // literal hex text "41" must not match the pattern 0x41.
    let store = SignatureStore::load(&db(&["A=41"])).unwrap();
    assert_eq!(store.match_prefix(&b"41...".to_vec()), None);
    assert_eq!(store.match_prefix(&b"A-file".to_vec()), Some(b"A".to_vec()));
}

#[test]
fn malformed_lines_are_skipped() {
    let store = SignatureStore::load(&db(&[
        "",
        "no equals sign",
        "two=equals=signs",
        "# comment line",
        "GOOD=0a0b",
    ]))
    .unwrap();
    assert_eq!(store.len(), 1);
    assert_eq!(store.match_prefix(&vec![0x0a, 0x0b, 0xff]), Some(b"GOOD".to_vec()));
}

#[test]
fn empty_pattern_is_skipped() {
    let store = SignatureStore::load(&db(&["EMPTY="])).unwrap();
    assert_eq!(store.len(), 0);
    assert_eq!(store.match_prefix(&b"anything".to_vec()), None);
}

#[test]
fn duplicate_identifier_keeps_last_pattern() {
    let store = SignatureStore::load(&db(&["A=0a", "A=0b"])).unwrap();
    assert_eq!(store.len(), 1);
    assert_eq!(store.match_prefix(&vec![0x0b]), Some(b"A".to_vec()));
    assert_eq!(store.match_prefix(&vec![0x0a]), None);
}

#[test]
fn invalid_hex_is_fatal_with_line_index() {
    let r = SignatureStore::load(&db(&["OK=0a", "BAD=0g", "ALSO=0b"]));
    assert_eq!(r.err(), Some(LoadError::InvalidSignatureEncoding { line: 1 }));
}

#[test]
fn odd_length_hex_is_fatal() {
    let r = SignatureStore::load(&db(&["BAD=abc"]));
    assert_eq!(r.err(), Some(LoadError::InvalidSignatureEncoding { line: 0 }));
}

#[test]
fn first_matching_signature_wins() {
    let store = SignatureStore::load(&db(&["FIRST=58", "LONGER=5835"])).unwrap();
    assert_eq!(store.match_prefix(&vec![0x58, 0x35, 0x00]), Some(b"FIRST".to_vec()));
}

#[test]
fn get_database_exposes_decoded_signatures() {
    let store = SignatureStore::load(&db(&["EICAR=58354f2150254041"])).unwrap();
    let sigs = store.get_database();
    assert_eq!(sigs.len(), 1);
    assert_eq!(sigs[0].id, b"EICAR".to_vec());
    assert_eq!(sigs[0].pattern, b"X5O!P%@A".to_vec());
}

#[test]
fn case_insensitive_hex_decodes() {
    let store = SignatureStore::load(&db(&["X=DeAdBeEf"])).unwrap();
    assert_eq!(store.match_prefix(&vec![0xde, 0xad, 0xbe, 0xef, 0x01]), Some(b"X".to_vec()));
}
