use sigscan::LogSink;

#[test]
fn emitted_lines_keep_send_order() {
    // Messages from one producer stand in the log in the order they were
    // sent.
    let mut sink = LogSink::new();
    sink.emit(b"first".to_vec());
    sink.emit(b"second".to_vec());
    sink.emit(b"third".to_vec());
    assert_eq!(sink.len(), 3);
    let lines = sink.lines();
    assert_eq!(lines[0], b"first".to_vec());
    assert_eq!(lines[1], b"second".to_vec());
    assert_eq!(lines[2], b"third".to_vec());
}

#[test]
fn drain_returns_all_in_order_and_empties() {
    let mut sink = LogSink::new();
    sink.emit(b"a".to_vec());
    sink.emit(b"b".to_vec());
    let drained = sink.drain();
    assert_eq!(drained, vec![b"a".to_vec(), b"b".to_vec()]);
    assert_eq!(sink.len(), 0);
    sink.emit(b"c".to_vec());
    assert_eq!(sink.drain(), vec![b"c".to_vec()]);
}
