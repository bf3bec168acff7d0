use sigscan::bytes::to_decimal;
use sigscan::logfmt::{
    format_dir_line, format_file_line, format_finding_line, format_total_line,
    format_unreadable_line,
};

#[test]
fn decimal_rendering_is_exact() {
    assert_eq!(to_decimal(0), b"0".to_vec());
    assert_eq!(to_decimal(7), b"7".to_vec());
    assert_eq!(to_decimal(10), b"10".to_vec());
    assert_eq!(to_decimal(1234567890), b"1234567890".to_vec());
    assert_eq!(to_decimal(u64::MAX), b"18446744073709551615".to_vec());
}

#[test]
fn trace_lines_are_exact() {
    assert_eq!(
        format_file_line(&b"/a/b.txt".to_vec(), 12),
        b"File: /a/b.txt - Time: 12ms".to_vec()
    );
    assert_eq!(format_dir_line(&b"/a".to_vec(), 0), b"Directory: /a - Time: 0ms".to_vec());
    assert_eq!(format_unreadable_line(&b"/a/locked".to_vec()), b"Unreadable file: /a/locked".to_vec());
    assert_eq!(format_total_line(250), b"Total runtime: 250ms".to_vec());
}

#[test]
fn finding_line_is_exact() {
    assert_eq!(
        format_finding_line(&b"/a/bad".to_vec(), &b"EICAR".to_vec()),
        b"Risky file: /a/bad - Signature: EICAR".to_vec()
    );
}
