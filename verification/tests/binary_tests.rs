use reposnap::binary::{is_likely_binary_file, BINARY_SNIFF_LIMIT};

#[test]
fn empty_content_is_not_binary() {
    assert!(!is_likely_binary_file(&[]));
}

#[test]
fn plain_text_is_not_binary() {
    assert!(!is_likely_binary_file(b"hello world\n\tindented\r\n"));
}

#[test]
fn nul_byte_makes_content_binary() {
    assert!(is_likely_binary_file(b"hello\0world"));
    assert!(is_likely_binary_file(&[0]));
}

#[test]
fn nul_byte_behind_the_window_is_not_seen() {
    let mut bytes = vec![b'a'; BINARY_SNIFF_LIMIT];
    bytes.push(0);
    assert!(!is_likely_binary_file(&bytes));
    bytes[BINARY_SNIFF_LIMIT - 1] = 0;
    assert!(is_likely_binary_file(&bytes));
}

#[test]
fn exactly_a_tenth_of_control_bytes_is_not_binary() {
    let mut bytes = vec![b'a'; 9];
    bytes.push(1);
    assert!(!is_likely_binary_file(&bytes));
}

#[test]
fn more_than_a_tenth_of_control_bytes_is_binary() {
    let mut bytes = vec![b'a'; 8];
    bytes.push(1);
    assert!(is_likely_binary_file(&bytes));
    let mut larger = vec![b'a'; 18];
    larger.push(2);
    larger.push(31);
    assert!(!is_likely_binary_file(&larger));
    larger.push(27);
    assert!(is_likely_binary_file(&larger));
}

#[test]
fn line_breaks_and_tabs_are_no_control_bytes() {
    assert!(!is_likely_binary_file(b"\n\n\n\r\r\t\t\t"));
}

#[test]
fn control_bytes_behind_the_window_do_not_count() {
    let mut bytes = vec![b'a'; BINARY_SNIFF_LIMIT];
    bytes.extend(vec![1u8; 4096]);
    assert!(!is_likely_binary_file(&bytes));
}

#[test]
fn window_is_2048_bytes() {
    assert_eq!(BINARY_SNIFF_LIMIT, 2048);
}
