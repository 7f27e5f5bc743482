use xray::loc::{compute_loc, LOC_BIG_FILE_CAP_BYTES};

#[test]
fn test_empty_file() {
    let content: Vec<u8> = Vec::new();
    let stats = compute_loc(0, Some(&content));
    assert_eq!(stats.loc, 0);
    assert!(!stats.skipped);
}

#[test]
fn test_normal_file() {
    let content = b"line1\nline2\n".to_vec();
    let stats = compute_loc(content.len() as u64, Some(&content));
    assert_eq!(stats.loc, 2);
}

#[test]
fn test_no_trailing_newline() {
    let content = b"line1\nline2".to_vec();
    let stats = compute_loc(content.len() as u64, Some(&content));
    assert_eq!(stats.loc, 2);
}

#[test]
fn test_single_line_no_newline() {
    let content = b"line1".to_vec();
    let stats = compute_loc(content.len() as u64, Some(&content));
    assert_eq!(stats.loc, 1);
}

#[test]
fn test_crlf_normalization() {
    let content = b"line1\r\nline2".to_vec();
    let stats = compute_loc(content.len() as u64, Some(&content));
    assert_eq!(stats.loc, 2);
}

#[test]
fn test_binary_skipped() {
    let content = vec![0, 159, 146, 150];
    let stats = compute_loc(content.len() as u64, Some(&content));
    assert!(stats.skipped);
    assert_eq!(stats.loc, 0);
}

#[test]
fn test_large_file_skipped() {
    let big_data = vec![b'a'; (LOC_BIG_FILE_CAP_BYTES + 1) as usize];
    let stats = compute_loc(big_data.len() as u64, Some(&big_data));
    assert!(stats.skipped);
    assert_eq!(stats.loc, 0);
}

#[test]
fn cap_boundary_processed_and_skipped() {
    let at_cap = vec![b'a'; LOC_BIG_FILE_CAP_BYTES as usize];
    let stats = compute_loc(at_cap.len() as u64, Some(&at_cap));
    assert!(!stats.skipped);
    assert_eq!(stats.loc, 1);
    assert_eq!(stats.size, LOC_BIG_FILE_CAP_BYTES);

    let over_cap = vec![b'a'; (LOC_BIG_FILE_CAP_BYTES + 1) as usize];
    let stats = compute_loc(over_cap.len() as u64, Some(&over_cap));
    assert!(stats.skipped);
    assert_eq!(stats.loc, 0);
    assert_eq!(stats.size, LOC_BIG_FILE_CAP_BYTES + 1);
}

#[test]
fn line_count_edge_cases() {
    let cases: Vec<(&[u8], u64)> = vec![
        (b"", 0),
        (b"a", 1),
        (b"a\n", 1),
        (b"a\nb", 2),
        (b"a\r\nb", 2),
    ];
    for (bytes, expected) in cases {
        let content = bytes.to_vec();
        let stats = compute_loc(content.len() as u64, Some(&content));
        assert_eq!(stats.loc, expected);
        assert!(!stats.skipped);
    }
}

#[test]
fn invalid_utf8_skipped_empty_not() {
    let invalid = vec![0xff, 0xfe, 0x41];
    let stats = compute_loc(invalid.len() as u64, Some(&invalid));
    assert!(stats.skipped);
    assert_eq!(stats.loc, 0);

    let empty: Vec<u8> = Vec::new();
    let stats = compute_loc(0, Some(&empty));
    assert!(!stats.skipped);
    assert_eq!(stats.loc, 0);
}
