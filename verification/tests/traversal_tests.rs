use xray::traversal::{is_module_file, normalize_path, scan_target, should_ignore, top_dir_of,
    ScanEntry};

fn bytes(s: &str) -> Vec<u8> {
    s.as_bytes().to_vec()
}

#[test]
fn normalization_strips_dot_slash_and_backslashes() {
    assert_eq!(normalize_path(&bytes("./a/b.go")), bytes("a/b.go"));
    assert_eq!(normalize_path(&bytes("a\\b\\c.rs")), bytes("a/b/c.rs"));
    assert_eq!(normalize_path(&bytes(".\\x.md")), bytes("x.md"));
    assert_eq!(normalize_path(&bytes("plain.txt")), bytes("plain.txt"));
    assert_eq!(normalize_path(&bytes("")), bytes(""));
}

#[test]
fn ignore_rules_match_whole_segments_only() {
    assert!(should_ignore(&bytes(".git")));
    assert!(should_ignore(&bytes("a/node_modules/b.js")));
    assert!(should_ignore(&bytes("deep/down/vendor/x")));
    assert!(should_ignore(&bytes("target")));
    assert!(should_ignore(&bytes("coverage/report.html")));
    assert!(!should_ignore(&bytes("vendored/file.txt")));
    assert!(!should_ignore(&bytes("my.git/file")));
    assert!(!should_ignore(&bytes("src/main.rs")));
    assert!(!should_ignore(&bytes("retarget/x")));
}

#[test]
fn top_dir_buckets() {
    assert_eq!(top_dir_of(&bytes("cmd/foo/bar.go")), bytes("cmd"));
    assert_eq!(top_dir_of(&bytes("README.md")), bytes("."));
    assert_eq!(top_dir_of(&bytes("a/b")), bytes("a"));
}

#[test]
fn module_files_at_root_only() {
    assert!(is_module_file(&bytes("go.mod")));
    assert!(is_module_file(&bytes("Cargo.toml")));
    assert!(is_module_file(&bytes("package.json")));
    assert!(is_module_file(&bytes("Makefile")));
    assert!(is_module_file(&bytes("Dockerfile")));
    assert!(is_module_file(&bytes(".git")));
    assert!(!is_module_file(&bytes("sub/package.json")));
    assert!(!is_module_file(&bytes("other.json")));
    assert!(!is_module_file(&bytes("makefile")));
}

#[test]
fn nested_manifest_is_no_module_file() {
    let entries = vec![
        ScanEntry {
            path: bytes("sub/package.json"),
            size: 2,
            content: Some(b"{}".to_vec()),
        },
        ScanEntry {
            path: bytes("go.mod"),
            size: 10,
            content: Some(b"module m\n\n".to_vec()),
        },
    ];
    let scan = scan_target(&entries, false).unwrap();
    assert_eq!(scan.module_files, vec![bytes("go.mod")]);
}

#[test]
fn records_sorted_by_path() {
    let entries = vec![
        ScanEntry { path: bytes("z.go"), size: 2, content: Some(b"z\n".to_vec()) },
        ScanEntry { path: bytes("a.go"), size: 2, content: Some(b"a\n".to_vec()) },
        ScanEntry { path: bytes("m/x.go"), size: 2, content: Some(b"m\n".to_vec()) },
    ];
    let scan = scan_target(&entries, false).unwrap();
    let paths: Vec<Vec<u8>> = scan.files.iter().map(|f| f.path.clone()).collect();
    assert_eq!(paths, vec![bytes("a.go"), bytes("m/x.go"), bytes("z.go")]);
}
