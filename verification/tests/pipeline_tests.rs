use xray::build_index;
use xray::canonical::validate_sort_order;
use xray::digest::calculate_digest;
use xray::hashing::compute_file_hash;
use xray::json::JsonValue;
use xray::language::detect_language;
use xray::schema::XrayIndex;
use xray::traversal::{ScanEntry, ScanError, scan_target};

fn entry(path: &str, content: &[u8]) -> ScanEntry {
    ScanEntry {
        path: path.as_bytes().to_vec(),
        size: content.len() as u64,
        content: Some(content.to_vec()),
    }
}

fn fixture_entries() -> Vec<ScanEntry> {
    vec![
        entry("./main.go", b"package main\nfunc main() {}\n"),
        entry("README.md", b"# Demo\n"),
        entry("package.json", b"{}\n"),
        entry("vendor/ignored.txt", b"nope\n"),
    ]
}

fn scan_fixture() -> (XrayIndex, Vec<u8>) {
    let scan = scan_target(&fixture_entries(), true).unwrap();
    build_index(b"demo".to_vec(), b".".to_vec(), scan)
}

#[test]
fn end_to_end_fixture() {
    let (index, bytes) = scan_fixture();
    let text = String::from_utf8(bytes).unwrap();

    assert!(text.contains("\"path\":\"main.go\""));
    assert!(text.contains(
        "sha256:15dfc4f51b4ed90211b566886f456d23d6984e1bb298460786c9740b01ac183e"
    ));
    assert!(!text.contains("vendor/ignored.txt"));
    assert!(!text.contains("ignored.txt"));
    assert!(text.contains("\"Go\":1"));
    assert!(text.contains("\"Markdown\":1"));
    assert!(text.contains("\"JSON\":1"));
    assert!(text.contains("\"package.json\""));
    assert!(text.contains("\".git\""));
    assert!(text.contains("\"schemaVersion\":\"1.0.0\""));
    assert!(text.starts_with("{\"digest\":\""));
    let files_pos = text.find("\"files\":").unwrap();
    let module_pos = text.find("\"moduleFiles\":").unwrap();
    let top_dirs_pos = text.find("\"topDirs\":").unwrap();
    assert!(files_pos < module_pos && module_pos < top_dirs_pos);

    assert_eq!(index.digest.len(), 64);
    assert!(index.digest.iter().all(|b| b.is_ascii_hexdigit()));
    assert_eq!(index.files.len(), 3);
    assert_eq!(index.stats.file_count, 3);
    let expected_total = 28 + 7 + 3;
    assert_eq!(index.stats.total_size, expected_total);
}

#[test]
fn determinism_two_scans_identical() {
    let (index1, bytes1) = scan_fixture();
    let (index2, bytes2) = scan_fixture();
    assert_eq!(bytes1, bytes2);
    assert_eq!(index1.digest, index2.digest);
}

#[test]
fn canonical_ordering_permuted_keys() {
    let v1 = JsonValue::Object(vec![
        (b"b".to_vec(), JsonValue::UInt(1)),
        (b"a".to_vec(), JsonValue::Str(b"x".to_vec())),
    ]);
    let v2 = JsonValue::Object(vec![
        (b"a".to_vec(), JsonValue::Str(b"x".to_vec())),
        (b"b".to_vec(), JsonValue::UInt(1)),
    ]);
    let s1 = xray::json::to_canonical_json(v1);
    let s2 = xray::json::to_canonical_json(v2);
    assert_eq!(s1, s2);
    assert_eq!(s1, b"{\"a\":\"x\",\"b\":1}".to_vec());
}

#[test]
fn canonical_escapes_and_nesting() {
    let v = JsonValue::Object(vec![
        (b"z".to_vec(), JsonValue::Array(vec![
            JsonValue::Null,
            JsonValue::Bool(true),
            JsonValue::Bool(false),
            JsonValue::UInt(1234567890),
        ])),
        (b"a\"b".to_vec(), JsonValue::Str(b"line\nbreak\\quote\"tab\t".to_vec())),
    ]);
    let s = xray::json::to_canonical_json(v);
    assert_eq!(
        String::from_utf8(s).unwrap(),
        "{\"a\\\"b\":\"line\\nbreak\\\\quote\\\"tab\\t\",\"z\":[null,true,false,1234567890]}"
    );
}

#[test]
fn digest_independent_of_input_order() {
    let (index, _) = scan_fixture();
    let mut reversed_files = Vec::new();
    for f in index.files.iter().rev() {
        reversed_files.push(f.duplicate());
    }
    let mut reversed_mods: Vec<Vec<u8>> = Vec::new();
    for m in index.module_files.iter().rev() {
        reversed_mods.push(m.clone());
    }
    let shuffled = XrayIndex {
        schema_version: index.schema_version.clone(),
        root: index.root.clone(),
        target: index.target.clone(),
        files: reversed_files,
        languages: index.languages.clone(),
        top_dirs: index.top_dirs.clone(),
        module_files: reversed_mods,
        stats: index.stats.clone(),
        digest: Vec::new(),
    };
    assert!(!validate_sort_order(&shuffled) || index.files.len() <= 1);
    let d1 = calculate_digest(&index);
    let d2 = calculate_digest(&shuffled);
    assert_eq!(d1, d2);
    assert_eq!(d1, index.digest);
}

#[test]
fn validate_sort_order_detects_disorder() {
    let (index, _) = scan_fixture();
    assert!(validate_sort_order(&index));
    let mut reversed_files = Vec::new();
    for f in index.files.iter().rev() {
        reversed_files.push(f.duplicate());
    }
    let disordered = XrayIndex {
        schema_version: index.schema_version.clone(),
        root: index.root.clone(),
        target: index.target.clone(),
        files: reversed_files,
        languages: index.languages.clone(),
        top_dirs: index.top_dirs.clone(),
        module_files: index.module_files.clone(),
        stats: index.stats.clone(),
        digest: Vec::new(),
    };
    assert!(!validate_sort_order(&disordered));
}

#[test]
fn ignore_list_any_depth() {
    let entries = vec![
        entry("src/ok.rs", b"fn main() {}\n"),
        entry("vendor/a.txt", b"v\n"),
        entry("deep/node_modules/pkg/index.js", b"x\n"),
        entry("deep/down/.git/config", b"c\n"),
        entry("a/target/debug/bin", b"b\n"),
    ];
    let scan = scan_target(&entries, false).unwrap();
    assert_eq!(scan.files.len(), 1);
    assert_eq!(scan.files[0].path, b"src/ok.rs".to_vec());
}

#[test]
fn aggregate_totals() {
    let entries = vec![
        entry("a.go", b"x\n"),
        entry("b.rs", b"y\ny\n"),
        entry("c.bin", &[0u8, 159, 146, 150]),
        entry("noext", b"plain\n"),
        entry("d/e.go", b"z\n"),
    ];
    let scan = scan_target(&entries, false).unwrap();
    assert_eq!(scan.stats.file_count, 5);
    assert_eq!(scan.stats.total_size, 2 + 4 + 4 + 6 + 2);
    let lang_sum: u64 = scan.languages.iter().map(|kv| kv.1).sum();
    assert!(lang_sum <= scan.files.len() as u64);
    let go_count = scan
        .languages
        .iter()
        .find(|kv| kv.0 == b"Go".to_vec())
        .map(|kv| kv.1);
    assert_eq!(go_count, Some(2));
    let dot_count = scan
        .top_dirs
        .iter()
        .find(|kv| kv.0 == b".".to_vec())
        .map(|kv| kv.1);
    assert_eq!(dot_count, Some(4));
    let d_count = scan
        .top_dirs
        .iter()
        .find(|kv| kv.0 == b"d".to_vec())
        .map(|kv| kv.1);
    assert_eq!(d_count, Some(1));
}

#[test]
fn total_size_overflow_is_reported() {
    let entries = vec![
        ScanEntry { path: b"big1".to_vec(), size: u64::MAX, content: None },
        ScanEntry { path: b"big2".to_vec(), size: 3000000, content: None },
    ];
    let r = scan_target(&entries, false);
    assert!(matches!(r, Err(ScanError::TotalSizeOverflow)));
}

#[test]
fn language_detection_cases() {
    let check = |path: &str, label: &str| {
        assert_eq!(
            detect_language(&path.as_bytes().to_vec()),
            label.as_bytes().to_vec(),
            "path {}",
            path
        );
    };
    check("Dockerfile", "Dockerfile");
    check("sub/dir/dockerfile", "Dockerfile");
    check("Makefile", "Makefile");
    check("src/MAKEFILE", "Makefile");
    check("main.go", "Go");
    check("lib.RS", "Rust");
    check("README.md", "Markdown");
    check("data.json", "JSON");
    check("a.yml", "YAML");
    check("b.yaml", "YAML");
    check("run.bash", "Shell");
    check("page.htm", "HTML");
    check("q.sql", "SQL");
    check("x.cxx", "C++");
    check("y.h", "C");
    check("infra.tf", "Terraform");
    check("notes.text", "Text");
    check("noext", "Unknown");
    check(".gitignore", "Unknown");
    check("weird.zzz", "Unknown");
}

#[test]
fn content_hash_known_vector() {
    let empty: Vec<u8> = Vec::new();
    assert_eq!(
        String::from_utf8(compute_file_hash(&empty)).unwrap(),
        "sha256:e3b0c44298fc1c149afbf4c8996fb92427ae41e4649b934ca495991b7852b855"
    );
    let readme = b"# Demo\n".to_vec();
    assert_eq!(
        String::from_utf8(compute_file_hash(&readme)).unwrap(),
        "sha256:31ca6c61ca3fcc54029a62bd082448b88718b913d24e195794969dd2d123b990"
    );
}

#[test]
fn unreadable_file_gets_empty_hash() {
    let entries = vec![
        ScanEntry { path: b"huge.bin".to_vec(), size: 5000000, content: None },
    ];
    let scan = scan_target(&entries, false).unwrap();
    assert_eq!(scan.files.len(), 1);
    assert_eq!(scan.files[0].hash, Vec::<u8>::new());
    assert_eq!(scan.files[0].loc, 0);
    assert_eq!(scan.files[0].size, 5000000);
    assert_eq!(scan.files[0].complexity, 0);
}

#[test]
fn default_index_fields() {
    let d = XrayIndex::default();
    assert_eq!(d.schema_version, b"1.0.0".to_vec());
    assert_eq!(d.root, b"unknown".to_vec());
    assert_eq!(d.target, b".".to_vec());
    assert!(d.files.is_empty());
    assert!(d.digest.is_empty());
    assert_eq!(d.stats.file_count, 0);
    assert_eq!(d.stats.total_size, 0);
}
