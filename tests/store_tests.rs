use aethel::cli::parse_key_val;
use aethel::clock::Timestamp;
use aethel::codec::{parse_artifact, ArtifactFrontmatter};
use aethel::config::get_config_path;
use aethel::error::AethelError;
use aethel::index::IndexTable;
use aethel::store::{
    append_to_artifact, ensure_vault_exists, generate_filename, get_plugin_artifact_dir,
    get_plugin_source_dir, get_vault_path, has_inverted_timestamps, is_document_path, join_path,
    new_artifact, scan_entry, scan_vault_artifacts,
};
use aethel::text::remove_occurrences;
use aethel::value::HeaderValue;

const DOC_A: &str = "---\nuuid: 67e55044-10b1-426f-9247-bb680e5fe0c8\ntype: core_note/note\ncreatedAt: 2024-01-02T03:04:05Z\nupdatedAt: 2024-01-01T03:04:05Z\nschemaVersion: '1.0'\n---\nA\n";
const DOC_B: &str = "---\nuuid: 936da01f-9abd-4d9d-80c7-02af85c822a8\ntype: core_note/note\ncreatedAt: 2024-01-02T03:04:05Z\nupdatedAt: 2024-01-02T03:04:05Z\nschemaVersion: '1.0'\n---\nB\n";

fn rows(v: &[(&str, &str)]) -> Vec<(String, String)> {
    v.iter().map(|(a, b)| (a.to_string(), b.to_string())).collect()
}

#[test]
fn index_insert_lookup_delete() {
    let mut t = IndexTable::new();
    assert!(t.insert("a".to_string(), "x.md".to_string()).is_ok());
    assert!(matches!(
        t.insert("a".to_string(), "y.md".to_string()),
        Err(AethelError::DuplicateIdentifier(d)) if d == "a"
    ));
    assert_eq!(t.lookup("a"), Some("x.md".to_string()));
    assert_eq!(t.lookup("b"), None);
    t.delete("a");
    assert_eq!(t.lookup("a"), None);
}

#[test]
fn index_rebuild_is_idempotent() {
    let files = rows(&[
        ("20_artifacts/n/a.md", DOC_A),
        ("20_artifacts/n/readme.txt", DOC_B),
        ("20_artifacts/n/broken.md", "no header"),
        ("20_artifacts/n/b.md", DOC_B),
    ]);
    let inventory = scan_vault_artifacts(&files);
    assert_eq!(
        inventory,
        rows(&[
            ("67e55044-10b1-426f-9247-bb680e5fe0c8", "20_artifacts/n/a.md"),
            ("936da01f-9abd-4d9d-80c7-02af85c822a8", "20_artifacts/n/b.md"),
        ])
    );
    let mut t = IndexTable::new();
    t.insert("stale".to_string(), "gone.md".to_string()).unwrap();
    t.rebuild(inventory.clone()).unwrap();
    let first = t.rows().clone();
    t.rebuild(scan_vault_artifacts(&files)).unwrap();
    assert_eq!(t.rows(), &first);
    assert_eq!(t.lookup("stale"), None);
    assert_eq!(t.lookup("67e55044-10b1-426f-9247-bb680e5fe0c8"), Some("20_artifacts/n/a.md".to_string()));
}

#[test]
fn index_rebuild_refuses_repeated_identifier() {
    let mut t = IndexTable::new();
    t.insert("keep".to_string(), "k.md".to_string()).unwrap();
    let r = t.rebuild(rows(&[("a", "1.md"), ("a", "2.md")]));
    assert!(matches!(r, Err(AethelError::DuplicateIdentifier(_))));
    assert_eq!(t.lookup("keep"), Some("k.md".to_string()));
}

#[test]
fn document_paths() {
    assert!(is_document_path("20_artifacts/x/a.md"));
    assert!(is_document_path("a.md"));
    assert!(!is_document_path("20_artifacts/x/.md"));
    assert!(!is_document_path("notes.md/readme"));
    assert!(!is_document_path("a.txt"));
    assert!(scan_entry("a.txt", DOC_A).is_none());
    assert_eq!(
        scan_entry("a.md", DOC_B),
        Some(("936da01f-9abd-4d9d-80c7-02af85c822a8".to_string(), "a.md".to_string()))
    );
}

#[test]
fn path_helpers() {
    assert_eq!(join_path("v", "a"), "v/a");
    assert_eq!(join_path("v/", "a"), "v/a");
    assert_eq!(join_path("", "a"), "a");
    assert_eq!(get_plugin_source_dir("/vault", "core_note"), "/vault/10_sources/core_note");
    assert_eq!(get_config_path("/home/u/.config/aethel"), "/home/u/.config/aethel/config.json");
    let t = Timestamp { secs: 1_700_000_000, nanos: 0 };
    assert_eq!(get_plugin_artifact_dir("core_note", &t), Some("20_artifacts/core_note/2023/11".to_string()));
    assert_eq!(generate_filename(&t), Some("2023-11-14-22-13-20".to_string()));
}

#[test]
fn vault_checks() {
    assert_eq!(get_vault_path("/v", true).unwrap(), "/v");
    assert!(matches!(get_vault_path("/v", false), Err(AethelError::VaultNotFound(p)) if p == "/v"));
    assert!(ensure_vault_exists("/v", true).is_ok());
    assert!(matches!(ensure_vault_exists("/w", false), Err(AethelError::VaultNotFound(p)) if p == "/w"));
}

#[test]
fn append_adds_blank_line_and_time() {
    let mut a = parse_artifact(DOC_B).unwrap();
    append_to_artifact(&mut a, "more", "2025-01-01T00:00:00Z".to_string());
    assert_eq!(a.content, "B\n\nmore");
    assert_eq!(a.frontmatter.updated_at, "2025-01-01T00:00:00Z");
    let mut e = new_artifact("t", "id".to_string(), "now".to_string(), None, &vec![], String::new());
    append_to_artifact(&mut e, "first", "later".to_string());
    assert_eq!(e.content, "first");
}

#[test]
fn new_artifact_fields_replace_by_key() {
    let fields = rows(&[("title", "Other"), ("mood", "ok"), ("mood", "fine")]);
    let a = new_artifact("core_note/note", "id".to_string(), "now".to_string(), Some("T".to_string()), &fields, "b".to_string());
    let f: &ArtifactFrontmatter = &a.frontmatter;
    assert_eq!(f.extra.len(), 2);
    assert_eq!(f.extra[0].0, "title");
    assert!(matches!(&f.extra[0].1, HeaderValue::Str(s) if s == "Other"));
    assert!(matches!(&f.extra[1].1, HeaderValue::Str(s) if s == "fine"));
    assert_eq!(f.schema_version, "1.0");
    assert!(f.tags.is_empty());
    assert_eq!(f.created_at, f.updated_at);
}

#[test]
fn inverted_timestamps_are_detected() {
    let a = parse_artifact(DOC_A).unwrap();
    assert_eq!(has_inverted_timestamps(&a.frontmatter), Some(true));
    let b = parse_artifact(DOC_B).unwrap();
    assert_eq!(has_inverted_timestamps(&b.frontmatter), Some(false));
}

#[test]
fn key_value_arguments() {
    assert_eq!(parse_key_val("a=b=c"), Ok(("a".to_string(), "b=c".to_string())));
    assert_eq!(parse_key_val("=x"), Ok((String::new(), "x".to_string())));
    assert_eq!(parse_key_val("ab"), Err("no `=` found in `ab`".to_string()));
}

#[test]
fn schema_stem_drops_marker() {
    assert_eq!(remove_occurrences("note.aethel", ".aethel"), "note");
    assert_eq!(remove_occurrences("a.aethel.aethelx", ".aethel"), "ax");
    assert_eq!(remove_occurrences("plain", ".aethel"), "plain");
}
