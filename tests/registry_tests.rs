use aethel::codec::{parse_artifact, parse_markdown_frontmatter, serialize_artifact};
use aethel::clock::Timestamp;
use aethel::error::AethelError;
use aethel::models::{Plugin, Schema, SchemaField};
use aethel::registry::{
    build_registry, cache_is_fresh, create_new_artifact, latest_mtime, schema_from_header, split_type,
};
use aethel::resolver::base_fields;
use aethel::value::HeaderValue;

fn field(name: &str, kind: &str) -> SchemaField {
    SchemaField {
        name: name.to_string(),
        field_type: kind.to_string(),
        required: true,
        description: None,
        default: None,
    }
}

fn schema(name: &str, extends: Option<&str>, fields: Vec<SchemaField>) -> Schema {
    Schema { name: name.to_string(), extends: extends.map(|s| s.to_string()), description: None, fields }
}

fn plugin(id: &str, schemas: Vec<Schema>) -> Plugin {
    Plugin {
        id: id.to_string(),
        name: id.to_string(),
        description: String::new(),
        version: "1.0".to_string(),
        author: None,
        schemas,
    }
}

fn names(fs: &[SchemaField]) -> Vec<String> {
    fs.iter().map(|f| f.name.clone()).collect()
}

const BASE: [&str; 6] = ["uuid", "type", "createdAt", "updatedAt", "tags", "schemaVersion"];

#[test]
fn base_fields_are_the_six_builtins() {
    let b = base_fields();
    assert_eq!(names(&b), BASE.to_vec());
    assert!(!b[4].required);
    assert!(matches!(&b[4].default, Some(HeaderValue::Sequence(v)) if v.is_empty()));
    assert_eq!(b[2].field_type, "datetime");
}

#[test]
fn three_level_chain_overlays_by_name() {
    let a = schema("a", None, vec![field("title", "string")]);
    let b = schema("b", Some("p/a"), vec![field("tags", "list"), field("author", "string")]);
    let c = schema("c", Some("p/b"), vec![field("title", "text"), field("rating", "number")]);
    let reg = build_registry(vec![plugin("p", vec![c, b, a])]).unwrap();
    let rb = reg.resolved_fields("p/b").unwrap();
    let rc = reg.resolved_fields("p/c").unwrap();
    let mut expected_b: Vec<String> = BASE.iter().map(|s| s.to_string()).collect();
    expected_b.push("title".to_string());
    expected_b.push("author".to_string());
    assert_eq!(names(rb), expected_b);
    assert_eq!(rb[4].field_type, "list");
    let mut expected_c = expected_b.clone();
    expected_c.push("rating".to_string());
    assert_eq!(names(rc), expected_c);
    assert_eq!(rc[6].field_type, "text");
    assert_eq!(rc[4].field_type, "list");
}

#[test]
fn cycle_is_reported() {
    let x = schema("x", Some("p/y"), vec![]);
    let y = schema("y", Some("p/x"), vec![]);
    match build_registry(vec![plugin("p", vec![x, y])]) {
        Err(AethelError::CircularSchemaDependency(n)) => assert!(n == "p/x" || n == "p/y"),
        _ => panic!("expected a circular dependency"),
    }
}

#[test]
fn self_extension_is_a_cycle() {
    let x = schema("x", Some("p/x"), vec![]);
    assert!(matches!(
        build_registry(vec![plugin("p", vec![x])]),
        Err(AethelError::CircularSchemaDependency(n)) if n == "p/x"
    ));
}

#[test]
fn missing_parent_is_reported() {
    let x = schema("x", Some("q/none"), vec![]);
    assert!(matches!(
        build_registry(vec![plugin("p", vec![x])]),
        Err(AethelError::SchemaNotFound(n)) if n == "q/none"
    ));
}

#[test]
fn shared_parent_resolves_for_every_child() {
    let a = schema("a", None, vec![]);
    let b = schema("b", Some("p/a"), vec![]);
    let c = schema("c", Some("p/a"), vec![]);
    let reg = build_registry(vec![plugin("p", vec![b, a, c])]).unwrap();
    assert_eq!(reg.resolved_schemas.len(), 3);
    assert!(reg.has_plugin("p"));
    assert!(!reg.has_plugin("q"));
}

#[test]
fn cache_freshness_rule() {
    let tree = vec![10u128, 30, 20];
    assert_eq!(latest_mtime(&tree), 30);
    assert_eq!(latest_mtime(&vec![]), 0);
    assert!(cache_is_fresh(Some(31), &Some(tree.clone())));
    assert!(!cache_is_fresh(Some(30), &Some(tree.clone())));
    let mut touched = tree.clone();
    touched[0] = 40;
    assert!(!cache_is_fresh(Some(31), &Some(touched)));
    assert!(!cache_is_fresh(None, &Some(tree.clone())));
    assert!(!cache_is_fresh(Some(31), &None));
}

#[test]
fn type_tag_splits_at_first_slash() {
    assert_eq!(split_type("core_note/note"), ("core_note".to_string(), "note".to_string()));
    assert_eq!(split_type("a/b/c"), ("a".to_string(), "b/c".to_string()));
    assert_eq!(split_type("note"), ("core_note".to_string(), "note".to_string()));
}

const NOTE_SCHEMA: &str = "---\nname: note\ndescription: A simple text note\nfields:\n  - name: title\n    type: string\n    required: true\n    description: The title of the note\n---\n\n# Note Schema\n";

const PLUGIN_DEF: &str = "---\nname: Core Note\nversion: 1.0\ndescription: Basic note-taking plugin\nauthor: Aethel Team\n---\n\n# Core Note Plugin\n";

#[test]
fn reads_extension_and_schema_definitions() {
    let (ph, _) = parse_markdown_frontmatter(PLUGIN_DEF).unwrap();
    let p = Plugin::from_header("core_note", &ph);
    assert_eq!(p.id, "core_note");
    assert_eq!(p.name, "Core Note");
    assert_eq!(p.version, "1.0");
    assert_eq!(p.author.as_deref(), Some("Aethel Team"));
    let (sh, _) = parse_markdown_frontmatter(NOTE_SCHEMA).unwrap();
    let s = schema_from_header("note.aethel", &sh);
    assert_eq!(s.name, "note");
    assert_eq!(s.extends, None);
    assert_eq!(s.description.as_deref(), Some("A simple text note"));
    assert_eq!(s.fields.len(), 1);
    assert_eq!(s.fields[0].name, "title");
    assert!(s.fields[0].required);
}

#[test]
fn extension_defaults_when_header_is_sparse() {
    let (ph, _) = parse_markdown_frontmatter("---\nother: 1\n---\n").unwrap();
    let p = Plugin::from_header("ext", &ph);
    assert_eq!(p.name, "ext");
    assert_eq!(p.description, "");
    assert_eq!(p.version, "1.0");
    assert_eq!(p.author, None);
}

#[test]
fn add_schema_replaces_same_name() {
    let mut p = plugin("p", vec![]);
    p.add_schema(schema("a", None, vec![]));
    p.add_schema(schema("b", None, vec![]));
    p.add_schema(schema("a", Some("p/b"), vec![]));
    assert_eq!(p.schemas.len(), 2);
    assert_eq!(p.schemas[0].extends.as_deref(), Some("p/b"));
}

#[test]
fn end_to_end_note_scenario() {
    let (ph, _) = parse_markdown_frontmatter(PLUGIN_DEF).unwrap();
    let mut p = Plugin::from_header("core_note", &ph);
    let (sh, _) = parse_markdown_frontmatter(NOTE_SCHEMA).unwrap();
    p.add_schema(schema_from_header("note.aethel", &sh));
    let reg = build_registry(vec![p]).unwrap();
    let fields = reg.resolved_fields("core_note/note").unwrap();
    let mut expected: Vec<String> = BASE.iter().map(|s| s.to_string()).collect();
    expected.push("title".to_string());
    assert_eq!(names(fields), expected);
    assert!(fields[6].required);

    let now = Timestamp { secs: 1_700_000_000, nanos: 0 };
    let (doc, path) = create_new_artifact(
        &reg,
        Some("core_note/note"),
        "hello",
        None,
        &vec![],
        "67e55044-10b1-426f-9247-bb680e5fe0c8".to_string(),
        &now,
    )
    .unwrap();
    assert_eq!(path, "20_artifacts/core_note/2023/11/2023-11-14-22-13-20.md");
    let text = serialize_artifact(&doc).unwrap();
    let back = parse_artifact(&text).unwrap();
    assert_eq!(back.content, "hello");
    assert!(back.frontmatter.tags.is_empty());
    assert_eq!(back.frontmatter.artifact_type, "core_note/note");
}

#[test]
fn new_document_errors() {
    let reg = build_registry(vec![plugin("core_note", vec![])]).unwrap();
    let now = Timestamp { secs: 0, nanos: 0 };
    let id = "67e55044-10b1-426f-9247-bb680e5fe0c8".to_string();
    assert!(matches!(
        create_new_artifact(&reg, None, "x", None, &vec![], id.clone(), &now),
        Err(AethelError::ValidationError(_))
    ));
    assert!(matches!(
        create_new_artifact(&reg, Some("other/x"), "x", None, &vec![], id.clone(), &now),
        Err(AethelError::PluginNotFound(n)) if n == "other"
    ));
    let far = Timestamp { secs: i64::MAX, nanos: 0 };
    assert!(matches!(
        create_new_artifact(&reg, Some("note"), "x", None, &vec![], id, &far),
        Err(AethelError::ValidationError(_))
    ));
}
