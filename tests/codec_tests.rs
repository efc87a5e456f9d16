use aethel::codec::{
    frame_document, parse_artifact, parse_markdown_frontmatter, serialize_artifact, split_frontmatter,
    Artifact, ArtifactFrontmatter,
};
use aethel::error::AethelError;
use aethel::value::HeaderValue;

const DOC: &str = "---\nuuid: 67e55044-10b1-426f-9247-bb680e5fe0c8\ntype: core_note/note\ncreatedAt: 2024-01-02T03:04:05Z\nupdatedAt: 2024-01-02T03:04:05Z\nschemaVersion: '1.0'\ntitle: Hello\n---\n\nbody text\n";

fn sample() -> Artifact {
    Artifact {
        frontmatter: ArtifactFrontmatter {
            uuid: "67e55044-10b1-426f-9247-bb680e5fe0c8".to_string(),
            artifact_type: "core_note/note".to_string(),
            created_at: "2024-01-02T03:04:05Z".to_string(),
            updated_at: "2024-01-03T03:04:05Z".to_string(),
            tags: vec!["a".to_string(), "b".to_string()],
            schema_version: "1.0".to_string(),
            extra: vec![
                ("title".to_string(), HeaderValue::Str("Hello".to_string())),
                ("count".to_string(), HeaderValue::Number("3".to_string())),
            ],
        },
        content: "hello".to_string(),
    }
}

#[test]
fn parses_a_document() {
    let a = parse_artifact(DOC).unwrap();
    assert_eq!(a.frontmatter.uuid, "67e55044-10b1-426f-9247-bb680e5fe0c8");
    assert_eq!(a.frontmatter.artifact_type, "core_note/note");
    assert_eq!(a.frontmatter.schema_version, "1.0");
    assert!(a.frontmatter.tags.is_empty());
    assert_eq!(a.frontmatter.extra.len(), 1);
    assert_eq!(a.frontmatter.extra[0].0, "title");
    assert!(matches!(&a.frontmatter.extra[0].1, HeaderValue::Str(t) if t == "Hello"));
    assert_eq!(a.content, "body text");
}

#[test]
fn single_delimiter_is_malformed() {
    let r = parse_artifact("---\nuuid: x\nno closing delimiter\n");
    assert!(matches!(r, Err(AethelError::MalformedDocument(_))));
    assert!(matches!(split_frontmatter("no delimiter at all"), Err(AethelError::MalformedDocument(_))));
}

#[test]
fn split_takes_first_two_delimiters() {
    let (h, b) = split_frontmatter("x---head---body---more").unwrap();
    assert_eq!(h, "head");
    assert_eq!(b, "body---more");
}

#[test]
fn frame_writes_delimiters() {
    assert_eq!(frame_document("a: 1\n", "text"), "---\na: 1\n---\ntext");
}

#[test]
fn missing_required_key_is_malformed() {
    let r = parse_artifact("---\ntype: t\n---\nbody");
    assert!(matches!(r, Err(AethelError::MalformedDocument(_))));
}

#[test]
fn invalid_uuid_is_malformed() {
    let doc = DOC.replace("67e55044-10b1-426f-9247-bb680e5fe0c8", "not-a-uuid");
    assert!(matches!(parse_artifact(&doc), Err(AethelError::MalformedDocument(_))));
}

#[test]
fn invalid_time_is_malformed() {
    let doc = DOC.replace("createdAt: 2024-01-02T03:04:05Z", "createdAt: yesterday");
    assert!(matches!(parse_artifact(&doc), Err(AethelError::MalformedDocument(_))));
}

#[test]
fn round_trip_keeps_modelled_and_unknown_fields() {
    let a = sample();
    let text = serialize_artifact(&a).unwrap();
    assert!(text.starts_with("---\n"));
    let b = parse_artifact(&text).unwrap();
    assert_eq!(b.frontmatter.uuid, a.frontmatter.uuid);
    assert_eq!(b.frontmatter.artifact_type, a.frontmatter.artifact_type);
    assert_eq!(b.frontmatter.created_at, a.frontmatter.created_at);
    assert_eq!(b.frontmatter.updated_at, a.frontmatter.updated_at);
    assert_eq!(b.frontmatter.tags, a.frontmatter.tags);
    assert_eq!(b.frontmatter.schema_version, a.frontmatter.schema_version);
    assert_eq!(b.frontmatter.extra.len(), 2);
    assert_eq!(b.frontmatter.extra[0].0, "title");
    assert!(matches!(&b.frontmatter.extra[0].1, HeaderValue::Str(t) if t == "Hello"));
    assert_eq!(b.frontmatter.extra[1].0, "count");
    assert!(matches!(&b.frontmatter.extra[1].1, HeaderValue::Number(n) if n == "3"));
    assert_eq!(b.content, "hello");
}

#[test]
fn body_is_trimmed_on_parse() {
    let doc = DOC.replace("\n\nbody text\n", "\n  \n  padded  \n\n");
    assert_eq!(parse_artifact(&doc).unwrap().content, "padded");
}

#[test]
fn definition_header_is_decoded() {
    let (h, body) = parse_markdown_frontmatter("---\nname: Core\n---\n# Title\n").unwrap();
    assert!(matches!(h.get("name"), Some(HeaderValue::Str(n)) if n == "Core"));
    assert_eq!(body, "# Title");
    assert!(matches!(
        parse_markdown_frontmatter("---\nname: [unclosed\n---\n"),
        Err(AethelError::MalformedDocument(_))
    ));
}
