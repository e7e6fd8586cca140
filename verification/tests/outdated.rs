use dep_audit::outdated::{DepOutdated, DependencyValue};

#[test]
fn test_extract_version_string() {
    let v = DependencyValue::Text("1.0".to_string());
    assert_eq!(DepOutdated::extract_version(&v), Some("1.0".to_string()));
}

#[test]
fn test_extract_version_caret() {
    let v = DependencyValue::Text("^0.10".to_string());
    assert_eq!(DepOutdated::extract_version(&v), Some("0.10".to_string()));
}

#[test]
fn test_extract_version_table() {
    let v = DependencyValue::Table(vec![("version".to_string(), Some("1".to_string()))]);
    assert_eq!(DepOutdated::extract_version(&v), Some("1".to_string()));
}

#[test]
fn test_extract_version_git_dep() {
    let v = DependencyValue::Table(vec![("git".to_string(), Some("https://...".to_string()))]);
    assert_eq!(DepOutdated::extract_version(&v), None);
}

#[test]
fn test_parse_empty_json() {
    let deps = DepOutdated::parse_cargo_outdated_json("[]").unwrap();
    assert!(deps.is_empty());
}

#[test]
fn extract_version_edge_cases() {
    let text = |s: &str| DepOutdated::extract_version(&DependencyValue::Text(s.to_string()));
    assert_eq!(text(">=1.2, <2.0"), Some("1.2".to_string()));
    // a leading space stops the operator strip
    assert_eq!(text("  ~1.4 "), Some("~1.4".to_string()));
    assert_eq!(text("=1.4 "), Some("1.4".to_string()));
    assert_eq!(text("*"), None);
    assert_eq!(text("1"), None);
    let table = |s: &str| {
        DepOutdated::extract_version(&DependencyValue::Table(vec![
            ("features".to_string(), None),
            ("version".to_string(), Some(s.to_string())),
        ]))
    };
    assert_eq!(table(">=2.0"), Some(">=2.0".to_string()));
    assert_eq!(table("~3, <4"), Some("3".to_string()));
    // a non-string version entry gives nothing
    let v = DependencyValue::Table(vec![("version".to_string(), None)]);
    assert_eq!(DepOutdated::extract_version(&v), None);
    assert_eq!(DepOutdated::extract_version(&DependencyValue::Other), None);
}

#[test]
fn outdated_json_entries() {
    let json = r#" [
        {"name": "serde", "current": "1.0.0", "latest": "1.0.1"},
        {"name": "regex", "current": "1.5", "latest": "1.5", "kind": "dev"},
        {"name": "", "current": "1", "latest": "2"},
        {"name": "toml", "current": "0.5", "latest": "", "kind": "build"},
        {"name": "clap", "current": "3", "latest": "4", "kind": "build"}
    ] "#;
    let deps = DepOutdated::parse_cargo_outdated_json(json).unwrap();
    assert_eq!(deps.len(), 2);
    assert_eq!(deps[0].name, "serde");
    assert_eq!(deps[0].current, "1.0.0");
    assert_eq!(deps[0].latest, "1.0.1");
    assert_eq!(deps[0].kind, "normal");
    assert_eq!(deps[1].name, "clap");
    assert_eq!(deps[1].kind, "build");
}

#[test]
fn malformed_outdated_json_gives_nothing() {
    assert!(DepOutdated::parse_cargo_outdated_json("{\"dependencies\": []}").unwrap().is_empty());
    assert!(DepOutdated::parse_cargo_outdated_json("[{\"name\": 3}]").unwrap().is_empty());
    assert!(DepOutdated::parse_cargo_outdated_json("not json").unwrap().is_empty());
}

#[test]
fn outdated_entry_only_when_versions_differ() {
    let d = DepOutdated::outdated_entry("serde", "1.0", "1.1", "dev").unwrap();
    assert_eq!((d.name.as_str(), d.current.as_str(), d.latest.as_str(), d.kind.as_str()),
        ("serde", "1.0", "1.1", "dev"));
    assert!(DepOutdated::outdated_entry("serde", "1.0", "1.0", "normal").is_none());
}

#[test]
fn outdated_from_entries_reads_table_rows() {
    let rows = vec![vec![
        ("current".to_string(), "0.1".to_string()),
        ("latest".to_string(), "0.2".to_string()),
        ("name".to_string(), "x".to_string()),
    ]];
    let deps = DepOutdated::outdated_from_entries(&rows);
    assert_eq!(deps.len(), 1);
    assert_eq!(deps[0].kind, "normal");
}

#[test]
fn manifest_candidates_in_table_order() {
    let manifest = r#"
[dependencies]
serde = "^1.0"
anyhow = "1"
toml = { version = "~0.8" }
local = { path = "../local" }

[dev-dependencies]
proptest = ">=1.2, <2"

[build-dependencies]
cc = "1.0"
"#;
    let c = DepOutdated::outdated_candidates(manifest).unwrap();
    let c: Vec<(&str, &str, &str)> =
        c.iter().map(|(n, v, k)| (n.as_str(), v.as_str(), k.as_str())).collect();
    // table order is key order; "anyhow = \"1\"" has no '.', "local" has no version
    assert_eq!(
        c,
        vec![("serde", "1.0", "normal"), ("toml", "0.8", "normal"), ("proptest", "1.2", "dev")]
    );
    assert!(DepOutdated::outdated_candidates("[dependencies\n").is_err());
}

#[test]
fn latest_version_from_crates_io_response() {
    let body = r#"{"crate": {"id": "serde", "max_version": "1.0.219"}}"#;
    assert_eq!(DepOutdated::latest_version_from_response(body), Some("1.0.219".to_string()));
    assert_eq!(DepOutdated::latest_version_from_response(r#"{"crate": {"max_version": 3}}"#), None);
    assert_eq!(DepOutdated::latest_version_from_response("<html>"), None);
    assert_eq!(DepOutdated::latest_version_from_response(r#"{"errors": []}"#), None);
    assert_eq!(DepOutdated::latest_version_from_response(r#"{"crate": "serde"}"#), None);
    assert_eq!(DepOutdated::latest_version_from_response(r#"["crate"]"#), None);
    assert_eq!(
        DepOutdated::latest_version_from_response(r#"{"crate": {"max_version": "0.1.0-beta \"x\""}}"#),
        Some("0.1.0-beta \"x\"".to_string())
    );
}
