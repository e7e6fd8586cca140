use dep_audit::unused::UnusedDetector;

#[test]
fn test_is_used_import() {
    let source = "use serde::Deserialize;";
    assert!(UnusedDetector::is_used("serde", source));
}

#[test]
fn test_is_used_extern() {
    let source = "extern crate regex;";
    assert!(UnusedDetector::is_used("regex", source));
}

#[test]
fn test_is_used_path() {
    let source = "clap::Parser::parse();";
    assert!(UnusedDetector::is_used("clap", source));
}

#[test]
fn test_is_used_derive() {
    let source = "#[serde(rename = \"foo\")]\nstruct Foo {}";
    assert!(UnusedDetector::is_used("serde", source));
}

#[test]
fn test_is_not_used() {
    let source = "fn main() { println!(\"hello\"); }";
    assert!(!UnusedDetector::is_used("serde", source));
}

#[test]
fn test_hyphenated_crate() {
    let source = "use cargo_metadata::MetadataCommand;";
    assert!(UnusedDetector::is_used("cargo-metadata", source));
}

#[test]
fn usage_patterns_are_exact() {
    assert_eq!(
        UnusedDetector::usage_patterns("cargo-metadata"),
        vec![
            r"use\s+cargo_metadata\b".to_string(),
            r"extern\s+crate\s+cargo_metadata\b".to_string(),
            r"\bcargo_metadata::".to_string(),
            r"#\[cargo_metadata\b".to_string(),
            r"#\[[^\]]*\bcargo_metadata\b".to_string(),
        ]
    );
}

#[test]
fn attribute_mention_counts_as_use() {
    assert!(UnusedDetector::is_used("serde", "#[derive(serde)]"));
    assert!(!UnusedDetector::is_used("serde", "#[derive(serde_json)]"));
}

#[test]
fn hyphen_and_underscore_names_agree() {
    let src = "use my_crate::x;";
    assert_eq!(UnusedDetector::is_used("my-crate", src), UnusedDetector::is_used("my_crate", src));
    assert!(UnusedDetector::is_used("my-crate", src));
}

#[test]
fn invalid_patterns_are_skipped() {
    // an unbalanced bracket makes every pattern invalid
    assert!(!UnusedDetector::is_used("a[", "use a[::b;"));
}

#[test]
fn find_unused_reports_normal_then_build() {
    let deps = vec!["serde".to_string(), "regex".to_string()];
    let build = vec!["cc".to_string()];
    let found = UnusedDetector::find_unused(&deps, &build, "use serde::Serialize;");
    assert_eq!(found.len(), 2);
    assert_eq!(found[0].name, "regex");
    assert_eq!(found[0].kind, "normal");
    assert_eq!(found[0].suggestion, "Remove `regex` from [dependencies] in Cargo.toml");
    assert_eq!(found[1].name, "cc");
    assert_eq!(found[1].kind, "build");
    assert_eq!(found[1].suggestion, "Remove `cc` from [build-dependencies] in Cargo.toml");
}

#[test]
fn join_sources_puts_newlines_between() {
    let parts = vec!["a".to_string(), "".to_string(), "b".to_string()];
    assert_eq!(UnusedDetector::join_sources(&parts), "a\n\nb");
    assert_eq!(UnusedDetector::join_sources(&vec![]), "");
}

#[test]
fn longer_crate_names_are_not_uses() {
    assert!(!UnusedDetector::is_used("serde", "use serde_json::json;"));
    assert!(!UnusedDetector::is_used("serde", "extern crate serde_json;"));
    assert!(!UnusedDetector::is_used("json", "serde_json::to_string(&x)"));
    assert!(!UnusedDetector::is_used("serde", "#[serde_with::skip]"));
    assert!(UnusedDetector::is_used("serde", "use serde;"));
}

#[test]
fn used_given_reads_outcomes() {
    assert!(UnusedDetector::used_given(&vec![None, Some(false), Some(true), None, Some(false)]));
    assert!(!UnusedDetector::used_given(&vec![None, Some(false), None, None, Some(false)]));
    assert!(!UnusedDetector::used_given(&vec![]));
}

#[test]
fn unused_in_manifest_reads_tables() {
    let manifest = r#"
[package]
name = "demo"

[dependencies]
serde = "1"
regex = { version = "1" }

[dev-dependencies]
proptest = "1"

[build-dependencies]
cc = "1"
"#;
    let sources = vec!["use serde::Serialize;".to_string(), "fn main() {}".to_string()];
    let found = UnusedDetector::unused_in_manifest(manifest, &sources).unwrap();
    let names: Vec<(&str, &str)> = found.iter().map(|d| (d.name.as_str(), d.kind.as_str())).collect();
    assert_eq!(names, vec![("regex", "normal"), ("cc", "build")]);
    assert!(UnusedDetector::unused_in_manifest("not = [toml", &sources).is_err());
    assert!(UnusedDetector::unused_in_manifest("[package]\nname = \"x\"", &sources)
        .unwrap()
        .is_empty());
}
