use dep_audit::tree::{DepTree, ResolvedNode};

#[test]
fn test_parse_empty_tree() {
    let info = DepTree::parse_cargo_tree_output("");
    assert_eq!(info.total_deps, 0);
}

#[test]
fn test_parse_simple_tree() {
    let output = "dep-audit v0.1.0
├── clap v4.0
│   └── anstream v0.6
└── serde v1.0";
    let info = DepTree::parse_cargo_tree_output(output);
    assert!(info.total_deps >= 3);
    assert!(info.max_depth >= 1);
}

#[test]
fn test_extract_crate_name() {
    assert_eq!(DepTree::extract_crate_name("serde v1.0.100"), "serde");
    assert_eq!(DepTree::extract_crate_name("clap v4.0.0"), "clap");
}

#[test]
fn tree_output_counts_first_words_and_halves_prefixes() {
    let output = "dep-audit v0.1.0
├── clap v4.0
│   └── anstream v0.6
└── serde v1.0";
    let info = DepTree::parse_cargo_tree_output(output);
    // first words: "dep-audit", "├──", "│", "└──" (the box-drawing prefix is the first word)
    assert_eq!(info.total_deps, 4);
    // "│   └── " is two indentation levels of 4 characters
    assert_eq!(info.max_depth, 2);
    assert!(info.direct_deps.is_empty());
    assert!(info.deep_deps.is_empty());
}

#[test]
fn tree_output_skips_blank_lines_and_repeats() {
    let info = DepTree::parse_cargo_tree_output("a v1\n   \n    a v1\r\n\n");
    assert_eq!(info.total_deps, 1);
    assert_eq!(info.max_depth, 1);
    // an incomplete level does not count
    let info = DepTree::parse_cargo_tree_output("a v1\n   b v2\n       c v3");
    assert_eq!(info.max_depth, 1);
}

#[test]
fn crate_name_of_blank_id_is_the_id() {
    assert_eq!(DepTree::extract_crate_name("   "), "   ");
    assert_eq!(DepTree::extract_crate_name(""), "");
    assert_eq!(DepTree::extract_crate_name("  tokio  1.0"), "tokio");
}

fn node(id: &str, deps: &[&str]) -> ResolvedNode {
    ResolvedNode {
        id: id.to_string(),
        dependencies: deps.iter().map(|d| d.to_string()).collect(),
    }
}

#[test]
fn resolved_graph_depths_are_shortest_distances() {
    // root -> a -> b -> c -> d, and root -> c directly
    let nodes = vec![
        node("root 0.1.0 (path)", &["a 1.0.0", "c 1.0.0"]),
        node("a 1.0.0", &["b 1.0.0"]),
        node("b 1.0.0", &["c 1.0.0"]),
        node("c 1.0.0", &["d 1.0.0"]),
        node("d 1.0.0", &["e 1.0.0"]),
        node("e 1.0.0", &[]),
    ];
    let info = DepTree::from_resolve(&nodes, "root 0.1.0 (path)");
    // c is at distance 1, d at 2, e at 3, b at 2
    assert_eq!(info.max_depth, 3);
    assert_eq!(info.total_deps, 5);
    assert_eq!(info.direct_deps, vec!["a".to_string(), "c".to_string()]);
    assert_eq!(info.deep_deps.len(), 1);
    assert_eq!(info.deep_deps[0].name, "e");
    assert_eq!(info.deep_deps[0].depth, 3);
}

#[test]
fn resolved_graph_with_cycle_terminates() {
    let nodes = vec![
        node("root", &["x"]),
        node("x", &["y"]),
        node("y", &["x", "root"]),
    ];
    let info = DepTree::from_resolve(&nodes, "root");
    assert_eq!(info.total_deps, 2);
    assert_eq!(info.max_depth, 2);
    assert!(info.deep_deps.is_empty());
}

#[test]
fn resolved_graph_later_node_replaces_earlier_and_unknown_root() {
    let nodes = vec![node("r", &["a"]), node("r", &["b"]), node("b", &[])];
    let info = DepTree::from_resolve(&nodes, "r");
    assert_eq!(info.direct_deps, vec!["b".to_string()]);
    assert_eq!(info.total_deps, 1);
    let lonely = DepTree::from_resolve(&nodes, "zzz");
    assert_eq!(lonely.total_deps, 0);
    assert_eq!(lonely.max_depth, 0);
    assert!(lonely.direct_deps.is_empty());
}

#[test]
fn reordering_tree_lines_keeps_the_result() {
    let a = DepTree::parse_cargo_tree_output("root\n├── x v1\n│   └── y v1\n└── z v1");
    let b = DepTree::parse_cargo_tree_output("└── z v1\n\n│   └── y v1\nroot\n├── x v1\n");
    assert_eq!((a.max_depth, a.total_deps), (b.max_depth, b.total_deps));
}

#[test]
fn joining_tree_texts_combines_results() {
    let a = "root\n    x v1";
    let b = "other\n        deep v2\n    x v1";
    let ra = DepTree::parse_cargo_tree_output(a);
    let rb = DepTree::parse_cargo_tree_output(b);
    let r = DepTree::parse_cargo_tree_output(&format!("{a}\n{b}"));
    assert_eq!(r.max_depth, ra.max_depth.max(rb.max_depth));
    assert!(ra.total_deps.max(rb.total_deps) <= r.total_deps);
    assert!(r.total_deps <= ra.total_deps + rb.total_deps);
    assert_eq!(r.total_deps, 4);
}
