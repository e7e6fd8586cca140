use dep_audit::health::{HealthInput, HealthScore};
use dep_audit::report::AuditReport;
use dep_audit::tree::DepTreeInfo;

fn make_report() -> AuditReport {
    let score = HealthScore::compute(&HealthInput {
        vulnerability_count: 0,
        outdated_count: 0,
        unused_count: 0,
        max_depth: 2,
        total_deps: 5,
    });
    AuditReport {
        crate_name: "test-crate".to_string(),
        timestamp: "2026-06-06T00:00:00Z".to_string(),
        vulnerabilities: vec![],
        outdated: vec![],
        dep_tree: DepTreeInfo {
            max_depth: 2,
            total_deps: 5,
            direct_deps: vec![],
            deep_deps: vec![],
        },
        unused: vec![],
        score,
    }
}

#[test]
fn markdown_summary_is_exact() {
    let md = make_report().markdown();
    assert_eq!(
        md,
        "# Audit Report: test-crate\n\n**Date:** 2026-06-06T00:00:00Z\n\n**Health Score:** 100/100 (A)\n\n## Recommendations\n\n- ✅ Crate is in excellent health!\n"
    );
    assert!(md.contains("# Audit Report: test-crate"));
}

#[test]
fn default_tree_info_is_empty() {
    let d = DepTreeInfo::default();
    assert_eq!((d.max_depth, d.total_deps), (0, 0));
    assert!(d.direct_deps.is_empty() && d.deep_deps.is_empty());
}
