use dep_audit::health::{HealthInput, HealthScore};

fn input(v: usize, o: usize, u: usize, depth: usize, total: usize) -> HealthInput {
    HealthInput {
        vulnerability_count: v,
        outdated_count: o,
        unused_count: u,
        max_depth: depth,
        total_deps: total,
    }
}

#[test]
fn test_perfect_score() {
    let input = HealthInput {
        vulnerability_count: 0,
        outdated_count: 0,
        unused_count: 0,
        max_depth: 2,
        total_deps: 5,
    };
    let score = HealthScore::compute(&input);
    assert_eq!(score.score, 100);
    assert_eq!(score.grade, "A");
}

#[test]
fn test_vulnerability_penalty() {
    let input = HealthInput {
        vulnerability_count: 2,
        outdated_count: 0,
        unused_count: 0,
        max_depth: 2,
        total_deps: 5,
    };
    let score = HealthScore::compute(&input);
    assert!(score.score < 100);
    assert_eq!(score.breakdown.vulnerability_penalty, 30);
}

#[test]
fn test_failing_score() {
    let input = HealthInput {
        vulnerability_count: 5,
        outdated_count: 10,
        unused_count: 8,
        max_depth: 12,
        total_deps: 100,
    };
    let score = HealthScore::compute(&input);
    assert!(score.score < 50);
    assert_eq!(score.grade, "F");
}

#[test]
fn test_depth_penalty() {
    let deep = HealthInput {
        vulnerability_count: 0,
        outdated_count: 0,
        unused_count: 0,
        max_depth: 12,
        total_deps: 50,
    };
    let shallow = HealthInput {
        vulnerability_count: 0,
        outdated_count: 0,
        unused_count: 0,
        max_depth: 3,
        total_deps: 5,
    };
    let deep_score = HealthScore::compute(&deep);
    let shallow_score = HealthScore::compute(&shallow);
    assert!(deep_score.score < shallow_score.score);
}

#[test]
fn test_bonus_for_clean() {
    let input = HealthInput {
        vulnerability_count: 0,
        outdated_count: 2,
        unused_count: 0,
        max_depth: 3,
        total_deps: 10,
    };
    let score = HealthScore::compute(&input);
    assert_eq!(score.breakdown.bonus, 8); // no vulns (5) + no unused (3)
}

#[test]
fn failing_score_is_clamped_to_zero_with_every_recommendation() {
    let r = HealthScore::compute(&input(5, 10, 8, 12, 100));
    assert_eq!(r.score, 0);
    assert_eq!(r.breakdown.vulnerability_penalty, 60);
    assert_eq!(r.breakdown.outdated_penalty, 30);
    assert_eq!(r.breakdown.unused_penalty, 20);
    assert_eq!(r.breakdown.depth_penalty, 10);
    assert_eq!(r.breakdown.bonus, 0);
    assert_eq!(
        r.recommendations,
        vec![
            "🚨 Fix 5 vulnerabilities — run `cargo audit` for details".to_string(),
            "📦 Update 10 outdated dependencies — consider `cargo update`".to_string(),
            "🧹 Remove 8 unused dependencies from Cargo.toml".to_string(),
            "🌳 Dependency tree depth is 12 — consider reducing transitive deps".to_string(),
        ]
    );
}

#[test]
fn perfect_score_recommends_nothing_but_praise() {
    let r = HealthScore::compute(&input(0, 0, 0, 2, 5));
    assert_eq!(r.recommendations, vec!["✅ Crate is in excellent health!".to_string()]);
    assert_eq!(r.breakdown.bonus, 8);
}

#[test]
fn grade_bands_follow_the_score() {
    // 100 - 5 (outdated) - 3 (unused) + 5 (no vulnerability) = 97, clamped below 100
    let a = HealthScore::compute(&input(0, 1, 1, 0, 0));
    assert_eq!((a.score, a.grade.as_str()), (97, "A"));
    // 100 - 15 - 5 + 3 = 83
    let b = HealthScore::compute(&input(1, 1, 0, 0, 0));
    assert_eq!((b.score, b.grade.as_str()), (83, "B"));
    // 100 - 30 + 3 = 73
    let c = HealthScore::compute(&input(2, 0, 0, 0, 0));
    assert_eq!((c.score, c.grade.as_str()), (73, "C"));
    // 100 - 30 - 10 + 3 - 5 (depth 6) = 58
    let f = HealthScore::compute(&input(2, 2, 0, 6, 0));
    assert_eq!((f.score, f.grade.as_str()), (58, "F"));
    // 100 - 30 - 10 + 3 = 63
    let d = HealthScore::compute(&input(2, 2, 0, 5, 0));
    assert_eq!((d.score, d.grade.as_str()), (63, "D"));
}

#[test]
fn penalties_are_capped() {
    let r = HealthScore::compute(&input(100, 100, 100, 100, 0));
    assert_eq!(r.breakdown.vulnerability_penalty, 60);
    assert_eq!(r.breakdown.outdated_penalty, 30);
    assert_eq!(r.breakdown.unused_penalty, 20);
    assert_eq!(r.breakdown.depth_penalty, 10);
    assert_eq!(r.score, 0);
}

#[test]
fn worse_inputs_never_score_higher() {
    let better = HealthScore::compute(&input(0, 1, 0, 3, 0));
    let worse = HealthScore::compute(&input(1, 1, 2, 7, 0));
    assert!(worse.score <= better.score);
}

#[test]
fn overflowing_counts_are_not_computable() {
    assert!(input(3, 4, 5, 6, 7).is_computable());
    assert!(!input(200_000_000, 0, 0, 0, 0).is_computable());
    assert!(input(143_165_576, 0, 0, 0, 0).is_computable());
}
