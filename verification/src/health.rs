//! Overall dependency-health score (0 to 100) with a letter grade,
//! a per-factor breakdown and recommendations.
use vstd::prelude::*;

use crate::text::{decimal, push_decimal};

verus! {

/// Input for health score computation.
#[derive(Debug, Clone)]
pub struct HealthInput {
    pub vulnerability_count: usize,
    pub outdated_count: usize,
    pub unused_count: usize,
    pub max_depth: usize,
    pub total_deps: usize,
}

/// Breakdown of individual score components.
#[derive(Debug, Clone)]
pub struct ScoreBreakdown {
    pub vulnerability_penalty: i32,
    pub outdated_penalty: i32,
    pub unused_penalty: i32,
    pub depth_penalty: i32,
    pub bonus: i32,
}

/// Health score result.
#[derive(Debug, Clone)]
pub struct HealthResult {
    pub score: u8,
    pub grade: String,
    pub breakdown: ScoreBreakdown,
    pub recommendations: Vec<String>,
}

/// Computes an overall health score (0-100).
pub struct HealthScore;

/// A count as the scoring arithmetic sees it: its low 32 bits read as an `i32`.
pub open spec fn narrowed(n: usize) -> int {
    (n as i32) as int
}

/// `x`, but never more than `cap`.
pub open spec fn capped(x: int, cap: int) -> int {
    if x < cap { x } else { cap }
}

/// 15 points per vulnerability, at most 60.
pub open spec fn vulnerability_penalty(input: HealthInput) -> int {
    capped(narrowed(input.vulnerability_count) * 15, 60)
}

/// 5 points per outdated dependency, at most 30.
pub open spec fn outdated_penalty(input: HealthInput) -> int {
    capped(narrowed(input.outdated_count) * 5, 30)
}

/// 3 points per unused dependency, at most 20.
pub open spec fn unused_penalty(input: HealthInput) -> int {
    capped(narrowed(input.unused_count) * 3, 20)
}

/// 10 points for a tree deeper than 10, 5 for one deeper than 5.
pub open spec fn depth_penalty(input: HealthInput) -> int {
    if input.max_depth > 10 {
        10
    } else if input.max_depth > 5 {
        5
    } else {
        0
    }
}

/// 5 points when there is no vulnerability, 3 when there is no unused dependency.
pub open spec fn bonus(input: HealthInput) -> int {
    (if input.vulnerability_count == 0 { 5int } else { 0int }) + (if input.unused_count == 0 {
        3int
    } else {
        0int
    })
}

/// The score before it is clamped to 0..=100.
pub open spec fn raw_score(input: HealthInput) -> int {
    100 - vulnerability_penalty(input) - outdated_penalty(input) - unused_penalty(input)
        - depth_penalty(input) + bonus(input)
}

/// The health score: the raw score clamped to 0..=100.
pub open spec fn health_score(input: HealthInput) -> int {
    let r = raw_score(input);
    if r < 0 {
        0
    } else if r > 100 {
        100
    } else {
        r
    }
}

/// Letter grade of a score: A (90-100), B (80-89), C (70-79), D (60-69), F (below 60).
pub open spec fn grade_of(score: int) -> Seq<char> {
    if 90 <= score <= 100 {
        "A"@
    } else if 80 <= score <= 89 {
        "B"@
    } else if 70 <= score <= 79 {
        "C"@
    } else if 60 <= score <= 69 {
        "D"@
    } else {
        "F"@
    }
}

/// Whether every intermediate value of the score computation fits in an `i32`
/// (outside this range the computation overflows).
pub open spec fn fits_i32(x: int) -> bool {
    i32::MIN <= x <= i32::MAX
}

/// The inputs on which the score can be computed without arithmetic overflow.
pub open spec fn computable(input: HealthInput) -> bool {
    &&& fits_i32(narrowed(input.vulnerability_count) * 15)
    &&& fits_i32(narrowed(input.outdated_count) * 5)
    &&& fits_i32(narrowed(input.unused_count) * 3)
    &&& fits_i32(100 - vulnerability_penalty(input))
    &&& fits_i32(100 - vulnerability_penalty(input) - outdated_penalty(input))
    &&& fits_i32(
        100 - vulnerability_penalty(input) - outdated_penalty(input) - unused_penalty(input),
    )
    &&& fits_i32(
        100 - vulnerability_penalty(input) - outdated_penalty(input) - unused_penalty(input)
            - depth_penalty(input),
    )
    &&& fits_i32(raw_score(input))
}

pub open spec fn vulnerability_message(n: usize) -> Seq<char> {
    "🚨 Fix "@ + decimal(n as nat) + " vulnerabilities — run `cargo audit` for details"@
}

pub open spec fn outdated_message(n: usize) -> Seq<char> {
    "📦 Update "@ + decimal(n as nat) + " outdated dependencies — consider `cargo update`"@
}

pub open spec fn unused_message(n: usize) -> Seq<char> {
    "🧹 Remove "@ + decimal(n as nat) + " unused dependencies from Cargo.toml"@
}

pub open spec fn depth_message(n: usize) -> Seq<char> {
    "🌳 Dependency tree depth is "@ + decimal(n as nat)
        + " — consider reducing transitive deps"@
}

pub open spec fn excellent_message() -> Seq<char> {
    "✅ Crate is in excellent health!"@
}

/// `seq![m]` when `cond` holds, the empty sequence otherwise.
pub open spec fn message_if(cond: bool, m: Seq<char>) -> Seq<Seq<char>> {
    if cond {
        seq![m]
    } else {
        Seq::empty()
    }
}

/// The recommendations, in the order in which they are given.
pub open spec fn recommendations(input: HealthInput) -> Seq<Seq<char>> {
    message_if(input.vulnerability_count > 0, vulnerability_message(input.vulnerability_count))
        + message_if(input.outdated_count > 0, outdated_message(input.outdated_count))
        + message_if(input.unused_count > 0, unused_message(input.unused_count))
        + message_if(input.max_depth > 5, depth_message(input.max_depth))
        + message_if(health_score(input) == 100, excellent_message())
}


/// Counts that the scoring arithmetic reads unchanged (below 2^31).
pub open spec fn plain_counts(input: HealthInput) -> bool {
    &&& input.vulnerability_count <= i32::MAX
    &&& input.outdated_count <= i32::MAX
    &&& input.unused_count <= i32::MAX
}

/// Each penalty lies between zero and its cap (60, 30, 20, 10), and the bonus
/// between zero and 8, for counts below 2^31.
pub proof fn lemma_penalties_within_caps(input: HealthInput)
    requires
        plain_counts(input),
    ensures
        0 <= vulnerability_penalty(input) <= 60,
        0 <= outdated_penalty(input) <= 30,
        0 <= unused_penalty(input) <= 20,
        0 <= depth_penalty(input) <= 10,
        0 <= bonus(input) <= 8,
        vulnerability_penalty(input) == capped(input.vulnerability_count * 15, 60),
        outdated_penalty(input) == capped(input.outdated_count * 5, 30),
        unused_penalty(input) == capped(input.unused_count * 3, 20),
{
}

/// A crate that is worse on every factor (more vulnerabilities, more outdated
/// and unused dependencies, a deeper tree) never scores higher.
pub proof fn lemma_score_monotone(better: HealthInput, worse: HealthInput)
    requires
        plain_counts(better),
        plain_counts(worse),
        better.vulnerability_count <= worse.vulnerability_count,
        better.outdated_count <= worse.outdated_count,
        better.unused_count <= worse.unused_count,
        better.max_depth <= worse.max_depth,
    ensures
        health_score(worse) <= health_score(better),
        raw_score(worse) <= raw_score(better),
{
}

/// Counts whose penalty products fit in an `i32` never make the score
/// computation overflow.
pub proof fn lemma_small_counts_computable(input: HealthInput)
    requires
        input.vulnerability_count * 15 <= i32::MAX,
        input.outdated_count * 5 <= i32::MAX,
        input.unused_count * 3 <= i32::MAX,
    ensures
        computable(input),
{
}

/// The praise "✅ Crate is in excellent health!" is among the
/// recommendations exactly when the score is 100; so a crate with a
/// vulnerability is never praised (for counts below 2^31).
pub proof fn lemma_praise_exactly_at_full_score(input: HealthInput)
    ensures
        recommendations(input).contains(excellent_message()) <==> health_score(input) == 100,
        plain_counts(input) && input.vulnerability_count > 0 ==> !recommendations(
            input,
        ).contains(excellent_message()),
{
    reveal_strlit("✅ Crate is in excellent health!");
    reveal_strlit("🚨 Fix ");
    reveal_strlit("📦 Update ");
    reveal_strlit("🧹 Remove ");
    reveal_strlit("🌳 Dependency tree depth is ");
    let e = excellent_message();
    let v = vulnerability_message(input.vulnerability_count);
    let o = outdated_message(input.outdated_count);
    let u = unused_message(input.unused_count);
    let d = depth_message(input.max_depth);
    assert(v[0] != e[0]);
    assert(o[0] != e[0]);
    assert(u[0] != e[0]);
    assert(d[0] != e[0]);
    let others = message_if(input.vulnerability_count > 0, v) + message_if(
        input.outdated_count > 0,
        o,
    ) + message_if(input.unused_count > 0, u) + message_if(input.max_depth > 5, d);
    assert forall|i: int| 0 <= i < others.len() implies others[i] != e by {
        assert(others[i] == v || others[i] == o || others[i] == u || others[i] == d);
    }
    let praise = message_if(health_score(input) == 100, e);
    assert(recommendations(input) == others + praise);
    if health_score(input) == 100 {
        assert((others + praise)[others.len() as int] == e);
    } else {
        assert(praise.len() == 0);
        assert(others + praise =~= others);
    }
    if plain_counts(input) && input.vulnerability_count > 0 {
        lemma_penalties_within_caps(input);
        assert(vulnerability_penalty(input) >= 15);
        assert(bonus(input) <= 3);
    }
}

/// Each problem is reported exactly when it is present: a vulnerability
/// message when there is a vulnerability, an update message when a
/// dependency is outdated, a removal message when one is unused, and a depth
/// message when the tree is deeper than 5.
pub proof fn lemma_problem_messages_exactly_when_present(input: HealthInput)
    ensures
        recommendations(input).contains(vulnerability_message(input.vulnerability_count))
            <==> input.vulnerability_count > 0,
        recommendations(input).contains(outdated_message(input.outdated_count))
            <==> input.outdated_count > 0,
        recommendations(input).contains(unused_message(input.unused_count))
            <==> input.unused_count > 0,
        recommendations(input).contains(depth_message(input.max_depth)) <==> input.max_depth > 5,
{
    reveal_strlit("✅ Crate is in excellent health!");
    reveal_strlit("🚨 Fix ");
    reveal_strlit("📦 Update ");
    reveal_strlit("🧹 Remove ");
    reveal_strlit("🌳 Dependency tree depth is ");
    let e = excellent_message();
    let v = vulnerability_message(input.vulnerability_count);
    let o = outdated_message(input.outdated_count);
    let u = unused_message(input.unused_count);
    let d = depth_message(input.max_depth);
    let ms = seq![v, o, u, d, e];
    let cs = seq![
        input.vulnerability_count > 0,
        input.outdated_count > 0,
        input.unused_count > 0,
        input.max_depth > 5,
        health_score(input) == 100,
    ];
    assert forall|a: int, b: int| 0 <= a < 5 && 0 <= b < 5 && a != b implies ms[a][0] != ms[b][0] by {}
    let r = recommendations(input);
    let parts = message_if(cs[0], ms[0]) + message_if(cs[1], ms[1]) + message_if(cs[2], ms[2])
        + message_if(cs[3], ms[3]) + message_if(cs[4], ms[4]);
    assert(r == parts);
    assert forall|k: int| 0 <= k < 4 implies (r.contains(ms[k]) <==> cs[k]) by {
        if cs[k] {
            let p0 = message_if(cs[0], ms[0]);
            let p1 = p0 + message_if(cs[1], ms[1]);
            let p2 = p1 + message_if(cs[2], ms[2]);
            let p3 = p2 + message_if(cs[3], ms[3]);
            if k == 0 {
                assert(r[0] == ms[0]);
            } else if k == 1 {
                assert(r[p0.len() as int] == ms[1]);
            } else if k == 2 {
                assert(r[p1.len() as int] == ms[2]);
            } else {
                assert(r[p2.len() as int] == ms[3]);
            }
        } else {
            assert forall|i: int| 0 <= i < r.len() implies r[i] != ms[k] by {
                assert(exists|a: int| 0 <= a < 5 && a != k && r[i] == ms[a]);
            }
        }
    }
    assert(ms[0] == v && ms[1] == o && ms[2] == u && ms[3] == d);
}

/// The grade of a score from 0 to 100 goes by its tens: A for 90 and above,
/// B for the eighties, C for the seventies, D for the sixties, F below 60.
pub proof fn lemma_grade_by_tens(score: int)
    requires
        0 <= score <= 100,
    ensures
        score / 10 >= 9 <==> grade_of(score) == "A"@,
        score / 10 == 8 <==> grade_of(score) == "B"@,
        score / 10 == 7 <==> grade_of(score) == "C"@,
        score / 10 == 6 <==> grade_of(score) == "D"@,
        score / 10 <= 5 <==> grade_of(score) == "F"@,
{
    reveal_strlit("A");
    reveal_strlit("B");
    reveal_strlit("C");
    reveal_strlit("D");
    reveal_strlit("F");
    assert("A"@[0] != "B"@[0] && "A"@[0] != "C"@[0] && "A"@[0] != "D"@[0] && "A"@[0] != "F"@[0]);
    assert("B"@[0] != "C"@[0] && "B"@[0] != "D"@[0] && "B"@[0] != "F"@[0]);
    assert("C"@[0] != "D"@[0] && "C"@[0] != "F"@[0] && "D"@[0] != "F"@[0]);
}

impl HealthInput {
    /// Whether `HealthScore::compute` can score this input without overflow.
    pub fn is_computable(&self) -> (r: bool)
        ensures
            r == computable(*self),
    {
        let v = self.vulnerability_count as i32 as i64 * 15;
        let o = self.outdated_count as i32 as i64 * 5;
        let u = self.unused_count as i32 as i64 * 3;
        let vp: i64 = if v < 60 { v } else { 60 };
        let op: i64 = if o < 30 { o } else { 30 };
        let up: i64 = if u < 20 { u } else { 20 };
        let dp: i64 = if self.max_depth > 10 {
            10
        } else if self.max_depth > 5 {
            5
        } else {
            0
        };
        let b: i64 = (if self.vulnerability_count == 0 { 5 } else { 0 }) + (if self.unused_count
            == 0 {
            3
        } else {
            0
        });
        let lo = i32::MIN as i64;
        let hi = i32::MAX as i64;
        let in_range = |x: i64| -> (r: bool)
            ensures
                r == (lo <= x <= hi),
            { lo <= x && x <= hi };
        in_range(v) && in_range(o) && in_range(u) && in_range(100 - vp) && in_range(
            100 - vp - op,
        ) && in_range(100 - vp - op - up) && in_range(100 - vp - op - up - dp) && in_range(
            100 - vp - op - up - dp + b,
        )
    }
}

fn message(prefix: &str, n: usize, suffix: &str) -> (r: String)
    ensures
        r@ == prefix@ + decimal(n as nat) + suffix@,
{
    let mut s = String::from_str(prefix);
    push_decimal(&mut s, n as u64);
    s.append(suffix);
    s
}

impl HealthScore {
    /// Compute health score from the given input.
    pub fn compute(input: &HealthInput) -> (res: HealthResult)
        requires
            computable(*input),
        ensures
            res.score == health_score(*input),
            0 <= res.score <= 100,
            res.grade@ == grade_of(res.score as int),
            res.breakdown.vulnerability_penalty == vulnerability_penalty(*input),
            res.breakdown.outdated_penalty == outdated_penalty(*input),
            res.breakdown.unused_penalty == unused_penalty(*input),
            res.breakdown.depth_penalty == depth_penalty(*input),
            res.breakdown.bonus == bonus(*input),
            res.recommendations.deep_view() == recommendations(*input),
    {
        let mut score: i32 = 100;
        let mut recs: Vec<String> = Vec::new();
        let ghost mut expected: Seq<Seq<char>> = Seq::empty();

        let vuln_raw: i32 = input.vulnerability_count as i32 * 15;
        let vuln_penalty: i32 = if vuln_raw < 60 { vuln_raw } else { 60 };
        score = score - vuln_penalty;
        proof {
            expected = message_if(
                input.vulnerability_count > 0,
                vulnerability_message(input.vulnerability_count),
            );
        }
        if input.vulnerability_count > 0 {
            recs.push(
                message(
                    "🚨 Fix ",
                    input.vulnerability_count,
                    " vulnerabilities — run `cargo audit` for details",
                ),
            );
        }
        assert(recs.deep_view() =~= expected);

        let outdated_raw: i32 = input.outdated_count as i32 * 5;
        let outdated_penalty: i32 = if outdated_raw < 30 { outdated_raw } else { 30 };
        score = score - outdated_penalty;
        proof {
            expected = expected + message_if(
                input.outdated_count > 0,
                outdated_message(input.outdated_count),
            );
        }
        if input.outdated_count > 0 {
            recs.push(
                message(
                    "📦 Update ",
                    input.outdated_count,
                    " outdated dependencies — consider `cargo update`",
                ),
            );
        }
        assert(recs.deep_view() =~= expected);

        let unused_raw: i32 = input.unused_count as i32 * 3;
        let unused_penalty: i32 = if unused_raw < 20 { unused_raw } else { 20 };
        score = score - unused_penalty;
        proof {
            expected = expected + message_if(
                input.unused_count > 0,
                unused_message(input.unused_count),
            );
        }
        if input.unused_count > 0 {
            recs.push(
                message("🧹 Remove ", input.unused_count, " unused dependencies from Cargo.toml"),
            );
        }
        assert(recs.deep_view() =~= expected);

        let depth_penalty: i32 = if input.max_depth > 10 {
            10
        } else if input.max_depth > 5 {
            5
        } else {
            0
        };
        score = score - depth_penalty;
        proof {
            expected = expected + message_if(input.max_depth > 5, depth_message(input.max_depth));
        }
        if input.max_depth > 5 {
            recs.push(
                message(
                    "🌳 Dependency tree depth is ",
                    input.max_depth,
                    " — consider reducing transitive deps",
                ),
            );
        }
        assert(recs.deep_view() =~= expected);

        let mut bonus: i32 = 0;
        if input.vulnerability_count == 0 {
            bonus = bonus + 5;
        }
        if input.unused_count == 0 {
            bonus = bonus + 3;
        }
        score = score + bonus;

        if score < 0 {
            score = 0;
        } else if score > 100 {
            score = 100;
        }
        let grade = if score >= 90 {
            String::from_str("A")
        } else if score >= 80 {
            String::from_str("B")
        } else if score >= 70 {
            String::from_str("C")
        } else if score >= 60 {
            String::from_str("D")
        } else {
            String::from_str("F")
        };

        proof {
            expected = expected + message_if(score == 100, excellent_message());
        }
        if score == 100 {
            recs.push(String::from_str("✅ Crate is in excellent health!"));
        }
        assert(recs.deep_view() =~= expected);

        HealthResult {
            score: score as u8,
            grade,
            breakdown: ScoreBreakdown {
                vulnerability_penalty: vuln_penalty,
                outdated_penalty,
                unused_penalty,
                depth_penalty,
                bonus,
            },
            recommendations: recs,
        }
    }
}

} // verus!
