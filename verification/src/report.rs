//! The audit report: every finding together, and its Markdown summary.
use vstd::prelude::*;

use crate::audit::Vulnerability;
use crate::health::HealthResult;
use crate::outdated::OutdatedDep;
use crate::text::{decimal, push_decimal};
use crate::tree::DepTreeInfo;
use crate::unused::UnusedDep;

verus! {

/// Everything an audit found about one crate.
#[derive(Debug, Clone)]
pub struct AuditReport {
    pub crate_name: String,
    pub timestamp: String,
    pub vulnerabilities: Vec<Vulnerability>,
    pub outdated: Vec<OutdatedDep>,
    pub dep_tree: DepTreeInfo,
    pub unused: Vec<UnusedDep>,
    pub score: HealthResult,
}

/// One bullet line per recommendation.
pub open spec fn bullet_list(recs: Seq<Seq<char>>) -> Seq<char>
    decreases recs.len(),
{
    if recs.len() == 0 {
        Seq::empty()
    } else {
        bullet_list(recs.drop_last()) + "- "@ + recs.last() + "\n"@
    }
}

/// The bullet list of one recommendation is the line `- <text>`, and the
/// bullet list of two lists one after the other is the first list's lines
/// followed by the second's.
pub proof fn lemma_bullet_list_lines(a: Seq<Seq<char>>, b: Seq<Seq<char>>, r: Seq<char>)
    ensures
        bullet_list(seq![r]) == "- "@ + r + "\n"@,
        bullet_list(a + b) == bullet_list(a) + bullet_list(b),
    decreases b.len(),
{
    let one = seq![r];
    assert(one.drop_last() =~= Seq::<Seq<char>>::empty());
    assert(one.last() == r);
    assert(bullet_list(one) == bullet_list(one.drop_last()) + "- "@ + one.last() + "\n"@);
    assert(bullet_list(Seq::<Seq<char>>::empty()) == Seq::<char>::empty());
    assert(Seq::<char>::empty() + "- "@ + r + "\n"@ =~= "- "@ + r + "\n"@);
    if b.len() == 0 {
        assert(a + b =~= a);
        assert(bullet_list(a) + bullet_list(b) =~= bullet_list(a));
    } else {
        lemma_bullet_list_lines(a, b.drop_last(), r);
        assert((a + b).drop_last() =~= a + b.drop_last());
        assert((a + b).last() == b.last());
        assert(bullet_list(a + b) =~= bullet_list(a) + bullet_list(b));
    }
}

/// The Markdown summary: title, date, score with grade, then the
/// recommendations as a bullet list.
pub open spec fn markdown_of(
    crate_name: Seq<char>,
    timestamp: Seq<char>,
    score: int,
    grade: Seq<char>,
    recs: Seq<Seq<char>>,
) -> Seq<char> {
    "# Audit Report: "@ + crate_name + "\n\n"@ + "**Date:** "@ + timestamp + "\n\n"@
        + "**Health Score:** "@ + decimal(score as nat) + "/100 ("@ + grade + ")\n\n"@
        + "## Recommendations\n\n"@ + bullet_list(recs)
}

impl AuditReport {
    /// The Markdown summary of this report.
    pub fn markdown(&self) -> (r: String)
        ensures
            r@ == markdown_of(
                self.crate_name@,
                self.timestamp@,
                self.score.score as int,
                self.score.grade@,
                self.score.recommendations@.map_values(|s: String| s@),
            ),
    {
        let mut md = String::from_str("# Audit Report: ");
        md.append(self.crate_name.as_str());
        md.append("\n\n");
        md.append("**Date:** ");
        md.append(self.timestamp.as_str());
        md.append("\n\n");
        md.append("**Health Score:** ");
        push_decimal(&mut md, self.score.score as u64);
        md.append("/100 (");
        md.append(self.score.grade.as_str());
        md.append(")\n\n");
        md.append("## Recommendations\n\n");
        let ghost head = md@;
        let ghost recs = self.score.recommendations@.map_values(|s: String| s@);
        let mut i: usize = 0;
        assert(md@ =~= head + bullet_list(recs.take(0)));
        while i < self.score.recommendations.len()
            invariant
                i <= self.score.recommendations.len(),
                recs == self.score.recommendations@.map_values(|s: String| s@),
                md@ == head + bullet_list(recs.take(i as int)),
            decreases self.score.recommendations.len() - i,
        {
            md.append("- ");
            md.append(self.score.recommendations[i].as_str());
            md.append("\n");
            assert(recs.take(i + 1).drop_last() =~= recs.take(i as int));
            assert(md@ =~= head + bullet_list(recs.take(i + 1)));
            i = i + 1;
        }
        assert(recs.take(i as int) =~= recs);
        md
    }
}

} // verus!
