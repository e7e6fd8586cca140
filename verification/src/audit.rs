//! Vulnerabilities reported by `cargo audit`: the text report is read line by
//! line into structured advisories.
use vstd::prelude::*;

use crate::text::{
    chars_of, contains_seq, contains_str, is_white_space, matches_at, occurs_at, scan, slice_vec,
    span, split_lines, string_of, text_lines, trim, trim_bounds, views_of, CharClass,
};

verus! {

/// A single vulnerability found by cargo audit
#[derive(Debug, Clone)]
pub struct Vulnerability {
    pub id: String,
    pub package: String,
    pub version: String,
    pub severity: String,
    pub title: String,
    pub url: Option<String>,
}

/// Runs `cargo audit` and parses its output for vulnerabilities.
pub struct AuditScanner;

/// The fields of a vulnerability as character sequences:
/// (id, package, version, severity, title, url).
pub type VulnerabilityView = (Seq<char>, Seq<char>, Seq<char>, Seq<char>, Seq<char>, Option<Seq<char>>);

pub open spec fn vulnerability_view(v: Vulnerability) -> VulnerabilityView {
    (
        v.id@,
        v.package@,
        v.version@,
        v.severity@,
        v.title@,
        match v.url {
            Some(u) => Some(u@),
            None => None,
        },
    )
}

/// An advisory heading line: an id made of upper-case ASCII letters, `-`,
/// decimal digits, `-`, decimal digits, then white space and a title of at
/// least one character (the line pattern `^([A-Z]+-\d+-\d+)\s+(.+)$`).
/// Gives the id and the trimmed title.
pub open spec fn heading(line: Seq<char>) -> Option<(Seq<char>, Seq<char>)> {
    let a = span(line, 0, CharClass::AsciiUpper);
    if a == 0 || a >= line.len() || line[a] != '-' {
        None
    } else {
        let b = span(line, a + 1, CharClass::DecimalDigit);
        if b == a + 1 || b >= line.len() || line[b] != '-' {
            None
        } else {
            let e = span(line, b + 1, CharClass::DecimalDigit);
            if e == b + 1 || e + 2 > line.len() || !is_white_space(line[e]) {
                None
            } else {
                Some((line.subrange(0, e), trim(line.subrange(e, line.len() as int))))
            }
        }
    }
}

/// A package line starting at position `p`: `└──`, white space, the package
/// name, white space, `v` and the version, then optional white space and the
/// rest of the line (the pattern `└──\s+(\S+)\s+v(\S+)\s*(.*)$`).
/// Gives (package, version, rest).
pub open spec fn package_at(line: Seq<char>, p: int) -> Option<(Seq<char>, Seq<char>, Seq<char>)> {
    if !occurs_at(line, p, "└──"@) {
        None
    } else {
        let q1 = span(line, p + 3, CharClass::WhiteSpace);
        let q2 = span(line, q1, CharClass::NonWhiteSpace);
        let q3 = span(line, q2, CharClass::WhiteSpace);
        if q1 == p + 3 || q2 == q1 || q3 == q2 || q3 >= line.len() || line[q3] != 'v' {
            None
        } else {
            let q4 = span(line, q3 + 1, CharClass::NonWhiteSpace);
            if q4 == q3 + 1 {
                None
            } else {
                let q5 = span(line, q4, CharClass::WhiteSpace);
                Some(
                    (
                        line.subrange(q1, q2),
                        line.subrange(q3 + 1, q4),
                        line.subrange(q5, line.len() as int),
                    ),
                )
            }
        }
    }
}

/// The leftmost package line of `line` at or after position `p`.
pub open spec fn package_from(line: Seq<char>, p: int) -> Option<(Seq<char>, Seq<char>, Seq<char>)>
    decreases line.len() - p,
{
    if p < 0 || p >= line.len() {
        None
    } else if package_at(line, p) is Some {
        package_at(line, p)
    } else {
        package_from(line, p + 1)
    }
}

/// Whether a URL (`http://` or `https://` followed by a non-white-space
/// character) starts at position `p`.
pub open spec fn url_at(line: Seq<char>, p: int) -> bool {
    ||| occurs_at(line, p, "https://"@) && p + 8 < line.len() && !is_white_space(line[p + 8])
    ||| occurs_at(line, p, "http://"@) && p + 7 < line.len() && !is_white_space(line[p + 7])
}

/// The leftmost URL of `line` at or after position `p`: it runs up to the
/// next white space (the pattern `https?://\S+`).
pub open spec fn url_from(line: Seq<char>, p: int) -> Option<Seq<char>>
    decreases line.len() - p,
{
    if p < 0 || p >= line.len() {
        None
    } else if url_at(line, p) {
        Some(line.subrange(p, span(line, p, CharClass::NonWhiteSpace)))
    } else {
        url_from(line, p + 1)
    }
}

/// Severity named in the rest of a package line.
pub open spec fn severity_of(rest: Seq<char>) -> Seq<char> {
    if contains_seq(rest, "critical"@) || contains_seq(rest, "high"@) {
        "high"@
    } else if contains_seq(rest, "medium"@) || contains_seq(rest, "moderate"@) {
        "medium"@
    } else if contains_seq(rest, "low"@) {
        "low"@
    } else {
        "unknown"@
    }
}

/// (package, version, severity, url) collected from the detail lines.
pub type Details = (Seq<char>, Seq<char>, Seq<char>, Option<Seq<char>>);

/// The details after reading one more line: a package line replaces
/// package, version and severity, a URL replaces the URL.
pub open spec fn read_detail(d: Details, line: Seq<char>) -> Details {
    let (pkg, ver, sev) = match package_from(line, 0) {
        Some((p, v, rest)) => (p, v, severity_of(rest)),
        None => (d.0, d.1, d.2),
    };
    let url = match url_from(line, 0) {
        Some(u) => Some(u),
        None => d.3,
    };
    (pkg, ver, sev, url)
}

/// The details read from lines `lo..hi`, later lines taking precedence.
/// Without a package line, package and version are empty and the severity
/// is `unknown`.
pub open spec fn details_of(lines: Seq<Seq<char>>, lo: int, hi: int) -> Details
    decreases hi - lo,
{
    if hi <= lo {
        (Seq::empty(), Seq::empty(), "unknown"@, None)
    } else {
        read_detail(details_of(lines, lo, hi - 1), lines[hi - 1])
    }
}

/// End of the window of detail lines after the heading on line `i`: the
/// next four lines, or fewer at the end of the text.
pub open spec fn window_end(lines: Seq<Seq<char>>, i: int) -> int {
    if i + 5 < lines.len() {
        i + 5
    } else {
        lines.len() as int
    }
}

/// The vulnerabilities found in the first `n` lines: one per heading line, in
/// order, with the details read from the following lines.
pub open spec fn advisories(lines: Seq<Seq<char>>, n: int) -> Seq<VulnerabilityView>
    decreases n,
{
    if n <= 0 {
        Seq::empty()
    } else {
        let prev = advisories(lines, n - 1);
        match heading(lines[n - 1]) {
            None => prev,
            Some((id, title)) => {
                let d = details_of(lines, n, window_end(lines, n - 1));
                prev.push((id, d.0, d.1, d.2, title, d.3))
            },
        }
    }
}

/// One of the four severities an advisory can have.
pub open spec fn known_severity(s: Seq<char>) -> bool {
    s == "high"@ || s == "medium"@ || s == "low"@ || s == "unknown"@
}

proof fn lemma_details_severity(lines: Seq<Seq<char>>, lo: int, hi: int)
    ensures
        known_severity(details_of(lines, lo, hi).2),
    decreases hi - lo,
{
    if hi > lo {
        lemma_details_severity(lines, lo, hi - 1);
    }
}

/// Every advisory has one of the four severities `high`, `medium`, `low`
/// and `unknown`.
pub proof fn lemma_severity_is_known(lines: Seq<Seq<char>>, n: int)
    ensures
        forall|i: int|
            0 <= i < advisories(lines, n).len() ==> known_severity(
                (#[trigger] advisories(lines, n)[i]).3,
            ),
    decreases n,
{
    if n > 0 {
        lemma_severity_is_known(lines, n - 1);
        let prev = advisories(lines, n - 1);
        match heading(lines[n - 1]) {
            None => {},
            Some((id, title)) => {
                let d = details_of(lines, n, window_end(lines, n - 1));
                lemma_details_severity(lines, n, window_end(lines, n - 1));
                let v = (id, d.0, d.1, d.2, title, d.3);
                assert forall|i: int| 0 <= i < prev.push(v).len() implies known_severity(
                    (#[trigger] prev.push(v)[i]).3,
                ) by {
                    if i < prev.len() {
                        assert(prev.push(v)[i] == prev[i]);
                    }
                }
            },
        }
    }
}

/// How many of the first `n` lines are advisory headings.
pub open spec fn heading_count(lines: Seq<Seq<char>>, n: int) -> int
    decreases n,
{
    if n <= 0 {
        0
    } else {
        heading_count(lines, n - 1) + if heading(lines[n - 1]) is Some {
            1int
        } else {
            0int
        }
    }
}

/// One vulnerability per advisory heading line, each carrying that line's id
/// and title.
pub proof fn lemma_one_advisory_per_heading(lines: Seq<Seq<char>>, n: int)
    requires
        n <= lines.len(),
    ensures
        advisories(lines, n).len() == heading_count(lines, n),
        forall|i: int|
            0 <= i < advisories(lines, n).len() ==> exists|j: int|
                0 <= j < n && #[trigger] heading(lines[j]) == Some(
                    ((#[trigger] advisories(lines, n)[i]).0, advisories(lines, n)[i].4),
                ),
    decreases n,
{
    if n > 0 {
        lemma_one_advisory_per_heading(lines, n - 1);
        let prev = advisories(lines, n - 1);
        match heading(lines[n - 1]) {
            None => {},
            Some((id, title)) => {
                let d = details_of(lines, n, window_end(lines, n - 1));
                let v = (id, d.0, d.1, d.2, title, d.3);
                assert forall|i: int| 0 <= i < prev.push(v).len() implies exists|j: int|
                    0 <= j < n && #[trigger] heading(lines[j]) == Some(
                        ((#[trigger] prev.push(v)[i]).0, prev.push(v)[i].4),
                    ) by {
                    if i < prev.len() {
                        assert(prev.push(v)[i] == prev[i]);
                        let j = choose|j: int|
                            0 <= j < n - 1 && #[trigger] heading(lines[j]) == Some(
                                ((#[trigger] prev[i]).0, prev[i].4),
                            );
                        assert(heading(lines[j]) == Some((prev.push(v)[i].0, prev.push(v)[i].4)));
                    } else {
                        assert(heading(lines[n - 1]) == Some((prev.push(v)[i].0, prev.push(v)[i].4)));
                    }
                }
            },
        }
    }
}

/// Finds the heading pattern on a line: the end of the id and the bounds of
/// the title within `line[e..]`.
fn match_heading(line: &Vec<char>) -> (r: Option<(usize, Vec<char>, usize, usize)>)
    ensures
        r is None <==> heading(line@) is None,
        r matches Some((e, rest, lo, hi)) ==> {
            &&& e <= line.len()
            &&& lo <= hi <= rest.len()
            &&& heading(line@) == Some(
                (line@.subrange(0, e as int), rest@.subrange(lo as int, hi as int)),
            )
        },
{
    let a = scan(line, 0, CharClass::AsciiUpper);
    if a == 0 || a >= line.len() || line[a] != '-' {
        return None;
    }
    let b = scan(line, a + 1, CharClass::DecimalDigit);
    if b == a + 1 || b >= line.len() || line[b] != '-' {
        return None;
    }
    let e = scan(line, b + 1, CharClass::DecimalDigit);
    if e == b + 1 || line.len() - e < 2 || !crate::text::char_in_class(
        CharClass::WhiteSpace,
        line[e],
    ) {
        return None;
    }
    let rest = slice_vec(line, e, line.len());
    let (lo, hi) = trim_bounds(&rest);
    Some((e, rest, lo, hi))
}

/// Finds a package line starting at `p`.
fn match_package_at(line: &Vec<char>, p: usize, tree: &Vec<char>) -> (r: Option<
    (usize, usize, usize, usize, usize),
>)
    requires
        tree@ == "└──"@,
    ensures
        r is None <==> package_at(line@, p as int) is None,
        r matches Some((q1, q2, v1, q4, q5)) ==> {
            &&& q1 <= q2 <= line.len()
            &&& v1 <= q4 <= line.len()
            &&& q5 <= line.len()
            &&& package_at(line@, p as int) == Some(
                (
                    line@.subrange(q1 as int, q2 as int),
                    line@.subrange(v1 as int, q4 as int),
                    line@.subrange(q5 as int, line.len() as int),
                ),
            )
        },
{
    if !matches_at(line, p, tree) {
        return None;
    }
    proof {
        reveal_strlit("└──");
        assert(tree@.len() == 3);
        assert(p + 3 <= line.len());
    }
    let q1 = scan(line, p + 3, CharClass::WhiteSpace);
    let q2 = scan(line, q1, CharClass::NonWhiteSpace);
    let q3 = scan(line, q2, CharClass::WhiteSpace);
    if q1 == p + 3 || q2 == q1 || q3 == q2 || q3 >= line.len() || line[q3] != 'v' {
        return None;
    }
    let q4 = scan(line, q3 + 1, CharClass::NonWhiteSpace);
    if q4 == q3 + 1 {
        return None;
    }
    let q5 = scan(line, q4, CharClass::WhiteSpace);
    Some((q1, q2, q3 + 1, q4, q5))
}

/// Finds the leftmost package line.
fn match_package(line: &Vec<char>, tree: &Vec<char>) -> (r: Option<
    (usize, usize, usize, usize, usize),
>)
    requires
        tree@ == "└──"@,
    ensures
        r is None <==> package_from(line@, 0) is None,
        r matches Some((q1, q2, v1, q4, q5)) ==> {
            &&& q1 <= q2 <= line.len()
            &&& v1 <= q4 <= line.len()
            &&& q5 <= line.len()
            &&& package_from(line@, 0) == Some(
                (
                    line@.subrange(q1 as int, q2 as int),
                    line@.subrange(v1 as int, q4 as int),
                    line@.subrange(q5 as int, line.len() as int),
                ),
            )
        },
{
    let mut p: usize = 0;
    while p < line.len()
        invariant
            p <= line.len(),
            tree@ == "└──"@,
            package_from(line@, 0) == package_from(line@, p as int),
        decreases line.len() - p,
    {
        let m = match_package_at(line, p, tree);
        if m.is_some() {
            return m;
        }
        p = p + 1;
    }
    None
}

/// Finds the leftmost URL: its bounds.
fn match_url(line: &Vec<char>, https: &Vec<char>, http: &Vec<char>) -> (r: Option<(usize, usize)>)
    requires
        https@ == "https://"@,
        http@ == "http://"@,
    ensures
        r is None <==> url_from(line@, 0) is None,
        r matches Some((b, e)) ==> b <= e <= line.len() && url_from(line@, 0) == Some(
            line@.subrange(b as int, e as int),
        ),
{
    proof {
        reveal_strlit("https://");
        reveal_strlit("http://");
    }
    let mut p: usize = 0;
    while p < line.len()
        invariant
            p <= line.len(),
            https@ == "https://"@,
            http@ == "http://"@,
            https@.len() == 8,
            http@.len() == 7,
            url_from(line@, 0) == url_from(line@, p as int),
        decreases line.len() - p,
    {
        let secure = matches_at(line, p, https) && line.len() - p > 8
            && crate::text::char_in_class(CharClass::NonWhiteSpace, line[p + 8]);
        let plain = matches_at(line, p, http) && line.len() - p > 7
            && crate::text::char_in_class(CharClass::NonWhiteSpace, line[p + 7]);
        if secure || plain {
            let e = scan(line, p, CharClass::NonWhiteSpace);
            return Some((p, e));
        }
        p = p + 1;
    }
    None
}

/// Computes `severity_of(rest@)`.
fn classify_severity(rest: &Vec<char>) -> (r: String)
    ensures
        r@ == severity_of(rest@),
{
    if contains_str(rest, "critical") || contains_str(rest, "high") {
        String::from_str("high")
    } else if contains_str(rest, "medium") || contains_str(rest, "moderate") {
        String::from_str("medium")
    } else if contains_str(rest, "low") {
        String::from_str("low")
    } else {
        String::from_str("unknown")
    }
}

pub open spec fn option_view(o: Option<String>) -> Option<Seq<char>> {
    match o {
        Some(u) => Some(u@),
        None => None,
    }
}

impl AuditScanner {
    /// Parse cargo audit text output into structured vulnerabilities.
    pub fn parse_output(text: &str) -> (r: Vec<Vulnerability>)
        ensures
            r@.map_values(|v: Vulnerability| vulnerability_view(v)) == advisories(
                text_lines(text@),
                text_lines(text@).len() as int,
            ),
    {
        let chars = chars_of(text);
        let lines = split_lines(&chars);
        let ghost ls = views_of(lines@);
        let tree = chars_of("└──");
        let https = chars_of("https://");
        let http = chars_of("http://");
        let mut vulns: Vec<Vulnerability> = Vec::new();
        let mut i: usize = 0;
        while i < lines.len()
            invariant
                i <= lines.len(),
                ls == views_of(lines@),
                ls == text_lines(text@),
                tree@ == "└──"@,
                https@ == "https://"@,
                http@ == "http://"@,
                vulns@.map_values(|v: Vulnerability| vulnerability_view(v)) == advisories(ls, i as int),
            decreases lines.len() - i,
        {
            assert(lines@[i as int]@ == ls[i as int]);
            match match_heading(&lines[i]) {
                None => {},
                Some((e, rest, lo, hi)) => {
                    let id = string_of(&lines[i], 0, e);
                    let title = string_of(&rest, lo, hi);
                    let mut package = String::new();
                    let mut version = String::new();
                    let mut severity = String::from_str("unknown");
                    let mut url: Option<String> = None;
                    let end = if lines.len() - i > 5 {
                        i + 5
                    } else {
                        lines.len()
                    };
                    let mut j = i + 1;
                    assert(package@ =~= Seq::<char>::empty());
                    while j < end
                        invariant
                            i + 1 <= j <= end <= lines.len(),
                            end == window_end(ls, i as int),
                            ls == views_of(lines@),
                            tree@ == "└──"@,
                            https@ == "https://"@,
                            http@ == "http://"@,
                            (package@, version@, severity@, option_view(url)) == details_of(
                                ls,
                                i + 1,
                                j as int,
                            ),
                        decreases end - j,
                    {
                        let line = &lines[j];
                        assert(line@ == ls[j as int]);
                        match match_package(line, &tree) {
                            Some((q1, q2, v1, q4, q5)) => {
                                package = string_of(line, q1, q2);
                                version = string_of(line, v1, q4);
                                let rest_of_line = slice_vec(line, q5, line.len());
                                severity = classify_severity(&rest_of_line);
                            },
                            None => {},
                        }
                        match match_url(line, &https, &http) {
                            Some((b, e)) => {
                                url = Some(string_of(line, b, e));
                            },
                            None => {},
                        }
                        j = j + 1;
                    }
                    let ghost before = vulns@;
                    vulns.push(Vulnerability { id, package, version, severity, title, url });
                    assert(vulns@.map_values(|v: Vulnerability| vulnerability_view(v)) =~= before.map_values(
                        |v: Vulnerability| vulnerability_view(v),
                    ).push(vulnerability_view(vulns@[vulns@.len() - 1])));
                },
            }
            i = i + 1;
        }
        vulns
    }
}

} // verus!
