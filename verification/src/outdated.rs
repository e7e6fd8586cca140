//! Outdated dependencies: version requirements read from a manifest,
//! compared with the newest published version, and the report of
//! `cargo outdated`.
use vstd::prelude::*;

use crate::text::{
    chars_of, in_class, is_white_space, lemma_span_is, rspan, scan, slice_vec, span, string_of, trim,
    trim_bounds, CharClass,
};

verus! {

/// An outdated dependency with current and latest version info
#[derive(Debug, Clone)]
pub struct OutdatedDep {
    pub name: String,
    pub current: String,
    pub latest: String,
    pub kind: String,
}

/// Checks for outdated dependencies.
pub struct DepOutdated;

/// A dependency entry of a manifest, as far as version extraction reads it.
#[derive(Debug, Clone)]
pub enum DependencyValue {
    /// `name = "<requirement>"`
    Text(String),
    /// `name = { ... }`: the table's entries in key order, each key with its
    /// value when that value is a string.
    Table(Vec<(String, Option<String>)>),
    /// Any other kind of value.
    Other,
}

/// (name, current, latest, kind) of an outdated dependency.
pub type OutdatedView = (Seq<char>, Seq<char>, Seq<char>, Seq<char>);

pub open spec fn outdated_view(d: OutdatedDep) -> OutdatedView {
    (d.name@, d.current@, d.latest@, d.kind@)
}

pub open spec fn outdated_views(v: Seq<OutdatedDep>) -> Seq<OutdatedView> {
    v.map_values(|d: OutdatedDep| outdated_view(d))
}

/// A version requirement without its leading operator characters (those of
/// class `ops`), cut at the first comma and trimmed.
pub open spec fn requirement_version(s: Seq<char>, ops: CharClass) -> Seq<char> {
    let a = span(s, 0, ops);
    let b = span(s, a, CharClass::NotComma);
    trim(s.subrange(a, b))
}

/// A requirement written as operator characters of class `ops`, then a
/// version (which starts with no such operator, holds no comma and neither
/// starts nor ends with white space), then possibly a comma and more, gives
/// that whole version.
pub proof fn lemma_requirement_version_of(
    op: Seq<char>,
    version: Seq<char>,
    tail: Seq<char>,
    ops: CharClass,
)
    requires
        forall|j: int| 0 <= j < op.len() ==> in_class(ops, #[trigger] op[j]),
        version.len() > 0,
        !in_class(ops, version[0]),
        !version.contains(','),
        !is_white_space(version[0]),
        !is_white_space(version.last()),
    ensures
        requirement_version(op + version, ops) == version,
        requirement_version(op + version + ","@ + tail, ops) == version,
{
    reveal_strlit(",");
    lemma_version_part(op, version, Seq::empty(), ops);
    assert(op + version + Seq::<char>::empty() =~= op + version);
    lemma_version_part(op, version, ","@ + tail, ops);
    assert(op + version + (","@ + tail) =~= op + version + ","@ + tail);
}

proof fn lemma_version_part(op: Seq<char>, version: Seq<char>, after: Seq<char>, ops: CharClass)
    requires
        forall|j: int| 0 <= j < op.len() ==> in_class(ops, #[trigger] op[j]),
        version.len() > 0,
        !in_class(ops, version[0]),
        !version.contains(','),
        !is_white_space(version[0]),
        !is_white_space(version.last()),
        after.len() == 0 || after[0] == ',',
    ensures
        requirement_version(op + version + after, ops) == version,
{
    let s = op + version + after;
    let a = op.len() as int;
    let b = a + version.len();
    assert forall|j: int| 0 <= j < a implies in_class(ops, #[trigger] s[j]) by {
        assert(s[j] == op[j]);
    }
    assert(s[a] == version[0]);
    lemma_span_is(s, 0, a, ops);
    assert forall|j: int| a <= j < b implies in_class(CharClass::NotComma, #[trigger] s[j]) by {
        assert(s[j] == version[j - a]);
        if version[j - a] == ',' {
            assert(version.contains(','));
        }
    }
    if after.len() > 0 {
        assert(s[b] == after[0]);
    }
    lemma_span_is(s, a, b, CharClass::NotComma);
    let part = s.subrange(a, b);
    assert(part =~= version);
    lemma_span_is(version, 0, 0, CharClass::WhiteSpace);
    assert(version[version.len() - 1] == version.last());
    assert(rspan(version, version.len() as int, CharClass::WhiteSpace) == version.len());
    assert(version.subrange(0, version.len() as int) =~= version);
}

/// A plain requirement string `op + version` (operators among `^ ~ = > <`)
/// whose version holds a `.` asks for that whole version.
pub proof fn lemma_text_requirement_extracted(op: Seq<char>, version: Seq<char>, tail: Seq<char>)
    requires
        forall|j: int| 0 <= j < op.len() ==> in_class(CharClass::ComparisonOperator, #[trigger] op[j]),
        version.len() > 0,
        !in_class(CharClass::ComparisonOperator, version[0]),
        !version.contains(','),
        !is_white_space(version[0]),
        !is_white_space(version.last()),
        version.contains('.'),
    ensures
        view_version((0u8, op + version + ","@ + tail, Seq::empty())) == Some(version),
        view_version((0u8, op + version, Seq::empty())) == Some(version),
{
    lemma_requirement_version_of(op, version, tail, CharClass::ComparisonOperator);
}

/// A dependency table asks for the version in its `version` entry, without
/// leading `^ ~ =`, when that entry is a string, whatever other entries it
/// has; a table without a string `version` entry asks for none.
pub proof fn lemma_table_version_extracted(
    before: Seq<(Seq<char>, Option<Seq<char>>)>,
    value: Option<Seq<char>>,
    after: Seq<(Seq<char>, Option<Seq<char>>)>,
)
    requires
        forall|j: int| 0 <= j < before.len() ==> (#[trigger] before[j]).0 != "version"@,
    ensures
        view_version((1u8, Seq::empty(), before + seq![("version"@, value)] + after)) == match value {
            Some(v) => Some(requirement_version(v, CharClass::RequirementOperator)),
            None => None::<Seq<char>>,
        },
        (forall|j: int| 0 <= j < after.len() ==> (#[trigger] after[j]).0 != "version"@) ==> view_version(
            (1u8, Seq::empty(), before + after),
        ) is None,
{
    lemma_lookup_finds_first(before, "version"@, value, after);
}

/// The version a dependency entry asks for (see `view_version`).
pub open spec fn extracted_version(v: DependencyValue) -> Option<Seq<char>> {
    view_version(dependency_value_view(v))
}

/// Computes `requirement_version(s@, ops)`.
fn strip_requirement(s: &String, ops: CharClass) -> (r: String)
    ensures
        r@ == requirement_version(s@, ops),
{
    let cs = chars_of(s.as_str());
    let a = scan(&cs, 0, ops);
    let b = scan(&cs, a, CharClass::NotComma);
    let part = slice_vec(&cs, a, b);
    let (lo, hi) = trim_bounds(&part);
    string_of(&part, lo, hi)
}

/// Whether `s@` contains `c`.
fn has_char(s: &String, c: char) -> (r: bool)
    ensures
        r == s@.contains(c),
{
    let cs = chars_of(s.as_str());
    let mut i: usize = 0;
    while i < cs.len()
        invariant
            i <= cs.len(),
            cs@ == s@,
            forall|j: int| 0 <= j < i ==> cs@[j] != c,
        decreases cs.len() - i,
    {
        if cs[i] == c {
            assert(s@[i as int] == c);
            return true;
        }
        i = i + 1;
    }
    false
}

/// Names what `serde_json::from_str` reads from a JSON text that is an array
/// of objects whose values are all strings: for each object, its entries in
/// ascending key order, each key once (a repeated key keeps its last value).
/// `None` when the text is not such a document.
pub uninterp spec fn json_string_tables(json: Seq<char>) -> Option<Seq<Seq<(Seq<char>, Seq<char>)>>>;

/// The character sequences of a list of string tables.
pub open spec fn table_views(v: Seq<Vec<(String, String)>>) -> Seq<Seq<(Seq<char>, Seq<char>)>> {
    v.map_values(
        |t: Vec<(String, String)>| t@.map_values(|p: (String, String)| (p.0@, p.1@)),
    )
}

/// `serde_json::from_str` into a list of string-to-string maps (ordered by
/// key). Trusted: the result is the named reading `json_string_tables` of the
/// text.
#[verifier::external_body]
fn parse_string_tables(json: &str) -> (r: Option<Vec<Vec<(String, String)>>>)
    ensures
        r is None <==> json_string_tables(json@) is None,
        r matches Some(v) ==> table_views(v@) == json_string_tables(json@)->0,
{
    serde_json::from_str::<Vec<std::collections::BTreeMap<String, String>>>(json).ok().map(
        |v| v.into_iter().map(|m| m.into_iter().collect()).collect(),
    )
}

/// The value of the first entry of `t` whose key is `key`.
pub open spec fn lookup<V>(t: Seq<(Seq<char>, V)>, key: Seq<char>) -> Option<V>
    decreases t.len(),
{
    if t.len() == 0 {
        None
    } else if t[0].0 == key {
        Some(t[0].1)
    } else {
        lookup(t.drop_first(), key)
    }
}

/// Looking a key up finds the value of its first entry: entries before it
/// with other keys are passed over, and entries after it do not matter.
pub proof fn lemma_lookup_finds_first<V>(
    before: Seq<(Seq<char>, V)>,
    key: Seq<char>,
    value: V,
    after: Seq<(Seq<char>, V)>,
)
    requires
        forall|j: int| 0 <= j < before.len() ==> (#[trigger] before[j]).0 != key,
    ensures
        lookup(before + seq![(key, value)] + after, key) == Some(value),
        (forall|j: int| 0 <= j < after.len() ==> (#[trigger] after[j]).0 != key) ==> lookup(
            before + after,
            key,
        ) is None,
    decreases before.len(),
{
    let t = before + seq![(key, value)] + after;
    if before.len() == 0 {
        assert(t[0] == (key, value));
        if forall|j: int| 0 <= j < after.len() ==> (#[trigger] after[j]).0 != key {
            lemma_lookup_absent(after, key);
            assert(before + after =~= after);
        }
    } else {
        let b = before.drop_first();
        lemma_lookup_finds_first(b, key, value, after);
        assert(t[0] == before[0]);
        assert(t.drop_first() =~= b + seq![(key, value)] + after);
        assert((before + after)[0] == before[0]);
        assert((before + after).drop_first() =~= b + after);
    }
}

proof fn lemma_lookup_absent<V>(t: Seq<(Seq<char>, V)>, key: Seq<char>)
    requires
        forall|j: int| 0 <= j < t.len() ==> (#[trigger] t[j]).0 != key,
    ensures
        lookup(t, key) is None,
    decreases t.len(),
{
    if t.len() > 0 {
        assert(t[0].0 != key);
        let r = t.drop_first();
        assert forall|j: int| 0 <= j < r.len() implies (#[trigger] r[j]).0 != key by {
            assert(r[j] == t[j + 1]);
        }
        lemma_lookup_absent(r, key);
    }
}

pub open spec fn lookup_or(t: Seq<(Seq<char>, Seq<char>)>, key: Seq<char>, default: Seq<char>) -> Seq<char> {
    match lookup(t, key) {
        Some(v) => v,
        None => default,
    }
}

/// The outdated dependency an entry of the `cargo outdated` report describes:
/// one with a non-empty name and a non-empty latest version that differs from
/// the current one (a missing kind is `normal`).
pub open spec fn entry_outdated(t: Seq<(Seq<char>, Seq<char>)>) -> Option<OutdatedView> {
    let name = lookup_or(t, "name"@, Seq::empty());
    let current = lookup_or(t, "current"@, Seq::empty());
    let latest = lookup_or(t, "latest"@, Seq::empty());
    let kind = lookup_or(t, "kind"@, "normal"@);
    if name.len() > 0 && current != latest && latest.len() > 0 {
        Some((name, current, latest, kind))
    } else {
        None
    }
}

/// The outdated dependencies among the first `n` report entries, in order.
pub open spec fn report_outdated(ts: Seq<Seq<(Seq<char>, Seq<char>)>>, n: int) -> Seq<OutdatedView>
    decreases n,
{
    if n <= 0 {
        Seq::empty()
    } else {
        let prev = report_outdated(ts, n - 1);
        match entry_outdated(ts[n - 1]) {
            Some(d) => prev.push(d),
            None => prev,
        }
    }
}

/// Every dependency reported from a `cargo outdated` report has a name and a
/// latest version, and a current version that differs from the latest.
pub proof fn lemma_reported_are_outdated(ts: Seq<Seq<(Seq<char>, Seq<char>)>>, n: int)
    ensures
        forall|i: int|
            0 <= i < report_outdated(ts, n).len() ==> {
                let d = #[trigger] report_outdated(ts, n)[i];
                &&& d.0.len() > 0
                &&& d.2.len() > 0
                &&& d.1 != d.2
            },
        report_outdated(ts, n).len() <= if n < 0 { 0 } else { n },
    decreases n,
{
    if n > 0 {
        lemma_reported_are_outdated(ts, n - 1);
        let prev = report_outdated(ts, n - 1);
        if let Some(d) = entry_outdated(ts[n - 1]) {
            assert forall|i: int| 0 <= i < prev.push(d).len() implies {
                let e = #[trigger] prev.push(d)[i];
                &&& e.0.len() > 0
                &&& e.2.len() > 0
                &&& e.1 != e.2
            } by {
                if i < prev.len() {
                    assert(prev.push(d)[i] == prev[i]);
                }
            }
        }
    }
}

/// The fields of a report entry: name, current, latest (empty when
/// missing) and kind (`normal` when missing).
pub open spec fn entry_fields(t: Seq<(Seq<char>, Seq<char>)>) -> OutdatedView {
    (
        lookup_or(t, "name"@, Seq::empty()),
        lookup_or(t, "current"@, Seq::empty()),
        lookup_or(t, "latest"@, Seq::empty()),
        lookup_or(t, "kind"@, "normal"@),
    )
}

/// Every entry among the first `n` of a `cargo outdated` report that has a
/// name, a latest version, and a current version that differs from the
/// latest is reported, whatever its kind; and every reported dependency is
/// such an entry.
pub proof fn lemma_report_complete(ts: Seq<Seq<(Seq<char>, Seq<char>)>>, n: int)
    requires
        0 <= n <= ts.len(),
    ensures
        forall|i: int|
            0 <= i < n && (#[trigger] entry_fields(ts[i])).0.len() > 0 && entry_fields(ts[i]).2.len()
                > 0 && entry_fields(ts[i]).1 != entry_fields(ts[i]).2 ==> report_outdated(
                ts,
                n,
            ).contains(entry_fields(ts[i])),
        forall|j: int|
            0 <= j < report_outdated(ts, n).len() ==> exists|i: int|
                0 <= i < n && #[trigger] report_outdated(ts, n)[j] == entry_fields(ts[i]),
    decreases n,
{
    if n > 0 {
        lemma_report_complete(ts, n - 1);
        let prev = report_outdated(ts, n - 1);
        let f = entry_fields(ts[n - 1]);
        if f.0.len() > 0 && f.2.len() > 0 && f.1 != f.2 {
            assert(report_outdated(ts, n) == prev.push(f));
            assert(prev.push(f)[prev.len() as int] == f);
            assert forall|i: int|
                0 <= i < n && (#[trigger] entry_fields(ts[i])).0.len() > 0 && entry_fields(
                    ts[i],
                ).2.len() > 0 && entry_fields(ts[i]).1 != entry_fields(ts[i]).2 implies prev.push(
                f,
            ).contains(entry_fields(ts[i])) by {
                if i < n - 1 {
                    let k = choose|k: int| 0 <= k < prev.len() && prev[k] == entry_fields(ts[i]);
                    assert(prev.push(f)[k] == prev[k]);
                }
            }
            assert forall|j: int| 0 <= j < prev.push(f).len() implies exists|i: int|
                0 <= i < n && #[trigger] prev.push(f)[j] == entry_fields(ts[i]) by {
                if j < prev.len() {
                    assert(prev.push(f)[j] == prev[j]);
                    let i = choose|i: int| 0 <= i < n - 1 && prev[j] == entry_fields(ts[i]);
                    assert(prev.push(f)[j] == entry_fields(ts[i]));
                } else {
                    assert(prev.push(f)[j] == entry_fields(ts[n - 1]));
                }
            }
        } else {
            assert(report_outdated(ts, n) == prev);
        }
    }
}

/// Finds the value for `key` in `t`.
fn find_value(t: &Vec<(String, String)>, key: &str) -> (r: Option<String>)
    ensures
        match r {
            Some(v) => lookup(t@.map_values(|p: (String, String)| (p.0@, p.1@)), key@) == Some(v@),
            None => lookup(t@.map_values(|p: (String, String)| (p.0@, p.1@)), key@) is None,
        },
{
    let ghost tv = t@.map_values(|p: (String, String)| (p.0@, p.1@));
    let k = String::from_str(key);
    let mut i: usize = 0;
    assert(tv.subrange(0, tv.len() as int) =~= tv);
    while i < t.len()
        invariant
            i <= t.len(),
            tv == t@.map_values(|p: (String, String)| (p.0@, p.1@)),
            k@ == key@,
            lookup(tv, key@) == lookup(tv.subrange(i as int, tv.len() as int), key@),
        decreases t.len() - i,
    {
        let ghost rest = tv.subrange(i as int, tv.len() as int);
        assert(rest.drop_first() =~= tv.subrange(i + 1, tv.len() as int));
        assert(rest[0] == tv[i as int]);
        if t[i].0 == k {
            return Some(t[i].1.clone());
        }
        i = i + 1;
    }
    assert(tv.subrange(i as int, tv.len() as int).len() == 0);
    None
}

/// A dependency entry as plain values: `(0, s, [])` for a requirement
/// string `s`, `(1, [], entries)` for a table with those entries (each key
/// with its string value, if any), and `(2, [], [])` for anything else.
pub open spec fn dependency_value_view(v: DependencyValue) -> DependencyView {
    match v {
        DependencyValue::Text(s) => (0, s@, Seq::empty()),
        DependencyValue::Table(entries) => (1, Seq::empty(), table_entries_view(entries@)),
        DependencyValue::Other => (2, Seq::empty(), Seq::empty()),
    }
}

/// The entries of a dependency table as plain values.
pub open spec fn table_entries_view(v: Seq<(String, Option<String>)>) -> Seq<(Seq<char>, Option<Seq<char>>)> {
    v.map_values(|p: (String, Option<String>)| (p.0@, option_str_view(p.1)))
}

pub open spec fn option_str_view(o: Option<String>) -> Option<Seq<char>> {
    match o {
        Some(s) => Some(s@),
        None => None,
    }
}

/// A dependency entry as plain values (see `dependency_value_view`).
pub type DependencyView = (u8, Seq<char>, Seq<(Seq<char>, Option<Seq<char>>)>);

/// The entries of a manifest table as plain values.
pub type TableView = Seq<(Seq<char>, DependencyView)>;

/// The entries of a manifest table as plain values.
pub open spec fn entries_view(v: Seq<(String, DependencyValue)>) -> TableView {
    v.map_values(|p: (String, DependencyValue)| (p.0@, dependency_value_view(p.1)))
}

/// A manifest's top-level entries as plain values: each key with its
/// table's entries when its value is a table.
pub open spec fn document_view(v: Seq<(String, Option<Vec<(String, DependencyValue)>>)>) -> Seq<
    (Seq<char>, Option<TableView>),
> {
    v.map_values(
        |p: (String, Option<Vec<(String, DependencyValue)>>)|
            (
                p.0@,
                match p.1 {
                    Some(t) => Some(entries_view(t@)),
                    None => None,
                },
            ),
    )
}

/// Names how `toml::from_str` reads a TOML document: `None` when the text
/// is not TOML; otherwise its top-level entries in key order, each key with
/// the entries of its value when that value is a table (values read as in
/// `dependency_value_view`).
pub uninterp spec fn toml_document(document: Seq<char>) -> Option<
    Seq<(Seq<char>, Option<TableView>)>,
>;

/// The top-level table `key` of a TOML document: `None` when the text is
/// not TOML, `Some(None)` when the document has no entry `key` or its value
/// is not a table.
pub open spec fn toml_table(document: Seq<char>, key: Seq<char>) -> Option<Option<TableView>> {
    match toml_document(document) {
        Some(d) => Some(
            match lookup(d, key) {
                Some(Some(t)) => Some(t),
                _ => None,
            },
        ),
        None => None,
    }
}

/// `toml::from_str` into a `toml::Table`, converted variant by variant to
/// three levels: the top-level entries, the entries of each top-level table,
/// and the string entries of each table below those. Trusted: the result is
/// the named reading `toml_document`.
#[verifier::external_body]
pub(crate) fn parse_toml(document: &str) -> (r: Result<
    Vec<(String, Option<Vec<(String, DependencyValue)>>)>,
    String,
>)
    ensures
        r is Err <==> toml_document(document@) is None,
        r matches Ok(d) ==> toml_document(document@) == Some(document_view(d@)),
{
    let v = toml::from_str::<toml::Table>(document).map_err(|e| e.to_string())?;
    Ok(v.into_iter().map(|(k, t)| (k, match t {
        toml::Value::Table(d) => Some(d.into_iter().map(|(n, x)| (n, match x {
            toml::Value::String(s) => DependencyValue::Text(s),
            toml::Value::Table(e) => DependencyValue::Table(e.into_iter().map(|(a, y)| (a, match y {
                toml::Value::String(s) => Some(s),
                _ => None,
            })).collect()),
            _ => DependencyValue::Other,
        })).collect()),
        _ => None,
    })).collect())
}

/// The table under `key` among a manifest's top-level entries, when there
/// is one.
pub(crate) fn table_of<'a>(
    doc: &'a Vec<(String, Option<Vec<(String, DependencyValue)>>)>,
    key: &str,
) -> (r: Option<&'a Vec<(String, DependencyValue)>>)
    ensures
        match lookup(document_view(doc@), key@) {
            Some(Some(t)) => r matches Some(v) && entries_view(v@) == t,
            _ => r is None,
        },
{
    let ghost dv = document_view(doc@);
    let k = String::from_str(key);
    let mut i: usize = 0;
    assert(dv.subrange(0, dv.len() as int) =~= dv);
    while i < doc.len()
        invariant
            i <= doc.len(),
            dv == document_view(doc@),
            k@ == key@,
            lookup(dv, key@) == lookup(dv.subrange(i as int, dv.len() as int), key@),
        decreases doc.len() - i,
    {
        let ghost rest = dv.subrange(i as int, dv.len() as int);
        assert(rest.drop_first() =~= dv.subrange(i + 1, dv.len() as int));
        assert(rest[0] == dv[i as int]);
        if doc[i].0 == k {
            return match &doc[i].1 {
                Some(t) => Some(t),
                None => None,
            };
        }
        i = i + 1;
    }
    assert(dv.subrange(i as int, dv.len() as int).len() == 0);
    None
}

/// The version a dependency entry asks for, read from its plain view. A
/// plain requirement string loses leading `^ ~ = > <` and counts only when
/// what is left holds a `.`; in a table, the `version` entry counts when it
/// is a string, and loses leading `^ ~ =`.
pub open spec fn view_version(v: DependencyView) -> Option<Seq<char>> {
    if v.0 == 0 {
        let r = requirement_version(v.1, CharClass::ComparisonOperator);
        if r.contains('.') && r.len() > 0 {
            Some(r)
        } else {
            None
        }
    } else if v.0 == 1 {
        match lookup(v.2, "version"@) {
            Some(Some(s)) => Some(requirement_version(s, CharClass::RequirementOperator)),
            _ => None,
        }
    } else {
        None
    }
}

/// (name, current version, kind) for each of the first `n` entries whose
/// version can be extracted, in order.
pub open spec fn candidates_of(
    entries: TableView,
    n: int,
    kind: Seq<char>,
) -> Seq<(Seq<char>, Seq<char>, Seq<char>)>
    decreases n,
{
    if n <= 0 {
        Seq::empty()
    } else {
        let prev = candidates_of(entries, n - 1, kind);
        match view_version(entries[n - 1].1) {
            Some(c) => prev.push((entries[n - 1].0, c, kind)),
            None => prev,
        }
    }
}

/// Whether `t` is (name, extracted version, `kind`) for one of the first `n`
/// entries whose version can be extracted.
pub open spec fn is_candidate_entry(entries: TableView, n: int, kind: Seq<char>, t: (Seq<char>, Seq<char>, Seq<char>)) -> bool {
    exists|i: int|
        0 <= i < n && view_version(entries[i].1) is Some && t == (
            entries[i].0,
            view_version(entries[i].1)->0,
            kind,
        )
}

/// Every entry among the first `n` whose version can be extracted is a
/// candidate, with its name, that version and the table's kind; and every
/// candidate is such an entry.
pub proof fn lemma_candidates_complete(entries: TableView, n: int, kind: Seq<char>)
    requires
        0 <= n <= entries.len(),
    ensures
        forall|i: int|
            0 <= i < n && view_version((#[trigger] entries[i]).1) is Some ==> candidates_of(
                entries,
                n,
                kind,
            ).contains((entries[i].0, view_version(entries[i].1)->0, kind)),
        forall|j: int|
            0 <= j < candidates_of(entries, n, kind).len() ==> is_candidate_entry(
                entries,
                n,
                kind,
                #[trigger] candidates_of(entries, n, kind)[j],
            ),
    decreases n,
{
    if n > 0 {
        lemma_candidates_complete(entries, n - 1, kind);
        let prev = candidates_of(entries, n - 1, kind);
        let cur = candidates_of(entries, n, kind);
        assert forall|i: int| 0 <= i < n && view_version((#[trigger] entries[i]).1) is Some implies cur.contains(
            (entries[i].0, view_version(entries[i].1)->0, kind),
        ) by {
            if i < n - 1 {
                let k = choose|k: int|
                    0 <= k < prev.len() && prev[k] == (entries[i].0, view_version(entries[i].1)->0, kind);
                assert(cur[k] == prev[k]);
            } else {
                assert(cur[prev.len() as int] == (entries[i].0, view_version(entries[i].1)->0, kind));
            }
        }
        assert forall|j: int| 0 <= j < cur.len() implies is_candidate_entry(entries, n, kind, #[trigger] cur[j]) by {
            if j < prev.len() {
                assert(cur[j] == prev[j]);
                assert(is_candidate_entry(entries, n - 1, kind, prev[j]));
                let i = choose|i: int|
                    0 <= i < n - 1 && view_version(entries[i].1) is Some && prev[j] == (
                        entries[i].0,
                        view_version(entries[i].1)->0,
                        kind,
                    );
                assert(0 <= i < n && view_version(entries[i].1) is Some && cur[j] == (
                    entries[i].0,
                    view_version(entries[i].1)->0,
                    kind,
                ));
            } else {
                let i = n - 1;
                assert(0 <= i < n && view_version(entries[i].1) is Some && cur[j] == (
                    entries[i].0,
                    view_version(entries[i].1)->0,
                    kind,
                ));
            }
        }
    }
}

/// The candidates of a table that may be absent.
pub open spec fn table_candidates(
    t: Option<TableView>,
    kind: Seq<char>,
) -> Seq<(Seq<char>, Seq<char>, Seq<char>)> {
    match t {
        Some(e) => candidates_of(e, e.len() as int, kind),
        None => Seq::empty(),
    }
}

pub open spec fn triple_views(v: Seq<(String, String, String)>) -> Seq<(Seq<char>, Seq<char>, Seq<char>)> {
    v.map_values(|t: (String, String, String)| (t.0@, t.1@, t.2@))
}

/// One level of a JSON document: a string, or an object whose members are
/// each kept with the JSON text of their value, or anything else.
#[derive(Debug, Clone)]
pub enum JsonValue {
    String(String),
    Object(Vec<(String, String)>),
    Other,
}

/// `(0, s, [])` for a string `s`, `(1, [], members)` for an object, and
/// `(2, [], [])` for anything else.
pub open spec fn json_view(v: JsonValue) -> (u8, Seq<char>, Seq<(Seq<char>, Seq<char>)>) {
    match v {
        JsonValue::String(s) => (0, s@, Seq::empty()),
        JsonValue::Object(m) => (1, Seq::empty(), m@.map_values(|p: (String, String)| (p.0@, p.1@))),
        JsonValue::Other => (2, Seq::empty(), Seq::empty()),
    }
}

/// Names how `serde_json::from_str` reads a JSON text, one level deep (see
/// `json_view`); each object member's value is given as the JSON text that
/// `serde_json` writes for it. `None` when the text is not JSON.
pub uninterp spec fn json_document(text: Seq<char>) -> Option<(u8, Seq<char>, Seq<(Seq<char>, Seq<char>)>)>;

/// `serde_json::from_str` into `serde_json::Value`, converted variant by
/// variant (object members written back as text with `to_string`).
/// Trusted: the result is the named reading `json_document`.
#[verifier::external_body]
fn parse_json(text: &str) -> (r: Option<JsonValue>)
    ensures
        r is None <==> json_document(text@) is None,
        r matches Some(v) ==> json_document(text@) == Some(json_view(v)),
{
    serde_json::from_str::<serde_json::Value>(text).ok().map(|v| match v {
        serde_json::Value::String(s) => JsonValue::String(s),
        serde_json::Value::Object(m) => JsonValue::Object(
            m.into_iter().map(|(k, x)| (k, x.to_string())).collect(),
        ),
        _ => JsonValue::Other,
    })
}

/// The object member `key` of a JSON text, as JSON text.
pub open spec fn json_member(text: Seq<char>, key: Seq<char>) -> Option<Seq<char>> {
    match json_document(text) {
        Some(d) => if d.0 == 1 {
            lookup(d.2, key)
        } else {
            None
        },
        None => None,
    }
}

/// The string a JSON text holds, when it holds a string.
pub open spec fn json_string(text: Seq<char>) -> Option<Seq<char>> {
    match json_document(text) {
        Some(d) => if d.0 == 0 {
            Some(d.1)
        } else {
            None
        },
        None => None,
    }
}

/// The newest published version in a crates.io API response: the string
/// at `crate.max_version`.
pub open spec fn crates_io_max_version(body: Seq<char>) -> Option<Seq<char>> {
    match json_member(body, "crate"@) {
        Some(c) => match json_member(c, "max_version"@) {
            Some(v) => json_string(v),
            None => None,
        },
        None => None,
    }
}

/// Computes `json_member(text@, key@)`.
fn member_of(text: &str, key: &str) -> (r: Option<String>)
    ensures
        option_str_view(r) == json_member(text@, key@),
{
    match parse_json(text) {
        Some(JsonValue::Object(members)) => {
            let found = find_value(&members, key);
            proof {
                let mv = members@.map_values(|p: (String, String)| (p.0@, p.1@));
                assert((json_document(text@)->0).2 == mv);
            }
            found
        },
        _ => None,
    }
}

/// Computes `json_string(text@)`.
fn string_of_json(text: &str) -> (r: Option<String>)
    ensures
        option_str_view(r) == json_string(text@),
{
    match parse_json(text) {
        Some(JsonValue::String(s)) => Some(s),
        _ => None,
    }
}

/// Appends the candidates of one table to `out`.
fn push_candidates(
    entries: &Vec<(String, DependencyValue)>,
    kind: &str,
    out: &mut Vec<(String, String, String)>,
)
    ensures
        triple_views(final(out)@) == triple_views(old(out)@) + candidates_of(
            entries_view(entries@),
            entries@.len() as int,
            kind@,
        ),
{
    let ghost start = triple_views(out@);
    let ghost ev = entries_view(entries@);
    let mut i: usize = 0;
    while i < entries.len()
        invariant
            i <= entries.len(),
            ev == entries_view(entries@),
            triple_views(out@) == start + candidates_of(ev, i as int, kind@),
        decreases entries.len() - i,
    {
        let (name, value) = &entries[i];
        assert(ev[i as int] == (name@, dependency_value_view(*value)));
        match DepOutdated::extract_version(value) {
            Some(current) => {
                let ghost before = out@;
                out.push((name.clone(), current, String::from_str(kind)));
                assert(triple_views(out@) =~= triple_views(before).push(
                    (name@, out@[out@.len() - 1].1@, kind@),
                ));
            },
            None => {},
        }
        i = i + 1;
    }
}

impl DepOutdated {
    /// The dependencies of a manifest whose version can be compared with
    /// crates.io: (name, current version, kind) for the `[dependencies]`
    /// table (kind `normal`) and then the `[dev-dependencies]` table (kind
    /// `dev`), each in table order. An error when the manifest is not TOML.
    pub fn outdated_candidates(manifest: &str) -> (r: Result<Vec<(String, String, String)>, String>)
        ensures
            r is Err <==> toml_document(manifest@) is None,
            r matches Ok(v) ==> triple_views(v@) == table_candidates(
                toml_table(manifest@, "dependencies"@)->0,
                "normal"@,
            ) + table_candidates(toml_table(manifest@, "dev-dependencies"@)->0, "dev"@),
    {
        let doc = parse_toml(manifest)?;
        let mut out: Vec<(String, String, String)> = Vec::new();
        assert(triple_views(out@) =~= Seq::empty());
        let normal = table_of(&doc, "dependencies");
        match normal {
            Some(entries) => push_candidates(entries, "normal", &mut out),
            None => {},
        }
        let ghost mid = triple_views(out@);
        let dev = table_of(&doc, "dev-dependencies");
        match dev {
            Some(entries) => push_candidates(entries, "dev", &mut out),
            None => {},
        }
        proof {
            if normal is None {
                assert(mid =~= table_candidates(toml_table(manifest@, "dependencies"@)->0, "normal"@));
            }
            if dev is None {
                assert(triple_views(out@) =~= mid + table_candidates(
                    toml_table(manifest@, "dev-dependencies"@)->0,
                    "dev"@,
                ));
            }
        }
        Ok(out)
    }

    /// The newest published version named in a crates.io API response body
    /// (its `crate.max_version` string).
    pub fn latest_version_from_response(body: &str) -> (r: Option<String>)
        ensures
            option_str_view(r) == crates_io_max_version(body@),
    {
        match member_of(body, "crate") {
            Some(c) => match member_of(c.as_str(), "max_version") {
                Some(v) => string_of_json(v.as_str()),
                None => None,
            },
            None => None,
        }
    }

    /// The outdated dependencies listed in the entries of a `cargo outdated`
    /// report, in order.
    pub fn outdated_from_entries(entries: &Vec<Vec<(String, String)>>) -> (r: Vec<OutdatedDep>)
        ensures
            outdated_views(r@) == report_outdated(table_views(entries@), entries@.len() as int),
    {
        let ghost ts = table_views(entries@);
        let mut deps: Vec<OutdatedDep> = Vec::new();
        let mut i: usize = 0;
        while i < entries.len()
            invariant
                i <= entries.len(),
                ts == table_views(entries@),
                outdated_views(deps@) == report_outdated(ts, i as int),
            decreases entries.len() - i,
        {
            let entry = &entries[i];
            assert(ts[i as int] == entry@.map_values(|p: (String, String)| (p.0@, p.1@)));
            let name = match find_value(entry, "name") {
                Some(v) => v,
                None => String::new(),
            };
            let current = match find_value(entry, "current") {
                Some(v) => v,
                None => String::new(),
            };
            let latest = match find_value(entry, "latest") {
                Some(v) => v,
                None => String::new(),
            };
            let kind = match find_value(entry, "kind") {
                Some(v) => v,
                None => String::from_str("normal"),
            };
            if name.as_str().unicode_len() != 0 && current != latest
                && latest.as_str().unicode_len() != 0 {
                let ghost before = deps@;
                deps.push(OutdatedDep { name, current, latest, kind });
                assert(outdated_views(deps@) =~= outdated_views(before).push(
                    outdated_view(deps@[deps@.len() - 1]),
                ));
            }
            i = i + 1;
        }
        deps
    }

    /// Parse cargo outdated JSON output
    pub fn parse_cargo_outdated_json(json: &str) -> (r: Result<Vec<OutdatedDep>, String>)
        ensures
            r matches Ok(deps) && outdated_views(deps@) == match json_string_tables(trim(json@)) {
                Some(ts) => report_outdated(ts, ts.len() as int),
                None => Seq::empty(),
            },
    {
        let cs = chars_of(json);
        let (lo, hi) = trim_bounds(&cs);
        let trimmed = string_of(&cs, lo, hi);
        let entries = match parse_string_tables(trimmed.as_str()) {
            Some(v) => v,
            None => Vec::new(),
        };
        proof {
            if json_string_tables(trim(json@)) is None {
                assert(table_views(entries@) =~= Seq::empty());
            }
        }
        Ok(Self::outdated_from_entries(&entries))
    }

    /// Extract version string from a dependency value
    pub fn extract_version(value: &DependencyValue) -> (r: Option<String>)
        ensures
            match r {
                Some(v) => extracted_version(*value) == Some(v@),
                None => extracted_version(*value) is None,
            },
    {
        match value {
            DependencyValue::Text(s) => {
                let v = strip_requirement(s, CharClass::ComparisonOperator);
                if has_char(&v, '.') && v.as_str().unicode_len() != 0 {
                    Some(v)
                } else {
                    None
                }
            },
            DependencyValue::Table(entries) => {
                let ghost ev = table_entries_view(entries@);
                let key = String::from_str("version");
                let mut k: usize = 0;
                assert(ev.subrange(0, ev.len() as int) =~= ev);
                assert(dependency_value_view(*value) == (1u8, Seq::<char>::empty(), ev));
                while k < entries.len()
                    invariant
                        k <= entries.len(),
                        ev == table_entries_view(entries@),
                        dependency_value_view(*value) == (1u8, Seq::<char>::empty(), ev),
                        key@ == "version"@,
                        lookup(ev, "version"@) == lookup(ev.subrange(k as int, ev.len() as int), "version"@),
                    decreases entries.len() - k,
                {
                    let ghost rest = ev.subrange(k as int, ev.len() as int);
                    assert(rest.drop_first() =~= ev.subrange(k + 1, ev.len() as int));
                    assert(rest[0] == ev[k as int]);
                    if entries[k].0 == key {
                        assert(ev[k as int] == (entries@[k as int].0@, option_str_view(entries@[k as int].1)));
                        assert(lookup(ev, "version"@) == Some(option_str_view(entries@[k as int].1)));
                        return match &entries[k].1 {
                            Some(s) => {
                                let r = strip_requirement(s, CharClass::RequirementOperator);
                                assert(lookup(ev, "version"@) == Some(Some(s@)));
                                assert(extracted_version(*value) == Some(requirement_version(
                                    s@,
                                    CharClass::RequirementOperator,
                                )));
                                Some(r)
                            },
                            None => None,
                        };
                    }
                    k = k + 1;
                }
                assert(ev.subrange(k as int, ev.len() as int).len() == 0);
                None
            },
            _ => None,
        }
    }

    /// The outdated-dependency record for a dependency whose current version
    /// is `current` and whose newest published version is `latest`: one
    /// exactly when the two differ.
    pub fn outdated_entry(name: &str, current: &str, latest: &str, kind: &str) -> (r: Option<
        OutdatedDep,
    >)
        ensures
            r is Some <==> current@ != latest@,
            r matches Some(d) ==> outdated_view(d) == (name@, current@, latest@, kind@),
    {
        let c = String::from_str(current);
        let l = String::from_str(latest);
        if c != l {
            Some(
                OutdatedDep {
                    name: String::from_str(name),
                    current: c,
                    latest: l,
                    kind: String::from_str(kind),
                },
            )
        } else {
            None
        }
    }
}

} // verus!
