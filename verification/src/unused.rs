//! Unused dependencies: manifest entries that no source file refers to.
use vstd::prelude::*;

use crate::outdated::{
    parse_toml, table_of, toml_document, toml_table, DependencyValue, DependencyView, TableView,
};
use crate::text::{chars_of, push_char};

verus! {

/// An unused dependency
#[derive(Debug, Clone)]
pub struct UnusedDep {
    pub name: String,
    pub kind: String,
    pub suggestion: String,
}

/// Detects dependencies listed in Cargo.toml but not actually imported in code.
pub struct UnusedDetector;

/// Names whether `regex::Regex::new` accepts `pattern`.
pub uninterp spec fn regex_accepts(pattern: Seq<char>) -> bool;

/// Names whether the regular expression `pattern` matches somewhere in
/// `text` (`regex::Regex::is_match`).
pub uninterp spec fn regex_finds(pattern: Seq<char>, text: Seq<char>) -> bool;

/// Compiles `pattern` with `regex::Regex::new` and, when it compiles, asks
/// `Regex::is_match` whether it matches in `text`. Trusted: the result is
/// `None` exactly when the pattern is refused, and otherwise the named
/// outcome `regex_finds`.
#[verifier::external_body]
fn pattern_matches(pattern: &str, text: &str) -> (r: Option<bool>)
    ensures
        r is Some <==> regex_accepts(pattern@),
        r matches Some(b) ==> b == regex_finds(pattern@, text@),
{
    regex::Regex::new(pattern).ok().map(|re| re.is_match(text))
}

/// A crate name as it appears in Rust paths: `-` becomes `_`.
pub open spec fn rust_ident(name: Seq<char>) -> Seq<char> {
    name.map_values(|c: char| if c == '-' { '_' } else { c })
}

/// The patterns that reveal a use of the crate named `name`: a `use` item,
/// an `extern crate`, a path through it, an attribute named after it, or an
/// attribute that mentions it as a word. The name must stand as a whole
/// word, so that `serde_json` is not taken for a use of `serde`.
pub open spec fn usage_pattern_list(name: Seq<char>) -> Seq<Seq<char>> {
    let id = rust_ident(name);
    seq![
        "use\\s+"@ + id + "\\b"@,
        "extern\\s+crate\\s+"@ + id + "\\b"@,
        "\\b"@ + id + "::"@,
        "#\\["@ + id + "\\b"@,
        "#\\[[^\\]]*\\b"@ + id + "\\b"@,
    ]
}

/// Whether one of the usage patterns of `name` compiles and matches in
/// `source`.
pub open spec fn crate_used(name: Seq<char>, source: Seq<char>) -> bool {
    exists|k: int|
        0 <= k < 5 && regex_accepts(#[trigger] usage_pattern_list(name)[k]) && regex_finds(
            usage_pattern_list(name)[k],
            source,
        )
}

/// Whether one of the outcomes is a match.
pub open spec fn any_match(outcomes: Seq<Option<bool>>) -> bool {
    exists|k: int| 0 <= k < outcomes.len() && outcomes[k] == Some(true)
}

/// (name, kind, suggestion) of an unused dependency.
pub type UnusedView = (Seq<char>, Seq<char>, Seq<char>);

pub open spec fn unused_view(d: UnusedDep) -> UnusedView {
    (d.name@, d.kind@, d.suggestion@)
}

/// The entries of `names` (a manifest table, labelled `table`, of
/// dependencies of kind `kind`) that `source` does not use, in order.
pub open spec fn unused_among(
    names: Seq<Seq<char>>,
    n: int,
    source: Seq<char>,
    kind: Seq<char>,
    table: Seq<char>,
) -> Seq<UnusedView>
    decreases n,
{
    if n <= 0 {
        Seq::empty()
    } else {
        let prev = unused_among(names, n - 1, source, kind, table);
        let name = names[n - 1];
        if crate_used(name, source) {
            prev
        } else {
            prev.push(
                (name, kind, "Remove `"@ + name + "` from ["@ + table + "] in Cargo.toml"@),
            )
        }
    }
}

/// The texts joined with a newline between each two.
pub open spec fn joined_lines(parts: Seq<Seq<char>>) -> Seq<char>
    decreases parts.len(),
{
    if parts.len() == 0 {
        Seq::empty()
    } else if parts.len() == 1 {
        parts[0]
    } else {
        joined_lines(parts.drop_last()) + seq!['\n'] + parts.last()
    }
}

/// The dependency names of a manifest table that may be absent, in table
/// order.
pub open spec fn table_names(t: Option<TableView>) -> Seq<Seq<char>> {
    match t {
        Some(e) => e.map_values(|p: (Seq<char>, DependencyView)| p.0),
        None => Seq::empty(),
    }
}

pub open spec fn string_seq_views(v: Seq<String>) -> Seq<Seq<char>> {
    v.map_values(|s: String| s@)
}

/// `rust_ident(name@)` as a `String`.
fn ident_of(name: &str) -> (r: String)
    ensures
        r@ == rust_ident(name@),
{
    let cs = chars_of(name);
    let mut out = String::new();
    let mut i: usize = 0;
    while i < cs.len()
        invariant
            i <= cs.len(),
            cs@ == name@,
            out@ == rust_ident(name@).take(i as int),
        decreases cs.len() - i,
    {
        let c = if cs[i] == '-' {
            '_'
        } else {
            cs[i]
        };
        push_char(&mut out, c);
        i = i + 1;
        assert(out@ =~= rust_ident(name@).take(i as int));
    }
    assert(rust_ident(name@).take(i as int) =~= rust_ident(name@));
    out
}

fn concat3(a: &str, b: &str, c: &str) -> (r: String)
    ensures
        r@ == a@ + b@ + c@,
{
    let mut s = String::from_str(a);
    s.append(b);
    s.append(c);
    s
}

fn suggestion(name: &String, table: &str) -> (r: String)
    ensures
        r@ == "Remove `"@ + name@ + "` from ["@ + table@ + "] in Cargo.toml"@,
{
    let mut s = String::from_str("Remove `");
    s.append(name.as_str());
    s.append("` from [");
    s.append(table);
    s.append("] in Cargo.toml");
    s
}

/// The names of a manifest table's entries, in order (none when absent).
fn names_of(t: Option<&Vec<(String, DependencyValue)>>) -> (r: Vec<String>)
    ensures
        string_seq_views(r@) == table_names(
            match t {
                Some(v) => Some(crate::outdated::entries_view(v@)),
                None => None,
            },
        ),
{
    let mut out: Vec<String> = Vec::new();
    match t {
        Some(v) => {
            let ghost names = table_names(Some(crate::outdated::entries_view(v@)));
            let mut i: usize = 0;
            while i < v.len()
                invariant
                    i <= v.len(),
                    names == table_names(Some(crate::outdated::entries_view(v@))),
                    string_seq_views(out@) == names.take(i as int),
                decreases v.len() - i,
            {
                let ghost before = out@;
                out.push(v[i].0.clone());
                assert(string_seq_views(out@) =~= names.take(i + 1)) by {
                    assert(string_seq_views(out@) =~= string_seq_views(before).push(v@[i as int].0@));
                }
                i = i + 1;
            }
            assert(names.take(i as int) =~= names);
        },
        None => {
            assert(string_seq_views(out@) =~= Seq::<Seq<char>>::empty());
        },
    }
    out
}

impl UnusedDetector {
    /// The regular expressions that reveal a use of the crate `crate_name`.
    pub fn usage_patterns(crate_name: &str) -> (r: Vec<String>)
        ensures
            string_seq_views(r@) == usage_pattern_list(crate_name@),
    {
        let id = ident_of(crate_name);
        let mut v: Vec<String> = Vec::new();
        v.push(concat3("use\\s+", id.as_str(), "\\b"));
        v.push(concat3("extern\\s+crate\\s+", id.as_str(), "\\b"));
        v.push(concat3("\\b", id.as_str(), "::"));
        v.push(concat3("#\\[", id.as_str(), "\\b"));
        v.push(concat3("#\\[[^\\]]*\\b", id.as_str(), "\\b"));
        proof {
            reveal_strlit("");
        }
        assert(string_seq_views(v@) =~= usage_pattern_list(crate_name@));
        v
    }

    /// Whether some usage pattern compiled and matched, given for each
    /// pattern the outcome of compiling and matching it (`None` when it did
    /// not compile).
    pub fn used_given(outcomes: &Vec<Option<bool>>) -> (r: bool)
        ensures
            r == any_match(outcomes@),
    {
        let mut k: usize = 0;
        while k < outcomes.len()
            invariant
                k <= outcomes.len(),
                forall|j: int| 0 <= j < k ==> outcomes@[j] != Some(true),
            decreases outcomes.len() - k,
        {
            if let Some(true) = outcomes[k] {
                assert(outcomes@[k as int] == Some(true));
                return true;
            }
            k = k + 1;
        }
        false
    }

    /// Check if a crate name is used in source code via `use` or `extern crate` or direct reference
    pub fn is_used(crate_name: &str, source: &str) -> (r: bool)
        ensures
            r == crate_used(crate_name@, source@),
    {
        let patterns = Self::usage_patterns(crate_name);
        let ghost ps = usage_pattern_list(crate_name@);
        assert(ps.len() == 5);
        let mut outcomes: Vec<Option<bool>> = Vec::new();
        let mut k: usize = 0;
        while k < patterns.len()
            invariant
                k <= patterns.len(),
                string_seq_views(patterns@) == ps,
                ps == usage_pattern_list(crate_name@),
                ps.len() == 5,
                outcomes.len() == k,
                forall|j: int|
                    0 <= j < k ==> (#[trigger] outcomes@[j] == Some(true) <==> (regex_accepts(ps[j])
                        && regex_finds(ps[j], source@))),
            decreases patterns.len() - k,
        {
            assert(patterns@[k as int]@ == ps[k as int]);
            outcomes.push(pattern_matches(patterns[k].as_str(), source));
            k = k + 1;
        }
        let r = Self::used_given(&outcomes);
        proof {
            if r {
                let j = choose|j: int| 0 <= j < outcomes@.len() && outcomes@[j] == Some(true);
                assert(regex_accepts(usage_pattern_list(crate_name@)[j]));
            } else {
                assert forall|j: int| 0 <= j < 5 implies !(regex_accepts(
                    #[trigger] usage_pattern_list(crate_name@)[j],
                ) && regex_finds(usage_pattern_list(crate_name@)[j], source@)) by {
                    assert(outcomes@[j] != Some(true));
                }
            }
        }
        r
    }

    /// The dependencies of `dependencies` and then of `build_dependencies`
    /// that `source` does not use, each with a suggestion to remove it.
    /// Development dependencies are not checked: they are typically used only
    /// in tests.
    pub fn find_unused(
        dependencies: &Vec<String>,
        build_dependencies: &Vec<String>,
        source: &str,
    ) -> (r: Vec<UnusedDep>)
        ensures
            r@.map_values(|d: UnusedDep| unused_view(d)) == unused_among(
                string_seq_views(dependencies@),
                dependencies@.len() as int,
                source@,
                "normal"@,
                "dependencies"@,
            ) + unused_among(
                string_seq_views(build_dependencies@),
                build_dependencies@.len() as int,
                source@,
                "build"@,
                "build-dependencies"@,
            ),
    {
        let mut found: Vec<UnusedDep> = Vec::new();
        Self::collect_unused(dependencies, source, "normal", "dependencies", &mut found);
        Self::collect_unused(build_dependencies, source, "build", "build-dependencies", &mut found);
        found
    }

    fn collect_unused(
        names: &Vec<String>,
        source: &str,
        kind: &str,
        table: &str,
        found: &mut Vec<UnusedDep>,
    )
        ensures
            final(found)@.map_values(|d: UnusedDep| unused_view(d)) == old(found)@.map_values(
                |d: UnusedDep| unused_view(d),
            ) + unused_among(string_seq_views(names@), names@.len() as int, source@, kind@, table@),
    {
        let ghost start = found@.map_values(|d: UnusedDep| unused_view(d));
        let ghost ns = string_seq_views(names@);
        let mut i: usize = 0;
        while i < names.len()
            invariant
                i <= names.len(),
                ns == string_seq_views(names@),
                found@.map_values(|d: UnusedDep| unused_view(d)) == start + unused_among(
                    ns,
                    i as int,
                    source@,
                    kind@,
                    table@,
                ),
            decreases names.len() - i,
        {
            assert(ns[i as int] == names@[i as int]@);
            if !Self::is_used(names[i].as_str(), source) {
                let ghost before = found@;
                found.push(
                    UnusedDep {
                        name: names[i].clone(),
                        kind: String::from_str(kind),
                        suggestion: suggestion(&names[i], table),
                    },
                );
                assert(found@.map_values(|d: UnusedDep| unused_view(d)) =~= before.map_values(
                    |d: UnusedDep| unused_view(d),
                ).push(unused_view(found@[found@.len() - 1])));
            }
            i = i + 1;
        }
    }

    /// The unused dependencies of a crate, from the text of its manifest and
    /// the contents of its source files: the `[dependencies]` and
    /// `[build-dependencies]` tables are examined, in that order and in table
    /// order, against the sources joined by newlines. An error when the
    /// manifest is not TOML.
    pub fn unused_in_manifest(manifest: &str, sources: &Vec<String>) -> (r: Result<
        Vec<UnusedDep>,
        String,
    >)
        ensures
            r is Err <==> toml_document(manifest@) is None,
            r matches Ok(v) ==> v@.map_values(|d: UnusedDep| unused_view(d)) == unused_among(
                table_names(toml_table(manifest@, "dependencies"@)->0),
                table_names(toml_table(manifest@, "dependencies"@)->0).len() as int,
                joined_lines(string_seq_views(sources@)),
                "normal"@,
                "dependencies"@,
            ) + unused_among(
                table_names(toml_table(manifest@, "build-dependencies"@)->0),
                table_names(toml_table(manifest@, "build-dependencies"@)->0).len() as int,
                joined_lines(string_seq_views(sources@)),
                "build"@,
                "build-dependencies"@,
            ),
    {
        let doc = parse_toml(manifest)?;
        let source = Self::join_sources(sources);
        let normal_names = names_of(table_of(&doc, "dependencies"));
        let build_names = names_of(table_of(&doc, "build-dependencies"));
        Ok(Self::find_unused(&normal_names, &build_names, source.as_str()))
    }

    /// The contents of several source files as one text, a newline between
    /// each two.
    pub fn join_sources(parts: &Vec<String>) -> (r: String)
        ensures
            r@ == joined_lines(string_seq_views(parts@)),
    {
        let mut out = String::new();
        let ghost ps = string_seq_views(parts@);
        let mut i: usize = 0;
        while i < parts.len()
            invariant
                i <= parts.len(),
                ps == string_seq_views(parts@),
                out@ == joined_lines(ps.take(i as int)),
            decreases parts.len() - i,
        {
            assert(ps.take(i + 1).drop_last() =~= ps.take(i as int));
            if i > 0 {
                push_char(&mut out, '\n');
            }
            out.append(parts[i].as_str());
            proof {
                if i == 0 {
                    assert(ps.take(1) =~= seq![ps[0]]);
                    assert(out@ =~= joined_lines(ps.take(1)));
                } else {
                    assert(out@ =~= joined_lines(ps.take(i + 1)));
                }
            }
            i = i + 1;
        }
        assert(ps.take(i as int) =~= ps);
        out
    }
}

/// Every dependency reported as unused is one that the source does not use,
/// and is one of the names examined, with the given kind.
pub proof fn lemma_reported_are_unused(
    names: Seq<Seq<char>>,
    n: int,
    source: Seq<char>,
    kind: Seq<char>,
    table: Seq<char>,
)
    requires
        n <= names.len(),
    ensures
        forall|i: int|
            0 <= i < unused_among(names, n, source, kind, table).len() ==> {
                let d = #[trigger] unused_among(names, n, source, kind, table)[i];
                &&& !crate_used(d.0, source)
                &&& names.contains(d.0)
                &&& d.1 == kind
            },
    decreases n,
{
    if n > 0 {
        lemma_reported_are_unused(names, n - 1, source, kind, table);
        let prev = unused_among(names, n - 1, source, kind, table);
        let name = names[n - 1];
        if !crate_used(name, source) {
            let d = (name, kind, "Remove `"@ + name + "` from ["@ + table + "] in Cargo.toml"@);
            assert forall|i: int| 0 <= i < prev.push(d).len() implies {
                let e = #[trigger] prev.push(d)[i];
                &&& !crate_used(e.0, source)
                &&& names.contains(e.0)
                &&& e.1 == kind
            } by {
                if i < prev.len() {
                    assert(prev.push(d)[i] == prev[i]);
                }
            }
        }
    }
}

/// Every examined name that the source does not use is reported, with the
/// given kind and the suggestion to remove it from its table.
pub proof fn lemma_unused_are_reported(
    names: Seq<Seq<char>>,
    n: int,
    source: Seq<char>,
    kind: Seq<char>,
    table: Seq<char>,
)
    requires
        n <= names.len(),
    ensures
        forall|i: int|
            0 <= i < n && !crate_used(#[trigger] names[i], source) ==> unused_among(
                names,
                n,
                source,
                kind,
                table,
            ).contains((names[i], kind, "Remove `"@ + names[i] + "` from ["@ + table + "] in Cargo.toml"@)),
    decreases n,
{
    if n > 0 {
        lemma_unused_are_reported(names, n - 1, source, kind, table);
        let prev = unused_among(names, n - 1, source, kind, table);
        let name = names[n - 1];
        let d = (name, kind, "Remove `"@ + name + "` from ["@ + table + "] in Cargo.toml"@);
        assert forall|i: int|
            0 <= i < n && !crate_used(#[trigger] names[i], source) implies unused_among(
                names,
                n,
                source,
                kind,
                table,
            ).contains((names[i], kind, "Remove `"@ + names[i] + "` from ["@ + table + "] in Cargo.toml"@)) by {
            let e = (names[i], kind, "Remove `"@ + names[i] + "` from ["@ + table + "] in Cargo.toml"@);
            if crate_used(name, source) {
                if i < n - 1 {
                    assert(prev.contains(e));
                }
            } else {
                if i < n - 1 {
                    let k = choose|k: int| 0 <= k < prev.len() && prev[k] == e;
                    assert(prev.push(d)[k] == e);
                } else {
                    assert(prev.push(d)[prev.len() as int] == e);
                }
            }
        }
    }
}

/// The Rust identifier of a crate name has the name's length and no `-`:
/// every `-` becomes `_` and every other character is kept.
pub proof fn lemma_rust_ident_has_no_hyphen(name: Seq<char>)
    ensures
        rust_ident(name).len() == name.len(),
        !rust_ident(name).contains('-'),
        forall|i: int| 0 <= i < name.len() && name[i] != '-' ==> #[trigger] rust_ident(name)[i] == name[i],
        forall|i: int| 0 <= i < name.len() && name[i] == '-' ==> #[trigger] rust_ident(name)[i] == '_',
{
    let id = rust_ident(name);
    assert forall|i: int| 0 <= i < id.len() implies id[i] != '-' by {}
}

/// Two spellings of a crate name that differ only in writing `-` or `_` at
/// some places are found in use in exactly the same sources: for instance
/// `wasm-bindgen-futures` is used where `wasm_bindgen_futures::` occurs.
pub proof fn lemma_any_hyphen_spelling_equivalent(a: Seq<char>, b: Seq<char>, source: Seq<char>)
    requires
        a.len() == b.len(),
        forall|i: int|
            0 <= i < a.len() ==> (#[trigger] a[i] == b[i] || ((a[i] == '-' || a[i] == '_') && (b[i]
                == '-' || b[i] == '_'))),
    ensures
        crate_used(a, source) == crate_used(b, source),
        usage_pattern_list(a) == usage_pattern_list(b),
{
    assert(rust_ident(a) =~= rust_ident(b));
    lemma_hyphen_underscore_equivalent(a, b, source);
}

/// Writing a crate name with `-` or with `_` makes no difference to whether
/// it is found in use.
pub proof fn lemma_hyphen_underscore_equivalent(a: Seq<char>, b: Seq<char>, source: Seq<char>)
    requires
        rust_ident(a) == rust_ident(b),
    ensures
        crate_used(a, source) == crate_used(b, source),
{
    assert(usage_pattern_list(a) == usage_pattern_list(b));
}

} // verus!
