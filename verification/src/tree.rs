//! Dependency-tree depth: from a resolved dependency graph, or from the
//! indented text that `cargo tree` prints.
use vstd::prelude::*;

use crate::text::{
    chars_of, contains_chars, distinct, lemma_distinct, first_token, first_token_bounds, scan, slice_vec, span,
    same_chars, split_lines, string_of, text_lines, views_of, CharClass, break_gap,
    lemma_lines_concat, lemma_span, lemma_span_is, lemma_first_token_of, is_white_space, in_class,
};

verus! {

/// A deep (transitive) dependency.
#[derive(Debug, Clone)]
pub struct DeepDep {
    pub name: String,
    pub depth: usize,
}

/// Dependency tree information.
#[derive(Debug, Clone)]
pub struct DepTreeInfo {
    pub max_depth: usize,
    pub total_deps: usize,
    pub direct_deps: Vec<String>,
    pub deep_deps: Vec<DeepDep>,
}

impl Default for DepTreeInfo {
    fn default() -> (r: Self)
        ensures
            r.max_depth == 0,
            r.total_deps == 0,
            r.direct_deps@.len() == 0,
            r.deep_deps@.len() == 0,
    {
        DepTreeInfo { max_depth: 0, total_deps: 0, direct_deps: Vec::new(), deep_deps: Vec::new() }
    }
}


/// `crate_name_of(s@)` as a `String`.
fn crate_name_from_chars(s: &Vec<char>) -> (r: String)
    ensures
        r@ == crate_name_of(s@),
{
    match first_token_bounds(s) {
        Some((b, e)) => string_of(s, b, e),
        None => string_of(s, 0, s.len()),
    }
}

/// A node of a resolved dependency graph: its package id and the package ids
/// of its dependencies.
#[derive(Debug, Clone)]
pub struct ResolvedNode {
    pub id: String,
    pub dependencies: Vec<String>,
}

/// The key under which a package id is looked up: the id up to its first
/// space (the first item of `split(' ')`).
pub open spec fn id_key(id: Seq<char>) -> Seq<char> {
    id.subrange(0, span(id, 0, CharClass::NotSpace))
}

/// The graph as the traversal sees it: for each node in order, its key and
/// the keys of its dependencies.
pub open spec fn graph_of(nodes: Seq<ResolvedNode>) -> Seq<(Seq<char>, Seq<Seq<char>>)> {
    nodes.map_values(
        |n: ResolvedNode|
            (id_key(n.id@), n.dependencies@.map_values(|d: String| id_key(d@))),
    )
}

/// The dependencies of `v`: those of the last node whose key is `v`, or none
/// when no node has that key (a later node with the same key replaces an
/// earlier one).
pub open spec fn successors(g: Seq<(Seq<char>, Seq<Seq<char>>)>, v: Seq<char>) -> Seq<Seq<char>>
    decreases g.len(),
{
    if g.len() == 0 {
        Seq::empty()
    } else if g.last().0 == v {
        g.last().1
    } else {
        successors(g.drop_last(), v)
    }
}

/// The dependencies of a package are those listed by the last node with its
/// key (a later node replaces an earlier one), and none when no node has it.
pub proof fn lemma_successors_from_last_node(g: Seq<(Seq<char>, Seq<Seq<char>>)>, v: Seq<char>)
    ensures
        forall|j: int|
            0 <= j < g.len() && #[trigger] g[j].0 == v && (forall|k: int| j < k < g.len() ==> g[k].0 != v)
                ==> successors(g, v) == g[j].1,
        (forall|k: int| 0 <= k < g.len() ==> g[k].0 != v) ==> successors(g, v) == Seq::<Seq<char>>::empty(),
    decreases g.len(),
{
    if g.len() > 0 {
        let h = g.drop_last();
        lemma_successors_from_last_node(h, v);
        assert forall|j: int|
            0 <= j < g.len() && #[trigger] g[j].0 == v && (forall|k: int| j < k < g.len() ==> g[k].0 != v)
                implies successors(g, v) == g[j].1 by {
            if j < g.len() - 1 {
                assert(g[g.len() - 1].0 != v);
                assert(h[j] == g[j]);
                assert forall|k: int| j < k < h.len() implies h[k].0 != v by {
                    assert(h[k] == g[k]);
                }
            }
        }
        if forall|k: int| 0 <= k < g.len() ==> g[k].0 != v {
            assert(g[g.len() - 1].0 != v);
            assert forall|k: int| 0 <= k < h.len() implies h[k].0 != v by {
                assert(h[k] == g[k]);
            }
        }
    }
}

/// Whether `x` is a dependency of some member of `w`.
pub open spec fn one_step(g: Seq<(Seq<char>, Seq<Seq<char>>)>, w: Set<Seq<char>>, x: Seq<char>) -> bool {
    exists|v: Seq<char>| #[trigger] w.contains(v) && successors(g, v).contains(x)
}

/// The packages reachable from `root` along at most `k` dependency edges.
pub open spec fn within(g: Seq<(Seq<char>, Seq<Seq<char>>)>, root: Seq<char>, k: nat) -> Set<
    Seq<char>,
>
    decreases k,
{
    if k == 0 {
        set![root]
    } else {
        let w = within(g, root, (k - 1) as nat);
        Set::new(|x: Seq<char>| w.contains(x) || one_step(g, w, x))
    }
}

/// `v` is at distance exactly `k` from `root`: `k` is the length of a
/// shortest dependency path from `root` to `v`.
pub open spec fn at_depth(g: Seq<(Seq<char>, Seq<Seq<char>>)>, root: Seq<char>, v: Seq<char>, k: nat) -> bool {
    &&& within(g, root, k).contains(v)
    &&& (k == 0 || !within(g, root, (k - 1) as nat).contains(v))
}

/// The root is at distance 0, and each of its own dependencies (other than
/// itself) at distance 1.
pub proof fn lemma_direct_dependencies_at_depth_one(
    g: Seq<(Seq<char>, Seq<Seq<char>>)>,
    root: Seq<char>,
    x: Seq<char>,
)
    ensures
        at_depth(g, root, root, 0),
        successors(g, root).contains(x) && x != root ==> at_depth(g, root, x, 1),
{
    let w = within(g, root, 0);
    assert(w.contains(root));
    if successors(g, root).contains(x) && x != root {
        assert(one_step(g, w, x));
        assert(within(g, root, 1).contains(x));
    }
}

/// The packages reachable from `root`, `root` included.
pub open spec fn reachable_set(g: Seq<(Seq<char>, Seq<Seq<char>>)>, root: Seq<char>) -> Set<Seq<char>> {
    Set::new(|v: Seq<char>| exists|k: nat| #[trigger] within(g, root, k).contains(v))
}

/// `names`/`vs` list, without repetition, exactly the packages farther than
/// 2 from `root`, each with its crate name and its distance.
pub open spec fn lists_deep_deps(
    g: Seq<(Seq<char>, Seq<Seq<char>>)>,
    root: Seq<char>,
    vs: Seq<Seq<char>>,
    deep: Seq<DeepDep>,
) -> bool {
    &&& vs.len() == deep.len()
    &&& vs.no_duplicates()
    &&& forall|i: int|
        0 <= i < vs.len() ==> {
            &&& at_depth(g, root, #[trigger] vs[i], deep[i].depth as nat)
            &&& deep[i].depth > 2
            &&& deep[i].name@ == crate_name_of(vs[i])
        }
    &&& forall|v: Seq<char>, k: nat| #[trigger] at_depth(g, root, v, k) && k > 2 ==> vs.contains(v)
}

/// The string views of a vector of strings.
pub open spec fn string_views(v: Seq<String>) -> Seq<Seq<char>> {
    v.map_values(|s: String| s@)
}

pub proof fn lemma_within_monotone(g: Seq<(Seq<char>, Seq<Seq<char>>)>, root: Seq<char>, a: nat, b: nat)
    requires
        a <= b,
    ensures
        within(g, root, a).subset_of(within(g, root, b)),
    decreases b - a,
{
    if a < b {
        lemma_within_monotone(g, root, a, (b - 1) as nat);
    }
}

/// A package has at most one distance.
pub proof fn lemma_depth_unique(
    g: Seq<(Seq<char>, Seq<Seq<char>>)>,
    root: Seq<char>,
    v: Seq<char>,
    a: nat,
    b: nat,
)
    requires
        at_depth(g, root, v, a),
        within(g, root, b).contains(v),
    ensures
        a <= b,
{
    if a > b {
        lemma_within_monotone(g, root, b, (a - 1) as nat);
    }
}

/// Once a step adds nothing, no later step does.
pub proof fn lemma_within_stable(g: Seq<(Seq<char>, Seq<Seq<char>>)>, root: Seq<char>, a: nat, n: nat)
    requires
        within(g, root, a + 1) == within(g, root, a),
    ensures
        within(g, root, a + n) == within(g, root, a),
    decreases n,
{
    if n > 0 {
        lemma_within_stable(g, root, a, (n - 1) as nat);
        assert(within(g, root, a + n) == within(g, root, ((a + (n - 1)) + 1) as nat));
    }
}

/// All dependency keys of the first `n` nodes, concatenated.
pub open spec fn all_targets(g: Seq<(Seq<char>, Seq<Seq<char>>)>, n: int) -> Seq<Seq<char>>
    decreases n,
{
    if n <= 0 {
        Seq::empty()
    } else {
        all_targets(g, n - 1) + g[n - 1].1
    }
}

pub proof fn lemma_targets_in_all(g: Seq<(Seq<char>, Seq<Seq<char>>)>, v: Seq<char>, x: Seq<char>)
    requires
        successors(g, v).contains(x),
    ensures
        all_targets(g, g.len() as int).contains(x),
    decreases g.len(),
{
    let n = g.len() as int;
    let last = g[n - 1].1;
    assert(all_targets(g, n) == all_targets(g, n - 1) + last);
    if g.last().0 == v {
        let k = choose|k: int| 0 <= k < last.len() && last[k] == x;
        assert((all_targets(g, n - 1) + last)[all_targets(g, n - 1).len() + k] == x);
    } else {
        lemma_targets_in_all(g.drop_last(), v, x);
        assert forall|m: int| m <= n - 1 implies all_targets(g.drop_last(), m) == all_targets(g, m) by {
            lemma_all_targets_prefix(g, m);
        }
        let pre = all_targets(g, n - 1);
        let k = choose|k: int| 0 <= k < pre.len() && pre[k] == x;
        assert((pre + last)[k] == x);
    }
}

proof fn lemma_all_targets_prefix(g: Seq<(Seq<char>, Seq<Seq<char>>)>, m: int)
    requires
        g.len() > 0,
        m <= g.len() - 1,
    ensures
        all_targets(g.drop_last(), m) == all_targets(g, m),
    decreases m,
{
    if m > 0 {
        lemma_all_targets_prefix(g, m - 1);
    }
}

/// Finds the last node whose key is `v`.
fn lookup(
    keys: &Vec<Vec<char>>,
    targets: &Vec<Vec<Vec<char>>>,
    v: &Vec<char>,
    Ghost(g): Ghost<Seq<(Seq<char>, Seq<Seq<char>>)>>,
) -> (r: Option<usize>)
    requires
        keys.len() == g.len(),
        targets.len() == g.len(),
        forall|i: int| 0 <= i < g.len() ==> #[trigger] g[i] == (keys@[i]@, views_of(targets@[i]@)),
    ensures
        r matches Some(i) ==> i < g.len() && successors(g, v@) == views_of(targets@[i as int]@),
        r is None ==> successors(g, v@) == Seq::<Seq<char>>::empty(),
{
    let mut j = keys.len();
    assert(g.take(j as int) =~= g);
    while j > 0
        invariant
            j <= keys.len() == g.len() == targets.len(),
            forall|i: int| 0 <= i < g.len() ==> #[trigger] g[i] == (keys@[i]@, views_of(targets@[i]@)),
            successors(g, v@) == successors(g.take(j as int), v@),
        decreases j,
    {
        let ghost h = g.take(j as int);
        assert(h.last() == g[j - 1]);
        assert(h.drop_last() =~= g.take(j - 1));
        if same_chars(&keys[j - 1], v) {
            return Some(j - 1);
        }
        j = j - 1;
    }
    None
}


proof fn lemma_push_views(v: Seq<Vec<char>>, w: Vec<char>)
    ensures
        views_of(v.push(w)) == views_of(v).push(w@),
        forall|x: Seq<char>| views_of(v).contains(x) ==> #[trigger] views_of(v.push(w)).contains(x),
        views_of(v.push(w)).contains(w@),
{
    assert(views_of(v.push(w)) =~= views_of(v).push(w@));
    assert forall|x: Seq<char>| views_of(v).contains(x) implies #[trigger] views_of(v.push(w)).contains(
        x,
    ) by {
        let k = choose|k: int| 0 <= k < views_of(v).len() && views_of(v)[k] == x;
        assert(views_of(v.push(w))[k] == x);
    }
    assert(views_of(v.push(w))[v.len() as int] == w@);
}

/// Breadth-first traversal from `root`: every reachable package once, each
/// with its distance from `root`.
fn traverse(
    keys: &Vec<Vec<char>>,
    targets: &Vec<Vec<Vec<char>>>,
    root: Vec<char>,
    Ghost(g): Ghost<Seq<(Seq<char>, Seq<Seq<char>>)>>,
) -> (r: (Vec<Vec<char>>, Vec<usize>))
    requires
        keys.len() == g.len(),
        targets.len() == g.len(),
        forall|i: int| 0 <= i < g.len() ==> #[trigger] g[i] == (keys@[i]@, views_of(targets@[i]@)),
    ensures
        r.0.len() == r.1.len(),
        r.0.len() >= 1,
        r.0@[0]@ == root@,
        r.1@[0] == 0,
        views_of(r.0@).no_duplicates(),
        forall|i: int| 0 <= i < r.0.len() ==> at_depth(g, root@, #[trigger] r.0@[i]@, r.1@[i] as nat),
        forall|v: Seq<char>| reachable_set(g, root@).contains(v) <==> views_of(r.0@).contains(v),
{
    let ghost rt = root@;
    let ghost uni = seq![rt] + all_targets(g, g.len() as int);
    let ghost ulen = uni.to_set().len();
    let mut order: Vec<Vec<char>> = Vec::new();
    order.push(root);
    let mut depths: Vec<usize> = Vec::new();
    depths.push(0);
    let mut fs: usize = 0;
    let mut level: usize = 0;
    proof {
        assert(views_of(order@) =~= seq![rt]);
        assert(uni[0] == rt);
        assert forall|v: Seq<char>| within(g, rt, 0).contains(v) implies views_of(order@).contains(v) by {
            assert(views_of(order@)[0] == rt);
        }
        assert(at_depth(g, rt, order@[0]@, 0));
    }
    while fs < order.len()
        invariant
            keys.len() == g.len(),
            targets.len() == g.len(),
            forall|i: int| 0 <= i < g.len() ==> #[trigger] g[i] == (keys@[i]@, views_of(targets@[i]@)),
            uni == seq![rt] + all_targets(g, g.len() as int),
            ulen == uni.to_set().len(),
            order.len() == depths.len(),
            order.len() >= 1,
            order@[0]@ == rt,
            depths@[0] == 0,
            views_of(order@).no_duplicates(),
            forall|i: int| 0 <= i < order.len() ==> at_depth(g, rt, #[trigger] order@[i]@, depths@[i] as nat),
            forall|i: int| 0 <= i < order.len() ==> uni.contains(#[trigger] order@[i]@),
            forall|i: int| 0 <= i < fs ==> #[trigger] depths@[i] < level,
            forall|i: int| fs <= i < order.len() ==> #[trigger] depths@[i] == level,
            forall|v: Seq<char>| within(g, rt, level as nat).contains(v) ==> views_of(order@).contains(v),
            level <= fs <= order.len(),
            (fs == 0) == (level == 0),
        decreases ulen - fs,
    {
        proof {
            let vo = views_of(order@);
            vo.unique_seq_to_set();
            assert(vo.to_set().subset_of(uni.to_set())) by {
                assert forall|v: Seq<char>| vo.to_set().contains(v) implies uni.to_set().contains(v) by {
                    let k = choose|k: int| 0 <= k < vo.len() && vo[k] == v;
                    assert(order@[k]@ == v);
                }
            }
            vstd::seq_lib::seq_to_set_is_finite(uni);
            vstd::set_lib::lemma_len_subset(vo.to_set(), uni.to_set());
        }
        let fe = order.len();
        let mut j = fs;
        while j < fe
            invariant
                keys.len() == g.len(),
                targets.len() == g.len(),
                forall|i: int| 0 <= i < g.len() ==> #[trigger] g[i] == (keys@[i]@, views_of(targets@[i]@)),
                uni == seq![rt] + all_targets(g, g.len() as int),
                order.len() == depths.len(),
                order.len() >= 1,
                order@[0]@ == rt,
                depths@[0] == 0,
                views_of(order@).no_duplicates(),
                forall|i: int| 0 <= i < order.len() ==> at_depth(g, rt, #[trigger] order@[i]@, depths@[i] as nat),
                forall|i: int| 0 <= i < order.len() ==> uni.contains(#[trigger] order@[i]@),
                forall|i: int| 0 <= i < fs ==> #[trigger] depths@[i] < level,
                forall|i: int| fs <= i < fe ==> #[trigger] depths@[i] == level,
                forall|i: int| fe <= i < order.len() ==> #[trigger] depths@[i] == level + 1,
                forall|v: Seq<char>| within(g, rt, level as nat).contains(v) ==> views_of(order@).contains(v),
                forall|i: int, x: Seq<char>|
                    fs <= i < j && #[trigger] successors(g, order@[i]@).contains(x) ==> views_of(
                        order@,
                    ).contains(x),
                level <= fs <= j <= fe <= order.len(),
                fs < fe,
            decreases fe - j,
        {
            match lookup(keys, targets, &order[j], Ghost(g)) {
                Some(ix) => {
                    let ghost u = order@[j as int]@;
                    let mut m: usize = 0;
                    while m < targets[ix].len()
                        invariant
                            ix < targets.len(),
                            successors(g, u) == views_of(targets@[ix as int]@),
                            keys.len() == g.len(),
                            targets.len() == g.len(),
                            forall|i: int| 0 <= i < g.len() ==> #[trigger] g[i] == (keys@[i]@, views_of(targets@[i]@)),
                            uni == seq![rt] + all_targets(g, g.len() as int),
                            order.len() == depths.len(),
                            order.len() >= 1,
                            order@[0]@ == rt,
                            depths@[0] == 0,
                            u == order@[j as int]@,
                            views_of(order@).no_duplicates(),
                            forall|i: int| 0 <= i < order.len() ==> at_depth(g, rt, #[trigger] order@[i]@, depths@[i] as nat),
                            forall|i: int| 0 <= i < order.len() ==> uni.contains(#[trigger] order@[i]@),
                            forall|i: int| 0 <= i < fs ==> #[trigger] depths@[i] < level,
                            forall|i: int| fs <= i < fe ==> #[trigger] depths@[i] == level,
                            forall|i: int| fe <= i < order.len() ==> #[trigger] depths@[i] == level + 1,
                            forall|v: Seq<char>| within(g, rt, level as nat).contains(v) ==> views_of(order@).contains(v),
                            forall|i: int, x: Seq<char>|
                                fs <= i < j && #[trigger] successors(g, order@[i]@).contains(x) ==> views_of(
                                    order@,
                                ).contains(x),
                            forall|mm: int| 0 <= mm < m ==> views_of(order@).contains(#[trigger] successors(g, u)[mm]),
                            level <= fs <= j < fe <= order.len(),
                            m <= targets@[ix as int].len(),
                        decreases targets@[ix as int].len() - m,
                    {
                        let w = &targets[ix][m];
                        assert(w@ == successors(g, u)[m as int]);
                        if !contains_chars(&order, w) {
                            let wc = slice_vec(w, 0, w.len());
                            assert(wc@ =~= w@);
                            proof {
                                // the new package is one step beyond the current level
                                assert(at_depth(g, rt, u, depths@[j as int] as nat));
                                assert(within(g, rt, level as nat).contains(u));
                                assert(successors(g, u).contains(w@)) by {
                                    assert(successors(g, u)[m as int] == w@);
                                }
                                assert(one_step(g, within(g, rt, level as nat), w@));
                                assert(within(g, rt, (level + 1) as nat).contains(w@));
                                assert(!within(g, rt, level as nat).contains(w@));
                                lemma_targets_in_all(g, u, w@);
                                let pre = all_targets(g, g.len() as int);
                                let k = choose|k: int| 0 <= k < pre.len() && pre[k] == w@;
                                assert(uni[k + 1] == w@);
                                lemma_push_views(order@, wc);
                                assert forall|a: int, b: int|
                                    0 <= a < views_of(order@.push(wc)).len() && 0 <= b < views_of(
                                        order@.push(wc),
                                    ).len() && a != b implies views_of(order@.push(wc))[a]
                                    != views_of(order@.push(wc))[b] by {
                                    if a == order.len() as int {
                                        assert(views_of(order@)[b] == views_of(order@.push(wc))[b]);
                                    } else if b == order.len() as int {
                                        assert(views_of(order@)[a] == views_of(order@.push(wc))[a]);
                                    } else {
                                        assert(views_of(order@)[a] == views_of(order@.push(wc))[a]);
                                        assert(views_of(order@)[b] == views_of(order@.push(wc))[b]);
                                    }
                                }
                            }
                            order.push(wc);
                            depths.push(level + 1);
                        }
                        m = m + 1;
                    }
                },
                None => {},
            }
            proof {
                assert forall|i: int, x: Seq<char>|
                    fs <= i < j + 1 && #[trigger] successors(g, order@[i]@).contains(x) implies views_of(
                        order@,
                    ).contains(x) by {
                    if i == j {
                        let ss = successors(g, order@[i]@);
                        let k = choose|k: int| 0 <= k < ss.len() && ss[k] == x;
                    }
                }
            }
            j = j + 1;
        }
        proof {
            // everything within one more step is now listed
            assert forall|v: Seq<char>| within(g, rt, (level + 1) as nat).contains(v) implies views_of(
                order@,
            ).contains(v) by {
                let w = within(g, rt, level as nat);
                if !w.contains(v) {
                    assert(one_step(g, w, v));
                    let p = choose|p: Seq<char>| #[trigger] w.contains(p) && successors(g, p).contains(v);
                    let vo = views_of(order@);
                    assert(vo.contains(p));
                    let i = choose|i: int| 0 <= i < vo.len() && vo[i] == p;
                    assert(order@[i]@ == p);
                    let d = depths@[i];
                    lemma_depth_unique(g, rt, p, d as nat, level as nat);
                    if d < level {
                        lemma_within_monotone(g, rt, d as nat, (level - 1) as nat);
                        assert(within(g, rt, d as nat).contains(p));
                        assert(within(g, rt, (level - 1) as nat).contains(p));
                        assert(one_step(g, within(g, rt, (level - 1) as nat), v));
                        assert(w.contains(v));
                    } else {
                        assert(fs <= i < fe);
                        assert(successors(g, order@[i]@).contains(v));
                    }
                }
            }
        }
        fs = fe;
        level = level + 1;
    }
    proof {
        // nothing lies at distance `level`: the traversal is complete
        let last = (level - 1) as nat;
        assert forall|v: Seq<char>| within(g, rt, level as nat).contains(v) implies within(
            g,
            rt,
            last,
        ).contains(v) by {
            let vo = views_of(order@);
            assert(vo.contains(v));
            let i = choose|i: int| 0 <= i < vo.len() && vo[i] == v;
            assert(order@[i]@ == v);
            let d = depths@[i];
            assert(d < level);
            assert(within(g, rt, d as nat).contains(v));
            lemma_within_monotone(g, rt, d as nat, last);
        }
        lemma_within_monotone(g, rt, last, level as nat);
        assert(within(g, rt, last + 1) =~= within(g, rt, last));
        assert forall|v: Seq<char>| reachable_set(g, rt).contains(v) <==> views_of(order@).contains(v) by {
            if reachable_set(g, rt).contains(v) {
                let k = choose|k: nat| #[trigger] within(g, rt, k).contains(v);
                if k <= last {
                    lemma_within_monotone(g, rt, k, level as nat);
                } else {
                    lemma_within_stable(g, rt, last, (k - last) as nat);
                    lemma_within_monotone(g, rt, last, level as nat);
                }
            }
            if views_of(order@).contains(v) {
                let vo = views_of(order@);
                let i = choose|i: int| 0 <= i < vo.len() && vo[i] == v;
                assert(order@[i]@ == v);
                assert(within(g, rt, depths@[i] as nat).contains(v));
            }
        }
    }
    (order, depths)
}


/// `id_key(s@)` as a character vector.
fn key_of(s: &str) -> (r: Vec<char>)
    ensures
        r@ == id_key(s@),
{
    let cs = chars_of(s);
    let e = scan(&cs, 0, CharClass::NotSpace);
    slice_vec(&cs, 0, e)
}

/// Builds the full dependency tree.
pub struct DepTree;

/// The crate name in a package id such as `"serde v1.0.100"`: its first
/// white-space-separated word, or the whole id when it has none.
pub open spec fn crate_name_of(id: Seq<char>) -> Seq<char> {
    match first_token(id) {
        Some(t) => t,
        None => id,
    }
}

/// Whether a line of `cargo tree` output is blank (empty after trimming).
pub open spec fn is_blank(line: Seq<char>) -> bool {
    span(line, 0, CharClass::WhiteSpace) >= line.len()
}

/// Depth of a `cargo tree` line: its indentation level, one level for each
/// group of 4 characters (`"│   "`, `"├── "`, `"└── "` or 4 spaces) in its
/// prefix of white space and box-drawing characters.
pub open spec fn line_depth(line: Seq<char>) -> int {
    span(line, 0, CharClass::TreePrefix) / 4
}

/// The name on a non-blank `cargo tree` line: its first word.
pub open spec fn line_name(line: Seq<char>) -> Seq<char> {
    first_token(line).unwrap()
}

/// The key of a package id is the part before its first space: a prefix of
/// the id with no space in it, followed by a space or by the end of the id.
pub proof fn lemma_id_key_is_part_before_space(id: Seq<char>)
    ensures
        id_key(id).len() <= id.len(),
        id_key(id) == id.subrange(0, id_key(id).len() as int),
        !id_key(id).contains(' '),
        id_key(id).len() < id.len() ==> id[id_key(id).len() as int] == ' ',
{
    lemma_span(id, 0, CharClass::NotSpace);
    let key = id_key(id);
    assert forall|j: int| 0 <= j < key.len() implies key[j] != ' ' by {
        assert(key[j] == id[j]);
        assert(in_class(CharClass::NotSpace, id[j]));
    }
}

/// A dependency whose package id is a crate name (one word, no white space)
/// followed by a space and anything else is the graph node of that whole
/// name, and is reported under that whole name.
pub proof fn lemma_dependency_named_by_first_word(name: Seq<char>, rest: Seq<char>)
    requires
        name.len() > 0,
        forall|j: int| 0 <= j < name.len() ==> !is_white_space(#[trigger] name[j]),
    ensures
        id_key(name + " "@ + rest) == name,
        id_key(name) == name,
        crate_name_of(name + " "@ + rest) == name,
        crate_name_of(name) == name,
{
    reveal_strlit(" ");
    let id = name + " "@ + rest;
    let n = name.len() as int;
    assert forall|j: int| 0 <= j < n implies in_class(CharClass::NotSpace, #[trigger] id[j]) by {
        assert(id[j] == name[j]);
        assert(!is_white_space(name[j]));
    }
    assert(id[n] == ' ');
    lemma_span_is(id, 0, n, CharClass::NotSpace);
    assert(id.subrange(0, n) =~= name);
    assert forall|j: int| 0 <= j < n implies in_class(CharClass::NotSpace, #[trigger] name[j]) by {
        assert(!is_white_space(name[j]));
    }
    lemma_span_is(name, 0, n, CharClass::NotSpace);
    assert(name.subrange(0, n) =~= name);
    lemma_first_token_of(Seq::empty(), name, " "@ + rest);
    assert(Seq::<char>::empty() + name + (" "@ + rest) =~= id);
    lemma_first_token_of(Seq::empty(), name, Seq::empty());
    assert(Seq::<char>::empty() + name + Seq::<char>::empty() =~= name);
}

/// A `cargo tree` line made of indentation (white space), a word, and a
/// rest that is empty or starts with white space is not blank, and the name
/// counted for it is that whole word.
pub proof fn lemma_line_name_is_first_word(w: Seq<char>, word: Seq<char>, rest: Seq<char>)
    requires
        forall|j: int| 0 <= j < w.len() ==> is_white_space(#[trigger] w[j]),
        word.len() > 0,
        forall|j: int| 0 <= j < word.len() ==> !is_white_space(#[trigger] word[j]),
        rest.len() == 0 || is_white_space(rest[0]),
    ensures
        !is_blank(w + word + rest),
        line_name(w + word + rest) == word,
{
    lemma_first_token_of(w, word, rest);
}

/// A `cargo tree` line is blank exactly when all its characters are white
/// space.
pub proof fn lemma_blank_iff_all_white_space(line: Seq<char>)
    ensures
        is_blank(line) <==> forall|j: int| 0 <= j < line.len() ==> is_white_space(#[trigger] line[j]),
{
    lemma_span(line, 0, CharClass::WhiteSpace);
    if forall|j: int| 0 <= j < line.len() ==> is_white_space(#[trigger] line[j]) {
        assert forall|j: int| 0 <= j < line.len() implies in_class(CharClass::WhiteSpace, #[trigger] line[j]) by {
            assert(is_white_space(line[j]));
        }
        lemma_span_is(line, 0, line.len() as int, CharClass::WhiteSpace);
    }
}

/// A `cargo tree` line whose indentation (white space and box-drawing
/// characters) has length `p` lies at depth `p / 4`: one level per group of
/// four columns.
pub proof fn lemma_line_depth_counts_groups_of_four(prefix: Seq<char>, rest: Seq<char>)
    requires
        forall|j: int| 0 <= j < prefix.len() ==> in_class(CharClass::TreePrefix, #[trigger] prefix[j]),
        rest.len() == 0 || !in_class(CharClass::TreePrefix, rest[0]),
    ensures
        line_depth(prefix + rest) == prefix.len() / 4,
{
    let s = prefix + rest;
    let n = prefix.len() as int;
    assert forall|j: int| 0 <= j < n implies in_class(CharClass::TreePrefix, #[trigger] s[j]) by {
        assert(s[j] == prefix[j]);
    }
    if rest.len() > 0 {
        assert(s[n] == rest[0]);
    }
    lemma_span_is(s, 0, n, CharClass::TreePrefix);
}

/// Names of the non-blank lines among the first `n` lines, in order.
pub open spec fn tree_names(lines: Seq<Seq<char>>, n: int) -> Seq<Seq<char>>
    decreases n,
{
    if n <= 0 {
        Seq::empty()
    } else {
        let prev = tree_names(lines, n - 1);
        if is_blank(lines[n - 1]) {
            prev
        } else {
            prev.push(line_name(lines[n - 1]))
        }
    }
}

/// Largest depth among the non-blank lines of the first `n` lines (0 when
/// there is none).
pub open spec fn tree_max_depth(lines: Seq<Seq<char>>, n: int) -> int
    decreases n,
{
    if n <= 0 {
        0
    } else {
        let prev = tree_max_depth(lines, n - 1);
        if is_blank(lines[n - 1]) || line_depth(lines[n - 1]) <= prev {
            prev
        } else {
            line_depth(lines[n - 1])
        }
    }
}

/// The largest depth is at least the depth of every non-blank line, and is
/// either 0 or the depth of one of them.
pub proof fn lemma_tree_max_depth(lines: Seq<Seq<char>>, n: int)
    requires
        0 <= n <= lines.len(),
    ensures
        forall|i: int|
            0 <= i < n && !is_blank(lines[i]) ==> line_depth(#[trigger] lines[i]) <= tree_max_depth(
                lines,
                n,
            ),
        tree_max_depth(lines, n) >= 0,
        tree_max_depth(lines, n) == 0 || exists|i: int|
            0 <= i < n && !is_blank(lines[i]) && line_depth(#[trigger] lines[i]) == tree_max_depth(
                lines,
                n,
            ),
    decreases n,
{
    if n > 0 {
        lemma_tree_max_depth(lines, n - 1);
        if !is_blank(lines[n - 1]) && line_depth(lines[n - 1]) > tree_max_depth(lines, n - 1) {
            assert(line_depth(lines[n - 1]) == tree_max_depth(lines, n));
        }
    }
}

/// The largest depth found in a `cargo tree` text.
pub open spec fn tree_text_max_depth(o: Seq<char>) -> int {
    tree_max_depth(text_lines(o), text_lines(o).len() as int)
}

/// The names of the non-blank lines of a `cargo tree` text, in order.
pub open spec fn tree_text_names(o: Seq<char>) -> Seq<Seq<char>> {
    tree_names(text_lines(o), text_lines(o).len() as int)
}

/// The number of distinct names in a `cargo tree` text.
pub open spec fn tree_text_count(o: Seq<char>) -> int {
    distinct(tree_text_names(o)).len() as int
}

/// The non-blank lines of a text.
pub open spec fn nonblank_lines(o: Seq<char>) -> Set<Seq<char>> {
    Set::new(|x: Seq<char>| text_lines(o).contains(x) && !is_blank(x))
}

/// The names of a set of lines.
pub open spec fn names_of_lines(ls: Set<Seq<char>>) -> Set<Seq<char>> {
    Set::new(|y: Seq<char>| exists|x: Seq<char>| ls.contains(x) && line_name(x) == y)
}

proof fn lemma_tree_names_members(lines: Seq<Seq<char>>, n: int)
    requires
        0 <= n <= lines.len(),
    ensures
        forall|y: Seq<char>|
            tree_names(lines, n).contains(y) <==> exists|i: int|
                0 <= i < n && !is_blank(lines[i]) && line_name(#[trigger] lines[i]) == y,
    decreases n,
{
    if n > 0 {
        lemma_tree_names_members(lines, n - 1);
        let prev = tree_names(lines, n - 1);
        assert forall|y: Seq<char>|
            tree_names(lines, n).contains(y) <==> exists|i: int|
                0 <= i < n && !is_blank(lines[i]) && line_name(#[trigger] lines[i]) == y by {
            if !is_blank(lines[n - 1]) {
                let p = prev.push(line_name(lines[n - 1]));
                if p.contains(y) {
                    let k = choose|k: int| 0 <= k < p.len() && p[k] == y;
                    if k < prev.len() {
                        assert(prev[k] == y);
                        assert(prev.contains(y));
                    }
                }
                if exists|i: int| 0 <= i < n && !is_blank(lines[i]) && line_name(#[trigger] lines[i]) == y {
                    let i = choose|i: int| 0 <= i < n && !is_blank(lines[i]) && line_name(#[trigger] lines[i]) == y;
                    if i == n - 1 {
                        assert(p[prev.len() as int] == y);
                    } else {
                        assert(prev.contains(y));
                        let k = choose|k: int| 0 <= k < prev.len() && prev[k] == y;
                        assert(p[k] == y);
                    }
                }
            }
        }
    }
}

/// What a `cargo tree` text's result depends on: its largest depth bounds
/// the depth of every non-blank line and is 0 or attained by one, and its
/// names are those of its non-blank lines.
pub proof fn lemma_tree_text_summary(o: Seq<char>)
    ensures
        tree_text_max_depth(o) >= 0,
        forall|x: Seq<char>| #[trigger] nonblank_lines(o).contains(x) ==> line_depth(x) <= tree_text_max_depth(o),
        tree_text_max_depth(o) == 0 || exists|x: Seq<char>|
            #[trigger] nonblank_lines(o).contains(x) && line_depth(x) == tree_text_max_depth(o),
        tree_text_names(o).to_set() == names_of_lines(nonblank_lines(o)),
        tree_text_count(o) == tree_text_names(o).to_set().len(),
        tree_text_names(o).to_set().finite(),
{
    let ls = text_lines(o);
    let n = ls.len() as int;
    lemma_tree_max_depth(ls, n);
    lemma_tree_names_members(ls, n);
    lemma_distinct(tree_names(ls, n));
    vstd::seq_lib::seq_to_set_is_finite(tree_names(ls, n));
    assert forall|x: Seq<char>| #[trigger] nonblank_lines(o).contains(x) implies line_depth(x) <= tree_text_max_depth(o) by {
        let i = choose|i: int| 0 <= i < ls.len() && ls[i] == x;
    }
    if tree_text_max_depth(o) != 0 {
        let i = choose|i: int|
            0 <= i < n && !is_blank(ls[i]) && line_depth(#[trigger] ls[i]) == tree_max_depth(ls, n);
        assert(nonblank_lines(o).contains(ls[i]));
    }
    assert forall|y: Seq<char>| tree_text_names(o).to_set().contains(y) <==> names_of_lines(nonblank_lines(o)).contains(y) by {
        if tree_text_names(o).contains(y) {
            let i = choose|i: int| 0 <= i < n && !is_blank(ls[i]) && line_name(#[trigger] ls[i]) == y;
            assert(nonblank_lines(o).contains(ls[i]));
        }
        if names_of_lines(nonblank_lines(o)).contains(y) {
            let x = choose|x: Seq<char>| nonblank_lines(o).contains(x) && line_name(x) == y;
            let i = choose|i: int| 0 <= i < ls.len() && ls[i] == x;
            assert(!is_blank(ls[i]) && line_name(ls[i]) == y);
        }
    }
    assert(tree_text_names(o).to_set() =~= names_of_lines(nonblank_lines(o)));
}

/// Reordering the non-blank lines of a `cargo tree` text (or adding blank
/// lines or repeats) changes neither its largest depth nor its number of
/// distinct names: both depend only on the set of its non-blank lines.
pub proof fn lemma_tree_text_reorder(o1: Seq<char>, o2: Seq<char>)
    requires
        nonblank_lines(o1) == nonblank_lines(o2),
    ensures
        tree_text_max_depth(o1) == tree_text_max_depth(o2),
        tree_text_count(o1) == tree_text_count(o2),
{
    lemma_tree_text_summary(o1);
    lemma_tree_text_summary(o2);
    let m1 = tree_text_max_depth(o1);
    let m2 = tree_text_max_depth(o2);
    if m1 != 0 {
        let x = choose|x: Seq<char>| #[trigger] nonblank_lines(o1).contains(x) && line_depth(x) == m1;
        assert(nonblank_lines(o2).contains(x));
    }
    if m2 != 0 {
        let x = choose|x: Seq<char>| #[trigger] nonblank_lines(o2).contains(x) && line_depth(x) == m2;
        assert(nonblank_lines(o1).contains(x));
    }
}

/// Joining two `cargo tree` texts with a line break gives the larger of
/// their largest depths, and a number of distinct names between the larger
/// of their counts and their sum (the first text must not end with a
/// carriage return, which would join the break).
pub proof fn lemma_tree_text_concat(a: Seq<char>, b: Seq<char>)
    requires
        a.len() == 0 || a.last() != '\r',
    ensures
        tree_text_max_depth(a + seq!['\n'] + b) == if tree_text_max_depth(a) >= tree_text_max_depth(
            b,
        ) {
            tree_text_max_depth(a)
        } else {
            tree_text_max_depth(b)
        },
        tree_text_count(a) <= tree_text_count(a + seq!['\n'] + b),
        tree_text_count(b) <= tree_text_count(a + seq!['\n'] + b),
        tree_text_count(a + seq!['\n'] + b) <= tree_text_count(a) + tree_text_count(b),
{
    let s = a + seq!['\n'] + b;
    lemma_lines_concat(a, b);
    lemma_tree_text_summary(a);
    lemma_tree_text_summary(b);
    lemma_tree_text_summary(s);
    let la = text_lines(a);
    let lb = text_lines(b);
    let gap = break_gap(a);
    let ls = text_lines(s);
    assert(ls == la + gap + lb);
    lemma_span(Seq::<char>::empty(), 0, CharClass::WhiteSpace);
    assert(is_blank(Seq::<char>::empty()));
    assert forall|x: Seq<char>| nonblank_lines(s).contains(x) <==> (nonblank_lines(a).contains(x)
        || nonblank_lines(b).contains(x)) by {
        if ls.contains(x) && !is_blank(x) {
            let k = choose|k: int| 0 <= k < ls.len() && ls[k] == x;
            if k < la.len() {
                assert(la[k] == x);
            } else if k < la.len() + gap.len() {
                assert(gap[k - la.len()] == x);
            } else {
                assert(lb[k - la.len() - gap.len()] == x);
            }
        }
        if la.contains(x) {
            let k = choose|k: int| 0 <= k < la.len() && la[k] == x;
            assert(ls[k] == x);
        }
        if lb.contains(x) {
            let k = choose|k: int| 0 <= k < lb.len() && lb[k] == x;
            assert(ls[la.len() + gap.len() + k] == x);
        }
    }
    let ma = tree_text_max_depth(a);
    let mb = tree_text_max_depth(b);
    let ms = tree_text_max_depth(s);
    if ma != 0 {
        let x = choose|x: Seq<char>| #[trigger] nonblank_lines(a).contains(x) && line_depth(x) == ma;
        assert(nonblank_lines(s).contains(x));
    }
    if mb != 0 {
        let x = choose|x: Seq<char>| #[trigger] nonblank_lines(b).contains(x) && line_depth(x) == mb;
        assert(nonblank_lines(s).contains(x));
    }
    if ms != 0 {
        let x = choose|x: Seq<char>| #[trigger] nonblank_lines(s).contains(x) && line_depth(x) == ms;
        if nonblank_lines(a).contains(x) {
        } else {
            assert(nonblank_lines(b).contains(x));
        }
    }
    let na = tree_text_names(a).to_set();
    let nb = tree_text_names(b).to_set();
    let ns = tree_text_names(s).to_set();
    assert(ns =~= na.union(nb)) by {
        assert forall|y: Seq<char>| ns.contains(y) <==> na.union(nb).contains(y) by {
            if names_of_lines(nonblank_lines(s)).contains(y) {
                let x = choose|x: Seq<char>| nonblank_lines(s).contains(x) && line_name(x) == y;
                if nonblank_lines(a).contains(x) {
                    assert(names_of_lines(nonblank_lines(a)).contains(y));
                } else {
                    assert(names_of_lines(nonblank_lines(b)).contains(y));
                }
            }
            if names_of_lines(nonblank_lines(a)).contains(y) {
                let x = choose|x: Seq<char>| nonblank_lines(a).contains(x) && line_name(x) == y;
                assert(nonblank_lines(s).contains(x));
            }
            if names_of_lines(nonblank_lines(b)).contains(y) {
                let x = choose|x: Seq<char>| nonblank_lines(b).contains(x) && line_name(x) == y;
                assert(nonblank_lines(s).contains(x));
            }
        }
    }
    vstd::set_lib::lemma_len_union(na, nb);
    vstd::set_lib::lemma_len_subset(na, ns);
    vstd::set_lib::lemma_len_subset(nb, ns);
}

impl DepTree {
    /// Extract crate name from node id like "name v0.1.0 (path)" or registry source
    pub fn extract_crate_name(id: &str) -> (r: String)
        ensures
            r@ == crate_name_of(id@),
    {
        let s = chars_of(id);
        crate_name_from_chars(&s)
    }

    /// Dependency-tree information for a resolved dependency graph: its
    /// nodes, and the id of the root package.
    ///
    /// Distances are shortest dependency paths from the root, looking each
    /// package up by its id up to the first space; `total_deps` counts the
    /// packages reachable from the root, the root excluded; `deep_deps` lists
    /// those farther than 2 (in no particular order); `direct_deps` names the
    /// root's own dependencies.
    #[verifier::spinoff_prover]
    pub fn from_resolve(nodes: &Vec<ResolvedNode>, root: &str) -> (r: DepTreeInfo)
        ensures
            reachable_set(graph_of(nodes@), id_key(root@)).finite(),
            r.total_deps + 1 == reachable_set(graph_of(nodes@), id_key(root@)).len(),
            forall|v: Seq<char>, k: nat|
                #[trigger] at_depth(graph_of(nodes@), id_key(root@), v, k) ==> k <= r.max_depth,
            exists|v: Seq<char>| #[trigger]
                at_depth(graph_of(nodes@), id_key(root@), v, r.max_depth as nat),
            exists|vs: Seq<Seq<char>>| #[trigger]
                lists_deep_deps(graph_of(nodes@), id_key(root@), vs, r.deep_deps@),
            string_views(r.direct_deps@) == successors(graph_of(nodes@), id_key(root@)).map_values(
                |x: Seq<char>| crate_name_of(x),
            ),
    {
        let ghost g = graph_of(nodes@);
        let mut keys: Vec<Vec<char>> = Vec::new();
        let mut targets: Vec<Vec<Vec<char>>> = Vec::new();
        let mut i: usize = 0;
        while i < nodes.len()
            invariant
                i <= nodes.len(),
                g == graph_of(nodes@),
                keys.len() == i,
                targets.len() == i,
                forall|a: int| 0 <= a < i ==> #[trigger] g[a] == (keys@[a]@, views_of(targets@[a]@)),
            decreases nodes.len() - i,
        {
            let node = &nodes[i];
            let mut ts: Vec<Vec<char>> = Vec::new();
            let mut m: usize = 0;
            while m < node.dependencies.len()
                invariant
                    m <= node.dependencies.len(),
                    views_of(ts@) == node.dependencies@.take(m as int).map_values(
                        |d: String| id_key(d@),
                    ),
                decreases node.dependencies.len() - m,
            {
                let k = key_of(node.dependencies[m].as_str());
                let ghost before = ts@;
                ts.push(k);
                assert(views_of(ts@) =~= node.dependencies@.take(m + 1).map_values(
                    |d: String| id_key(d@),
                )) by {
                    assert(views_of(ts@) =~= views_of(before).push(k@));
                }
                m = m + 1;
            }
            assert(node.dependencies@.take(m as int) =~= node.dependencies@);
            keys.push(key_of(node.id.as_str()));
            targets.push(ts);
            i = i + 1;
        }
        let rk = key_of(root);
        let ghost rt = rk@;
        let direct_ix = lookup(&keys, &targets, &rk, Ghost(g));
        let mut direct_deps: Vec<String> = Vec::new();
        let ghost succ = successors(g, rt).map_values(|x: Seq<char>| crate_name_of(x));
        match direct_ix {
            Some(ix) => {
                let ts = &targets[ix];
                let mut m: usize = 0;
                while m < ts.len()
                    invariant
                        m <= ts.len(),
                        views_of(ts@) == successors(g, rt),
                        succ == successors(g, rt).map_values(|x: Seq<char>| crate_name_of(x)),
                        string_views(direct_deps@) == succ.take(m as int),
                    decreases ts.len() - m,
                {
                    let name = crate_name_from_chars(&ts[m]);
                    let ghost before = direct_deps@;
                    direct_deps.push(name);
                    assert(string_views(direct_deps@) =~= succ.take(m + 1)) by {
                        assert(string_views(direct_deps@) =~= string_views(before).push(name@));
                        assert(views_of(ts@)[m as int] == ts@[m as int]@);
                    }
                    m = m + 1;
                }
                assert(succ.take(m as int) =~= succ);
            },
            None => {
                assert(string_views(direct_deps@) =~= succ);
            },
        }

        let (order, depths) = traverse(&keys, &targets, rk, Ghost(g));

        let mut max_depth: usize = 0;
        let mut a: usize = 0;
        while a < depths.len()
            invariant
                a <= depths.len(),
                depths.len() >= 1,
                depths@[0] == 0,
                forall|b: int| 0 <= b < a ==> depths@[b] <= max_depth,
                exists|b: int| 0 <= b < depths.len() && depths@[b] == max_depth,
            decreases depths.len() - a,
        {
            if depths[a] > max_depth {
                max_depth = depths[a];
            }
            a = a + 1;
        }

        let mut deep_deps: Vec<DeepDep> = Vec::new();
        let ghost mut vs: Seq<Seq<char>> = Seq::empty();
        let mut c: usize = 0;
        while c < order.len()
            invariant
                c <= order.len(),
                order.len() == depths.len(),
                views_of(order@).no_duplicates(),
                forall|i: int| 0 <= i < order.len() ==> at_depth(g, rt, #[trigger] order@[i]@, depths@[i] as nat),
                vs.len() == deep_deps.len(),
                vs.no_duplicates(),
                forall|t: int| 0 <= t < vs.len() ==> exists|i: int| 0 <= i < c && #[trigger] order@[i]@ == #[trigger] vs[t],
                forall|t: int|
                    0 <= t < vs.len() ==> {
                        &&& at_depth(g, rt, #[trigger] vs[t], deep_deps@[t].depth as nat)
                        &&& deep_deps@[t].depth > 2
                        &&& deep_deps@[t].name@ == crate_name_of(vs[t])
                    },
                forall|i: int| 0 <= i < c && depths@[i] > 2 ==> vs.contains(#[trigger] order@[i]@),
            decreases order.len() - c,
        {
            let ghost old_vs = vs;
            let ghost old_deep = deep_deps@;
            let ghost x = order@[c as int]@;
            if depths[c] > 2 {
                let name = crate_name_from_chars(&order[c]);
                deep_deps.push(DeepDep { name, depth: depths[c] });
                proof {
                    assert forall|t: int| 0 <= t < old_vs.len() implies old_vs[t] != x by {
                        let i = choose|i: int| 0 <= i < c && #[trigger] order@[i]@ == #[trigger] old_vs[t];
                        assert(views_of(order@)[i] == old_vs[t]);
                        assert(views_of(order@)[c as int] == x);
                    }
                    vs = old_vs.push(x);
                    assert forall|p: int, q: int| 0 <= p < vs.len() && 0 <= q < vs.len() && p != q
                        implies vs[p] != vs[q] by {
                        if p == old_vs.len() as int {
                            assert(vs[q] == old_vs[q]);
                        } else if q == old_vs.len() as int {
                            assert(vs[p] == old_vs[p]);
                        } else {
                            assert(vs[p] == old_vs[p]);
                            assert(vs[q] == old_vs[q]);
                        }
                    }
                    assert forall|t: int| 0 <= t < vs.len() implies {
                        &&& at_depth(g, rt, #[trigger] vs[t], deep_deps@[t].depth as nat)
                        &&& deep_deps@[t].depth > 2
                        &&& deep_deps@[t].name@ == crate_name_of(vs[t])
                    } by {
                        if t < old_vs.len() {
                            assert(vs[t] == old_vs[t]);
                            assert(deep_deps@[t] == old_deep[t]);
                        } else {
                            assert(vs[t] == x);
                            assert(at_depth(g, rt, order@[c as int]@, depths@[c as int] as nat));
                        }
                    }
                    assert forall|i: int| 0 <= i < c + 1 && depths@[i] > 2 implies vs.contains(
                        #[trigger] order@[i]@,
                    ) by {
                        if i == c {
                            assert(vs[old_vs.len() as int] == x);
                        } else {
                            let t = choose|t: int| 0 <= t < old_vs.len() && old_vs[t] == order@[i]@;
                            assert(vs[t] == order@[i]@);
                        }
                    }
                    assert forall|t: int| 0 <= t < vs.len() implies exists|i: int|
                        0 <= i < c + 1 && #[trigger] order@[i]@ == #[trigger] vs[t] by {
                        if t == old_vs.len() {
                            assert(order@[c as int]@ == vs[t]);
                        } else {
                            assert(vs[t] == old_vs[t]);
                            let i = choose|i: int| 0 <= i < c && #[trigger] order@[i]@ == #[trigger] old_vs[t];
                            assert(order@[i]@ == vs[t]);
                        }
                    }
                }
            } else {
                proof {
                    assert forall|t: int| 0 <= t < vs.len() implies exists|i: int|
                        0 <= i < c + 1 && #[trigger] order@[i]@ == #[trigger] vs[t] by {
                        let i = choose|i: int| 0 <= i < c && #[trigger] order@[i]@ == #[trigger] vs[t];
                        assert(order@[i]@ == vs[t]);
                    }
                }
            }
            c = c + 1;
        }
        proof {
            let vo = views_of(order@);
            assert(vo.to_set() =~= reachable_set(g, rt)) by {
                assert forall|v: Seq<char>| vo.to_set().contains(v) <==> reachable_set(g, rt).contains(v) by {
                }
            }
            vo.unique_seq_to_set();
            vstd::seq_lib::seq_to_set_is_finite(vo);
            assert forall|v: Seq<char>, k: nat| #[trigger] at_depth(g, rt, v, k) implies k <= max_depth by {
                assert(reachable_set(g, rt).contains(v));
                let i = choose|i: int| 0 <= i < vo.len() && vo[i] == v;
                assert(order@[i]@ == v);
                lemma_depth_unique(g, rt, v, k, depths@[i] as nat);
                lemma_depth_unique(g, rt, v, depths@[i] as nat, k);
            }
            let b = choose|b: int| 0 <= b < depths.len() && depths@[b] == max_depth;
            assert(at_depth(g, rt, order@[b]@, max_depth as nat));
            assert forall|v: Seq<char>, k: nat| #[trigger] at_depth(g, rt, v, k) && k > 2 implies vs.contains(v) by {
                assert(reachable_set(g, rt).contains(v));
                let i = choose|i: int| 0 <= i < vo.len() && vo[i] == v;
                assert(order@[i]@ == v);
                lemma_depth_unique(g, rt, v, k, depths@[i] as nat);
                lemma_depth_unique(g, rt, v, depths@[i] as nat, k);
            }
            assert(lists_deep_deps(g, rt, vs, deep_deps@));
            assert(lists_deep_deps(graph_of(nodes@), id_key(root@), vs, deep_deps@));
            assert(at_depth(graph_of(nodes@), id_key(root@), order@[b]@, max_depth as nat));
        }
        let res = DepTreeInfo { max_depth, total_deps: order.len() - 1, direct_deps, deep_deps };
        proof {
            let b = choose|b: int| 0 <= b < depths.len() && depths@[b] == max_depth;
            assert(at_depth(graph_of(nodes@), id_key(root@), order@[b]@, res.max_depth as nat));
            assert(lists_deep_deps(graph_of(nodes@), id_key(root@), vs, res.deep_deps@));
        }
        res
    }

    /// Parse cargo tree output as fallback
    pub fn parse_cargo_tree_output(output: &str) -> (r: DepTreeInfo)
        ensures
            r.max_depth == tree_max_depth(
                text_lines(output@),
                text_lines(output@).len() as int,
            ),
            r.total_deps == distinct(
                tree_names(text_lines(output@), text_lines(output@).len() as int),
            ).len(),
            r.total_deps == tree_names(
                text_lines(output@),
                text_lines(output@).len() as int,
            ).to_set().len(),
            forall|i: int|
                0 <= i < text_lines(output@).len() && !is_blank(text_lines(output@)[i])
                    ==> line_depth(#[trigger] text_lines(output@)[i]) <= r.max_depth,
            r.max_depth == tree_text_max_depth(output@),
            r.total_deps == tree_text_count(output@),
            r.direct_deps@.len() == 0,
            r.deep_deps@.len() == 0,
    {
        proof {
            let ls = text_lines(output@);
            lemma_distinct(tree_names(ls, ls.len() as int));
            lemma_tree_max_depth(ls, ls.len() as int);
        }
        let text = chars_of(output);
        let lines = split_lines(&text);
        let ghost ls = views_of(lines@);
        let mut max_depth: usize = 0;
        let mut names: Vec<Vec<char>> = Vec::new();
        let mut i: usize = 0;
        while i < lines.len()
            invariant
                i <= lines.len(),
                ls == views_of(lines@),
                ls == text_lines(output@),
                max_depth == tree_max_depth(ls, i as int),
                views_of(names@) == distinct(tree_names(ls, i as int)),
            decreases lines.len() - i,
        {
            let line = &lines[i];
            assert(line@ == ls[i as int]);
            let blank_end = scan(line, 0, CharClass::WhiteSpace);
            if blank_end < line.len() {
                let prefix = scan(line, 0, CharClass::TreePrefix);
                let depth = prefix / 4;
                let name_end = scan(line, blank_end, CharClass::NonWhiteSpace);
                let name = slice_vec(line, blank_end, name_end);
                assert(name@ == line_name(ls[i as int]));
                let ghost before = tree_names(ls, i as int);
                assert(tree_names(ls, i + 1) == before.push(name@));
                assert(before.push(name@).drop_last() =~= before);
                if !contains_chars(&names, &name) {
                    let ghost old_names = names@;
                    names.push(name);
                    assert(views_of(names@) =~= views_of(old_names).push(name@));
                }
                if depth > max_depth {
                    max_depth = depth;
                }
            }
            i = i + 1;
        }
        DepTreeInfo {
            max_depth,
            total_deps: names.len(),
            direct_deps: Vec::new(),
            deep_deps: Vec::new(),
        }
    }
}

} // verus!
