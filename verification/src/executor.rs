//! Running the products of a build graph: the order of work, which
//! products may run side by side, what to do with each product, and the
//! counts of what was done.

use vstd::prelude::*;
use std::collections::HashMap;
use crate::graph::{BuildGraph, Product};
use crate::text::{str_eq, append_str};

verus! {

broadcast use vstd::std_specs::hash::group_hash_axioms;

/// The dependencies the graph lists for a product (none for a position
/// outside the graph).
pub open spec fn deps_of(graph: &BuildGraph, id: usize) -> Seq<usize> {
    if id < graph.dependencies@.len() {
        graph.dependencies@[id as int]@
    } else {
        seq![]
    }
}

/// The greatest level that `levels` gives any of `deps`, or 0.
pub open spec fn max_known_level(deps: Seq<usize>, levels: Map<usize, nat>) -> nat
    decreases deps.len(),
{
    if deps.len() == 0 {
        0
    } else {
        let rest = max_known_level(deps.drop_last(), levels);
        let d = deps.last();
        if levels.contains_key(d) && levels[d] > rest {
            levels[d]
        } else {
            rest
        }
    }
}

/// The level of a product: 0 without dependencies, else one more than the
/// greatest level already given to one of its dependencies (0 when none of
/// them has one yet).
pub open spec fn level_for(graph: &BuildGraph, id: usize, levels: Map<usize, nat>) -> nat {
    if deps_of(graph, id).len() == 0 {
        0
    } else {
        max_known_level(deps_of(graph, id), levels) + 1
    }
}

/// The levels given, by product id, after the first `n` entries of `order`.
pub open spec fn level_map(graph: &BuildGraph, order: Seq<usize>, n: nat) -> Map<usize, nat>
    decreases n,
{
    if n == 0 || n > order.len() {
        Map::empty()
    } else {
        let m = level_map(graph, order, (n - 1) as nat);
        let id = order[n - 1];
        m.insert(graph.products@[id as int].id, level_for(graph, id, m))
    }
}

/// `lv` with enough levels for level `l`, and `id` appended to level `l`.
pub open spec fn place(lv: Seq<Seq<usize>>, l: nat, id: usize) -> Seq<Seq<usize>> {
    let padded = if lv.len() <= l {
        lv + Seq::new((l + 1 - lv.len()) as nat, |i: int| Seq::<usize>::empty())
    } else {
        lv
    };
    padded.update(l as int, padded[l as int].push(id))
}

/// The levels, each a list of products, after the first `n` entries of
/// `order`.
pub open spec fn level_lists(graph: &BuildGraph, order: Seq<usize>, n: nat) -> Seq<Seq<usize>>
    decreases n,
{
    if n == 0 || n > order.len() {
        seq![]
    } else {
        let lv = level_lists(graph, order, (n - 1) as nat);
        let id = order[n - 1];
        place(lv, level_for(graph, id, level_map(graph, order, (n - 1) as nat)), id)
    }
}

pub open spec fn lists_view(v: Seq<Vec<usize>>) -> Seq<Seq<usize>> {
    v.map_values(|x: Vec<usize>| x@)
}

/// Every level `level_map` holds after `n` entries is below `n`.
pub proof fn lemma_level_map_bounded(graph: &BuildGraph, order: Seq<usize>, n: nat)
    requires
        n <= order.len(),
    ensures
        forall|k: usize| #[trigger] level_map(graph, order, n).contains_key(k) ==> level_map(
            graph,
            order,
            n,
        )[k] <= n,
    decreases n,
{
    if n > 0 {
        let m = level_map(graph, order, (n - 1) as nat);
        lemma_level_map_bounded(graph, order, (n - 1) as nat);
        lemma_max_known_level_bounded(deps_of(graph, order[n - 1]), m, (n - 1) as nat);
    }
}

proof fn lemma_max_known_level_bounded(deps: Seq<usize>, levels: Map<usize, nat>, b: nat)
    requires
        forall|k: usize| #[trigger] levels.contains_key(k) ==> levels[k] <= b,
    ensures
        max_known_level(deps, levels) <= b,
    decreases deps.len(),
{
    if deps.len() > 0 {
        lemma_max_known_level_bounded(deps.drop_last(), levels, b);
    }
}

/// Every entry of `order` is a product of the graph.
pub open spec fn in_graph(graph: &BuildGraph, order: Seq<usize>) -> bool {
    forall|i: int| 0 <= i < order.len() ==> #[trigger] order[i] < graph.products@.len()
}

/// No product occurs twice in `order`.
pub open spec fn distinct(order: Seq<usize>) -> bool {
    forall|i: int, j: int| 0 <= i < order.len() && 0 <= j < order.len() && i != j ==> order[i] != order[j]
}

/// Every product of `order` comes after those of its dependencies that `order` holds.
pub open spec fn topological(graph: &BuildGraph, order: Seq<usize>) -> bool {
    forall|i: int, j: int|
        0 <= i < order.len() && 0 <= j < order.len() && #[trigger] deps_of(graph, order[j]).contains(
            #[trigger] order[i],
        ) ==> i < j
}

proof fn lemma_max_known_level_ge(deps: Seq<usize>, levels: Map<usize, nat>, d: usize)
    requires
        deps.contains(d),
        levels.contains_key(d),
    ensures
        max_known_level(deps, levels) >= levels[d],
    decreases deps.len(),
{
    if deps.last() != d {
        assert(deps.drop_last().contains(d)) by {
            let k = choose|k: int| 0 <= k < deps.len() && deps[k] == d;
            assert(deps.drop_last()[k] == d);
        }
        lemma_max_known_level_ge(deps.drop_last(), levels, d);
    }
}

/// The level given to `order[i]` when it was placed stays its level.
proof fn lemma_level_map_stable(graph: &BuildGraph, order: Seq<usize>, i: nat, j: nat)
    requires
        graph.well_formed(),
        in_graph(graph, order),
        distinct(order),
        i < j <= order.len(),
    ensures
        level_map(graph, order, j).contains_key(order[i as int]),
        level_map(graph, order, j)[order[i as int]] == level_for(
            graph,
            order[i as int],
            level_map(graph, order, i),
        ),
    decreases j,
{
    assert(order[j - 1] < graph.products@.len());
    if j > i + 1 {
        lemma_level_map_stable(graph, order, i, (j - 1) as nat);
        assert(order[j - 1] != order[i as int]);
    }
}

/// What `level_lists` holds: each entry at level `l` is a product of the
/// first `n` entries of `order` that was given level `l`.
proof fn lemma_level_lists_members(graph: &BuildGraph, order: Seq<usize>, n: nat)
    requires
        n <= order.len(),
    ensures
        forall|l: int, x: int|
            0 <= l < level_lists(graph, order, n).len() && 0 <= x < level_lists(
                graph,
                order,
                n,
            )[l].len() ==> exists|i: int|
                0 <= i < n && order[i] == #[trigger] level_lists(graph, order, n)[l][x]
                    && level_for(graph, order[i], level_map(graph, order, i as nat)) == l,
    decreases n,
{
    if n > 0 {
        let lv = level_lists(graph, order, (n - 1) as nat);
        let id = order[n - 1];
        let lvl = level_for(graph, id, level_map(graph, order, (n - 1) as nat));
        lemma_level_lists_members(graph, order, (n - 1) as nat);
        let padded = if lv.len() <= lvl {
            lv + Seq::new((lvl + 1 - lv.len()) as nat, |q: int| Seq::<usize>::empty())
        } else {
            lv
        };
        let now = level_lists(graph, order, n);
        assert(now == padded.update(lvl as int, padded[lvl as int].push(id)));
        assert forall|l: int, x: int| 0 <= l < now.len() && 0 <= x < now[l].len() implies exists|i: int|
            0 <= i < n && order[i] == #[trigger] now[l][x] && level_for(
                graph,
                order[i],
                level_map(graph, order, i as nat),
            ) == l by {
            if l == lvl && x == padded[l].len() {
                assert(order[n - 1] == now[l][x]);
            } else {
                assert(l < lv.len());
                assert(now[l][x] == lv[l][x]);
                let i = choose|i: int|
                    0 <= i < n - 1 && order[i] == #[trigger] lv[l][x] && level_for(
                        graph,
                        order[i],
                        level_map(graph, order, i as nat),
                    ) == l;
                assert(order[i] == now[l][x]);
            }
        }
    }
}

/// Products on the same level do not depend on each other, when `order`
/// lists each product of the graph once and after its dependencies.
pub proof fn lemma_same_level_independent(graph: &BuildGraph, order: Seq<usize>)
    requires
        graph.well_formed(),
        in_graph(graph, order),
        distinct(order),
        topological(graph, order),
    ensures
        forall|l: int, x: int, y: int|
            0 <= l < level_lists(graph, order, order.len()).len() && 0 <= x < level_lists(
                graph,
                order,
                order.len(),
            )[l].len() && 0 <= y < level_lists(graph, order, order.len())[l].len() ==> !deps_of(
                graph,
                #[trigger] level_lists(graph, order, order.len())[l][y],
            ).contains(#[trigger] level_lists(graph, order, order.len())[l][x]),
{
    let n = order.len();
    let lists = level_lists(graph, order, n);
    lemma_level_lists_members(graph, order, n);
    assert forall|l: int, x: int, y: int|
        0 <= l < lists.len() && 0 <= x < lists[l].len() && 0 <= y < lists[l].len() implies !deps_of(
        graph,
        #[trigger] lists[l][y],
    ).contains(#[trigger] lists[l][x]) by {
        if deps_of(graph, lists[l][y]).contains(lists[l][x]) {
            let i = choose|i: int|
                0 <= i < n && order[i] == #[trigger] lists[l][x] && level_for(
                    graph,
                    order[i],
                    level_map(graph, order, i as nat),
                ) == l;
            let j = choose|j: int|
                0 <= j < n && order[j] == #[trigger] lists[l][y] && level_for(
                    graph,
                    order[j],
                    level_map(graph, order, j as nat),
                ) == l;
            assert(deps_of(graph, order[j]).contains(order[i]));
            assert(i < j);
            lemma_level_map_stable(graph, order, i as nat, j as nat);
            let mj = level_map(graph, order, j as nat);
            lemma_max_known_level_ge(deps_of(graph, order[j]), mj, order[i]);
            assert(level_for(graph, order[j], mj) >= l + 1);
        }
    }
}

/// Each dependency is on a strictly lower level than the product that
/// needs it, when `order` lists each product of the graph once and after
/// its dependencies: running the levels one after another respects the
/// dependency order.
pub proof fn lemma_levels_respect_dependencies(graph: &BuildGraph, order: Seq<usize>)
    requires
        graph.well_formed(),
        in_graph(graph, order),
        distinct(order),
        topological(graph, order),
    ensures
        forall|l1: int, x1: int, l2: int, x2: int|
            0 <= l1 < level_lists(graph, order, order.len()).len() && 0 <= x1 < level_lists(
                graph,
                order,
                order.len(),
            )[l1].len() && 0 <= l2 < level_lists(graph, order, order.len()).len() && 0 <= x2
                < level_lists(graph, order, order.len())[l2].len() && deps_of(
                graph,
                #[trigger] level_lists(graph, order, order.len())[l2][x2],
            ).contains(#[trigger] level_lists(graph, order, order.len())[l1][x1]) ==> l1 < l2,
{
    let n = order.len();
    let lists = level_lists(graph, order, n);
    lemma_level_lists_members(graph, order, n);
    assert forall|l1: int, x1: int, l2: int, x2: int|
        0 <= l1 < lists.len() && 0 <= x1 < lists[l1].len() && 0 <= l2 < lists.len() && 0 <= x2
            < lists[l2].len() && deps_of(graph, #[trigger] lists[l2][x2]).contains(
            #[trigger] lists[l1][x1],
        ) implies l1 < l2 by {
        let i = choose|i: int|
            0 <= i < n && order[i] == #[trigger] lists[l1][x1] && level_for(
                graph,
                order[i],
                level_map(graph, order, i as nat),
            ) == l1;
        let j = choose|j: int|
            0 <= j < n && order[j] == #[trigger] lists[l2][x2] && level_for(
                graph,
                order[j],
                level_map(graph, order, j as nat),
            ) == l2;
        assert(deps_of(graph, order[j]).contains(order[i]));
        assert(i < j);
        lemma_level_map_stable(graph, order, i as nat, j as nat);
        let mj = level_map(graph, order, j as nat);
        lemma_max_known_level_ge(deps_of(graph, order[j]), mj, order[i]);
    }
}

/// Within a level, products come in the order `order` gives them.
pub proof fn lemma_levels_keep_order(graph: &BuildGraph, order: Seq<usize>, n: nat)
    requires
        n <= order.len(),
    ensures
        forall|l: int, x: int, y: int|
            0 <= l < level_lists(graph, order, n).len() && 0 <= x < y < level_lists(graph, order, n)[l].len()
                ==> exists|i: int, j: int|
                0 <= i < j < n && order[i] == #[trigger] level_lists(graph, order, n)[l][x] && order[j]
                    == #[trigger] level_lists(graph, order, n)[l][y],
    decreases n,
{
    if n > 0 {
        lemma_levels_keep_order(graph, order, (n - 1) as nat);
        lemma_level_lists_members(graph, order, (n - 1) as nat);
        let lv = level_lists(graph, order, (n - 1) as nat);
        let id = order[n - 1];
        let lvl = level_for(graph, id, level_map(graph, order, (n - 1) as nat));
        let padded = if lv.len() <= lvl {
            lv + Seq::new((lvl + 1 - lv.len()) as nat, |q: int| Seq::<usize>::empty())
        } else {
            lv
        };
        let now = level_lists(graph, order, n);
        assert(now == padded.update(lvl as int, padded[lvl as int].push(id)));
        assert forall|l: int, x: int, y: int|
            0 <= l < now.len() && 0 <= x < y < now[l].len() implies exists|i: int, j: int|
            0 <= i < j < n && order[i] == #[trigger] now[l][x] && order[j] == #[trigger] now[l][y] by {
            assert(l < lv.len() || (l == lvl && y == padded[l].len()));
            if l == lvl && y == padded[l].len() {
                assert(l < lv.len());
                assert(now[l][x] == lv[l][x]);
                let i = choose|i: int|
                    0 <= i < n - 1 && order[i] == #[trigger] lv[l][x] && level_for(
                        graph,
                        order[i],
                        level_map(graph, order, i as nat),
                    ) == l;
                assert(order[n - 1] == now[l][y]);
                assert(order[i] == now[l][x]);
            } else {
                assert(now[l][x] == lv[l][x] && now[l][y] == lv[l][y]);
                let (i, j) = choose|i: int, j: int|
                    0 <= i < j < n - 1 && order[i] == #[trigger] lv[l][x] && order[j] == #[trigger] lv[l][y];
                assert(order[i] == now[l][x] && order[j] == now[l][y]);
            }
        }
    }
}

/// Every level given by `level_map` is the position of an existing level.
proof fn lemma_level_map_below_len(graph: &BuildGraph, order: Seq<usize>, n: nat)
    requires
        n <= order.len(),
    ensures
        forall|k: usize| #[trigger] level_map(graph, order, n).contains_key(k) ==> level_map(
            graph,
            order,
            n,
        )[k] < level_lists(graph, order, n).len(),
        n > 0 ==> level_lists(graph, order, (n - 1) as nat).len() <= level_lists(graph, order, n).len(),
    decreases n,
{
    if n > 0 {
        lemma_level_map_below_len(graph, order, (n - 1) as nat);
    }
}

/// The first `n` products of `order` all have a level.
proof fn lemma_level_map_keys(graph: &BuildGraph, order: Seq<usize>, n: nat)
    requires
        graph.well_formed(),
        in_graph(graph, order),
        n <= order.len(),
    ensures
        forall|i: int| 0 <= i < n ==> level_map(graph, order, n).contains_key(#[trigger] order[i]),
    decreases n,
{
    if n > 0 {
        lemma_level_map_keys(graph, order, (n - 1) as nat);
        assert(order[n - 1] < graph.products@.len());
    }
}

proof fn lemma_max_known_level_below(deps: Seq<usize>, levels: Map<usize, nat>, b: nat)
    requires
        b > 0,
        forall|k: int| 0 <= k < deps.len() ==> levels.contains_key(#[trigger] deps[k]) ==> levels[deps[k]] < b,
    ensures
        max_known_level(deps, levels) < b,
    decreases deps.len(),
{
    if deps.len() > 0 {
        assert forall|k: int| 0 <= k < deps.drop_last().len() && levels.contains_key(
            #[trigger] deps.drop_last()[k],
        ) implies levels[deps.drop_last()[k]] < b by {
            assert(deps.drop_last()[k] == deps[k]);
        }
        lemma_max_known_level_below(deps.drop_last(), levels, b);
        assert(deps.last() == deps[deps.len() - 1]);
    }
}

/// Every dependency of a product of `order` comes earlier in `order`.
pub open spec fn deps_listed_before(graph: &BuildGraph, order: Seq<usize>) -> bool {
    forall|j: int, d: usize|
        0 <= j < order.len() && #[trigger] deps_of(graph, order[j]).contains(d) ==> exists|i: int|
            0 <= i < j && #[trigger] order[i] == d
}

/// No level is empty when every dependency of a product is listed before
/// it in `order`: the levels are numbered without gaps.
pub proof fn lemma_levels_nonempty(graph: &BuildGraph, order: Seq<usize>, n: nat)
    requires
        graph.well_formed(),
        in_graph(graph, order),
        deps_listed_before(graph, order),
        n <= order.len(),
    ensures
        forall|l: int| 0 <= l < level_lists(graph, order, n).len() ==> (#[trigger] level_lists(
            graph,
            order,
            n,
        )[l]).len() > 0,
    decreases n,
{
    if n > 0 {
        lemma_levels_nonempty(graph, order, (n - 1) as nat);
        let j = n - 1;
        let lv = level_lists(graph, order, j as nat);
        let m = level_map(graph, order, j as nat);
        let id = order[j];
        let deps = deps_of(graph, id);
        let lvl = level_for(graph, id, m);
        lemma_level_map_below_len(graph, order, j as nat);
        lemma_level_map_keys(graph, order, j as nat);
        if deps.len() > 0 {
            assert forall|k: int| 0 <= k < deps.len() && m.contains_key(#[trigger] deps[k]) implies m[deps[k]]
                < lv.len() by {}
            assert(deps.contains(deps[0]));
            let i = choose|i: int| 0 <= i < j && #[trigger] order[i] == deps[0];
            assert(m.contains_key(order[i]));
            lemma_max_known_level_below(deps, m, lv.len());
        }
        assert(lvl <= lv.len());
        let padded = if lv.len() <= lvl {
            lv + Seq::new((lvl + 1 - lv.len()) as nat, |q: int| Seq::<usize>::empty())
        } else {
            lv
        };
        let now = level_lists(graph, order, n);
        assert(now == padded.update(lvl as int, padded[lvl as int].push(id)));
        assert forall|l: int| 0 <= l < now.len() implies (#[trigger] now[l]).len() > 0 by {
            if l != lvl {
                assert(l < lv.len());
                assert(now[l] == lv[l]);
            }
        }
    }
}

/// How many products the levels hold in all.
pub open spec fn total_len(lv: Seq<Seq<usize>>) -> nat
    decreases lv.len(),
{
    if lv.len() == 0 {
        0
    } else {
        total_len(lv.drop_last()) + lv.last().len()
    }
}

proof fn lemma_total_len_append_empty(lv: Seq<Seq<usize>>, k: nat)
    ensures
        total_len(lv + Seq::new(k, |i: int| Seq::<usize>::empty())) == total_len(lv),
    decreases k,
{
    if k > 0 {
        let e = Seq::new(k, |i: int| Seq::<usize>::empty());
        let e1 = Seq::new((k - 1) as nat, |i: int| Seq::<usize>::empty());
        assert((lv + e).drop_last() =~= lv + e1);
        lemma_total_len_append_empty(lv, (k - 1) as nat);
    } else {
        assert(lv + Seq::new(k, |i: int| Seq::<usize>::empty()) =~= lv);
    }
}

proof fn lemma_total_len_update(lv: Seq<Seq<usize>>, l: int, s: Seq<usize>)
    requires
        0 <= l < lv.len(),
    ensures
        total_len(lv.update(l, s)) + lv[l].len() == total_len(lv) + s.len(),
    decreases lv.len(),
{
    if l < lv.len() - 1 {
        assert(lv.update(l, s).drop_last() =~= lv.drop_last().update(l, s));
        lemma_total_len_update(lv.drop_last(), l, s);
    } else {
        assert(lv.update(l, s).drop_last() =~= lv.drop_last());
    }
}

/// The levels hold every product of `order`, as many entries in all as
/// `order` has: no product is left out of the build.
pub proof fn lemma_levels_cover_order(graph: &BuildGraph, order: Seq<usize>, n: nat)
    requires
        n <= order.len(),
    ensures
        total_len(level_lists(graph, order, n)) == n,
        forall|i: int| #![trigger order[i]] 0 <= i < n ==> exists|l: int, x: int|
            0 <= l < level_lists(graph, order, n).len() && 0 <= x < level_lists(graph, order, n)[l].len()
                && #[trigger] level_lists(graph, order, n)[l][x] == order[i],
    decreases n,
{
    if n > 0 {
        lemma_levels_cover_order(graph, order, (n - 1) as nat);
        let lv = level_lists(graph, order, (n - 1) as nat);
        let id = order[n - 1];
        let lvl = level_for(graph, id, level_map(graph, order, (n - 1) as nat));
        let padded = if lv.len() <= lvl {
            lv + Seq::new((lvl + 1 - lv.len()) as nat, |q: int| Seq::<usize>::empty())
        } else {
            lv
        };
        if lv.len() <= lvl {
            lemma_total_len_append_empty(lv, (lvl + 1 - lv.len()) as nat);
        }
        lemma_total_len_update(padded, lvl as int, padded[lvl as int].push(id));
        let now = level_lists(graph, order, n);
        assert(now == padded.update(lvl as int, padded[lvl as int].push(id)));
        assert forall|i: int| #![trigger order[i]] 0 <= i < n implies exists|l: int, x: int|
            0 <= l < now.len() && 0 <= x < now[l].len() && #[trigger] now[l][x] == order[i] by {
            if i == n - 1 {
                assert(now[lvl as int][padded[lvl as int].len() as int] == order[i]);
            } else {
                let (l, x) = choose|l: int, x: int|
                    0 <= l < lv.len() && 0 <= x < lv[l].len() && #[trigger] lv[l][x] == order[i];
                assert(padded[l] == lv[l]);
                assert(now[l][x] == order[i]);
            }
        }
    }
}

/// The sum of `w` over the entries of `s`: with `w` one for a product and
/// zero for the others, how often that product occurs; with `w` one for the
/// products of a processor that end in a given outcome, how many of them.
pub open spec fn weight_of(s: Seq<usize>, w: spec_fn(usize) -> nat) -> nat
    decreases s.len(),
{
    if s.len() == 0 {
        0
    } else {
        weight_of(s.drop_last(), w) + w(s.last())
    }
}

/// The sum of `w` over the entries of all the batches.
pub open spec fn batch_weight(lv: Seq<Seq<usize>>, w: spec_fn(usize) -> nat) -> nat
    decreases lv.len(),
{
    if lv.len() == 0 {
        0
    } else {
        batch_weight(lv.drop_last(), w) + weight_of(lv.last(), w)
    }
}

/// The batches in which a build runs the products of `order`: one product
/// per batch, in order, when at most one job runs; else the levels.
pub open spec fn batches_spec(parallel: usize, graph: &BuildGraph, order: Seq<usize>) -> Seq<Seq<usize>> {
    if parallel <= 1 {
        order.map_values(|id: usize| seq![id])
    } else {
        level_lists(graph, order, order.len())
    }
}

proof fn lemma_weight_push(s: Seq<usize>, y: usize, w: spec_fn(usize) -> nat)
    ensures
        weight_of(s.push(y), w) == weight_of(s, w) + w(y),
{
    assert(s.push(y).drop_last() =~= s);
}

proof fn lemma_batch_weight_append_empty(lv: Seq<Seq<usize>>, k: nat, w: spec_fn(usize) -> nat)
    ensures
        batch_weight(lv + Seq::new(k, |i: int| Seq::<usize>::empty()), w) == batch_weight(lv, w),
    decreases k,
{
    if k > 0 {
        let e = Seq::new(k, |i: int| Seq::<usize>::empty());
        let e1 = Seq::new((k - 1) as nat, |i: int| Seq::<usize>::empty());
        assert((lv + e).drop_last() =~= lv + e1);
        assert((lv + e).last() == Seq::<usize>::empty());
        lemma_batch_weight_append_empty(lv, (k - 1) as nat, w);
    } else {
        assert(lv + Seq::new(k, |i: int| Seq::<usize>::empty()) =~= lv);
    }
}

proof fn lemma_batch_weight_update(lv: Seq<Seq<usize>>, l: int, s: Seq<usize>, w: spec_fn(usize) -> nat)
    requires
        0 <= l < lv.len(),
    ensures
        batch_weight(lv.update(l, s), w) + weight_of(lv[l], w) == batch_weight(lv, w) + weight_of(s, w),
    decreases lv.len(),
{
    if l < lv.len() - 1 {
        assert(lv.update(l, s).drop_last() =~= lv.drop_last().update(l, s));
        lemma_batch_weight_update(lv.drop_last(), l, s, w);
    } else {
        assert(lv.update(l, s).drop_last() =~= lv.drop_last());
    }
}

proof fn lemma_levels_weight(graph: &BuildGraph, order: Seq<usize>, n: nat, w: spec_fn(usize) -> nat)
    requires
        n <= order.len(),
    ensures
        batch_weight(level_lists(graph, order, n), w) == weight_of(order.take(n as int), w),
    decreases n,
{
    if n == 0 {
        assert(order.take(0) =~= Seq::<usize>::empty());
    } else {
        lemma_levels_weight(graph, order, (n - 1) as nat, w);
        let lv = level_lists(graph, order, (n - 1) as nat);
        let id = order[n - 1];
        let lvl = level_for(graph, id, level_map(graph, order, (n - 1) as nat));
        let padded = if lv.len() <= lvl {
            lv + Seq::new((lvl + 1 - lv.len()) as nat, |q: int| Seq::<usize>::empty())
        } else {
            lv
        };
        if lv.len() <= lvl {
            lemma_batch_weight_append_empty(lv, (lvl + 1 - lv.len()) as nat, w);
        }
        lemma_batch_weight_update(padded, lvl as int, padded[lvl as int].push(id), w);
        lemma_weight_push(padded[lvl as int], id, w);
        assert(order.take(n as int).drop_last() =~= order.take(n - 1));
    }
}

proof fn lemma_singletons_weight(order: Seq<usize>, n: nat, w: spec_fn(usize) -> nat)
    requires
        n <= order.len(),
    ensures
        batch_weight(order.take(n as int).map_values(|id: usize| seq![id]), w) == weight_of(
            order.take(n as int),
            w,
        ),
    decreases n,
{
    let b = order.take(n as int).map_values(|id: usize| seq![id]);
    if n == 0 {
        assert(b =~= Seq::<Seq<usize>>::empty());
        assert(order.take(0) =~= Seq::<usize>::empty());
    } else {
        lemma_singletons_weight(order, (n - 1) as nat, w);
        assert(b.drop_last() =~= order.take(n - 1).map_values(|id: usize| seq![id]));
        assert(order.take(n as int).drop_last() =~= order.take(n - 1));
        lemma_weight_push(Seq::<usize>::empty(), order[n - 1], w);
        assert(seq![order[n - 1]] =~= Seq::<usize>::empty().push(order[n - 1]));
    }
}

/// Whatever the number of jobs, a build runs the same products, each as
/// many times, and so ends with the same counts: for any weight `w` on
/// products (one for a given product, or one for the products of a
/// processor that end in a given outcome), the batches for two job counts
/// weigh the same, as much as `order` does.
pub proof fn lemma_batches_same_products(
    graph: &BuildGraph,
    order: Seq<usize>,
    jobs_a: usize,
    jobs_b: usize,
    w: spec_fn(usize) -> nat,
)
    ensures
        batch_weight(batches_spec(jobs_a, graph, order), w) == batch_weight(batches_spec(jobs_b, graph, order), w),
        batch_weight(batches_spec(jobs_a, graph, order), w) == weight_of(order, w),
{
    assert(order.take(order.len() as int) =~= order);
    lemma_levels_weight(graph, order, order.len(), w);
    lemma_singletons_weight(order, order.len(), w);
}

/// The levels of `compute_parallel_levels`, as one law, when `order` lists
/// each product of the graph once and after all of its dependencies: the
/// levels hold `order` rearranged (each product as often as `order` has
/// it, `order.len()` entries in all); no level is empty; and a dependency
/// lies on a strictly lower level than the product that needs it, so no
/// product depends on one of its own level. (Within a level the products
/// keep the order of `order`: `lemma_levels_keep_order`.)
pub proof fn lemma_parallel_levels_law(graph: &BuildGraph, order: Seq<usize>, w: spec_fn(usize) -> nat)
    requires
        graph.well_formed(),
        in_graph(graph, order),
        distinct(order),
        deps_listed_before(graph, order),
    ensures
        batch_weight(level_lists(graph, order, order.len()), w) == weight_of(order, w),
        total_len(level_lists(graph, order, order.len())) == order.len(),
        forall|l: int| 0 <= l < level_lists(graph, order, order.len()).len() ==> (#[trigger] level_lists(
            graph,
            order,
            order.len(),
        )[l]).len() > 0,
        forall|l1: int, x1: int, l2: int, x2: int|
            0 <= l1 < level_lists(graph, order, order.len()).len() && 0 <= x1 < level_lists(
                graph,
                order,
                order.len(),
            )[l1].len() && 0 <= l2 < level_lists(graph, order, order.len()).len() && 0 <= x2
                < level_lists(graph, order, order.len())[l2].len() && deps_of(
                graph,
                #[trigger] level_lists(graph, order, order.len())[l2][x2],
            ).contains(#[trigger] level_lists(graph, order, order.len())[l1][x1]) ==> l1 < l2,
{
    assert(topological(graph, order)) by {
        assert forall|i: int, j: int|
            0 <= i < order.len() && 0 <= j < order.len() && #[trigger] deps_of(graph, order[j]).contains(
                #[trigger] order[i],
            ) implies i < j by {
            let k = choose|k: int| 0 <= k < j && #[trigger] order[k] == order[i];
            assert(k == i);
        }
    }
    assert(order.take(order.len() as int) =~= order);
    lemma_levels_weight(graph, order, order.len(), w);
    lemma_levels_cover_order(graph, order, order.len());
    lemma_levels_nonempty(graph, order, order.len());
    lemma_levels_respect_dependencies(graph, order);
}

/// Whatever the number of jobs, a product's dependencies run in an earlier
/// batch than the product itself, when `order` lists each product of the
/// graph once and after its dependencies: running the batches one after
/// another never starts a product before what it needs is built.
pub proof fn lemma_batches_respect_dependencies(graph: &BuildGraph, order: Seq<usize>, jobs: usize)
    requires
        graph.well_formed(),
        in_graph(graph, order),
        distinct(order),
        topological(graph, order),
    ensures
        forall|b1: int, x1: int, b2: int, x2: int|
            0 <= b1 < batches_spec(jobs, graph, order).len() && 0 <= x1 < batches_spec(
                jobs,
                graph,
                order,
            )[b1].len() && 0 <= b2 < batches_spec(jobs, graph, order).len() && 0 <= x2
                < batches_spec(jobs, graph, order)[b2].len() && deps_of(
                graph,
                #[trigger] batches_spec(jobs, graph, order)[b2][x2],
            ).contains(#[trigger] batches_spec(jobs, graph, order)[b1][x1]) ==> b1 < b2,
{
    if jobs <= 1 {
        let bs = batches_spec(jobs, graph, order);
        assert forall|b1: int, x1: int, b2: int, x2: int|
            0 <= b1 < bs.len() && 0 <= x1 < bs[b1].len() && 0 <= b2 < bs.len() && 0 <= x2 < bs[b2].len()
                && deps_of(graph, #[trigger] bs[b2][x2]).contains(#[trigger] bs[b1][x1]) implies b1 < b2 by {
            assert(bs[b1] == seq![order[b1]]);
            assert(bs[b2] == seq![order[b2]]);
            assert(bs[b1][x1] == order[b1]);
            assert(bs[b2][x2] == order[b2]);
        }
    } else {
        lemma_levels_respect_dependencies(graph, order);
    }
}

/// What to do next with a product.
#[derive(Debug, Clone, Copy, PartialEq, Eq, Structural)]
pub enum ProductAction {
    /// Its outputs are up to date (or were restored): count it as skipped.
    Skip,
    /// Try to restore its outputs from the cache, then ask again.
    Restore,
    /// Run its processor, store its outputs, and count it as processed.
    Execute,
    /// No known processor builds it: leave it.
    Ignore,
}

/// What became of a product, for the counts.
#[derive(Debug, Clone, Copy, PartialEq, Eq, Structural)]
pub enum Outcome {
    Processed,
    Skipped,
}

/// The next step for a product: skip it when nothing forces a rebuild and
/// it is up to date; else, unless forced, try the cache first and skip it
/// when the cache restored it; else run it if a processor is known.
pub open spec fn action_spec(known: bool, force: bool, needs_rebuild: bool, restored: Option<bool>) -> ProductAction {
    if !force && !needs_rebuild {
        ProductAction::Skip
    } else if !force && restored is None {
        ProductAction::Restore
    } else if !force && restored == Some(true) {
        ProductAction::Skip
    } else if known {
        ProductAction::Execute
    } else {
        ProductAction::Ignore
    }
}

/// The counts of one processor.
pub struct ProcessStats {
    pub processor: String,
    pub processed: usize,
    pub skipped: usize,
}

pub open spec fn outcome_count(e: ProcessStats, o: Outcome) -> nat {
    match o {
        Outcome::Processed => e.processed as nat,
        Outcome::Skipped => e.skipped as nat,
    }
}

/// The count of outcome `o` for processor `name` over all entries.
pub open spec fn count_in(s: Seq<ProcessStats>, name: Seq<char>, o: Outcome) -> nat
    decreases s.len(),
{
    if s.len() == 0 {
        0
    } else {
        (if s.last().processor@ == name {
            outcome_count(s.last(), o)
        } else {
            0
        }) + count_in(s.drop_last(), name, o)
    }
}

proof fn lemma_count_in_update(s: Seq<ProcessStats>, k: int, e: ProcessStats, name: Seq<char>, o: Outcome)
    requires
        0 <= k < s.len(),
        e.processor@ == s[k].processor@,
    ensures
        count_in(s.update(k, e), name, o) + (if s[k].processor@ == name {
            outcome_count(s[k], o)
        } else {
            0
        }) == count_in(s, name, o) + (if s[k].processor@ == name {
            outcome_count(e, o)
        } else {
            0
        }),
        s[k].processor@ == name ==> outcome_count(s[k], o) <= count_in(s, name, o),
    decreases s.len(),
{
    if k < s.len() - 1 {
        assert(s.update(k, e).drop_last() == s.drop_last().update(k, e));
        lemma_count_in_update(s.drop_last(), k, e, name, o);
    } else {
        assert(s.update(k, e).drop_last() == s.drop_last());
    }
}

/// The counts of a build, processor by processor.
pub struct BuildStats {
    pub by_processor: Vec<ProcessStats>,
}

impl BuildStats {
    pub open spec fn count(&self, name: Seq<char>, o: Outcome) -> nat {
        count_in(self.by_processor@, name, o)
    }

    pub fn new() -> (r: Self)
        ensures
            forall|name: Seq<char>, o: Outcome| r.count(name, o) == 0,
    {
        BuildStats { by_processor: Vec::new() }
    }

    /// How often `o` was recorded for `processor`.
    pub fn count_of(&self, processor: &str, o: Outcome) -> (r: usize)
        requires
            self.count(processor@, o) <= usize::MAX,
        ensures
            r == self.count(processor@, o),
    {
        let mut total: usize = 0;
        let mut i: usize = 0;
        while i < self.by_processor.len()
            invariant
                i <= self.by_processor@.len(),
                total == count_in(self.by_processor@.take(i as int), processor@, o),
                self.count(processor@, o) <= usize::MAX,
            decreases self.by_processor@.len() - i,
        {
            proof {
                let s = self.by_processor@;
                assert(s.take(i + 1).drop_last() == s.take(i as int));
                lemma_count_in_prefix(s, i + 1, processor@, o);
            }
            let e = &self.by_processor[i];
            if str_eq(e.processor.as_str(), processor) {
                total = total + match o {
                    Outcome::Processed => e.processed,
                    Outcome::Skipped => e.skipped,
                };
            }
            i = i + 1;
        }
        assert(self.by_processor@.take(i as int) == self.by_processor@);
        total
    }

    /// Counts one more outcome `o` for `processor`; every other count stays.
    pub fn record(&mut self, processor: &str, o: Outcome)
        requires
            old(self).count(processor@, o) < usize::MAX,
        ensures
            forall|name: Seq<char>, o2: Outcome| #[trigger]
                final(self).count(name, o2) == old(self).count(name, o2) + (if name == processor@
                    && o2 == o {
                    1int
                } else {
                    0int
                }),
    {
        let mut i: usize = 0;
        while i < self.by_processor.len()
            invariant
                i <= self.by_processor@.len(),
                self.by_processor@ == old(self).by_processor@,
                count_in(self.by_processor@, processor@, o) < usize::MAX,
                forall|j: int| 0 <= j < i ==> #[trigger] self.by_processor@[j].processor@ != processor@,
            decreases self.by_processor@.len() - i,
        {
            if str_eq(self.by_processor[i].processor.as_str(), processor) {
                let ghost s = self.by_processor@;
                let old_e = &self.by_processor[i];
                proof {
                    lemma_count_in_update(s, i as int, *old_e, processor@, o);
                }
                let e = ProcessStats {
                    processor: old_e.processor.clone(),
                    processed: match o {
                        Outcome::Processed => old_e.processed + 1,
                        Outcome::Skipped => old_e.processed,
                    },
                    skipped: match o {
                        Outcome::Processed => old_e.skipped,
                        Outcome::Skipped => old_e.skipped + 1,
                    },
                };
                proof {
                    assert forall|name: Seq<char>, o2: Outcome|
                        count_in(s.update(i as int, e), name, o2) == count_in(s, name, o2) + (if name
                            == processor@ && o2 == o {
                            1int
                        } else {
                            0int
                        }) by {
                        lemma_count_in_update(s, i as int, e, name, o2);
                    }
                }
                self.by_processor.set(i, e);
                return;
            }
            i = i + 1;
        }
        let ghost s = self.by_processor@;
        let e = ProcessStats {
            processor: processor.to_string(),
            processed: match o {
                Outcome::Processed => 1,
                Outcome::Skipped => 0,
            },
            skipped: match o {
                Outcome::Processed => 0,
                Outcome::Skipped => 1,
            },
        };
        self.by_processor.push(e);
        proof {
            assert(self.by_processor@.drop_last() == s);
            assert forall|name: Seq<char>, o2: Outcome|
                count_in(self.by_processor@, name, o2) == count_in(s, name, o2) + (if name == processor@
                    && o2 == o {
                    1int
                } else {
                    0int
                }) by {}
        }
    }
}

proof fn lemma_count_in_prefix(s: Seq<ProcessStats>, n: int, name: Seq<char>, o: Outcome)
    requires
        0 <= n <= s.len(),
    ensures
        count_in(s.take(n), name, o) <= count_in(s, name, o),
    decreases s.len(),
{
    if n < s.len() {
        assert(s.drop_last().take(n) == s.take(n));
        lemma_count_in_prefix(s.drop_last(), n, name, o);
    } else {
        assert(s.take(n) == s);
    }
}

/// Whether a processor of that name is among `processors`.
pub open spec fn knows(processors: Seq<String>, name: Seq<char>) -> bool {
    exists|k: int| 0 <= k < processors.len() && #[trigger] processors[k]@ == name
}

/// The positions, among the first `n` products, of those a known
/// processor builds.
pub open spec fn clean_positions(graph: &BuildGraph, processors: Seq<String>, n: nat) -> Seq<usize>
    decreases n,
{
    if n == 0 || n > graph.products@.len() {
        seq![]
    } else {
        let r = clean_positions(graph, processors, (n - 1) as nat);
        if knows(processors, graph.products@[n - 1].processor@) {
            r.push((n - 1) as usize)
        } else {
            r
        }
    }
}

/// The message a build that failed ends with, given the first error.
pub open spec fn build_failed_spec(first_error: Seq<char>) -> Seq<char> {
    "Build failed: "@ + first_error
}

pub fn build_failed_message(first_error: &str) -> (r: String)
    ensures
        r@ == build_failed_spec(first_error@),
{
    let mut r = String::new();
    append_str(&mut r, "Build failed: ");
    append_str(&mut r, first_error);
    r
}

/// The weight that counts the products of processor `name` that ended in
/// outcome `o` (`outcomes[id]`; none for a product that was not counted).
pub open spec fn counted(graph: &BuildGraph, outcomes: Seq<Option<Outcome>>, name: Seq<char>, o: Outcome) -> spec_fn(
    usize,
) -> nat {
    |id: usize|
        if id < graph.products@.len() && graph.products@[id as int].processor@ == name && id < outcomes.len()
            && outcomes[id as int] == Some(o) {
            1nat
        } else {
            0nat
        }
}

proof fn lemma_total_len_take(lv: Seq<Seq<usize>>, b: int)
    requires
        0 <= b < lv.len(),
    ensures
        total_len(lv.take(b + 1)) == total_len(lv.take(b)) + lv[b].len(),
        total_len(lv.take(b + 1)) <= total_len(lv),
    decreases lv.len(),
{
    assert(lv.take(b + 1).drop_last() == lv.take(b));
    if b + 1 < lv.len() {
        lemma_total_len_take(lv.drop_last(), b);
        assert(lv.drop_last().take(b + 1) == lv.take(b + 1));
        assert(lv.drop_last().take(b) == lv.take(b));
    } else {
        assert(lv.take(b + 1) == lv);
    }
}

/// The counts of a run: each product of the batches, in order, has the
/// outcome it ended with (`outcomes[id]`, none when it was not counted)
/// recorded for its processor. With `lemma_batches_same_products`, the
/// counts are the same whatever the number of jobs.
pub fn tally(graph: &BuildGraph, batches: &[Vec<usize>], outcomes: &[Option<Outcome>]) -> (r: BuildStats)
    requires
        forall|b: int, x: int|
            0 <= b < batches@.len() && 0 <= x < batches@[b]@.len() ==> #[trigger] batches@[b]@[x]
                < graph.products@.len(),
        total_len(lists_view(batches@)) < usize::MAX,
    ensures
        forall|name: Seq<char>, o: Outcome| #[trigger]
            r.count(name, o) == batch_weight(lists_view(batches@), counted(graph, outcomes@, name, o)),
{
    let ghost lv = lists_view(batches@);
    let mut stats = BuildStats::new();
    let mut b: usize = 0;
    assert(lv.take(0) == Seq::<Seq<usize>>::empty());
    while b < batches.len()
        invariant
            b <= batches@.len(),
            lv == lists_view(batches@),
            lv.len() == batches@.len(),
            forall|c: int, x: int|
                0 <= c < batches@.len() && 0 <= x < batches@[c]@.len() ==> #[trigger] batches@[c]@[x]
                    < graph.products@.len(),
            total_len(lv) < usize::MAX,
            forall|name: Seq<char>, o: Outcome| #[trigger]
                stats.count(name, o) == batch_weight(lv.take(b as int), counted(graph, outcomes@, name, o)),
            forall|name: Seq<char>, o: Outcome| stats.count(name, o) <= total_len(lv.take(b as int)),
        decreases batches@.len() - b,
    {
        let batch = &batches[b];
        proof {
            lemma_total_len_take(lv, b as int);
            assert(lv[b as int] == batch@);
        }
        let mut x: usize = 0;
        assert(batch@.take(0) == Seq::<usize>::empty());
        while x < batch.len()
            invariant
                b < batches@.len(),
                x <= batch@.len(),
                lv == lists_view(batches@),
                lv[b as int] == batch@,
                *batch == batches@[b as int],
                forall|q: int| 0 <= q < batch@.len() ==> #[trigger] batch@[q] < graph.products@.len(),
                total_len(lv.take(b as int)) + batch@.len() <= total_len(lv),
                total_len(lv) < usize::MAX,
                forall|name: Seq<char>, o: Outcome| #[trigger]
                    stats.count(name, o) == batch_weight(lv.take(b as int), counted(graph, outcomes@, name, o))
                        + weight_of(batch@.take(x as int), counted(graph, outcomes@, name, o)),
                forall|name: Seq<char>, o: Outcome| stats.count(name, o) <= total_len(lv.take(b as int)) + x,
            decreases batch@.len() - x,
        {
            let id = batch[x];
            proof {
                assert(batch@.take(x + 1).drop_last() == batch@.take(x as int));
                assert(batch@.take(x + 1).last() == id);
            }
            if id < outcomes.len() {
                match outcomes[id] {
                    Some(o) => {
                        let name = graph.products[id].processor.as_str();
                        stats.record(name, o);
                    },
                    None => {},
                }
            }
            x = x + 1;
        }
        proof {
            assert(batch@.take(batch@.len() as int) == batch@);
            assert(lv.take(b + 1).drop_last() == lv.take(b as int));
            assert(lv.take(b + 1).last() == batch@);
        }
        b = b + 1;
    }
    assert(lv.take(batches@.len() as int) == lv);
    stats
}

/// What became of a batch whose products reported `errors`: the build goes
/// on to the next batch when there is none; else it stops, failing with the
/// first error.
pub fn batch_outcome(errors: &[String]) -> (r: Result<(), String>)
    ensures
        errors@.len() == 0 <==> r is Ok,
        r matches Err(m) ==> m@ == build_failed_spec(errors@[0]@),
{
    if errors.len() == 0 {
        Ok(())
    } else {
        Err(build_failed_message(errors[0].as_str()))
    }
}

/// Runs the products of a build graph with the processors it knows.
pub struct Executor {
    /// The names of the processors that can build products.
    pub processors: Vec<String>,
    /// How many products may run at once.
    pub parallel: usize,
}

impl Executor {
    pub fn new(processors: Vec<String>, parallel: usize) -> (r: Self)
        ensures
            r.processors@ == processors@,
            r.parallel == parallel,
    {
        Executor { processors, parallel }
    }

    /// Whether a processor of that name is known.
    pub fn has_processor(&self, name: &str) -> (r: bool)
        ensures
            r == knows(self.processors@, name@),
    {
        let mut i: usize = 0;
        while i < self.processors.len()
            invariant
                i <= self.processors@.len(),
                forall|k: int| 0 <= k < i ==> #[trigger] self.processors@[k]@ != name@,
            decreases self.processors@.len() - i,
        {
            if str_eq(self.processors[i].as_str(), name) {
                return true;
            }
            i = i + 1;
        }
        false
    }

    /// Whether products run one at a time rather than level by level.
    pub fn runs_sequentially(&self) -> (r: bool)
        ensures
            r == (self.parallel <= 1),
    {
        self.parallel <= 1
    }

    /// The next step for `product`, given whether the build is forced,
    /// whether the product's outputs are out of date, and what restoring
    /// it from the cache gave, if that was tried.
    pub fn next_action(&self, product: &Product, force: bool, needs_rebuild: bool, restored: Option<bool>) -> (r: ProductAction)
        ensures
            r == action_spec(
                knows(self.processors@, product.processor@),
                force,
                needs_rebuild,
                restored,
            ),
    {
        if !force && !needs_rebuild {
            ProductAction::Skip
        } else if !force && restored.is_none() {
            ProductAction::Restore
        } else if !force && restored == Some(true) {
            ProductAction::Skip
        } else if self.has_processor(product.processor.as_str()) {
            ProductAction::Execute
        } else {
            ProductAction::Ignore
        }
    }

    /// How many products one worker takes of a level of `items` products:
    /// `items` divided by the number of workers, rounded up, and at least one.
    pub fn chunk_size(&self, items: usize) -> (r: usize)
        requires
            self.parallel > 0,
            items + self.parallel <= usize::MAX,
        ensures
            r == if items == 0 { 1 } else { (items + self.parallel - 1) as int / self.parallel as int },
    {
        let c = (items + self.parallel - 1) / self.parallel;
        proof {
            let p = self.parallel as int;
            let n = items as int;
            assert(n == 0 ==> c == 0) by (nonlinear_arith)
                requires
                    c as int == (n + p - 1) / p,
                    p > 0,
            ;
            assert(n > 0 ==> c >= 1) by (nonlinear_arith)
                requires
                    c as int == (n + p - 1) / p,
                    p > 0,
            ;
        }
        if c < 1 {
            1
        } else {
            c
        }
    }

    /// The products whose processor is known, in graph order: those that
    /// cleaning hands to their processor.
    pub fn clean(&self, graph: &BuildGraph) -> (r: Vec<usize>)
        ensures
            r@ == clean_positions(graph, self.processors@, graph.products@.len()),
    {
        let mut r: Vec<usize> = Vec::new();
        let mut i: usize = 0;
        while i < graph.products.len()
            invariant
                i <= graph.products@.len(),
                r@ == clean_positions(graph, self.processors@, i as nat),
            decreases graph.products@.len() - i,
        {
            if self.has_processor(graph.products[i].processor.as_str()) {
                r.push(i);
            }
            i = i + 1;
        }
        r
    }

    /// The batches in which a build runs the products of `order`, one batch
    /// after another: each product alone, in order, when at most one job
    /// runs; else the levels of `compute_parallel_levels`, whose products
    /// run side by side.
    pub fn execute(&self, graph: &BuildGraph, order: &[usize]) -> (r: Vec<Vec<usize>>)
        requires
            forall|i: int| 0 <= i < order@.len() ==> #[trigger] order@[i] < graph.products@.len(),
        ensures
            lists_view(r@) == batches_spec(self.parallel, graph, order@),
    {
        if self.runs_sequentially() {
            let mut r: Vec<Vec<usize>> = Vec::new();
            let mut i: usize = 0;
            while i < order.len()
                invariant
                    i <= order@.len(),
                    lists_view(r@) == order@.take(i as int).map_values(|id: usize| seq![id]),
                decreases order@.len() - i,
            {
                let mut one: Vec<usize> = Vec::new();
                one.push(order[i]);
                assert(one@ =~= seq![order@[i as int]]);
                let ghost before = lists_view(r@);
                r.push(one);
                proof {
                    assert(lists_view(r@) =~= before.push(seq![order@[i as int]]));
                    assert(lists_view(r@) =~= order@.take(i + 1).map_values(|id: usize| seq![id]));
                }
                i = i + 1;
            }
            assert(order@.take(order@.len() as int) == order@);
            r
        } else {
            self.compute_parallel_levels(graph, order)
        }
    }

    /// Groups products into levels that can run side by side: a product
    /// without dependencies goes to level 0, any other one level above the
    /// highest level of its dependencies placed so far; each level lists
    /// its products in the order given.
    pub fn compute_parallel_levels(&self, graph: &BuildGraph, order: &[usize]) -> (r: Vec<Vec<usize>>)
        requires
            forall|i: int| 0 <= i < order@.len() ==> #[trigger] order@[i] < graph.products@.len(),
        ensures
            lists_view(r@) == level_lists(graph, order@, order@.len()),
    {
        let mut levels: Vec<Vec<usize>> = Vec::new();
        let mut product_level: HashMap<usize, usize> = HashMap::new();
        let n = order.len();
        let mut i: usize = 0;
        while i < n
            invariant
                i <= n == order@.len(),
                forall|j: int| 0 <= j < order@.len() ==> #[trigger] order@[j] < graph.products@.len(),
                lists_view(levels@) == level_lists(graph, order@, i as nat),
                product_level@.dom() == level_map(graph, order@, i as nat).dom(),
                forall|k: usize| #[trigger]
                    product_level@.contains_key(k) ==> product_level@[k] as nat == level_map(
                        graph,
                        order@,
                        i as nat,
                    )[k],
            decreases n - i,
        {
            let id = order[i];
            let ghost m = level_map(graph, order@, i as nat);
            proof {
                lemma_level_map_bounded(graph, order@, i as nat);
            }
            let product = graph.get_product(id).unwrap();
            let deps = graph.get_dependencies(id);
            let mut max_level: usize = 0;
            let mut k: usize = 0;
            while k < deps.len()
                invariant
                    k <= deps@.len(),
                    deps@ == deps_of(graph, id),
                    max_level as nat == max_known_level(deps@.take(k as int), m),
                    max_level < n,
                    i < n,
                    forall|q: usize| #[trigger] m.contains_key(q) ==> m[q] <= i,
                    product_level@.dom() == m.dom(),
                    forall|q: usize| #[trigger]
                        product_level@.contains_key(q) ==> product_level@[q] as nat == m[q],
                decreases deps@.len() - k,
            {
                proof {
                    assert(deps@.take(k + 1).drop_last() == deps@.take(k as int));
                    assert(deps@.take(k + 1).last() == deps@[k as int]);
                }
                match product_level.get(&deps[k]) {
                    Some(l) => {
                        if *l > max_level {
                            max_level = *l;
                        }
                    },
                    None => {},
                }
                k = k + 1;
            }
            proof {
                assert(deps@.take(deps@.len() as int) == deps@);
                lemma_max_known_level_bounded(deps@, m, i as nat);
            }
            let my_level: usize = if deps.len() == 0 {
                0
            } else {
                max_level + 1
            };
            assert(my_level as nat == level_for(graph, id, m));
            product_level.insert(product.id, my_level);
            let ghost before = lists_view(levels@);
            while levels.len() <= my_level
                invariant
                    before.len() <= levels@.len(),
                    levels@.len() <= my_level + 1 || levels@.len() == before.len(),
                    lists_view(levels@) == before + Seq::new(
                        (levels@.len() - before.len()) as nat,
                        |j: int| Seq::<usize>::empty(),
                    ),
                decreases my_level + 1 - levels@.len(),
            {
                let ghost prev = levels@;
                levels.push(Vec::new());
                proof {
                    assert(lists_view(levels@) =~= lists_view(prev).push(Seq::<usize>::empty()));
                    assert(lists_view(levels@) =~= before + Seq::new(
                        (levels@.len() - before.len()) as nat,
                        |j: int| Seq::<usize>::empty(),
                    ));
                }
            }
            levels[my_level].push(id);
            proof {
                assert(order@.take(i + 1).len() == i + 1);
                assert(lists_view(levels@) =~= place(before, my_level as nat, id));
                assert(level_map(graph, order@, (i + 1) as nat) == m.insert(
                    graph.products@[id as int].id,
                    level_for(graph, id, m),
                ));
                assert(product_level@.dom() =~= level_map(graph, order@, (i + 1) as nat).dom());
            }
            i = i + 1;
        }
        levels
    }
}

} // verus!
