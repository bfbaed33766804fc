//! Which nodes of a layer a Merkle opening touches.
//!
//! Each layer is walked from left to right. A node is touched where one of its children was
//! touched in the layer below, or where it is queried.
use vstd::arithmetic::power2::*;
use vstd::prelude::*;

verus! {

/// The first node to touch, where `below` are the nodes of the layer below that are left, and
/// `queries` the queries of this layer that are left.
pub open spec fn next_node(below: Seq<usize>, queries: Seq<usize>) -> usize {
    if queries.len() == 0 {
        below[0] / 2
    } else if below.len() == 0 || queries[0] < below[0] / 2 {
        queries[0]
    } else {
        below[0] / 2
    }
}

/// Whether the first of `below` is the left child of `node`.
pub open spec fn has_left(below: Seq<usize>, node: usize) -> bool {
    below.len() > 0 && below[0] == 2 * node
}

/// What is left of `below` behind the left child of `node`.
pub open spec fn after_left(below: Seq<usize>, node: usize) -> Seq<usize> {
    if has_left(below, node) {
        below.skip(1)
    } else {
        below
    }
}

/// Whether the right child of `node` is among `below`.
pub open spec fn has_right(below: Seq<usize>, node: usize) -> bool {
    after_left(below, node).len() > 0 && after_left(below, node)[0] == 2 * node + 1
}

/// The number of children of `node` that are among `below`.
pub open spec fn n_children(below: Seq<usize>, node: usize) -> int {
    (if has_left(below, node) {
        1int
    } else {
        0
    }) + (if has_right(below, node) {
        1int
    } else {
        0
    })
}

/// What is left of `below` behind the children of `node`.
pub open spec fn after_children(below: Seq<usize>, node: usize) -> Seq<usize> {
    below.skip(n_children(below, node))
}

/// Whether `node` is the first of `queries`.
pub open spec fn is_queried(queries: Seq<usize>, node: usize) -> bool {
    queries.len() > 0 && queries[0] == node
}

/// What is left of `queries` behind `node`.
pub open spec fn after_query(queries: Seq<usize>, node: usize) -> Seq<usize> {
    if is_queried(queries, node) {
        queries.skip(1)
    } else {
        queries
    }
}

/// The nodes that a walk touches.
pub open spec fn walk(below: Seq<usize>, queries: Seq<usize>) -> Seq<usize>
    decreases below.len() + queries.len(),
{
    if below.len() == 0 && queries.len() == 0 {
        seq![]
    } else {
        let node = next_node(below, queries);
        seq![node] + walk(after_children(below, node), after_query(queries, node))
    }
}

/// Whether the numbers in `s` increase.
pub open spec fn increasing(s: Seq<usize>) -> bool {
    forall|i: int, j: int| 0 <= i < j < s.len() ==> s[i] < s[j]
}

/// The queries of the layer of size `2^log_size`.
pub open spec fn layer_queries(queries: Seq<Vec<usize>>, log_size: int) -> Seq<usize> {
    if log_size < queries.len() {
        queries[log_size]@
    } else {
        seq![]
    }
}

/// The nodes touched in the layer of size `2^log_size` of a tree with `n_layers` layers.
pub open spec fn touched(queries: Seq<Vec<usize>>, n_layers: nat, log_size: nat) -> Seq<usize>
    decreases n_layers - log_size,
{
    if log_size >= n_layers {
        seq![]
    } else {
        walk(
            touched(queries, n_layers, log_size + 1),
            layer_queries(queries, log_size as int),
        )
    }
}

/// Whether the queries to a tree with `n_layers` layers are in order: those of each layer
/// increase and name nodes of that layer, and there is at least one.
pub open spec fn queries_in_order(queries: Seq<Vec<usize>>, n_layers: nat) -> bool {
    &&& forall|l: int|
        0 <= l < n_layers ==> increasing(#[trigger] layer_queries(queries, l)) && forall|i: int|
            0 <= i < layer_queries(queries, l).len() ==> layer_queries(queries, l)[i] < pow2(
                l as nat,
            )
    &&& exists|l: int| 0 <= l < n_layers && #[trigger] layer_queries(queries, l).len() > 0
}

/// A walk touches something unless there is nothing to touch.
pub proof fn walk_nonempty(below: Seq<usize>, queries: Seq<usize>)
    ensures
        walk(below, queries).len() == 0 <==> below.len() == 0 && queries.len() == 0,
{
}

/// The root is touched where there is a query in one of the layers from `log_size` on.
pub proof fn touched_nonempty(queries: Seq<Vec<usize>>, n_layers: nat, log_size: nat, at: nat)
    requires
        log_size <= at < n_layers,
        layer_queries(queries, at as int).len() > 0,
    ensures
        touched(queries, n_layers, log_size).len() > 0,
    decreases at - log_size,
{
    if log_size < at {
        touched_nonempty(queries, n_layers, log_size + 1, at);
    }
    walk_nonempty(
        touched(queries, n_layers, log_size + 1),
        layer_queries(queries, log_size as int),
    );
}

/// A walk over increasing numbers below bounds gives increasing numbers below the bound.
pub proof fn walk_in_order(below: Seq<usize>, queries: Seq<usize>, low: int, bound: int)
    requires
        increasing(below),
        increasing(queries),
        forall|i: int| 0 <= i < below.len() ==> 2 * low <= #[trigger] below[i] < 2 * bound,
        forall|i: int| 0 <= i < queries.len() ==> low <= #[trigger] queries[i] < bound,
    ensures
        increasing(walk(below, queries)),
        forall|i: int|
            0 <= i < walk(below, queries).len() ==> low <= #[trigger] walk(below, queries)[i]
                < bound,
    decreases below.len() + queries.len(),
{
    if below.len() != 0 || queries.len() != 0 {
        let node = next_node(below, queries);
        let rest_below = after_children(below, node);
        let rest_queries = after_query(queries, node);
        assert(low <= node < bound);
        assert forall|i: int| 0 <= i < rest_below.len() implies 2 * (node + 1)
            <= #[trigger] rest_below[i] by {
            let n = n_children(below, node);
            assert(rest_below[i] == below[i + n]);
            if below.len() > 0 {
                assert(below[0] >= 2 * node);
                if n < 2 {
                    assert(below[i + n] >= below[n]);
                }
            }
        }
        assert forall|i: int| 0 <= i < rest_queries.len() implies node + 1
            <= #[trigger] rest_queries[i] by {
            if is_queried(queries, node) {
                assert(rest_queries[i] == queries[i + 1]);
            } else {
                assert(queries[i] >= queries[0]);
            }
        }
        walk_in_order(rest_below, rest_queries, node + 1, bound);
        let rest = walk(rest_below, rest_queries);
        let all = walk(below, queries);
        assert(all =~= seq![node] + rest);
        assert forall|i: int, j: int| 0 <= i < j < all.len() implies all[i] < all[j] by {
            if i == 0 {
                assert(all[j] == rest[j - 1]);
            } else {
                assert(all[i] == rest[i - 1] && all[j] == rest[j - 1]);
            }
        }
        assert forall|i: int| 0 <= i < all.len() implies low <= #[trigger] all[i] < bound by {
            if i > 0 {
                assert(all[i] == rest[i - 1]);
            }
        }
    }
}

/// The touched nodes of a layer increase and are nodes of that layer.
pub proof fn touched_in_order(queries: Seq<Vec<usize>>, n_layers: nat, log_size: nat)
    requires
        queries_in_order(queries, n_layers),
        log_size <= n_layers,
    ensures
        increasing(touched(queries, n_layers, log_size)),
        forall|i: int|
            0 <= i < touched(queries, n_layers, log_size).len() ==> #[trigger] touched(
                queries,
                n_layers,
                log_size,
            )[i] < pow2(log_size),
    decreases n_layers - log_size,
{
    if log_size < n_layers {
        touched_in_order(queries, n_layers, log_size + 1);
        lemma_pow2_unfold(log_size + 1);
        assert(increasing(layer_queries(queries, log_size as int)));
        walk_in_order(
            touched(queries, n_layers, log_size + 1),
            layer_queries(queries, log_size as int),
            0,
            pow2(log_size) as int,
        );
    }
}

/// Queries that are in order touch the root, once.
pub proof fn root_touched(queries: Seq<Vec<usize>>, n_layers: nat)
    requires
        queries_in_order(queries, n_layers),
    ensures
        touched(queries, n_layers, 0) == seq![0usize],
{
    let at = choose|l: int| 0 <= l < n_layers && #[trigger] layer_queries(queries, l).len() > 0;
    touched_nonempty(queries, n_layers, 0, at as nat);
    touched_in_order(queries, n_layers, 0);
    lemma2_to64();
    let t = touched(queries, n_layers, 0);
    if t.len() > 1 {
        assert(t[0] < t[1]);
        assert(t[1] < 1);
    }
    assert(t[0] < 1);
    assert(t =~= seq![0usize]);
}

} // verus!
