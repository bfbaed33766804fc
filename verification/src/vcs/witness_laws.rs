//! Laws of the tree and of the witness of an opening: which hashes and column values it holds, and
//! what a collision is.
use vstd::arithmetic::power2::*;
use vstd::prelude::*;

use crate::fields::m31::BaseField;
use crate::vcs::opening::{
    opening_of, read_input, read_layer, read_tree, verdict, MerkleDecommitment,
    MerkleVerificationError, MerkleVerifier, NodeInput, Unread,
};
use crate::vcs::opening_laws::{checks_collide, collide, layer_collides};
use crate::vcs::ops::MerkleHasher;
use crate::vcs::tree::{
    columns_in_order, hold, is_layer, layer_opening, opening, tree_hash, values_at,
    MerkleProver,
};
use crate::vcs::walk::{
    after_children, after_query, has_left, has_right, increasing, is_queried,
    layer_queries, n_children, next_node, queries_in_order, touched, touched_in_order, walk,
    walk_in_order,
};

verus! {

/// The hash of a node is that of its children, where there is a layer below, and of the values of
/// all columns of its layer at its index.
pub proof fn node_hash<H: MerkleHasher>(
    columns: Seq<Vec<Vec<BaseField>>>,
    log_size: nat,
    index: int,
    values: Seq<BaseField>,
)
    requires
        log_size < columns.len(),
        values.len() == columns[log_size as int]@.len(),
        forall|c: int|
            0 <= c < values.len() ==> #[trigger] values[c]
                == columns[log_size as int]@[c]@[index],
    ensures
        log_size + 1 == columns.len() ==> tree_hash::<H>(columns, log_size, index) == H::node(
            None,
            values,
        ),
        log_size + 1 < columns.len() ==> tree_hash::<H>(columns, log_size, index) == H::node(
            Some(
                (
                    tree_hash::<H>(columns, log_size + 1, 2 * index),
                    tree_hash::<H>(columns, log_size + 1, 2 * index + 1),
                ),
            ),
            values,
        ),
{
    assert(values_at(columns[log_size as int]@, index) =~= values);
}

/// The children of touched nodes that are not touched themselves, from left to right.
pub open spec fn missing(below: Seq<usize>, queries: Seq<usize>) -> Seq<int>
    decreases below.len() + queries.len(),
{
    if below.len() == 0 && queries.len() == 0 {
        seq![]
    } else {
        let node = next_node(below, queries);
        (if has_left(below, node) {
            seq![]
        } else {
            seq![2 * node as int]
        }) + (if has_right(below, node) {
            seq![]
        } else {
            seq![2 * node + 1]
        }) + missing(after_children(below, node), after_query(queries, node))
    }
}

/// The touched nodes that are not queried, from left to right.
pub open spec fn unasked(below: Seq<usize>, queries: Seq<usize>) -> Seq<usize>
    decreases below.len() + queries.len(),
{
    if below.len() == 0 && queries.len() == 0 {
        seq![]
    } else {
        let node = next_node(below, queries);
        (if is_queried(queries, node) {
            seq![]
        } else {
            seq![node]
        }) + unasked(after_children(below, node), after_query(queries, node))
    }
}

/// What is left behind a node lies behind it.
proof fn rest_behind(below: Seq<usize>, queries: Seq<usize>, low: int)
    requires
        increasing(below),
        increasing(queries),
        forall|i: int| 0 <= i < below.len() ==> 2 * low <= #[trigger] below[i],
        forall|i: int| 0 <= i < queries.len() ==> low <= #[trigger] queries[i],
        below.len() != 0 || queries.len() != 0,
    ensures
        ({
            let node = next_node(below, queries);
            let b = after_children(below, node);
            let q = after_query(queries, node);
            &&& low <= node
            &&& increasing(b)
            &&& increasing(q)
            &&& forall|i: int| 0 <= i < b.len() ==> 2 * (node + 1) <= #[trigger] b[i]
            &&& forall|i: int| 0 <= i < q.len() ==> node + 1 <= #[trigger] q[i]
            &&& forall|i: int| 0 <= i < below.len() ==> 2 * node <= #[trigger] below[i]
            &&& forall|i: int| 0 <= i < queries.len() ==> node <= #[trigger] queries[i]
        }),
{
    let node = next_node(below, queries);
    let b = after_children(below, node);
    let q = after_query(queries, node);
    let n = n_children(below, node);
    assert forall|i: int| 0 <= i < below.len() implies 2 * node <= #[trigger] below[i] by {
        if i > 0 {
            assert(below[0] < below[i]);
        }
    }
    assert forall|i: int| 0 <= i < queries.len() implies node <= #[trigger] queries[i] by {
        if i > 0 {
            assert(queries[0] < queries[i]);
        }
    }
    assert forall|i: int| 0 <= i < b.len() implies 2 * (node + 1) <= #[trigger] b[i] by {
        assert(b[i] == below[i + n]);
        if below.len() > 0 {
            assert(below[0] >= 2 * node);
            if n < 2 {
                assert(below[i + n] >= below[n]);
            }
        }
    }
    assert forall|i: int| 0 <= i < q.len() implies node + 1 <= #[trigger] q[i] by {
        if is_queried(queries, node) {
            assert(q[i] == queries[i + 1]);
        } else {
            assert(queries[i] >= queries[0]);
        }
    }
}

/// The missing children increase, and they are the children of touched nodes that are not among
/// the nodes touched below.
pub proof fn missing_children(below: Seq<usize>, queries: Seq<usize>, low: int)
    requires
        increasing(below),
        increasing(queries),
        forall|i: int| 0 <= i < below.len() ==> 2 * low <= #[trigger] below[i],
        forall|i: int| 0 <= i < queries.len() ==> low <= #[trigger] queries[i],
    ensures
        forall|i: int, j: int|
            0 <= i < j < missing(below, queries).len() ==> missing(below, queries)[i] < missing(
                below,
                queries,
            )[j],
        forall|j: int| #[trigger]
            missing(below, queries).contains(j) <==> (exists|k: int|
                0 <= k < walk(below, queries).len() && #[trigger] walk(below, queries)[k] == j / 2)
                && !(exists|i: int| 0 <= i < below.len() && #[trigger] below[i] == j),
        forall|i: int|
            0 <= i < missing(below, queries).len() ==> 2 * low <= #[trigger] missing(
                below,
                queries,
            )[i],
    decreases below.len() + queries.len(),
{
    let all = missing(below, queries);
    let w = walk(below, queries);
    if below.len() != 0 || queries.len() != 0 {
        let node = next_node(below, queries);
        let b = after_children(below, node);
        let q = after_query(queries, node);
        let n = n_children(below, node);
        rest_behind(below, queries, low);
        missing_children(b, q, node + 1);
        let bound = usize::MAX + 1;
        walk_in_order(b, q, node + 1, bound);
        let rest = missing(b, q);
        let rest_walk = walk(b, q);
        assert(w =~= seq![node] + rest_walk);
        let head: Seq<int> = (if has_left(below, node) {
            seq![]
        } else {
            seq![2 * node as int]
        }) + (if has_right(below, node) {
            seq![]
        } else {
            seq![2 * node + 1]
        });
        assert(all == head + rest);
        assert(has_left(below, node) <==> exists|i: int|
            0 <= i < below.len() && #[trigger] below[i] == 2 * node);
        assert(has_right(below, node) <==> exists|i: int|
            0 <= i < below.len() && #[trigger] below[i] == 2 * node + 1) by {
            if has_right(below, node) {
                if has_left(below, node) {
                    assert(below[1] == 2 * node + 1);
                } else {
                    assert(below[0] == 2 * node + 1);
                }
            } else {
                assert forall|i: int| 0 <= i < below.len() implies #[trigger] below[i] != 2 * node
                    + 1 by {
                    if has_left(below, node) {
                        if i > 1 {
                            assert(below[1] < below[i]);
                        }
                    } else if i > 0 {
                        assert(below[0] < below[i]);
                    }
                }
            }
        }
        assert forall|j: int| #[trigger] all.contains(j) <==> (exists|k: int|
            0 <= k < w.len() && #[trigger] w[k] == j / 2) && !(exists|i: int|
            0 <= i < below.len() && #[trigger] below[i] == j) by {
            if all.contains(j) {
                let m = choose|m: int| 0 <= m < all.len() && all[m] == j;
                if m < head.len() {
                    assert(j == head[m]);
                    assert(w[0] == j / 2);
                } else {
                    assert(rest[m - head.len()] == j);
                    assert(rest.contains(j));
                    let k = choose|k: int| 0 <= k < rest_walk.len() && rest_walk[k] == j / 2;
                    assert(w[k + 1] == j / 2);
                    assert forall|i: int| 0 <= i < below.len() implies #[trigger] below[i] != j by {
                        if i >= n {
                            assert(b[i - n] == below[i]);
                        }
                    }
                }
            }
            if (exists|k: int| 0 <= k < w.len() && #[trigger] w[k] == j / 2) && !(exists|i: int|
                0 <= i < below.len() && #[trigger] below[i] == j) {
                let k = choose|k: int| 0 <= k < w.len() && #[trigger] w[k] == j / 2;
                if k == 0 {
                    assert(j == 2 * node || j == 2 * node + 1);
                    if j == 2 * node {
                        assert(all[0] == j);
                    } else if has_left(below, node) {
                        assert(all[0] == j);
                    } else {
                        assert(all[1] == j);
                    }
                } else {
                    assert(rest_walk[k - 1] == j / 2);
                    assert forall|i: int| 0 <= i < b.len() implies #[trigger] b[i] != j by {
                        assert(below[i + n] == b[i]);
                    }
                    assert(rest.contains(j));
                    let m = choose|m: int| 0 <= m < rest.len() && rest[m] == j;
                    assert(all[head.len() + m] == j);
                }
            }
        }
        assert forall|i: int, j: int| 0 <= i < j < all.len() implies all[i] < all[j] by {
            if j >= head.len() {
                assert(all[j] == rest[j - head.len()]);
                if i >= head.len() {
                    assert(all[i] == rest[i - head.len()]);
                }
            }
        }
        assert forall|i: int| 0 <= i < all.len() implies 2 * low <= #[trigger] all[i] by {
            if i >= head.len() {
                assert(all[i] == rest[i - head.len()]);
            }
        }
    } else {
        assert(w.len() == 0);
    }
}

/// The touched nodes that are not queried increase, and they are just those.
pub proof fn unasked_nodes(below: Seq<usize>, queries: Seq<usize>, low: int)
    requires
        increasing(below),
        increasing(queries),
        forall|i: int| 0 <= i < below.len() ==> 2 * low <= #[trigger] below[i],
        forall|i: int| 0 <= i < queries.len() ==> low <= #[trigger] queries[i],
    ensures
        increasing(unasked(below, queries)),
        forall|x: usize| #[trigger]
            unasked(below, queries).contains(x) <==> walk(below, queries).contains(x)
                && !queries.contains(x),
        forall|i: int|
            0 <= i < unasked(below, queries).len() ==> low <= #[trigger] unasked(below, queries)[i],
    decreases below.len() + queries.len(),
{
    let all = unasked(below, queries);
    let w = walk(below, queries);
    if below.len() != 0 || queries.len() != 0 {
        let node = next_node(below, queries);
        let b = after_children(below, node);
        let q = after_query(queries, node);
        rest_behind(below, queries, low);
        unasked_nodes(b, q, node + 1);
        walk_in_order(b, q, node + 1, usize::MAX + 1);
        let rest = unasked(b, q);
        let rest_walk = walk(b, q);
        assert(w =~= seq![node] + rest_walk);
        let head: Seq<usize> = if is_queried(queries, node) {
            seq![]
        } else {
            seq![node]
        };
        assert(all == head + rest);
        assert forall|x: usize| #[trigger] all.contains(x) <==> w.contains(x)
            && !queries.contains(x) by {
            if all.contains(x) {
                let m = choose|m: int| 0 <= m < all.len() && all[m] == x;
                if m < head.len() {
                    assert(w[0] == x);
                    if queries.contains(x) {
                        let i = choose|i: int| 0 <= i < queries.len() && queries[i] == x;
                        if i > 0 {
                            assert(queries[0] < queries[i]);
                        }
                    }
                } else {
                    assert(rest[m - head.len()] == x);
                    assert(rest.contains(x));
                    let k = choose|k: int| 0 <= k < rest_walk.len() && rest_walk[k] == x;
                    assert(w[k + 1] == x);
                    if queries.contains(x) {
                        let i = choose|i: int| 0 <= i < queries.len() && queries[i] == x;
                        if is_queried(queries, node) {
                            if i > 0 {
                                assert(q[i - 1] == x);
                            }
                        } else {
                            assert(q[i] == x);
                        }
                    }
                }
            }
            if w.contains(x) && !queries.contains(x) {
                let k = choose|k: int| 0 <= k < w.len() && w[k] == x;
                if k == 0 {
                    if is_queried(queries, node) {
                        assert(queries[0] == x);
                    }
                    assert(all[0] == x);
                } else {
                    assert(rest_walk[k - 1] == x);
                    if q.contains(x) {
                        let i = choose|i: int| 0 <= i < q.len() && q[i] == x;
                        if is_queried(queries, node) {
                            assert(queries[i + 1] == x);
                        } else {
                            assert(queries[i] == x);
                        }
                    }
                    assert(rest.contains(x));
                    let m = choose|m: int| 0 <= m < rest.len() && rest[m] == x;
                    assert(all[head.len() + m] == x);
                }
            }
        }
        assert forall|i: int, j: int| 0 <= i < j < all.len() implies all[i] < all[j] by {
            if j >= head.len() {
                assert(all[j] == rest[j - head.len()]);
                if i >= head.len() {
                    assert(all[i] == rest[i - head.len()]);
                }
            }
        }
        assert forall|i: int| 0 <= i < all.len() implies low <= #[trigger] all[i] by {
            if i >= head.len() {
                assert(all[i] == rest[i - head.len()]);
            }
        }
    } else {
        assert(w.len() == 0);
    }
}

proof fn layer_witness<H: MerkleHasher>(
    columns: Seq<Vec<Vec<BaseField>>>,
    log_size: nat,
    below: Seq<usize>,
    queries: Seq<usize>,
)
    ensures
        ({
            let layer = columns[log_size as int]@;
            let here = layer_opening::<H>(columns, log_size, below, queries);
            let absent = missing(below, queries);
            let nodes = unasked(below, queries);
            &&& log_size + 1 >= columns.len() ==> here.hashes.len() == 0
            &&& log_size + 1 < columns.len() ==> here.hashes.len() == absent.len()
            &&& log_size + 1 < columns.len() ==> forall|k: int|
                0 <= k < absent.len() ==> #[trigger] here.hashes[k] == tree_hash::<H>(
                    columns,
                    log_size + 1,
                    absent[k],
                )
            &&& here.columns.len() == nodes.len() * layer.len()
            &&& forall|k: int, c: int|
                0 <= k < nodes.len() && 0 <= c < layer.len() ==> here.columns[k * layer.len() + c]
                    == #[trigger] layer[c]@[#[trigger] nodes[k] as int]
        }),
    decreases below.len() + queries.len(),
{
    let layer = columns[log_size as int]@;
    let n = layer.len() as int;
    let here = layer_opening::<H>(columns, log_size, below, queries);
    let absent = missing(below, queries);
    let nodes = unasked(below, queries);
    if below.len() == 0 && queries.len() == 0 {
        assert(nodes.len() * n == 0) by (nonlinear_arith)
            requires
                nodes.len() == 0,
        ;
    } else {
        let node = next_node(below, queries);
        let b = after_children(below, node);
        let q = after_query(queries, node);
        layer_witness::<H>(columns, log_size, b, q);
        let rest = layer_opening::<H>(columns, log_size, b, q);
        let rest_absent = missing(b, q);
        let rest_nodes = unasked(b, q);
        if log_size + 1 < columns.len() {
            let d = absent.len() - rest_absent.len();
            assert forall|k: int| 0 <= k < absent.len() implies #[trigger] here.hashes[k]
                == tree_hash::<H>(columns, log_size + 1, absent[k]) by {
                if k >= d {
                    assert(here.hashes[k] == rest.hashes[k - d]);
                    assert(absent[k] == rest_absent[k - d]);
                }
            }
        }
        if is_queried(queries, node) {
            assert(nodes =~= rest_nodes);
            assert(here.columns =~= rest.columns);
        } else {
            assert(rest_nodes.len() * n + n == nodes.len() * n) by (nonlinear_arith)
                requires
                    rest_nodes.len() == nodes.len() - 1,
            ;
            assert forall|k: int, c: int| 0 <= k < nodes.len() && 0 <= c < n implies here.columns[k
                * n + c] == #[trigger] layer[c]@[#[trigger] nodes[k] as int] by {
                if k == 0 {
                    assert(k * n + c == c) by (nonlinear_arith)
                        requires
                            k == 0,
                    ;
                } else {
                    assert(nodes[k] == rest_nodes[k - 1]);
                    assert(k * n + c == n + ((k - 1) * n + c)) by (nonlinear_arith);
                    assert(0 <= (k - 1) * n + c < rest_nodes.len() * n) by (nonlinear_arith)
                        requires
                            0 <= k - 1 < rest_nodes.len(),
                            0 <= c < n,
                    ;
                    assert(here.columns[n + ((k - 1) * n + c)] == rest.columns[(k - 1) * n + c]);
                    assert(layer[c]@[rest_nodes[k - 1] as int] == rest.columns[(k - 1) * n + c]);
                }
            }
        }
    }
}

/// The witness of an honest opening, layer by layer from the largest on: the hashes, from left to
/// right, of the children of touched nodes that are not touched themselves, and the values of all
/// columns at the touched nodes that are not queried.
pub proof fn honest_witness<H: MerkleHasher>(
    columns: Seq<Vec<Vec<BaseField>>>,
    queries: Seq<Vec<usize>>,
    l: nat,
    asked: Seq<usize>,
)
    requires
        l < columns.len(),
        l < queries.len() ==> asked == queries[l as int]@,
        l >= queries.len() ==> asked.len() == 0,
    ensures
        ({
            let below = touched(queries, columns.len(), l + 1);
            let absent = missing(below, asked);
            let nodes = unasked(below, asked);
            let first = opening::<H>(columns, queries, l + 1);
            let all = opening::<H>(columns, queries, l);
            let layer = columns[l as int]@;
            &&& l + 1 == columns.len() ==> all.hashes.len() == 0 && first.columns.len() == 0
            &&& l + 1 < columns.len() ==> all.hashes == first.hashes + Seq::new(
                absent.len(),
                |k: int| tree_hash::<H>(columns, l + 1, absent[k]),
            )
            &&& all.columns.len() == first.columns.len() + nodes.len() * layer.len()
            &&& all.columns.take(first.columns.len() as int) == first.columns
            &&& forall|k: int, c: int|
                0 <= k < nodes.len() && 0 <= c < layer.len() ==> all.columns[first.columns.len() + (
                k * layer.len() + c)] == #[trigger] layer[c]@[#[trigger] nodes[k] as int]
        }),
{
    let below = touched(queries, columns.len(), l + 1);
    assert(asked =~= layer_queries(queries, l as int));
    let absent = missing(below, asked);
    let nodes = unasked(below, asked);
    let first = opening::<H>(columns, queries, l + 1);
    let all = opening::<H>(columns, queries, l);
    let here = layer_opening::<H>(columns, l, below, asked);
    let layer = columns[l as int]@;
    let n = layer.len() as int;
    layer_witness::<H>(columns, l, below, asked);
    if l + 1 < columns.len() {
        assert(all.hashes =~= first.hashes + Seq::new(
            absent.len(),
            |k: int| tree_hash::<H>(columns, l + 1, absent[k]),
        ));
    }
    assert(all.columns.take(first.columns.len() as int) =~= first.columns);
    assert forall|k: int, c: int| 0 <= k < nodes.len() && 0 <= c < n implies all.columns[
    first.columns.len() + (k * n + c)] == #[trigger] layer[c]@[#[trigger] nodes[k] as int] by {
        assert(0 <= k * n + c < nodes.len() * n) by (nonlinear_arith)
            requires
                0 <= k < nodes.len(),
                0 <= c < n,
        ;
        assert(layer[c]@[nodes[k] as int] == here.columns[k * n + c]);
    }
}

/// In an opening to queries in order, the missing children of a layer are the children of touched
/// nodes that are not touched below, and the unasked nodes are the touched ones that are not
/// queried.
pub proof fn witness_places(
    queries: Seq<Vec<usize>>,
    n_layers: nat,
    l: nat,
    asked: Seq<usize>,
    j: int,
    x: usize,
)
    requires
        queries_in_order(queries, n_layers),
        l < n_layers,
        l < queries.len() ==> asked == queries[l as int]@,
        l >= queries.len() ==> asked.len() == 0,
    ensures
        ({
            let below = touched(queries, n_layers, l + 1);
            let here = touched(queries, n_layers, l);
            &&& missing(below, asked).contains(j) <==> (exists|k: int|
                0 <= k < here.len() && #[trigger] here[k] == j / 2) && !(exists|i: int|
                0 <= i < below.len() && #[trigger] below[i] == j)
            &&& unasked(below, asked).contains(x) <==> here.contains(x) && !asked.contains(x)
            &&& forall|a: int, b: int|
                0 <= a < b < unasked(below, asked).len() ==> unasked(below, asked)[a] < unasked(
                    below,
                    asked,
                )[b]
            &&& forall|a: int, b: int|
                0 <= a < b < missing(below, asked).len() ==> missing(below, asked)[a] < missing(
                    below,
                    asked,
                )[b]
        }),
{
    let below = touched(queries, n_layers, l + 1);
    assert(asked =~= layer_queries(queries, l as int));
    touched_in_order(queries, n_layers, l + 1);
    assert(increasing(layer_queries(queries, l as int)));
    missing_children(below, asked, 0);
    unasked_nodes(below, asked, 0);
    let here = touched(queries, n_layers, l);
    assert(here == walk(below, asked));
    let w = walk(below, asked);
    if missing(below, asked).contains(j) {
        let k = choose|k: int| 0 <= k < w.len() && #[trigger] w[k] == j / 2;
        assert(here[k] == j / 2);
    }
    if exists|k: int| 0 <= k < here.len() && #[trigger] here[k] == j / 2 {
        let k = choose|k: int| 0 <= k < here.len() && #[trigger] here[k] == j / 2;
        assert(w[k] == j / 2);
    }
    assert(unasked(below, asked).contains(x) <==> here.contains(x) && !asked.contains(x));
}

/// A collision between the checks of two openings is one of the hash function: two different
/// inputs of a node with the same hash.
pub proof fn collision_named<H: MerkleHasher>(
    n_columns: Seq<usize>,
    queries: Seq<Vec<usize>>,
    log_size: nat,
    u1: Unread<<H::Hash as View>::V>,
    u2: Unread<<H::Hash as View>::V>,
)
    requires
        checks_collide::<H>(n_columns, queries, log_size, u1, u2),
    ensures
        exists|a: NodeInput<<H::Hash as View>::V>, b: NodeInput<<H::Hash as View>::V>|
            a != b && #[trigger] H::node(a.0, a.1) == #[trigger] H::node(b.0, b.1),
    decreases n_columns.len() - log_size,
{
    if checks_collide::<H>(n_columns, queries, log_size + 1, u1, u2) {
        collision_named::<H>(n_columns, queries, log_size + 1, u1, u2);
    } else {
        match (
            read_tree::<H>(n_columns, queries, log_size + 1, u1),
            read_tree::<H>(n_columns, queries, log_size + 1, u2),
        ) {
            (Ok((h1, rest1)), Ok((h2, rest2))) => {
                layer_collision_named::<H>(
                    log_size + 1 == n_columns.len(),
                    touched(queries, n_columns.len(), log_size + 1),
                    layer_queries(queries, log_size as int),
                    n_columns[log_size as int] as int,
                    h1,
                    rest1,
                    h2,
                    rest2,
                );
            },
            _ => {},
        }
    }
}

proof fn layer_collision_named<H: MerkleHasher>(
    bottom: bool,
    below: Seq<usize>,
    queries: Seq<usize>,
    n_columns: int,
    h1: Seq<<H::Hash as View>::V>,
    u1: Unread<<H::Hash as View>::V>,
    h2: Seq<<H::Hash as View>::V>,
    u2: Unread<<H::Hash as View>::V>,
)
    requires
        layer_collides::<H>(bottom, below, queries, n_columns, h1, u1, h2, u2),
    ensures
        exists|a: NodeInput<<H::Hash as View>::V>, b: NodeInput<<H::Hash as View>::V>|
            a != b && #[trigger] H::node(a.0, a.1) == #[trigger] H::node(b.0, b.1),
    decreases below.len() + queries.len(),
{
    let node = next_node(below, queries);
    let n = n_children(below, node);
    match (
        read_input(bottom, below, h1, queries, n_columns, u1),
        read_input(bottom, below, h2, queries, n_columns, u2),
    ) {
        (Ok((first, rest1)), Ok((second, rest2))) => {
            if collide::<H>(first, second) {
                assert(first != second && H::node(first.0, first.1) == H::node(
                    second.0,
                    second.1,
                ));
            } else {
                layer_collision_named::<H>(
                    bottom,
                    after_children(below, node),
                    after_query(queries, node),
                    n_columns,
                    h1.skip(n),
                    rest1,
                    h2.skip(n),
                    rest2,
                );
            }
        },
        _ => {},
    }
}

/// The layers of a committed tree have the sizes of its columns, and each hash is that of its node.
pub proof fn committed_layer<H: MerkleHasher>(
    prover: MerkleProver<H>,
    columns: Seq<Vec<Vec<BaseField>>>,
    l: int,
    i: int,
)
    requires
        prover.commits(columns),
        0 <= l < columns.len(),
        0 <= i < pow2(l as nat),
    ensures
        prover.layers@.len() == columns.len(),
        prover.layers@[l]@.len() == pow2(l as nat),
        prover.layers@[l]@[i]@ == tree_hash::<H>(columns, l as nat, i),
{
    assert(is_layer::<H>(prover.layers@[l]@, columns, l as nat));
}

/// Columns can be committed to where each of layer `l` has `2^l` values and the last layer has a
/// column, and a verifier can check openings where the last layer has one.
pub proof fn given_by_layer<H: MerkleHasher>(
    columns: Seq<Vec<Vec<BaseField>>>,
    layer: Seq<Vec<BaseField>>,
    n: nat,
    v: MerkleVerifier<H>,
)
    requires
        columns.len() > 0,
        columns[columns.len() - 1]@.len() > 0,
        forall|l: int, c: int|
            0 <= l < columns.len() && 0 <= c < columns[l]@.len()
                ==> #[trigger] columns[l]@[c]@.len() == pow2(l as nat),
        forall|c: int| 0 <= c < layer.len() ==> n <= #[trigger] layer[c]@.len(),
        v.n_columns@.len() == 0 || v.n_columns@[v.n_columns@.len() - 1] > 0,
    ensures
        columns_in_order(columns),
        hold(layer, n),
        v.wf(),
{
}

/// An opening holds the hashes of its witness in order, its values, and the column values of its
/// witness.
pub proof fn opening_parts<H: MerkleHasher>(
    values: Seq<BaseField>,
    decommitment: MerkleDecommitment<H>,
    i: int,
)
    ensures
        opening_of(values, decommitment).hashes.len() == decommitment.hash_witness@.len(),
        0 <= i < decommitment.hash_witness@.len() ==> opening_of(values, decommitment).hashes[i]
            == decommitment.hash_witness@[i]@,
        opening_of(values, decommitment).values == values,
        opening_of(values, decommitment).columns == decommitment.column_witness@,
{
}

/// A tree without layers has nothing to check.
pub proof fn nothing_to_check<H: MerkleHasher>(
    root: <H::Hash as View>::V,
    n_columns: Seq<usize>,
    queries: Seq<Vec<usize>>,
    opening: Unread<<H::Hash as View>::V>,
)
    requires
        n_columns.len() == 0,
    ensures
        verdict::<H>(root, n_columns, queries, opening) is Ok,
{
}

/// The check of a node reads the hashes of its missing children before its column values, and a
/// shortage of either is named there: hashes and column values of the witness as a witness that is
/// too short, queried values as too few.
pub proof fn node_shortages<H: MerkleHasher>(
    bottom: bool,
    below: Seq<usize>,
    hashes: Seq<<H::Hash as View>::V>,
    queries: Seq<usize>,
    n_columns: int,
    unread: Unread<<H::Hash as View>::V>,
)
    requires
        n_columns >= 0,
        below.len() != 0 || queries.len() != 0,
    ensures
        ({
            let node = next_node(below, queries);
            let r = read_layer::<H>(bottom, below, hashes, queries, n_columns, unread);
            let absent = if bottom {
                0
            } else {
                2 - n_children(below, node)
            };
            let asked = queries.len() > 0 && queries[0] == node;
            &&& unread.hashes.len() < absent ==> r is Err && r->Err_0
                == MerkleVerificationError::WitnessTooShort
            &&& unread.hashes.len() >= absent && asked && unread.values.len() < n_columns
                ==> r is Err && r->Err_0 == MerkleVerificationError::TooFewQueriedValues
            &&& unread.hashes.len() >= absent && !asked && unread.columns.len() < n_columns
                ==> r is Err && r->Err_0 == MerkleVerificationError::WitnessTooShort
        }),
{
}

/// A shortage in the check of a layer ends the check of the tree: the layers above it change
/// nothing of the error.
pub proof fn first_shortage<H: MerkleHasher>(
    n_columns: Seq<usize>,
    queries: Seq<Vec<usize>>,
    log_size: nat,
    unread: Unread<<H::Hash as View>::V>,
)
    requires
        log_size < n_columns.len(),
        read_tree::<H>(n_columns, queries, log_size + 1, unread) is Err,
    ensures
        read_tree::<H>(n_columns, queries, log_size, unread) == read_tree::<H>(
            n_columns,
            queries,
            log_size + 1,
            unread,
        ),
{
}

/// What the check of a node hashes is what it reads: its column values from the front of the values
/// or of the witness, and its children from those computed or from the front of the hashes.
pub proof fn node_reads_all<H: MerkleHasher>(
    below: Seq<usize>,
    hashes: Seq<<H::Hash as View>::V>,
    queries: Seq<usize>,
    n_columns: int,
    unread: Unread<<H::Hash as View>::V>,
)
    requires
        n_columns >= 0,
        below.len() != 0 || queries.len() != 0,
        read_input(false, below, hashes, queries, n_columns, unread) is Ok,
    ensures
        ({
            let node = next_node(below, queries);
            let (input, rest) = read_input(
                false,
                below,
                hashes,
                queries,
                n_columns,
                unread,
            )->Ok_0;
            let asked = queries.len() > 0 && queries[0] == node;
            let children = input.0.unwrap();
            &&& input.0 is Some
            &&& input.1.len() == n_columns
            &&& asked ==> unread.values == input.1 + rest.values && unread.columns == rest.columns
            &&& !asked ==> unread.columns == input.1 + rest.columns && unread.values == rest.values
            &&& n_children(below, node) == 2 ==> children == (hashes[0], hashes[1])
                && unread.hashes == rest.hashes
            &&& n_children(below, node) == 1 && below[0] == 2 * node ==> children.0 == hashes[0]
                && unread.hashes == seq![children.1] + rest.hashes
            &&& n_children(below, node) == 1 && below[0] != 2 * node ==> children.1 == hashes[0]
                && unread.hashes == seq![children.0] + rest.hashes
            &&& n_children(below, node) == 0 ==> unread.hashes == seq![
                children.0,
                children.1,
            ] + rest.hashes
        }),
{
    let node = next_node(below, queries);
    let (input, rest) = read_input(false, below, hashes, queries, n_columns, unread)->Ok_0;
    if is_queried(queries, node) {
        assert(unread.values =~= input.1 + rest.values);
    } else {
        assert(unread.columns =~= input.1 + rest.columns);
    }
    let children = input.0.unwrap();
    if n_children(below, node) == 1 && has_left(below, node) {
        assert(unread.hashes =~= seq![children.1] + rest.hashes);
    } else if n_children(below, node) == 1 {
        assert(unread.hashes =~= seq![children.0] + rest.hashes);
    } else if n_children(below, node) == 0 {
        assert(unread.hashes =~= seq![children.0, children.1] + rest.hashes);
    }
}

/// What the check of a node of the bottom layer hashes is what it reads: column values alone.
pub proof fn bottom_node_reads_all<H: MerkleHasher>(
    hashes: Seq<<H::Hash as View>::V>,
    queries: Seq<usize>,
    n_columns: int,
    unread: Unread<<H::Hash as View>::V>,
)
    requires
        0 <= n_columns <= unread.values.len(),
        queries.len() > 0,
    ensures
        read_input(true, seq![], hashes, queries, n_columns, unread) == Ok::<
            (NodeInput<<H::Hash as View>::V>, Unread<<H::Hash as View>::V>),
            MerkleVerificationError,
        >(
            (
                (None, unread.values.take(n_columns)),
                Unread { values: unread.values.skip(n_columns), ..unread },
            ),
        ),
{
}

/// The check of a layer goes from node to node: behind a node that could be hashed, it fails as the
/// check of the nodes that are left does, and gives the hash in front of theirs.
pub proof fn layer_by_nodes<H: MerkleHasher>(
    bottom: bool,
    below: Seq<usize>,
    hashes: Seq<<H::Hash as View>::V>,
    queries: Seq<usize>,
    n_columns: int,
    unread: Unread<<H::Hash as View>::V>,
    left: Seq<usize>,
)
    requires
        below.len() != 0 || queries.len() != 0,
        read_input(bottom, below, hashes, queries, n_columns, unread) is Ok,
        queries.len() > 0 && queries[0] == next_node(below, queries) ==> left == queries.skip(1),
        queries.len() == 0 || queries[0] != next_node(below, queries) ==> left == queries,
    ensures
        ({
            let n = n_children(below, next_node(below, queries));
            let (input, rest) = read_input(
                bottom,
                below,
                hashes,
                queries,
                n_columns,
                unread,
            )->Ok_0;
            let all = read_layer::<H>(bottom, below, hashes, queries, n_columns, unread);
            let later = read_layer::<H>(
                bottom,
                below.skip(n),
                hashes.skip(n),
                left,
                n_columns,
                rest,
            );
            &&& later is Err ==> all is Err && all->Err_0 == later->Err_0
            &&& later matches Ok((r, end)) ==> all == Ok::<
                (Seq<<H::Hash as View>::V>, Unread<<H::Hash as View>::V>),
                MerkleVerificationError,
            >((seq![H::node(input.0, input.1)] + r, end))
        }),
{
}

/// The check of a tree goes from layer to layer, from the largest on: behind the larger layers, it
/// is that of the layer with its queries and its number of columns.
pub proof fn tree_by_layers<H: MerkleHasher>(
    n_columns: Seq<usize>,
    queries: Seq<Vec<usize>>,
    log_size: nat,
    unread: Unread<<H::Hash as View>::V>,
    asked: Seq<usize>,
)
    requires
        log_size < n_columns.len(),
        log_size < queries.len() ==> asked == queries[log_size as int]@,
        log_size >= queries.len() ==> asked.len() == 0,
        read_tree::<H>(n_columns, queries, log_size + 1, unread) is Ok,
    ensures
        ({
            let (hashes, rest) = read_tree::<H>(
                n_columns,
                queries,
                log_size + 1,
                unread,
            )->Ok_0;
            &&& log_size + 1 == n_columns.len() ==> rest == unread
            &&& read_tree::<H>(n_columns, queries, log_size, unread) == read_layer::<H>(
                log_size + 1 == n_columns.len(),
                touched(queries, n_columns.len(), log_size + 1),
                hashes,
                asked,
                n_columns[log_size as int] as int,
                rest,
            )
        }),
{
    assert(asked =~= layer_queries(queries, log_size as int));
}

/// The values of columns at an index are one of each, in order.
pub proof fn values_of_columns(columns: Seq<Vec<BaseField>>, index: int, c: int)
    requires
        0 <= c < columns.len(),
    ensures
        values_at(columns, index).len() == columns.len(),
        values_at(columns, index)[c] == columns[c]@[index],
{
}

} // verus!
