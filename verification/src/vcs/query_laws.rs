//! Laws of queries: which nodes they touch, and which values answer them.
use vstd::arithmetic::div_mod::lemma_div_denominator;
use vstd::arithmetic::power2::*;
use vstd::prelude::*;

use crate::fields::m31::BaseField;
use crate::vcs::opening::{verdict, Unread};
use crate::vcs::opening_laws::{
    accepted_openings_agree, checks_collide, counts, honest_opening_accepted, layer_need, need,
    verdict_by_size,
};
use crate::vcs::ops::MerkleHasher;
use crate::vcs::tree::{columns_in_order, layer_opening, opening, tree_hash};
use crate::vcs::walk::{
    after_children, after_query, is_queried, layer_queries, n_children, next_node,
    queries_in_order, touched, touched_in_order, walk,
};

verus! {

/// Queries are in order where those of each layer increase and name nodes of the layer, and there
/// is at least one.
pub proof fn in_order(queries: Seq<Vec<usize>>, n_layers: nat, at: int)
    requires
        forall|l: int, i: int, j: int|
            0 <= l < n_layers && l < queries.len() && 0 <= i < j < queries[l]@.len()
                ==> #[trigger] queries[l]@[i] < #[trigger] queries[l]@[j],
        forall|l: int, i: int|
            0 <= l < n_layers && l < queries.len() && 0 <= i < queries[l]@.len()
                ==> #[trigger] queries[l]@[i] < pow2(l as nat),
        0 <= at < n_layers,
        at < queries.len(),
        queries[at]@.len() > 0,
    ensures
        queries_in_order(queries, n_layers),
{
    assert(layer_queries(queries, at).len() > 0);
}

/// A walk touches the queries and the parents of the nodes below, and nothing else.
pub proof fn walk_touches(below: Seq<usize>, queries: Seq<usize>)
    ensures
        forall|i: int| 0 <= i < queries.len() ==> walk(below, queries).contains(queries[i]),
        forall|i: int| 0 <= i < below.len() ==> walk(below, queries).contains(below[i] / 2),
        forall|k: int|
            0 <= k < walk(below, queries).len() ==> queries.contains(walk(below, queries)[k])
                || exists|i: int|
                0 <= i < below.len() && #[trigger] below[i] / 2 == walk(below, queries)[k],
    decreases below.len() + queries.len(),
{
    if below.len() != 0 || queries.len() != 0 {
        let node = next_node(below, queries);
        let b = after_children(below, node);
        let q = after_query(queries, node);
        let n = n_children(below, node);
        let rest = walk(b, q);
        let all = walk(below, queries);
        walk_touches(b, q);
        assert(all =~= seq![node] + rest);
        assert(all[0] == node);
        assert forall|x: usize| rest.contains(x) implies all.contains(x) by {
            let k = choose|k: int| 0 <= k < rest.len() && rest[k] == x;
            assert(all[k + 1] == x);
        }
        assert forall|i: int| 0 <= i < queries.len() implies all.contains(queries[i]) by {
            if is_queried(queries, node) {
                if i > 0 {
                    assert(q[i - 1] == queries[i]);
                    assert(rest.contains(q[i - 1]));
                }
            } else {
                assert(rest.contains(q[i]));
            }
        }
        assert forall|i: int| 0 <= i < below.len() implies all.contains(below[i] / 2) by {
            if i >= n {
                assert(b[i - n] == below[i]);
                assert(rest.contains(b[i - n] / 2));
            } else {
                assert(below[i] / 2 == node);
            }
        }
        assert forall|k: int| 0 <= k < all.len() implies queries.contains(all[k]) || exists|i: int|
            0 <= i < below.len() && #[trigger] below[i] / 2 == all[k] by {
            if k == 0 {
                if queries.len() > 0 && queries[0] == node {
                } else {
                    assert(below[0] / 2 == node);
                }
            } else {
                assert(all[k] == rest[k - 1]);
                if q.contains(rest[k - 1]) {
                    let i = choose|i: int| 0 <= i < q.len() && q[i] == rest[k - 1];
                    if is_queried(queries, node) {
                        assert(queries[i + 1] == all[k]);
                    } else {
                        assert(queries[i] == all[k]);
                    }
                } else {
                    let i = choose|i: int| 0 <= i < b.len() && #[trigger] b[i] / 2 == rest[k - 1];
                    assert(below[i + n] == b[i]);
                }
            }
        }
    }
}

/// Whether `node` of the layer of size `2^log_size` lies above a query, or is one.
pub open spec fn above_a_query(
    queries: Seq<Vec<usize>>,
    n_layers: nat,
    log_size: nat,
    node: usize,
) -> bool {
    exists|l: int, i: int|
        log_size <= l < n_layers && l < queries.len() && 0 <= i < queries[l]@.len()
            && #[trigger] queries[l]@[i] as nat / pow2((l - log_size) as nat) == node
}

/// The nodes that queries touch in a layer are those above a query: every query of the layer
/// itself, and every ancestor in it of a query of a larger layer.
pub proof fn touched_above_queries(
    queries: Seq<Vec<usize>>,
    n_layers: nat,
    log_size: nat,
    node: usize,
)
    ensures
        touched(queries, n_layers, log_size).contains(node) <==> above_a_query(
            queries,
            n_layers,
            log_size,
            node,
        ),
    decreases n_layers - log_size,
{
    lemma2_to64();
    let here = touched(queries, n_layers, log_size);
    if log_size < n_layers {
        let below = touched(queries, n_layers, log_size + 1);
        let asked = layer_queries(queries, log_size as int);
        walk_touches(below, asked);
        if here.contains(node) {
            let k = choose|k: int| 0 <= k < here.len() && here[k] == node;
            if asked.contains(node) {
                let i = choose|i: int| 0 <= i < asked.len() && asked[i] == node;
                assert(queries[log_size as int]@[i] as nat / pow2(0) == node);
            } else {
                let i = choose|i: int| 0 <= i < below.len() && #[trigger] below[i] / 2 == here[k];
                let child = below[i];
                touched_above_queries(queries, n_layers, log_size + 1, child);
                assert(below.contains(child));
                let (l, j) = choose|l: int, j: int|
                    log_size + 1 <= l < n_layers && l < queries.len() && 0 <= j
                        < queries[l]@.len() && #[trigger] queries[l]@[j] as nat / pow2(
                        (l - (log_size + 1)) as nat,
                    ) == child;
                half_again(queries[l]@[j] as nat, (l - (log_size + 1)) as nat);
                assert(queries[l]@[j] as nat / pow2((l - log_size) as nat) == node);
            }
        }
        if above_a_query(queries, n_layers, log_size, node) {
            let (l, j) = choose|l: int, j: int|
                log_size <= l < n_layers && l < queries.len() && 0 <= j < queries[l]@.len()
                    && #[trigger] queries[l]@[j] as nat / pow2((l - log_size) as nat) == node;
            if l == log_size {
                assert((l - log_size) as nat == 0);
                assert(queries[l]@[j] as nat / pow2(0) == queries[l]@[j]);
                assert(asked[j] == node);
            } else {
                let m = (l - (log_size + 1)) as nat;
                let q = queries[l]@[j] as nat;
                half_again(q, m);
                lemma_pow2_pos(m);
                assert(q / pow2(m) <= q) by {
                    vstd::arithmetic::div_mod::lemma_div_is_ordered_by_denominator(
                        q as int,
                        1,
                        pow2(m) as int,
                    );
                }
                let child = (q / pow2(m)) as usize;
                assert(queries[l]@[j] as nat / pow2((l - (log_size + 1)) as nat) == child);
                touched_above_queries(queries, n_layers, log_size + 1, child);
                let k = choose|k: int| 0 <= k < below.len() && below[k] == child;
                assert(here.contains(below[k] / 2));
            }
        }
    } else {
        assert(!here.contains(node));
    }
}

/// Halving once more.
proof fn half_again(v: nat, m: nat)
    ensures
        v / pow2(m + 1) == v / pow2(m) / 2,
{
    lemma_pow2_pos(m);
    lemma2_to64();
    lemma_pow2_adds(m, 1);
    lemma_div_denominator(v as int, pow2(m) as int, 2);
}

/// The number of values that answer the queries to the layers of size `2^log_size` or more: one of
/// each column of the layer for each of its queries.
pub open spec fn n_answers(n_columns: Seq<usize>, queries: Seq<Vec<usize>>, log_size: nat) -> int
    decreases n_columns.len() - log_size,
{
    if log_size >= n_columns.len() {
        0
    } else {
        n_answers(n_columns, queries, log_size + 1) + (if log_size < queries.len() {
            queries[log_size as int]@.len() * n_columns[log_size as int]
        } else {
            0
        })
    }
}

proof fn layer_need_answers(bottom: bool, below: Seq<usize>, queries: Seq<usize>, n: int)
    ensures
        layer_need(bottom, below, queries, n).values == queries.len() * n,
    decreases below.len() + queries.len(),
{
    if below.len() == 0 && queries.len() == 0 {
        assert(queries.len() * n == 0) by (nonlinear_arith)
            requires
                queries.len() == 0,
        ;
    } else {
        let node = next_node(below, queries);
        let q = after_query(queries, node);
        layer_need_answers(bottom, after_children(below, node), q, n);
        if is_queried(queries, node) {
            assert(q.len() * n + n == queries.len() * n) by (nonlinear_arith)
                requires
                    q.len() == queries.len() - 1,
            ;
        }
    }
}

proof fn need_answers(n_columns: Seq<usize>, queries: Seq<Vec<usize>>, log_size: nat)
    ensures
        need(n_columns, queries, log_size).values == n_answers(n_columns, queries, log_size),
    decreases n_columns.len() - log_size,
{
    if log_size < n_columns.len() {
        need_answers(n_columns, queries, log_size + 1);
        let asked = layer_queries(queries, log_size as int);
        let n = n_columns[log_size as int] as int;
        layer_need_answers(
            log_size + 1 == n_columns.len(),
            touched(queries, n_columns.len(), log_size + 1),
            asked,
            n,
        );
        if log_size >= queries.len() {
            assert(asked.len() * n == 0) by (nonlinear_arith)
                requires
                    asked.len() == 0,
            ;
        }
    }
}

/// An accepted opening answers every query: it holds as many values as the queries to all layers
/// call for, and one that holds another number is refused.
pub proof fn accepted_opening_answers<H: MerkleHasher>(
    root: <H::Hash as View>::V,
    n_columns: Seq<usize>,
    queries: Seq<Vec<usize>>,
    opening: Unread<<H::Hash as View>::V>,
)
    requires
        n_columns.len() > 0,
    ensures
        verdict::<H>(root, n_columns, queries, opening) is Ok ==> opening.values.len() == n_answers(
            n_columns,
            queries,
            0,
        ),
        opening.values.len() < n_answers(n_columns, queries, 0) ==> verdict::<H>(
            root,
            n_columns,
            queries,
            opening,
        ) is Err,
{
    verdict_by_size::<H>(root, n_columns, queries, opening);
    need_answers(n_columns, queries, 0);
}

proof fn layer_answers<H: MerkleHasher>(
    columns: Seq<Vec<Vec<BaseField>>>,
    log_size: nat,
    below: Seq<usize>,
    queries: Seq<usize>,
)
    ensures
        ({
            let layer = columns[log_size as int]@;
            let values = layer_opening::<H>(columns, log_size, below, queries).values;
            &&& values.len() == queries.len() * layer.len()
            &&& forall|i: int, c: int|
                0 <= i < queries.len() && 0 <= c < layer.len() ==> values[i * layer.len() + c]
                    == #[trigger] layer[c]@[#[trigger] queries[i] as int]
        }),
    decreases below.len() + queries.len(),
{
    let layer = columns[log_size as int]@;
    let n = layer.len() as int;
    let values = layer_opening::<H>(columns, log_size, below, queries).values;
    if below.len() == 0 && queries.len() == 0 {
        assert(queries.len() * n == 0) by (nonlinear_arith)
            requires
                queries.len() == 0,
        ;
    } else {
        let node = next_node(below, queries);
        let q = after_query(queries, node);
        let b = after_children(below, node);
        let rest = layer_opening::<H>(columns, log_size, b, q).values;
        layer_answers::<H>(columns, log_size, b, q);
        if is_queried(queries, node) {
            assert(q.len() * n + n == queries.len() * n) by (nonlinear_arith)
                requires
                    q.len() == queries.len() - 1,
            ;
            assert(values.len() == n + rest.len());
            assert forall|i: int, c: int| 0 <= i < queries.len() && 0 <= c < n implies values[i * n
                + c] == #[trigger] layer[c]@[#[trigger] queries[i] as int] by {
                if i == 0 {
                    assert(i * n + c == c) by (nonlinear_arith)
                        requires
                            i == 0,
                    ;
                } else {
                    assert(queries[i] == q[i - 1]);
                    assert(i * n + c == n + ((i - 1) * n + c)) by (nonlinear_arith);
                    assert((i - 1) * n + c < q.len() * n) by (nonlinear_arith)
                        requires
                            i - 1 < q.len(),
                            0 <= c < n,
                    ;
                    assert(0 <= (i - 1) * n + c) by (nonlinear_arith)
                        requires
                            i >= 1,
                            0 <= c < n,
                    ;
                    assert(values[n + ((i - 1) * n + c)] == rest[(i - 1) * n + c]);
                    assert(layer[c]@[q[i - 1] as int] == rest[(i - 1) * n + c]);
                }
            }
        } else {
            assert(values =~= rest);
        }
    }
}

proof fn opening_answers<H: MerkleHasher>(
    columns: Seq<Vec<Vec<BaseField>>>,
    queries: Seq<Vec<usize>>,
    log_size: nat,
    top: nat,
)
    requires
        top <= log_size,
    ensures
        opening::<H>(columns, queries, log_size).values.len() == n_answers(
            counts(columns),
            queries,
            log_size,
        ),
        opening::<H>(columns, queries, log_size).values.is_prefix_of(
            opening::<H>(columns, queries, top).values,
        ),
    decreases columns.len() - log_size, log_size - top,
{
    if log_size < columns.len() {
        opening_answers::<H>(columns, queries, log_size + 1, log_size + 1);
        let below = touched(queries, columns.len(), log_size + 1);
        let asked = layer_queries(queries, log_size as int);
        layer_answers::<H>(columns, log_size, below, asked);
        if log_size >= queries.len() {
            assert(asked.len() * columns[log_size as int]@.len() == 0) by (nonlinear_arith)
                requires
                    asked.len() == 0,
            ;
        }
    }
    prefix_kept::<H>(columns, queries, log_size, top);
}

proof fn prefix_kept<H: MerkleHasher>(
    columns: Seq<Vec<Vec<BaseField>>>,
    queries: Seq<Vec<usize>>,
    log_size: nat,
    top: nat,
)
    requires
        top <= log_size,
    ensures
        opening::<H>(columns, queries, log_size).values.is_prefix_of(
            opening::<H>(columns, queries, top).values,
        ),
    decreases log_size - top,
{
    let short = opening::<H>(columns, queries, log_size).values;
    if top < log_size {
        prefix_kept::<H>(columns, queries, log_size, top + 1);
        let next = opening::<H>(columns, queries, top + 1).values;
        let long = opening::<H>(columns, queries, top).values;
        assert(next =~= long.subrange(0, next.len() as int));
        assert(short =~= long.subrange(0, short.len() as int));
    } else {
        assert(short =~= short.subrange(0, short.len() as int));
    }
}

/// An honest opening answers each query with the values of the columns there: layer by layer from
/// the largest on, query by query, column by column.
pub proof fn honest_answers<H: MerkleHasher>(
    columns: Seq<Vec<Vec<BaseField>>>,
    queries: Seq<Vec<usize>>,
    l: int,
    i: int,
    c: int,
)
    requires
        0 <= l < columns.len(),
        l < queries.len(),
        0 <= i < queries[l]@.len(),
        0 <= c < columns[l]@.len(),
    ensures
        opening::<H>(columns, queries, 0).values.len() == n_answers(counts(columns), queries, 0),
        ({
            let at = n_answers(counts(columns), queries, (l + 1) as nat) + i * columns[l]@.len()
                + c;
            &&& 0 <= at < opening::<H>(columns, queries, 0).values.len()
            &&& opening::<H>(columns, queries, 0).values[at]
                == columns[l]@[c]@[queries[l]@[i] as int]
        }),
{
    let n = columns[l]@.len() as int;
    let asked = queries[l]@;
    let below = touched(queries, columns.len(), (l + 1) as nat);
    let first = opening::<H>(columns, queries, (l + 1) as nat).values;
    let here = layer_opening::<H>(columns, l as nat, below, asked).values;
    let both = opening::<H>(columns, queries, l as nat).values;
    let all = opening::<H>(columns, queries, 0).values;
    opening_answers::<H>(columns, queries, 0, 0);
    opening_answers::<H>(columns, queries, (l + 1) as nat, 0);
    opening_answers::<H>(columns, queries, l as nat, 0);
    layer_answers::<H>(columns, l as nat, below, asked);
    assert(layer_queries(queries, l) == asked);
    assert(both =~= first + here);
    assert(i * n + c < asked.len() * n) by (nonlinear_arith)
        requires
            i < asked.len(),
            0 <= c < n,
    ;
    assert(0 <= i * n) by (nonlinear_arith)
        requires
            i >= 0,
            n >= 0,
    ;
    assert(columns[l]@[c]@[asked[i] as int] == here[i * n + c]);
    assert(both[first.len() + (i * n + c)] == here[i * n + c]);
    assert(both =~= all.subrange(0, both.len() as int));
    assert(all[first.len() + (i * n + c)] == both[first.len() + (i * n + c)]);
}

/// The values of an opening that is accepted under the root of a tree are those of its columns at
/// the queries, or else its check and that of the honest opening come upon a collision.
pub proof fn accepted_answers<H: MerkleHasher>(
    columns: Seq<Vec<Vec<BaseField>>>,
    queries: Seq<Vec<usize>>,
    accepted: Unread<<H::Hash as View>::V>,
    l: int,
    i: int,
    c: int,
)
    requires
        columns_in_order(columns),
        queries_in_order(queries, columns.len()),
        verdict::<H>(tree_hash::<H>(columns, 0, 0), counts(columns), queries, accepted) is Ok,
        0 <= l < columns.len(),
        l < queries.len(),
        0 <= i < queries[l]@.len(),
        0 <= c < columns[l]@.len(),
    ensures
        accepted.values[n_answers(counts(columns), queries, (l + 1) as nat) + i
            * columns[l]@.len() + c] == columns[l]@[c]@[queries[l]@[i] as int] || checks_collide::<
            H,
        >(counts(columns), queries, 0, accepted, opening::<H>(columns, queries, 0)),
{
    honest_opening_accepted::<H>(columns, queries);
    accepted_openings_agree::<H>(
        tree_hash::<H>(columns, 0, 0),
        counts(columns),
        queries,
        accepted,
        opening::<H>(columns, queries, 0),
    );
    honest_answers::<H>(columns, queries, l, i, c);
}

/// The nodes that queries in order touch in a layer come from left to right, each once, and are
/// nodes of the layer.
pub proof fn touched_from_left_to_right(
    queries: Seq<Vec<usize>>,
    n_layers: nat,
    log_size: nat,
    i: int,
    j: int,
)
    requires
        queries_in_order(queries, n_layers),
        log_size < n_layers,
        0 <= i < j < touched(queries, n_layers, log_size).len(),
    ensures
        touched(queries, n_layers, log_size)[i] < touched(queries, n_layers, log_size)[j],
        touched(queries, n_layers, log_size)[j] < pow2(log_size),
{
    touched_in_order(queries, n_layers, log_size);
}

} // verus!
