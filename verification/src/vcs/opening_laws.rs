//! Laws of Merkle openings: what an honest opening is answered, and what one of the wrong length
//! is.
use vstd::prelude::*;

use crate::fields::m31::BaseField;
use crate::vcs::opening::{
    read_children, read_input, read_layer, read_node, read_tree, verdict, MerkleVerificationError,
    NodeInput, Unread,
};
use crate::vcs::ops::MerkleHasher;
use crate::vcs::tree::{
    columns_in_order, join, layer_opening, node_opening, nothing, opening, tree_hash, values_at,
};
use crate::vcs::walk::{
    after_children, after_query, has_left, has_right, is_queried, layer_queries, n_children,
    next_node, queries_in_order, root_touched, touched, walk,
};

verus! {

/// How many hashes, queried values and column values of a witness there are.
pub struct Sizes {
    /// The number of hashes.
    pub hashes: int,
    /// The number of queried values.
    pub values: int,
    /// The number of column values of the witness.
    pub columns: int,
}

/// The sizes of the parts of an opening.
pub open spec fn sizes<V>(opening: Unread<V>) -> Sizes {
    Sizes {
        hashes: opening.hashes.len() as int,
        values: opening.values.len() as int,
        columns: opening.columns.len() as int,
    }
}

/// What the check of a node reads.
pub open spec fn node_need(
    bottom: bool,
    below: Seq<usize>,
    queries: Seq<usize>,
    node: usize,
    n_columns: int,
) -> Sizes {
    Sizes {
        hashes: if bottom {
            0
        } else {
            2 - n_children(below, node)
        },
        values: if is_queried(queries, node) {
            n_columns
        } else {
            0
        },
        columns: if is_queried(queries, node) {
            0
        } else {
            n_columns
        },
    }
}

/// Part by part, the sum of sizes.
pub open spec fn plus(first: Sizes, second: Sizes) -> Sizes {
    Sizes {
        hashes: first.hashes + second.hashes,
        values: first.values + second.values,
        columns: first.columns + second.columns,
    }
}

/// What the check of a layer reads.
pub open spec fn layer_need(
    bottom: bool,
    below: Seq<usize>,
    queries: Seq<usize>,
    n_columns: int,
) -> Sizes
    decreases below.len() + queries.len(),
{
    if below.len() == 0 && queries.len() == 0 {
        Sizes { hashes: 0, values: 0, columns: 0 }
    } else {
        let node = next_node(below, queries);
        plus(
            node_need(bottom, below, queries, node, n_columns),
            layer_need(bottom, after_children(below, node), after_query(queries, node), n_columns),
        )
    }
}

/// What the check of the layers of size `2^log_size` or more reads.
pub open spec fn need(n_columns: Seq<usize>, queries: Seq<Vec<usize>>, log_size: nat) -> Sizes
    decreases n_columns.len() - log_size,
{
    if log_size >= n_columns.len() {
        Sizes { hashes: 0, values: 0, columns: 0 }
    } else {
        plus(
            need(n_columns, queries, log_size + 1),
            layer_need(
                log_size + 1 == n_columns.len(),
                touched(queries, n_columns.len(), log_size + 1),
                layer_queries(queries, log_size as int),
                n_columns[log_size as int] as int,
            ),
        )
    }
}

/// Whether an opening of size `have` answers a need.
pub open spec fn enough(have: Sizes, need: Sizes) -> bool {
    have.hashes >= need.hashes && have.values >= need.values && have.columns >= need.columns
}

/// What is read of an opening, by size: the rest where there is enough, the witness being too
/// short where it alone is, and the queried values being too few where they alone are.
pub open spec fn read_by_size<T, V>(
    r: Result<(T, Unread<V>), MerkleVerificationError>,
    have: Sizes,
    need: Sizes,
) -> bool {
    &&& r is Ok <==> enough(have, need)
    &&& r matches Ok((_, rest)) ==> plus(sizes(rest), need) == have
    &&& r matches Err(e) ==> e == MerkleVerificationError::WitnessTooShort || e
        == MerkleVerificationError::TooFewQueriedValues
    &&& !enough(have, need) && have.values >= need.values ==> r->Err_0
        == MerkleVerificationError::WitnessTooShort
    &&& have.values < need.values && have.hashes >= need.hashes && have.columns >= need.columns
        ==> r->Err_0 == MerkleVerificationError::TooFewQueriedValues
}

proof fn node_by_size<H: MerkleHasher>(
    bottom: bool,
    below: Seq<usize>,
    hashes: Seq<<H::Hash as View>::V>,
    queries: Seq<usize>,
    n_columns: int,
    unread: Unread<<H::Hash as View>::V>,
)
    requires
        n_columns >= 0,
    ensures
        read_by_size(
            read_node::<H>(bottom, below, hashes, queries, n_columns, unread),
            sizes(unread),
            node_need(bottom, below, queries, next_node(below, queries), n_columns),
        ),
{
}

proof fn need_nonnegative(bottom: bool, below: Seq<usize>, queries: Seq<usize>, n_columns: int)
    requires
        n_columns >= 0,
    ensures
        layer_need(bottom, below, queries, n_columns).hashes >= 0,
        layer_need(bottom, below, queries, n_columns).values >= 0,
        layer_need(bottom, below, queries, n_columns).columns >= 0,
    decreases below.len() + queries.len(),
{
    if below.len() != 0 || queries.len() != 0 {
        let node = next_node(below, queries);
        need_nonnegative(
            bottom,
            after_children(below, node),
            after_query(queries, node),
            n_columns,
        );
    }
}

proof fn layer_by_size<H: MerkleHasher>(
    bottom: bool,
    below: Seq<usize>,
    hashes: Seq<<H::Hash as View>::V>,
    queries: Seq<usize>,
    n_columns: int,
    unread: Unread<<H::Hash as View>::V>,
)
    requires
        n_columns >= 0,
    ensures
        read_by_size(
            read_layer::<H>(bottom, below, hashes, queries, n_columns, unread),
            sizes(unread),
            layer_need(bottom, below, queries, n_columns),
        ),
    decreases below.len() + queries.len(),
{
    if below.len() != 0 || queries.len() != 0 {
        let node = next_node(below, queries);
        node_by_size::<H>(bottom, below, hashes, queries, n_columns, unread);
        need_nonnegative(
            bottom,
            after_children(below, node),
            after_query(queries, node),
            n_columns,
        );
        match read_node::<H>(bottom, below, hashes, queries, n_columns, unread) {
            Ok((_, rest)) => {
                layer_by_size::<H>(
                    bottom,
                    after_children(below, node),
                    hashes.skip(n_children(below, node)),
                    after_query(queries, node),
                    n_columns,
                    rest,
                );
            },
            Err(_) => {},
        }
    }
}

proof fn tree_by_size<H: MerkleHasher>(
    n_columns: Seq<usize>,
    queries: Seq<Vec<usize>>,
    log_size: nat,
    unread: Unread<<H::Hash as View>::V>,
)
    ensures
        read_by_size(
            read_tree::<H>(n_columns, queries, log_size, unread),
            sizes(unread),
            need(n_columns, queries, log_size),
        ),
    decreases n_columns.len() - log_size,
{
    if log_size < n_columns.len() {
        tree_by_size::<H>(n_columns, queries, log_size + 1, unread);
        let below = touched(queries, n_columns.len(), log_size + 1);
        let layer = layer_queries(queries, log_size as int);
        let bottom = log_size + 1 == n_columns.len();
        let n = n_columns[log_size as int] as int;
        need_nonnegative(bottom, below, layer, n);
        match read_tree::<H>(n_columns, queries, log_size + 1, unread) {
            Ok((hashes, rest)) => {
                layer_by_size::<H>(bottom, below, hashes, layer, n, rest);
            },
            Err(_) => {},
        }
    }
}

/// The verdict on an opening is settled by its sizes but for the comparison with the root: with
/// the sizes that the queries call for it is accepted or has the wrong root; a part that is too
/// long or too short is named, the parts that are too short first.
pub proof fn verdict_by_size<H: MerkleHasher>(
    root: <H::Hash as View>::V,
    n_columns: Seq<usize>,
    queries: Seq<Vec<usize>>,
    opening: Unread<<H::Hash as View>::V>,
)
    requires
        n_columns.len() > 0,
    ensures
        ({
            let verdict = verdict::<H>(root, n_columns, queries, opening);
            let have = sizes(opening);
            let need = need(n_columns, queries, 0);
            &&& have == need ==> verdict is Ok || verdict->Err_0
                == MerkleVerificationError::RootMismatch
            &&& have != need ==> verdict is Err && verdict->Err_0
                != MerkleVerificationError::RootMismatch
            &&& have.values >= need.values && (have.hashes < need.hashes || have.columns
                < need.columns) ==> verdict->Err_0 == MerkleVerificationError::WitnessTooShort
            &&& have.values < need.values && have.hashes >= need.hashes && have.columns
                >= need.columns ==> verdict->Err_0 == MerkleVerificationError::TooFewQueriedValues
            &&& enough(have, need) && have.hashes > need.hashes ==> verdict->Err_0
                == MerkleVerificationError::WitnessTooLong
            &&& enough(have, need) && have.hashes == need.hashes && have.values > need.values
                ==> verdict->Err_0 == MerkleVerificationError::TooManyQueriedValues
            &&& enough(have, need) && have.hashes == need.hashes && have.values == need.values
                && have.columns > need.columns ==> verdict->Err_0
                == MerkleVerificationError::WitnessTooLong
        }),
{
    tree_by_size::<H>(n_columns, queries, 0, opening);
}

/// The hashes of nodes of a layer.
pub open spec fn hashes_of<H: MerkleHasher>(
    columns: Seq<Vec<Vec<BaseField>>>,
    log_size: nat,
    nodes: Seq<usize>,
) -> Seq<<H::Hash as View>::V> {
    Seq::new(nodes.len(), |i: int| tree_hash::<H>(columns, log_size, nodes[i] as int))
}

/// The numbers of columns by layer.
pub open spec fn counts(columns: Seq<Vec<Vec<BaseField>>>) -> Seq<usize> {
    Seq::new(columns.len(), |l: int| columns[l].len())
}

proof fn node_accepted<H: MerkleHasher>(
    columns: Seq<Vec<Vec<BaseField>>>,
    log_size: nat,
    below: Seq<usize>,
    queries: Seq<usize>,
    rest: Unread<<H::Hash as View>::V>,
)
    requires
        log_size < columns.len(),
        log_size + 1 == columns.len() ==> below.len() == 0,
        below.len() != 0 || queries.len() != 0,
    ensures
        ({
            let node = next_node(below, queries);
            read_node::<H>(
                log_size + 1 == columns.len(),
                below,
                hashes_of::<H>(columns, log_size + 1, below),
                queries,
                columns[log_size as int]@.len() as int,
                join(node_opening::<H>(columns, log_size, below, queries, node), rest),
            ) == Ok::<
                (<H::Hash as View>::V, Unread<<H::Hash as View>::V>),
                MerkleVerificationError,
            >((tree_hash::<H>(columns, log_size, node as int), rest))
        }),
{
    let node = next_node(below, queries);
    let here = node_opening::<H>(columns, log_size, below, queries, node);
    let all = join(here, rest);
    let n = columns[log_size as int]@.len() as int;
    let values = values_at(columns[log_size as int]@, node as int);
    let hashes = hashes_of::<H>(columns, log_size + 1, below);
    if log_size + 1 != columns.len() {
        let left = tree_hash::<H>(columns, log_size + 1, 2 * node);
        let right = tree_hash::<H>(columns, log_size + 1, 2 * node + 1);
        let behind = Unread { hashes: rest.hashes, ..all };
        assert(read_children(below, hashes, node, all) == Ok::<
            (
                (<H::Hash as View>::V, <H::Hash as View>::V),
                Unread<<H::Hash as View>::V>,
            ),
            MerkleVerificationError,
        >(((left, right), behind))) by {
            if !has_left(below, node) && !has_right(below, node) {
                assert(all.hashes.skip(1).skip(1) =~= rest.hashes);
            } else if !has_left(below, node) || !has_right(below, node) {
                assert(all.hashes.skip(1) =~= rest.hashes);
            } else {
                assert(all.hashes =~= rest.hashes);
            }
        }
    } else {
        assert(all.hashes =~= rest.hashes);
    }
    if is_queried(queries, node) {
        assert(all.values.take(n) =~= values);
        assert(all.values.skip(n) =~= rest.values);
        assert(all.columns =~= rest.columns);
    } else {
        assert(all.columns.take(n) =~= values);
        assert(all.columns.skip(n) =~= rest.columns);
        assert(all.values =~= rest.values);
    }
}

proof fn layer_accepted<H: MerkleHasher>(
    columns: Seq<Vec<Vec<BaseField>>>,
    log_size: nat,
    below: Seq<usize>,
    queries: Seq<usize>,
    rest: Unread<<H::Hash as View>::V>,
)
    requires
        log_size < columns.len(),
        log_size + 1 == columns.len() ==> below.len() == 0,
    ensures
        read_layer::<H>(
            log_size + 1 == columns.len(),
            below,
            hashes_of::<H>(columns, log_size + 1, below),
            queries,
            columns[log_size as int]@.len() as int,
            join(layer_opening::<H>(columns, log_size, below, queries), rest),
        ) == Ok::<
            (Seq<<H::Hash as View>::V>, Unread<<H::Hash as View>::V>),
            MerkleVerificationError,
        >((hashes_of::<H>(columns, log_size, walk(below, queries)), rest)),
    decreases below.len() + queries.len(),
{
    if below.len() == 0 && queries.len() == 0 {
        assert(join(nothing(), rest) =~= rest);
        assert(hashes_of::<H>(columns, log_size, walk(below, queries)) =~= seq![]);
    } else {
        let node = next_node(below, queries);
        let here = node_opening::<H>(columns, log_size, below, queries, node);
        let b = after_children(below, node);
        let q = after_query(queries, node);
        let later = layer_opening::<H>(columns, log_size, b, q);
        assert(join(join(here, later), rest) =~= join(here, join(later, rest)));
        node_accepted::<H>(columns, log_size, below, queries, join(later, rest));
        layer_accepted::<H>(columns, log_size, b, q, rest);
        assert(hashes_of::<H>(columns, log_size + 1, below).skip(n_children(below, node))
            =~= hashes_of::<H>(columns, log_size + 1, b));
        assert(hashes_of::<H>(columns, log_size, walk(below, queries)) =~= seq![
            tree_hash::<H>(columns, log_size, node as int),
        ] + hashes_of::<H>(columns, log_size, walk(b, q)));
    }
}

proof fn tree_accepted<H: MerkleHasher>(
    columns: Seq<Vec<Vec<BaseField>>>,
    queries: Seq<Vec<usize>>,
    log_size: nat,
    rest: Unread<<H::Hash as View>::V>,
)
    ensures
        read_tree::<H>(
            counts(columns),
            queries,
            log_size,
            join(opening::<H>(columns, queries, log_size), rest),
        ) == Ok::<
            (Seq<<H::Hash as View>::V>, Unread<<H::Hash as View>::V>),
            MerkleVerificationError,
        >((hashes_of::<H>(columns, log_size, touched(queries, columns.len(), log_size)), rest)),
    decreases columns.len() - log_size,
{
    if log_size >= columns.len() {
        assert(join(nothing(), rest) =~= rest);
        assert(hashes_of::<H>(columns, log_size, touched(queries, columns.len(), log_size))
            =~= seq![]);
    } else {
        let first = opening::<H>(columns, queries, log_size + 1);
        let below = touched(queries, columns.len(), log_size + 1);
        let layer = layer_queries(queries, log_size as int);
        let here = layer_opening::<H>(columns, log_size, below, layer);
        assert(join(join(first, here), rest) =~= join(first, join(here, rest)));
        tree_accepted::<H>(columns, queries, log_size + 1, join(here, rest));
        layer_accepted::<H>(columns, log_size, below, layer, rest);
        assert(counts(columns)[log_size as int] == columns[log_size as int]@.len());
    }
}

/// The opening that the prover gives is accepted under the root of the tree.
pub proof fn honest_opening_accepted<H: MerkleHasher>(
    columns: Seq<Vec<Vec<BaseField>>>,
    queries: Seq<Vec<usize>>,
)
    requires
        columns_in_order(columns),
        queries_in_order(queries, columns.len()),
    ensures
        verdict::<H>(
            tree_hash::<H>(columns, 0, 0),
            counts(columns),
            queries,
            opening::<H>(columns, queries, 0),
        ) is Ok,
{
    let all = opening::<H>(columns, queries, 0);
    assert(join(all, nothing()) =~= all);
    tree_accepted::<H>(columns, queries, 0, nothing());
    root_touched(queries, columns.len());
}

/// The opening that the prover gives has the sizes that the queries call for.
pub proof fn honest_opening_sizes<H: MerkleHasher>(
    columns: Seq<Vec<Vec<BaseField>>>,
    queries: Seq<Vec<usize>>,
)
    requires
        columns_in_order(columns),
        queries_in_order(queries, columns.len()),
    ensures
        sizes(opening::<H>(columns, queries, 0)) == need(counts(columns), queries, 0),
{
    honest_opening_accepted::<H>(columns, queries);
    verdict_by_size::<H>(
        tree_hash::<H>(columns, 0, 0),
        counts(columns),
        queries,
        opening::<H>(columns, queries, 0),
    );
}

/// Whether two different inputs of a node have the same hash.
pub open spec fn collide<H: MerkleHasher>(
    first: NodeInput<<H::Hash as View>::V>,
    second: NodeInput<<H::Hash as View>::V>,
) -> bool {
    first != second && H::node(first.0, first.1) == H::node(second.0, second.1)
}

/// Whether the checks of two openings hash different inputs to the same hash at some node of a
/// layer, where `h1` and `h2` are the hashes of the layer below.
pub open spec fn layer_collides<H: MerkleHasher>(
    bottom: bool,
    below: Seq<usize>,
    queries: Seq<usize>,
    n_columns: int,
    h1: Seq<<H::Hash as View>::V>,
    u1: Unread<<H::Hash as View>::V>,
    h2: Seq<<H::Hash as View>::V>,
    u2: Unread<<H::Hash as View>::V>,
) -> bool
    decreases below.len() + queries.len(),
{
    if below.len() == 0 && queries.len() == 0 {
        false
    } else {
        let node = next_node(below, queries);
        let n = n_children(below, node);
        match (
            read_input(bottom, below, h1, queries, n_columns, u1),
            read_input(bottom, below, h2, queries, n_columns, u2),
        ) {
            (Ok((first, rest1)), Ok((second, rest2))) => collide::<H>(first, second)
                || layer_collides::<H>(
                bottom,
                after_children(below, node),
                after_query(queries, node),
                n_columns,
                h1.skip(n),
                rest1,
                h2.skip(n),
                rest2,
            ),
            _ => false,
        }
    }
}

/// Whether the checks of two openings hash different inputs to the same hash at some node of the
/// layers of size `2^log_size` or more.
pub open spec fn checks_collide<H: MerkleHasher>(
    n_columns: Seq<usize>,
    queries: Seq<Vec<usize>>,
    log_size: nat,
    u1: Unread<<H::Hash as View>::V>,
    u2: Unread<<H::Hash as View>::V>,
) -> bool
    decreases n_columns.len() - log_size,
{
    if log_size >= n_columns.len() {
        false
    } else {
        checks_collide::<H>(n_columns, queries, log_size + 1, u1, u2) || match (
            read_tree::<H>(n_columns, queries, log_size + 1, u1),
            read_tree::<H>(n_columns, queries, log_size + 1, u2),
        ) {
            (Ok((h1, rest1)), Ok((h2, rest2))) => layer_collides::<H>(
                log_size + 1 == n_columns.len(),
                touched(queries, n_columns.len(), log_size + 1),
                layer_queries(queries, log_size as int),
                n_columns[log_size as int] as int,
                h1,
                rest1,
                h2,
                rest2,
            ),
            _ => false,
        }
    }
}

/// What a node hashes settles what was read for it.
proof fn input_settles<V>(
    bottom: bool,
    below: Seq<usize>,
    queries: Seq<usize>,
    n_columns: int,
    h1: Seq<V>,
    u1: Unread<V>,
    h2: Seq<V>,
    u2: Unread<V>,
)
    requires
        n_columns >= 0,
        below.len() == h1.len() == h2.len(),
        bottom ==> below.len() == 0,
        read_input(bottom, below, h1, queries, n_columns, u1) is Ok,
        read_input(bottom, below, h1, queries, n_columns, u1) == read_input(
            bottom,
            below,
            h2,
            queries,
            n_columns,
            u2,
        ),
    ensures
        h1.take(n_children(below, next_node(below, queries))) == h2.take(
            n_children(below, next_node(below, queries)),
        ),
        u1 == u2,
{
    let node = next_node(below, queries);
    let queried = is_queried(queries, node);
    let n = n_children(below, node);
    if queried {
        assert(u1.values =~= u1.values.take(n_columns) + u1.values.skip(n_columns));
        assert(u2.values =~= u2.values.take(n_columns) + u2.values.skip(n_columns));
    } else {
        assert(u1.columns =~= u1.columns.take(n_columns) + u1.columns.skip(n_columns));
        assert(u2.columns =~= u2.columns.take(n_columns) + u2.columns.skip(n_columns));
    }
    if !bottom {
        if !has_left(below, node) {
            assert(u1.hashes =~= seq![u1.hashes[0]] + u1.hashes.skip(1));
            assert(u2.hashes =~= seq![u2.hashes[0]] + u2.hashes.skip(1));
            if !has_right(below, node) {
                let t1 = u1.hashes.skip(1);
                let t2 = u2.hashes.skip(1);
                assert(t1 =~= seq![t1[0]] + t1.skip(1));
                assert(t2 =~= seq![t2[0]] + t2.skip(1));
            }
        } else if !has_right(below, node) {
            assert(u1.hashes =~= seq![u1.hashes[0]] + u1.hashes.skip(1));
            assert(u2.hashes =~= seq![u2.hashes[0]] + u2.hashes.skip(1));
        }
    }
    assert(h1.take(n) =~= h2.take(n));
    assert(u1 =~= u2);
}

/// Without a collision, the hashes of a layer and what is left behind it settle what was read.
proof fn layer_settles<H: MerkleHasher>(
    bottom: bool,
    below: Seq<usize>,
    queries: Seq<usize>,
    n_columns: int,
    h1: Seq<<H::Hash as View>::V>,
    u1: Unread<<H::Hash as View>::V>,
    h2: Seq<<H::Hash as View>::V>,
    u2: Unread<<H::Hash as View>::V>,
)
    requires
        n_columns >= 0,
        below.len() == h1.len() == h2.len(),
        bottom ==> below.len() == 0,
        !layer_collides::<H>(bottom, below, queries, n_columns, h1, u1, h2, u2),
        read_layer::<H>(bottom, below, h1, queries, n_columns, u1) is Ok,
        read_layer::<H>(bottom, below, h1, queries, n_columns, u1) == read_layer::<H>(
            bottom,
            below,
            h2,
            queries,
            n_columns,
            u2,
        ),
    ensures
        h1 == h2,
        u1 == u2,
    decreases below.len() + queries.len(),
{
    if below.len() != 0 || queries.len() != 0 {
        let node = next_node(below, queries);
        let n = n_children(below, node);
        let (x1, rest1) = read_node::<H>(bottom, below, h1, queries, n_columns, u1)->Ok_0;
        let (x2, rest2) = read_node::<H>(bottom, below, h2, queries, n_columns, u2)->Ok_0;
        let b = after_children(below, node);
        let q = after_query(queries, node);
        let l1 = read_layer::<H>(bottom, b, h1.skip(n), q, n_columns, rest1)->Ok_0;
        let l2 = read_layer::<H>(bottom, b, h2.skip(n), q, n_columns, rest2)->Ok_0;
        assert((seq![x1] + l1.0)[0] == (seq![x2] + l2.0)[0]);
        assert((seq![x1] + l1.0).skip(1) =~= l1.0);
        assert((seq![x2] + l2.0).skip(1) =~= l2.0);
        layer_settles::<H>(bottom, b, q, n_columns, h1.skip(n), rest1, h2.skip(n), rest2);
        input_settles(bottom, below, queries, n_columns, h1, u1, h2, u2);
        assert(h1 =~= h1.take(n) + h1.skip(n));
        assert(h2 =~= h2.take(n) + h2.skip(n));
    }
}

/// There is a hash for each touched node.
proof fn layer_hashes_len<H: MerkleHasher>(
    bottom: bool,
    below: Seq<usize>,
    hashes: Seq<<H::Hash as View>::V>,
    queries: Seq<usize>,
    n_columns: int,
    unread: Unread<<H::Hash as View>::V>,
)
    ensures
        read_layer::<H>(bottom, below, hashes, queries, n_columns, unread) matches Ok((r, _))
            ==> r.len() == walk(below, queries).len(),
    decreases below.len() + queries.len(),
{
    if below.len() != 0 || queries.len() != 0 {
        let node = next_node(below, queries);
        match read_node::<H>(bottom, below, hashes, queries, n_columns, unread) {
            Ok((_, rest)) => {
                layer_hashes_len::<H>(
                    bottom,
                    after_children(below, node),
                    hashes.skip(n_children(below, node)),
                    after_query(queries, node),
                    n_columns,
                    rest,
                );
            },
            Err(_) => {},
        }
    }
}

proof fn tree_hashes_len<H: MerkleHasher>(
    n_columns: Seq<usize>,
    queries: Seq<Vec<usize>>,
    log_size: nat,
    unread: Unread<<H::Hash as View>::V>,
)
    ensures
        read_tree::<H>(n_columns, queries, log_size, unread) matches Ok((r, _)) ==> r.len()
            == touched(queries, n_columns.len(), log_size).len(),
{
    if log_size < n_columns.len() {
        match read_tree::<H>(n_columns, queries, log_size + 1, unread) {
            Ok((hashes, rest)) => {
                layer_hashes_len::<H>(
                    log_size + 1 == n_columns.len(),
                    touched(queries, n_columns.len(), log_size + 1),
                    hashes,
                    layer_queries(queries, log_size as int),
                    n_columns[log_size as int] as int,
                    rest,
                );
            },
            Err(_) => {},
        }
    }
}

proof fn tree_settles<H: MerkleHasher>(
    n_columns: Seq<usize>,
    queries: Seq<Vec<usize>>,
    log_size: nat,
    u1: Unread<<H::Hash as View>::V>,
    u2: Unread<<H::Hash as View>::V>,
)
    requires
        !checks_collide::<H>(n_columns, queries, log_size, u1, u2),
        read_tree::<H>(n_columns, queries, log_size, u1) is Ok,
        read_tree::<H>(n_columns, queries, log_size, u1) == read_tree::<H>(
            n_columns,
            queries,
            log_size,
            u2,
        ),
    ensures
        u1 == u2,
    decreases n_columns.len() - log_size,
{
    if log_size < n_columns.len() {
        tree_hashes_len::<H>(n_columns, queries, log_size + 1, u1);
        tree_hashes_len::<H>(n_columns, queries, log_size + 1, u2);
        let (h1, rest1) = read_tree::<H>(n_columns, queries, log_size + 1, u1)->Ok_0;
        let (h2, rest2) = read_tree::<H>(n_columns, queries, log_size + 1, u2)->Ok_0;
        layer_settles::<H>(
            log_size + 1 == n_columns.len(),
            touched(queries, n_columns.len(), log_size + 1),
            layer_queries(queries, log_size as int),
            n_columns[log_size as int] as int,
            h1,
            rest1,
            h2,
            rest2,
        );
        tree_settles::<H>(n_columns, queries, log_size + 1, u1, u2);
    }
}

/// Two openings that are accepted under one root for the same queries are the same, values and
/// witness, or else their checks come upon a collision: a node at which they hash different inputs
/// to the same hash.
pub proof fn accepted_openings_agree<H: MerkleHasher>(
    root: <H::Hash as View>::V,
    n_columns: Seq<usize>,
    queries: Seq<Vec<usize>>,
    first: Unread<<H::Hash as View>::V>,
    second: Unread<<H::Hash as View>::V>,
)
    requires
        n_columns.len() > 0,
        queries_in_order(queries, n_columns.len()),
        verdict::<H>(root, n_columns, queries, first) is Ok,
        verdict::<H>(root, n_columns, queries, second) is Ok,
    ensures
        first == second || checks_collide::<H>(n_columns, queries, 0, first, second),
{
    if !checks_collide::<H>(n_columns, queries, 0, first, second) {
        tree_hashes_len::<H>(n_columns, queries, 0, first);
        tree_hashes_len::<H>(n_columns, queries, 0, second);
        root_touched(queries, n_columns.len());
        let (h1, rest1) = read_tree::<H>(n_columns, queries, 0, first)->Ok_0;
        let (h2, rest2) = read_tree::<H>(n_columns, queries, 0, second)->Ok_0;
        assert(h1 =~= h2);
        assert(rest1 =~= rest2);
        tree_settles::<H>(n_columns, queries, 0, first, second);
    }
}

/// An opening that differs from the honest one in its values or its witness, but not in their
/// number, is refused for its root, or else its check and that of the honest one come upon a
/// collision.
pub proof fn changed_opening_refused<H: MerkleHasher>(
    columns: Seq<Vec<Vec<BaseField>>>,
    queries: Seq<Vec<usize>>,
    changed: Unread<<H::Hash as View>::V>,
)
    requires
        columns_in_order(columns),
        queries_in_order(queries, columns.len()),
        changed != opening::<H>(columns, queries, 0),
        sizes(changed) == sizes(opening::<H>(columns, queries, 0)),
    ensures
        verdict::<H>(tree_hash::<H>(columns, 0, 0), counts(columns), queries, changed) == Err::<
            (),
            MerkleVerificationError,
        >(MerkleVerificationError::RootMismatch) || checks_collide::<H>(
            counts(columns),
            queries,
            0,
            changed,
            opening::<H>(columns, queries, 0),
        ),
{
    let root = tree_hash::<H>(columns, 0, 0);
    honest_opening_accepted::<H>(columns, queries);
    honest_opening_sizes::<H>(columns, queries);
    verdict_by_size::<H>(root, counts(columns), queries, changed);
    if verdict::<H>(root, counts(columns), queries, changed) is Ok {
        accepted_openings_agree::<H>(
            root,
            counts(columns),
            queries,
            changed,
            opening::<H>(columns, queries, 0),
        );
    }
}

} // verus!
