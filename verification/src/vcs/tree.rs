//! Merkle trees over columns of field elements, and their openings.
//!
//! A layer holds a node for each index of the columns of its size. The columns are given by
//! layer: `columns[l]` are those of size `2^l`.
use vstd::arithmetic::power2::*;
use vstd::prelude::*;

use crate::fields::m31::BaseField;
use crate::vcs::opening::{
    computed_children, next_decommitment_node, opening_of, views, MerkleDecommitment, Unread,
};
use crate::vcs::ops::MerkleHasher;
use crate::vcs::walk::{
    after_children, after_query, has_left, has_right, is_queried, layer_queries, n_children,
    next_node, queries_in_order, touched, touched_in_order, walk,
};

verus! {

/// The values of columns at an index.
pub open spec fn values_at(columns: Seq<Vec<BaseField>>, index: int) -> Seq<BaseField> {
    Seq::new(columns.len(), |c: int| columns[c]@[index])
}

/// Whether each column has at least `n` values.
pub open spec fn hold(columns: Seq<Vec<BaseField>>, n: nat) -> bool {
    forall|c: int| 0 <= c < columns.len() ==> n <= #[trigger] columns[c]@.len()
}

/// Hashes the node at `index` of a layer: its children are at `2 * index` and `2 * index + 1` of
/// the layer below, where there is one.
pub fn layer_node<H: MerkleHasher>(
    index: usize,
    prev_layer: Option<&Vec<H::Hash>>,
    columns: &[Vec<BaseField>],
) -> (r: H::Hash)
    requires
        prev_layer is Some || columns@.len() > 0,
        prev_layer matches Some(layer) ==> 2 * index + 1 < layer@.len(),
        hold(columns@, (index + 1) as nat),
    ensures
        r@ == H::node(
            match prev_layer {
                Some(layer) => Some((layer@[2 * index]@, layer@[2 * index + 1]@)),
                None => None,
            },
            values_at(columns@, index as int),
        ),
{
    let values = collect_values(columns, index);
    match prev_layer {
        Some(layer) => {
            let end: usize = layer.len();
            assert(2 * index + 1 < end);
            H::hash_node(Some((layer[2 * index], layer[2 * index + 1])), values.as_slice())
        },
        None => H::hash_node(None, values.as_slice()),
    }
}

/// Collects the values of columns at an index.
fn collect_values(columns: &[Vec<BaseField>], index: usize) -> (r: Vec<BaseField>)
    requires
        hold(columns@, (index + 1) as nat),
    ensures
        r@ == values_at(columns@, index as int),
{
    let mut values: Vec<BaseField> = Vec::new();
    let mut c: usize = 0;
    while c < columns.len()
        invariant
            c <= columns@.len(),
            hold(columns@, (index + 1) as nat),
            values@ == values_at(columns@, index as int).take(c as int),
        decreases columns@.len() - c,
    {
        let column = &columns[c];
        assert(index < columns@[c as int]@.len());
        values.push(column[index]);
        c = c + 1;
        assert(values@ =~= values_at(columns@, index as int).take(c as int));
    }
    assert(values@ =~= values_at(columns@, index as int));
    values
}

/// Computes `2^log_size`.
pub fn layer_size(log_size: u32) -> (r: usize)
    requires
        pow2(log_size as nat) <= usize::MAX,
    ensures
        r == pow2(log_size as nat),
{
    let mut size: usize = 1;
    let mut i: u32 = 0;
    proof {
        lemma2_to64();
    }
    while i < log_size
        invariant
            i <= log_size,
            size == pow2(i as nat),
            pow2(log_size as nat) <= usize::MAX,
        decreases log_size - i,
    {
        proof {
            lemma_pow2_unfold((i + 1) as nat);
            if i + 1 < log_size {
                lemma_pow2_strictly_increases((i + 1) as nat, log_size as nat);
            }
        }
        size = size * 2;
        i = i + 1;
    }
    size
}

/// Hashes the nodes of the layer of size `2^log_size`.
pub fn commit_on_layer<H: MerkleHasher>(
    log_size: u32,
    prev_layer: Option<&Vec<H::Hash>>,
    columns: &[Vec<BaseField>],
) -> (r: Vec<H::Hash>)
    requires
        pow2(log_size as nat) <= usize::MAX,
        prev_layer is Some || columns@.len() > 0,
        prev_layer matches Some(layer) ==> 2 * pow2(log_size as nat) <= layer@.len(),
        hold(columns@, pow2(log_size as nat)),
    ensures
        r@.len() == pow2(log_size as nat),
        forall|i: int|
            #![trigger r@[i]]
            0 <= i < r@.len() ==> r@[i]@ == H::node(
                match prev_layer {
                    Some(layer) => Some((layer@[2 * i]@, layer@[2 * i + 1]@)),
                    None => None,
                },
                values_at(columns@, i),
            ),
{
    let size: usize = layer_size(log_size);
    let mut layer: Vec<H::Hash> = Vec::new();
    let mut index: usize = 0;
    while index < size
        invariant
            index <= size,
            size == pow2(log_size as nat),
            prev_layer is Some || columns@.len() > 0,
            prev_layer matches Some(layer) ==> 2 * pow2(log_size as nat) <= layer@.len(),
            hold(columns@, pow2(log_size as nat)),
            layer@.len() == index,
            forall|i: int|
                #![trigger layer@[i]]
                0 <= i < index ==> layer@[i]@ == H::node(
                    match prev_layer {
                        Some(layer) => Some((layer@[2 * i]@, layer@[2 * i + 1]@)),
                        None => None,
                    },
                    values_at(columns@, i),
                ),
        decreases size - index,
    {
        layer.push(layer_node::<H>(index, prev_layer, columns));
        index = index + 1;
    }
    layer
}

/// Whether columns are given by layer, the bottom layer being the largest that has one.
pub open spec fn columns_in_order(columns: Seq<Vec<Vec<BaseField>>>) -> bool {
    &&& columns.len() > 0
    &&& columns.last()@.len() > 0
    &&& forall|l: int, c: int|
        0 <= l < columns.len() && 0 <= c < columns[l]@.len()
            ==> #[trigger] columns[l]@[c]@.len() == pow2(l as nat)
}

/// The hash of the node at `index` of the layer of size `2^log_size`.
pub open spec fn tree_hash<H: MerkleHasher>(
    columns: Seq<Vec<Vec<BaseField>>>,
    log_size: nat,
    index: int,
) -> <H::Hash as View>::V
    decreases columns.len() - log_size,
{
    let values = values_at(columns[log_size as int]@, index);
    if log_size + 1 >= columns.len() {
        H::node(None, values)
    } else {
        H::node(
            Some(
                (
                    tree_hash::<H>(columns, log_size + 1, 2 * index),
                    tree_hash::<H>(columns, log_size + 1, 2 * index + 1),
                ),
            ),
            values,
        )
    }
}

/// Whether `layer` holds the hashes of the layer of size `2^log_size`.
pub open spec fn is_layer<H: MerkleHasher>(
    layer: Seq<H::Hash>,
    columns: Seq<Vec<Vec<BaseField>>>,
    log_size: nat,
) -> bool {
    &&& layer.len() == pow2(log_size)
    &&& forall|i: int|
        0 <= i < layer.len() ==> (#[trigger] layer[i])@ == tree_hash::<H>(columns, log_size, i)
}

/// The layers of a Merkle tree.
pub struct MerkleProver<H: MerkleHasher> {
    /// `layers[l]` are the hashes of the layer of size `2^l`.
    pub layers: Vec<Vec<H::Hash>>,
}

impl<H: MerkleHasher> MerkleProver<H> {
    /// Whether these are the layers of the tree over `columns`.
    pub open spec fn commits(self, columns: Seq<Vec<Vec<BaseField>>>) -> bool {
        &&& self.layers@.len() == columns.len()
        &&& forall|l: int|
            0 <= l < columns.len() ==> is_layer::<H>(
                #[trigger] self.layers@[l]@,
                columns,
                l as nat,
            )
    }

    /// Commits to columns.
    pub fn commit(columns: &Vec<Vec<Vec<BaseField>>>) -> (r: MerkleProver<H>)
        requires
            columns_in_order(columns@),
        ensures
            r.commits(columns@),
    {
        let n_layers: usize = columns.len();
        let mut layers: Vec<Vec<H::Hash>> = Vec::new();
        let mut log_size: usize = n_layers;
        proof {
            let bottom = columns@.last();
            assert(bottom@[0]@.len() == pow2((n_layers - 1) as nat));
        }
        let bottom: usize = columns[n_layers - 1][0].len();
        while log_size > 0
            invariant
                log_size <= n_layers == columns@.len(),
                columns_in_order(columns@),
                layers@.len() == n_layers - log_size,
                pow2((n_layers - 1) as nat) == bottom,
                forall|k: int|
                    0 <= k < layers@.len() ==> is_layer::<H>(
                        #[trigger] layers@[k]@,
                        columns@,
                        (log_size + k) as nat,
                    ),
            decreases log_size,
        {
            let ghost below = layers@;
            log_size = log_size - 1;
            proof {
                if log_size < n_layers - 1 {
                    lemma_pow2_strictly_increases(log_size as nat, (n_layers - 1) as nat);
                }
                lemma_pow2_unfold((log_size + 1) as nat);
                if log_size + 1 < n_layers {
                    assert(is_layer::<H>(below[0]@, columns@, (log_size + 1) as nat));
                }
                assert(log_size <= u32::MAX) by {
                    log_size_small(log_size as nat);
                }
            }
            let prev_layer = if log_size + 1 < n_layers {
                Some(&layers[0])
            } else {
                None
            };
            let layer = commit_on_layer::<H>(
                log_size as u32,
                prev_layer,
                columns[log_size].as_slice(),
            );
            assert(is_layer::<H>(layer@, columns@, log_size as nat));
            layers.insert(0, layer);
            assert forall|k: int| 0 <= k < layers@.len() implies is_layer::<H>(
                #[trigger] layers@[k]@,
                columns@,
                (log_size + k) as nat,
            ) by {
                if k > 0 {
                    assert(layers@[k] == below[k - 1]);
                }
            }
        }
        MerkleProver { layers }
    }

    /// The root of the tree.
    pub fn root(&self) -> (r: H::Hash)
        requires
            self.layers@.len() > 0,
            self.layers@[0]@.len() > 0,
        ensures
            r == self.layers@[0]@[0],
            forall|columns: Seq<Vec<Vec<BaseField>>>| #[trigger]
                self.commits(columns) ==> r@ == tree_hash::<H>(columns, 0, 0),
    {
        assert forall|columns: Seq<Vec<Vec<BaseField>>>| #[trigger]
            self.commits(columns) implies self.layers@[0]@[0]@ == tree_hash::<H>(
            columns,
            0,
            0,
        ) by {
            assert(is_layer::<H>(self.layers@[0]@, columns, 0));
        }
        self.layers[0][0]
    }

    /// Opens the tree over `columns` at the queries: the queried values, and what else the check
    /// against the root needs.
    pub fn decommit(
        &self,
        queries: &Vec<Vec<usize>>,
        columns: &Vec<Vec<Vec<BaseField>>>,
    ) -> (r: (Vec<BaseField>, MerkleDecommitment<H>))
        requires
            columns_in_order(columns@),
            self.commits(columns@),
            queries_in_order(queries@, columns@.len()),
        ensures
            opening_of(r.0@, r.1) == opening::<H>(columns@, queries@, 0),
    {
        let n_layers: usize = columns.len();
        let no_queries: Vec<usize> = Vec::new();
        let mut values: Vec<BaseField> = Vec::new();
        let mut decommitment = MerkleDecommitment::<H> {
            hash_witness: Vec::new(),
            column_witness: Vec::new(),
        };
        let mut nodes: Vec<usize> = Vec::new();
        let mut log_size: usize = n_layers;
        assert(opening_of(values@, decommitment) =~= opening::<H>(
            columns@,
            queries@,
            n_layers as nat,
        ));
        while log_size > 0
            invariant
                log_size <= n_layers == columns@.len(),
                columns_in_order(columns@),
                self.commits(columns@),
                queries_in_order(queries@, columns@.len()),
                no_queries@.len() == 0,
                nodes@ == touched(queries@, n_layers as nat, log_size as nat),
                opening_of(values@, decommitment) == opening::<H>(
                    columns@,
                    queries@,
                    log_size as nat,
                ),
            decreases log_size,
        {
            log_size = log_size - 1;
            let queried: &[usize] = if log_size < queries.len() {
                queries[log_size].as_slice()
            } else {
                no_queries.as_slice()
            };
            assert(queried@ =~= layer_queries(queries@, log_size as int));
            let prev_layer = if log_size + 1 < n_layers {
                Some(&self.layers[log_size + 1])
            } else {
                None
            };
            proof {
                touched_in_order(queries@, n_layers as nat, log_size as nat);
                if log_size + 1 < n_layers {
                    assert(is_layer::<H>(
                        self.layers@[log_size + 1]@,
                        columns@,
                        (log_size + 1) as nat,
                    ));
                }
            }
            nodes =
            decommit_layer::<H>(
                log_size,
                prev_layer,
                columns,
                &nodes,
                queried,
                &mut values,
                &mut decommitment,
            );
        }
        (values, decommitment)
    }
}

/// Nothing to read.
pub open spec fn nothing<V>() -> Unread<V> {
    Unread { hashes: seq![], values: seq![], columns: seq![] }
}

/// `first`, then `second`.
pub open spec fn join<V>(first: Unread<V>, second: Unread<V>) -> Unread<V> {
    Unread {
        hashes: first.hashes + second.hashes,
        values: first.values + second.values,
        columns: first.columns + second.columns,
    }
}

/// The part of an opening that belongs to `node`, where `below` are the touched nodes of the layer
/// below that are left: the hashes of the children that are not among them, and the column values.
pub open spec fn node_opening<H: MerkleHasher>(
    columns: Seq<Vec<Vec<BaseField>>>,
    log_size: nat,
    below: Seq<usize>,
    queries: Seq<usize>,
    node: usize,
) -> Unread<<H::Hash as View>::V> {
    let values = values_at(columns[log_size as int]@, node as int);
    let left = tree_hash::<H>(columns, log_size + 1, 2 * node);
    let right = tree_hash::<H>(columns, log_size + 1, 2 * node + 1);
    Unread {
        hashes: if log_size + 1 >= columns.len() {
            seq![]
        } else {
            (if has_left(below, node) {
                seq![]
            } else {
                seq![left]
            }) + (if has_right(below, node) {
                seq![]
            } else {
                seq![right]
            })
        },
        values: if is_queried(queries, node) {
            values
        } else {
            seq![]
        },
        columns: if is_queried(queries, node) {
            seq![]
        } else {
            values
        },
    }
}

/// The part of an opening that belongs to the layer of size `2^log_size`.
pub open spec fn layer_opening<H: MerkleHasher>(
    columns: Seq<Vec<Vec<BaseField>>>,
    log_size: nat,
    below: Seq<usize>,
    queries: Seq<usize>,
) -> Unread<<H::Hash as View>::V>
    decreases below.len() + queries.len(),
{
    if below.len() == 0 && queries.len() == 0 {
        nothing()
    } else {
        let node = next_node(below, queries);
        join(
            node_opening::<H>(columns, log_size, below, queries, node),
            layer_opening::<H>(
                columns,
                log_size,
                after_children(below, node),
                after_query(queries, node),
            ),
        )
    }
}

/// The part of an opening that belongs to the layers of size `2^log_size` or more, from the
/// largest on.
pub open spec fn opening<H: MerkleHasher>(
    columns: Seq<Vec<Vec<BaseField>>>,
    queries: Seq<Vec<usize>>,
    log_size: nat,
) -> Unread<<H::Hash as View>::V>
    decreases columns.len() - log_size,
{
    if log_size >= columns.len() {
        nothing()
    } else {
        join(
            opening::<H>(columns, queries, log_size + 1),
            layer_opening::<H>(
                columns,
                log_size,
                touched(queries, columns.len(), log_size + 1),
                layer_queries(queries, log_size as int),
            ),
        )
    }
}

/// Appends to an opening what belongs to `node`, the next one to touch, and finds the place in
/// `below` behind its children.
fn decommit_node<H: MerkleHasher>(
    log_size: usize,
    prev_layer: Option<&Vec<H::Hash>>,
    columns: &Vec<Vec<Vec<BaseField>>>,
    below: &Vec<usize>,
    at: usize,
    queried: bool,
    node: usize,
    values: &mut Vec<BaseField>,
    decommitment: &mut MerkleDecommitment<H>,
) -> (r: usize)
    requires
        log_size < columns@.len(),
        columns_in_order(columns@),
        at <= below@.len(),
        node < pow2(log_size as nat),
        log_size + 1 < columns@.len() <==> prev_layer is Some,
        prev_layer matches Some(layer) ==> is_layer::<H>(
            layer@,
            columns@,
            (log_size + 1) as nat,
        ),
        prev_layer is None ==> below@.len() == 0,
    ensures
        r == at + n_children(below@.skip(at as int), node),
        r <= below@.len(),
        forall|queries: Seq<usize>|
            is_queried(queries, node) == queried ==> opening_of(
                final(values)@,
                *final(decommitment),
            ) == join(
                opening_of(old(values)@, *old(decommitment)),
                #[trigger] node_opening::<H>(
                    columns@,
                    log_size as nat,
                    below@.skip(at as int),
                    queries,
                    node,
                ),
            ),
{
    let mut behind: usize = at;
    let ghost before = views(decommitment.hash_witness@);
    if let Some(layer) = prev_layer {
        let size: usize = layer.len();
        proof {
            lemma_pow2_unfold((log_size + 1) as nat);
        }
        assert(2 * node + 1 < size);
        let (left, right, end) = computed_children(below, at, node);
        behind = end;
        if !left {
            decommitment.hash_witness.push(layer[2 * node]);
        }
        if !right {
            decommitment.hash_witness.push(layer[2 * node + 1]);
        }
    }
    let ghost added = if prev_layer is None {
        seq![]
    } else {
        (if has_left(below@.skip(at as int), node) {
            seq![]
        } else {
            seq![tree_hash::<H>(columns@, (log_size + 1) as nat, 2 * node)]
        }) + (if has_right(below@.skip(at as int), node) {
            seq![]
        } else {
            seq![tree_hash::<H>(columns@, (log_size + 1) as nat, 2 * node + 1)]
        })
    };
    assert(views(decommitment.hash_witness@) =~= before + added);
    let mut node_values = collect_values(columns[log_size].as_slice(), node);
    if queried {
        values.append(&mut node_values);
    } else {
        decommitment.column_witness.append(&mut node_values);
    }
    assert forall|queries: Seq<usize>| is_queried(queries, node) == queried implies opening_of(
        values@,
        *decommitment,
    ) =~= join(
        opening_of(old(values)@, *old(decommitment)),
        #[trigger] node_opening::<H>(
            columns@,
            log_size as nat,
            below@.skip(at as int),
            queries,
            node,
        ),
    ) by {}
    behind
}

/// Appends to an opening what belongs to a layer, and gives the touched nodes of the layer.
fn decommit_layer<H: MerkleHasher>(
    log_size: usize,
    prev_layer: Option<&Vec<H::Hash>>,
    columns: &Vec<Vec<Vec<BaseField>>>,
    below: &Vec<usize>,
    queries: &[usize],
    values: &mut Vec<BaseField>,
    decommitment: &mut MerkleDecommitment<H>,
) -> (r: Vec<usize>)
    requires
        log_size < columns@.len(),
        columns_in_order(columns@),
        log_size + 1 < columns@.len() <==> prev_layer is Some,
        prev_layer matches Some(layer) ==> is_layer::<H>(
            layer@,
            columns@,
            (log_size + 1) as nat,
        ),
        prev_layer is None ==> below@.len() == 0,
        forall|i: int|
            0 <= i < walk(below@, queries@).len() ==> #[trigger] walk(below@, queries@)[i] < pow2(
                log_size as nat,
            ),
    ensures
        r@ == walk(below@, queries@),
        opening_of(final(values)@, *final(decommitment)) == join(
            opening_of(old(values)@, *old(decommitment)),
            layer_opening::<H>(columns@, log_size as nat, below@, queries@),
        ),
{
    let ghost whole = join(
        opening_of(values@, *decommitment),
        layer_opening::<H>(columns@, log_size as nat, below@, queries@),
    );
    let mut nodes: Vec<usize> = Vec::new();
    let mut at: usize = 0;
    let mut asked: usize = 0;
    proof {
        assert(below@.skip(0) =~= below@);
        assert(queries@.skip(0) =~= queries@);
        assert(nodes@ + walk(below@, queries@) =~= walk(below@, queries@));
    }
    loop
        invariant
            log_size < columns@.len(),
            columns_in_order(columns@),
            log_size + 1 < columns@.len() <==> prev_layer is Some,
            prev_layer matches Some(layer) ==> is_layer::<H>(
                layer@,
                columns@,
                (log_size + 1) as nat,
            ),
            prev_layer is None ==> below@.len() == 0,
            forall|i: int|
                0 <= i < walk(below@, queries@).len() ==> #[trigger] walk(below@, queries@)[i]
                    < pow2(log_size as nat),
            at <= below@.len(),
            asked <= queries@.len(),
            walk(below@, queries@) == nodes@ + walk(
                below@.skip(at as int),
                queries@.skip(asked as int),
            ),
            whole == join(
                opening_of(old(values)@, *old(decommitment)),
                layer_opening::<H>(columns@, log_size as nat, below@, queries@),
            ),
            whole == join(
                opening_of(values@, *decommitment),
                layer_opening::<H>(
                    columns@,
                    log_size as nat,
                    below@.skip(at as int),
                    queries@.skip(asked as int),
                ),
            ),
        decreases below@.len() - at + queries@.len() - asked,
    {
        let ghost b = below@.skip(at as int);
        let ghost q = queries@.skip(asked as int);
        let ghost before = opening_of(values@, *decommitment);
        let node = match next_decommitment_node(below, at, queries, asked) {
            Some(node) => node,
            None => {
                assert(nodes@ + walk(b, q) =~= nodes@);
                assert(join(before, nothing()) =~= before);
                return nodes;
            },
        };
        let ghost rest = walk(after_children(b, node), after_query(q, node));
        proof {
            assert(walk(b, q) == seq![node] + rest);
            assert(walk(below@, queries@)[nodes@.len() as int] == node);
        }
        let queried = asked < queries.len() && queries[asked] == node;
        let behind = decommit_node::<H>(
            log_size,
            prev_layer,
            columns,
            below,
            at,
            queried,
            node,
            values,
            decommitment,
        );
        proof {
            assert(nodes@ + (seq![node] + rest) =~= nodes@.push(node) + rest);
            assert(after_children(b, node) =~= below@.skip(behind as int));
            let here = node_opening::<H>(columns@, log_size as nat, b, q, node);
            let later = layer_opening::<H>(
                columns@,
                log_size as nat,
                after_children(b, node),
                after_query(q, node),
            );
            assert(join(before, join(here, later)) =~= join(join(before, here), later));
        }
        nodes.push(node);
        at = behind;
        if queried {
            assert(after_query(q, node) =~= queries@.skip(asked + 1));
            asked = asked + 1;
        }
    }
}

/// A layer whose size fits in memory has a small number.
proof fn log_size_small(log_size: nat)
    requires
        pow2(log_size) <= usize::MAX,
    ensures
        log_size <= u32::MAX,
{
    if log_size > 64 {
        lemma_pow2_strictly_increases(64, log_size);
    }
    lemma2_to64();
}

} // verus!
