//! Checking openings of a Merkle tree against its root.
use vstd::prelude::*;

use crate::fields::m31::BaseField;
use crate::vcs::ops::MerkleHasher;
use crate::vcs::walk::{
    after_children, after_left, after_query, has_left, has_right, is_queried, layer_queries,
    n_children, next_node, queries_in_order, root_touched, touched, walk,
};

verus! {

/// What an opening brings besides the queried values.
pub struct MerkleDecommitment<H: MerkleHasher> {
    /// The hashes of the children that the walk over the queries does not compute, in the order
    /// in which it needs them.
    pub hash_witness: Vec<H::Hash>,
    /// The column values of the nodes that are touched without being queried, in the order in
    /// which the walk needs them.
    pub column_witness: Vec<BaseField>,
}

/// Why an opening is refused.
#[derive(Clone, Copy, Debug, PartialEq, Eq, Structural)]
pub enum MerkleVerificationError {
    /// The witness ends before the walk does.
    WitnessTooShort,
    /// The walk leaves a part of the witness unread.
    WitnessTooLong,
    /// The walk leaves queried values unread.
    TooManyQueriedValues,
    /// The queried values end before the walk does.
    TooFewQueriedValues,
    /// The hash at the top is not the root.
    RootMismatch,
}

/// The part of an opening that is not read yet.
#[verifier::ext_equal]
pub struct Unread<V> {
    /// The hashes.
    pub hashes: Seq<V>,
    /// The queried values.
    pub values: Seq<BaseField>,
    /// The column values of the witness.
    pub columns: Seq<BaseField>,
}

/// The views of hashes.
pub open spec fn views<T: View>(hashes: Seq<T>) -> Seq<T::V> {
    Seq::new(hashes.len(), |i: int| hashes[i]@)
}

/// Reads a child: `hash` where it was computed, else the next hash of the witness.
pub open spec fn read_child<V>(computed: bool, hash: V, unread: Unread<V>) -> Result<
    (V, Unread<V>),
    MerkleVerificationError,
> {
    if computed {
        Ok((hash, unread))
    } else if unread.hashes.len() == 0 {
        Err(MerkleVerificationError::WitnessTooShort)
    } else {
        Ok((unread.hashes[0], Unread { hashes: unread.hashes.skip(1), ..unread }))
    }
}

/// Reads the `n` column values of a node: queried values or values of the witness.
pub open spec fn read_values<V>(queried: bool, n: int, unread: Unread<V>) -> Result<
    (Seq<BaseField>, Unread<V>),
    MerkleVerificationError,
> {
    if queried {
        if unread.values.len() < n {
            Err(MerkleVerificationError::TooFewQueriedValues)
        } else {
            Ok((unread.values.take(n), Unread { values: unread.values.skip(n), ..unread }))
        }
    } else {
        if unread.columns.len() < n {
            Err(MerkleVerificationError::WitnessTooShort)
        } else {
            Ok((unread.columns.take(n), Unread { columns: unread.columns.skip(n), ..unread }))
        }
    }
}

/// Reads the two children of the next node, where `below` are the nodes of the layer below that
/// are left and `hashes` their hashes.
pub open spec fn read_children<V>(
    below: Seq<usize>,
    hashes: Seq<V>,
    node: usize,
    unread: Unread<V>,
) -> Result<((V, V), Unread<V>), MerkleVerificationError> {
    match read_child(has_left(below, node), hashes[0], unread) {
        Err(e) => Err(e),
        Ok((left, unread)) => match read_child(
            has_right(below, node),
            hashes[n_children(below, node) - 1],
            unread,
        ) {
            Err(e) => Err(e),
            Ok((right, unread)) => Ok(((left, right), unread)),
        },
    }
}

/// What a node hashes: its children, where it has some, and its column values.
pub type NodeInput<V> = (Option<(V, V)>, Seq<BaseField>);

/// Reads what the next node hashes. A node of the bottom layer has no children.
pub open spec fn read_input<V>(
    bottom: bool,
    below: Seq<usize>,
    hashes: Seq<V>,
    queries: Seq<usize>,
    n_columns: int,
    unread: Unread<V>,
) -> Result<(NodeInput<V>, Unread<V>), MerkleVerificationError> {
    let node = next_node(below, queries);
    if bottom {
        match read_values(is_queried(queries, node), n_columns, unread) {
            Err(e) => Err(e),
            Ok((values, unread)) => Ok(((None, values), unread)),
        }
    } else {
        match read_children(below, hashes, node, unread) {
            Err(e) => Err(e),
            Ok((children, unread)) => match read_values(
                is_queried(queries, node),
                n_columns,
                unread,
            ) {
                Err(e) => Err(e),
                Ok((values, unread)) => Ok(((Some(children), values), unread)),
            },
        }
    }
}

/// Reads what the next node hashes, and hashes it.
pub open spec fn read_node<H: MerkleHasher>(
    bottom: bool,
    below: Seq<usize>,
    hashes: Seq<<H::Hash as View>::V>,
    queries: Seq<usize>,
    n_columns: int,
    unread: Unread<<H::Hash as View>::V>,
) -> Result<
    (<H::Hash as View>::V, Unread<<H::Hash as View>::V>),
    MerkleVerificationError,
> {
    match read_input(bottom, below, hashes, queries, n_columns, unread) {
        Err(e) => Err(e),
        Ok((input, unread)) => Ok((H::node(input.0, input.1), unread)),
    }
}

/// Computes the hashes of the touched nodes of a layer, from left to right.
pub open spec fn read_layer<H: MerkleHasher>(
    bottom: bool,
    below: Seq<usize>,
    hashes: Seq<<H::Hash as View>::V>,
    queries: Seq<usize>,
    n_columns: int,
    unread: Unread<<H::Hash as View>::V>,
) -> Result<
    (Seq<<H::Hash as View>::V>, Unread<<H::Hash as View>::V>),
    MerkleVerificationError,
>
    decreases below.len() + queries.len(),
{
    if below.len() == 0 && queries.len() == 0 {
        Ok((seq![], unread))
    } else {
        let node = next_node(below, queries);
        match read_node::<H>(bottom, below, hashes, queries, n_columns, unread) {
            Err(e) => Err(e),
            Ok((hash, unread)) => match read_layer::<H>(
                bottom,
                after_children(below, node),
                hashes.skip(n_children(below, node)),
                after_query(queries, node),
                n_columns,
                unread,
            ) {
                Err(e) => Err(e),
                Ok((rest, unread)) => Ok((seq![hash] + rest, unread)),
            },
        }
    }
}

/// Computes the hashes of the touched nodes of the layer of size `2^log_size`, layer by layer from
/// the bottom up. There are `n_columns[l]` columns of size `2^l`.
pub open spec fn read_tree<H: MerkleHasher>(
    n_columns: Seq<usize>,
    queries: Seq<Vec<usize>>,
    log_size: nat,
    unread: Unread<<H::Hash as View>::V>,
) -> Result<
    (Seq<<H::Hash as View>::V>, Unread<<H::Hash as View>::V>),
    MerkleVerificationError,
>
    decreases n_columns.len() - log_size,
{
    if log_size >= n_columns.len() {
        Ok((seq![], unread))
    } else {
        match read_tree::<H>(n_columns, queries, log_size + 1, unread) {
            Err(e) => Err(e),
            Ok((hashes, unread)) => read_layer::<H>(
                log_size + 1 == n_columns.len(),
                touched(queries, n_columns.len(), log_size + 1),
                hashes,
                layer_queries(queries, log_size as int),
                n_columns[log_size as int] as int,
                unread,
            ),
        }
    }
}

/// The verdict on an opening.
pub open spec fn verdict<H: MerkleHasher>(
    root: <H::Hash as View>::V,
    n_columns: Seq<usize>,
    queries: Seq<Vec<usize>>,
    opening: Unread<<H::Hash as View>::V>,
) -> Result<(), MerkleVerificationError> {
    if n_columns.len() == 0 {
        Ok(())
    } else {
        match read_tree::<H>(n_columns, queries, 0, opening) {
            Err(e) => Err(e),
            Ok((hashes, unread)) => if unread.hashes.len() > 0 {
                Err(MerkleVerificationError::WitnessTooLong)
            } else if unread.values.len() > 0 {
                Err(MerkleVerificationError::TooManyQueriedValues)
            } else if unread.columns.len() > 0 {
                Err(MerkleVerificationError::WitnessTooLong)
            } else if hashes[0] != root {
                Err(MerkleVerificationError::RootMismatch)
            } else {
                Ok(())
            },
        }
    }
}

/// An opening with a place in each of its parts.
struct Reader<'a, T> {
    hashes: &'a Vec<T>,
    values: &'a Vec<BaseField>,
    columns: &'a Vec<BaseField>,
    next_hash: usize,
    next_value: usize,
    next_column: usize,
}

impl<'a, T: Copy + View> Reader<'a, T> {
    spec fn wf(self) -> bool {
        &&& self.next_hash <= self.hashes@.len()
        &&& self.next_value <= self.values@.len()
        &&& self.next_column <= self.columns@.len()
    }

    spec fn unread(self) -> Unread<T::V> {
        Unread {
            hashes: views(self.hashes@.skip(self.next_hash as int)),
            values: self.values@.skip(self.next_value as int),
            columns: self.columns@.skip(self.next_column as int),
        }
    }

    fn hash(&mut self) -> (r: Result<T, MerkleVerificationError>)
        requires
            old(self).wf(),
        ensures
            final(self).wf(),
            match r {
                Err(e) => e == MerkleVerificationError::WitnessTooShort && old(
                    self,
                ).unread().hashes.len() == 0,
                Ok(hash) => {
                    let unread = old(self).unread();
                    &&& unread.hashes.len() > 0
                    &&& hash@ == unread.hashes[0]
                    &&& final(self).unread() == (Unread {
                        hashes: unread.hashes.skip(1),
                        ..unread
                    })
                },
            },
    {
        if self.next_hash >= self.hashes.len() {
            return Err(MerkleVerificationError::WitnessTooShort);
        }
        let hash = self.hashes[self.next_hash];
        self.next_hash = self.next_hash + 1;
        Ok(hash)
    }

    fn column_values(&mut self, queried: bool, n: usize) -> (r: Result<
        Vec<BaseField>,
        MerkleVerificationError,
    >)
        requires
            old(self).wf(),
        ensures
            final(self).wf(),
            match r {
                Err(e) => read_values(queried, n as int, old(self).unread()) == Err::<
                    (Seq<BaseField>, Unread<T::V>),
                    MerkleVerificationError,
                >(e),
                Ok(values) => read_values(queried, n as int, old(self).unread()) == Ok::<
                    (Seq<BaseField>, Unread<T::V>),
                    MerkleVerificationError,
                >((values@, final(self).unread())),
            },
    {
        if queried {
            if self.values.len() - self.next_value < n {
                return Err(MerkleVerificationError::TooFewQueriedValues);
            }
            let values = copy_range(self.values, self.next_value, n);
            self.next_value = self.next_value + n;
            assert(values@ =~= old(self).unread().values.take(n as int));
            assert(self.unread().values =~= old(self).unread().values.skip(n as int));
            Ok(values)
        } else {
            if self.columns.len() - self.next_column < n {
                return Err(MerkleVerificationError::WitnessTooShort);
            }
            let values = copy_range(self.columns, self.next_column, n);
            self.next_column = self.next_column + n;
            assert(values@ =~= old(self).unread().columns.take(n as int));
            assert(self.unread().columns =~= old(self).unread().columns.skip(n as int));
            Ok(values)
        }
    }
}

/// Copies `n` values from `start` on.
fn copy_range(values: &Vec<BaseField>, start: usize, n: usize) -> (r: Vec<BaseField>)
    requires
        start + n <= values@.len(),
    ensures
        r@ == values@.subrange(start as int, start + n),
{
    let end: usize = values.len();
    let mut r: Vec<BaseField> = Vec::new();
    let mut i: usize = 0;
    while i < n
        invariant
            i <= n,
            start + n <= end == values@.len(),
            r@ == values@.subrange(start as int, start + i),
        decreases n - i,
    {
        r.push(values[start + i]);
        i = i + 1;
    }
    r
}

/// `r` with the hashes `done` in front.
spec fn prepend<V>(
    done: Seq<V>,
    r: Result<(Seq<V>, Unread<V>), MerkleVerificationError>,
) -> Result<(Seq<V>, Unread<V>), MerkleVerificationError> {
    match r {
        Err(e) => Err(e),
        Ok((rest, unread)) => Ok((done + rest, unread)),
    }
}

/// Finds the next node to touch behind `at` nodes of `below` and `asked` queries.
pub fn next_decommitment_node(
    below: &Vec<usize>,
    at: usize,
    queries: &[usize],
    asked: usize,
) -> (r: Option<usize>)
    requires
        at <= below@.len(),
        asked <= queries@.len(),
    ensures
        r is None <==> at == below@.len() && asked == queries@.len(),
        r is Some ==> r->0 == next_node(below@.skip(at as int), queries@.skip(asked as int)),
{
    if asked == queries.len() {
        if at == below.len() {
            None
        } else {
            Some(below[at] / 2)
        }
    } else if at == below.len() || queries[asked] < below[at] / 2 {
        Some(queries[asked])
    } else {
        Some(below[at] / 2)
    }
}

/// Finds the children of `node` among the nodes of `below` from `at` on: whether the left one is
/// there, whether the right one is, and the place behind them.
pub fn computed_children(below: &Vec<usize>, at: usize, node: usize) -> (r: (bool, bool, usize))
    requires
        at <= below@.len(),
    ensures
        r.0 == has_left(below@.skip(at as int), node),
        r.1 == has_right(below@.skip(at as int), node),
        r.2 == at + n_children(below@.skip(at as int), node),
        r.2 <= below@.len(),
{
    let mut behind: usize = at;
    let left = behind < below.len() && below[behind] / 2 == node && below[behind] % 2 == 0;
    if left {
        behind = behind + 1;
    }
    assert(left ==> after_left(below@.skip(at as int), node) =~= below@.skip(at + 1));
    let right = behind < below.len() && below[behind] / 2 == node && below[behind] % 2 == 1;
    if right {
        behind = behind + 1;
    }
    (left, right, behind)
}

/// Hashes `node`, the next one to touch, and finds the place in `below` behind its children.
fn compute_node<'a, H: MerkleHasher>(
    bottom: bool,
    below: &Vec<usize>,
    hashes: &Vec<H::Hash>,
    at: usize,
    queries: &[usize],
    asked: usize,
    node: usize,
    n_columns: usize,
    reader: &mut Reader<'a, H::Hash>,
) -> (r: Result<(H::Hash, usize), MerkleVerificationError>)
    requires
        old(reader).wf(),
        at <= below@.len() == hashes@.len(),
        asked <= queries@.len(),
        node == next_node(below@.skip(at as int), queries@.skip(asked as int)),
        bottom ==> n_columns > 0 && below@.len() == 0,
    ensures
        final(reader).wf(),
        match r {
            Err(e) => read_node::<H>(
                bottom,
                below@.skip(at as int),
                views(hashes@).skip(at as int),
                queries@.skip(asked as int),
                n_columns as int,
                old(reader).unread(),
            ) == Err::<
                (<H::Hash as View>::V, Unread<<H::Hash as View>::V>),
                MerkleVerificationError,
            >(e),
            Ok((hash, behind)) => {
                &&& behind == at + n_children(below@.skip(at as int), node)
                &&& behind <= below@.len()
                &&& read_node::<H>(
                    bottom,
                    below@.skip(at as int),
                    views(hashes@).skip(at as int),
                    queries@.skip(asked as int),
                    n_columns as int,
                    old(reader).unread(),
                ) == Ok::<
                    (<H::Hash as View>::V, Unread<<H::Hash as View>::V>),
                    MerkleVerificationError,
                >((hash@, final(reader).unread()))
            },
        },
{
    let queried = asked < queries.len() && queries[asked] == node;
    if bottom {
        match reader.column_values(queried, n_columns) {
            Err(e) => Err(e),
            Ok(values) => Ok((H::hash_node(None, values.as_slice()), at)),
        }
    } else {
        let (computed_left, computed_right, behind) = computed_children(below, at, node);
        let left = if computed_left {
            hashes[at]
        } else {
            match reader.hash() {
                Err(e) => {
                    return Err(e);
                },
                Ok(hash) => hash,
            }
        };
        let right = if computed_right {
            hashes[behind - 1]
        } else {
            match reader.hash() {
                Err(e) => {
                    return Err(e);
                },
                Ok(hash) => hash,
            }
        };
        match reader.column_values(queried, n_columns) {
            Err(e) => Err(e),
            Ok(values) => Ok((H::hash_node(Some((left, right)), values.as_slice()), behind)),
        }
    }
}

/// Hashes the touched nodes of a layer.
fn compute_layer<'a, H: MerkleHasher>(
    bottom: bool,
    below: &Vec<usize>,
    hashes: &Vec<H::Hash>,
    queries: &[usize],
    n_columns: usize,
    reader: &mut Reader<'a, H::Hash>,
) -> (r: Result<(Vec<usize>, Vec<H::Hash>), MerkleVerificationError>)
    requires
        old(reader).wf(),
        below@.len() == hashes@.len(),
        bottom ==> n_columns > 0 && below@.len() == 0,
    ensures
        final(reader).wf(),
        match r {
            Err(e) => read_layer::<H>(
                bottom,
                below@,
                views(hashes@),
                queries@,
                n_columns as int,
                old(reader).unread(),
            ) == Err::<
                (Seq<<H::Hash as View>::V>, Unread<<H::Hash as View>::V>),
                MerkleVerificationError,
            >(e),
            Ok((nodes, layer)) => {
                &&& nodes@ == walk(below@, queries@)
                &&& layer@.len() == nodes@.len()
                &&& read_layer::<H>(
                    bottom,
                    below@,
                    views(hashes@),
                    queries@,
                    n_columns as int,
                    old(reader).unread(),
                ) == Ok::<
                    (Seq<<H::Hash as View>::V>, Unread<<H::Hash as View>::V>),
                    MerkleVerificationError,
                >((views(layer@), final(reader).unread()))
            },
        },
{
    let ghost whole = read_layer::<H>(
        bottom,
        below@,
        views(hashes@),
        queries@,
        n_columns as int,
        reader.unread(),
    );
    let mut nodes: Vec<usize> = Vec::new();
    let mut layer: Vec<H::Hash> = Vec::new();
    let mut at: usize = 0;
    let mut asked: usize = 0;
    proof {
        assert(below@.skip(0) =~= below@);
        assert(views(hashes@).skip(0) =~= views(hashes@));
        assert(queries@.skip(0) =~= queries@);
        assert(nodes@ + walk(below@, queries@) =~= walk(below@, queries@));
        match whole {
            Ok((rest, _)) => {
                assert(views(layer@) + rest =~= rest);
            },
            Err(_) => {},
        }
    }
    loop
        invariant
            reader.wf(),
            at <= below@.len() == hashes@.len(),
            asked <= queries@.len(),
            bottom ==> n_columns > 0 && below@.len() == 0,
            layer@.len() == nodes@.len(),
            walk(below@, queries@) == nodes@ + walk(
                below@.skip(at as int),
                queries@.skip(asked as int),
            ),
            whole == read_layer::<H>(
                bottom,
                below@,
                views(hashes@),
                queries@,
                n_columns as int,
                old(reader).unread(),
            ),
            whole == prepend(
                views(layer@),
                read_layer::<H>(
                    bottom,
                    below@.skip(at as int),
                    views(hashes@).skip(at as int),
                    queries@.skip(asked as int),
                    n_columns as int,
                    reader.unread(),
                ),
            ),
        decreases below@.len() - at + queries@.len() - asked,
    {
        let ghost b = below@.skip(at as int);
        let ghost q = queries@.skip(asked as int);
        let ghost h = views(hashes@).skip(at as int);
        let ghost unread = reader.unread();
        let node = match next_decommitment_node(below, at, queries, asked) {
            Some(node) => node,
            None => {
                assert(nodes@ + walk(b, q) =~= nodes@);
                assert(views(layer@) + Seq::<<H::Hash as View>::V>::empty() =~= views(layer@));
                return Ok((nodes, layer));
            },
        };
        let (hash, behind) = match compute_node::<H>(
            bottom,
            below,
            hashes,
            at,
            queries,
            asked,
            node,
            n_columns,
            reader,
        ) {
            Ok(pair) => pair,
            Err(e) => {
                return Err(e);
            },
        };
        let ghost done = views(layer@);
        let ghost walked = nodes@;
        nodes.push(node);
        layer.push(hash);
        proof {
            assert(after_children(b, node) =~= below@.skip(behind as int));
            assert(h.skip(n_children(b, node)) =~= views(hashes@).skip(behind as int));
            assert(views(layer@) =~= done.push(hash@));
            let rest = walk(after_children(b, node), after_query(q, node));
            assert(walked + (seq![node] + rest) =~= nodes@ + rest);
            let tail = read_layer::<H>(
                bottom,
                after_children(b, node),
                h.skip(n_children(b, node)),
                after_query(q, node),
                n_columns as int,
                reader.unread(),
            );
            match tail {
                Ok((rest, _)) => {
                    assert(done + (seq![hash@] + rest) =~= views(layer@) + rest);
                },
                Err(_) => {},
            }
        }
        at = behind;
        if asked < queries.len() && queries[asked] == node {
            assert(after_query(q, node) =~= queries@.skip(asked + 1));
            asked = asked + 1;
        }
    }
}

/// An opening that a layer refuses is refused by the layers above it, for the same reason.
proof fn refused_below<H: MerkleHasher>(
    n_columns: Seq<usize>,
    queries: Seq<Vec<usize>>,
    low: nat,
    high: nat,
    unread: Unread<<H::Hash as View>::V>,
)
    requires
        low <= high,
        read_tree::<H>(n_columns, queries, high, unread) is Err,
    ensures
        read_tree::<H>(n_columns, queries, low, unread) == read_tree::<H>(
            n_columns,
            queries,
            high,
            unread,
        ),
    decreases high - low,
{
    if low < high {
        refused_below::<H>(n_columns, queries, low + 1, high, unread);
    }
}

/// The unread opening that holds `values` and `decommitment`.
pub open spec fn opening_of<H: MerkleHasher>(
    values: Seq<BaseField>,
    decommitment: MerkleDecommitment<H>,
) -> Unread<<H::Hash as View>::V> {
    Unread {
        hashes: views(decommitment.hash_witness@),
        values,
        columns: decommitment.column_witness@,
    }
}

/// Checks openings of one tree.
pub struct MerkleVerifier<H: MerkleHasher> {
    /// The root of the tree.
    pub root: H::Hash,
    /// The number of columns of size `2^l`, for each `l`.
    pub n_columns: Vec<usize>,
}

impl<H: MerkleHasher> MerkleVerifier<H> {
    /// Whether the bottom layer holds a column.
    pub open spec fn wf(self) -> bool {
        self.n_columns@.len() > 0 ==> self.n_columns@.last() > 0
    }

    /// Checks an opening against the root. `queries[l]` are the queries to the layer of size
    /// `2^l`, and `queried_values` the values of the columns there: layer by layer from the
    /// largest on, query by query, column by column.
    pub fn verify(
        &self,
        queries: &Vec<Vec<usize>>,
        queried_values: Vec<BaseField>,
        decommitment: MerkleDecommitment<H>,
    ) -> (r: Result<(), MerkleVerificationError>)
        requires
            self.wf(),
            self.n_columns@.len() > 0 ==> queries_in_order(queries@, self.n_columns@.len()),
        ensures
            r == verdict::<H>(
                self.root@,
                self.n_columns@,
                queries@,
                opening_of(queried_values@, decommitment),
            ),
    {
        let n_layers: usize = self.n_columns.len();
        if n_layers == 0 {
            return Ok(());
        }
        let ghost opening = opening_of(queried_values@, decommitment);
        let no_queries: Vec<usize> = Vec::new();
        let mut reader = Reader {
            hashes: &decommitment.hash_witness,
            values: &queried_values,
            columns: &decommitment.column_witness,
            next_hash: 0,
            next_value: 0,
            next_column: 0,
        };
        assert(reader.unread() =~= opening) by {
            assert(reader.hashes@.skip(0) =~= reader.hashes@);
        }
        let mut nodes: Vec<usize> = Vec::new();
        let mut hashes: Vec<H::Hash> = Vec::new();
        assert(views(hashes@) =~= Seq::<<H::Hash as View>::V>::empty());
        let mut log_size: usize = n_layers;
        while log_size > 0
            invariant
                log_size <= n_layers,
                n_layers == self.n_columns@.len(),
                self.wf(),
                no_queries@.len() == 0,
                reader.wf(),
                nodes@ == touched(queries@, n_layers as nat, log_size as nat),
                nodes@.len() == hashes@.len(),
                read_tree::<H>(self.n_columns@, queries@, log_size as nat, opening) == Ok::<
                    (Seq<<H::Hash as View>::V>, Unread<<H::Hash as View>::V>),
                    MerkleVerificationError,
                >((views(hashes@), reader.unread())),
                opening == opening_of(queried_values@, decommitment),
            decreases log_size,
        {
            log_size = log_size - 1;
            let queried: &[usize] = if log_size < queries.len() {
                queries[log_size].as_slice()
            } else {
                no_queries.as_slice()
            };
            assert(queried@ =~= layer_queries(queries@, log_size as int));
            let layer = compute_layer::<H>(
                log_size + 1 == n_layers,
                &nodes,
                &hashes,
                queried,
                self.n_columns[log_size],
                &mut reader,
            );
            match layer {
                Err(e) => {
                    proof {
                        refused_below::<H>(
                            self.n_columns@,
                            queries@,
                            0,
                            log_size as nat,
                            opening,
                        );
                    }
                    return Err(e);
                },
                Ok((layer_nodes, layer_hashes)) => {
                    nodes = layer_nodes;
                    hashes = layer_hashes;
                },
            }
        }
        proof {
            root_touched(queries@, n_layers as nat);
        }
        if reader.next_hash < reader.hashes.len() {
            return Err(MerkleVerificationError::WitnessTooLong);
        }
        if reader.next_value < reader.values.len() {
            return Err(MerkleVerificationError::TooManyQueriedValues);
        }
        if reader.next_column < reader.columns.len() {
            return Err(MerkleVerificationError::WitnessTooLong);
        }
        if !H::same_hash(&hashes[0], &self.root) {
            return Err(MerkleVerificationError::RootMismatch);
        }
        Ok(())
    }
}

} // verus!
