use stwo_vcs::fields::m31::{BaseField, M31};
use stwo_vcs::timed::poseidon31::Poseidon31Channel;
use stwo_vcs::timed::sha256_poseidon31::Sha256Poseidon31Channel;
use stwo_vcs::timed::BTCSha256Channel;
use stwo_vcs::vcs::btc_sha256_hash::BTCSha256Hash;
use stwo_vcs::vcs::btc_sha256_merkle::{BTCSha256MerkleChannel, BTCSha256MerkleHasher};
use stwo_vcs::vcs::opening::{MerkleDecommitment, MerkleVerificationError, MerkleVerifier};
use stwo_vcs::vcs::ops::MerkleHasher;
use stwo_vcs::vcs::poseidon31_hash::Poseidon31Hash;
use stwo_vcs::vcs::poseidon31_merkle::{Poseidon31MerkleChannel, Poseidon31MerkleHasher};
use stwo_vcs::vcs::sha256_hash::Sha256Hash;
use stwo_vcs::vcs::sha256_poseidon31_merkle::{
    Sha256Poseidon31MerkleChannel, Sha256Poseidon31MerkleHasher,
};
use stwo_vcs::vcs::tree::{commit_on_layer, layer_node, MerkleProver};

struct Rng(u64);

impl Rng {
    fn below(&mut self, bound: u64) -> u64 {
        self.0 = self.0.wrapping_mul(6364136223846793005).wrapping_add(1442695040888963407);
        (self.0 >> 33) % bound
    }
}

type Opened<H> = (Vec<Vec<usize>>, MerkleDecommitment<H>, Vec<BaseField>, MerkleVerifier<H>);

const N_COLS: usize = 40;
const N_QUERIES: usize = 7;

fn prepare_columns(rng: &mut Rng) -> Vec<Vec<Vec<BaseField>>> {
    let mut columns: Vec<Vec<Vec<BaseField>>> = (0..6).map(|_| vec![]).collect();
    for c in 0..N_COLS {
        let log_size = 3 + c % 3;
        let column = (0..1 << log_size).map(|_| M31(1 + rng.below(1 << 30) as u32)).collect();
        columns[log_size].push(column);
    }
    columns
}

fn prepare_queries(rng: &mut Rng) -> Vec<Vec<usize>> {
    let mut queries: Vec<Vec<usize>> = (0..6).map(|_| vec![]).collect();
    for log_size in 3..6 {
        let mut layer: Vec<usize> =
            (0..N_QUERIES).map(|_| rng.below(1 << log_size) as usize).collect();
        layer.sort();
        layer.dedup();
        queries[log_size] = layer;
    }
    queries
}

fn prepare_merkle<H: MerkleHasher>() -> Opened<H> {
    let mut rng = Rng(0);
    let columns = prepare_columns(&mut rng);
    let queries = prepare_queries(&mut rng);
    let prover = MerkleProver::<H>::commit(&columns);
    let (values, decommitment) = prover.decommit(&queries, &columns);
    let verifier = MerkleVerifier {
        root: prover.root(),
        n_columns: columns.iter().map(|layer| layer.len()).collect(),
    };
    (queries, decommitment, values, verifier)
}

#[test]
fn btc_sha256_merkle_test_merkle_success() {
    let (queries, decommitment, values, verifier) = prepare_merkle::<BTCSha256MerkleHasher>();

    verifier.verify(&queries, values, decommitment).unwrap();
}

#[test]
fn btc_sha256_merkle_test_merkle_invalid_witness() {
    let (queries, mut decommitment, values, verifier) = prepare_merkle::<BTCSha256MerkleHasher>();
    decommitment.hash_witness[4] = BTCSha256Hash::default();

    assert_eq!(
        verifier.verify(&queries, values, decommitment).unwrap_err(),
        MerkleVerificationError::RootMismatch
    );
}

#[test]
fn btc_sha256_merkle_test_merkle_invalid_value() {
    let (queries, decommitment, mut values, verifier) = prepare_merkle::<BTCSha256MerkleHasher>();
    values[6] = BaseField::zero();

    assert_eq!(
        verifier.verify(&queries, values, decommitment).unwrap_err(),
        MerkleVerificationError::RootMismatch
    );
}

#[test]
fn btc_sha256_merkle_test_merkle_witness_too_short() {
    let (queries, mut decommitment, values, verifier) = prepare_merkle::<BTCSha256MerkleHasher>();
    decommitment.hash_witness.pop();

    assert_eq!(
        verifier.verify(&queries, values, decommitment).unwrap_err(),
        MerkleVerificationError::WitnessTooShort
    );
}

#[test]
fn btc_sha256_merkle_test_merkle_witness_too_long() {
    let (queries, mut decommitment, values, verifier) = prepare_merkle::<BTCSha256MerkleHasher>();
    decommitment.hash_witness.push(BTCSha256Hash::default());

    assert_eq!(
        verifier.verify(&queries, values, decommitment).unwrap_err(),
        MerkleVerificationError::WitnessTooLong
    );
}

#[test]
fn btc_sha256_merkle_test_merkle_column_values_too_long() {
    let (queries, decommitment, mut values, verifier) = prepare_merkle::<BTCSha256MerkleHasher>();
    values.insert(3, BaseField::zero());

    assert_eq!(
        verifier.verify(&queries, values, decommitment).unwrap_err(),
        MerkleVerificationError::TooManyQueriedValues
    );
}

#[test]
fn btc_sha256_merkle_test_merkle_column_values_too_short() {
    let (queries, decommitment, mut values, verifier) = prepare_merkle::<BTCSha256MerkleHasher>();
    values.remove(3);

    assert_eq!(
        verifier.verify(&queries, values, decommitment).unwrap_err(),
        MerkleVerificationError::TooFewQueriedValues
    );
}

#[test]
fn btc_sha256_merkle_test_merkle_channel() {
    let mut channel = BTCSha256Channel::default();
    let (_queries, _decommitment, _values, verifier) = prepare_merkle::<BTCSha256MerkleHasher>();
    BTCSha256MerkleChannel::mix_root(&mut channel, verifier.root);
    assert_eq!(channel.channel_time.n_challenges, 1);
}

#[test]
fn poseidon31_merkle_test_merkle_success() {
    let (queries, decommitment, values, verifier) = prepare_merkle::<Poseidon31MerkleHasher>();

    verifier.verify(&queries, values, decommitment).unwrap();
}

#[test]
fn poseidon31_merkle_test_merkle_invalid_witness() {
    let (queries, mut decommitment, values, verifier) = prepare_merkle::<Poseidon31MerkleHasher>();
    decommitment.hash_witness[4] = Poseidon31Hash::default();

    assert_eq!(
        verifier.verify(&queries, values, decommitment).unwrap_err(),
        MerkleVerificationError::RootMismatch
    );
}

#[test]
fn poseidon31_merkle_test_merkle_invalid_value() {
    let (queries, decommitment, mut values, verifier) = prepare_merkle::<Poseidon31MerkleHasher>();
    values[6] = BaseField::zero();

    assert_eq!(
        verifier.verify(&queries, values, decommitment).unwrap_err(),
        MerkleVerificationError::RootMismatch
    );
}

#[test]
fn poseidon31_merkle_test_merkle_witness_too_short() {
    let (queries, mut decommitment, values, verifier) = prepare_merkle::<Poseidon31MerkleHasher>();
    decommitment.hash_witness.pop();

    assert_eq!(
        verifier.verify(&queries, values, decommitment).unwrap_err(),
        MerkleVerificationError::WitnessTooShort
    );
}

#[test]
fn poseidon31_merkle_test_merkle_witness_too_long() {
    let (queries, mut decommitment, values, verifier) = prepare_merkle::<Poseidon31MerkleHasher>();
    decommitment.hash_witness.push(Poseidon31Hash::default());

    assert_eq!(
        verifier.verify(&queries, values, decommitment).unwrap_err(),
        MerkleVerificationError::WitnessTooLong
    );
}

#[test]
fn poseidon31_merkle_test_merkle_column_values_too_long() {
    let (queries, decommitment, mut values, verifier) = prepare_merkle::<Poseidon31MerkleHasher>();
    values.insert(3, BaseField::zero());

    assert_eq!(
        verifier.verify(&queries, values, decommitment).unwrap_err(),
        MerkleVerificationError::TooManyQueriedValues
    );
}

#[test]
fn poseidon31_merkle_test_merkle_column_values_too_short() {
    let (queries, decommitment, mut values, verifier) = prepare_merkle::<Poseidon31MerkleHasher>();
    values.remove(3);

    assert_eq!(
        verifier.verify(&queries, values, decommitment).unwrap_err(),
        MerkleVerificationError::TooFewQueriedValues
    );
}

#[test]
fn poseidon31_merkle_test_merkle_channel() {
    let mut channel = Poseidon31Channel::default();
    let (_queries, _decommitment, _values, verifier) = prepare_merkle::<Poseidon31MerkleHasher>();
    Poseidon31MerkleChannel::mix_root(&mut channel, verifier.root);
    assert_eq!(channel.channel_time.n_challenges, 1);
}

#[test]
fn sha256_poseidon31_merkle_test_merkle_success() {
    let (queries, decommitment, values, verifier) = prepare_merkle::<Sha256Poseidon31MerkleHasher>();

    verifier.verify(&queries, values, decommitment).unwrap();
}

#[test]
fn sha256_poseidon31_merkle_test_merkle_invalid_witness() {
    let (queries, mut decommitment, values, verifier) = prepare_merkle::<Sha256Poseidon31MerkleHasher>();
    decommitment.hash_witness[4] = Sha256Hash::default();

    assert_eq!(
        verifier.verify(&queries, values, decommitment).unwrap_err(),
        MerkleVerificationError::RootMismatch
    );
}

#[test]
fn sha256_poseidon31_merkle_test_merkle_invalid_value() {
    let (queries, decommitment, mut values, verifier) = prepare_merkle::<Sha256Poseidon31MerkleHasher>();
    values[6] = BaseField::zero();

    assert_eq!(
        verifier.verify(&queries, values, decommitment).unwrap_err(),
        MerkleVerificationError::RootMismatch
    );
}

#[test]
fn sha256_poseidon31_merkle_test_merkle_witness_too_short() {
    let (queries, mut decommitment, values, verifier) = prepare_merkle::<Sha256Poseidon31MerkleHasher>();
    decommitment.hash_witness.pop();

    assert_eq!(
        verifier.verify(&queries, values, decommitment).unwrap_err(),
        MerkleVerificationError::WitnessTooShort
    );
}

#[test]
fn sha256_poseidon31_merkle_test_merkle_witness_too_long() {
    let (queries, mut decommitment, values, verifier) = prepare_merkle::<Sha256Poseidon31MerkleHasher>();
    decommitment.hash_witness.push(Sha256Hash::default());

    assert_eq!(
        verifier.verify(&queries, values, decommitment).unwrap_err(),
        MerkleVerificationError::WitnessTooLong
    );
}

#[test]
fn sha256_poseidon31_merkle_test_merkle_column_values_too_long() {
    let (queries, decommitment, mut values, verifier) = prepare_merkle::<Sha256Poseidon31MerkleHasher>();
    values.insert(3, BaseField::zero());

    assert_eq!(
        verifier.verify(&queries, values, decommitment).unwrap_err(),
        MerkleVerificationError::TooManyQueriedValues
    );
}

#[test]
fn sha256_poseidon31_merkle_test_merkle_column_values_too_short() {
    let (queries, decommitment, mut values, verifier) = prepare_merkle::<Sha256Poseidon31MerkleHasher>();
    values.remove(3);

    assert_eq!(
        verifier.verify(&queries, values, decommitment).unwrap_err(),
        MerkleVerificationError::TooFewQueriedValues
    );
}

#[test]
fn sha256_poseidon31_merkle_test_merkle_channel() {
    let mut channel = Sha256Poseidon31Channel::default();
    let (_queries, _decommitment, _values, verifier) = prepare_merkle::<Sha256Poseidon31MerkleHasher>();
    Sha256Poseidon31MerkleChannel::mix_root(&mut channel, verifier.root);
    assert_eq!(channel.inner.channel_time.n_challenges, 1);
}

#[test]
fn layers_by_hand() {
    let columns = vec![vec![], vec![vec![M31(1), M31(2)], vec![M31(3), M31(4)]]];
    let prover = MerkleProver::<Poseidon31MerkleHasher>::commit(&columns);
    let bottom = vec![
        Poseidon31MerkleHasher::hash_node(None, &[M31(1), M31(3)]),
        Poseidon31MerkleHasher::hash_node(None, &[M31(2), M31(4)]),
    ];
    assert_eq!(prover.layers[1], bottom);
    assert_eq!(bottom[1].0[..3], [M31(2), M31(4), M31(0)]);
    assert_eq!(
        prover.root(),
        Poseidon31MerkleHasher::hash_node(Some((bottom[0], bottom[1])), &[])
    );
    assert_eq!(
        commit_on_layer::<Poseidon31MerkleHasher>(0, Some(&bottom), &columns[0]),
        prover.layers[0]
    );
    assert_eq!(
        layer_node::<Poseidon31MerkleHasher>(1, None, &columns[1]),
        bottom[1]
    );
}

#[test]
fn opening_by_hand() {
    let columns = vec![vec![vec![M31(9)]], vec![vec![M31(1), M31(2)]]];
    let prover = MerkleProver::<BTCSha256MerkleHasher>::commit(&columns);
    let verifier = || MerkleVerifier { root: prover.root(), n_columns: vec![1, 1] };

    let (values, decommitment) = prover.decommit(&vec![vec![], vec![1]], &columns);
    assert_eq!(values, vec![M31(2)]);
    assert_eq!(decommitment.column_witness, vec![M31(9)]);
    assert_eq!(decommitment.hash_witness, vec![prover.layers[1][0]]);
    assert_eq!(verifier().verify(&vec![vec![], vec![1]], values, decommitment), Ok(()));

    let (values, decommitment) = prover.decommit(&vec![vec![0], vec![0, 1]], &columns);
    assert_eq!(values, vec![M31(1), M31(2), M31(9)]);
    assert_eq!(decommitment.column_witness, vec![]);
    assert_eq!(decommitment.hash_witness, vec![]);
    assert_eq!(verifier().verify(&vec![vec![0], vec![0, 1]], values, decommitment), Ok(()));

    // Queries to the top layer alone.
    let (values, decommitment) = prover.decommit(&vec![vec![0]], &columns);
    assert_eq!(values, vec![M31(9)]);
    assert_eq!(decommitment.hash_witness, prover.layers[1]);
    assert_eq!(verifier().verify(&vec![vec![0]], values, decommitment), Ok(()));
}

#[test]
fn column_witness_of_the_wrong_length() {
    let columns = vec![vec![vec![M31(9)]], vec![vec![M31(1), M31(2)]]];
    let prover = MerkleProver::<Sha256Poseidon31MerkleHasher>::commit(&columns);
    let verifier = MerkleVerifier { root: prover.root(), n_columns: vec![1, 1] };
    let queries = vec![vec![], vec![1]];

    let (values, mut decommitment) = prover.decommit(&queries, &columns);
    decommitment.column_witness.pop();
    assert_eq!(
        verifier.verify(&queries, values, decommitment),
        Err(MerkleVerificationError::WitnessTooShort)
    );

    let (values, mut decommitment) = prover.decommit(&queries, &columns);
    decommitment.column_witness.push(M31(0));
    assert_eq!(
        verifier.verify(&queries, values, decommitment),
        Err(MerkleVerificationError::WitnessTooLong)
    );
}

#[test]
fn no_columns_are_accepted() {
    let verifier =
        MerkleVerifier::<Poseidon31MerkleHasher> { root: Poseidon31Hash::default(), n_columns: vec![] };
    let decommitment = MerkleDecommitment { hash_witness: vec![], column_witness: vec![] };
    assert_eq!(verifier.verify(&vec![], vec![], decommitment), Ok(()));
}

#[test]
fn every_change_of_an_opening_is_refused() {
    let columns = vec![
        vec![],
        vec![vec![M31(5), M31(6)]],
        vec![vec![M31(1), M31(2), M31(3), M31(4)]],
    ];
    let queries = vec![vec![], vec![], vec![0, 2]];
    let prover = MerkleProver::<Poseidon31MerkleHasher>::commit(&columns);
    let verifier = MerkleVerifier { root: prover.root(), n_columns: vec![0, 1, 1] };
    let refused = Err(MerkleVerificationError::RootMismatch);
    for at in 0..2 {
        let (mut values, decommitment) = prover.decommit(&queries, &columns);
        values[at] = M31(9);
        assert_eq!(verifier.verify(&queries, values, decommitment), refused);

        let (values, mut decommitment) = prover.decommit(&queries, &columns);
        decommitment.hash_witness[at] = Poseidon31Hash::default();
        assert_eq!(verifier.verify(&queries, values, decommitment), refused);

        let (values, mut decommitment) = prover.decommit(&queries, &columns);
        decommitment.column_witness[at] = M31(9);
        assert_eq!(verifier.verify(&queries, values, decommitment), refused);
    }
}
