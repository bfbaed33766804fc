use sha2::{Digest, Sha256};

use stwo_vcs::bytes::{count_trailing_zeros, u32_from_le_bytes, u32_to_le_bytes, u64_to_le_bytes};
use stwo_vcs::fields::m31::{M31, P};
use stwo_vcs::fields::qm31::{flatten_felts, SecureField, CM31, QM31};
use stwo_vcs::vcs::bitcoin_num_to_bytes;
use stwo_vcs::vcs::btc_sha256_hash::{BTCSha256Hash, BTCSha256Hasher};
use stwo_vcs::vcs::btc_sha256_merkle::BTCSha256MerkleHasher;
use stwo_vcs::vcs::ops::MerkleHasher;
use stwo_vcs::vcs::poseidon31_hash::Poseidon31Hash;
use stwo_vcs::vcs::poseidon31_merkle::Poseidon31MerkleHasher;
use stwo_vcs::vcs::poseidon31_ref::{poseidon2_permute, Poseidon31CRH};
use stwo_vcs::vcs::sha256_hash::{hash_num, hash_nums, sha256_concat, Sha256Hash, Sha256Hasher};
use stwo_vcs::vcs::sha256_poseidon31_merkle::Sha256Poseidon31MerkleHasher;

fn digest(parts: &[&[u8]]) -> [u8; 32] {
    let mut hasher = Sha256::new();
    for part in parts {
        hasher.update(part);
    }
    hasher.finalize().into()
}

fn elements(values: &[u32]) -> Vec<M31> {
    values.iter().map(|v| M31(*v)).collect()
}

#[test]
fn bytes_of_numbers() {
    assert_eq!(u32_to_le_bytes(0x0403_0201), [1, 2, 3, 4]);
    assert_eq!(u64_to_le_bytes(0x0807_0605_0403_0201), [1, 2, 3, 4, 5, 6, 7, 8]);
    assert_eq!(u32_from_le_bytes(&[9, 1, 2, 3, 4], 1), 0x0403_0201);
    assert_eq!(u32_from_le_bytes(&[255; 4], 0), u32::MAX);
}

#[test]
fn trailing_zero_bits() {
    assert_eq!(count_trailing_zeros(&[]), 0);
    assert_eq!(count_trailing_zeros(&[0; 16]), 128);
    assert_eq!(count_trailing_zeros(&[1]), 0);
    assert_eq!(count_trailing_zeros(&[0, 0x50]), 12);
    let v: u128 = 0xabc0_0000;
    assert_eq!(count_trailing_zeros(&v.to_le_bytes()), v.trailing_zeros());
}

#[test]
fn field_elements() {
    assert_eq!(M31::from(P), M31(0));
    assert_eq!(M31::from(u32::MAX), M31(1));
    assert_eq!(M31::reduce(u64::MAX), M31(3));
    assert_eq!(M31(P - 1).add(M31(2)), M31(1));
    assert_eq!(M31::default(), M31::zero());
    assert_eq!(M31::from_u32_unchecked(7), M31(7));

    let v = SecureField::from_m31(M31(1), M31(2), M31(3), M31(4));
    assert_eq!(v, QM31(CM31(M31(1), M31(2)), CM31(M31(3), M31(4))));
    assert_eq!(SecureField::from_m31_array(v.to_m31_array()), v);
    assert_eq!(
        flatten_felts(&[SecureField::from(M31(5)), v]),
        elements(&[5, 0, 0, 0, 1, 2, 3, 4])
    );
}

#[test]
fn script_numbers() {
    assert_eq!(bitcoin_num_to_bytes(M31(0)), vec![]);
    assert_eq!(bitcoin_num_to_bytes(M31(1)), vec![1]);
    assert_eq!(bitcoin_num_to_bytes(M31(127)), vec![127]);
    assert_eq!(bitcoin_num_to_bytes(M31(128)), vec![128, 0]);
    assert_eq!(bitcoin_num_to_bytes(M31(255)), vec![255, 0]);
    assert_eq!(bitcoin_num_to_bytes(M31(256)), vec![0, 1]);
    assert_eq!(bitcoin_num_to_bytes(M31(0x8000)), vec![0, 0x80, 0]);
    assert_eq!(bitcoin_num_to_bytes(M31(P - 1)), vec![0xfe, 0xff, 0xff, 0x7f]);
    assert_eq!(bitcoin_num_to_bytes(M31(0x8000_0000)), vec![0, 0, 0, 0x80, 0]);
    assert_eq!(
        stwo_vcs::vcs::btc_sha256_merkle::bitcoin_num_to_bytes(M31(128)),
        bitcoin_num_to_bytes(M31(128))
    );
}

#[test]
fn sha256_of_known_messages() {
    assert_eq!(
        sha256_concat(b"a", b"bc"),
        [
            0xba, 0x78, 0x16, 0xbf, 0x8f, 0x01, 0xcf, 0xea, 0x41, 0x41, 0x40, 0xde, 0x5d, 0xae,
            0x22, 0x23, 0xb0, 0x03, 0x61, 0xa3, 0x96, 0x17, 0x7a, 0x9c, 0xb4, 0x10, 0xff, 0x61,
            0xf2, 0x00, 0x15, 0xad,
        ]
    );
    assert_eq!(
        sha256_concat(&[], &[])[..4],
        [0xe3, 0xb0, 0xc4, 0x42]
    );
    let (a, b) = (Sha256Hash([1; 32]), Sha256Hash([2; 32]));
    assert_eq!(Sha256Hasher::concat_and_hash(&a, &b).0, digest(&[&[1; 32], &[2; 32]]));
    assert_eq!(
        BTCSha256Hasher::concat_and_hash(&BTCSha256Hash::default(), &a).0,
        digest(&[&[0; 32], &[1; 32]])
    );
    assert!(a.same(&Sha256Hash([1; 32])));
    assert!(!a.same(&b));
}

#[test]
fn digest_chains() {
    let first = digest(&[&[5]]);
    assert_eq!(hash_num(M31(5), &[]), first);
    let second = digest(&[&[0xc8, 0], &first]);
    assert_eq!(hash_nums(&elements(&[5, 200]), None), second);
    // A chain in two parts is the whole chain.
    assert_eq!(hash_nums(&elements(&[200]), Some(first)), second);
}

#[test]
fn permutation_vectors() {
    let mut state = [M31(0); 16];
    poseidon2_permute(&mut state);
    assert_eq!(
        state.to_vec(),
        elements(&[
            0x7412ba68, 0x70d9f6f6, 0x045f05e1, 0x056a10e6, 0x4aeaffae, 0x6b01895d, 0x20f34b05,
            0x7d6e4f58, 0x16d7f425, 0x5bed6a76, 0x50fb5a7d, 0x4f86ae48, 0x72d1a80d, 0x710419a6,
            0x28679230, 0x249e2073,
        ])
    );

    let mut state = [M31(0); 16];
    for i in 0..16 {
        state[i] = M31(i as u32);
    }
    let input = state;
    poseidon2_permute(&mut state);
    assert_eq!(
        state.to_vec(),
        elements(&[
            0x0f8b2223, 0x4681926b, 0x62bf39d8, 0x2c775852, 0x0621c324, 0x6c092e61, 0x1ebf9d23,
            0x2d015c87, 0x6447f97c, 0x4b6cc939, 0x0e395f63, 0x0bf7f688, 0x62ed4765, 0x7bfd5e1b,
            0x4bafb4b0, 0x4cc30530,
        ])
    );
    assert_eq!(Poseidon31CRH::permute_get_rate(&input)[..], state[..8]);
    assert_eq!(Poseidon31CRH::permute_get_capacity(&input)[..], state[8..]);
    assert_eq!(
        Poseidon31CRH::compress(&input).to_vec(),
        elements(&[
            0x0f8b2223, 0x4681926c, 0x62bf39da, 0x2c775855, 0x0621c328, 0x6c092e66, 0x1ebf9d29,
            0x2d015c8e,
        ])
    );
}

#[test]
fn permutation_of_noncanonical_elements() {
    // An element and its representative above the modulus are the same to the permutation.
    let mut low = [M31(3); 16];
    let mut high = [M31(P + 3); 16];
    poseidon2_permute(&mut low);
    poseidon2_permute(&mut high);
    assert_eq!(low, high);
}

fn compress(left: &[M31], right: &[M31]) -> [M31; 8] {
    let mut state = [M31(0); 16];
    state[..left.len()].copy_from_slice(left);
    state[8..8 + right.len()].copy_from_slice(right);
    Poseidon31CRH::compress(&state)
}

#[test]
fn poseidon31_columns() {
    let values: Vec<M31> = (1..=30).map(M31).collect();
    let mut short = [M31(0); 8];
    short[..3].copy_from_slice(&values[..3]);
    assert_eq!(Poseidon31MerkleHasher::hash_column(&values[..3]).0, short);
    let second = compress(&values[..8], &values[8..11]);
    assert_eq!(Poseidon31MerkleHasher::hash_column(&values[..11]).0, second);
    let second = compress(&values[..8], &values[8..16]);
    assert_eq!(Poseidon31MerkleHasher::hash_column(&values[..16]).0, second);
    let third = compress(&second, &values[16..24]);
    assert_eq!(Poseidon31MerkleHasher::hash_column(&values[..24]).0, third);
    assert_eq!(
        Poseidon31MerkleHasher::hash_column(&values[..30]).0,
        compress(&third, &values[24..30])
    );
}

#[test]
fn poseidon31_sponge() {
    let values: Vec<M31> = (1..=11).map(M31).collect();
    let mut state = [M31(0); 16];
    state[..8].copy_from_slice(&values[..8]);
    poseidon2_permute(&mut state);
    state[..8].copy_from_slice(&[M31(0); 8]);
    state[..3].copy_from_slice(&values[8..]);
    poseidon2_permute(&mut state);
    assert_eq!(Poseidon31MerkleHasher::hash_column_get_rate(&values).0[..], state[..8]);
    assert_eq!(Poseidon31MerkleHasher::hash_column_get_capacity(&values).0[..], state[8..]);
    assert_eq!(Poseidon31MerkleHasher::hash_column_get_capacity(&[]), Poseidon31Hash::default());
}

#[test]
fn poseidon31_nodes() {
    let left = Poseidon31Hash(compress(&[M31(1)], &[]));
    let right = Poseidon31Hash(compress(&[M31(2)], &[]));
    let tree = compress(&left.0, &right.0);
    let values = elements(&[7, 8, 9]);
    assert_eq!(Poseidon31MerkleHasher::hash_node(Some((left, right)), &[]).0, tree);
    assert_eq!(
        Poseidon31MerkleHasher::hash_node(Some((left, right)), &values).0,
        compress(&tree, &Poseidon31MerkleHasher::hash_column(&values).0)
    );
    assert_eq!(
        Poseidon31MerkleHasher::hash_node(None, &values),
        Poseidon31MerkleHasher::hash_column(&values)
    );
    assert!(left.same(&left));
    assert!(!left.same(&right));
}

#[test]
fn btc_sha256_nodes() {
    let (left, right) = (Sha256Hash([1; 32]), Sha256Hash([2; 32]));
    let tree = digest(&[&[1; 32], &[2; 32]]);
    let column = digest(&[&[7], &digest(&[&[8], &digest(&[&[0x90, 1]])])]);
    let values = elements(&[7, 8, 400]);
    assert_eq!(BTCSha256MerkleHasher::hash_node(Some((left, right)), &[]).0, tree);
    assert_eq!(BTCSha256MerkleHasher::hash_node(None, &values).0, column);
    assert_eq!(
        BTCSha256MerkleHasher::hash_node(Some((left, right)), &values).0,
        digest(&[&tree, &column])
    );
}

#[test]
fn sha256_poseidon31_nodes() {
    let (left, right) = (Sha256Hash([1; 32]), Sha256Hash([2; 32]));
    let tree = digest(&[&[1; 32], &[2; 32]]);
    let values = elements(&[7, 400]);
    assert_eq!(Sha256Poseidon31MerkleHasher::hash_node(Some((left, right)), &[]).0, tree);
    let column = digest(&[&[0x90, 1], &digest(&[&[7]])]);
    assert_eq!(Sha256Poseidon31MerkleHasher::hash_node(None, &values).0, column);
    assert_eq!(
        Sha256Poseidon31MerkleHasher::hash_node(Some((left, right)), &values).0,
        digest(&[&tree, &column])
    );

    // A wide column is replaced by the rate of the sponge.
    let wide: Vec<M31> = (1..=9).map(M31).collect();
    let rate = Poseidon31MerkleHasher::hash_column_get_rate(&wide);
    assert_eq!(
        Sha256Poseidon31MerkleHasher::hash_node(Some((left, right)), &wide),
        Sha256Poseidon31MerkleHasher::hash_node(Some((left, right)), &rate.0)
    );
    assert_eq!(
        Sha256Poseidon31MerkleHasher::hash_node(None, &wide).0,
        hash_nums(&rate.0, None)
    );
    assert_eq!(
        Sha256Poseidon31MerkleHasher::hash_node(Some((left, right)), &wide).0,
        digest(&[&tree, &hash_nums(&rate.0, None)])
    );
}
