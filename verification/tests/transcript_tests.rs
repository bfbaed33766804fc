use sha2::{Digest, Sha256};

use stwo_vcs::channel::poseidon31;
use stwo_vcs::channel::poseidon31::{felts_to_bytes, Poseidon31Channel};
use stwo_vcs::channel::sha256;
use stwo_vcs::channel::sha256::{
    extract_common, felts_from_hash, sha256_qm31, words_from_hash, words_to_block, Sha256Channel,
};
use stwo_vcs::channel::sha256_poseidon31::{compress_message, Sha256Poseidon31Channel};
use stwo_vcs::fields::m31::{M31, P};
use stwo_vcs::fields::qm31::SecureField;
use stwo_vcs::timed;
use stwo_vcs::timed::ChannelTime;
use stwo_vcs::vcs::btc_sha256_merkle::{BTCSha256MerkleChannel, BTCSha256MerkleHasher};
use stwo_vcs::vcs::ops::MerkleHasher;
use stwo_vcs::vcs::poseidon31_hash::Poseidon31Hash;
use stwo_vcs::vcs::poseidon31_merkle::Poseidon31MerkleChannel;
use stwo_vcs::vcs::poseidon31_ref::poseidon2_permute;
use stwo_vcs::vcs::sha256_hash::Sha256Hash;
use stwo_vcs::vcs::sha256_poseidon31_merkle::{
    Sha256Poseidon31MerkleChannel, Sha256Poseidon31MerkleHasher,
};

fn digest(parts: &[&[u8]]) -> [u8; 32] {
    let mut hasher = Sha256::new();
    for part in parts {
        hasher.update(part);
    }
    hasher.finalize().into()
}

fn felt(i: u32) -> SecureField {
    SecureField::from_m31(M31(i), M31(i + 1), M31(i + 2), M31(i + 300))
}

fn felts(n: u32) -> Vec<SecureField> {
    (0..n).map(|i| felt(10 * i + 1)).collect()
}

fn sha256_channel() -> Sha256Channel {
    let mut channel = Sha256Channel::default();
    channel.update_digest(Sha256Hash([3; 32]));
    channel
}

fn poseidon31_channel() -> Poseidon31Channel {
    let mut channel = Poseidon31Channel::default();
    channel.update_digest([M31(3); 8]);
    channel
}

#[test]
fn elements_of_hashes() {
    assert_eq!(extract_common(&[1, 0, 0, 0x80, 7]), M31(1));
    assert_eq!(extract_common(&[0xff, 0xff, 0xff, 0x7f]), M31(0));
    assert_eq!(extract_common(&[0xff, 0xff, 0xff, 0xff]), M31(0));
    assert_eq!(extract_common(&[0xfe, 0xff, 0xff, 0xff]), M31(P - 1));

    let mut hash = [0u8; 32];
    hash[4] = 9;
    hash[31] = 0x81;
    let elements = felts_from_hash(&hash);
    assert_eq!(elements[1], M31(9));
    assert_eq!(elements[7], M31(0x0100_0000));
    let words = words_from_hash(&hash);
    assert_eq!(words, vec![0, 9, 0, 0, 0, 0, 0, 0x8100_0000]);
    assert_eq!(words_to_block(&words), hash);
    assert_eq!(words_to_block(&[0x0403_0201])[..5], [1, 2, 3, 4, 0]);
}

#[test]
fn element_hash() {
    let v = SecureField::from_m31(M31(1), M31(0), M31(128), M31(4));
    let hash = digest(&[&[1]]);
    let hash = digest(&[&[], &hash]);
    let hash = digest(&[&[128, 0], &hash]);
    let hash = digest(&[&[4], &hash]);
    assert_eq!(sha256_qm31(&v), hash);

    // It is the hash of the leaf with the coordinates.
    let mut coords = v.to_m31_array();
    assert_eq!(Sha256Poseidon31MerkleHasher::hash_node(None, &coords).0, hash);
    coords.reverse();
    assert_eq!(BTCSha256MerkleHasher::hash_node(None, &coords).0, hash);
}

#[test]
fn sha256_work() {
    let mut hash = [0xffu8; 32];
    assert!(sha256::check_pow(&hash, 0));
    assert!(!sha256::check_pow(&hash, 1));
    hash[15] = 0;
    hash[14] = 0x04;
    assert!(sha256::check_pow(&hash, 10));
    assert!(!sha256::check_pow(&hash, 11));
    hash[..16].copy_from_slice(&[0; 16]);
    assert!(sha256::check_pow(&hash, 128));
    assert!(!sha256::check_pow(&hash, 129));

    let channel = sha256_channel();
    let mut found = 0;
    for nonce in 0..64u64 {
        let hash = digest(&[&[3; 32], &nonce.to_le_bytes()]);
        let mut bytes = [0u8; 16];
        bytes.copy_from_slice(&hash[..16]);
        let zeros = u128::from_be_bytes(bytes).trailing_zeros();
        for n_bits in 0..8 {
            assert_eq!(channel.verify_pow_nonce(n_bits, nonce), zeros >= n_bits);
        }
        if zeros >= 3 {
            found += 1;
        }
    }
    assert!(found > 0);
}

#[test]
fn sha256_messages() {
    let mut channel = sha256_channel();
    channel.mix_felts(&[felt(1), felt(2)]);
    let first = digest(&[&sha256_qm31(&felt(1)), &[3; 32]]);
    let second = digest(&[&sha256_qm31(&felt(2)), &first]);
    assert_eq!(channel.digest().0, second);

    // In two messages.
    let mut other = sha256_channel();
    other.draw_secure_felt();
    other.mix_felts(&[]);
    assert_eq!(other.n_draws(), 1);
    other.mix_felts(&[felt(1)]);
    assert_eq!(other.n_draws(), 0);
    other.mix_felts(&[felt(2)]);
    assert_eq!(other.digest(), channel.digest());
}

#[test]
fn sha256_words() {
    let mut channel = sha256_channel();
    channel.mix_u32s(&[1, 2, 3]);
    let mut block = [0u8; 32];
    block[0] = 1;
    block[4] = 2;
    block[8] = 3;
    assert_eq!(channel.digest().0, digest(&[&block, &[3; 32]]));

    let words: Vec<u32> = (1..=19).collect();
    let mut whole = sha256_channel();
    whole.mix_u32s(&words);
    let mut parts = sha256_channel();
    parts.draw_u32s();
    parts.mix_u32s(&words[..16]);
    parts.mix_u32s(&words[16..]);
    assert_eq!(whole.digest(), parts.digest());
    assert_eq!(parts.n_draws(), 1);

    let value = 0x1122_3344_5566_7788u64;
    let mut number = sha256_channel();
    number.mix_u64(value);
    let mut halves = sha256_channel();
    halves.mix_u32s(&[0x5566_7788, 0x1122_3344]);
    assert_eq!(number.digest(), halves.digest());
    assert_eq!(number.digest().0, digest(&[&value.to_le_bytes(), &[0; 24], &[3; 32]]));
}

#[test]
fn sha256_draws() {
    let mut channel = sha256_channel();
    let drawn = channel.draw_secure_felts(5);
    assert_eq!(channel.n_draws(), 3);
    assert_eq!(channel.digest().0, [3; 32]);
    for (j, v) in drawn.iter().enumerate() {
        let hash = digest(&[&[3; 32], &((j / 2) as u32).to_le_bytes()]);
        let elements = felts_from_hash(&hash);
        assert_eq!(v.to_m31_array()[..], elements[4 * (j % 2)..4 * (j % 2) + 4]);
    }

    // One by one, and in two steps.
    let mut other = sha256_channel();
    assert_eq!(other.draw_secure_felt(), drawn[0]);
    assert_eq!(other.draw_secure_felt(), drawn[2]);
    let mut other = sha256_channel();
    let mut parts = other.draw_secure_felts(2);
    parts.extend(other.draw_secure_felts(3));
    assert_eq!(parts, drawn);

    let mut other = sha256_channel();
    other.draw_secure_felt();
    assert_eq!(
        other.draw_u32s(),
        words_from_hash(&digest(&[&[3; 32], &1u32.to_le_bytes(), &[0]]))
    );
    assert_eq!(sha256_channel().draw_secure_felts(0), vec![]);
    assert_eq!(other.clone().digest(), other.digest());
}

#[test]
fn poseidon31_messages() {
    let message = felts(3);
    let mut channel = poseidon31_channel();
    channel.mix_felts(&message);

    let mut state = [M31(3); 16];
    state[..4].copy_from_slice(&message[0].to_m31_array());
    state[4..8].copy_from_slice(&message[1].to_m31_array());
    poseidon2_permute(&mut state);
    state[..4].copy_from_slice(&message[2].to_m31_array());
    state[4..8].copy_from_slice(&[M31(0); 4]);
    poseidon2_permute(&mut state);
    assert_eq!(channel.digest()[..], state[8..]);

    // In two messages, the first of an even length.
    let mut other = poseidon31_channel();
    other.mix_felts(&message[..2]);
    other.mix_felts(&message[2..]);
    assert_eq!(other.digest(), channel.digest());

    // An empty message keeps the digest and resets the draws.
    other.draw_secure_felt();
    other.mix_felts(&[]);
    assert_eq!(other.digest(), channel.digest());
    assert_eq!(other.n_draws(), 0);
}

#[test]
fn poseidon31_numbers() {
    let value = 0xfedc_ba98_7654_3210u64;
    let mut channel = poseidon31_channel();
    channel.mix_u64(value);
    let mut state = [M31(3); 16];
    state[..8].copy_from_slice(&[M31(0); 8]);
    state[0] = M31((value & ((1 << 22) - 1)) as u32);
    state[1] = M31(((value >> 22) & ((1 << 21) - 1)) as u32);
    state[2] = M31(((value >> 43) & ((1 << 21) - 1)) as u32);
    poseidon2_permute(&mut state);
    assert_eq!(channel.digest()[..], state[8..]);

    // Different numbers are mixed in differently.
    let mut zero = poseidon31_channel();
    zero.mix_u64(0);
    for other_value in [(1 << 22) - 1, 1 << 22, 1 << 43, 1 << 63] {
        let mut other = poseidon31_channel();
        other.mix_u64(other_value);
        assert_ne!(other.digest(), zero.digest());
    }

    let mut words = poseidon31_channel();
    words.mix_u32s(&[7, u32::MAX]);
    let mut numbers = poseidon31_channel();
    numbers.mix_u64(7);
    numbers.mix_u64(u32::MAX as u64);
    assert_eq!(words.digest(), numbers.digest());

    let mut nothing = poseidon31_channel();
    nothing.draw_random_bytes();
    nothing.mix_u32s(&[]);
    assert_eq!(nothing.digest(), [M31(3); 8]);
    assert_eq!(nothing.n_draws(), 1);
}

#[test]
fn poseidon31_work() {
    let mut capacity = [M31(1); 8];
    assert!(poseidon31::check_pow(&capacity, 0));
    assert!(!poseidon31::check_pow(&capacity, 1));
    capacity[0] = M31(0);
    capacity[1] = M31(0x10);
    assert!(poseidon31::check_pow(&capacity, 36));
    assert!(!poseidon31::check_pow(&capacity, 37));
    capacity = [M31(0), M31(0), M31(0), M31(0), M31(1), M31(1), M31(1), M31(1)];
    assert!(poseidon31::check_pow(&capacity, 128));
    assert!(!poseidon31::check_pow(&capacity, 129));

    let channel = poseidon31_channel();
    for k in 0..16u64 {
        let nonce = k * 0x0123_4567_89ab_cdef;
        let mut state = [M31(3); 16];
        state[..8].copy_from_slice(&[M31(0); 8]);
        state[0] = M31((nonce & ((1 << 22) - 1)) as u32);
        state[1] = M31(((nonce >> 22) & ((1 << 21) - 1)) as u32);
        state[2] = M31(((nonce >> 43) & ((1 << 21) - 1)) as u32);
        poseidon2_permute(&mut state);
        let zeros = state[8].0.trailing_zeros();
        for n_bits in 0..6 {
            assert_eq!(channel.verify_pow_nonce(n_bits, nonce), zeros >= n_bits);
        }
    }
}

#[test]
fn poseidon31_draws() {
    let mut channel = poseidon31_channel();
    let drawn = channel.draw_secure_felts(5);
    assert_eq!(channel.n_draws(), 3);
    for (j, v) in drawn.iter().enumerate() {
        let mut state = [M31(3); 16];
        state[..8].copy_from_slice(&[M31(0); 8]);
        state[0] = M31((j / 2) as u32);
        poseidon2_permute(&mut state);
        assert_eq!(v.to_m31_array()[..], state[4 * (j % 2)..4 * (j % 2) + 4]);
    }
    let mut other = poseidon31_channel();
    let mut parts = other.draw_secure_felts(4);
    parts.push(other.draw_secure_felt());
    assert_eq!(parts, drawn);

    let mut other = poseidon31_channel();
    let bytes = other.draw_random_bytes();
    let mut elements = drawn[0].to_m31_array().to_vec();
    elements.extend(drawn[1].to_m31_array());
    assert_eq!(bytes, felts_to_bytes(&elements));
    assert_eq!(bytes.len(), 32);
    assert_eq!(bytes[..4], elements[0].0.to_le_bytes());
    assert!(bytes.chunks(4).all(|chunk| chunk[3] < 0x80));
}

#[test]
fn long_messages() {
    let message = felts(7);
    let mut poseidon = Poseidon31Channel::default();
    poseidon.mix_felts(&message);
    let short = compress_message(&message);
    assert_eq!(short.to_vec(), poseidon.draw_secure_felts(2));

    let mut channel = Sha256Poseidon31Channel::default();
    channel.mix_felts(&message);
    let mut plain = Sha256Channel::default();
    plain.mix_felts(&short);
    assert_eq!(channel.digest(), plain.digest());

    // Short messages are mixed in as they are.
    channel.mix_felts(&message[..2]);
    plain.mix_felts(&message[..2]);
    assert_eq!(channel.digest(), plain.digest());

    channel.mix_u64(5);
    plain.mix_u64(5);
    channel.mix_u32s(&[1, 2]);
    plain.mix_u32s(&[1, 2]);
    assert_eq!(channel.digest(), plain.digest());
    assert_eq!(channel.draw_secure_felt(), plain.draw_secure_felt());
    assert_eq!(channel.draw_secure_felts(3), plain.draw_secure_felts(3));
    assert_eq!(channel.draw_u32s(), plain.draw_u32s());
    assert_eq!(channel.n_draws(), 4);
    for nonce in 0..16 {
        assert_eq!(channel.verify_pow_nonce(2, nonce), plain.verify_pow_nonce(2, nonce));
    }
    channel.update_digest(Sha256Hash([1; 32]));
    assert_eq!(channel.n_draws(), 0);
}

#[test]
fn protocol_time() {
    let mut time = ChannelTime::default();
    time.inc_sent();
    time.inc_sent();
    assert_eq!(time, ChannelTime { n_challenges: 0, n_sent: 2 });
    time.inc_challenges();
    assert_eq!(time, ChannelTime { n_challenges: 1, n_sent: 0 });

    let mut channel = timed::sha256::Sha256Channel::default();
    channel.draw_felts(3);
    channel.mix_felts(&felts(4));
    assert_eq!(channel.channel_time, ChannelTime { n_challenges: 4, n_sent: 0 });
    channel.draw_felt();
    channel.mix_u64(1);
    assert_eq!(channel.channel_time, ChannelTime { n_challenges: 4, n_sent: 1 });
    assert_eq!(channel.time(), channel.channel_time);

    let mut channel = timed::poseidon31::Poseidon31Channel::default();
    channel.update_digest([M31(1); 8]);
    assert_eq!(channel.time(), ChannelTime { n_challenges: 1, n_sent: 0 });

    let mut channel = timed::sha256_poseidon31::Sha256Poseidon31Channel::default();
    channel.update_digest(Sha256Hash([1; 32]));
    channel.inner.draw_felt();
    assert_eq!(channel.time(), ChannelTime { n_challenges: 1, n_sent: 1 });
}

#[test]
fn timed_draws_and_messages() {
    let mut channel = timed::sha256::Sha256Channel::default();
    let first = channel.draw_felt();
    let bytes = channel.draw_random_bytes();
    assert_eq!(bytes, digest(&[&[0; 32], &1u64.to_le_bytes()]));
    assert_eq!(bytes.len(), 32);
    let mut other = timed::sha256::Sha256Channel::default();
    let drawn = other.draw_felts(4);
    assert_eq!(drawn[0], first);
    let mut hash = [0u8; 32];
    hash.copy_from_slice(&bytes);
    assert_eq!(drawn[2].to_m31_array()[..], felts_from_hash(&hash)[..4]);

    let mut plain = Sha256Channel::default();
    other.mix_felts(&felts(2));
    plain.mix_felts(&felts(2));
    other.mix_u64(77);
    plain.mix_u64(77);
    assert_eq!(other.digest(), plain.digest());

    let mut half = [0u8; 32];
    half[2] = 0x10;
    other.update_digest(Sha256Hash(half));
    assert_eq!(other.trailing_zeros(), 20);
    other.update_digest(Sha256Hash::default());
    assert_eq!(other.trailing_zeros(), 128);
}

#[test]
fn mixed_roots() {
    let mut channel = timed::BTCSha256Channel::default();
    BTCSha256MerkleChannel::mix_root(&mut channel, Sha256Hash([9; 32]));
    assert_eq!(channel.digest().0, digest(&[&[0; 32], &[9; 32]]));

    let mut channel = timed::sha256_poseidon31::Sha256Poseidon31Channel::default();
    Sha256Poseidon31MerkleChannel::mix_root(&mut channel, Sha256Hash([9; 32]));
    assert_eq!(channel.digest().0, digest(&[&[0; 32], &[9; 32]]));

    // A Poseidon31 root is mixed in as its two secure field elements are.
    let root = Poseidon31Hash([M31(1), M31(2), M31(3), M31(4), M31(5), M31(6), M31(7), M31(8)]);
    let mut channel = timed::poseidon31::Poseidon31Channel::default();
    Poseidon31MerkleChannel::mix_root(&mut channel, root);
    let mut plain = Poseidon31Channel::default();
    plain.mix_felts(&[
        SecureField::from_m31(M31(1), M31(2), M31(3), M31(4)),
        SecureField::from_m31(M31(5), M31(6), M31(7), M31(8)),
    ]);
    assert_eq!(channel.digest(), plain.digest());

    // Channels that count draws take the same roots.
    let mut counted = Poseidon31Channel::default();
    counted.draw_secure_felt();
    Poseidon31MerkleChannel::mix_root_counted(&mut counted, root);
    assert_eq!(counted.digest(), plain.digest());
    assert_eq!(counted.n_draws(), 0);

    let mut counted = Sha256Poseidon31Channel::default();
    counted.draw_secure_felt();
    Sha256Poseidon31MerkleChannel::mix_root_counted(&mut counted, Sha256Hash([9; 32]));
    assert_eq!(counted.digest().0, digest(&[&[0; 32], &[9; 32]]));
    assert_eq!(counted.n_draws(), 0);
}

#[test]
fn messages_are_bound() {
    let message = felts(3);
    let mut channel = sha256_channel();
    channel.mix_felts(&message);
    for at in 0..3 {
        let mut changed = message.clone();
        changed[at] = felt(500);
        let mut other = sha256_channel();
        other.mix_felts(&changed);
        assert_ne!(other.digest(), channel.digest());
    }

    let words: Vec<u32> = (1..=11).collect();
    let mut channel = sha256_channel();
    channel.mix_u32s(&words);
    for at in [0, 7, 10] {
        let mut changed = words.clone();
        changed[at] ^= 1 << 31;
        let mut other = sha256_channel();
        other.mix_u32s(&changed);
        assert_ne!(other.digest(), channel.digest());
    }
}

#[test]
fn draws_of_felts_and_words_are_kept_apart() {
    let mut channel = sha256_channel();
    let mut other = channel.clone();
    let words = channel.draw_u32s();
    let felts = other.draw_secure_felts(2);
    assert_ne!(felts[0].to_m31_array()[0].0, words[0] % (1 << 31) % P);
}
