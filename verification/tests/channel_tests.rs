use std::collections::BTreeSet;

use stwo_vcs::channel::poseidon31::Poseidon31Channel;
use stwo_vcs::channel::sha256::Sha256Channel;
use stwo_vcs::fields::m31::M31;
use stwo_vcs::fields::qm31::SecureField;
use stwo_vcs::timed;

fn two_felts() -> Vec<SecureField> {
    (0..2)
        .map(|i| SecureField::from(M31::from_u32_unchecked(i + 1923782)))
        .collect()
}

// The channel with protocol time.

#[test]
fn test_channel_time() {
    let mut channel = timed::sha256::Sha256Channel::default();

    assert_eq!(channel.channel_time.n_challenges, 0);
    assert_eq!(channel.channel_time.n_sent, 0);

    channel.draw_random_bytes();
    assert_eq!(channel.channel_time.n_challenges, 0);
    assert_eq!(channel.channel_time.n_sent, 1);

    channel.draw_felts(9);
    assert_eq!(channel.channel_time.n_challenges, 0);
    assert_eq!(channel.channel_time.n_sent, 6);
}

#[test]
fn sha256_test_draw_random_bytes() {
    let mut channel = timed::sha256::Sha256Channel::default();

    let first_random_bytes = channel.draw_random_bytes();

    // Assert that next random bytes are different.
    assert_ne!(first_random_bytes, channel.draw_random_bytes());
}

#[test]
fn sha256_test_draw_felt() {
    let mut channel = timed::sha256::Sha256Channel::default();

    let first_random_felt = channel.draw_felt();

    // Assert that next random felt is different.
    assert_ne!(first_random_felt, channel.draw_felt());
}

#[test]
fn sha256_test_draw_felts() {
    let mut channel = timed::sha256::Sha256Channel::default();

    let mut random_felts = channel.draw_felts(5);
    random_felts.extend(channel.draw_felts(4));

    // Assert that all the random felts are unique.
    assert_eq!(
        random_felts.len(),
        random_felts.iter().collect::<BTreeSet<_>>().len()
    );
}

#[test]
fn sha256_test_mix_felts() {
    let mut channel = timed::sha256::Sha256Channel::default();
    let initial_digest = channel.digest();
    let felts = two_felts();

    channel.mix_felts(felts.as_slice());

    assert_ne!(initial_digest, channel.digest());
}

// The SHA-256 channel that counts draws.

#[test]
fn sha256_test_n_draws() {
    let mut channel = Sha256Channel::default();

    assert_eq!(channel.n_draws(), 0);

    channel.draw_u32s();
    assert_eq!(channel.n_draws(), 1);

    channel.draw_secure_felts(9);
    assert_eq!(channel.n_draws(), 6);
}

#[test]
fn test_draw_u32s() {
    let mut channel = Sha256Channel::default();

    let first_random_u32s = channel.draw_u32s();

    // Assert that next random u32s are different.
    assert_ne!(first_random_u32s, channel.draw_u32s());
}

#[test]
fn test_draw_felt() {
    let mut channel = Sha256Channel::default();

    let first_random_felt = channel.draw_secure_felt();

    // Assert that next random felt is different.
    assert_ne!(first_random_felt, channel.draw_secure_felt());
}

#[test]
fn test_draw_felts() {
    let mut channel = Sha256Channel::default();

    let mut random_felts = channel.draw_secure_felts(5);
    random_felts.extend(channel.draw_secure_felts(4));

    // Assert that all the random felts are unique.
    assert_eq!(
        random_felts.len(),
        random_felts.iter().collect::<BTreeSet<_>>().len()
    );
}

#[test]
fn test_mix_felts() {
    let mut channel = Sha256Channel::default();
    let initial_digest = channel.digest();
    let felts = two_felts();

    channel.mix_felts(felts.as_slice());

    assert_ne!(initial_digest, channel.digest());
}

// The Poseidon31 channel.

#[test]
fn poseidon31_test_n_draws() {
    let mut channel = Poseidon31Channel::default();

    assert_eq!(channel.n_draws(), 0);

    channel.draw_random_bytes();
    assert_eq!(channel.n_draws(), 1);

    channel.draw_secure_felts(9);
    assert_eq!(channel.n_draws(), 6);
}

#[test]
fn poseidon31_test_draw_random_bytes() {
    let mut channel = Poseidon31Channel::default();

    let first_random_bytes = channel.draw_random_bytes();

    // Assert that next random bytes are different.
    assert_ne!(first_random_bytes, channel.draw_random_bytes());
}

#[test]
fn poseidon31_test_draw_felt() {
    let mut channel = Poseidon31Channel::default();

    let first_random_felt = channel.draw_secure_felt();

    // Assert that next random felt is different.
    assert_ne!(first_random_felt, channel.draw_secure_felt());
}

#[test]
fn poseidon31_test_draw_felts() {
    let mut channel = Poseidon31Channel::default();

    let mut random_felts = channel.draw_secure_felts(5);
    random_felts.extend(channel.draw_secure_felts(4));

    // Assert that all the random felts are unique.
    assert_eq!(
        random_felts.len(),
        random_felts.iter().collect::<BTreeSet<_>>().len()
    );
}

#[test]
fn poseidon31_test_mix_felts() {
    let mut channel = Poseidon31Channel::default();
    let initial_digest = channel.digest();
    let felts = two_felts();

    channel.mix_felts(felts.as_slice());

    assert_ne!(initial_digest, channel.digest());
}
