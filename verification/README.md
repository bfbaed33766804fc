# stwo_vcs

Fiat-Shamir channels and Merkle commitments over the Mersenne-31 field, with SHA-256 and the
Poseidon2 permutation as hash functions, written and proved in Verus.

- `src/bytes.rs`, `src/fields/`: byte strings as numbers; the field of order `2^31 - 1` and its
  extension of degree four.
- `src/vcs/`: the hash functions, the three Merkle hashers, the tree (`tree.rs`), the check of an
  opening (`opening.rs`), and the laws of openings (`opening_laws.rs`): an honest opening is
  accepted, one of the wrong length is refused for that reason, and two accepted openings differ
  only where the hash function collides.
- `src/channel/`: channels that count the draws since the last message, and their laws, among
  them that a SHA-256 transcript binds its messages (`binding.rs`): two of one shape that end in one
  digest are the same, come upon a collision, or pass through digests of different lengths.
- `src/timed/`: channels that keep protocol time, and their laws.
- `app/`: layers hashed on all cores, and serialisable copies of the hashers.

The SHA-256 compression is that of the `sha2` crate. Its digest has a name in the proofs,
`sha256_digest`, and nothing is claimed of it but that it depends on the message alone.
