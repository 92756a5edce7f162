use merkle_tree::hasher::{Hasher, MalformedDigest, Sha256Hasher};

const ABC: [u8; 32] = [
    0xba, 0x78, 0x16, 0xbf, 0x8f, 0x01, 0xcf, 0xea, 0x41, 0x41, 0x40, 0xde, 0x5d, 0xae, 0x22, 0x23,
    0xb0, 0x03, 0x61, 0xa3, 0x96, 0x17, 0x7a, 0x9c, 0xb4, 0x10, 0xff, 0x61, 0xf2, 0x00, 0x15, 0xad,
];

const EMPTY: [u8; 32] = [
    0xe3, 0xb0, 0xc4, 0x42, 0x98, 0xfc, 0x1c, 0x14, 0x9a, 0xfb, 0xf4, 0xc8, 0x99, 0x6f, 0xb9, 0x24,
    0x27, 0xae, 0x41, 0xe4, 0x64, 0x9b, 0x93, 0x4c, 0xa4, 0x95, 0x99, 0x1b, 0x78, 0x52, 0xb8, 0x55,
];

#[test]
fn sha256_of_known_inputs() {
    assert_eq!(Sha256Hasher::hash(b"abc"), ABC);
    assert_eq!(Sha256Hasher::hash(b""), EMPTY);
}

#[test]
fn hashing_is_repeatable() {
    assert_eq!(Sha256Hasher::hash(b"first"), Sha256Hasher::hash(b"first"));
    assert_ne!(Sha256Hasher::hash(b"first"), Sha256Hasher::hash(b"second"));
}

#[test]
fn digest_width_is_thirty_two_bytes() {
    assert_eq!(Sha256Hasher::hash_size(), 32);
    assert_eq!(Sha256Hasher::to_bytes(&ABC).len(), 32);
}

#[test]
fn pair_without_right_is_the_left_digest() {
    assert_eq!(Sha256Hasher::hash_pair(&ABC, None), ABC);
    assert_eq!(Sha256Hasher::hash_pair(&EMPTY, None), EMPTY);
}

#[test]
fn pair_with_right_hashes_left_then_right() {
    let mut joined = ABC.to_vec();
    joined.extend_from_slice(&EMPTY);
    assert_eq!(
        Sha256Hasher::hash_pair(&ABC, Some(&EMPTY)),
        Sha256Hasher::hash(&joined)
    );
    let mut swapped = EMPTY.to_vec();
    swapped.extend_from_slice(&ABC);
    assert_eq!(
        Sha256Hasher::hash_pair(&EMPTY, Some(&ABC)),
        Sha256Hasher::hash(&swapped)
    );
    assert_ne!(
        Sha256Hasher::hash_pair(&ABC, Some(&EMPTY)),
        Sha256Hasher::hash_pair(&EMPTY, Some(&ABC))
    );
}

#[test]
fn pair_with_itself_is_hashed() {
    let mut doubled = ABC.to_vec();
    doubled.extend_from_slice(&ABC);
    let parent = Sha256Hasher::hash_pair(&ABC, Some(&ABC));
    assert_eq!(parent, Sha256Hasher::hash(&doubled));
    assert_ne!(parent, ABC);
}

#[test]
fn digest_bytes_round_trip() {
    let bytes = Sha256Hasher::to_bytes(&ABC);
    assert_eq!(bytes, ABC.to_vec());
    assert_eq!(Sha256Hasher::from_bytes(&bytes), Ok(ABC));
}

#[test]
fn wrong_length_is_a_malformed_digest() {
    assert_eq!(
        Sha256Hasher::from_bytes(&ABC[..31]),
        Err(MalformedDigest { expected: 32, found: 31 })
    );
    let mut long = ABC.to_vec();
    long.push(0);
    assert_eq!(
        Sha256Hasher::from_bytes(&long),
        Err(MalformedDigest { expected: 32, found: 33 })
    );
    assert_eq!(
        Sha256Hasher::from_bytes(&[]),
        Err(MalformedDigest { expected: 32, found: 0 })
    );
}
