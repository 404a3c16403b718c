use sealed_store::hash;

fn digest_hex(digest: &hash::Hash) -> String {
    let mut text = String::new();
    for byte in digest.as_bytes() {
        text.push_str(&format!("{:02x}", byte));
    }
    text
}

#[test]
fn hash_of_abc_is_the_known_digest() {
    assert_eq!(
        digest_hex(&hash::hash(b"abc")),
        "ba7816bf8f01cfea414140de5dae2223b00361a396177a9cb410ff61f20015ad"
    );
}

#[test]
fn hash_of_three_bytes_is_the_known_digest() {
    assert_eq!(
        digest_hex(&hash::hash(&[1, 2, 3])),
        "039058c6f2c0cb492c533b0a4d14ef77cc0f78abccced5287d84a1a2011cfb81"
    );
}

#[test]
fn hash_does_not_hand_its_input_back() {
    let input = [7u8; 32];
    assert_ne!(hash::hash(&input).as_bytes(), &input[..]);
}

#[test]
fn new_is_the_same_as_hash() {
    assert_eq!(hash::Hash::new(b"Hello, world!"), hash::hash(b"Hello, world!"));
    assert_eq!(
        digest_hex(&hash::Hash::new(b"Hello, world!")),
        "315f5bdb76d078c43b8ac0064e4a0164612b1fce77c869345bfc94c75894edd3"
    );
}

#[test]
fn join_hashes_the_concatenation() {
    let left = hash::hash(b"left");
    let right = hash::hash(b"right");
    let mut both = left.clone().into_vec();
    both.extend_from_slice(right.as_bytes());
    assert_eq!(left.join(right), hash::hash(&both));
}

#[test]
fn join_of_known_hashes_is_the_known_digest() {
    let joined = hash::hash(&[1, 2, 3]).join(hash::hash(b"Hello, world!"));
    assert_eq!(
        digest_hex(&joined),
        "0c2ba685abbabdffef71d520e3468c95305629db8d53e559c0ea6c3b0de66602"
    );
}

#[test]
fn join_is_not_commutative() {
    let left = hash::hash(b"left");
    let right = hash::hash(b"right");
    assert_ne!(left.clone().join(right.clone()), right.join(left));
}

#[test]
fn from_bytes_takes_the_first_32_bytes() {
    let mut bytes = Vec::new();
    for i in 0..40u8 {
        bytes.push(i);
    }
    let digest = hash::Hash::from_bytes(&bytes);
    assert_eq!(digest.as_bytes(), &bytes[..32]);
}

#[test]
fn from_bytes_and_into_vec_round_trip() {
    let digest = hash::hash(b"round trip");
    let bytes = digest.clone().into_vec();
    assert_eq!(bytes.len(), hash::Hash::BYTES);
    assert_eq!(hash::Hash::from_bytes(&bytes), digest);
}

#[test]
fn default_hash_is_all_zero() {
    assert_eq!(hash::Hash::default().as_bytes(), &[0u8; 32][..]);
}

#[test]
fn as_bytes_mut_writes_through() {
    let mut digest = hash::Hash::default();
    digest.as_bytes_mut()[31] = 9;
    digest.as_bytes_mut()[0] = 1;
    let mut expected = [0u8; 32];
    expected[0] = 1;
    expected[31] = 9;
    assert_eq!(digest.as_bytes(), &expected[..]);
    assert_eq!(digest, hash::Hash::from_bytes(&expected));
}

#[test]
fn hashes_are_equal_when_their_bytes_are() {
    let one = hash::Hash::from_bytes(&[3u8; 32]);
    let same = hash::Hash::from_bytes(&[3u8; 32]);
    let mut bytes = [3u8; 32];
    bytes[31] = 4;
    let other = hash::Hash::from_bytes(&bytes);
    assert!(one == same);
    assert!(one != other);
    assert!(one.clone() == one);
}
