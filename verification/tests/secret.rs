use sealed_store::secret::{Error, Secret, NONCE_LEN, TAG_LEN};

const SLOT_1342: [u8; 2] = [5, 62];

const SEALED_MESSAGE: [u8; 48] = [
    2, 192, 41, 147, 252, 164, 62, 128, 9, 5, 229, 195, 162, 164, 115, 30, 19, 71, 228, 94, 14,
    163, 179, 226, 21, 124, 130, 13, 142, 75, 65, 252, 249, 215, 185, 1, 0, 1, 2, 3, 4, 5, 6, 7,
    8, 9, 10, 11,
];

fn counting_nonce() -> Vec<u8> {
    vec![0, 1, 2, 3, 4, 5, 6, 7, 8, 9, 10, 11]
}

#[test]
fn sealing_with_a_given_nonce_gives_the_known_bytes() {
    let secret =
        Secret::with_nonce(b"abc", b"Super secret message", &SLOT_1342, counting_nonce()).unwrap();
    assert_eq!(secret.as_bytes(), SEALED_MESSAGE.to_vec());
}

#[test]
fn sealing_nothing_gives_the_tag_and_the_nonce() {
    let secret = Secret::with_nonce(b"abc", b"", b"", counting_nonce()).unwrap();
    assert_eq!(
        secret.as_bytes(),
        vec![
            0, 172, 77, 221, 24, 52, 27, 197, 200, 52, 169, 144, 195, 193, 199, 220, 0, 1, 2, 3,
            4, 5, 6, 7, 8, 9, 10, 11
        ]
    );
}

#[test]
fn known_bytes_open_to_the_message() {
    let secret = Secret::from_bytes(&SEALED_MESSAGE).unwrap();
    assert_eq!(secret.open(b"abc", &SLOT_1342), Ok(b"Super secret message".to_vec()));
}

#[test]
fn sealing_is_determined_by_its_inputs() {
    let one = Secret::with_nonce(b"pw", b"data", b"ad", counting_nonce()).unwrap();
    let two = Secret::with_nonce(b"pw", b"data", b"ad", counting_nonce()).unwrap();
    assert_eq!(one.as_bytes(), two.as_bytes());
}

#[test]
fn sealing_depends_on_the_password() {
    let one = Secret::with_nonce(b"abc", b"data", b"ad", counting_nonce()).unwrap();
    let two = Secret::with_nonce(b"abd", b"data", b"ad", counting_nonce()).unwrap();
    assert_ne!(one.as_bytes(), two.as_bytes());
}

#[test]
fn sealing_hides_the_data() {
    let data = b"Super secret message";
    let bytes = Secret::with_nonce(b"abc", data, &SLOT_1342, counting_nonce()).unwrap().as_bytes();
    assert_ne!(&bytes[..data.len()], &data[..]);
}

#[test]
fn a_nonce_of_the_wrong_length_is_refused() {
    assert!(Secret::with_nonce(b"abc", b"data", b"ad", vec![0; 11]).is_none());
    assert!(Secret::with_nonce(b"abc", b"data", b"ad", vec![0; 13]).is_none());
    assert!(Secret::with_nonce(b"abc", b"data", b"ad", Vec::new()).is_none());
}

#[test]
fn what_was_sealed_opens_again() {
    let messages: [&[u8]; 4] = [b"", b"a", b"Super secret message", &[0u8; 1000]];
    for message in messages {
        let secret = Secret::new(b"abc", message, &SLOT_1342).unwrap();
        assert_eq!(secret.open(b"abc", &SLOT_1342), Ok(message.to_vec()));
    }
}

#[test]
fn what_was_sealed_opens_again_from_its_bytes() {
    let bytes = Secret::new(b"password", b"message", &[0, 7]).unwrap().as_bytes();
    let secret = Secret::from_bytes(&bytes).unwrap();
    assert_eq!(secret.open(b"password", &[0, 7]), Ok(b"message".to_vec()));
}

#[test]
fn another_slot_does_not_open_the_secret() {
    let secret = Secret::new(b"abc", b"Super secret message", &SLOT_1342).unwrap();
    assert_eq!(secret.open(b"abc", &[0, 7]), Err(Error::AuthenticationFailed));
}

#[test]
fn another_password_does_not_open_the_secret() {
    let secret = Secret::new(b"abc", b"Super secret message", &SLOT_1342).unwrap();
    assert_eq!(secret.open(b"abd", &SLOT_1342), Err(Error::AuthenticationFailed));
}

#[test]
fn a_changed_byte_does_not_open() {
    for position in [0usize, 10, 19, 20, 35, 36, 47] {
        let mut bytes = SEALED_MESSAGE.to_vec();
        bytes[position] ^= 1;
        let secret = Secret::from_bytes(&bytes).unwrap();
        assert_eq!(secret.open(b"abc", &SLOT_1342), Err(Error::AuthenticationFailed));
    }
}

#[test]
fn sealed_bytes_are_28_longer_than_the_data() {
    for length in [0usize, 1, 15, 16, 17, 20, 255, 4096] {
        let data = vec![0x5a; length];
        let secret = Secret::new(b"abc", &data, &SLOT_1342).unwrap();
        assert_eq!(secret.as_bytes().len(), length + 16 + 12);
        assert_eq!(secret.as_bytes().len(), length + TAG_LEN + NONCE_LEN);
    }
}

#[test]
fn every_secret_has_a_nonce_of_its_own() {
    let one = Secret::new(b"abc", b"data", b"ad").unwrap().as_bytes();
    let two = Secret::new(b"abc", b"data", b"ad").unwrap().as_bytes();
    assert_ne!(one[one.len() - NONCE_LEN..], two[two.len() - NONCE_LEN..]);
    assert_ne!(one, two);
}

#[test]
fn fewer_bytes_than_a_nonce_are_no_secret() {
    for length in 0..12 {
        let bytes = vec![0u8; length];
        assert!(matches!(Secret::from_bytes(&bytes), Err(Error::InvalidLength)));
    }
    assert!(Secret::from_bytes(&[0u8; 12]).is_ok());
}

#[test]
fn a_bare_nonce_does_not_open() {
    let secret = Secret::from_bytes(&[0u8; 12]).unwrap();
    assert_eq!(secret.open(b"abc", b""), Err(Error::AuthenticationFailed));
}

#[test]
fn bytes_of_a_secret_read_from_bytes_are_the_same() {
    let mut bytes = Vec::new();
    for i in 0..40u8 {
        bytes.push(i);
    }
    assert_eq!(Secret::from_bytes(&bytes).unwrap().as_bytes(), bytes);
}

#[test]
fn nothing_opened_means_authentication_failed() {
    assert_eq!(Secret::open_result(None), Err(Error::AuthenticationFailed));
    assert_eq!(Secret::open_result(Some(vec![1, 2, 3])), Ok(vec![1, 2, 3]));
}
