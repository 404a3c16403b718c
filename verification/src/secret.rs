//! Data sealed with a password.
//!
//! A secret is encrypted and authenticated with AES-128-GCM under a key that
//! is derived from a password with PBKDF2-HMAC-SHA256. Its byte form is the
//! ciphertext, followed by the 16-byte tag, followed by the 12-byte nonce.

use vstd::prelude::*;
use ring::aead;
use ring::error::Unspecified;
use crate::bytes::{copy_all, copy_range};
use crate::hash::hashable;

verus! {

/// Length of the encryption key in bytes.
pub const KEY_LEN: usize = 16;

/// Length of the nonce in bytes.
pub const NONCE_LEN: usize = 12;

/// Length of the authentication tag in bytes.
pub const TAG_LEN: usize = 16;

/// Number of PBKDF2 rounds used to derive a key from a password.
pub const PBKDF2_ITERATIONS: u32 = 47_131;

/// The error type of `ring`, which carries no information.
#[verifier::external_type_specification]
#[verifier::external_body]
pub struct ExUnspecified(Unspecified);

/// The key that `ring::pbkdf2::derive` computes with
/// `ring::pbkdf2::PBKDF2_HMAC_SHA256` for an output of `len` bytes.
pub uninterp spec fn pbkdf2_hmac_sha256(
    iterations: u32,
    salt: Seq<u8>,
    secret: Seq<u8>,
    len: nat,
) -> Seq<u8>;

/// What sealing with `ring::aead::AES_128_GCM` gives: the ciphertext followed
/// by the tag, or `None` where the cipher refuses its input.
pub uninterp spec fn aes_128_gcm_seal(
    key: Seq<u8>,
    nonce: Seq<u8>,
    ad: Seq<u8>,
    plaintext: Seq<u8>,
) -> Option<Seq<u8>>;

/// What opening with `ring::aead::AES_128_GCM` gives: the plaintext, or
/// `None` where the input is not authentic.
pub uninterp spec fn aes_128_gcm_open(
    key: Seq<u8>,
    nonce: Seq<u8>,
    ad: Seq<u8>,
    sealed: Seq<u8>,
) -> Option<Seq<u8>>;

/// Whether sealing `plaintext` gives `sealed`.
pub open spec fn sealed_as(
    key: Seq<u8>,
    nonce: Seq<u8>,
    ad: Seq<u8>,
    plaintext: Seq<u8>,
    sealed: Seq<u8>,
) -> bool {
    aes_128_gcm_seal(key, nonce, ad, plaintext) == Some(sealed)
}

/// The salt that every key is derived with.
pub open spec fn key_salt() -> Seq<u8> {
    seq![0u8, 1u8, 2u8, 3u8, 4u8, 5u8, 6u8, 7u8]
}

/// The key that belongs to a password.
pub open spec fn derived_key(password: Seq<u8>) -> Seq<u8> {
    pbkdf2_hmac_sha256(PBKDF2_ITERATIONS, key_salt(), password, KEY_LEN as nat)
}

/// Calls `ring::pbkdf2::derive` with `ring::pbkdf2::PBKDF2_HMAC_SHA256`.
///
/// Trusted: the call fills the whole output with the derived key. It panics
/// on no rounds, and on a salt, a secret or an output too long for the
/// underlying hash, all of which the precondition rules out.
#[verifier::external_body]
fn pbkdf2_derive(iterations: u32, salt: &[u8], secret: &[u8], len: usize) -> (out: Vec<u8>)
    requires
        iterations > 0,
        salt@.len() <= 0xffff_ffff,
        hashable(secret@),
        len <= 0xffff_ffff,
    ensures
        out@ == pbkdf2_hmac_sha256(iterations, salt@, secret@, len as nat),
        out@.len() == len,
{
    let mut out = vec![0u8; len];
    let rounds = core::num::NonZeroU32::new(iterations).unwrap();
    ring::pbkdf2::derive(ring::pbkdf2::PBKDF2_HMAC_SHA256, rounds, salt, secret, &mut out);
    out
}

/// Calls `ring::rand::SecureRandom::fill` on a `ring::rand::SystemRandom`.
///
/// Trusted: on success the buffer of the requested length was filled.
/// Nothing is known about the bytes.
#[verifier::external_body]
fn random_bytes(len: usize) -> (out: Result<Vec<u8>, Unspecified>)
    ensures
        out matches Ok(bytes) ==> bytes@.len() == len,
{
    let mut bytes = vec![0u8; len];
    ring::rand::SecureRandom::fill(&ring::rand::SystemRandom::new(), &mut bytes)?;
    Ok(bytes)
}

/// Encrypts and signs some data using a key, a nonce and additional data
/// that is bound to the result without being part of it.
///
/// Calls `ring::aead::LessSafeKey::seal_in_place_append_tag` with a key for
/// `ring::aead::AES_128_GCM`. Trusted: the outcome depends on the four inputs
/// alone, and on success it is the ciphertext, as long as the plaintext,
/// followed by the 16-byte tag.
#[verifier::external_body]
fn encrypt(key: &[u8], nonce: &[u8], data: &[u8], verification_data: &[u8]) -> (out: Result<
    Vec<u8>,
    Unspecified,
>)
    ensures
        match out {
            Ok(sealed) => {
                &&& aes_128_gcm_seal(key@, nonce@, verification_data@, data@) == Some(sealed@)
                &&& sealed@.len() == data@.len() + 16
            },
            Err(_) => aes_128_gcm_seal(key@, nonce@, verification_data@, data@) is None,
        },
{
    let key = aead::LessSafeKey::new(aead::UnboundKey::new(&aead::AES_128_GCM, key)?);
    let nonce = aead::Nonce::try_assume_unique_for_key(nonce)?;
    let mut buffer = data.to_vec();
    key.seal_in_place_append_tag(nonce, aead::Aad::from(verification_data), &mut buffer)?;
    Ok(buffer)
}

/// Verifies and decrypts some data using a key, a nonce and the additional
/// data that was bound to it.
///
/// Calls `ring::aead::LessSafeKey::open_in_place` with a key for
/// `ring::aead::AES_128_GCM`. Trusted: the outcome depends on the four inputs
/// alone; on success the plaintext is 16 bytes shorter than the input; and
/// opening undoes sealing: whatever was sealed with the same key, nonce and
/// additional data is opened, and gives back the plaintext.
#[verifier::external_body]
fn decrypt(key: &[u8], nonce: &[u8], ciphertext: &[u8], verification_data: &[u8]) -> (out: Result<
    Vec<u8>,
    Unspecified,
>)
    ensures
        match out {
            Ok(opened) => {
                &&& aes_128_gcm_open(key@, nonce@, verification_data@, ciphertext@) == Some(opened@)
                &&& opened@.len() + 16 == ciphertext@.len()
            },
            Err(_) => aes_128_gcm_open(key@, nonce@, verification_data@, ciphertext@) is None,
        },
        match out {
            Ok(opened) => forall|plaintext: Seq<u8>|
                sealed_as(key@, nonce@, verification_data@, plaintext, ciphertext@) ==> opened@
                    == plaintext,
            Err(_) => forall|plaintext: Seq<u8>|
                !sealed_as(key@, nonce@, verification_data@, plaintext, ciphertext@),
        },
{
    let key = aead::LessSafeKey::new(aead::UnboundKey::new(&aead::AES_128_GCM, key)?);
    let nonce = aead::Nonce::try_assume_unique_for_key(nonce)?;
    let mut buffer = ciphertext.to_vec();
    let plaintext = key.open_in_place(nonce, aead::Aad::from(verification_data), &mut buffer)?;
    Ok(plaintext.to_vec())
}

/// Generates the key that belongs to a password.
fn generate_key(password: &[u8]) -> (key: Vec<u8>)
    requires
        hashable(password@),
    ensures
        key@ == derived_key(password@),
        key@.len() == KEY_LEN,
{
    let salt: [u8; 8] = [0, 1, 2, 3, 4, 5, 6, 7];
    assert(salt@ =~= key_salt());
    pbkdf2_derive(PBKDF2_ITERATIONS, salt.as_slice(), password, KEY_LEN)
}

/// Generates a fresh random nonce.
fn generate_nonce() -> (nonce: Option<Vec<u8>>)
    ensures
        nonce matches Some(bytes) ==> bytes@.len() == NONCE_LEN,
{
    match random_bytes(NONCE_LEN) {
        Ok(bytes) => Some(bytes),
        Err(_) => None,
    }
}

/// Errors of reading and opening a secret.
#[derive(Debug, PartialEq, Eq, Structural)]
pub enum Error {
    /// Could not verify the authenticity of the data.
    AuthenticationFailed,
    /// The supplied data was too short.
    InvalidLength,
}

/// The two parts of a secret.
pub struct SecretView {
    /// The ciphertext followed by the tag.
    pub data: Seq<u8>,
    /// The nonce that the data was sealed with.
    pub nonce: Seq<u8>,
}

impl SecretView {
    /// The byte form of the secret: the data followed by the nonce.
    pub open spec fn bytes(self) -> Seq<u8> {
        self.data + self.nonce
    }

    /// Whether this secret is what sealing `plaintext` under `password` gives
    /// with this nonce, bound to `verification`.
    pub open spec fn seals(
        self,
        password: Seq<u8>,
        plaintext: Seq<u8>,
        verification: Seq<u8>,
    ) -> bool {
        sealed_as(derived_key(password), self.nonce, verification, plaintext, self.data)
    }

    /// What opening the secret with `password` gives, bound to `verification`.
    pub open spec fn opened(self, password: Seq<u8>, verification: Seq<u8>) -> Option<Seq<u8>> {
        aes_128_gcm_open(derived_key(password), self.nonce, verification, self.data)
    }
}

/// The secret that a byte form stands for: the last 12 bytes are the nonce.
pub open spec fn parse_secret(bytes: Seq<u8>) -> SecretView {
    SecretView {
        data: bytes.subrange(0, bytes.len() - NONCE_LEN),
        nonce: bytes.subrange(bytes.len() - NONCE_LEN, bytes.len() as int),
    }
}

/// A secret is read back from its byte form as it was.
pub proof fn lemma_parse_bytes(secret: SecretView)
    requires
        secret.nonce.len() == NONCE_LEN,
    ensures
        parse_secret(secret.bytes()) == secret,
{
    assert(parse_secret(secret.bytes()).data =~= secret.data);
    assert(parse_secret(secret.bytes()).nonce =~= secret.nonce);
}

/// Stores encrypted data.
pub struct Secret {
    data: Vec<u8>,
    nonce: Vec<u8>,
}

impl View for Secret {
    type V = SecretView;

    closed spec fn view(&self) -> SecretView {
        SecretView { data: self.data@, nonce: self.nonce@ }
    }
}

impl Secret {
    /// Seals some data under a password with a fresh random nonce.
    ///
    /// Returns `None` where the system has no random bytes to give, or where
    /// the cipher refuses the input.
    pub fn new(password: &[u8], data: &[u8], verification: &[u8]) -> (result: Option<Secret>)
        requires
            hashable(password@),
        ensures
            result matches Some(secret) ==> {
                &&& secret@.nonce.len() == NONCE_LEN
                &&& secret@.seals(password@, data@, verification@)
                &&& secret@.bytes().len() == data@.len() + TAG_LEN + NONCE_LEN
            },
    {
        match generate_nonce() {
            Some(nonce) => Secret::with_nonce(password, data, verification, nonce),
            None => None,
        }
    }

    /// Seals some data under a password with the given nonce.
    ///
    /// A nonce must never be used twice with the same password: `new` draws a
    /// random one.
    pub fn with_nonce(password: &[u8], data: &[u8], verification: &[u8], nonce: Vec<u8>) -> (result:
        Option<Secret>)
        requires
            hashable(password@),
        ensures
            match result {
                Some(secret) => {
                    &&& nonce@.len() == NONCE_LEN
                    &&& secret@.nonce == nonce@
                    &&& secret@.seals(password@, data@, verification@)
                    &&& secret@.bytes().len() == data@.len() + TAG_LEN + NONCE_LEN
                },
                None => nonce@.len() != NONCE_LEN || aes_128_gcm_seal(
                    derived_key(password@),
                    nonce@,
                    verification@,
                    data@,
                ) is None,
            },
    {
        if nonce.len() != NONCE_LEN {
            return None;
        }
        let key = generate_key(password);
        match encrypt(key.as_slice(), nonce.as_slice(), data, verification) {
            Ok(data) => Some(Secret { data, nonce }),
            Err(_) => None,
        }
    }

    /// Creates a secret from its byte form.
    pub fn from_bytes(bytes: &[u8]) -> (result: Result<Secret, Error>)
        ensures
            match result {
                Ok(secret) => bytes@.len() >= NONCE_LEN && secret@ == parse_secret(bytes@),
                Err(error) => bytes@.len() < NONCE_LEN && error == Error::InvalidLength,
            },
    {
        if bytes.len() < NONCE_LEN {
            Err(Error::InvalidLength)
        } else {
            let split = bytes.len() - NONCE_LEN;
            let data = copy_range(bytes, 0, split);
            let nonce = copy_range(bytes, split, bytes.len());
            Ok(Secret { data, nonce })
        }
    }

    /// Returns the byte form of the secret.
    pub fn as_bytes(&self) -> (bytes: Vec<u8>)
        ensures
            bytes@ == self@.bytes(),
    {
        let mut data = copy_all(self.data.as_slice());
        data.extend_from_slice(self.nonce.as_slice());
        assert(data@ =~= self.data@ + self.nonce@);
        data
    }

    /// Opens the secret, consuming it in the process.
    ///
    /// Whatever was sealed under the same password and verification data is
    /// opened again, byte for byte.
    pub fn open(self, password: &[u8], verification: &[u8]) -> (result: Result<Vec<u8>, Error>)
        requires
            hashable(password@),
        ensures
            match result {
                Ok(data) => {
                    &&& self@.opened(password@, verification@) == Some(data@)
                    &&& data@.len() + TAG_LEN == self@.data.len()
                },
                Err(error) => self@.opened(password@, verification@) is None && error
                    == Error::AuthenticationFailed,
            },
            forall|plaintext: Seq<u8>|
                #[trigger] self@.seals(password@, plaintext, verification@) ==> (result matches Ok(
                    data,
                ) && data@ == plaintext),
    {
        let key = generate_key(password);
        let nonce = self.nonce.as_slice();
        let outcome = decrypt(key.as_slice(), nonce, self.data.as_slice(), verification);
        Secret::open_result(outcome.ok())
    }

    /// Turns what the cipher opened into the result of opening a secret: where
    /// it opened nothing, authentication has failed.
    pub fn open_result(opened: Option<Vec<u8>>) -> (result: Result<Vec<u8>, Error>)
        ensures
            match opened {
                Some(data) => result == Ok::<Vec<u8>, Error>(data),
                None => result == Err::<Vec<u8>, Error>(Error::AuthenticationFailed),
            },
    {
        match opened {
            Some(data) => Ok(data),
            None => Err(Error::AuthenticationFailed),
        }
    }
}

} // verus!
