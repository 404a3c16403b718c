//! SHA-256 digests.

use vstd::prelude::*;

verus! {

/// The SHA-256 digest of a byte string.
///
/// This names the value computed by `ring::digest::digest` with the
/// `ring::digest::SHA256` algorithm. Nothing is assumed about it beyond what
/// `sha256_digest` states.
pub uninterp spec fn sha256(bytes: Seq<u8>) -> Seq<u8>;

/// The longest input, in bytes, that can be hashed: its length in bits has to
/// fit into 64 bits.
pub const MAX_INPUT_LEN: u64 = 0x1fff_ffff_ffff_ffff;

/// Whether a byte string is short enough to be hashed.
pub open spec fn hashable(bytes: Seq<u8>) -> bool {
    bytes.len() <= MAX_INPUT_LEN
}

/// The digest of the concatenation of two byte strings, left then right.
pub open spec fn spec_join(left: Seq<u8>, right: Seq<u8>) -> Seq<u8> {
    sha256(left + right)
}

/// The `index`-th block of 32 bytes of a byte string.
pub open spec fn hash_at(bytes: Seq<u8>, index: int) -> Seq<u8> {
    bytes.subrange(32 * index, 32 * index + 32)
}

/// The hashes that a byte string holds one after the other. Bytes after the
/// last whole hash are left out.
pub open spec fn split_hashes(bytes: Seq<u8>) -> Seq<Seq<u8>> {
    Seq::new((bytes.len() / 32) as nat, |i: int| hash_at(bytes, i))
}

/// Calls `ring::digest::digest` with `ring::digest::SHA256`.
///
/// Trusted: the 32 bytes that come back are the SHA-256 digest of `bytes`.
/// The call panics on inputs whose bit length overflows 64 bits, which the
/// precondition rules out.
#[verifier::external_body]
fn sha256_digest(bytes: &[u8]) -> (out: [u8; 32])
    requires
        hashable(bytes@),
    ensures
        out@ == sha256(bytes@),
{
    let digest = ring::digest::digest(&ring::digest::SHA256, bytes);
    let mut out = [0u8; 32];
    out.copy_from_slice(digest.as_ref());
    out
}

/// A 32-byte hash.
#[derive(Debug)]
pub struct Hash([u8; 32]);

impl View for Hash {
    type V = Seq<u8>;

    closed spec fn view(&self) -> Seq<u8> {
        self.0@
    }
}

/// Hashes some bytes.
pub fn hash(bytes: &[u8]) -> (result: Hash)
    requires
        hashable(bytes@),
    ensures
        result@ == sha256(bytes@),
{
    Hash::new(bytes)
}

impl Hash {
    /// Number of bytes in a hash.
    pub const BYTES: usize = 32;

    /// Every hash is exactly 32 bytes long.
    pub proof fn lemma_len(&self)
        ensures
            self@.len() == 32,
    {
    }

    /// Creates a hash by hashing some bytes.
    pub fn new(bytes: &[u8]) -> (result: Hash)
        requires
            hashable(bytes@),
        ensures
            result@ == sha256(bytes@),
    {
        Hash(sha256_digest(bytes))
    }

    /// Creates a hash from the first 32 bytes of a slice.
    pub fn from_bytes(bytes: &[u8]) -> (result: Hash)
        requires
            bytes@.len() >= 32,
        ensures
            result@ == bytes@.subrange(0, 32),
    {
        let mut array: [u8; 32] = [0u8; 32];
        let mut i: usize = 0;
        while i < 32
            invariant
                i <= 32,
                bytes@.len() >= 32,
                forall|j: int| 0 <= j < i ==> array@[j] == bytes@[j],
            decreases 32 - i,
        {
            array[i] = bytes[i];
            i += 1;
        }
        assert(array@ =~= bytes@.subrange(0, 32));
        Hash(array)
    }

    /// Concatenates two hashes and returns the hash of the result.
    pub fn join(self, other: Hash) -> (result: Hash)
        ensures
            result@ == spec_join(self@, other@),
    {
        let mut sum: Vec<u8> = Vec::new();
        sum.extend_from_slice(self.0.as_slice());
        sum.extend_from_slice(other.0.as_slice());
        assert(sum@ =~= self@ + other@);
        hash(sum.as_slice())
    }

    /// Returns the hash as a vector.
    pub fn into_vec(self) -> (result: Vec<u8>)
        ensures
            result@ == self@,
    {
        let mut result: Vec<u8> = Vec::new();
        result.extend_from_slice(self.0.as_slice());
        assert(result@ =~= self@);
        result
    }

    /// Returns the hash as a byte slice.
    pub fn as_bytes(&self) -> (result: &[u8])
        ensures
            result@ == self@,
    {
        self.0.as_slice()
    }

    /// Returns the hash as a mutable byte slice.
    pub fn as_bytes_mut(&mut self) -> (result: &mut [u8])
        ensures
            result@ == old(self)@,
            final(self)@ == final(result)@,
    {
        &mut self.0
    }
}

impl Clone for Hash {
    fn clone(&self) -> (result: Self)
        ensures
            result == *self,
    {
        Hash(self.0)
    }
}

impl Default for Hash {
    /// The all-zero hash.
    fn default() -> (result: Self)
        ensures
            result@ == Seq::new(32, |i: int| 0u8),
    {
        let result = Hash([0u8; 32]);
        assert(result@ =~= Seq::new(32, |i: int| 0u8));
        result
    }
}

impl PartialEq for Hash {
    fn eq(&self, other: &Self) -> (equal: bool) {
        let mut i: usize = 0;
        while i < 32
            invariant
                i <= 32,
                forall|j: int| 0 <= j < i ==> self.0@[j] == other.0@[j],
            decreases 32 - i,
        {
            if self.0[i] != other.0[i] {
                return false;
            }
            i += 1;
        }
        assert(self.0@ =~= other.0@);
        true
    }
}

impl Eq for Hash {}

impl vstd::std_specs::cmp::PartialEqSpecImpl for Hash {
    open spec fn obeys_eq_spec() -> bool {
        true
    }

    open spec fn eq_spec(&self, other: &Self) -> bool {
        self@ == other@
    }
}

} // verus!
