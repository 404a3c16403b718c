//! Uploading and downloading files.
//!
//! A file leaves the client sealed under a password and bound to its slot,
//! and is accepted back only if the server's hash tree vouches for it. The
//! functions here do the client's part of the work and leave the sending to
//! the caller: what the server answered is handed in.

use vstd::prelude::*;
use crate::file_cache::FileID;
use crate::hash;
use crate::hash::{hashable, MAX_INPUT_LEN};
use crate::secret;
use crate::secret::{lemma_parse_bytes, parse_secret, Secret, NONCE_LEN, TAG_LEN};
use crate::verification;
use crate::verification::{
    compute_new_root_hash, file_verified, new_root_hash, verify_file, StoredHash,
};

verus! {

/// Errors of uploading and downloading a file.
#[derive(Debug, PartialEq, Eq)]
pub enum Error {
    /// The server did not deliver the file.
    Download,
    /// The file could not be encrypted.
    Encryption,
    /// The server's hashes do not vouch for the file.
    Verification(verification::Error),
    /// The file could not be decrypted.
    Secret(secret::Error),
}

/// An error with its hashes as byte strings.
pub enum ErrorView {
    Download,
    Encryption,
    Verification(verification::ErrorView),
    Secret(secret::Error),
}

impl View for Error {
    type V = ErrorView;

    open spec fn view(&self) -> ErrorView {
        match self {
            Error::Download => ErrorView::Download,
            Error::Encryption => ErrorView::Encryption,
            Error::Verification(error) => ErrorView::Verification(error@),
            Error::Secret(error) => ErrorView::Secret(*error),
        }
    }
}

/// What the client sends to the server for an upload, and what it expects of
/// the server afterwards.
pub struct Upload {
    /// The bytes to store in the file's slot.
    pub data: Vec<u8>,
    /// The root hash that the server's tree must have once the bytes are
    /// stored.
    pub root_hash: hash::Hash,
}

/// The bytes of a file's identifier, highest first.
pub open spec fn file_id_bytes(id: FileID) -> Seq<u8> {
    seq![(id / 256) as u8, (id % 256) as u8]
}

/// Whether the server delivered a file that is `plaintext` sealed under the
/// password for the slot `file`.
pub open spec fn sealed_for(
    file: FileID,
    password: Seq<u8>,
    plaintext: Seq<u8>,
    response: Option<Vec<u8>>,
) -> bool {
    &&& response matches Some(bytes)
    &&& bytes@.len() >= NONCE_LEN
    &&& parse_secret(bytes@).seals(password, plaintext, file_id_bytes(file))
}

/// What a download gives: the server must have delivered the file, its hashes
/// must vouch for it, and the file must open under the password, bound to its
/// slot.
pub open spec fn downloaded(
    file: FileID,
    password: Seq<u8>,
    response: Option<Vec<u8>>,
    stored: StoredHash,
    server_root: Option<Vec<u8>>,
    dependencies: Option<Vec<u8>>,
) -> Result<Seq<u8>, ErrorView> {
    match response {
        Some(bytes) => match file_verified(stored, server_root, dependencies, file, bytes@) {
            Ok(()) => if bytes@.len() < NONCE_LEN {
                Err(ErrorView::Secret(secret::Error::InvalidLength))
            } else {
                match parse_secret(bytes@).opened(password, file_id_bytes(file)) {
                    Some(data) => Ok(data),
                    None => Err(ErrorView::Secret(secret::Error::AuthenticationFailed)),
                }
            },
            Err(error) => Err(ErrorView::Verification(error)),
        },
        None => Err(ErrorView::Download),
    }
}

/// Encrypts a file for its slot, and computes the root hash that the server's
/// tree must have once the file is stored.
///
/// The file is sealed with a fresh random nonce, so two uploads of one file
/// need not give the same bytes. An error of verification does not depend on
/// what was sealed.
pub fn upload_file(
    message: &[u8],
    file: FileID,
    password: &[u8],
    stored: &StoredHash,
    server_root: &Option<Vec<u8>>,
    dependencies: &Option<Vec<u8>>,
) -> (result: Result<Upload, Error>)
    requires
        hashable(password@),
        message@.len() + TAG_LEN + NONCE_LEN <= MAX_INPUT_LEN,
    ensures
        match result {
            Ok(upload) => {
                &&& upload.data@.len() == message@.len() + TAG_LEN + NONCE_LEN
                &&& parse_secret(upload.data@).seals(password@, message@, file_id_bytes(file))
                &&& new_root_hash(*stored, *server_root, *dependencies, file, upload.data@) == Ok::<
                    Seq<u8>,
                    verification::ErrorView,
                >(upload.root_hash@)
            },
            Err(error) => match error@ {
                ErrorView::Encryption => true,
                ErrorView::Verification(cause) => forall|data: Seq<u8>|
                    #[trigger] new_root_hash(*stored, *server_root, *dependencies, file, data)
                        == Err::<Seq<u8>, verification::ErrorView>(cause),
                _ => false,
            },
        },
{
    let verification = serialize_file_id(file);
    match Secret::new(password, message, verification.as_slice()) {
        Some(secret) => {
            proof {
                lemma_parse_bytes(secret@);
            }
            upload_secret(&secret, file, stored, server_root, dependencies)
        },
        None => Err(Error::Encryption),
    }
}

/// Computes, for a file that is sealed already, the root hash that the
/// server's tree must have once the file is stored in its slot.
pub fn upload_secret(
    secret: &Secret,
    file: FileID,
    stored: &StoredHash,
    server_root: &Option<Vec<u8>>,
    dependencies: &Option<Vec<u8>>,
) -> (result: Result<Upload, Error>)
    requires
        hashable(secret@.bytes()),
    ensures
        match new_root_hash(*stored, *server_root, *dependencies, file, secret@.bytes()) {
            Ok(root_hash) => result matches Ok(upload) && upload.data@ == secret@.bytes()
                && upload.root_hash@ == root_hash,
            Err(cause) => result matches Err(error) && error@ == ErrorView::Verification(cause),
        },
{
    let data = secret.as_bytes();
    match compute_new_root_hash(stored, server_root, dependencies, file, data.as_slice()) {
        Ok(root_hash) => Ok(Upload { data, root_hash }),
        Err(error) => Err(Error::Verification(error)),
    }
}

/// Verifies and decrypts a file that was downloaded from the server.
///
/// A file that the server's hashes vouch for, and that was sealed for this
/// slot under this password, is given back byte for byte.
pub fn download_file(
    file: FileID,
    password: &[u8],
    response: &Option<Vec<u8>>,
    stored: &StoredHash,
    server_root: &Option<Vec<u8>>,
    dependencies: &Option<Vec<u8>>,
) -> (result: Result<Vec<u8>, Error>)
    requires
        hashable(password@),
        response matches Some(bytes) ==> hashable(bytes@),
    ensures
        match result {
            Ok(data) => downloaded(file, password@, *response, *stored, *server_root, *dependencies)
                == Ok::<Seq<u8>, ErrorView>(data@),
            Err(error) => downloaded(
                file,
                password@,
                *response,
                *stored,
                *server_root,
                *dependencies,
            ) == Err::<Seq<u8>, ErrorView>(error@),
        },
        forall|plaintext: Seq<u8>|
            #[trigger] sealed_for(file, password@, plaintext, *response) && file_verified(
                *stored,
                *server_root,
                *dependencies,
                file,
                response->Some_0@,
            ) is Ok ==> (result matches Ok(data) && data@ == plaintext),
{
    let verification = serialize_file_id(file);
    match response {
        Some(bytes) => {
            match verify_file(stored, server_root, dependencies, file, bytes.as_slice()) {
                Ok(()) => {},
                Err(error) => {
                    return Err(Error::Verification(error));
                },
            }
            match Secret::from_bytes(bytes.as_slice()) {
                Ok(secret) => match secret.open(password, verification.as_slice()) {
                    Ok(data) => Ok(data),
                    Err(error) => Err(Error::Secret(error)),
                },
                Err(error) => Err(Error::Secret(error)),
            }
        },
        None => Err(Error::Download),
    }
}

/// Converts a file's identifier into bytes, highest first.
pub fn serialize_file_id(id: FileID) -> (bytes: [u8; 2])
    ensures
        bytes@ == file_id_bytes(id),
{
    assert(id >> 8 == id / 256) by (bit_vector);
    assert(id & 0xff == id % 256) by (bit_vector);
    let bytes: [u8; 2] = [(id >> 8) as u8, (id & 0xff) as u8];
    assert(bytes@ =~= file_id_bytes(id));
    bytes
}

} // verus!
