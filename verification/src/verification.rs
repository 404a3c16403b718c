//! The client's checks of what the server stores.
//!
//! The client keeps one hash of its own: the root hash of the server's tree
//! as the client last trusted it. The functions here decide, from that hash
//! and from what the server answered, whether a file may be trusted. They
//! talk to nobody: what was read from the client's storage and what the
//! server sent is handed in, a missing answer as `None`.

use vstd::prelude::*;
use vstd::slice::slice_subrange;
use crate::bytes::copy_all;
use vstd::arithmetic::power2::{lemma2_to64, pow2};
use crate::file_cache::{
    leaves_of, lemma_insert_moves_root, lemma_stored_file_reconstructs_root, FileID, FILE_SLOTS,
    TREE_DEPTH,
};
use crate::hash;
use crate::hash::{hash_at, hashable, sha256, split_hashes};
use crate::merkle_tree::{hash_views, merkle_path, merkle_root, reconstruct, MerkleTree};

verus! {

/// Number of hashes on the way from a file's leaf to the root: one for each
/// bit of a `FileID`.
pub const DEPENDENCY_COUNT: usize = 16;

/// Errors of verifying a file.
#[derive(Debug, PartialEq, Eq)]
pub enum Error {
    /// The client's root hash could not be loaded.
    ClientHashNotFound,
    /// The client's hash is invalid.
    ClientHashInvalid,
    /// Could not save the client's hash.
    ClientHashNoWrite,
    /// The server's root hash could not be downloaded.
    ServerHashNotFound,
    /// The server's hash dependencies could not be downloaded.
    ServerHashDependenciesNotFound,
    /// Got an unexpected amount of hash dependencies from the server.
    InvalidHashDependencyCount(usize),
    /// The server's and client's root hash did not match.
    HashOutOfDate { client: hash::Hash, server: hash::Hash },
    /// The file has been modified by a third party.
    TamperedFiles,
}

/// An error with its hashes as byte strings.
pub enum ErrorView {
    ClientHashNotFound,
    ClientHashInvalid,
    ClientHashNoWrite,
    ServerHashNotFound,
    ServerHashDependenciesNotFound,
    InvalidHashDependencyCount(usize),
    HashOutOfDate { client: Seq<u8>, server: Seq<u8> },
    TamperedFiles,
}

impl View for Error {
    type V = ErrorView;

    open spec fn view(&self) -> ErrorView {
        match self {
            Error::ClientHashNotFound => ErrorView::ClientHashNotFound,
            Error::ClientHashInvalid => ErrorView::ClientHashInvalid,
            Error::ClientHashNoWrite => ErrorView::ClientHashNoWrite,
            Error::ServerHashNotFound => ErrorView::ServerHashNotFound,
            Error::ServerHashDependenciesNotFound => ErrorView::ServerHashDependenciesNotFound,
            Error::InvalidHashDependencyCount(count) => ErrorView::InvalidHashDependencyCount(
                *count,
            ),
            Error::HashOutOfDate { client, server } => ErrorView::HashOutOfDate {
                client: client@,
                server: server@,
            },
            Error::TamperedFiles => ErrorView::TamperedFiles,
        }
    }
}

/// What the client finds where it keeps its root hash.
#[derive(Debug)]
pub enum StoredHash {
    /// The bytes that are stored.
    Found(Vec<u8>),
    /// Nothing was ever stored: this client has not talked to the server yet.
    Missing,
    /// Something is stored but cannot be read.
    Unreadable,
}

/// A result with its hash as a byte string.
pub open spec fn hash_result(result: Result<hash::Hash, Error>) -> Result<Seq<u8>, ErrorView> {
    match result {
        Ok(hash) => Ok(hash@),
        Err(error) => Err(error@),
    }
}

/// A result with its hashes as byte strings.
pub open spec fn hashes_result(result: Result<Vec<hash::Hash>, Error>) -> Result<
    Seq<Seq<u8>>,
    ErrorView,
> {
    match result {
        Ok(hashes) => Ok(hash_views(hashes@)),
        Err(error) => Err(error@),
    }
}

/// A result with its error's hashes as byte strings.
pub open spec fn unit_result(result: Result<(), Error>) -> Result<(), ErrorView> {
    match result {
        Ok(()) => Ok(()),
        Err(error) => Err(error@),
    }
}

/// The root hash in the server's answer: its first 32 bytes.
pub open spec fn server_root_hash(response: Option<Vec<u8>>) -> Result<Seq<u8>, ErrorView> {
    match response {
        Some(bytes) => if bytes@.len() >= 32 {
            Ok(bytes@.subrange(0, 32))
        } else {
            Err(ErrorView::ServerHashNotFound)
        },
        None => Err(ErrorView::ServerHashNotFound),
    }
}

/// The root hash that the client trusts: the one it has stored, which must be
/// exactly 32 bytes, or the server's where the client has never stored one.
pub open spec fn client_root_hash(stored: StoredHash, server_root: Option<Vec<u8>>) -> Result<
    Seq<u8>,
    ErrorView,
> {
    match stored {
        StoredHash::Found(bytes) => if bytes@.len() == 32 {
            Ok(bytes@)
        } else {
            Err(ErrorView::ClientHashInvalid)
        },
        StoredHash::Missing => server_root_hash(server_root),
        StoredHash::Unreadable => Err(ErrorView::ClientHashNotFound),
    }
}

/// Whether the server's root hash is the one that the client trusts.
pub open spec fn root_hashes_agree(server_root: Option<Vec<u8>>, client: Seq<u8>) -> Result<
    (),
    ErrorView,
> {
    match server_root_hash(server_root) {
        Ok(server) => if client == server {
            Ok(())
        } else {
            Err(ErrorView::HashOutOfDate { client, server })
        },
        Err(error) => Err(error),
    }
}

/// The hashes in the server's answer, of which there must be one for each
/// level of the tree.
pub open spec fn file_dependencies(response: Option<Vec<u8>>) -> Result<Seq<Seq<u8>>, ErrorView> {
    match response {
        Some(bytes) => if bytes@.len() / 32 == DEPENDENCY_COUNT {
            Ok(split_hashes(bytes@))
        } else {
            Err(ErrorView::InvalidHashDependencyCount((bytes@.len() / 32) as usize))
        },
        None => Err(ErrorView::ServerHashDependenciesNotFound),
    }
}

/// The root hash that the server's tree has once `data` is stored in the slot
/// `file`, as far as the client can tell: the client's and the server's root
/// hash must agree, and the new root follows from the file's hash and the
/// hashes that the server gave for its slot.
pub open spec fn new_root_hash(
    stored: StoredHash,
    server_root: Option<Vec<u8>>,
    dependencies: Option<Vec<u8>>,
    file: FileID,
    data: Seq<u8>,
) -> Result<Seq<u8>, ErrorView> {
    match client_root_hash(stored, server_root) {
        Ok(client) => match root_hashes_agree(server_root, client) {
            Ok(()) => match file_dependencies(dependencies) {
                Ok(hashes) => Ok(reconstruct(hashes, file as nat, sha256(data))),
                Err(error) => Err(error),
            },
            Err(error) => Err(error),
        },
        Err(error) => Err(error),
    }
}

/// Whether `data` is what the slot `file` held when the client last trusted
/// the server: the root hash that follows from it must be the client's.
pub open spec fn file_verified(
    stored: StoredHash,
    server_root: Option<Vec<u8>>,
    dependencies: Option<Vec<u8>>,
    file: FileID,
    data: Seq<u8>,
) -> Result<(), ErrorView> {
    match new_root_hash(stored, server_root, dependencies, file, data) {
        Ok(root) => if Ok::<Seq<u8>, ErrorView>(root) == client_root_hash(stored, server_root) {
            Ok(())
        } else {
            Err(ErrorView::TamperedFiles)
        },
        Err(error) => Err(error),
    }
}

/// Whether the server's root hash after an upload is the one that the client
/// computed beforehand. If so, that hash is the client's new root hash.
pub open spec fn updated_root_hash(server_root: Option<Vec<u8>>, expected: Seq<u8>) -> Result<
    Seq<u8>,
    ErrorView,
> {
    match server_root_hash(server_root) {
        Ok(server) => if expected == server {
            Ok(expected)
        } else {
            Err(ErrorView::TamperedFiles)
        },
        Err(error) => Err(error),
    }
}

/// Whether the server's answers are those of a server that stores exactly
/// `files`: its root hash, and the hashes on the way from the slot `file` to
/// the root.
pub open spec fn faithful_answers(
    files: Map<FileID, Seq<u8>>,
    file: FileID,
    server_root: Option<Vec<u8>>,
    dependencies: Option<Vec<u8>>,
) -> bool {
    &&& server_root matches Some(root) && root@ == merkle_root(leaves_of(files)) && root@.len()
        == 32
    &&& dependencies matches Some(bytes) && bytes@.len() == 32 * DEPENDENCY_COUNT && split_hashes(
        bytes@,
    ) == merkle_path(leaves_of(files), file as int)
}

/// The client expects one hash for each level of the server's tree, and the
/// tree has one leaf for each value of a `FileID`.
pub proof fn lemma_widths_agree()
    ensures
        DEPENDENCY_COUNT == TREE_DEPTH,
        FILE_SLOTS == pow2(TREE_DEPTH as nat),
        FILE_SLOTS == FileID::MAX + 1,
{
    lemma2_to64();
}

/// A server's root hash of exactly 32 bytes is read as it stands.
pub proof fn lemma_whole_server_root(response: Option<Vec<u8>>)
    requires
        response matches Some(bytes) && bytes@.len() == 32,
    ensures
        server_root_hash(response) == Ok::<Seq<u8>, ErrorView>(response->Some_0@),
{
    let bytes = response->Some_0@;
    assert(bytes.subrange(0, 32) =~= bytes);
}

/// An upload to a server that stores files faithfully is confirmed: where
/// the client trusts the server's root hash, the root hash that the client
/// computes for the upload is the one that the server has once it stores the
/// file, and the client accepts it as its new root hash.
pub proof fn lemma_faithful_upload_is_confirmed(
    files: Map<FileID, Seq<u8>>,
    file: FileID,
    data: Seq<u8>,
    stored: StoredHash,
    server_root: Option<Vec<u8>>,
    dependencies: Option<Vec<u8>>,
    server_root_after: Option<Vec<u8>>,
)
    requires
        faithful_answers(files, file, server_root, dependencies),
        client_root_hash(stored, server_root) == Ok::<Seq<u8>, ErrorView>(
            merkle_root(leaves_of(files)),
        ),
        server_root_after matches Some(root) && root@ == merkle_root(
            leaves_of(files.insert(file, data)),
        ) && root@.len() == 32,
    ensures
        new_root_hash(stored, server_root, dependencies, file, data) == Ok::<Seq<u8>, ErrorView>(
            merkle_root(leaves_of(files.insert(file, data))),
        ),
        updated_root_hash(server_root_after, merkle_root(leaves_of(files.insert(file, data))))
            == Ok::<Seq<u8>, ErrorView>(merkle_root(leaves_of(files.insert(file, data)))),
{
    lemma_whole_server_root(server_root);
    lemma_whole_server_root(server_root_after);
    lemma_insert_moves_root(files, file, data);
}

/// A file downloaded from a server that stores files faithfully is verified,
/// where the client trusts the server's root hash.
pub proof fn lemma_faithful_download_is_verified(
    files: Map<FileID, Seq<u8>>,
    file: FileID,
    stored: StoredHash,
    server_root: Option<Vec<u8>>,
    dependencies: Option<Vec<u8>>,
)
    requires
        faithful_answers(files, file, server_root, dependencies),
        client_root_hash(stored, server_root) == Ok::<Seq<u8>, ErrorView>(
            merkle_root(leaves_of(files)),
        ),
        files.contains_key(file),
    ensures
        file_verified(stored, server_root, dependencies, file, files[file]) == Ok::<
            (),
            ErrorView,
        >(()),
{
    lemma_whole_server_root(server_root);
    lemma_stored_file_reconstructs_root(files, file);
}

/// A client whose root hash is not the server's refuses both to upload and
/// to accept a download, and reports the two hashes.
pub proof fn lemma_stale_client_refuses(
    stored: StoredHash,
    server_root: Option<Vec<u8>>,
    dependencies: Option<Vec<u8>>,
    file: FileID,
    data: Seq<u8>,
    client: Seq<u8>,
    server: Seq<u8>,
)
    requires
        client_root_hash(stored, server_root) == Ok::<Seq<u8>, ErrorView>(client),
        server_root_hash(server_root) == Ok::<Seq<u8>, ErrorView>(server),
        client != server,
    ensures
        new_root_hash(stored, server_root, dependencies, file, data) == Err::<Seq<u8>, ErrorView>(
            ErrorView::HashOutOfDate { client, server },
        ),
        file_verified(stored, server_root, dependencies, file, data) == Err::<(), ErrorView>(
            ErrorView::HashOutOfDate { client, server },
        ),
{
}

/// Verifies that a file has not been modified since the client last trusted
/// the server.
pub fn verify_file(
    stored: &StoredHash,
    server_root: &Option<Vec<u8>>,
    dependencies: &Option<Vec<u8>>,
    file: FileID,
    data: &[u8],
) -> (result: Result<(), Error>)
    requires
        hashable(data@),
    ensures
        unit_result(result) == file_verified(*stored, *server_root, *dependencies, file, data@),
{
    let client_root_hash = get_client_root_hash(stored, server_root)?;
    let root_hash = compute_new_root_hash(stored, server_root, dependencies, file, data)?;
    if root_hash == client_root_hash {
        Ok(())
    } else {
        Err(Error::TamperedFiles)
    }
}

/// Checks, after an upload, that the server's root hash has become the one
/// that the client computed beforehand, and returns it as the root hash for
/// the client to store.
pub fn update_root_hash(server_root: &Option<Vec<u8>>, client_root_hash: hash::Hash) -> (result:
    Result<hash::Hash, Error>)
    ensures
        hash_result(result) == updated_root_hash(*server_root, client_root_hash@),
{
    let server_root_hash = get_server_root_hash(server_root)?;
    if client_root_hash == server_root_hash {
        Ok(client_root_hash)
    } else {
        Err(Error::TamperedFiles)
    }
}

/// Computes the root hash that the server's tree must have once `data` is
/// stored in the slot `file`.
pub fn compute_new_root_hash(
    stored: &StoredHash,
    server_root: &Option<Vec<u8>>,
    dependencies: &Option<Vec<u8>>,
    file: FileID,
    data: &[u8],
) -> (result: Result<hash::Hash, Error>)
    requires
        hashable(data@),
    ensures
        hash_result(result) == new_root_hash(*stored, *server_root, *dependencies, file, data@),
{
    let client_root_hash = get_client_root_hash(stored, server_root)?;
    verify_root_hashes(server_root, client_root_hash)?;
    let dependencies = get_file_dependencies(dependencies)?;
    let file_hash = hash::hash(data);
    let root_hash = MerkleTree::reconstruct_root_hash(dependencies, file as usize, file_hash);
    Ok(root_hash)
}

/// Verifies that the client's and the server's root hashes match.
pub fn verify_root_hashes(server_root: &Option<Vec<u8>>, client_root_hash: hash::Hash) -> (result:
    Result<(), Error>)
    ensures
        unit_result(result) == root_hashes_agree(*server_root, client_root_hash@),
{
    let server_root_hash = get_server_root_hash(server_root)?;
    if client_root_hash != server_root_hash {
        Err(Error::HashOutOfDate { client: client_root_hash, server: server_root_hash })
    } else {
        Ok(())
    }
}

/// Reads the hashes needed to reconstruct the root hash from a file out of
/// the server's answer.
pub fn get_file_dependencies(response: &Option<Vec<u8>>) -> (result: Result<
    Vec<hash::Hash>,
    Error,
>)
    ensures
        hashes_result(result) == file_dependencies(*response),
{
    match response {
        Some(bytes) => {
            let hash_count = bytes.len() / hash::Hash::BYTES;
            if hash_count != DEPENDENCY_COUNT {
                return Err(Error::InvalidHashDependencyCount(hash_count));
            }
            let mut hashes: Vec<hash::Hash> = Vec::new();
            let mut i: usize = 0;
            while i < hash_count
                invariant
                    i <= hash_count,
                    hash_count == DEPENDENCY_COUNT,
                    hash_count == bytes@.len() / 32,
                    hashes@.len() == i,
                    forall|j: int| 0 <= j < i ==> hashes@[j]@ == hash_at(bytes@, j),
                decreases hash_count - i,
            {
                let low = i * hash::Hash::BYTES;
                let high = low + hash::Hash::BYTES;
                let block = slice_subrange(bytes.as_slice(), low, high);
                let hash = hash::Hash::from_bytes(block);
                assert(hash@ =~= hash_at(bytes@, i as int));
                hashes.push(hash);
                i += 1;
            }
            assert(hash_views(hashes@) =~= split_hashes(bytes@));
            Ok(hashes)
        },
        None => Err(Error::ServerHashDependenciesNotFound),
    }
}

/// Reads the server's root hash out of the server's answer.
pub fn get_server_root_hash(response: &Option<Vec<u8>>) -> (result: Result<hash::Hash, Error>)
    ensures
        hash_result(result) == server_root_hash(*response),
{
    match response {
        Some(bytes) => {
            if bytes.len() >= hash::Hash::BYTES {
                Ok(hash::Hash::from_bytes(bytes.as_slice()))
            } else {
                Err(Error::ServerHashNotFound)
            }
        },
        None => Err(Error::ServerHashNotFound),
    }
}

/// Reads the client's root hash out of what the client has stored. Where
/// the client has never stored one, the server's root hash takes its place.
pub fn get_client_root_hash(stored: &StoredHash, server_root: &Option<Vec<u8>>) -> (result: Result<
    hash::Hash,
    Error,
>)
    ensures
        hash_result(result) == client_root_hash(*stored, *server_root),
{
    match stored {
        StoredHash::Found(bytes) => {
            if bytes.len() == hash::Hash::BYTES {
                let hash = hash::Hash::from_bytes(bytes.as_slice());
                assert(hash@ =~= bytes@);
                Ok(hash)
            } else {
                Err(Error::ClientHashInvalid)
            }
        },
        StoredHash::Missing => initialize_client_hash(server_root),
        StoredHash::Unreadable => Err(Error::ClientHashNotFound),
    }
}

/// Takes the server's root hash as the first root hash of a client that has
/// never stored one.
pub fn initialize_client_hash(server_root: &Option<Vec<u8>>) -> (result: Result<hash::Hash, Error>)
    ensures
        hash_result(result) == server_root_hash(*server_root),
{
    get_server_root_hash(server_root)
}

/// Returns what the client's storage holds once a root hash is saved: the 32
/// bytes of the hash.
pub fn save_client_root_hash(hash: hash::Hash) -> (stored: StoredHash)
    ensures
        stored matches StoredHash::Found(bytes) && bytes@ == hash@,
{
    StoredHash::Found(copy_all(hash.as_bytes()))
}

} // verus!
