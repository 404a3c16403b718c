//! The server's store: the files, and a hash tree over all file slots.

use vstd::prelude::*;
use vstd::arithmetic::power2::lemma2_to64;
use std::collections::HashMap;
use crate::bytes::copy_all;
use crate::hash;
use crate::hash::{hash_at, hashable, sha256, split_hashes};
use crate::merkle_tree::{
    hash_views, lemma_path_reconstructs_root, lemma_write_moves_root, merkle_path, merkle_root,
    reconstruct, MerkleTree,
};

verus! {

broadcast use vstd::std_specs::hash::group_hash_axioms;

/// Identifies a file slot on the server.
pub type FileID = u16;

/// Number of levels of the hash tree: one for each bit of a `FileID`.
pub const TREE_DEPTH: u8 = 16;

/// Number of file slots.
pub const FILE_SLOTS: usize = 0x1_0000;

/// The leaves of the hash tree that belongs to a set of stored files: the
/// hash of each file at the index of its slot.
pub open spec fn leaves_of(files: Map<FileID, Seq<u8>>) -> Seq<Option<Seq<u8>>> {
    Seq::new(
        FILE_SLOTS as nat,
        |slot: int|
            if files.contains_key(slot as FileID) {
                Some(sha256(files[slot as FileID]))
            } else {
                None
            },
    )
}

/// Storing a file turns the root hash into what the file's hash, its slot and
/// the hashes given for the slot before reconstruct: a client that knows
/// those can tell the new root hash in advance.
pub proof fn lemma_insert_moves_root(files: Map<FileID, Seq<u8>>, file: FileID, data: Seq<u8>)
    ensures
        reconstruct(merkle_path(leaves_of(files), file as int), file as nat, sha256(data))
            == merkle_root(leaves_of(files.insert(file, data))),
{
    lemma2_to64();
    lemma_write_moves_root(leaves_of(files), TREE_DEPTH as nat, file as nat, sha256(data));
    assert(leaves_of(files.insert(file, data)) =~= leaves_of(files).update(
        file as int,
        Some(sha256(data)),
    ));
}

/// From the hash of a stored file, its slot and the hashes given for the
/// slot, the root hash can be reconstructed.
pub proof fn lemma_stored_file_reconstructs_root(files: Map<FileID, Seq<u8>>, file: FileID)
    requires
        files.contains_key(file),
    ensures
        reconstruct(merkle_path(leaves_of(files), file as int), file as nat, sha256(files[file]))
            == merkle_root(leaves_of(files)),
{
    lemma2_to64();
    lemma_path_reconstructs_root(leaves_of(files), TREE_DEPTH as nat, file as nat);
}

/// Stores files together with a hash tree over them.
pub struct FileCache {
    files: HashMap<FileID, Vec<u8>>,
    hashes: MerkleTree,
}

impl View for FileCache {
    type V = Map<FileID, Seq<u8>>;

    /// The stored files by slot.
    closed spec fn view(&self) -> Map<FileID, Seq<u8>> {
        Map::new(|slot: FileID| self.files@.contains_key(slot), |slot: FileID| self.files@[slot]@)
    }
}

impl FileCache {
    /// The tree has a leaf for every slot, and each leaf holds the hash of
    /// the file stored in its slot.
    pub closed spec fn wf(&self) -> bool {
        &&& self.hashes.wf()
        &&& self.hashes.spec_depth() == TREE_DEPTH
        &&& self.hashes@ == leaves_of(self@)
    }

    /// Creates a store without files.
    pub fn new() -> (cache: FileCache)
        ensures
            cache.wf(),
            cache@ == Map::<FileID, Seq<u8>>::empty(),
    {
        let cache = FileCache { files: HashMap::new(), hashes: MerkleTree::new(TREE_DEPTH) };
        proof {
            lemma2_to64();
            assert(cache@ =~= Map::<FileID, Seq<u8>>::empty());
            assert(cache.hashes@ =~= leaves_of(cache@));
        }
        cache
    }

    /// Stores a file in a slot and records its hash in the tree. Returns the
    /// file that the slot held before, if any.
    pub fn insert(&mut self, file: FileID, data: Vec<u8>) -> (result: Option<Vec<u8>>)
        requires
            old(self).wf(),
            hashable(data@),
        ensures
            final(self).wf(),
            final(self)@ == old(self)@.insert(file, data@),
            match result {
                Some(previous) => old(self)@.contains_key(file) && previous@ == old(self)@[file],
                None => !old(self)@.contains_key(file),
            },
    {
        proof {
            lemma2_to64();
            self.hashes.lemma_leaf_count();
        }
        let hash = hash::hash(data.as_slice());
        let _ = self.hashes.insert(file as usize, hash);
        let result = self.files.insert(file, data);
        proof {
            assert(self@ =~= old(self)@.insert(file, data@));
            assert(self.hashes@ =~= leaves_of(self@));
        }
        result
    }

    /// Returns a copy of the file stored in a slot.
    pub fn get(&self, id: FileID) -> (result: Option<Vec<u8>>)
        ensures
            match result {
                Some(data) => self@.contains_key(id) && data@ == self@[id],
                None => !self@.contains_key(id),
            },
    {
        match self.files.get(&id) {
            Some(data) => Some(copy_all(data.as_slice())),
            None => None,
        }
    }

    /// Returns the root hash of the tree over all slots.
    pub fn root_hash(&self) -> (result: Vec<u8>)
        requires
            self.wf(),
        ensures
            result@ == merkle_root(leaves_of(self@)),
            result@.len() == 32,
    {
        let root = self.hashes.root();
        proof {
            root.lemma_len();
        }
        root.into_vec()
    }

    /// Returns the hashes needed to compute the root hash from the file in a
    /// slot, 32 bytes each, from the bottom of the tree up.
    pub fn hash_dependencies(&self, file: FileID) -> (result: Option<Vec<u8>>)
        requires
            self.wf(),
        ensures
            result matches Some(bytes) && bytes@.len() == 32 * TREE_DEPTH && split_hashes(bytes@)
                == merkle_path(leaves_of(self@), file as int),
    {
        proof {
            lemma2_to64();
            self.hashes.lemma_leaf_count();
        }
        match self.hashes.dependencies(file as usize) {
            Ok(dependencies) => {
                let mut deps: Vec<u8> = Vec::new();
                let mut i: usize = 0;
                while i < dependencies.len()
                    invariant
                        i <= dependencies@.len(),
                        deps@.len() == 32 * i,
                        forall|j: int| 0 <= j < i ==> hash_at(deps@, j) == dependencies@[j]@,
                    decreases dependencies@.len() - i,
                {
                    let ghost before = deps@;
                    proof {
                        dependencies@[i as int].lemma_len();
                    }
                    deps.extend_from_slice(dependencies[i].as_bytes());
                    proof {
                        assert(hash_at(deps@, i as int) =~= dependencies@[i as int]@);
                        assert forall|j: int| 0 <= j < i implies hash_at(deps@, j)
                            == dependencies@[j]@ by {
                            assert(hash_at(deps@, j) =~= hash_at(before, j));
                        }
                    }
                    i += 1;
                }
                assert(split_hashes(deps@) =~= hash_views(dependencies@));
                Some(deps)
            },
            Err(_) => None,
        }
    }
}

} // verus!
