//! Tamper-evident storage of encrypted files.
//!
//! Files are sealed with a password before they leave the client, and a
//! Merkle tree over all file slots lets the client detect any change made to
//! a stored file behind its back.

pub mod bytes;
pub mod communication;
pub mod file_cache;
pub mod hash;
pub mod merkle_tree;
pub mod secret;
pub mod verification;
