//! A verified core for a markdown link indexer.
//!
//! The library scans documents as byte streams, computing an MD5 content
//! fingerprint and extracting `[[wiki-style]]` reference tokens without ever
//! holding a whole document in memory, then registers each document under a
//! fresh identifier and resolves every token to the identifier of the document
//! it names, producing the edges of the reference graph.  Directory traversal
//! and persistent storage are left to unverified callers.

pub mod digest;
pub mod errors;
pub mod hex;
pub mod index;
pub mod rebuild;
pub mod registry;
pub mod scan;
