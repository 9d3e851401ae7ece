//! Storage core of a log-structured, page-oriented key/value engine:
//! a page directory mapping dense page ids to tagged 64-bit pointers,
//! a write buffer packing page records into a fixed arena under a
//! sealed/writers/allocated state word, and a versioned buffer set
//! publishing immutable snapshots of the live buffers to readers.

use vstd::prelude::*;

pub mod epoch;
pub mod iter;
pub mod pagetable;
pub mod stats;
pub mod version;
pub mod write_buffer;

verus! {

/// `std::io::Error` carried through verbatim by the `Io` error kind;
/// the core never constructs or inspects one.
#[verifier::external_type_specification]
#[verifier::external_body]
pub struct ExIoError(std::io::Error);

/// Error kinds exposed by the storage core.
#[derive(Debug)]
pub enum Error {
    /// The target buffer is sealed or out of space; obtain the next
    /// buffer and retry.
    Again,
    /// A compare-and-swap lost; reload state and retry.
    Conflict,
    /// A persisted invariant was violated on load; surfaced from the
    /// on-disk layer through the core.
    Corrupted(String),
    /// An underlying I/O failure, propagated verbatim.
    Io(std::io::Error),
}

} // verus!
