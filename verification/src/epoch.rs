//! Epoch pinning for the page directory: a scoped guard that keeps
//! reclaimed memory alive for the guard's lifetime. The guards come
//! from `crossbeam_epoch`'s default collector.

use vstd::prelude::*;

verus! {

/// `crossbeam_epoch::Guard`: a token witnessing that the current
/// thread's epoch is pinned. Opaque to the verifier; the directory
/// takes it as evidence that a caller participates in reclamation.
#[verifier::external_type_specification]
#[verifier::external_body]
pub struct ExGuard(crossbeam_epoch::Guard);

/// Relies on `crossbeam_epoch::pin`: pins the current thread in the
/// default collector and returns the guard.
#[verifier::external_body]
pub fn pin() -> crossbeam_epoch::Guard {
    crossbeam_epoch::pin()
}

/// Relies on `crossbeam_epoch::is_pinned`: whether the current thread
/// is pinned in the default collector.
#[verifier::external_body]
pub fn is_pinned() -> bool {
    crossbeam_epoch::is_pinned()
}

} // verus!
