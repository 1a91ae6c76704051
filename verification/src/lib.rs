//! An append-only, multiply-indexed audit event log.
//!
//! The library keeps an allow-list of writer identities, derives a
//! deterministic identifier for every submitted event, stores events
//! immutably under that identifier, and maintains three secondary indices
//! (by entity, by event type and day, by emitting source) in lock-step with
//! every write.  Reads are served from the indices with pagination support.

use vstd::prelude::*;

pub mod auth;
pub mod bytes;
pub mod carbon;
pub mod ids;
pub mod index;
pub mod kv;
pub mod methodology;
pub mod store;
pub mod trail;

verus! {

/// The reasons for which a write-path operation is rejected.
///
/// A read miss is never an error: the read operations return an absent or
/// empty result instead.
#[derive(Clone, Copy, Debug, PartialEq, Eq, Structural)]
pub enum Error {
    /// A second attempt to set the administrator identity.
    AlreadyInitialized,
    /// An administrator-only operation invoked by another identity, or a
    /// write by an emitter that is not on the allow-list.
    NotAuthorized,
    /// The derived identifier is already present in the store: the
    /// submission is a duplicate and stored history is never overwritten.
    DuplicateIdentifier,
}

} // verus!
