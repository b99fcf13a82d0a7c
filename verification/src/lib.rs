//! Core of a multi-user media catalog service: the single-writer /
//! many-reader access arbiter over the backing store, the resource
//! lifecycle state machine (active -> hidden -> physically deleted),
//! the cascading deletion performed by a detached worker, a
//! non-blocking lifecycle-event publisher, salted credential hashing,
//! and the single-use invite-token registry that gates registration.

use vstd::prelude::*;

pub mod arbiter;
pub mod b64;
pub mod credentials;
pub mod library;
pub mod order;
pub mod publisher;
pub mod settings;
pub mod store;
pub mod users;

verus! {

/// Failure taxonomy of the synchronous request path.
#[derive(Debug, Clone, PartialEq, Eq, Structural)]
pub enum CoreError {
    /// Resource, account or token absent (or already hidden).
    NotFound,
    /// Duplicate username, or token already claimed.
    Conflict,
    /// Invite token missing, unknown or already claimed.
    InvalidToken,
    /// Credential mismatch.
    Unauthorized,
    /// I/O failure reported by a backing-store adapter.
    TransientStore,
}

} // verus!
