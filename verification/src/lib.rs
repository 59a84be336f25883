//! Time-to-live lifecycle core: an in-memory session registry with lazy
//! eviction, a store of expiring records with query-time expiry enforcement,
//! and a cleanup coordinator that sweeps expired rows, keeps an audit log and
//! reports statistics.
//!
//! All timestamps are UTC instants in milliseconds; "now" is supplied by the
//! caller once per logical operation, so behaviour is deterministic under an
//! injected clock.
use vstd::prelude::*;

pub mod cleanup;
pub mod flush_memo;
mod ids;
pub mod session;
pub mod text;

verus! {

/// Default session lifetime: 24 hours, in milliseconds.
pub const DEFAULT_SESSION_TTL_MILLIS: i64 = 86400000;

/// Default expiring-record lifetime: 24 hours, in milliseconds.
pub const DEFAULT_RECORD_TTL_MILLIS: i64 = 86400000;

/// Default interval between suggested cleanup runs: 1 hour, in milliseconds.
pub const DEFAULT_CLEANUP_INTERVAL_MILLIS: i64 = 3600000;

/// The errors the stores raise, tagged at the point of detection; callers
/// never infer a kind from message text. An id that is unknown, expired, or
/// owned by someone else is not an error here: lookups report an absent
/// result and deletes report `false`, the three causes deliberately
/// indistinguishable.
#[derive(Clone, Copy, Debug, PartialEq, Eq, Structural)]
pub enum MemoError {
    /// The payload was empty once trimmed; reported before storage is
    /// touched, never retried.
    Validation,
    /// A record id collided with an existing row.
    Conflict,
}

} // verus!
