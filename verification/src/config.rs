//! Per-call scheduling decisions taken from an injected configuration
//! snapshot: how a session's class steers the write coordinator and the
//! presence check, and which timeouts apply. Nothing here reads ambient
//! state; the caller passes the snapshot values in.

use vstd::prelude::*;

verus! {

/// Default overall deadline for a presence check, in milliseconds, used
/// when the configured value is absent or non-positive.
pub const DEFAULT_IS_PRESENT_TIMEOUT_MS: u64 = 10_000;

/// Default delay before a best-effort write session stops waiting for a
/// straggling store, in milliseconds.
pub const DEFAULT_TOO_SLOW_TIMEOUT_MS: u64 = 5_000;

/// Options handed through to the changeset-derivation layer that sits
/// above the stores: plain configuration data, fixed per call.
#[derive(Clone, Copy, Debug, PartialEq, Eq, Structural)]
pub struct HgChangesetDeriveOptions {
    /// Whether derived changesets record the committer field.
    pub set_committer_field: bool,
}

/// How the caller's session wants multiplexed operations scheduled.
#[derive(Clone, Copy, Debug, PartialEq, Eq, Structural)]
pub enum SessionClass {
    /// A caller is waiting on the answer; confirmations run eagerly.
    UserWaiting,
    /// Background work: wait for every store's write, confirmations lazily.
    Background,
    /// Background work, but stop waiting for stores that are too slow.
    BackgroundUnlessTooSlow,
    /// Presence checks must consult every store, not just the first hit.
    ComprehensiveLookup,
}

/// Whether write confirmations should be polled from the start of a write,
/// rather than only once a raw write has failed or a store became too slow.
pub fn run_handlers_on_success(session: SessionClass) -> (r: bool)
    ensures
        r == !(session is Background || session is BackgroundUnlessTooSlow),
{
    !matches!(session, SessionClass::Background | SessionClass::BackgroundUnlessTooSlow)
}

/// Whether a presence check requires the value in every store rather than
/// in at least one.
pub fn comprehensive_lookup(session: SessionClass) -> (r: bool)
    ensures
        r == (session is ComprehensiveLookup),
{
    matches!(session, SessionClass::ComprehensiveLookup)
}

/// The overall deadline for one presence check, from the configured value:
/// a non-positive or missing configuration falls back to the default.
pub fn is_present_timeout_ms(configured_ms: i64) -> (r: u64)
    ensures
        r == if configured_ms > 0 {
            configured_ms as u64
        } else {
            DEFAULT_IS_PRESENT_TIMEOUT_MS
        },
{
    if configured_ms > 0 {
        configured_ms as u64
    } else {
        DEFAULT_IS_PRESENT_TIMEOUT_MS
    }
}

/// For a best-effort write session, the delay after which the coordinator
/// stops waiting for straggling stores and starts polling confirmations;
/// `None` for every other session class, which never gives up on a store
/// this way.
pub fn too_slow_timer_ms(session: SessionClass, configured_ms: i64) -> (r: Option<u64>)
    ensures
        match r {
            Some(t) => session is BackgroundUnlessTooSlow && t == if configured_ms > 0 {
                configured_ms as u64
            } else {
                DEFAULT_TOO_SLOW_TIMEOUT_MS
            },
            None => !(session is BackgroundUnlessTooSlow),
        },
{
    if matches!(session, SessionClass::BackgroundUnlessTooSlow) {
        if configured_ms > 0 {
            Some(configured_ms as u64)
        } else {
            Some(DEFAULT_TOO_SLOW_TIMEOUT_MS)
        }
    } else {
        None
    }
}

} // verus!
