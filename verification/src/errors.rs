//! The failure taxonomy of the capture flow. Every failure is terminal for
//! the call that produced it; none is retried internally.

use vstd::prelude::*;

verus! {

/// The ways a capture operation can fail, as surfaced to the caller.
#[derive(Clone, Copy, Debug, PartialEq, Eq, Structural)]
pub enum OAuthError {
    /// `start` was called while a capture was already pending.
    AlreadyRunning,
    /// The registry mutex was poisoned by a prior panic.
    LockPoisoned,
    /// The bound address is not a plain IP/port pair.
    UnsupportedAddress,
    /// `await` was called with no pending capture.
    ListenerNotStarted,
    /// The background thread ended without delivering a code.
    ListenerClosed,
    /// No redirect arrived within the caller's timeout.
    TimedOut,
}

impl OAuthError {
    /// The descriptive message shown to the caller for this failure.
    pub fn message(&self) -> (r: String)
        ensures
            *self is AlreadyRunning ==> r@ == "OAuth listener already running"@,
            *self is LockPoisoned ==> r@ == "Lock poisoned"@,
            *self is UnsupportedAddress ==> r@ == "Unsupported listener address"@,
            *self is ListenerNotStarted ==> r@ == "OAuth listener not started"@,
            *self is ListenerClosed ==> r@ == "OAuth listener closed"@,
            *self is TimedOut ==> r@ == "OAuth listener timed out"@,
    {
        match self {
            OAuthError::AlreadyRunning => String::from_str("OAuth listener already running"),
            OAuthError::LockPoisoned => String::from_str("Lock poisoned"),
            OAuthError::UnsupportedAddress => String::from_str("Unsupported listener address"),
            OAuthError::ListenerNotStarted => String::from_str("OAuth listener not started"),
            OAuthError::ListenerClosed => String::from_str("OAuth listener closed"),
            OAuthError::TimedOut => String::from_str("OAuth listener timed out"),
        }
    }
}

} // verus!
