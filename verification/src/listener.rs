//! The capture lifecycle: the process-wide registry slot that holds at most
//! one pending receiving end, the per-request decision of the accept loop,
//! the port resolution of the bound address, and the mapping of an await
//! outcome to the caller's result.
//!
//! The slot is a plain value with exclusive (`&mut`) access; its owner wraps
//! it in whatever mutual exclusion the surrounding runtime needs and keeps
//! the critical sections to these calls alone.

use vstd::prelude::*;

use crate::errors::OAuthError;
use crate::query::extract_code;
use crate::query::spec_extract_code;
use tokio::sync::oneshot::Receiver;
use tokio::sync::oneshot::Sender;

verus! {

#[verifier::external_type_specification]
#[verifier::external_body]
#[verifier::reject_recursive_types(T)]
pub struct ExSender<T>(Sender<T>);

#[verifier::external_type_specification]
#[verifier::external_body]
#[verifier::reject_recursive_types(T)]
pub struct ExReceiver<T>(Receiver<T>);

#[verifier::external_type_specification]
#[verifier::external_body]
pub struct ExRecvError(tokio::sync::oneshot::error::RecvError);

/// Relies on `tokio::sync::oneshot::channel`: it returns the two ends of a
/// fresh one-shot channel.
#[verifier::external_body]
fn oneshot_pair() -> (r: (Sender<String>, Receiver<String>)) {
    tokio::sync::oneshot::channel()
}

/// What the accept loop sees of the bound listening address: a plain IP
/// address carrying its port, or some other, unsupported representation
/// (such as a platform-specific abstract socket).
#[derive(Clone, Copy, Debug)]
pub enum ListenAddr {
    Ip { port: u16 },
    NonIp,
}

/// The numeric port of a bound address, or `UnsupportedAddress` for any
/// non-IP listener representation.
pub fn listen_addr_port(addr: ListenAddr) -> (r: Result<u16, OAuthError>)
    ensures
        addr matches ListenAddr::Ip { port } ==> (r matches Ok(p) && p == port),
        addr is NonIp ==> (r matches Err(e) && e == OAuthError::UnsupportedAddress),
{
    match addr {
        ListenAddr::Ip { port } => Ok(port),
        ListenAddr::NonIp => Err(OAuthError::UnsupportedAddress),
    }
}

/// The singleton registry slot: holds the receiving end of the pending
/// capture between a successful `start` and the matching `await`.
pub struct ListenerSlot {
    pending: Option<Receiver<String>>,
}

impl ListenerSlot {
    /// The receiving end currently held, if any.
    pub closed spec fn stored(self) -> Option<Receiver<String>> {
        self.pending
    }

    /// Whether a capture is pending: a receiving end is waiting to be taken.
    pub open spec fn is_pending(self) -> bool {
        self.stored() is Some
    }

    /// A fresh, empty slot.
    pub fn new() -> (r: ListenerSlot)
        ensures
            !r.is_pending(),
    {
        ListenerSlot { pending: None }
    }

    /// Whether a capture is pending.
    pub fn pending(&self) -> (r: bool)
        ensures
            r == self.is_pending(),
    {
        self.pending.is_some()
    }

    /// The check-and-set of `start`: a second start while a capture is
    /// pending is rejected with `AlreadyRunning` and changes nothing; on an
    /// empty slot the receiving end is stored.
    pub fn install(&mut self, rx: Receiver<String>) -> (r: Result<(), OAuthError>)
        ensures
            old(self).is_pending() ==> (r matches Err(e) && e == OAuthError::AlreadyRunning
                && *final(self) == *old(self)),
            !old(self).is_pending() ==> r is Ok && final(self).stored() == Some(rx),
    {
        if self.pending.is_some() {
            Err(OAuthError::AlreadyRunning)
        } else {
            self.pending = Some(rx);
            Ok(())
        }
    }

    /// The take-if-present of `await`: with no pending capture the call is
    /// rejected with `ListenerNotStarted` and changes nothing; otherwise the
    /// receiving end is removed, so only one waiter can ever obtain it.
    pub fn take(&mut self) -> (r: Result<Receiver<String>, OAuthError>)
        ensures
            !old(self).is_pending() ==> (r matches Err(e) && e == OAuthError::ListenerNotStarted
                && *final(self) == *old(self)),
            old(self).is_pending() ==> (r matches Ok(rx) && Some(rx) == old(self).stored()
                && !final(self).is_pending()),
    {
        match self.pending.take() {
            Some(rx) => Ok(rx),
            None => Err(OAuthError::ListenerNotStarted),
        }
    }

    /// The registry side of `start`, once the listener is bound: rejects a
    /// second capture, resolves the port, and stores the receiving end of a
    /// fresh one-shot channel, handing back the port and the sending end for
    /// the accept loop.
    pub fn begin_capture(&mut self, addr: ListenAddr) -> (r: Result<
        (u16, Sender<String>),
        OAuthError,
    >)
        ensures
            old(self).is_pending() ==> (r matches Err(e) && e == OAuthError::AlreadyRunning
                && *final(self) == *old(self)),
            !old(self).is_pending() && addr is NonIp ==> (r matches Err(e) && e
                == OAuthError::UnsupportedAddress && *final(self) == *old(self)),
            !old(self).is_pending() ==> (addr matches ListenAddr::Ip { port } ==> (r matches Ok(
                p,
            ) && p.0 == port && final(self).is_pending())),
    {
        if self.pending.is_some() {
            return Err(OAuthError::AlreadyRunning);
        }
        let port = match listen_addr_port(addr) {
            Ok(p) => p,
            Err(e) => {
                return Err(e);
            },
        };
        let (tx, rx) = oneshot_pair();
        match self.install(rx) {
            Ok(()) => Ok((port, tx)),
            Err(e) => Err(e),
        }
    }
}

/// What the waiter observed once its race between the channel and the
/// timeout settled.
pub enum AwaitEvent {
    /// The code arrived before the timeout.
    Delivered { code: String },
    /// The sending end was dropped without a value.
    Closed,
    /// The timeout elapsed first.
    Expired,
}

/// The caller's result for each await outcome: the code when it arrived,
/// `ListenerClosed` when the background thread ended without delivering,
/// `TimedOut` when the timeout elapsed first.
pub fn resolve_await(ev: AwaitEvent) -> (r: Result<String, OAuthError>)
    ensures
        ev matches AwaitEvent::Delivered { code } ==> (r matches Ok(c) && c@ == code@),
        ev is Closed ==> (r matches Err(e) && e == OAuthError::ListenerClosed),
        ev is Expired ==> (r matches Err(e) && e == OAuthError::TimedOut),
{
    match ev {
        AwaitEvent::Delivered { code } => Ok(code),
        AwaitEvent::Closed => Err(OAuthError::ListenerClosed),
        AwaitEvent::Expired => Err(OAuthError::TimedOut),
    }
}

/// The fixed body served when the redirect carried a code.
pub open spec fn completion_message() -> Seq<char> {
    "Authorization complete. You may close this window."@
}

/// The fixed body served while no code has arrived.
pub open spec fn waiting_message() -> Seq<char> {
    "Waiting for authorization. You may close this window."@
}

/// What the accept loop does with one request: the fixed body to respond
/// with, and the extracted code when this request completes the capture.
pub struct RequestOutcome {
    /// The plain-text response body for this request.
    pub body: String,
    /// The code to deliver, exactly when this request completed the capture.
    pub code: Option<String>,
}

/// Whether the capture is over after one more request: it is over once it
/// was over, or once a request carried a `code` parameter.
pub open spec fn step_finished(finished: bool, url: Seq<char>) -> bool {
    finished || spec_extract_code(url) is Some
}

/// The accept loop of one capture, as a state machine over the request
/// URLs it sees. It finishes on the first request that carries a code, and
/// a finished session never delivers again.
pub struct CaptureSession {
    finished: bool,
}

impl CaptureSession {
    /// Whether the capture has delivered its code and the loop is over.
    pub closed spec fn is_finished(self) -> bool {
        self.finished
    }

    /// A session that has not yet seen a code.
    pub fn new() -> (r: CaptureSession)
        ensures
            !r.is_finished(),
    {
        CaptureSession { finished: false }
    }

    /// Whether the capture has delivered its code and the loop is over.
    pub fn finished(&self) -> (r: bool)
        ensures
            r == self.is_finished(),
    {
        self.finished
    }

    /// One request: extract the code, choose the fixed response body, and
    /// finish the session when a code was found. A session that already
    /// finished delivers nothing more.
    pub fn process_request(&mut self, url: &str) -> (r: RequestOutcome)
        ensures
            final(self).is_finished() == step_finished(old(self).is_finished(), url@),
            old(self).is_finished() ==> r.code is None,
            !old(self).is_finished() ==> (r.code is Some <==> spec_extract_code(url@) is Some),
            !old(self).is_finished() ==> (r.code matches Some(c) ==> Some(c@)
                == spec_extract_code(url@)),
            r.code is Some ==> r.body@ == completion_message(),
            r.code is None ==> r.body@ == waiting_message(),
    {
        if self.finished {
            return RequestOutcome {
                body: String::from_str("Waiting for authorization. You may close this window."),
                code: None,
            };
        }
        match extract_code(url) {
            Some(code) => {
                self.finished = true;
                RequestOutcome {
                    body: String::from_str(
                        "Authorization complete. You may close this window.",
                    ),
                    code: Some(code),
                }
            },
            None => RequestOutcome {
                body: String::from_str("Waiting for authorization. You may close this window."),
                code: None,
            },
        }
    }
}

/// How many codes a run of requests delivers, starting from a given
/// finished-state: one for each request that completes the capture.
pub open spec fn deliveries(finished: bool, urls: Seq<Seq<char>>) -> nat
    decreases urls.len(),
{
    if urls.len() == 0 {
        0
    } else {
        let emitted: nat = if !finished && spec_extract_code(urls[0]) is Some {
            1
        } else {
            0
        };
        (emitted + deliveries(step_finished(finished, urls[0]), urls.drop_first())) as nat
    }
}

/// Law: over any run of requests, a capture delivers at most one code, and
/// a finished capture delivers none.
pub proof fn lemma_at_most_one_delivery(finished: bool, urls: Seq<Seq<char>>)
    ensures
        deliveries(finished, urls) <= 1,
        finished ==> deliveries(finished, urls) == 0,
    decreases urls.len(),
{
    if urls.len() > 0 {
        lemma_at_most_one_delivery(step_finished(finished, urls[0]), urls.drop_first());
    }
}

} // verus!
