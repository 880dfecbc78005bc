use std::time::Duration;
use std::time::Instant;

use daylight::errors::OAuthError;
use daylight::listener::AwaitEvent;
use daylight::listener::CaptureSession;
use daylight::listener::ListenAddr;
use daylight::listener::ListenerSlot;
use daylight::listener::listen_addr_port;
use daylight::listener::resolve_await;

fn runtime() -> tokio::runtime::Runtime {
    tokio::runtime::Builder::new_current_thread()
        .enable_time()
        .build()
        .unwrap()
}

#[test]
fn second_start_is_rejected() {
    let mut slot = ListenerSlot::new();
    let (_tx1, rx1) = tokio::sync::oneshot::channel::<String>();
    assert!(slot.install(rx1).is_ok());
    let (_tx2, rx2) = tokio::sync::oneshot::channel::<String>();
    assert_eq!(slot.install(rx2), Err(OAuthError::AlreadyRunning));
}

#[test]
fn second_begin_capture_is_rejected() {
    let mut slot = ListenerSlot::new();
    let first = slot.begin_capture(ListenAddr::Ip { port: 4321 });
    let (port, _tx) = first.unwrap();
    assert_eq!(port, 4321);
    match slot.begin_capture(ListenAddr::Ip { port: 4321 }) {
        Err(e) => {
            assert_eq!(e, OAuthError::AlreadyRunning);
            assert_eq!(e.message(), "OAuth listener already running");
        },
        Ok(_) => panic!("a second capture must be rejected"),
    }
}

#[test]
fn await_without_start_is_rejected() {
    let mut slot = ListenerSlot::new();
    match slot.take() {
        Err(e) => {
            assert_eq!(e, OAuthError::ListenerNotStarted);
            assert_eq!(e.message(), "OAuth listener not started");
        },
        Ok(_) => panic!("an empty slot must reject the take"),
    }
}

#[test]
fn start_then_await_then_await_again() {
    let mut slot = ListenerSlot::new();
    let (_tx, rx) = tokio::sync::oneshot::channel::<String>();
    assert!(slot.install(rx).is_ok());
    assert!(slot.take().is_ok());
    assert_eq!(slot.take().err(), Some(OAuthError::ListenerNotStarted));
}

#[test]
fn unsupported_address_is_rejected() {
    assert_eq!(listen_addr_port(ListenAddr::Ip { port: 8080 }), Ok(8080));
    let r = listen_addr_port(ListenAddr::NonIp);
    assert_eq!(r, Err(OAuthError::UnsupportedAddress));
    assert_eq!(OAuthError::UnsupportedAddress.message(), "Unsupported listener address");
}

#[test]
fn begin_capture_on_non_ip_leaves_slot_empty() {
    let mut slot = ListenerSlot::new();
    match slot.begin_capture(ListenAddr::NonIp) {
        Err(e) => assert_eq!(e, OAuthError::UnsupportedAddress),
        Ok(_) => panic!("a non-IP address must be rejected"),
    }
    assert_eq!(slot.take().err(), Some(OAuthError::ListenerNotStarted));
}

#[test]
fn await_outcomes_map_to_results() {
    let delivered = resolve_await(AwaitEvent::Delivered { code: String::from("abc") });
    assert_eq!(delivered, Ok(String::from("abc")));
    let closed = resolve_await(AwaitEvent::Closed);
    assert_eq!(closed.as_ref().err().map(|e| e.message()), Some(String::from(
        "OAuth listener closed",
    )));
    assert_eq!(closed, Err(OAuthError::ListenerClosed));
    let expired = resolve_await(AwaitEvent::Expired);
    assert_eq!(expired, Err(OAuthError::TimedOut));
    assert_eq!(OAuthError::TimedOut.message(), "OAuth listener timed out");
    assert_eq!(OAuthError::LockPoisoned.message(), "Lock poisoned");
}

#[test]
fn timeout_with_no_redirect_times_out_quickly() {
    let mut slot = ListenerSlot::new();
    let (_tx, rx) = tokio::sync::oneshot::channel::<String>();
    assert!(slot.install(rx).is_ok());
    let rx = slot.take().unwrap();
    let started = Instant::now();
    let rt = runtime();
    let ev = rt.block_on(async {
        match tokio::time::timeout(Duration::from_millis(50), rx).await {
            Ok(Ok(code)) => AwaitEvent::Delivered { code },
            Ok(Err(_)) => AwaitEvent::Closed,
            Err(_) => AwaitEvent::Expired,
        }
    });
    let elapsed = started.elapsed();
    assert_eq!(resolve_await(ev), Err(OAuthError::TimedOut));
    assert!(elapsed >= Duration::from_millis(45), "elapsed {:?}", elapsed);
    assert!(elapsed < Duration::from_secs(5), "elapsed {:?}", elapsed);
}

#[test]
fn delivered_code_arrives_before_timeout() {
    let (tx, rx) = tokio::sync::oneshot::channel::<String>();
    tx.send(String::from("abc123")).unwrap();
    let rt = runtime();
    let ev = rt.block_on(async {
        match tokio::time::timeout(Duration::from_millis(5000), rx).await {
            Ok(Ok(code)) => AwaitEvent::Delivered { code },
            Ok(Err(_)) => AwaitEvent::Closed,
            Err(_) => AwaitEvent::Expired,
        }
    });
    assert_eq!(resolve_await(ev), Ok(String::from("abc123")));
}

#[test]
fn dropped_sender_reports_listener_closed() {
    let (tx, rx) = tokio::sync::oneshot::channel::<String>();
    drop(tx);
    let rt = runtime();
    let ev = rt.block_on(async {
        match tokio::time::timeout(Duration::from_millis(5000), rx).await {
            Ok(Ok(code)) => AwaitEvent::Delivered { code },
            Ok(Err(_)) => AwaitEvent::Closed,
            Err(_) => AwaitEvent::Expired,
        }
    });
    assert_eq!(resolve_await(ev), Err(OAuthError::ListenerClosed));
}

#[test]
fn session_completes_on_code_and_never_again() {
    let mut session = CaptureSession::new();
    assert!(!session.finished());

    let waiting = session.process_request("/callback?state=xyz");
    assert_eq!(waiting.body, "Waiting for authorization. You may close this window.");
    assert_eq!(waiting.code, None);
    assert!(!session.finished());

    let done = session.process_request("/callback?code=abc123&state=xyz");
    assert_eq!(done.body, "Authorization complete. You may close this window.");
    assert_eq!(done.code, Some(String::from("abc123")));
    assert!(session.finished());

    let after = session.process_request("/callback?code=second");
    assert_eq!(after.code, None);
    assert!(session.finished());
}

#[test]
fn accept_error_surfaces_as_listener_closed() {
    let mut slot = ListenerSlot::new();
    let (tx, rx) = tokio::sync::oneshot::channel::<String>();
    assert!(slot.install(rx).is_ok());
    // The background thread exits without sending, as after an accept error.
    drop(tx);
    let rx = slot.take().unwrap();
    let rt = runtime();
    let ev = rt.block_on(async {
        match tokio::time::timeout(Duration::from_millis(5000), rx).await {
            Ok(Ok(code)) => AwaitEvent::Delivered { code },
            Ok(Err(_)) => AwaitEvent::Closed,
            Err(_) => AwaitEvent::Expired,
        }
    });
    assert_eq!(resolve_await(ev), Err(OAuthError::ListenerClosed));
}

#[test]
fn capture_session_drives_the_accept_loop_end_to_end() {
    // The accept loop of a capture, driven by the redirect URLs it would
    // see on the wire: exactly the requests of an OAuth redirect exchange.
    let mut slot = ListenerSlot::new();
    let (port, tx) = slot.begin_capture(ListenAddr::Ip { port: 49152 }).unwrap();
    assert_eq!(port, 49152);

    let mut session = CaptureSession::new();
    let probe = session.process_request("/callback?state=only");
    assert_eq!(probe.body, "Waiting for authorization. You may close this window.");
    assert!(probe.code.is_none());

    let redirect = session.process_request("/callback?code=abc123&state=xyz");
    assert_eq!(redirect.body, "Authorization complete. You may close this window.");
    let code = redirect.code.expect("the redirect carries the code");
    assert!(tx.send(code).is_ok());
    assert!(session.finished());

    let rx = slot.take().unwrap();
    let rt = runtime();
    let ev = rt.block_on(async {
        match tokio::time::timeout(Duration::from_millis(5000), rx).await {
            Ok(Ok(code)) => AwaitEvent::Delivered { code },
            Ok(Err(_)) => AwaitEvent::Closed,
            Err(_) => AwaitEvent::Expired,
        }
    });
    assert_eq!(resolve_await(ev), Ok(String::from("abc123")));

    // After delivery the session accepts nothing further.
    let late = session.process_request("/callback?code=second");
    assert!(late.code.is_none());
}
