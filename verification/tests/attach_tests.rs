//! Tests of the attach dialogue: the seize path, the transparent fallback,
//! the wait-status decoding, and the error classification.

use rstack::attach::attach_action;
use rstack::attach::attach_outcome;
use rstack::attach::attach_start;
use rstack::attach::attach_step;
use rstack::attach::stop_signal;
use rstack::attach::wait_stopped;
use rstack::attach::AttachAction;
use rstack::attach::AttachEvent;
use rstack::attach::AttachPhase;
use rstack::attach::TracedThread;
use rstack::attach::EINTR;
use rstack::attach::ESRCH;
use rstack::attach::SIGSTOP;
use rstack::error::ErrorKind;

/// A wait status reporting a stop with the given signal.
fn stopped_status(sig: i32) -> i32 {
    (sig << 8) | 0x7f
}

#[test]
fn seize_path_attaches() {
    let mut p = attach_start();
    assert_eq!(p, AttachPhase::Seizing);
    assert_eq!(attach_action(&p), AttachAction::Seize);
    p = attach_step(p, AttachEvent::RequestSucceeded);
    assert_eq!(attach_action(&p), AttachAction::Interrupt);
    p = attach_step(p, AttachEvent::RequestSucceeded);
    assert_eq!(attach_action(&p), AttachAction::Wait);
    p = attach_step(p, AttachEvent::WaitReturned(stopped_status(SIGSTOP)));
    assert_eq!(p, AttachPhase::Attached);
    assert_eq!(attach_action(&p), AttachAction::Stop);
    let t = attach_outcome(1234, &p).expect("attached");
    assert_eq!(t.id, 1234);
    assert!(t.needs_detach());
}

#[test]
fn seize_path_accepts_any_stop_signal() {
    // the seize path demands a stop but not a particular signal
    let p = attach_step(
        AttachPhase::WaitingSeized,
        AttachEvent::WaitReturned(stopped_status(5)),
    );
    assert_eq!(p, AttachPhase::Attached);
}

#[test]
fn fallback_is_transparent() {
    // a kernel without seize answers the seize request with ESRCH
    let mut p = attach_start();
    p = attach_step(p, AttachEvent::RequestFailed(ESRCH));
    assert_eq!(p, AttachPhase::Attaching);
    assert_eq!(attach_action(&p), AttachAction::Attach);
    p = attach_step(p, AttachEvent::RequestSucceeded);
    assert_eq!(attach_action(&p), AttachAction::Wait);
    // a pending SIGCHLD arrives first and is forwarded
    p = attach_step(p, AttachEvent::WaitReturned(stopped_status(17)));
    assert_eq!(p, AttachPhase::Continuing(17));
    assert_eq!(attach_action(&p), AttachAction::ContinueSignal(17));
    p = attach_step(p, AttachEvent::RequestSucceeded);
    // then the stop signal lands
    p = attach_step(p, AttachEvent::WaitReturned(stopped_status(SIGSTOP)));
    assert_eq!(p, AttachPhase::Attached);

    // the caller observes exactly what the seize path would hand out
    let via_fallback = attach_outcome(77, &p).expect("attached");
    let via_seize = attach_outcome(77, &AttachPhase::Attached).expect("attached");
    assert_eq!(via_fallback, via_seize);
    assert_eq!(via_fallback, TracedThread { id: 77, should_detach: true });
}

#[test]
fn interrupted_waits_repeat() {
    let p = attach_step(AttachPhase::WaitingSeized, AttachEvent::WaitFailed(EINTR));
    assert_eq!(p, AttachPhase::WaitingSeized);
    let p = attach_step(AttachPhase::WaitingAttached, AttachEvent::WaitFailed(EINTR));
    assert_eq!(p, AttachPhase::WaitingAttached);
}

#[test]
fn unexpected_wait_status_fails_without_os_code() {
    // status 0 reports an exit, not a stop
    let p = attach_step(AttachPhase::WaitingSeized, AttachEvent::WaitReturned(0));
    let e = attach_outcome(5, &p).expect_err("not a stop");
    assert_eq!(e.kind(), ErrorKind::Io);
    assert_eq!(e.code(), None);
    assert_eq!(e.detail(), "unexpected wait status");
}

#[test]
fn request_failures_classify_as_ptrace_errors() {
    // EACCES from the interrupt request
    let p = attach_step(AttachPhase::Interrupting, AttachEvent::RequestFailed(13));
    let e = attach_outcome(5, &p).expect_err("refused");
    assert_eq!(e.kind(), ErrorKind::Ptrace);
    assert_eq!(e.code(), Some(13));
}

#[test]
fn wait_failures_classify_as_io_errors() {
    let p = attach_step(AttachPhase::WaitingAttached, AttachEvent::WaitFailed(10));
    let e = attach_outcome(5, &p).expect_err("wait failed");
    assert_eq!(e.kind(), ErrorKind::Io);
    assert_eq!(e.code(), Some(10));
}

#[test]
fn vanished_thread_surfaces_its_errno() {
    // on the fallback path a dead thread fails the attach request with
    // ESRCH; the enumeration skips such threads
    let p = attach_step(AttachPhase::Attaching, AttachEvent::RequestFailed(ESRCH));
    let e = attach_outcome(5, &p).expect_err("vanished");
    assert_eq!(e.code(), Some(ESRCH));
}

#[test]
fn already_traced_threads_do_not_detach() {
    let t = TracedThread::traced(99);
    assert_eq!(t.id, 99);
    assert!(!t.needs_detach());
}

#[test]
fn wait_status_decoding() {
    assert!(wait_stopped(0x7f));
    assert!(wait_stopped(stopped_status(SIGSTOP)));
    assert!(!wait_stopped(0)); // exited
    assert!(!wait_stopped(9)); // killed by a signal
    assert_eq!(stop_signal(stopped_status(SIGSTOP)), SIGSTOP);
    assert_eq!(stop_signal(stopped_status(17)), 17);
}
