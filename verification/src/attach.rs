//! The per-thread attach protocol.
//!
//! Acquiring a stopped thread is a fixed dialogue with the kernel: seize,
//! interrupt, wait — or, on kernels without seize, attach and forward
//! signals until the stop arrives.  The dialogue is driven here as a state
//! machine; the front-end issues the indicated syscall and feeds the result
//! back as an event.

use vstd::prelude::*;

use crate::error::Error;
use crate::error::ErrorKind;

verus! {

/// The errno a ptrace request returns for a vanished thread — also what
/// seize returns on kernels that do not support it (`ESRCH`).
pub const ESRCH: i32 = 3;

/// The errno of an interrupted wait, which is always retried (`EINTR`).
pub const EINTR: i32 = 4;

/// The signal number a newly attached thread stops with (`SIGSTOP`).
pub const SIGSTOP: i32 = 19;

/// Whether a wait status reports a stopped thread, per the status layout
/// used by Linux: the low byte holds `0x7f`.
pub open spec fn spec_wait_stopped(status: i32) -> bool {
    status & 0xff == 0x7f
}

/// Returns whether a wait status reports a stopped thread.
pub fn wait_stopped(status: i32) -> (r: bool)
    ensures
        r == spec_wait_stopped(status),
{
    status & 0xff == 0x7f
}

/// The signal a stopped thread stopped with: the second byte of the status.
pub open spec fn spec_stop_signal(status: i32) -> i32 {
    (status & 0xff00) >> 8
}

/// Returns the signal a stopped thread stopped with.
pub fn stop_signal(status: i32) -> (r: i32)
    ensures
        r == spec_stop_signal(status),
        0 <= r <= 255,
{
    proof {
        assert(0 <= ((status & 0xff00) >> 8) <= 255) by (bit_vector);
    }
    (status & 0xff00) >> 8
}

/// Why an attach dialogue ended without an attached thread.
#[derive(Clone, Copy, PartialEq, Eq, Structural, Debug)]
pub enum AttachFailure {
    /// A ptrace request failed with this errno.
    Request(i32),
    /// A wait failed with this errno (interrupted waits are retried, not
    /// reported).
    Wait(i32),
    /// A wait returned a status that does not report a stop.
    UnexpectedStatus(i32),
}

/// Where the attach dialogue stands.
#[derive(Clone, Copy, PartialEq, Eq, Structural, Debug)]
pub enum AttachPhase {
    /// A seize request is outstanding.
    Seizing,
    /// The seize succeeded; an interrupt request is outstanding.
    Interrupting,
    /// Waiting for the seized thread to stop.
    WaitingSeized,
    /// Fallback for kernels without seize: an attach request is
    /// outstanding.
    Attaching,
    /// Fallback: waiting for the attached thread to stop.
    WaitingAttached,
    /// Fallback: forwarding a signal other than the stop signal, so the
    /// thread can deliver it and stop again.
    Continuing(i32),
    /// Terminal: the thread is stopped and owned.
    Attached,
    /// Terminal: the dialogue failed.
    Failed(AttachFailure),
}

/// What the front-end reports back after carrying out the indicated action.
#[derive(Clone, Copy, PartialEq, Eq, Structural, Debug)]
pub enum AttachEvent {
    /// The outstanding ptrace request returned zero.
    RequestSucceeded,
    /// The outstanding ptrace request failed with this errno.
    RequestFailed(i32),
    /// The wait returned this status.
    WaitReturned(i32),
    /// The wait failed with this errno.
    WaitFailed(i32),
}

/// The syscall the front-end must issue next for a phase.
#[derive(Clone, Copy, PartialEq, Eq, Structural, Debug)]
pub enum AttachAction {
    /// Issue `PTRACE_SEIZE` on the thread.
    Seize,
    /// Issue `PTRACE_INTERRUPT` on the thread.
    Interrupt,
    /// Wait on the thread, with the flag that covers clone children.
    Wait,
    /// Issue `PTRACE_ATTACH` on the thread.
    Attach,
    /// Issue `PTRACE_CONT` forwarding this signal.
    ContinueSignal(i32),
    /// The dialogue is over; no further syscall is wanted.
    Stop,
}

/// Whether an event is an answer to the syscall a phase has outstanding.
pub open spec fn spec_event_fits(p: AttachPhase, e: AttachEvent) -> bool {
    match p {
        AttachPhase::Seizing => e is RequestSucceeded || e is RequestFailed,
        AttachPhase::Interrupting => e is RequestSucceeded || e is RequestFailed,
        AttachPhase::Attaching => e is RequestSucceeded || e is RequestFailed,
        AttachPhase::Continuing(_) => e is RequestSucceeded || e is RequestFailed,
        AttachPhase::WaitingSeized => e is WaitReturned || e is WaitFailed,
        AttachPhase::WaitingAttached => e is WaitReturned || e is WaitFailed,
        AttachPhase::Attached => false,
        AttachPhase::Failed(_) => false,
    }
}

/// The transition table of the attach dialogue.
///
/// The seize path demands a stop; any other wait status is an error.  A
/// seize refused with `ESRCH` switches to the attach fallback, where every
/// signal other than the stop signal is forwarded and waited out.
/// Interrupted waits repeat the wait in both paths.
pub open spec fn spec_attach_step(p: AttachPhase, e: AttachEvent) -> AttachPhase {
    match (p, e) {
        (AttachPhase::Seizing, AttachEvent::RequestSucceeded) => AttachPhase::Interrupting,
        (AttachPhase::Seizing, AttachEvent::RequestFailed(err)) => if err == ESRCH {
            AttachPhase::Attaching
        } else {
            AttachPhase::Failed(AttachFailure::Request(err))
        },
        (AttachPhase::Interrupting, AttachEvent::RequestSucceeded) => AttachPhase::WaitingSeized,
        (AttachPhase::Interrupting, AttachEvent::RequestFailed(err)) => AttachPhase::Failed(
            AttachFailure::Request(err),
        ),
        (AttachPhase::WaitingSeized, AttachEvent::WaitFailed(err)) => if err == EINTR {
            AttachPhase::WaitingSeized
        } else {
            AttachPhase::Failed(AttachFailure::Wait(err))
        },
        (AttachPhase::WaitingSeized, AttachEvent::WaitReturned(status)) => if spec_wait_stopped(
            status,
        ) {
            AttachPhase::Attached
        } else {
            AttachPhase::Failed(AttachFailure::UnexpectedStatus(status))
        },
        (AttachPhase::Attaching, AttachEvent::RequestSucceeded) => AttachPhase::WaitingAttached,
        (AttachPhase::Attaching, AttachEvent::RequestFailed(err)) => AttachPhase::Failed(
            AttachFailure::Request(err),
        ),
        (AttachPhase::WaitingAttached, AttachEvent::WaitFailed(err)) => if err == EINTR {
            AttachPhase::WaitingAttached
        } else {
            AttachPhase::Failed(AttachFailure::Wait(err))
        },
        (AttachPhase::WaitingAttached, AttachEvent::WaitReturned(status)) => if !spec_wait_stopped(
            status,
        ) {
            AttachPhase::Failed(AttachFailure::UnexpectedStatus(status))
        } else if spec_stop_signal(status) == SIGSTOP {
            AttachPhase::Attached
        } else {
            AttachPhase::Continuing(spec_stop_signal(status))
        },
        (AttachPhase::Continuing(_), AttachEvent::RequestSucceeded) => AttachPhase::WaitingAttached,
        (AttachPhase::Continuing(_), AttachEvent::RequestFailed(err)) => AttachPhase::Failed(
            AttachFailure::Request(err),
        ),
        (_, _) => p,
    }
}

/// The phase an attach dialogue opens with: a seize request.
pub fn attach_start() -> (r: AttachPhase)
    ensures
        r == AttachPhase::Seizing,
{
    AttachPhase::Seizing
}

/// Returns the syscall the front-end must issue for the given phase.
pub fn attach_action(p: &AttachPhase) -> (r: AttachAction)
    ensures
        r == match *p {
            AttachPhase::Seizing => AttachAction::Seize,
            AttachPhase::Interrupting => AttachAction::Interrupt,
            AttachPhase::WaitingSeized => AttachAction::Wait,
            AttachPhase::Attaching => AttachAction::Attach,
            AttachPhase::WaitingAttached => AttachAction::Wait,
            AttachPhase::Continuing(sig) => AttachAction::ContinueSignal(sig),
            AttachPhase::Attached => AttachAction::Stop,
            AttachPhase::Failed(_) => AttachAction::Stop,
        },
{
    match *p {
        AttachPhase::Seizing => AttachAction::Seize,
        AttachPhase::Interrupting => AttachAction::Interrupt,
        AttachPhase::WaitingSeized => AttachAction::Wait,
        AttachPhase::Attaching => AttachAction::Attach,
        AttachPhase::WaitingAttached => AttachAction::Wait,
        AttachPhase::Continuing(sig) => AttachAction::ContinueSignal(sig),
        AttachPhase::Attached => AttachAction::Stop,
        AttachPhase::Failed(_) => AttachAction::Stop,
    }
}

/// Advances the attach dialogue by one event.
pub fn attach_step(p: AttachPhase, e: AttachEvent) -> (next: AttachPhase)
    requires
        spec_event_fits(p, e),
    ensures
        next == spec_attach_step(p, e),
        p == AttachPhase::Seizing && e == AttachEvent::RequestFailed(ESRCH) ==> next
            == AttachPhase::Attaching,
{
    match (p, e) {
        (AttachPhase::Seizing, AttachEvent::RequestSucceeded) => AttachPhase::Interrupting,
        (AttachPhase::Seizing, AttachEvent::RequestFailed(err)) => {
            if err == ESRCH {
                AttachPhase::Attaching
            } else {
                AttachPhase::Failed(AttachFailure::Request(err))
            }
        },
        (AttachPhase::Interrupting, AttachEvent::RequestSucceeded) => AttachPhase::WaitingSeized,
        (AttachPhase::Interrupting, AttachEvent::RequestFailed(err)) => AttachPhase::Failed(
            AttachFailure::Request(err),
        ),
        (AttachPhase::WaitingSeized, AttachEvent::WaitFailed(err)) => {
            if err == EINTR {
                AttachPhase::WaitingSeized
            } else {
                AttachPhase::Failed(AttachFailure::Wait(err))
            }
        },
        (AttachPhase::WaitingSeized, AttachEvent::WaitReturned(status)) => {
            if wait_stopped(status) {
                AttachPhase::Attached
            } else {
                AttachPhase::Failed(AttachFailure::UnexpectedStatus(status))
            }
        },
        (AttachPhase::Attaching, AttachEvent::RequestSucceeded) => AttachPhase::WaitingAttached,
        (AttachPhase::Attaching, AttachEvent::RequestFailed(err)) => AttachPhase::Failed(
            AttachFailure::Request(err),
        ),
        (AttachPhase::WaitingAttached, AttachEvent::WaitFailed(err)) => {
            if err == EINTR {
                AttachPhase::WaitingAttached
            } else {
                AttachPhase::Failed(AttachFailure::Wait(err))
            }
        },
        (AttachPhase::WaitingAttached, AttachEvent::WaitReturned(status)) => {
            if !wait_stopped(status) {
                AttachPhase::Failed(AttachFailure::UnexpectedStatus(status))
            } else {
                let sig = stop_signal(status);
                if sig == SIGSTOP {
                    AttachPhase::Attached
                } else {
                    AttachPhase::Continuing(sig)
                }
            }
        },
        (AttachPhase::Continuing(_), AttachEvent::RequestSucceeded) => AttachPhase::WaitingAttached,
        (AttachPhase::Continuing(_), AttachEvent::RequestFailed(err)) => AttachPhase::Failed(
            AttachFailure::Request(err),
        ),
        (other, _) => other,
    }
}

/// A resource handle over the attached ptrace state of one thread: the
/// thread's identifier, and whether releasing the handle must detach.  A
/// handle over a thread the caller already controls does not detach.
#[derive(Clone, Copy, PartialEq, Eq, Structural, Debug)]
pub struct TracedThread {
    /// The thread's identifier.
    pub id: u32,
    /// Whether releasing the handle must issue a detach request.
    pub should_detach: bool,
}

impl TracedThread {
    /// Wraps a thread the caller already controls; releasing such a handle
    /// must not detach.
    pub fn traced(tid: u32) -> (r: TracedThread)
        ensures
            r.id == tid,
            !r.should_detach,
    {
        TracedThread { id: tid, should_detach: false }
    }

    /// Returns whether releasing this handle must issue a detach request.
    pub fn needs_detach(&self) -> (r: bool)
        ensures
            r == self.should_detach,
    {
        self.should_detach
    }
}

/// Turns a finished attach dialogue into its result: the handle for an
/// attached thread — which always detaches on release — or the error, a
/// ptrace failure classed as such, a wait failure classed as an I/O
/// failure, and an unexpected wait status classed as an I/O failure that
/// carries no OS error number — so it can never pass for a vanished
/// thread.
pub fn attach_outcome(tid: u32, p: &AttachPhase) -> (r: Result<TracedThread, Error>)
    requires
        p is Attached || p is Failed,
    ensures
        p is Attached ==> (r matches Ok(t) && t == (TracedThread { id: tid, should_detach: true })),
        *p matches AttachPhase::Failed(AttachFailure::Request(err)) ==> (r matches Err(e)
            && e.spec_kind() == ErrorKind::Ptrace && e.spec_code() == Some(err)),
        *p matches AttachPhase::Failed(AttachFailure::Wait(err)) ==> (r matches Err(e)
            && e.spec_kind() == ErrorKind::Io && e.spec_code() == Some(err)),
        *p matches AttachPhase::Failed(AttachFailure::UnexpectedStatus(status)) ==> (r matches Err(e)
            && e.spec_kind() == ErrorKind::Io && e.spec_code() is None),
{
    match *p {
        AttachPhase::Failed(AttachFailure::Request(err)) => Err(
            Error::from_os(ErrorKind::Ptrace, err),
        ),
        AttachPhase::Failed(AttachFailure::Wait(err)) => Err(Error::from_os(ErrorKind::Io, err)),
        AttachPhase::Failed(AttachFailure::UnexpectedStatus(_)) => Err(
            Error::with_detail(ErrorKind::Io, String::from_str("unexpected wait status")),
        ),
        _ => Ok(TracedThread { id: tid, should_detach: true }),
    }
}

/// The fallback is transparent: a seize refused as unsupported moves to the
/// attach path, both paths accept a stop into the same terminal phase, and
/// the handle a caller receives is the same either way.
pub proof fn lemma_fallback_transparent(status: i32)
    ensures
        spec_attach_step(AttachPhase::Seizing, AttachEvent::RequestFailed(ESRCH))
            == AttachPhase::Attaching,
        spec_wait_stopped(status) ==> spec_attach_step(
            AttachPhase::WaitingSeized,
            AttachEvent::WaitReturned(status),
        ) == AttachPhase::Attached,
        spec_wait_stopped(status) && spec_stop_signal(status) == SIGSTOP ==> spec_attach_step(
            AttachPhase::WaitingAttached,
            AttachEvent::WaitReturned(status),
        ) == AttachPhase::Attached,
{
}

} // verus!
