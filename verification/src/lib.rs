//! Thread stack traces of remote processes, with a self-tracing bridge and a
//! symbolicator.
//!
//! The crate models the three pieces of a ptrace-based tracer: the attach
//! state machine driven per thread, the thread enumeration that converges
//! under churn, and the symbol index that resolves instruction pointers to
//! procedure names.  Decisions are made here, under contracts; the syscalls
//! that carry them out live in the surrounding front-end.

pub mod attach;
pub mod cursor;
pub mod cursor_trace;
pub mod demangle;
pub mod elf;
pub mod enumerate;
pub mod error;
pub mod index;
pub mod remote;
pub mod self_trace;
pub mod wire;

use vstd::prelude::*;

verus! {

/// The address a symbol lookup uses for a frame.
///
/// At a non-signal frame the unwinder reports the return address, one past
/// the calling instruction, so the lookup steps back by one byte.  A signal
/// frame's pointer references the currently executing instruction and is
/// used as is.  A zero pointer is never adjusted, so the adjustment can
/// never underflow.
pub open spec fn spec_adjusted_ip(ip: u64, is_signal: bool) -> u64 {
    if is_signal || ip == 0 {
        ip
    } else {
        (ip - 1) as u64
    }
}

/// Adjusts an instruction pointer before a symbol lookup.
pub fn adjusted_ip(ip: u64, is_signal: bool) -> (r: u64)
    ensures
        r == spec_adjusted_ip(ip, is_signal),
        (is_signal || ip == 0) ==> r == ip,
        (!is_signal && ip != 0) ==> r == ip - 1,
{
    if is_signal || ip == 0 {
        ip
    } else {
        ip - 1
    }
}

} // verus!
