//! The data a per-thread unwinding cursor yields.
//!
//! The unwinding engine itself is a pluggable backend behind a narrow
//! interface: per frame it reports the instruction pointer, whether the
//! frame was pushed by a signal, and — when it can — the procedure's raw
//! name and bounds.  Those reports are carried here as plain records, and
//! the nul-terminated name buffer the engine fills is decoded here.
//!
//! Some old backends walk off the end of a stack and report a final frame
//! at pointer zero.  The check for that is cheap and defensive, so a
//! driver treats a zero pointer as an implicit end of stack
//! unconditionally rather than guessing at the backend's version.

use vstd::prelude::*;

use crate::demangle;
use crate::demangle::lossy_utf8_of;

verus! {

/// The name of the procedure at a frame, with the instruction pointer's
/// offset from the procedure's start.
pub struct ProcedureName {
    /// The procedure's name, as the backend reported it.
    pub name: String,
    /// The offset of the frame's instruction pointer from the procedure's
    /// starting address.
    pub offset: u64,
}

impl ProcedureName {
    /// Builds a procedure name record.
    pub fn new(name: String, offset: u64) -> (r: ProcedureName)
        ensures
            r.name == name,
            r.offset == offset,
    {
        ProcedureName { name, offset }
    }

    /// Returns the name of the procedure.
    pub fn name(&self) -> (r: &str)
        ensures
            r@ == self.name@,
    {
        self.name.as_str()
    }

    /// Returns the offset of the frame's instruction pointer from the
    /// starting address of the named procedure.
    pub fn offset(&self) -> (r: u64)
        ensures
            r == self.offset,
    {
        self.offset
    }
}

/// The address bounds of the procedure at a frame.
#[derive(Clone, Copy, PartialEq, Eq, Structural, Debug)]
pub struct ProcedureInfo {
    /// The starting address of the procedure.
    pub start_ip: u64,
    /// The ending address of the procedure.
    pub end_ip: u64,
}

impl ProcedureInfo {
    /// Builds a procedure bounds record.
    pub fn new(start_ip: u64, end_ip: u64) -> (r: ProcedureInfo)
        ensures
            r.start_ip == start_ip,
            r.end_ip == end_ip,
    {
        ProcedureInfo { start_ip, end_ip }
    }

    /// Returns the starting address of the procedure.
    pub fn start_ip(&self) -> (r: u64)
        ensures
            r == self.start_ip,
    {
        self.start_ip
    }

    /// Returns the ending address of the procedure.
    pub fn end_ip(&self) -> (r: u64)
        ensures
            r == self.end_ip,
    {
        self.end_ip
    }
}

/// One frame as the unwinding backend reported it: the instruction
/// pointer, the signal-frame flag, and the procedure name and bounds — or
/// the backend's error code for either.
pub struct StepRecord {
    /// The frame's instruction pointer.
    pub ip: u64,
    /// Whether the frame was pushed by signal delivery.
    pub is_signal: bool,
    /// The procedure name at the frame, or the backend's error code.
    pub name: Result<ProcedureName, i32>,
    /// The procedure bounds at the frame, or the backend's error code.
    pub info: Result<ProcedureInfo, i32>,
}

/// The position of the first nul byte.
pub open spec fn spec_first_nul(s: Seq<u8>) -> int
    decreases s.len(),
{
    if s.len() == 0 {
        0
    } else if s[0] == 0 {
        0
    } else {
        1 + spec_first_nul(s.drop_first())
    }
}

/// When position `i` holds the first nul, the scan reports `i`.
proof fn lemma_first_nul_at(s: Seq<u8>, i: int)
    requires
        0 <= i < s.len(),
        s[i] == 0,
        forall|k: int| 0 <= k < i ==> s[k] != 0,
    ensures
        spec_first_nul(s) == i,
    decreases i,
{
    if i > 0 {
        lemma_first_nul_at(s.drop_first(), i - 1);
    }
}

/// Decodes the name buffer the backend filled: everything before the first
/// nul byte, as lossy UTF-8.
pub fn name_from_buffer(buf: &[u8]) -> (r: String)
    requires
        exists|i: int| 0 <= i < buf@.len() && buf@[i] == 0,
    ensures
        r@ == lossy_utf8_of(buf@.take(spec_first_nul(buf@))),
{
    let mut i: usize = 0;
    while i < buf.len() && buf[i] != 0
        invariant
            0 <= i <= buf@.len(),
            forall|k: int| 0 <= k < i ==> buf@[k] != 0,
        decreases buf@.len() - i,
    {
        i += 1;
    }
    proof {
        if i == buf@.len() {
            let w = choose|w: int| 0 <= w < buf@.len() && buf@[w] == 0;
            assert(buf@[w] != 0);
        }
        lemma_first_nul_at(buf@, i as int);
    }
    let mut head: Vec<u8> = Vec::new();
    let mut k: usize = 0;
    while k < i
        invariant
            0 <= k <= i <= buf@.len(),
            head@ == buf@.take(k as int),
        decreases i - k,
    {
        head.push(buf[k]);
        proof {
            assert(buf@.take(k + 1 as int) =~= buf@.take(k as int).push(buf@[k as int]));
        }
        k += 1;
    }
    demangle::utf8_lossy(head.as_slice())
}

} // verus!
