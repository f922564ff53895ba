//! The cursor-level trace of a remote process's threads.
//!
//! This is the rawer face of the tracer: each frame keeps the unwinding
//! backend's own answers — name and bounds, or the backend's error code —
//! instead of a resolved symbol.  The front-end captures one record per
//! thread; a thread whose stack the backend cannot walk is left out of
//! the result rather than failing the trace, and a thread whose name
//! cannot be read keeps its place with an empty name.

use vstd::prelude::*;

use crate::cursor::ProcedureInfo;
use crate::cursor::ProcedureName;
use crate::cursor::StepRecord;
use crate::demangle;
use crate::demangle::spec_thread_name;
use crate::error::Error;
use crate::error::ErrorKind;

verus! {

/// Information about a thread of a remote process.
pub struct Thread {
    /// The thread's identifier.
    pub id: u32,
    /// The thread's name.
    pub name: String,
    /// The thread's stack frames, innermost first.
    pub trace: Vec<Frame>,
}

impl Thread {
    /// Returns the thread's ID.
    pub fn id(&self) -> (r: u32)
        ensures
            r == self.id,
    {
        self.id
    }

    /// Returns the thread's name.
    pub fn name(&self) -> (r: &str)
        ensures
            r@ == self.name@,
    {
        self.name.as_str()
    }

    /// Returns the frames of the thread's stack.
    pub fn trace(&self) -> (r: &[Frame])
        ensures
            r@ == self.trace@,
    {
        self.trace.as_slice()
    }
}

/// One stack frame, keeping the backend's answers for the procedure name
/// and bounds.
pub struct Frame {
    /// The frame's instruction pointer.
    pub ip: u64,
    /// The procedure name at the frame, or the backend's error code.
    pub name: Result<ProcedureName, i32>,
    /// The procedure bounds at the frame, or the backend's error code.
    pub info: Result<ProcedureInfo, i32>,
}

impl Frame {
    /// Returns the instruction pointer of the frame.
    pub fn ip(&self) -> (r: u64)
        ensures
            r == self.ip,
    {
        self.ip
    }

    /// Returns the name of the procedure at the frame, or the backend's
    /// failure as an unwind error.
    pub fn name(&self) -> (r: Result<&ProcedureName, Error>)
        ensures
            self.name is Ok <==> r is Ok,
            r matches Ok(n) ==> *n == self.name->Ok_0,
            r matches Err(e) ==> e.spec_kind() == ErrorKind::Unwind && e.spec_code() == Some(
                self.name->Err_0,
            ),
    {
        match &self.name {
            Ok(n) => Ok(n),
            Err(code) => Err(Error::from_os(ErrorKind::Unwind, *code)),
        }
    }

    /// Returns the bounds of the procedure at the frame, or the backend's
    /// failure as an unwind error.
    pub fn info(&self) -> (r: Result<&ProcedureInfo, Error>)
        ensures
            self.info is Ok <==> r is Ok,
            r matches Ok(i) ==> *i == self.info->Ok_0,
            r matches Err(e) ==> e.spec_kind() == ErrorKind::Unwind && e.spec_code() == Some(
                self.info->Err_0,
            ),
    {
        match &self.info {
            Ok(i) => Ok(i),
            Err(code) => Err(Error::from_os(ErrorKind::Unwind, *code)),
        }
    }
}

/// Everything the front-end captured for one thread: its identifier, the
/// raw contents of its name file when the read succeeded, and the
/// backend's walk of its stack when that succeeded.
pub struct ThreadCapture {
    /// The thread's identifier.
    pub tid: u32,
    /// The raw contents of the thread's `comm` file, absent when the read
    /// failed.
    pub name: Option<Vec<u8>>,
    /// The backend's report per frame, or the code the walk failed with.
    pub steps: Result<Vec<StepRecord>, i32>,
}

/// Whether a capture makes it into the result: its stack was walked.  A
/// failed name read is recovered per thread — the name is left unset —
/// and never drops the thread.
pub open spec fn capture_kept(c: &ThreadCapture) -> bool {
    c.steps is Ok
}

/// The positions of the captures that make it into the result, in order.
pub open spec fn spec_kept(cs: Seq<ThreadCapture>) -> Seq<int>
    decreases cs.len(),
{
    if cs.len() == 0 {
        Seq::empty()
    } else {
        let rest = spec_kept(cs.drop_last());
        if capture_kept(&cs.last()) {
            rest.push(cs.len() - 1)
        } else {
            rest
        }
    }
}

/// Every kept position is a position of a kept capture.
pub proof fn lemma_kept_bounds(cs: Seq<ThreadCapture>)
    ensures
        forall|k: int|
            0 <= k < spec_kept(cs).len() ==> {
                &&& 0 <= #[trigger] spec_kept(cs)[k] < cs.len()
                &&& capture_kept(&cs[spec_kept(cs)[k]])
            },
    decreases cs.len(),
{
    if cs.len() > 0 {
        lemma_kept_bounds(cs.drop_last());
        assert forall|k: int| 0 <= k < spec_kept(cs.drop_last()).len() implies capture_kept(
            &cs[spec_kept(cs.drop_last())[k]],
        ) by {
            assert(cs.drop_last()[spec_kept(cs.drop_last())[k]] == cs[spec_kept(cs.drop_last())[k]]);
        }
    }
}

/// Whether a frame keeps a step's answers: the same pointer, and the same
/// name text, offset, bounds or error codes.
pub open spec fn cframe_matches(step: &StepRecord, f: &Frame) -> bool {
    &&& f.ip == step.ip
    &&& (f.name is Ok <==> step.name is Ok)
    &&& (f.name matches Ok(n) ==> n.name@ == step.name->Ok_0.name@ && n.offset
        == step.name->Ok_0.offset)
    &&& (f.name matches Err(code) ==> code == step.name->Err_0)
    &&& f.info == step.info
}

/// Whether a thread value renders a capture: the identifier, the decoded
/// name — empty when the name file could not be read — and one matching
/// frame per step.
pub open spec fn thread_from_capture(c: &ThreadCapture, t: &Thread) -> bool {
    &&& capture_kept(c)
    &&& t.id == c.tid
    &&& (c.name matches Some(raw) ==> t.name@ == spec_thread_name(raw@))
    &&& (c.name is None ==> t.name@ == Seq::<char>::empty())
    &&& t.trace@.len() == c.steps->Ok_0@.len()
    &&& forall|j: int|
        0 <= j < c.steps->Ok_0@.len() ==> cframe_matches(
            &c.steps->Ok_0@[j],
            &#[trigger] t.trace@[j],
        )
}

/// Renders one kept capture as a thread value.
fn thread_of_capture(c: &ThreadCapture) -> (t: Thread)
    requires
        capture_kept(c),
    ensures
        thread_from_capture(c, &t),
{
    let name = match &c.name {
        Some(raw) => demangle::thread_name_of(raw.as_slice()),
        None => String::new(),
    };
    let steps = match &c.steps {
        Ok(steps) => steps,
        Err(_) => unreached(),
    };
    let mut trace: Vec<Frame> = Vec::new();
    let mut j: usize = 0;
    while j < steps.len()
        invariant
            0 <= j <= steps@.len(),
            trace@.len() == j,
            forall|q: int| 0 <= q < j ==> cframe_matches(&steps@[q], &#[trigger] trace@[q]),
        decreases steps@.len() - j,
    {
        let step = &steps[j];
        let name = match &step.name {
            Ok(n) => Ok(ProcedureName { name: n.name.clone(), offset: n.offset }),
            Err(code) => Err(*code),
        };
        let info = match &step.info {
            Ok(i) => Ok(*i),
            Err(code) => Err(*code),
        };
        trace.push(Frame { ip: step.ip, name, info });
        j += 1;
    }
    Thread { id: c.tid, name, trace }
}

/// Renders the captured threads of a process: a thread whose stack could
/// not be walked is left out, the rest appear in capture order, and a
/// thread whose name could not be read keeps an empty name.
pub fn trace_threads(captures: &Vec<ThreadCapture>) -> (r: Vec<Thread>)
    ensures
        r@.len() == spec_kept(captures@).len(),
        forall|k: int|
            0 <= k < spec_kept(captures@).len() ==> thread_from_capture(
                &captures@[spec_kept(captures@)[k]],
                &#[trigger] r@[k],
            ),
{
    let mut r: Vec<Thread> = Vec::new();
    let mut k: usize = 0;
    proof {
        lemma_kept_bounds(captures@);
        assert(r@.len() == spec_kept(captures@.take(0)).len());
    }
    while k < captures.len()
        invariant
            0 <= k <= captures@.len(),
            r@.len() == spec_kept(captures@.take(k as int)).len(),
            forall|i: int|
                0 <= i < spec_kept(captures@.take(k as int)).len() ==> {
                    &&& 0 <= #[trigger] spec_kept(captures@.take(k as int))[i] < captures@.len()
                    &&& thread_from_capture(
                        &captures@[spec_kept(captures@.take(k as int))[i]],
                        &r@[i],
                    )
                },
        decreases captures@.len() - k,
    {
        let ghost prefix = captures@.take(k as int);
        let ghost cur = captures@.take(k as int + 1);
        proof {
            assert(cur.drop_last() =~= prefix);
            assert(cur.last() == captures@[k as int]);
            lemma_kept_bounds(prefix);
        }
        let c = &captures[k];
        if c.steps.is_ok() {
            let t = thread_of_capture(c);
            r.push(t);
            proof {
                assert(spec_kept(cur) == spec_kept(prefix).push(k as int));
            }
        } else {
            proof {
                assert(!capture_kept(&captures@[k as int]));
                assert(spec_kept(cur) == spec_kept(prefix));
            }
        }
        k += 1;
    }
    proof {
        assert(captures@.take(captures@.len() as int) =~= captures@);
    }
    r
}

} // verus!
