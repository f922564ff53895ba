//! Traces of a remote process: the value types handed to callers, the
//! options that steer a trace, and the assembly of frames from what the
//! unwinding backend reported.
//!
//! The front-end attaches and drives the backend; everything it collects
//! for a thread lands in a [`ThreadDump`], and the functions here turn
//! dumps into the `Process`, `Thread`, `Frame` and `Symbol` values callers
//! see.

use vstd::prelude::*;

use crate::cursor::StepRecord;
use crate::demangle;

verus! {

/// Information about a remote process: its identifier and its threads.
pub struct Process {
    /// The process's identifier.
    pub id: u32,
    /// The process's threads, in the order they were traced.
    pub threads: Vec<Thread>,
}

impl Process {
    /// Returns the process's ID.
    pub fn id(&self) -> (r: u32)
        ensures
            r == self.id,
    {
        self.id
    }

    /// Returns information about the threads of the process.
    pub fn threads(&self) -> (r: &[Thread])
        ensures
            r@ == self.threads@,
    {
        self.threads.as_slice()
    }
}

/// Information about a thread of a remote process.
pub struct Thread {
    /// The thread's identifier.
    pub id: u32,
    /// The thread's name, when it was asked for and could be read.
    pub name: Option<String>,
    /// The thread's stack frames, innermost first.
    pub frames: Vec<Frame>,
}

impl Thread {
    /// Returns the thread's ID.
    pub fn id(&self) -> (r: u32)
        ensures
            r == self.id,
    {
        self.id
    }

    /// Returns the thread's name, if known.
    pub fn name(&self) -> (r: Option<&str>)
        ensures
            r is Some <==> self.name is Some,
            r matches Some(s) ==> s@ == self.name->0@,
    {
        match &self.name {
            Some(n) => Some(n.as_str()),
            None => None,
        }
    }

    /// Returns the frames of the stack trace representing the state of the
    /// thread.
    pub fn frames(&self) -> (r: &[Frame])
        ensures
            r@ == self.frames@,
    {
        self.frames.as_slice()
    }
}

/// Information about a stack frame of a remote process.
pub struct Frame {
    /// The frame's instruction pointer.
    pub ip: u64,
    /// Whether the frame was pushed by signal delivery.
    pub is_signal: bool,
    /// The symbol at the frame, when symbols were asked for, the
    /// backend's name and bounds agree on the instruction pointer, and
    /// the bounds contain the adjusted pointer.
    pub symbol: Option<Symbol>,
}

impl Frame {
    /// Returns the instruction pointer of the frame.
    pub fn ip(&self) -> (r: u64)
        ensures
            r == self.ip,
    {
        self.ip
    }

    /// Determines if the frame is from a signal handler.
    pub fn is_signal(&self) -> (r: bool)
        ensures
            r == self.is_signal,
    {
        self.is_signal
    }

    /// Returns information about the symbol corresponding to this frame's
    /// instruction pointer, if known.
    pub fn symbol(&self) -> (r: Option<&Symbol>)
        ensures
            r is Some <==> self.symbol is Some,
            r matches Some(s) ==> *s == self.symbol->0,
    {
        self.symbol.as_ref()
    }
}

/// Information about the symbol corresponding to a stack frame.
pub struct Symbol {
    /// The name of the procedure.
    pub name: String,
    /// The offset of the instruction pointer from the procedure's start.
    pub offset: u64,
    /// The starting address of the procedure.
    pub address: u64,
    /// The size of the procedure in bytes.
    pub size: u64,
}

impl Symbol {
    /// Returns the name of the procedure.
    pub fn name(&self) -> (r: &str)
        ensures
            r@ == self.name@,
    {
        self.name.as_str()
    }

    /// Returns the offset of the instruction pointer from the symbol's
    /// starting address.
    pub fn offset(&self) -> (r: u64)
        ensures
            r == self.offset,
    {
        self.offset
    }

    /// Returns the starting address of the symbol.
    pub fn address(&self) -> (r: u64)
        ensures
            r == self.address,
    {
        self.address
    }

    /// Returns the size of the symbol.
    pub fn size(&self) -> (r: u64)
        ensures
            r == self.size,
    {
        self.size
    }
}

/// Options controlling the behavior of tracing.
#[derive(Clone, Copy, PartialEq, Eq, Structural, Debug)]
pub struct TraceOptions {
    /// Whether all threads are held stopped together for a consistent
    /// view.
    pub snapshot: bool,
    /// Whether each thread's name is read.
    pub thread_names: bool,
    /// Whether symbols are resolved for each frame.
    pub symbols: bool,
    /// Whether the tracer attaches via ptrace itself; when false the
    /// caller guarantees the threads are already attached and stopped.
    pub ptrace_attach: bool,
}

impl Default for TraceOptions {
    /// The default options: a rolling trace that attaches by itself and
    /// gathers neither names nor symbols.
    fn default() -> (r: TraceOptions)
        ensures
            r == (TraceOptions {
                snapshot: false,
                thread_names: false,
                symbols: false,
                ptrace_attach: true,
            }),
    {
        TraceOptions { snapshot: false, thread_names: false, symbols: false, ptrace_attach: true }
    }
}

impl TraceOptions {
    /// Returns a new `TraceOptions` with default settings.
    pub fn new() -> (r: TraceOptions)
        ensures
            r == (TraceOptions {
                snapshot: false,
                thread_names: false,
                symbols: false,
                ptrace_attach: true,
            }),
    {
        TraceOptions { snapshot: false, thread_names: false, symbols: false, ptrace_attach: true }
    }

    /// If set, the threads of the process will be traced in a consistent
    /// snapshot, at the cost of pausing all of them for the whole trace.
    ///
    /// Defaults to `false`.
    pub fn snapshot(&mut self, snapshot: bool) -> (r: &mut TraceOptions)
        ensures
            *r == (TraceOptions { snapshot, ..*old(self) }),
            *final(self) == *final(r),
    {
        self.snapshot = snapshot;
        self
    }

    /// If set, the names of the process's threads will be recorded.
    ///
    /// Defaults to `false`.
    pub fn thread_names(&mut self, thread_names: bool) -> (r: &mut TraceOptions)
        ensures
            *r == (TraceOptions { thread_names, ..*old(self) }),
            *final(self) == *final(r),
    {
        self.thread_names = thread_names;
        self
    }

    /// If set, information about the symbol at each frame will be
    /// recorded.
    ///
    /// Defaults to `false`.
    pub fn symbols(&mut self, symbols: bool) -> (r: &mut TraceOptions)
        ensures
            *r == (TraceOptions { symbols, ..*old(self) }),
            *final(self) == *final(r),
    {
        self.symbols = symbols;
        self
    }

    /// If set, the tracer attaches to threads via ptrace itself.  When
    /// disabled, the calling process must already be attached to all
    /// traced threads, and the threads must be in the stopped state.
    ///
    /// Defaults to `true`.
    pub fn ptrace_attach(&mut self, ptrace_attach: bool) -> (r: &mut TraceOptions)
        ensures
            *r == (TraceOptions { ptrace_attach, ..*old(self) }),
            *final(self) == *final(r),
    {
        self.ptrace_attach = ptrace_attach;
        self
    }
}

/// Everything the front-end collected for one thread: its identifier, the
/// raw contents of its name file when read, and the backend's report for
/// each frame.
pub struct ThreadDump {
    /// The thread's identifier.
    pub tid: u32,
    /// The raw contents of the thread's `comm` file, when it was read.
    pub name: Option<Vec<u8>>,
    /// The backend's report for each frame, innermost first.
    pub steps: Vec<StepRecord>,
}

/// Whether the backend's bounds are usable: a procedure never ends before
/// it starts.
pub open spec fn steps_ok(steps: Seq<StepRecord>) -> bool {
    forall|k: int|
        0 <= k < steps.len() ==> ((#[trigger] steps[k]).info matches Ok(i) ==> i.start_ip
            <= i.end_ip)
}

/// Whether a step carries a symbol for its frame: symbols were asked for,
/// the backend reported both name and bounds, they agree on the frame's
/// instruction pointer, and the reported range contains the adjusted
/// pointer — the pointer itself at a signal frame, one byte back
/// otherwise — so every attached symbol covers the address a lookup would
/// use.
pub open spec fn spec_symbol_rule(step: &StepRecord, symbols: bool) -> bool {
    &&& symbols
    &&& step.name is Ok
    &&& step.info is Ok
    &&& step.info->Ok_0.start_ip + step.name->Ok_0.offset == step.ip
    &&& step.info->Ok_0.start_ip <= crate::spec_adjusted_ip(step.ip, step.is_signal)
    &&& crate::spec_adjusted_ip(step.ip, step.is_signal) < step.info->Ok_0.end_ip
}

/// Whether a frame is the faithful rendering of a step: same pointer and
/// signal flag, and a symbol exactly when the symbol rule holds, carrying
/// the backend's name, offset, start address and size.
pub open spec fn frame_matches(step: &StepRecord, symbols: bool, f: &Frame) -> bool {
    &&& f.ip == step.ip
    &&& f.is_signal == step.is_signal
    &&& (f.symbol is Some <==> spec_symbol_rule(step, symbols))
    &&& (f.symbol matches Some(s) ==> {
        &&& s.name@ == step.name->Ok_0.name@
        &&& s.offset == step.name->Ok_0.offset
        &&& s.address == step.info->Ok_0.start_ip
        &&& s.size == step.info->Ok_0.end_ip - step.info->Ok_0.start_ip
    })
}

/// Renders one step as a frame, attaching a symbol exactly when the symbol
/// rule holds.
pub fn frame_of_step(step: &StepRecord, symbols: bool) -> (f: Frame)
    requires
        step.info matches Ok(i) ==> i.start_ip <= i.end_ip,
    ensures
        frame_matches(step, symbols, &f),
{
    let mut symbol: Option<Symbol> = None;
    if symbols {
        match (&step.name, &step.info) {
            (Ok(nm), Ok(info)) => {
                let adjusted = crate::adjusted_ip(step.ip, step.is_signal);
                if info.start_ip <= step.ip && step.ip - info.start_ip == nm.offset
                    && info.start_ip <= adjusted && adjusted < info.end_ip {
                    symbol = Some(
                        Symbol {
                            name: nm.name.clone(),
                            offset: nm.offset,
                            address: info.start_ip,
                            size: info.end_ip - info.start_ip,
                        },
                    );
                }
            },
            _ => {},
        }
    }
    Frame { ip: step.ip, is_signal: step.is_signal, symbol }
}

/// Renders a thread's steps as its frame list, innermost first.
pub fn dump_frames(steps: &Vec<StepRecord>, symbols: bool) -> (frames: Vec<Frame>)
    requires
        steps_ok(steps@),
    ensures
        frames@.len() == steps@.len(),
        forall|k: int|
            0 <= k < steps@.len() ==> frame_matches(&steps@[k], symbols, &#[trigger] frames@[k]),
{
    let mut frames: Vec<Frame> = Vec::new();
    let mut k: usize = 0;
    while k < steps.len()
        invariant
            0 <= k <= steps@.len(),
            steps_ok(steps@),
            frames@.len() == k,
            forall|j: int|
                0 <= j < k ==> frame_matches(&steps@[j], symbols, &#[trigger] frames@[j]),
        decreases steps@.len() - k,
    {
        let f = frame_of_step(&steps[k], symbols);
        frames.push(f);
        k += 1;
    }
    frames
}

/// Whether a thread value is the faithful rendering of a dump under the
/// given options: the dump's identifier, the decoded name exactly when
/// names were asked for and the name file could be read, and one matching
/// frame per step.
pub open spec fn thread_matches(dump: &ThreadDump, options: &TraceOptions, t: &Thread) -> bool {
    &&& t.id == dump.tid
    &&& (options.thread_names && dump.name is Some ==> (t.name matches Some(n) && n@
        == demangle::spec_thread_name(dump.name->0@)))
    &&& (!(options.thread_names && dump.name is Some) ==> t.name is None)
    &&& t.frames@.len() == dump.steps@.len()
    &&& forall|k: int|
        0 <= k < dump.steps@.len() ==> frame_matches(
            &dump.steps@[k],
            options.symbols,
            &#[trigger] t.frames@[k],
        )
}

/// Renders one dump as the thread value handed to callers.
pub fn thread_info(dump: &ThreadDump, options: &TraceOptions) -> (t: Thread)
    requires
        steps_ok(dump.steps@),
    ensures
        thread_matches(dump, options, &t),
{
    let name: Option<String> = if options.thread_names {
        match &dump.name {
            Some(raw) => Some(demangle::thread_name_of(raw.as_slice())),
            None => None,
        }
    } else {
        None
    };
    let frames = dump_frames(&dump.steps, options.symbols);
    Thread { id: dump.tid, name, frames }
}

impl TraceOptions {
    /// Renders the dumps the front-end collected for a process as the
    /// process value handed to callers.
    pub fn trace(&self, pid: u32, dumps: &Vec<ThreadDump>) -> (p: Process)
        requires
            forall|k: int| 0 <= k < dumps@.len() ==> steps_ok((#[trigger] dumps@[k]).steps@),
        ensures
            p.id == pid,
            p.threads@.len() == dumps@.len(),
            forall|k: int|
                0 <= k < dumps@.len() ==> thread_matches(
                    &dumps@[k],
                    self,
                    &#[trigger] p.threads@[k],
                ),
    {
        let mut threads: Vec<Thread> = Vec::new();
        let mut k: usize = 0;
        while k < dumps.len()
            invariant
                0 <= k <= dumps@.len(),
                forall|j: int| 0 <= j < dumps@.len() ==> steps_ok((#[trigger] dumps@[j]).steps@),
                threads@.len() == k,
                forall|j: int|
                    0 <= j < k ==> thread_matches(&dumps@[j], self, &#[trigger] threads@[j]),
            decreases dumps@.len() - k,
        {
            let t = thread_info(&dumps[k], self);
            threads.push(t);
            k += 1;
        }
        Process { id: pid, threads }
    }
}

/// The options the convenience entry point uses: a maximally verbose
/// trace.
pub open spec fn verbose_options() -> TraceOptions {
    TraceOptions { snapshot: false, thread_names: true, symbols: true, ptrace_attach: true }
}

/// A convenience wrapper over `TraceOptions` which renders a maximally
/// verbose trace: thread names and symbols included.
pub fn trace(pid: u32, dumps: &Vec<ThreadDump>) -> (p: Process)
    requires
        forall|k: int| 0 <= k < dumps@.len() ==> steps_ok((#[trigger] dumps@[k]).steps@),
    ensures
        p.id == pid,
        p.threads@.len() == dumps@.len(),
        forall|k: int|
            0 <= k < dumps@.len() ==> thread_matches(
                &dumps@[k],
                &verbose_options(),
                &#[trigger] p.threads@[k],
            ),
{
    let mut options = TraceOptions::new();
    options.thread_names(true).symbols(true);
    let ghost v = verbose_options();
    assert(options == v);
    options.trace(pid, dumps)
}

/// Every symbol attached to a frame covers the frame's adjusted
/// instruction pointer: the symbol's address bounds it below and the
/// address plus the size bounds it above.
pub proof fn lemma_symbol_contains_adjusted(step: &StepRecord, symbols: bool, f: &Frame)
    requires
        frame_matches(step, symbols, f),
        f.symbol is Some,
    ensures
        f.symbol->0.address <= crate::spec_adjusted_ip(f.ip, f.is_signal),
        crate::spec_adjusted_ip(f.ip, f.is_signal) < f.symbol->0.address + f.symbol->0.size,
{
}

/// Every thread of a trace keeps the identifier of the dump it came from,
/// so a trace made from live thread identifiers — which are positive —
/// reports only positive identifiers.
pub proof fn lemma_thread_ids_positive(
    dumps: Seq<ThreadDump>,
    options: TraceOptions,
    threads: Seq<Thread>,
)
    requires
        threads.len() == dumps.len(),
        forall|k: int|
            0 <= k < dumps.len() ==> thread_matches(&dumps[k], &options, &#[trigger] threads[k]),
        forall|k: int| 0 <= k < dumps.len() ==> (#[trigger] dumps[k]).tid > 0,
    ensures
        forall|k: int| 0 <= k < threads.len() ==> (#[trigger] threads[k]).id > 0,
{
    assert forall|k: int| 0 <= k < threads.len() implies (#[trigger] threads[k]).id > 0 by {
        assert(thread_matches(&dumps[k], &options, &threads[k]));
    }
}

} // verus!
