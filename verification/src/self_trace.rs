//! Traces of the calling process.
//!
//! A process cannot ptrace itself, so tracing the current process spawns a
//! helper child that ptraces its parent and ships raw frames back over the
//! self-trace wire protocol.  The parent then resolves every frame against
//! its own symbol index — the layouts of parent and child differ only by
//! the small helper binary, and it is the parent's images the caller cares
//! about.

use vstd::prelude::*;

use crate::adjusted_ip;
use crate::demangle;
use crate::demangle::lossy_utf8_of;
use crate::index::SymbolIndex;
use crate::remote;
use crate::spec_adjusted_ip;
use crate::wire::RawFrame;
use crate::wire::RawThread;

verus! {

/// A trace of the threads in a process.
pub struct Trace {
    /// The traced threads.
    pub threads: Vec<Thread>,
}

impl Trace {
    /// Returns the threads in the trace.
    pub fn threads(&self) -> (r: &[Thread])
        ensures
            r@ == self.threads@,
    {
        self.threads.as_slice()
    }
}

/// Information about a thread.
pub struct Thread {
    /// The thread's identifier.
    pub id: u32,
    /// The thread's name.
    pub name: String,
    /// The thread's stack frames, innermost first.
    pub frames: Vec<Frame>,
}

impl Thread {
    /// Returns the thread's ID.
    pub fn id(&self) -> (r: u32)
        ensures
            r == self.id,
    {
        self.id
    }

    /// Returns the thread's name.
    pub fn name(&self) -> (r: &str)
        ensures
            r@ == self.name@,
    {
        self.name.as_str()
    }

    /// Returns the stack frames of the thread.
    pub fn frames(&self) -> (r: &[Frame])
        ensures
            r@ == self.frames@,
    {
        self.frames.as_slice()
    }
}

/// Information about a stack frame.
pub struct Frame {
    /// The frame's instruction pointer.
    pub ip: u64,
    /// The symbols resolved to this frame.
    pub symbols: Vec<Symbol>,
}

impl Frame {
    /// Returns the instruction pointer of the frame.
    pub fn ip(&self) -> (r: u64)
        ensures
            r == self.ip,
    {
        self.ip
    }

    /// Returns the symbols resolved to this frame.
    pub fn symbols(&self) -> (r: &[Symbol])
        ensures
            r@ == self.symbols@,
    {
        self.symbols.as_slice()
    }
}

/// Information about a symbol.
pub struct Symbol {
    /// The name of the symbol, if known.
    pub name: Option<String>,
    /// The path of the file in which the symbol is defined, if known.
    pub file: Option<String>,
    /// The line to which the resolved address corresponds, if known.
    pub line: Option<u32>,
}

impl Symbol {
    /// Returns the name of the symbol, if known.
    pub fn name(&self) -> (r: Option<&str>)
        ensures
            r is Some <==> self.name is Some,
            r matches Some(s) ==> s@ == self.name->0@,
    {
        match &self.name {
            Some(n) => Some(n.as_str()),
            None => None,
        }
    }

    /// Returns the path of the file in which this symbol is defined, if
    /// known.
    pub fn file(&self) -> (r: Option<&str>)
        ensures
            r is Some <==> self.file is Some,
            r matches Some(s) ==> s@ == self.file->0@,
    {
        match &self.file {
            Some(f) => Some(f.as_str()),
            None => None,
        }
    }

    /// Returns the line at which the address which resolved to this symbol
    /// corresponds, if known.
    pub fn line(&self) -> (r: Option<u32>)
        ensures
            r == self.line,
    {
        self.line
    }
}

/// Options controlling tracing.
#[derive(Clone, Copy, PartialEq, Eq, Structural, Debug)]
pub struct TraceOptions {
    /// Whether all threads are held stopped together for a consistent
    /// view.
    pub snapshot: bool,
}

impl Default for TraceOptions {
    /// The default options: a rolling trace.
    fn default() -> (r: TraceOptions)
        ensures
            r == (TraceOptions { snapshot: false }),
    {
        TraceOptions { snapshot: false }
    }
}

impl TraceOptions {
    /// Returns a new `TraceOptions` with default settings.
    pub fn new() -> (r: TraceOptions)
        ensures
            r == (TraceOptions { snapshot: false }),
    {
        TraceOptions { snapshot: false }
    }

    /// If set, the threads of the process will be traced in a consistent
    /// snapshot, at the cost of pausing all of them for the whole trace.
    ///
    /// Defaults to `false`.
    pub fn snapshot(&mut self, snapshot: bool) -> (r: &mut TraceOptions)
        ensures
            *r == (TraceOptions { snapshot }),
            *final(self) == *final(r),
    {
        self.snapshot = snapshot;
        self
    }
}

/// Whether a symbol run renders an inline chain entry for entry: the
/// function name, file and line of each chain link, in order.
pub open spec fn symbols_from_chain(
    chain: Seq<crate::index::InlineFrame>,
    syms: Seq<Symbol>,
) -> bool {
    &&& syms.len() == chain.len()
    &&& forall|k: int|
        0 <= k < chain.len() ==> {
            &&& (#[trigger] syms[k]).name == (#[trigger] chain[k]).function
            &&& syms[k].file == chain[k].file
            &&& syms[k].line == chain[k].line
        }
}

/// The frame renders an inline chain: some inline range of some image
/// covers the adjusted pointer and the frame's symbols are that chain,
/// entry for entry.
pub open spec fn spec_chain_attached(index: &SymbolIndex, a: u64, syms: Seq<Symbol>) -> bool {
    exists|g: int, ri: int|
        {
            &&& 0 <= g < index.images@.len()
            &&& 0 <= ri < index.images@[g].inlines@.len()
            &&& (#[trigger] index.images@[g].inlines@[ri]).start <= a
            &&& a < index.images@[g].inlines@[ri].end
            &&& symbols_from_chain(index.images@[g].inlines@[ri].chain@, syms)
        }
}

/// The frame renders a single symbol: no inline chain covers the adjusted
/// pointer (conclusively so on an overlap-free table), and the one entry
/// carries the name of an index symbol covering it, with no file or line —
/// which only the debug-info reader could supply.
pub open spec fn spec_single_attached(index: &SymbolIndex, a: u64, syms: Seq<Symbol>) -> bool {
    &&& syms.len() == 1
    &&& syms[0].file is None
    &&& syms[0].line is None
    &&& (syms[0].name matches Some(nm) && (exists|g: int, si: int|
        {
            &&& 0 <= g < index.images@.len()
            &&& 0 <= si < index.images@[g].symbols@.len()
            &&& (#[trigger] index.images@[g].symbols@[si]).start <= a
            &&& a < index.images@[g].symbols@[si].end
            &&& nm@ == index.images@[g].symbols@[si].name@
        }))
    &&& (crate::index::index_inlines_disjoint(index) ==> crate::index::no_covering_inline(
        index,
        a,
    ))
}

/// The frame renders nothing, conclusively on an overlap-free index:
/// neither a symbol nor an inline chain covers the adjusted pointer.
pub open spec fn spec_nothing_attached(index: &SymbolIndex, a: u64, syms: Seq<Symbol>) -> bool {
    &&& syms.len() == 0
    &&& (crate::index::index_disjoint(index) ==> crate::index::no_covering_symbol(index, a))
    &&& (crate::index::index_inlines_disjoint(index) ==> crate::index::no_covering_inline(
        index,
        a,
    ))
}

/// Whether a frame is the faithful resolution of a raw frame against the
/// index: the raw pointer kept, and — at the adjusted pointer — either the
/// covering inline chain rendered entry for entry, or the single covering
/// symbol's name, or nothing when nothing covers.
pub open spec fn frame_resolved(index: &SymbolIndex, raw: RawFrame, f: &Frame) -> bool {
    &&& f.ip == raw.ip
    &&& {
        ||| spec_chain_attached(index, spec_adjusted_ip(raw.ip, raw.is_signal), f.symbols@)
        ||| spec_single_attached(index, spec_adjusted_ip(raw.ip, raw.is_signal), f.symbols@)
        ||| spec_nothing_attached(index, spec_adjusted_ip(raw.ip, raw.is_signal), f.symbols@)
    }
}

/// Every non-empty resolution covers the frame's adjusted instruction
/// pointer — the pointer itself at a signal frame, one byte back
/// otherwise: the symbols render an inline chain whose range covers it,
/// or the single entry carries the name of an index symbol covering it.
pub proof fn lemma_symbols_cover_adjusted(index: &SymbolIndex, raw: RawFrame, f: &Frame)
    requires
        frame_resolved(index, raw, f),
        f.symbols@.len() > 0,
    ensures
        spec_chain_attached(index, spec_adjusted_ip(raw.ip, raw.is_signal), f.symbols@)
            || spec_single_attached(index, spec_adjusted_ip(raw.ip, raw.is_signal), f.symbols@),
{
}

/// Resolves the raw frames of one thread against the index.
///
/// Whatever a frame carries covers its adjusted instruction pointer: the
/// pointer itself at a signal frame, one byte back otherwise.  A covering
/// inline chain wins over the flat symbol, as it carries the same
/// procedure plus its inlined callers.
pub fn symbolicate_thread(raw: &RawThread, index: &SymbolIndex) -> (t: Thread)
    requires
        index.wf(),
    ensures
        t.id == raw.id,
        t.name@ == lossy_utf8_of(raw.name@),
        t.frames@.len() == raw.frames@.len(),
        forall|k: int|
            0 <= k < raw.frames@.len() ==> frame_resolved(index, raw.frames@[k], &#[trigger] t.frames@[k]),
{
    let name = demangle::utf8_lossy(raw.name.as_slice());
    let mut frames: Vec<Frame> = Vec::new();
    let mut k: usize = 0;
    while k < raw.frames.len()
        invariant
            0 <= k <= raw.frames@.len(),
            index.wf(),
            frames@.len() == k,
            forall|j: int|
                0 <= j < k ==> frame_resolved(index, raw.frames@[j], &#[trigger] frames@[j]),
        decreases raw.frames@.len() - k,
    {
        let rf = raw.frames[k];
        let addr = adjusted_ip(rf.ip, rf.is_signal);
        let mut symbols: Vec<Symbol> = Vec::new();
        match index.lookup(addr) {
            Some(hit) => match hit.inline {
                Some(ri) => {
                    let chain = &index.images[hit.image].inlines[ri].chain;
                    let mut c: usize = 0;
                    while c < chain.len()
                        invariant
                            0 <= c <= chain@.len(),
                            symbols@.len() == c,
                            forall|q: int|
                                0 <= q < c ==> {
                                    &&& (#[trigger] symbols@[q]).name == chain@[q].function
                                    &&& symbols@[q].file == chain@[q].file
                                    &&& symbols@[q].line == chain@[q].line
                                },
                        decreases chain@.len() - c,
                    {
                        let entry = &chain[c];
                        let function = match &entry.function {
                            Some(n) => Some(n.clone()),
                            None => None,
                        };
                        let file = match &entry.file {
                            Some(p) => Some(p.clone()),
                            None => None,
                        };
                        symbols.push(Symbol { name: function, file, line: entry.line });
                        c += 1;
                    }
                    proof {
                        assert(symbols_from_chain(
                            index.images@[hit.image as int].inlines@[ri as int].chain@,
                            symbols@,
                        ));
                    }
                },
                None => match hit.symbol {
                    Some(si) => {
                        let name = index.images[hit.image].symbols[si].name.clone();
                        symbols.push(Symbol { name: Some(name), file: None, line: None });
                    },
                    None => {},
                },
            },
            None => {},
        }
        frames.push(Frame { ip: rf.ip, symbols });
        k += 1;
    }
    Thread { id: raw.id, name, frames }
}

/// Resolves every raw thread of a self-trace against the index the parent
/// built of its own images.
pub fn symbolicate(raw: &Vec<RawThread>, index: &SymbolIndex) -> (ts: Vec<Thread>)
    requires
        index.wf(),
    ensures
        ts@.len() == raw@.len(),
        forall|k: int|
            0 <= k < raw@.len() ==> {
                &&& (#[trigger] ts@[k]).id == raw@[k].id
                &&& ts@[k].name@ == lossy_utf8_of(raw@[k].name@)
                &&& ts@[k].frames@.len() == raw@[k].frames@.len()
                &&& forall|j: int|
                    0 <= j < raw@[k].frames@.len() ==> frame_resolved(
                        index,
                        raw@[k].frames@[j],
                        &#[trigger] ts@[k].frames@[j],
                    )
            },
{
    let mut ts: Vec<Thread> = Vec::new();
    let mut k: usize = 0;
    while k < raw.len()
        invariant
            0 <= k <= raw@.len(),
            index.wf(),
            ts@.len() == k,
            forall|i: int|
                0 <= i < k ==> {
                    &&& (#[trigger] ts@[i]).id == raw@[i].id
                    &&& ts@[i].name@ == lossy_utf8_of(raw@[i].name@)
                    &&& ts@[i].frames@.len() == raw@[i].frames@.len()
                    &&& forall|j: int|
                        0 <= j < raw@[i].frames@.len() ==> frame_resolved(
                            index,
                            raw@[i].frames@[j],
                            &#[trigger] ts@[i].frames@[j],
                        )
                },
        decreases raw@.len() - k,
    {
        let t = symbolicate_thread(&raw[k], index);
        ts.push(t);
        k += 1;
    }
    ts
}

/// The name a thread crosses the pipe with when it has none: the bytes of
/// `<unknown>`.
pub open spec fn spec_unknown_name() -> Seq<u8> {
    seq![0x3cu8, 0x75u8, 0x6eu8, 0x6bu8, 0x6eu8, 0x6fu8, 0x77u8, 0x6eu8, 0x3eu8]
}

/// Builds the placeholder name for a thread without one.
fn unknown_name() -> (r: Vec<u8>)
    ensures
        r@ == spec_unknown_name(),
{
    let mut r: Vec<u8> = Vec::new();
    r.push(0x3c);
    r.push(0x75);
    r.push(0x6e);
    r.push(0x6b);
    r.push(0x6e);
    r.push(0x6f);
    r.push(0x77);
    r.push(0x6e);
    r.push(0x3e);
    proof {
        assert(r@ =~= spec_unknown_name());
    }
    r
}

/// Reduces the trace the child took of its parent to the raw threads that
/// cross the pipe: each thread's identifier, its name's bytes — the
/// placeholder when it has no name — and each frame's pointer and signal
/// flag, with no symbols attached.
pub fn raw_threads_of(p: &remote::Process) -> (r: Vec<RawThread>)
    ensures
        r@.len() == p.threads@.len(),
        forall|k: int|
            0 <= k < p.threads@.len() ==> {
                &&& (#[trigger] r@[k]).id == p.threads@[k].id
                &&& (p.threads@[k].name matches Some(n) ==> r@[k].name@
                    == vstd::utf8::encode_utf8(n@))
                &&& (p.threads@[k].name is None ==> r@[k].name@ == spec_unknown_name())
                &&& r@[k].frames@.len() == p.threads@[k].frames@.len()
                &&& forall|j: int|
                    0 <= j < p.threads@[k].frames@.len() ==> {
                        &&& (#[trigger] r@[k].frames@[j]).ip == p.threads@[k].frames@[j].ip
                        &&& r@[k].frames@[j].is_signal == p.threads@[k].frames@[j].is_signal
                    }
            },
{
    let mut r: Vec<RawThread> = Vec::new();
    let mut k: usize = 0;
    while k < p.threads.len()
        invariant
            0 <= k <= p.threads@.len(),
            r@.len() == k,
            forall|i: int|
                0 <= i < k ==> {
                    &&& (#[trigger] r@[i]).id == p.threads@[i].id
                    &&& (p.threads@[i].name matches Some(n) ==> r@[i].name@
                        == vstd::utf8::encode_utf8(n@))
                    &&& (p.threads@[i].name is None ==> r@[i].name@ == spec_unknown_name())
                    &&& r@[i].frames@.len() == p.threads@[i].frames@.len()
                    &&& forall|j: int|
                        0 <= j < p.threads@[i].frames@.len() ==> {
                            &&& (#[trigger] r@[i].frames@[j]).ip == p.threads@[i].frames@[j].ip
                            &&& r@[i].frames@[j].is_signal == p.threads@[i].frames@[j].is_signal
                        }
                },
        decreases p.threads@.len() - k,
    {
        let thread = &p.threads[k];
        let name: Vec<u8> = match &thread.name {
            Some(n) => vstd::slice::slice_to_vec(n.as_str().as_bytes()),
            None => unknown_name(),
        };
        let mut frames: Vec<RawFrame> = Vec::new();
        let mut j: usize = 0;
        while j < thread.frames.len()
            invariant
                0 <= j <= thread.frames@.len(),
                frames@.len() == j,
                forall|q: int|
                    0 <= q < j ==> {
                        &&& (#[trigger] frames@[q]).ip == thread.frames@[q].ip
                        &&& frames@[q].is_signal == thread.frames@[q].is_signal
                    },
            decreases thread.frames@.len() - j,
        {
            let f = &thread.frames[j];
            frames.push(RawFrame { ip: f.ip, is_signal: f.is_signal });
            j += 1;
        }
        r.push(RawThread { id: thread.id, name, frames });
        k += 1;
    }
    r
}

} // verus!
