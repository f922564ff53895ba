//! Tests of trace assembly: frames from unwinder steps, thread names,
//! the cursor-level view, and the symbolicated self-trace.

use rstack::cursor::name_from_buffer;
use rstack::cursor::ProcedureInfo;
use rstack::cursor::ProcedureName;
use rstack::cursor::StepRecord;
use rstack::cursor_trace;
use rstack::cursor_trace::ThreadCapture;
use rstack::elf::ProgramHeader;
use rstack::elf::Symbol as ElfSymbol;
use rstack::error::ErrorKind;
use rstack::index::InlineFrame;
use rstack::index::InlineRange;
use rstack::index::SymbolIndex;
use rstack::remote;
use rstack::remote::ThreadDump;
use rstack::remote::TraceOptions;
use rstack::self_trace;
use rstack::wire::RawFrame;
use rstack::wire::RawThread;

fn step(ip: u64, is_signal: bool, name: Option<(&str, u64)>, info: Option<(u64, u64)>) -> StepRecord {
    StepRecord {
        ip,
        is_signal,
        name: match name {
            Some((n, offset)) => Ok(ProcedureName::new(n.to_string(), offset)),
            None => Err(-10),
        },
        info: match info {
            Some((start_ip, end_ip)) => Ok(ProcedureInfo::new(start_ip, end_ip)),
            None => Err(-10),
        },
    }
}

#[test]
fn frames_carry_symbols_when_name_and_bounds_agree() {
    let dumps = vec![ThreadDump {
        tid: 7,
        name: Some(b"worker\n".to_vec()),
        steps: vec![
            // start + offset == ip: symbol attached
            step(0x1010, false, Some(("alpha", 0x10)), Some((0x1000, 0x1080))),
            // start + offset != ip: no symbol
            step(0x1010, false, Some(("beta", 0x8)), Some((0x1000, 0x1080))),
            // backend had no name: no symbol
            step(0x2020, false, None, Some((0x2000, 0x2040))),
        ],
    }];
    let p = remote::trace(99, &dumps);
    assert_eq!(p.id(), 99);
    assert_eq!(p.threads().len(), 1);
    let t = &p.threads()[0];
    assert_eq!(t.id(), 7);
    assert_eq!(t.name(), Some("worker"));
    let frames = t.frames();
    assert_eq!(frames.len(), 3);
    let s = frames[0].symbol().expect("name and bounds agree");
    assert_eq!(s.name(), "alpha");
    assert_eq!(s.offset(), 0x10);
    assert_eq!(s.address(), 0x1000);
    assert_eq!(s.size(), 0x80);
    assert!(frames[1].symbol().is_none());
    assert!(frames[2].symbol().is_none());
    assert_eq!(frames[0].ip(), 0x1010);
    assert!(!frames[0].is_signal());
}

#[test]
fn options_gate_names_and_symbols() {
    let dumps = vec![ThreadDump {
        tid: 1,
        name: Some(b"named".to_vec()),
        steps: vec![step(0x1010, false, Some(("alpha", 0x10)), Some((0x1000, 0x1080)))],
    }];
    let mut options = TraceOptions::new();
    let p = options.trace(5, &dumps);
    let t = &p.threads()[0];
    assert_eq!(t.name(), None);
    assert!(t.frames()[0].symbol().is_none());

    options.thread_names(true).symbols(true).snapshot(true).ptrace_attach(false);
    let p = options.trace(5, &dumps);
    let t = &p.threads()[0];
    assert_eq!(t.name(), Some("named"));
    assert!(t.frames()[0].symbol().is_some());
}

#[test]
fn cursor_view_keeps_backend_answers_and_skips_broken_captures() {
    let captures = vec![
        ThreadCapture {
            tid: 11,
            name: Some(b" io-thread \n".to_vec()),
            steps: Ok(vec![
                step(0x40, false, Some(("f", 0x0)), Some((0x40, 0x80))),
                step(0x90, false, None, None),
            ]),
        },
        // name could not be read: the thread is kept, its name unset
        ThreadCapture { tid: 12, name: None, steps: Ok(Vec::new()) },
        // the backend could not walk the stack: left out
        ThreadCapture { tid: 13, name: Some(b"x".to_vec()), steps: Err(-5) },
    ];
    let threads = cursor_trace::trace_threads(&captures);
    assert_eq!(threads.len(), 2);
    assert_eq!(threads[1].id(), 12);
    assert_eq!(threads[1].name(), "");
    assert!(threads[1].trace().is_empty());
    let t = &threads[0];
    assert_eq!(t.id(), 11);
    assert_eq!(t.name(), "io-thread");
    let trace = t.trace();
    assert_eq!(trace.len(), 2);
    assert_eq!(trace[0].ip(), 0x40);
    let n = trace[0].name().expect("backend named it");
    assert_eq!(n.name(), "f");
    assert_eq!(n.offset(), 0);
    let i = trace[0].info().expect("backend bounded it");
    assert_eq!(i.start_ip(), 0x40);
    assert_eq!(i.end_ip(), 0x80);
    let e = match trace[1].name() {
        Ok(_) => panic!("the backend failed; no name expected"),
        Err(e) => e,
    };
    assert_eq!(e.kind(), ErrorKind::Unwind);
    assert_eq!(e.code(), Some(-10));
    assert!(trace[1].info().is_err());
}

fn park_index() -> SymbolIndex {
    let records = vec![
        ElfSymbol::new(b"thread_park".to_vec(), 0x12, 0x1000, 0x10),
        ElfSymbol::new(b"poll_events".to_vec(), 0x12, 0x2000, 0x40),
    ];
    let phdrs = vec![ProgramHeader::new(1, 0x1000, 0x2000)];
    let mut index = SymbolIndex::new();
    index.add_image(None, 0, &records, &phdrs, Vec::new());
    index
}

#[test]
fn symbolication_uses_the_adjusted_pointer() {
    // a symbol occupying [0x1000, 0x1010): the return address 0x1010
    // resolves (to 0x100f) at a non-signal frame but not at a signal frame
    let index = park_index();
    let raw = RawThread {
        id: 21,
        name: b"park-thread".to_vec(),
        frames: vec![
            RawFrame { ip: 0x1010, is_signal: false },
            RawFrame { ip: 0x1010, is_signal: true },
            RawFrame { ip: 0, is_signal: false },
        ],
    };
    let t = self_trace::symbolicate_thread(&raw, &index);
    assert_eq!(t.id(), 21);
    assert_eq!(t.name(), "park-thread");
    let frames = t.frames();
    assert_eq!(frames.len(), 3);
    assert_eq!(frames[0].ip(), 0x1010);
    let syms = frames[0].symbols();
    assert_eq!(syms.len(), 1);
    assert_eq!(syms[0].name(), Some("thread_park"));
    assert_eq!(syms[0].file(), None);
    assert_eq!(syms[0].line(), None);
    // the signal frame looks up 0x1010 itself, one past the symbol
    assert!(frames[1].symbols().is_empty());
    // a zero pointer is never adjusted and resolves to nothing
    assert!(frames[2].symbols().is_empty());
}

#[test]
fn symbolicate_resolves_every_thread() {
    let index = park_index();
    let raw = vec![
        RawThread {
            id: 1,
            name: b"main".to_vec(),
            frames: vec![RawFrame { ip: 0x2001, is_signal: false }],
        },
        RawThread {
            id: 2,
            name: b"background".to_vec(),
            frames: vec![RawFrame { ip: 0x1001, is_signal: false }],
        },
    ];
    let threads = self_trace::symbolicate(&raw, &index);
    assert_eq!(threads.len(), 2);
    assert_eq!(threads[0].id(), 1);
    assert_eq!(threads[1].id(), 2);
    assert_eq!(threads[0].frames()[0].symbols()[0].name(), Some("poll_events"));
    assert_eq!(threads[1].frames()[0].symbols()[0].name(), Some("thread_park"));
    let trace = self_trace::Trace { threads };
    assert_eq!(trace.threads().len(), 2);
}

#[test]
fn inline_chains_carry_function_file_and_line() {
    // the same symbol table as before, but the debug-info reader knows
    // that [0x1004, 0x1008) is an inlined call: two chain entries, the
    // outermost caller first
    let records = vec![ElfSymbol::new(b"thread_park".to_vec(), 0x12, 0x1000, 0x10)];
    let phdrs = vec![ProgramHeader::new(1, 0x1000, 0x1000)];
    let inlines = vec![InlineRange {
        start: 0x1004,
        end: 0x1008,
        chain: vec![
            InlineFrame {
                function: Some("thread_park".to_string()),
                file: Some("src/park.rs".to_string()),
                line: Some(40),
            },
            InlineFrame {
                function: Some("park_inner".to_string()),
                file: Some("src/park.rs".to_string()),
                line: Some(71),
            },
        ],
    }];
    let mut index = SymbolIndex::new();
    index.add_image(None, 0, &records, &phdrs, inlines);

    let raw = RawThread {
        id: 5,
        name: b"park".to_vec(),
        frames: vec![
            // adjusted pointer 0x1005 lies in the inline range
            RawFrame { ip: 0x1006, is_signal: false },
            // adjusted pointer 0x1001 lies in the symbol but not the range
            RawFrame { ip: 0x1002, is_signal: false },
        ],
    };
    let t = self_trace::symbolicate_thread(&raw, &index);
    let frames = t.frames();
    let chain = frames[0].symbols();
    assert_eq!(chain.len(), 2);
    assert_eq!(chain[0].name(), Some("thread_park"));
    assert_eq!(chain[0].file(), Some("src/park.rs"));
    assert_eq!(chain[0].line(), Some(40));
    assert_eq!(chain[1].name(), Some("park_inner"));
    assert_eq!(chain[1].line(), Some(71));
    // outside the range the flat symbol is attached, without file or line
    let flat = frames[1].symbols();
    assert_eq!(flat.len(), 1);
    assert_eq!(flat[0].name(), Some("thread_park"));
    assert_eq!(flat[0].file(), None);
    assert_eq!(flat[0].line(), None);
}

#[test]
fn child_reply_reduces_a_trace_to_raw_threads() {
    let dumps = vec![
        ThreadDump {
            tid: 31,
            name: Some(b"main\n".to_vec()),
            steps: vec![step(0x1040, false, None, None), step(0x2001, true, None, None)],
        },
        ThreadDump { tid: 32, name: None, steps: Vec::new() },
    ];
    let p = remote::trace(30, &dumps);
    let raw = self_trace::raw_threads_of(&p);
    assert_eq!(raw.len(), 2);
    assert_eq!(raw[0].id, 31);
    assert_eq!(raw[0].name, b"main".to_vec());
    assert_eq!(raw[0].frames.len(), 2);
    assert_eq!(raw[0].frames[0].ip, 0x1040);
    assert!(!raw[0].frames[0].is_signal);
    assert!(raw[0].frames[1].is_signal);
    assert_eq!(raw[1].id, 32);
    assert_eq!(raw[1].name, b"<unknown>".to_vec());
    assert!(raw[1].frames.is_empty());
}

#[test]
fn trace_options_builders_chain() {
    let mut o = remote::TraceOptions::new();
    o.snapshot(true).thread_names(true);
    assert_eq!(
        o,
        remote::TraceOptions { snapshot: true, thread_names: true, symbols: false, ptrace_attach: true }
    );
    assert_eq!(remote::TraceOptions::default(), remote::TraceOptions::new());

    let mut so = self_trace::TraceOptions::new();
    assert_eq!(so, self_trace::TraceOptions { snapshot: false });
    so.snapshot(true);
    assert_eq!(so, self_trace::TraceOptions { snapshot: true });
}

#[test]
fn positive_tids_stay_positive() {
    let dumps = vec![
        ThreadDump { tid: 1, name: None, steps: Vec::new() },
        ThreadDump { tid: u32::MAX, name: None, steps: Vec::new() },
    ];
    let p = remote::trace(1, &dumps);
    assert!(p.threads().iter().all(|t| t.id() > 0));
}

#[test]
fn name_buffers_stop_at_the_first_nul() {
    assert_eq!(name_from_buffer(b"park\0garbage"), "park");
    assert_eq!(name_from_buffer(b"\0"), "");
}
