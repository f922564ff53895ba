//! Tests of the symbol index: construction, preference, lookup and the
//! instruction-pointer adjustment.

use rstack::adjusted_ip;
use rstack::elf::Bind;
use rstack::elf::ProgramHeader;
use rstack::elf::Symbol;
use rstack::index::SymbolIndex;

fn sym(name: &str, info: u8, value: u64, size: u64) -> Symbol {
    Symbol::new(name.as_bytes().to_vec(), info, value, size)
}

// st_info: binding in the high nibble, STT_FUNC (2) in the low nibble.
const FUNC_LOCAL: u8 = 0x02;
const FUNC_GLOBAL: u8 = 0x12;
const FUNC_WEAK: u8 = 0x22;

fn one_image_index(records: Vec<Symbol>) -> SymbolIndex {
    let phdrs = vec![ProgramHeader::new(1, 0x1000, 0x1000)];
    let mut index = SymbolIndex::new();
    index.add_image(None, 0, &records, &phdrs, Vec::new());
    index
}

#[test]
fn tie_break_prefers_weak_then_shorter() {
    // Three symbols at the same address: a local __GI___foo, a global
    // __foo, and a weak foo.  The weak one must win.
    let records = vec![
        sym("__GI___foo", FUNC_LOCAL, 0x1000, 0x10),
        sym("__foo", FUNC_GLOBAL, 0x1000, 0x10),
        sym("foo", FUNC_WEAK, 0x1000, 0x10),
    ];
    let index = one_image_index(records);
    let info = index.query(0x1005).expect("address must resolve");
    assert_eq!(info.symbol.as_deref(), Some("foo"));
}

#[test]
fn tie_break_shorter_name_wins_on_equal_binding() {
    let records = vec![
        sym("__close_longer", FUNC_GLOBAL, 0x1000, 0x10),
        sym("close", FUNC_GLOBAL, 0x1000, 0x10),
    ];
    let index = one_image_index(records);
    let info = index.query(0x1001).expect("address must resolve");
    assert_eq!(info.symbol.as_deref(), Some("close"));
}

#[test]
fn first_record_wins_full_ties() {
    let records = vec![
        sym("abcde", FUNC_GLOBAL, 0x1000, 0x10),
        sym("edcba", FUNC_GLOBAL, 0x1000, 0x10),
    ];
    let index = one_image_index(records);
    let info = index.query(0x1000).expect("address must resolve");
    assert_eq!(info.symbol.as_deref(), Some("abcde"));
}

#[test]
fn ineligible_records_are_skipped() {
    let records = vec![
        // not a function (type nibble 1 = object)
        sym("data", 0x11, 0x1000, 0x10),
        // zero value
        sym("zero_value", FUNC_GLOBAL, 0, 0x10),
        // zero size
        sym("zero_size", FUNC_GLOBAL, 0x1000, 0),
    ];
    let index = one_image_index(records);
    let info = index.query(0x1005).expect("segment still covers it");
    assert_eq!(info.symbol, None);
}

#[test]
fn lookup_hit_segment_contains_address() {
    let records = vec![sym("f", FUNC_GLOBAL, 0x1100, 0x20)];
    let index = one_image_index(records);
    for addr in [0x1000u64, 0x1105, 0x1fff] {
        let hit = index.lookup(addr).expect("inside the only segment");
        let seg = &index.segments[hit.segment];
        assert!(seg.start <= addr && addr < seg.end);
    }
    assert!(index.lookup(0xfff).is_none());
    assert!(index.lookup(0x2000).is_none());
}

#[test]
fn bias_shifts_symbols_and_segments() {
    let records = vec![sym("shifted", FUNC_GLOBAL, 0x100, 0x10)];
    let phdrs = vec![ProgramHeader::new(1, 0x0, 0x1000)];
    let mut index = SymbolIndex::new();
    index.add_image(Some("libdemo.so".to_string()), 0x7f00_0000, &records, &phdrs, Vec::new());
    let info = index.query(0x7f00_0105).expect("inside the shifted segment");
    assert_eq!(info.library.as_deref(), Some("libdemo.so"));
    assert_eq!(info.symbol.as_deref(), Some("shifted"));
    assert!(index.query(0x105).is_none());
}

#[test]
fn non_load_headers_contribute_no_segment() {
    let records: Vec<Symbol> = Vec::new();
    // p_type 2 is not a loadable segment
    let phdrs = vec![ProgramHeader::new(2, 0x1000, 0x1000)];
    let mut index = SymbolIndex::new();
    index.add_image(None, 0, &records, &phdrs, Vec::new());
    assert!(index.lookup(0x1500).is_none());
    assert_eq!(index.segments.len(), 0);
}

#[test]
fn segments_sorted_across_images() {
    let none: Vec<Symbol> = Vec::new();
    let mut index = SymbolIndex::new();
    index.add_image(None, 0x3000, &none, &vec![ProgramHeader::new(1, 0, 0x100)], Vec::new());
    index.add_image(None, 0x1000, &none, &vec![ProgramHeader::new(1, 0, 0x100)], Vec::new());
    index.add_image(None, 0x2000, &none, &vec![ProgramHeader::new(1, 0, 0x100)], Vec::new());
    let starts: Vec<u64> = index.segments.iter().map(|s| s.start).collect();
    assert_eq!(starts, vec![0x1000, 0x2000, 0x3000]);
    let hit = index.lookup(0x2050).unwrap();
    assert_eq!(index.segments[hit.segment].start, 0x2000);
    assert_eq!(index.images[hit.image].bias, 0x2000);
}

#[test]
fn building_twice_gives_identical_choices() {
    let records = || {
        vec![
            sym("__GI___close", FUNC_LOCAL, 0x500, 0x10),
            sym("close", FUNC_WEAK, 0x500, 0x10),
            sym("open", FUNC_GLOBAL, 0x200, 0x08),
            sym("read", FUNC_GLOBAL, 0x300, 0x08),
        ]
    };
    let a = one_image_index(records());
    let b = one_image_index(records());
    assert_eq!(a.images.len(), b.images.len());
    let sa = &a.images[0].symbols;
    let sb = &b.images[0].symbols;
    assert_eq!(sa.len(), sb.len());
    for (x, y) in sa.iter().zip(sb.iter()) {
        assert_eq!(x.name, y.name);
        assert_eq!(x.start, y.start);
        assert_eq!(x.end, y.end);
    }
    // and the table is sorted by start
    for w in sa.windows(2) {
        assert!(w[0].start <= w[1].start);
    }
}

#[test]
fn itanium_names_are_demangled() {
    let records = vec![sym("_ZN5space3fooEibc", FUNC_GLOBAL, 0x1000, 0x10)];
    let index = one_image_index(records);
    let info = index.query(0x1000).expect("address must resolve");
    assert_eq!(info.symbol.as_deref(), Some("space::foo(int, bool, char)"));
}

#[test]
fn rust_legacy_names_are_demangled() {
    let records = vec![sym(
        "_ZN4core3fmt5write17h01edf6dd68a42c9cE",
        FUNC_GLOBAL,
        0x1000,
        0x10,
    )];
    let index = one_image_index(records);
    let info = index.query(0x1000).expect("address must resolve");
    let name = info.symbol.expect("symbol must resolve");
    assert!(name.contains("core::fmt::write"), "got {name}");
    assert!(!name.contains("_ZN"), "got {name}");
}

#[test]
fn adjustment_steps_back_except_for_signal_and_zero() {
    assert_eq!(adjusted_ip(0x1010, false), 0x100f);
    assert_eq!(adjusted_ip(0x1010, true), 0x1010);
    assert_eq!(adjusted_ip(0, false), 0);
    assert_eq!(adjusted_ip(0, true), 0);
}

#[test]
fn bind_decodes_from_info_byte() {
    assert_eq!(sym("a", FUNC_LOCAL, 1, 1).bind(), Bind::Local);
    assert_eq!(sym("a", FUNC_GLOBAL, 1, 1).bind(), Bind::Global);
    assert_eq!(sym("a", FUNC_WEAK, 1, 1).bind(), Bind::Weak);
    assert_eq!(sym("a", 0xa2, 1, 1).bind(), Bind::Other);
    assert_eq!(sym("a", FUNC_WEAK, 3, 7).value(), 3);
    assert_eq!(sym("a", FUNC_WEAK, 3, 7).size(), 7);
}
