//! The process-wide symbol index.
//!
//! Built once from the loaded images of a process, the index answers what
//! procedure lives at an address: images hold their demangled symbols sorted
//! by start address, and a global segment table sorted by start address maps
//! an address back to the image it belongs to.

use vstd::prelude::*;

use crate::demangle;
use crate::demangle::spec_demangled;
use crate::elf;
use crate::elf::spec_preferred;

verus! {

/// One symbol of an image, ready for lookup: the demangled name and the
/// absolute (bias-adjusted) address range it covers.
pub struct ImageSymbol {
    /// The demangled procedure name.
    pub name: String,
    /// The first address of the procedure.
    pub start: u64,
    /// One past the last address of the procedure.
    pub end: u64,
}

/// The index of the chosen record whose `value` field equals `v`, scanning
/// `chosen` from the front; `-1` when no chosen record has that value.
pub open spec fn spec_find_val(rs: Seq<elf::Symbol>, chosen: Seq<int>, v: u64) -> int
    decreases chosen.len(),
{
    if chosen.len() == 0 {
        -1
    } else if rs[chosen[0]].value == v {
        0
    } else {
        let t = spec_find_val(rs, chosen.drop_first(), v);
        if t == -1 {
            -1
        } else {
            t + 1
        }
    }
}

/// The indices of the records chosen among the first `n` of `rs`: eligible
/// records only, one per start value, the preferred one winning and the
/// earlier record winning ties.
pub open spec fn spec_select_n(rs: Seq<elf::Symbol>, n: int) -> Seq<int>
    decreases n,
{
    if n <= 0 {
        Seq::empty()
    } else {
        let prev = spec_select_n(rs, n - 1);
        if !rs[n - 1].spec_eligible() {
            prev
        } else {
            let p = spec_find_val(rs, prev, rs[n - 1].value);
            if p == -1 {
                prev.push(n - 1)
            } else if spec_preferred(&rs[n - 1], &rs[prev[p]]) {
                prev.update(p, n - 1)
            } else {
                prev
            }
        }
    }
}

/// The indices of the records chosen from `rs`.
pub open spec fn spec_select(rs: Seq<elf::Symbol>) -> Seq<int> {
    spec_select_n(rs, rs.len() as int)
}

/// The scan result is `-1` or a valid position.
proof fn lemma_find_val_range(rs: Seq<elf::Symbol>, chosen: Seq<int>, v: u64)
    ensures
        spec_find_val(rs, chosen, v) == -1 || 0 <= spec_find_val(rs, chosen, v) < chosen.len(),
    decreases chosen.len(),
{
    if chosen.len() > 0 {
        lemma_find_val_range(rs, chosen.drop_first(), v);
    }
}

/// Every chosen index points at an eligible record before position `n`.
pub proof fn lemma_select_bounds(rs: Seq<elf::Symbol>, n: int)
    requires
        0 <= n <= rs.len(),
    ensures
        forall|k: int|
            0 <= k < spec_select_n(rs, n).len() ==> {
                &&& 0 <= #[trigger] spec_select_n(rs, n)[k] < n
                &&& rs[spec_select_n(rs, n)[k]].spec_eligible()
            },
    decreases n,
{
    if n > 0 {
        lemma_select_bounds(rs, n - 1);
        let prev = spec_select_n(rs, n - 1);
        if rs[n - 1].spec_eligible() {
            lemma_find_val_range(rs, prev, rs[n - 1].value);
        }
    }
}

/// When no chosen record matches `v`, the scan reports `-1`.
proof fn lemma_find_val_none(rs: Seq<elf::Symbol>, chosen: Seq<int>, v: u64)
    requires
        forall|k: int| 0 <= k < chosen.len() ==> rs[#[trigger] chosen[k]].value != v,
    ensures
        spec_find_val(rs, chosen, v) == -1,
    decreases chosen.len(),
{
    if chosen.len() > 0 {
        assert(rs[chosen[0]].value != v);
        lemma_find_val_none(rs, chosen.drop_first(), v);
    }
}

/// When position `i` holds the first match for `v`, the scan reports `i`.
proof fn lemma_find_val_at(rs: Seq<elf::Symbol>, chosen: Seq<int>, v: u64, i: int)
    requires
        0 <= i < chosen.len(),
        rs[chosen[i]].value == v,
        forall|k: int| 0 <= k < i ==> rs[#[trigger] chosen[k]].value != v,
    ensures
        spec_find_val(rs, chosen, v) == i,
    decreases i,
{
    if i == 0 {
    } else {
        assert(rs[chosen[0]].value != v);
        lemma_find_val_at(rs, chosen.drop_first(), v, i - 1);
    }
}

/// A sequence of `usize` indices as mathematical integers.
pub open spec fn chosen_ints(s: Seq<usize>) -> Seq<int> {
    s.map_values(|u: usize| u as int)
}

/// Finds the already chosen record sharing the start value `v`.
fn find_chosen(records: &Vec<elf::Symbol>, chosen: &Vec<usize>, v: u64) -> (r: Option<usize>)
    requires
        forall|k: int| 0 <= k < chosen@.len() ==> #[trigger] chosen@[k] < records@.len(),
    ensures
        match r {
            Some(p) => p < chosen@.len() && spec_find_val(records@, chosen_ints(chosen@), v)
                == p as int,
            None => spec_find_val(records@, chosen_ints(chosen@), v) == -1,
        },
{
    let ghost ints = chosen_ints(chosen@);
    assert(ints.len() == chosen@.len());
    let mut p: usize = 0;
    while p < chosen.len()
        invariant
            0 <= p <= chosen@.len(),
            ints == chosen_ints(chosen@),
            forall|k: int| 0 <= k < chosen@.len() ==> #[trigger] chosen@[k] < records@.len(),
            forall|k: int| 0 <= k < p ==> records@[#[trigger] ints[k]].value != v,
        decreases chosen@.len() - p,
    {
        assert(ints[p as int] == chosen@[p as int] as int);
        if records[chosen[p]].value == v {
            proof {
                lemma_find_val_at(records@, ints, v, p as int);
            }
            return Some(p);
        }
        p += 1;
    }
    proof {
        lemma_find_val_none(records@, ints, v);
    }
    None
}

/// Chooses, among the raw records of one image, the record that names each
/// start address: eligible records only, the preferred binding winning and
/// the earlier record winning ties.
pub fn select_symbols(records: &Vec<elf::Symbol>) -> (chosen: Vec<usize>)
    ensures
        chosen_ints(chosen@) == spec_select(records@),
        forall|k: int| 0 <= k < chosen@.len() ==> #[trigger] chosen@[k] < records@.len(),
{
    let mut chosen: Vec<usize> = Vec::new();
    let n = records.len();
    assert(chosen_ints(chosen@) =~= spec_select_n(records@, 0));
    let mut i: usize = 0;
    while i < n
        invariant
            0 <= i <= n,
            n == records@.len(),
            chosen_ints(chosen@) == spec_select_n(records@, i as int),
            forall|k: int| 0 <= k < chosen@.len() ==> #[trigger] chosen@[k] < records@.len(),
        decreases n - i,
    {
        let ghost prev = chosen_ints(chosen@);
        if records[i].eligible() {
            let v = records[i].value();
            match find_chosen(records, &chosen, v) {
                None => {
                    chosen.push(i);
                    assert(chosen_ints(chosen@) =~= prev.push(i as int));
                },
                Some(p) => {
                    assert(prev[p as int] == chosen@[p as int] as int);
                    if elf::preferred(&records[i], &records[chosen[p]]) {
                        chosen[p] = i;
                        assert(chosen_ints(chosen@) =~= prev.update(p as int, i as int));
                    }
                },
            }
        }
        i += 1;
    }
    chosen
}

/// Whether a run of image symbols is sorted by start address.
pub open spec fn syms_sorted(s: Seq<ImageSymbol>) -> bool {
    forall|i: int, j: int| 0 <= i < j < s.len() ==> #[trigger] s[i].start <= #[trigger] s[j].start
}

/// A symbol inserted behind every earlier symbol whose start address does
/// not exceed its own.
pub open spec fn spec_insert_by_start(s: Seq<ImageSymbol>, x: ImageSymbol) -> Seq<ImageSymbol>
    decreases s.len(),
{
    if s.len() == 0 {
        seq![x]
    } else if s.last().start <= x.start {
        s.push(x)
    } else {
        spec_insert_by_start(s.drop_last(), x).push(s.last())
    }
}

/// The insertion sort of a run of image symbols by start address.
pub open spec fn spec_sort_by_start(s: Seq<ImageSymbol>) -> Seq<ImageSymbol>
    decreases s.len(),
{
    if s.len() == 0 {
        Seq::empty()
    } else {
        spec_insert_by_start(spec_sort_by_start(s.drop_last()), s.last())
    }
}

/// On a sorted run, inserting at the first position whose start address
/// exceeds the new symbol's realizes `spec_insert_by_start`.
proof fn lemma_insert_syms_at(s: Seq<ImageSymbol>, x: ImageSymbol, p: int)
    requires
        syms_sorted(s),
        0 <= p <= s.len(),
        forall|k: int| 0 <= k < p ==> #[trigger] s[k].start <= x.start,
        p < s.len() ==> s[p].start > x.start,
    ensures
        spec_insert_by_start(s, x) == s.insert(p, x),
    decreases s.len(),
{
    if s.len() == 0 {
        assert(s.insert(0, x) =~= seq![x]);
    } else if s.last().start <= x.start {
        assert(p == s.len()) by {
            if p < s.len() {
                assert(s[p].start > x.start);
                assert(s[p].start <= s.last().start);
            }
        }
        assert(s.insert(p, x) =~= s.push(x));
    } else {
        let t = s.drop_last();
        assert(p < s.len());
        assert(syms_sorted(t));
        lemma_insert_syms_at(t, x, p);
        assert(t.insert(p, x).push(s.last()) =~= s.insert(p, x));
    }
}

/// Sorts the symbols of one image by start address.
pub fn sort_by_start(input: Vec<ImageSymbol>) -> (r: Vec<ImageSymbol>)
    ensures
        r@ == spec_sort_by_start(input@),
        syms_sorted(r@),
{
    let ghost orig = input@;
    let mut v = input;
    let mut out: Vec<ImageSymbol> = Vec::new();
    assert(out@ =~= spec_sort_by_start(orig.take(0)));
    while v.len() > 0
        invariant
            out@.len() + v@.len() == orig.len(),
            v@ == orig.skip(out@.len() as int),
            out@ == spec_sort_by_start(orig.take(out@.len() as int)),
            syms_sorted(out@),
        decreases v@.len(),
    {
        let ghost i = out@.len() as int;
        let x = v.remove(0);
        assert(x == orig[i]);
        assert(v@ =~= orig.skip(i + 1));
        let mut p: usize = 0;
        while p < out.len() && out[p].start <= x.start
            invariant
                0 <= p <= out@.len(),
                forall|k: int| 0 <= k < p ==> #[trigger] out@[k].start <= x.start,
            decreases out@.len() - p,
        {
            p += 1;
        }
        let ghost before = out@;
        out.insert(p, x);
        proof {
            lemma_insert_syms_at(before, x, p as int);
            assert(orig.take(i + 1).drop_last() =~= orig.take(i));
            assert(orig.take(i + 1).last() == x);
            assert(out@ == spec_sort_by_start(orig.take(i + 1)));
            assert forall|a: int, b: int| 0 <= a < b < out@.len() implies #[trigger] out@[a].start
                <= #[trigger] out@[b].start by {
                if b < p {
                    assert(out@[a] == before[a] && out@[b] == before[b]);
                } else if a < p && b == p {
                    assert(out@[a] == before[a]);
                } else if a < p && b > p {
                    assert(out@[a] == before[a] && out@[b] == before[b - 1]);
                    if b - 1 >= p {
                        assert(before[b - 1].start > x.start);
                    }
                } else if a == p {
                    assert(out@[b] == before[b - 1]);
                    assert(before[b - 1].start > x.start);
                } else {
                    assert(out@[a] == before[a - 1] && out@[b] == before[b - 1]);
                }
            }
        }
    }
    proof {
        assert(orig.take(orig.len() as int) =~= orig);
    }
    out
}

/// Whether `out` is the run of lookup-ready symbols made from the chosen
/// records: each demangled, its range shifted by the image's load bias.
pub open spec fn is_named_of(
    rs: Seq<elf::Symbol>,
    chosen: Seq<int>,
    bias: u64,
    out: Seq<ImageSymbol>,
) -> bool {
    &&& out.len() == chosen.len()
    &&& forall|k: int|
        0 <= k < chosen.len() ==> {
            &&& (#[trigger] out[k]).name@ == spec_demangled(rs[chosen[k]].name@)
            &&& out[k].start == bias + rs[chosen[k]].value
            &&& out[k].end == bias + rs[chosen[k]].value + rs[chosen[k]].size
        }
}

/// Whether `out` is the symbol table an image with the given records and
/// load bias contributes to the index: the chosen records, demangled and
/// shifted, sorted by start address.
pub open spec fn is_built_symbols(rs: Seq<elf::Symbol>, bias: u64, out: Seq<ImageSymbol>) -> bool {
    exists|mid: Seq<ImageSymbol>|
        is_named_of(rs, spec_select(rs), bias, mid) && out == #[trigger] spec_sort_by_start(mid)
}

/// Builds the lookup-ready symbol table of one image from its raw records:
/// one record chosen per start address, demangled, shifted by the load bias
/// and sorted.
pub fn build_symbols(records: &Vec<elf::Symbol>, bias: u64) -> (syms: Vec<ImageSymbol>)
    requires
        forall|i: int|
            0 <= i < records@.len() && (#[trigger] records@[i]).spec_eligible() ==> records@[i].value
                + records@[i].size + bias <= u64::MAX,
    ensures
        is_built_symbols(records@, bias, syms@),
        syms_sorted(syms@),
{
    let chosen = select_symbols(records);
    proof {
        lemma_select_bounds(records@, records@.len() as int);
        assert forall|j: int|
            0 <= j < chosen@.len() implies #[trigger] chosen@[j] < records@.len()
            && records@[chosen@[j] as int].spec_eligible() by {
            assert(chosen_ints(chosen@)[j] == chosen@[j] as int);
        }
    }
    let mut named: Vec<ImageSymbol> = Vec::new();
    let mut k: usize = 0;
    while k < chosen.len()
        invariant
            0 <= k <= chosen@.len(),
            chosen_ints(chosen@) == spec_select(records@),
            forall|j: int|
                0 <= j < chosen@.len() ==> #[trigger] chosen@[j] < records@.len()
                    && records@[chosen@[j] as int].spec_eligible(),
            forall|i: int|
                0 <= i < records@.len() && (#[trigger] records@[i]).spec_eligible() ==> records@[i].value
                    + records@[i].size + bias <= u64::MAX,
            named@.len() == k,
            forall|j: int|
                0 <= j < k ==> {
                    &&& (#[trigger] named@[j]).name@ == spec_demangled(
                        records@[chosen@[j] as int].name@,
                    )
                    &&& named@[j].start == bias + records@[chosen@[j] as int].value
                    &&& named@[j].end == bias + records@[chosen@[j] as int].value
                        + records@[chosen@[j] as int].size
                },
        decreases chosen@.len() - k,
    {
        let rec = &records[chosen[k]];
        let name = demangle::demangled_name(rec.name.as_slice());
        let start = bias + rec.value;
        let end = start + rec.size;
        named.push(ImageSymbol { name, start, end });
        k += 1;
    }
    proof {
        assert forall|j: int|
            0 <= j < chosen_ints(chosen@).len() implies chosen_ints(chosen@)[j] == chosen@[j]
            as int by {}
        assert(is_named_of(records@, spec_select(records@), bias, named@));
    }
    let ghost mid = named@;
    let sorted = sort_by_start(named);
    proof {
        assert(is_named_of(records@, spec_select(records@), bias, mid) && sorted@
            == spec_sort_by_start(mid));
    }
    sorted
}

/// One loaded segment of the process: an absolute address range and the
/// image it belongs to.
#[derive(Clone, Copy, PartialEq, Eq, Structural, Debug)]
pub struct Segment {
    /// The first address of the segment.
    pub start: u64,
    /// One past the last address of the segment.
    pub end: u64,
    /// The position of the owning image in the index.
    pub image: usize,
}

/// One entry of an inline chain: what the debug-info reader knows about
/// one inlined call — the function's name, the file it lives in, and the
/// line the resolved address corresponds to, each when present.
pub struct InlineFrame {
    /// The inlined function's name, if known.
    pub function: Option<String>,
    /// The path of the file the function is defined in, if known.
    pub file: Option<String>,
    /// The line the resolved address corresponds to, if known.
    pub line: Option<u32>,
}

/// One address range of an image for which the debug-info reader produced
/// an inline chain, outermost caller first; addresses are absolute.
pub struct InlineRange {
    /// The first address the chain covers.
    pub start: u64,
    /// One past the last address the chain covers.
    pub end: u64,
    /// The chain, outermost inlined caller first.
    pub chain: Vec<InlineFrame>,
}

/// One loaded image: its path (absent for the main executable), its load
/// bias, its lookup-ready symbols, and the inline chains its debug info
/// yields.
pub struct Image {
    /// The path the image was loaded from, absent for the main executable.
    pub name: Option<String>,
    /// The offset between link-time and loaded addresses.
    pub bias: u64,
    /// The image's symbols, sorted by start address.
    pub symbols: Vec<ImageSymbol>,
    /// The image's inline ranges, sorted by start address; empty when the
    /// image has no debug info.
    pub inlines: Vec<InlineRange>,
}

/// Whether a run of segments is sorted by start address.
pub open spec fn segs_sorted(s: Seq<Segment>) -> bool {
    forall|i: int, j: int| 0 <= i < j < s.len() ==> #[trigger] s[i].start <= #[trigger] s[j].start
}

/// Whether adjacent segments never overlap.
pub open spec fn segs_disjoint(s: Seq<Segment>) -> bool {
    forall|i: int| 0 <= i && i + 1 < s.len() ==> (#[trigger] s[i]).end <= s[i + 1].start
}

/// Whether adjacent symbols never overlap.
pub open spec fn syms_disjoint(s: Seq<ImageSymbol>) -> bool {
    forall|i: int| 0 <= i && i + 1 < s.len() ==> (#[trigger] s[i]).end <= s[i + 1].start
}

/// Whether a segment covers an address.
pub open spec fn seg_contains(s: Segment, addr: u64) -> bool {
    s.start <= addr < s.end
}

/// Whether a symbol covers an address.
pub open spec fn sym_contains(s: &ImageSymbol, addr: u64) -> bool {
    s.start <= addr < s.end
}

/// Whether a run of inline ranges is sorted by start address.
pub open spec fn inlines_sorted(s: Seq<InlineRange>) -> bool {
    forall|i: int, j: int| 0 <= i < j < s.len() ==> #[trigger] s[i].start <= #[trigger] s[j].start
}

/// Whether adjacent inline ranges never overlap.
pub open spec fn inlines_disjoint(s: Seq<InlineRange>) -> bool {
    forall|i: int| 0 <= i && i + 1 < s.len() ==> (#[trigger] s[i]).end <= s[i + 1].start
}

/// Whether an inline range covers an address.
pub open spec fn inline_contains(r: &InlineRange, addr: u64) -> bool {
    r.start <= addr < r.end
}

/// A segment inserted behind every earlier segment whose start address does
/// not exceed its own.
pub open spec fn spec_insert_seg(s: Seq<Segment>, x: Segment) -> Seq<Segment>
    decreases s.len(),
{
    if s.len() == 0 {
        seq![x]
    } else if s.last().start <= x.start {
        s.push(x)
    } else {
        spec_insert_seg(s.drop_last(), x).push(s.last())
    }
}

/// Every segment of `xs` inserted into `s` in turn.
pub open spec fn spec_insert_segs(s: Seq<Segment>, xs: Seq<Segment>) -> Seq<Segment>
    decreases xs.len(),
{
    if xs.len() == 0 {
        s
    } else {
        spec_insert_seg(spec_insert_segs(s, xs.drop_last()), xs.last())
    }
}

/// The segments an image contributes: one per loadable program header,
/// shifted by the load bias.
pub open spec fn spec_segments_of(phdrs: Seq<elf::ProgramHeader>, bias: u64, image: int) -> Seq<
    Segment,
>
    decreases phdrs.len(),
{
    if phdrs.len() == 0 {
        Seq::empty()
    } else {
        let rest = spec_segments_of(phdrs.drop_last(), bias, image);
        let h = phdrs.last();
        if h.spec_is_load() {
            rest.push(
                Segment {
                    start: (bias + h.p_vaddr) as u64,
                    end: (bias + h.p_vaddr + h.p_memsz) as u64,
                    image: image as usize,
                },
            )
        } else {
            rest
        }
    }
}

/// On a sorted run, inserting at the first position whose start address
/// exceeds the new segment's realizes `spec_insert_seg`.
proof fn lemma_insert_seg_at(s: Seq<Segment>, x: Segment, p: int)
    requires
        segs_sorted(s),
        0 <= p <= s.len(),
        forall|k: int| 0 <= k < p ==> #[trigger] s[k].start <= x.start,
        p < s.len() ==> s[p].start > x.start,
    ensures
        spec_insert_seg(s, x) == s.insert(p, x),
    decreases s.len(),
{
    if s.len() == 0 {
        assert(s.insert(0, x) =~= seq![x]);
    } else if s.last().start <= x.start {
        assert(p == s.len()) by {
            if p < s.len() {
                assert(s[p].start > x.start);
                assert(s[p].start <= s.last().start);
            }
        }
        assert(s.insert(p, x) =~= s.push(x));
    } else {
        let t = s.drop_last();
        assert(p < s.len());
        assert(segs_sorted(t));
        lemma_insert_seg_at(t, x, p);
        assert(t.insert(p, x).push(s.last()) =~= s.insert(p, x));
    }
}

/// The process-wide map from addresses to images and symbols.
pub struct SymbolIndex {
    /// The loaded images, in the order they were reported.
    pub images: Vec<Image>,
    /// Every image's loadable segments, sorted by start address.
    pub segments: Vec<Segment>,
}

impl SymbolIndex {
    /// The index invariant: segments sorted and pointing at existing
    /// images, and each image's symbols and inline ranges sorted.
    pub open spec fn wf(&self) -> bool {
        &&& segs_sorted(self.segments@)
        &&& forall|i: int|
            0 <= i < self.segments@.len() ==> (#[trigger] self.segments@[i]).image
                < self.images@.len()
        &&& forall|i: int|
            0 <= i < self.images@.len() ==> syms_sorted((#[trigger] self.images@[i]).symbols@)
        &&& forall|i: int|
            0 <= i < self.images@.len() ==> inlines_sorted((#[trigger] self.images@[i]).inlines@)
    }

    /// Returns an index with no images.
    pub fn new() -> (r: SymbolIndex)
        ensures
            r.wf(),
            r.images@.len() == 0,
            r.segments@.len() == 0,
    {
        SymbolIndex { images: Vec::new(), segments: Vec::new() }
    }

    /// Adds one loaded image to the index: its records are reduced to the
    /// lookup-ready symbol table, one segment per loadable program header
    /// is merged into the sorted segment table, and the inline chains the
    /// debug-info reader produced — already on absolute addresses and
    /// sorted by start, empty when the image has none — are kept for
    /// lookups.
    pub fn add_image(
        &mut self,
        name: Option<String>,
        bias: u64,
        records: &Vec<elf::Symbol>,
        phdrs: &Vec<elf::ProgramHeader>,
        inlines: Vec<InlineRange>,
    )
        requires
            old(self).wf(),
            inlines_sorted(inlines@),
            forall|i: int|
                0 <= i < records@.len() && (#[trigger] records@[i]).spec_eligible() ==> records@[i].value
                    + records@[i].size + bias <= u64::MAX,
            forall|i: int|
                0 <= i < phdrs@.len() && (#[trigger] phdrs@[i]).spec_is_load() ==> phdrs@[i].p_vaddr
                    + phdrs@[i].p_memsz + bias <= u64::MAX,
        ensures
            final(self).wf(),
            final(self).images@.len() == old(self).images@.len() + 1,
            final(self).images@.subrange(0, old(self).images@.len() as int) == old(self).images@,
            final(self).images@.last().name == name,
            final(self).images@.last().bias == bias,
            final(self).images@.last().inlines == inlines,
            is_built_symbols(records@, bias, final(self).images@.last().symbols@),
            final(self).segments@ == spec_insert_segs(
                old(self).segments@,
                spec_segments_of(phdrs@, bias, old(self).images@.len() as int),
            ),
    {
        let ghost old_images = self.images@;
        let ghost old_segments = self.segments@;
        let image: usize = self.images.len();
        let symbols = build_symbols(records, bias);
        self.images.push(Image { name, bias, symbols, inlines });
        proof {
            assert(self.images@.subrange(0, old_images.len() as int) =~= old_images);
        }
        let mut t: usize = 0;
        while t < phdrs.len()
            invariant
                0 <= t <= phdrs@.len(),
                image as int == old_images.len(),
                forall|i: int|
                    0 <= i < phdrs@.len() && (#[trigger] phdrs@[i]).spec_is_load() ==> phdrs@[i].p_vaddr
                        + phdrs@[i].p_memsz + bias <= u64::MAX,
                self.images@.len() == old_images.len() + 1,
                self.images@.subrange(0, old_images.len() as int) == old_images,
                self.images@.last().name == name,
                self.images@.last().bias == bias,
                self.images@.last().inlines == inlines,
                inlines_sorted(inlines@),
                is_built_symbols(records@, bias, self.images@.last().symbols@),
                syms_sorted(self.images@.last().symbols@),
                forall|i: int|
                    0 <= i < old_images.len() ==> syms_sorted((#[trigger] old_images[i]).symbols@),
                forall|i: int|
                    0 <= i < old_images.len() ==> inlines_sorted(
                        (#[trigger] old_images[i]).inlines@,
                    ),
                segs_sorted(self.segments@),
                forall|i: int|
                    0 <= i < self.segments@.len() ==> (#[trigger] self.segments@[i]).image
                        < self.images@.len(),
                self.segments@ == spec_insert_segs(
                    old_segments,
                    spec_segments_of(phdrs@.take(t as int), bias, image as int),
                ),
            decreases phdrs@.len() - t,
        {
            let ghost segs_before = self.segments@;
            let ghost prev_t = phdrs@.take(t as int);
            let ghost cur_t = phdrs@.take(t as int + 1);
            proof {
                assert(cur_t.drop_last() =~= prev_t);
                assert(cur_t.last() == phdrs@[t as int]);
            }
            let h = &phdrs[t];
            if h.is_load() {
                let start = bias + h.p_vaddr;
                let end = start + h.p_memsz;
                let seg = Segment { start, end, image };
                let ghost new_segs = spec_segments_of(cur_t, bias, image as int);
                proof {
                    assert(new_segs == spec_segments_of(prev_t, bias, image as int).push(seg));
                    assert(new_segs.drop_last() =~= spec_segments_of(prev_t, bias, image as int));
                    assert(new_segs.last() == seg);
                }
                let mut p: usize = 0;
                while p < self.segments.len() && self.segments[p].start <= start
                    invariant
                        0 <= p <= self.segments@.len(),
                        forall|k: int| 0 <= k < p ==> #[trigger] self.segments@[k].start <= start,
                        self.segments@ == segs_before,
                    decreases self.segments@.len() - p,
                {
                    p += 1;
                }
                self.segments.insert(p, seg);
                proof {
                    lemma_insert_seg_at(segs_before, seg, p as int);
                    assert(self.segments@ == spec_insert_seg(segs_before, seg));
                    assert forall|a: int, b: int|
                        0 <= a < b < self.segments@.len() implies #[trigger] self.segments@[a].start
                        <= #[trigger] self.segments@[b].start by {
                        if b < p {
                        } else if a < p && b == p {
                        } else if a < p && b > p {
                            if b - 1 >= p {
                                assert(segs_before[b - 1].start > seg.start);
                            }
                        } else if a == p {
                            assert(segs_before[b - 1].start > seg.start);
                        } else {
                            assert(self.segments@[a] == segs_before[a - 1]);
                            assert(self.segments@[b] == segs_before[b - 1]);
                        }
                    }
                    assert forall|i: int|
                        0 <= i < self.segments@.len() implies (#[trigger] self.segments@[i]).image
                        < self.images@.len() by {
                        if i < p {
                            assert(self.segments@[i] == segs_before[i]);
                        } else if i > p {
                            assert(self.segments@[i] == segs_before[i - 1]);
                        }
                    }
                    assert(self.segments@ == spec_insert_segs(old_segments, new_segs));
                }
            } else {
                proof {
                    assert(spec_segments_of(cur_t, bias, image as int) == spec_segments_of(
                        prev_t,
                        bias,
                        image as int,
                    ));
                }
            }
            t += 1;
        }
        proof {
            assert(phdrs@.take(phdrs@.len() as int) =~= phdrs@);
            assert forall|i: int|
                0 <= i < self.images@.len() implies syms_sorted(
                (#[trigger] self.images@[i]).symbols@,
            ) by {
                if i < old_images.len() {
                    assert(self.images@[i] == old_images[i]);
                }
            }
            assert forall|i: int|
                0 <= i < self.images@.len() implies inlines_sorted(
                (#[trigger] self.images@[i]).inlines@,
            ) by {
                if i < old_images.len() {
                    assert(self.images@[i] == old_images[i]);
                }
            }
        }
    }
}

/// Under sorted, pairwise-adjacent-disjoint segments, every earlier segment
/// ends at or before a later one starts.
proof fn lemma_seg_chain(s: Seq<Segment>, i: int, j: int)
    requires
        segs_sorted(s),
        segs_disjoint(s),
        0 <= i < j < s.len(),
    ensures
        s[i].end <= s[j].start,
{
    assert(s[i].end <= s[i + 1].start);
    if i + 1 < j {
        assert(s[i + 1].start <= s[j].start);
    }
}

/// The same chain for the symbols of one image.
proof fn lemma_sym_chain(s: Seq<ImageSymbol>, i: int, j: int)
    requires
        syms_sorted(s),
        syms_disjoint(s),
        0 <= i < j < s.len(),
    ensures
        s[i].end <= s[j].start,
{
    assert(s[i].end <= s[i + 1].start);
    if i + 1 < j {
        assert(s[i + 1].start <= s[j].start);
    }
}

/// The same chain for the inline ranges of one image.
proof fn lemma_inline_range_chain(s: Seq<InlineRange>, i: int, j: int)
    requires
        inlines_sorted(s),
        inlines_disjoint(s),
        0 <= i < j < s.len(),
    ensures
        s[i].end <= s[j].start,
{
    assert(s[i].end <= s[i + 1].start);
    if i + 1 < j {
        assert(s[i + 1].start <= s[j].start);
    }
}

/// Finds the segment covering an address: the one with the greatest start
/// address not exceeding it, when that one covers the address.
pub fn find_segment(segs: &Vec<Segment>, addr: u64) -> (r: Option<usize>)
    requires
        segs_sorted(segs@),
    ensures
        r matches Some(i) ==> {
            &&& i < segs@.len()
            &&& seg_contains(segs@[i as int], addr)
            &&& forall|j: int| i < j < segs@.len() ==> #[trigger] segs@[j].start > addr
        },
        r is None && segs_disjoint(segs@) ==> forall|j: int|
            0 <= j < segs@.len() ==> !seg_contains(#[trigger] segs@[j], addr),
{
    let mut lo: usize = 0;
    let mut hi: usize = segs.len();
    while lo < hi
        invariant
            0 <= lo <= hi <= segs@.len(),
            forall|k: int| 0 <= k < lo ==> #[trigger] segs@[k].start <= addr,
            forall|k: int| hi <= k < segs@.len() ==> #[trigger] segs@[k].start > addr,
            segs_sorted(segs@),
        decreases hi - lo,
    {
        let mid = lo + (hi - lo) / 2;
        if segs[mid].start <= addr {
            proof {
                assert forall|k: int| 0 <= k < mid + 1 implies #[trigger] segs@[k].start
                    <= addr by {
                    if k < mid {
                        assert(segs@[k].start <= segs@[mid as int].start);
                    }
                }
            }
            lo = mid + 1;
        } else {
            proof {
                assert forall|k: int| mid <= k < segs@.len() implies #[trigger] segs@[k].start
                    > addr by {
                    if k > mid {
                        assert(segs@[mid as int].start <= segs@[k].start);
                    }
                }
            }
            hi = mid;
        }
    }
    if lo == 0 {
        return None;
    }
    let cand = lo - 1;
    if addr < segs[cand].end {
        Some(cand)
    } else {
        proof {
            if segs_disjoint(segs@) {
                assert forall|j: int| 0 <= j < segs@.len() implies !seg_contains(
                    #[trigger] segs@[j],
                    addr,
                ) by {
                    if j < cand {
                        lemma_seg_chain(segs@, j, cand as int);
                    } else if j == cand {
                    } else {
                        assert(segs@[j].start > addr);
                    }
                }
            }
        }
        None
    }
}

/// Finds the symbol covering an address within one image's table, by the
/// same greatest-start rule.
pub fn find_symbol(syms: &Vec<ImageSymbol>, addr: u64) -> (r: Option<usize>)
    requires
        syms_sorted(syms@),
    ensures
        r matches Some(i) ==> {
            &&& i < syms@.len()
            &&& sym_contains(&syms@[i as int], addr)
            &&& forall|j: int| i < j < syms@.len() ==> #[trigger] syms@[j].start > addr
        },
        r is None && syms_disjoint(syms@) ==> forall|j: int|
            0 <= j < syms@.len() ==> !sym_contains(&#[trigger] syms@[j], addr),
{
    let mut lo: usize = 0;
    let mut hi: usize = syms.len();
    while lo < hi
        invariant
            0 <= lo <= hi <= syms@.len(),
            forall|k: int| 0 <= k < lo ==> #[trigger] syms@[k].start <= addr,
            forall|k: int| hi <= k < syms@.len() ==> #[trigger] syms@[k].start > addr,
            syms_sorted(syms@),
        decreases hi - lo,
    {
        let mid = lo + (hi - lo) / 2;
        if syms[mid].start <= addr {
            proof {
                assert forall|k: int| 0 <= k < mid + 1 implies #[trigger] syms@[k].start
                    <= addr by {
                    if k < mid {
                        assert(syms@[k].start <= syms@[mid as int].start);
                    }
                }
            }
            lo = mid + 1;
        } else {
            proof {
                assert forall|k: int| mid <= k < syms@.len() implies #[trigger] syms@[k].start
                    > addr by {
                    if k > mid {
                        assert(syms@[mid as int].start <= syms@[k].start);
                    }
                }
            }
            hi = mid;
        }
    }
    if lo == 0 {
        return None;
    }
    let cand = lo - 1;
    if addr < syms[cand].end {
        Some(cand)
    } else {
        proof {
            if syms_disjoint(syms@) {
                assert forall|j: int| 0 <= j < syms@.len() implies !sym_contains(
                    &#[trigger] syms@[j],
                    addr,
                ) by {
                    if j < cand {
                        lemma_sym_chain(syms@, j, cand as int);
                    } else if j == cand {
                    } else {
                        assert(syms@[j].start > addr);
                    }
                }
            }
        }
        None
    }
}

/// Finds the inline range covering an address within one image's table,
/// by the same greatest-start rule.
pub fn find_inline(inl: &Vec<InlineRange>, addr: u64) -> (r: Option<usize>)
    requires
        inlines_sorted(inl@),
    ensures
        r matches Some(i) ==> {
            &&& i < inl@.len()
            &&& inline_contains(&inl@[i as int], addr)
            &&& forall|j: int| i < j < inl@.len() ==> #[trigger] inl@[j].start > addr
        },
        r is None && inlines_disjoint(inl@) ==> forall|j: int|
            0 <= j < inl@.len() ==> !inline_contains(&#[trigger] inl@[j], addr),
{
    let mut lo: usize = 0;
    let mut hi: usize = inl.len();
    while lo < hi
        invariant
            0 <= lo <= hi <= inl@.len(),
            forall|k: int| 0 <= k < lo ==> #[trigger] inl@[k].start <= addr,
            forall|k: int| hi <= k < inl@.len() ==> #[trigger] inl@[k].start > addr,
            inlines_sorted(inl@),
        decreases hi - lo,
    {
        let mid = lo + (hi - lo) / 2;
        if inl[mid].start <= addr {
            proof {
                assert forall|k: int| 0 <= k < mid + 1 implies #[trigger] inl@[k].start
                    <= addr by {
                    if k < mid {
                        assert(inl@[k].start <= inl@[mid as int].start);
                    }
                }
            }
            lo = mid + 1;
        } else {
            proof {
                assert forall|k: int| mid <= k < inl@.len() implies #[trigger] inl@[k].start
                    > addr by {
                    if k > mid {
                        assert(inl@[mid as int].start <= inl@[k].start);
                    }
                }
            }
            hi = mid;
        }
    }
    if lo == 0 {
        return None;
    }
    let cand = lo - 1;
    if addr < inl[cand].end {
        Some(cand)
    } else {
        proof {
            if inlines_disjoint(inl@) {
                assert forall|j: int| 0 <= j < inl@.len() implies !inline_contains(
                    &#[trigger] inl@[j],
                    addr,
                ) by {
                    if j < cand {
                        lemma_inline_range_chain(inl@, j, cand as int);
                    } else if j == cand {
                    } else {
                        assert(inl@[j].start > addr);
                    }
                }
            }
        }
        None
    }
}

/// Whether the whole index is overlap-free: segments disjoint, and every
/// image's symbols disjoint.  A live process's loader gives exactly this;
/// under it a miss is conclusive.
pub open spec fn index_disjoint(index: &SymbolIndex) -> bool {
    &&& segs_disjoint(index.segments@)
    &&& forall|g: int|
        0 <= g < index.images@.len() ==> syms_disjoint((#[trigger] index.images@[g]).symbols@)
}

/// Whether no symbol reachable through a covering segment covers the
/// address: what a conclusive miss means.
pub open spec fn no_covering_symbol(index: &SymbolIndex, addr: u64) -> bool {
    forall|j: int, si: int|
        (0 <= j < index.segments@.len() && seg_contains(#[trigger] index.segments@[j], addr) && 0
            <= si < index.images@[index.segments@[j].image as int].symbols@.len()) ==> !((
        #[trigger] index.images@[index.segments@[j].image as int].symbols@[si]).start <= addr
            && addr < index.images@[index.segments@[j].image as int].symbols@[si].end)
}

/// Whether the index's inline ranges are overlap-free: segments disjoint,
/// and every image's inline ranges disjoint.
pub open spec fn index_inlines_disjoint(index: &SymbolIndex) -> bool {
    &&& segs_disjoint(index.segments@)
    &&& forall|g: int|
        0 <= g < index.images@.len() ==> inlines_disjoint((#[trigger] index.images@[g]).inlines@)
}

/// Whether no inline range reachable through a covering segment covers the
/// address.
pub open spec fn no_covering_inline(index: &SymbolIndex, addr: u64) -> bool {
    forall|j: int, ri: int|
        (0 <= j < index.segments@.len() && seg_contains(#[trigger] index.segments@[j], addr) && 0
            <= ri < index.images@[index.segments@[j].image as int].inlines@.len()) ==> !((
        #[trigger] index.images@[index.segments@[j].image as int].inlines@[ri]).start <= addr
            && addr < index.images@[index.segments@[j].image as int].inlines@[ri].end)
}

/// Under sorted, disjoint segments at most one segment covers an address.
proof fn lemma_covering_segment_unique(s: Seq<Segment>, addr: u64, i: int, j: int)
    requires
        segs_sorted(s),
        segs_disjoint(s),
        0 <= i < s.len(),
        0 <= j < s.len(),
        seg_contains(s[i], addr),
        seg_contains(s[j], addr),
    ensures
        i == j,
{
    if i < j {
        lemma_seg_chain(s, i, j);
    } else if j < i {
        lemma_seg_chain(s, j, i);
    }
}

/// When no segment covers the address, neither a symbol nor an inline
/// range covers it through one.
proof fn lemma_no_segment_conclusive(index: &SymbolIndex, addr: u64)
    requires
        forall|j: int|
            0 <= j < index.segments@.len() ==> !seg_contains(#[trigger] index.segments@[j], addr),
    ensures
        no_covering_symbol(index, addr),
        no_covering_inline(index, addr),
{
}

/// When the unique covering segment's image has no covering symbol, no
/// symbol covers the address through any segment.
proof fn lemma_miss_conclusive(index: &SymbolIndex, addr: u64, seg: int)
    requires
        segs_sorted(index.segments@),
        segs_disjoint(index.segments@),
        0 <= seg < index.segments@.len(),
        seg_contains(index.segments@[seg], addr),
        forall|j: int|
            0 <= j < index.images@[index.segments@[seg].image as int].symbols@.len()
                ==> !((#[trigger] index.images@[index.segments@[seg].image as int].symbols@[j]).start
                <= addr && addr < index.images@[index.segments@[seg].image as int].symbols@[j].end),
    ensures
        no_covering_symbol(index, addr),
{
    assert forall|j: int, si: int|
        (0 <= j < index.segments@.len() && seg_contains(#[trigger] index.segments@[j], addr) && 0
            <= si < index.images@[index.segments@[j].image as int].symbols@.len()) implies !((
    #[trigger] index.images@[index.segments@[j].image as int].symbols@[si]).start <= addr && addr
        < index.images@[index.segments@[j].image as int].symbols@[si].end) by {
        lemma_covering_segment_unique(index.segments@, addr, j, seg);
    }
}

/// When the unique covering segment's image has no covering inline range,
/// no inline range covers the address through any segment.
proof fn lemma_miss_conclusive_inline(index: &SymbolIndex, addr: u64, seg: int)
    requires
        segs_sorted(index.segments@),
        segs_disjoint(index.segments@),
        0 <= seg < index.segments@.len(),
        seg_contains(index.segments@[seg], addr),
        forall|j: int|
            0 <= j < index.images@[index.segments@[seg].image as int].inlines@.len()
                ==> !((#[trigger] index.images@[index.segments@[seg].image as int].inlines@[j]).start
                <= addr && addr < index.images@[index.segments@[seg].image as int].inlines@[j].end),
    ensures
        no_covering_inline(index, addr),
{
    assert forall|j: int, ri: int|
        (0 <= j < index.segments@.len() && seg_contains(#[trigger] index.segments@[j], addr) && 0
            <= ri < index.images@[index.segments@[j].image as int].inlines@.len()) implies !((
    #[trigger] index.images@[index.segments@[j].image as int].inlines@[ri]).start <= addr && addr
        < index.images@[index.segments@[j].image as int].inlines@[ri].end) by {
        lemma_covering_segment_unique(index.segments@, addr, j, seg);
    }
}

/// A successful lookup: the covering segment, its image, the covering
/// symbol within that image when one exists, and the covering inline
/// range when one exists.
pub struct LookupHit {
    /// The position of the covering segment.
    pub segment: usize,
    /// The position of the owning image.
    pub image: usize,
    /// The position of the covering symbol in the image's table, if any.
    pub symbol: Option<usize>,
    /// The position of the covering inline range in the image's table, if
    /// any.
    pub inline: Option<usize>,
}

/// What a lookup reports about an address, with owned copies of the names.
pub struct FrameInfo {
    /// The path of the covering image, absent for the main executable.
    pub library: Option<String>,
    /// The demangled name of the covering symbol, if one was found.
    pub symbol: Option<String>,
}

impl SymbolIndex {
    /// Resolves an address to the segment, image, symbol and inline range
    /// covering it.
    ///
    /// Whenever a hit is returned its segment covers the address; whenever
    /// a symbol or inline position is returned, that symbol or range
    /// covers the address.
    #[verifier::rlimit(100)]
    pub fn lookup(&self, addr: u64) -> (r: Option<LookupHit>)
        requires
            self.wf(),
        ensures
            r matches Some(h) ==> {
                &&& h.segment < self.segments@.len()
                &&& seg_contains(self.segments@[h.segment as int], addr)
                &&& h.image == self.segments@[h.segment as int].image
                &&& h.image < self.images@.len()
                &&& match h.symbol {
                    Some(si) => si < self.images@[h.image as int].symbols@.len() && sym_contains(
                        &self.images@[h.image as int].symbols@[si as int],
                        addr,
                    ),
                    None => syms_disjoint(self.images@[h.image as int].symbols@) ==> forall|j: int|
                        0 <= j < self.images@[h.image as int].symbols@.len() ==> !sym_contains(
                            &#[trigger] self.images@[h.image as int].symbols@[j],
                            addr,
                        ),
                }
                &&& match h.inline {
                    Some(ri) => ri < self.images@[h.image as int].inlines@.len() && inline_contains(
                        &self.images@[h.image as int].inlines@[ri as int],
                        addr,
                    ),
                    None => inlines_disjoint(self.images@[h.image as int].inlines@) ==> forall|
                        j: int,
                    |
                        0 <= j < self.images@[h.image as int].inlines@.len() ==> !inline_contains(
                            &#[trigger] self.images@[h.image as int].inlines@[j],
                            addr,
                        ),
                }
            },
            r is None && segs_disjoint(self.segments@) ==> forall|j: int|
                0 <= j < self.segments@.len() ==> !seg_contains(#[trigger] self.segments@[j], addr),
            r is None && index_disjoint(self) ==> no_covering_symbol(self, addr),
            r matches Some(h) ==> (h.symbol is None && index_disjoint(self) ==> no_covering_symbol(
                self,
                addr,
            )),
            r is None && index_inlines_disjoint(self) ==> no_covering_inline(self, addr),
            r matches Some(h) ==> (h.inline is None && index_inlines_disjoint(self)
                ==> no_covering_inline(self, addr)),
    {
        let seg = match find_segment(&self.segments, addr) {
            Some(i) => i,
            None => {
                proof {
                    if index_disjoint(self) || index_inlines_disjoint(self) {
                        lemma_no_segment_conclusive(self, addr);
                    }
                }
                return None;
            },
        };
        let image = self.segments[seg].image;
        let symbol = find_symbol(&self.images[image].symbols, addr);
        let inline = find_inline(&self.images[image].inlines, addr);
        proof {
            if symbol is None && index_disjoint(self) {
                lemma_miss_conclusive(self, addr, seg as int);
            }
            if inline is None && index_inlines_disjoint(self) {
                lemma_miss_conclusive_inline(self, addr, seg as int);
            }
        }
        Some(LookupHit { segment: seg, image, symbol, inline })
    }

    /// Resolves an address to the owning library's path and the covering
    /// symbol's demangled name.
    pub fn query(&self, addr: u64) -> (r: Option<FrameInfo>)
        requires
            self.wf(),
        ensures
            r matches Some(f) ==> exists|i: int|
                {
                    &&& 0 <= i < self.segments@.len()
                    &&& seg_contains(#[trigger] self.segments@[i], addr)
                    &&& self.segments@[i].image < self.images@.len()
                    &&& f.library == self.images@[self.segments@[i].image as int].name
                },
            r is None && segs_disjoint(self.segments@) ==> forall|j: int|
                0 <= j < self.segments@.len() ==> !seg_contains(#[trigger] self.segments@[j], addr),
            r matches Some(f) ==> f.symbol matches Some(nm) ==> exists|g: int, si: int|
                {
                    &&& 0 <= g < self.images@.len()
                    &&& 0 <= si < self.images@[g].symbols@.len()
                    &&& (#[trigger] self.images@[g].symbols@[si]).start <= addr
                    &&& addr < self.images@[g].symbols@[si].end
                    &&& nm@ == self.images@[g].symbols@[si].name@
                },
            r matches Some(f) ==> (f.symbol is None && index_disjoint(self) ==> no_covering_symbol(
                self,
                addr,
            )),
            r is None && index_disjoint(self) ==> no_covering_symbol(self, addr),
    {
        let hit = match self.lookup(addr) {
            Some(h) => h,
            None => {
                return None;
            },
        };
        let image = &self.images[hit.image];
        let library = match &image.name {
            Some(n) => Some(n.clone()),
            None => None,
        };
        let symbol = match hit.symbol {
            Some(si) => Some(image.symbols[si].name.clone()),
            None => None,
        };
        proof {
            assert(seg_contains(self.segments@[hit.segment as int], addr));
            assert(library == self.images@[self.segments@[hit.segment as int].image as int].name);
        }
        Some(FrameInfo { library, symbol })
    }
}

/// Whether two symbol runs agree observably: same length and, pointwise,
/// the same name text and the same address range.
pub open spec fn symbols_agree(a: Seq<ImageSymbol>, b: Seq<ImageSymbol>) -> bool {
    &&& a.len() == b.len()
    &&& forall|k: int|
        0 <= k < a.len() ==> {
            &&& (#[trigger] a[k]).name@ == (#[trigger] b[k]).name@
            &&& a[k].start == b[k].start
            &&& a[k].end == b[k].end
        }
}

/// Inserting observably equal symbols into observably equal runs keeps the
/// runs observably equal.
proof fn lemma_insert_agree(a: Seq<ImageSymbol>, b: Seq<ImageSymbol>, x: ImageSymbol, y: ImageSymbol)
    requires
        symbols_agree(a, b),
        x.name@ == y.name@,
        x.start == y.start,
        x.end == y.end,
    ensures
        symbols_agree(spec_insert_by_start(a, x), spec_insert_by_start(b, y)),
    decreases a.len(),
{
    if a.len() == 0 {
    } else {
        assert(a.last().start == b.last().start);
        if a.last().start <= x.start {
        } else {
            assert(symbols_agree(a.drop_last(), b.drop_last()));
            lemma_insert_agree(a.drop_last(), b.drop_last(), x, y);
        }
    }
}

/// Sorting observably equal runs keeps them observably equal.
proof fn lemma_sort_agree(a: Seq<ImageSymbol>, b: Seq<ImageSymbol>)
    requires
        symbols_agree(a, b),
    ensures
        symbols_agree(spec_sort_by_start(a), spec_sort_by_start(b)),
    decreases a.len(),
{
    if a.len() == 0 {
    } else {
        assert(symbols_agree(a.drop_last(), b.drop_last()));
        lemma_sort_agree(a.drop_last(), b.drop_last());
        lemma_insert_agree(
            spec_sort_by_start(a.drop_last()),
            spec_sort_by_start(b.drop_last()),
            a.last(),
            b.last(),
        );
    }
}

/// Symbol preference is deterministic: any two symbol tables built from the
/// same records and load bias agree observably — same names, in the same
/// order, covering the same ranges.
pub proof fn lemma_build_deterministic(
    rs: Seq<elf::Symbol>,
    bias: u64,
    o1: Seq<ImageSymbol>,
    o2: Seq<ImageSymbol>,
)
    requires
        is_built_symbols(rs, bias, o1),
        is_built_symbols(rs, bias, o2),
    ensures
        symbols_agree(o1, o2),
{
    let mid1 = choose|mid: Seq<ImageSymbol>|
        is_named_of(rs, spec_select(rs), bias, mid) && o1 == #[trigger] spec_sort_by_start(mid);
    let mid2 = choose|mid: Seq<ImageSymbol>|
        is_named_of(rs, spec_select(rs), bias, mid) && o2 == #[trigger] spec_sort_by_start(mid);
    assert(symbols_agree(mid1, mid2));
    lemma_sort_agree(mid1, mid2);
}

} // verus!
