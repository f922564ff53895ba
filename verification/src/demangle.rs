//! Procedure-name decoding: demangling and thread-name cleanup.
//!
//! Symbol tables store mangled names.  Per the symbolicator's policy a name
//! is first tried as an Itanium-ABI C++ mangling, the raw bytes are used
//! (decoded as lossy UTF-8) when that fails, and the result is then run
//! through the Rust demangler, which returns unrecognized input unchanged.

use vstd::prelude::*;

verus! {

/// What `String::from_utf8_lossy` makes of a byte string; a pure function of
/// the bytes.
pub uninterp spec fn lossy_utf8_of(bytes: Seq<u8>) -> Seq<char>;

/// What the Itanium-ABI demangler makes of a raw symbol name: `Some` exactly
/// when the bytes parse as a C++ mangling; a pure function of the bytes.
pub uninterp spec fn cpp_demangled_of(raw: Seq<u8>) -> Option<Seq<char>>;

/// What the Rust demangler makes of a name; a pure function of the
/// characters.
pub uninterp spec fn rust_demangled_of(name: Seq<char>) -> Seq<char>;

/// Relies on `String::from_utf8_lossy`: the result depends on the bytes
/// alone, an empty input gives an empty string, and bytes that are all ASCII
/// (always valid UTF-8) pass through unchanged.
#[verifier::external_body]
pub fn utf8_lossy(bytes: &[u8]) -> (r: String)
    ensures
        r@ == lossy_utf8_of(bytes@),
        bytes@.len() == 0 ==> r@.len() == 0,
        (forall|i: int| 0 <= i < bytes@.len() ==> bytes@[i] < 128) ==> r@ == Seq::new(
            bytes@.len(),
            |i: int| bytes@[i] as char,
        ),
{
    String::from_utf8_lossy(bytes).into_owned()
}

/// Relies on `cpp_demangle::Symbol::new` and `Symbol::demangle`: whether a
/// raw name parses and renders as an Itanium-ABI mangling, and its demangled
/// form, depend on the bytes alone.
#[verifier::external_body]
fn cpp_demangle_bytes(raw: &[u8]) -> (r: Option<String>)
    ensures
        r is Some <==> cpp_demangled_of(raw@) is Some,
        r matches Some(s) ==> Some(s@) == cpp_demangled_of(raw@),
{
    match cpp_demangle::Symbol::new(raw) {
        Ok(sym) => sym.demangle().ok(),
        Err(_) => None,
    }
}

/// Relies on `rustc_demangle::demangle` and its display rendering: the
/// result depends on the input name alone, and a name that is not a Rust
/// mangling comes back unchanged apart from linker-added suffixes — which
/// is why this pass is safe to apply last, after the C++ attempt.
#[verifier::external_body]
fn rust_demangle_str(name: &str) -> (r: String)
    ensures
        r@ == rust_demangled_of(name@),
{
    rustc_demangle::demangle(name).to_string()
}

/// The fully decoded form of a raw symbol name: the Itanium demangling when
/// the bytes parse as one, otherwise the bytes as lossy UTF-8; either way
/// run through the Rust demangler afterwards.
pub open spec fn spec_demangled(raw: Seq<u8>) -> Seq<char> {
    if cpp_demangled_of(raw) is Some {
        rust_demangled_of(cpp_demangled_of(raw)->0)
    } else {
        rust_demangled_of(lossy_utf8_of(raw))
    }
}

/// Decodes a raw symbol name into the form reported to callers.
pub fn demangled_name(raw: &[u8]) -> (r: String)
    ensures
        r@ == spec_demangled(raw@),
{
    let first = match cpp_demangle_bytes(raw) {
        Some(name) => name,
        None => utf8_lossy(raw),
    };
    rust_demangle_str(first.as_str())
}

/// Whether a byte is ASCII whitespace: space, tab, line feed, form feed or
/// carriage return.
pub open spec fn spec_is_space(b: u8) -> bool {
    b == 0x20 || b == 0x09 || b == 0x0a || b == 0x0c || b == 0x0d
}

/// A byte string with its leading whitespace dropped.
pub open spec fn spec_trim_start(s: Seq<u8>) -> Seq<u8>
    decreases s.len(),
{
    if s.len() > 0 && spec_is_space(s[0]) {
        spec_trim_start(s.drop_first())
    } else {
        s
    }
}

/// A byte string with its trailing whitespace dropped.
pub open spec fn spec_trim_end(s: Seq<u8>) -> Seq<u8>
    decreases s.len(),
{
    if s.len() > 0 && spec_is_space(s.last()) {
        spec_trim_end(s.drop_last())
    } else {
        s
    }
}

/// A byte string with whitespace dropped from both ends.
pub open spec fn spec_trim(s: Seq<u8>) -> Seq<u8> {
    spec_trim_end(spec_trim_start(s))
}

/// Dropping `i` leading whitespace bytes realizes `spec_trim_start`.
proof fn lemma_trim_start_skip(s: Seq<u8>, i: int)
    requires
        0 <= i <= s.len(),
        forall|k: int| 0 <= k < i ==> spec_is_space(s[k]),
        i < s.len() ==> !spec_is_space(s[i]),
    ensures
        spec_trim_start(s) == s.subrange(i, s.len() as int),
    decreases i,
{
    if i == 0 {
        if s.len() > 0 && spec_is_space(s[0]) {
            assert(false);
        }
        assert(s.subrange(0, s.len() as int) =~= s);
    } else {
        assert(spec_is_space(s[0]));
        let t = s.drop_first();
        lemma_trim_start_skip(t, i - 1);
        assert(t.subrange(i - 1, t.len() as int) =~= s.subrange(i, s.len() as int));
    }
}

/// Keeping the first `j` bytes realizes `spec_trim_end`.
proof fn lemma_trim_end_take(s: Seq<u8>, j: int)
    requires
        0 <= j <= s.len(),
        forall|k: int| j <= k < s.len() ==> spec_is_space(s[k]),
        j > 0 ==> !spec_is_space(s[j - 1]),
    ensures
        spec_trim_end(s) == s.subrange(0, j),
    decreases s.len() - j,
{
    if j == s.len() {
        if s.len() > 0 && spec_is_space(s.last()) {
            assert(false);
        }
        assert(s.subrange(0, j) =~= s);
    } else {
        assert(spec_is_space(s.last()));
        let t = s.drop_last();
        lemma_trim_end_take(t, j);
        assert(t.subrange(0, j) =~= s.subrange(0, j));
    }
}

/// Drops ASCII whitespace from both ends of a byte string.
pub fn trim_bytes(s: &[u8]) -> (r: Vec<u8>)
    ensures
        r@ == spec_trim(s@),
{
    let len = s.len();
    let mut start: usize = 0;
    while start < len && is_space(s[start])
        invariant
            0 <= start <= len,
            len == s@.len(),
            forall|k: int| 0 <= k < start ==> spec_is_space(s@[k]),
        decreases len - start,
    {
        start += 1;
    }
    proof {
        lemma_trim_start_skip(s@, start as int);
    }
    let ghost mid = s@.subrange(start as int, len as int);
    let mut end: usize = len;
    while end > start && is_space(s[end - 1])
        invariant
            start <= end <= len,
            len == s@.len(),
            mid == s@.subrange(start as int, len as int),
            forall|k: int| end <= k < len ==> spec_is_space(s@[k]),
        decreases end,
    {
        end -= 1;
    }
    proof {
        assert forall|k: int| (end - start) <= k < mid.len() implies spec_is_space(mid[k]) by {
            assert(mid[k] == s@[k + start]);
        }
        if end > start {
            assert(mid[end - start - 1] == s@[end - 1]);
        }
        lemma_trim_end_take(mid, end - start);
    }
    let mut r: Vec<u8> = Vec::new();
    let mut k: usize = start;
    while k < end
        invariant
            start <= k <= end <= len,
            len == s@.len(),
            r@ == s@.subrange(start as int, k as int),
        decreases end - k,
    {
        r.push(s[k]);
        proof {
            assert(s@.subrange(start as int, k + 1 as int) =~= s@.subrange(
                start as int,
                k as int,
            ).push(s@[k as int]));
        }
        k += 1;
    }
    proof {
        assert(mid.subrange(0, end - start) =~= s@.subrange(start as int, end as int));
    }
    r
}

/// Returns whether a byte is ASCII whitespace.
fn is_space(b: u8) -> (r: bool)
    ensures
        r == spec_is_space(b),
{
    b == 0x20 || b == 0x09 || b == 0x0a || b == 0x0c || b == 0x0d
}

/// The display form of a thread name read from procfs: whitespace trimmed
/// from both ends, the rest decoded as lossy UTF-8.
pub open spec fn spec_thread_name(bytes: Seq<u8>) -> Seq<char> {
    lossy_utf8_of(spec_trim(bytes))
}

/// Decodes the contents of a thread's `comm` file into its display name.
pub fn thread_name_of(bytes: &[u8]) -> (r: String)
    ensures
        r@ == spec_thread_name(bytes@),
{
    let trimmed = trim_bytes(bytes);
    utf8_lossy(trimmed.as_slice())
}

} // verus!
