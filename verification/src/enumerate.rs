//! Thread enumeration for a target process.
//!
//! The thread directory of procfs is listed and every entry whose name
//! parses as a thread identifier is attached.  Threads spawn and exit while
//! this happens, so a snapshot pass is repeated — up to a fixed cap — until
//! a pass finds nothing new, and a thread that vanishes between the listing
//! and the attach is skipped without error.

use vstd::prelude::*;

use crate::attach::ESRCH;
use crate::attach::TracedThread;
use crate::error::Error;

verus! {

/// How many times a snapshot enumeration re-reads the thread directory
/// before giving up on convergence; a runaway spawner must not pin the
/// tracer forever.
pub const SNAPSHOT_PASSES: usize = 5;

/// Whether every byte is an ASCII decimal digit, and at least one is
/// there.
pub open spec fn spec_all_digits(s: Seq<u8>) -> bool {
    s.len() > 0 && forall|i: int| 0 <= i < s.len() ==> 0x30 <= #[trigger] s[i] <= 0x39
}

/// The value of a run of decimal digits.
pub open spec fn spec_digits_val(s: Seq<u8>) -> int
    decreases s.len(),
{
    if s.len() == 0 {
        0
    } else {
        spec_digits_val(s.drop_last()) * 10 + (s.last() - 0x30)
    }
}

/// A directory-entry name with the optional leading plus sign dropped, as
/// the integer parser accepts one.
pub open spec fn spec_tid_body(s: Seq<u8>) -> Seq<u8> {
    if s.len() > 0 && s[0] == 0x2b {
        s.drop_first()
    } else {
        s
    }
}

/// What a directory-entry name denotes as a thread identifier: digits
/// (after an optional plus sign) whose value fits, or nothing.
pub open spec fn spec_parse_tid(s: Seq<u8>) -> Option<u32> {
    let body = spec_tid_body(s);
    if spec_all_digits(body) && spec_digits_val(body) <= u32::MAX {
        Some(spec_digits_val(body) as u32)
    } else {
        None
    }
}

/// The value of a digit run is never negative.
proof fn lemma_digits_val_nonneg(s: Seq<u8>)
    requires
        forall|i: int| 0 <= i < s.len() ==> 0x30 <= #[trigger] s[i] <= 0x39,
    ensures
        spec_digits_val(s) >= 0,
    decreases s.len(),
{
    if s.len() > 0 {
        lemma_digits_val_nonneg(s.drop_last());
    }
}

/// Along a digit run, the value of a prefix never exceeds the value of the
/// whole.
proof fn lemma_digits_val_monotone(s: Seq<u8>, k: int)
    requires
        forall|i: int| 0 <= i < s.len() ==> 0x30 <= #[trigger] s[i] <= 0x39,
        0 <= k <= s.len(),
    ensures
        spec_digits_val(s.take(k)) <= spec_digits_val(s),
    decreases s.len() - k,
{
    if k == s.len() {
        assert(s.take(k) =~= s);
    } else {
        lemma_digits_val_monotone(s, k + 1);
        let t = s.take(k + 1);
        assert(t.drop_last() =~= s.take(k));
        assert(forall|i: int| 0 <= i < t.len() ==> 0x30 <= #[trigger] t[i] <= 0x39);
        lemma_digits_val_nonneg(t.drop_last());
        assert(spec_digits_val(t) == spec_digits_val(s.take(k)) * 10 + (t.last() - 0x30));
    }
}

/// Parses a thread-directory entry name as a thread identifier, accepting
/// exactly what the standard integer parser accepts: an optional plus sign,
/// then decimal digits whose value fits.
pub fn parse_tid(name: &[u8]) -> (r: Option<u32>)
    ensures
        r == spec_parse_tid(name@),
{
    let ghost whole = name@;
    let mut start: usize = 0;
    if name.len() > 0 && name[0] == 0x2b {
        start = 1;
    }
    let ghost body = spec_tid_body(whole);
    proof {
        assert(body =~= whole.subrange(start as int, whole.len() as int));
    }
    let len = name.len();
    if start == len {
        assert(!spec_all_digits(body));
        return None;
    }
    let mut acc: u64 = 0;
    let mut k: usize = start;
    while k < len
        invariant
            start <= k <= len,
            whole == name@,
            len == whole.len(),
            start == 0 || start == 1,
            start == 1 ==> whole.len() > 0 && whole[0] == 0x2b,
            start < len,
            body == spec_tid_body(whole),
            body =~= whole.subrange(start as int, whole.len() as int),
            forall|i: int| 0 <= i < k - start ==> 0x30 <= #[trigger] body[i] <= 0x39,
            acc as int == spec_digits_val(body.take(k - start)),
            acc <= u32::MAX,
        decreases len - k,
    {
        let b = name[k];
        if b < 0x30 || b > 0x39 {
            proof {
                assert(body[k - start] == b);
                assert(!spec_all_digits(body));
            }
            return None;
        }
        proof {
            assert(body[k - start] == b);
            assert(body.take(k - start + 1).drop_last() =~= body.take(k - start));
            assert(body.take(k - start + 1).last() == b);
        }
        acc = acc * 10 + ((b - 0x30) as u64);
        k += 1;
        if acc > 0xffff_ffff {
            proof {
                if spec_all_digits(body) {
                    lemma_digits_val_monotone(body, k - start);
                }
            }
            return None;
        }
    }
    proof {
        assert(body.take(len - start) =~= body);
        assert(spec_all_digits(body));
    }
    Some(acc as u32)
}

/// Whether a run of thread handles is strictly ordered by identifier — the
/// shape the attached set keeps, so that each thread appears once and the
/// trace reports threads in identifier order.
pub open spec fn tids_sorted(s: Seq<TracedThread>) -> bool {
    forall|i: int, j: int| 0 <= i < j < s.len() ==> #[trigger] s[i].id < #[trigger] s[j].id
}

/// Whether the set already holds a handle for a thread identifier.
pub open spec fn spec_has_tid(s: Seq<TracedThread>, tid: u32) -> bool {
    exists|i: int| 0 <= i < s.len() && #[trigger] s[i].id == tid
}

/// A handle inserted in front of the first handle with a greater
/// identifier.
pub open spec fn spec_insert_thread(s: Seq<TracedThread>, t: TracedThread) -> Seq<TracedThread>
    decreases s.len(),
{
    if s.len() == 0 {
        seq![t]
    } else if s.last().id <= t.id {
        s.push(t)
    } else {
        spec_insert_thread(s.drop_last(), t).push(s.last())
    }
}

/// Returns whether the set already holds a handle for this identifier.
pub fn set_contains(threads: &Vec<TracedThread>, tid: u32) -> (r: bool)
    ensures
        r == spec_has_tid(threads@, tid),
{
    let mut i: usize = 0;
    while i < threads.len()
        invariant
            0 <= i <= threads@.len(),
            forall|k: int| 0 <= k < i ==> #[trigger] threads@[k].id != tid,
        decreases threads@.len() - i,
    {
        if threads[i].id == tid {
            return true;
        }
        i += 1;
    }
    false
}

/// On a sorted set, inserting at the first position with a greater
/// identifier realizes `spec_insert_thread`.
proof fn lemma_insert_thread_at(s: Seq<TracedThread>, t: TracedThread, p: int)
    requires
        tids_sorted(s),
        0 <= p <= s.len(),
        forall|k: int| 0 <= k < p ==> #[trigger] s[k].id <= t.id,
        p < s.len() ==> s[p].id > t.id,
    ensures
        spec_insert_thread(s, t) == s.insert(p, t),
    decreases s.len(),
{
    if s.len() == 0 {
        assert(s.insert(0, t) =~= seq![t]);
    } else if s.last().id <= t.id {
        assert(p == s.len()) by {
            if p < s.len() {
                assert(s[p].id > t.id);
                assert(s[p].id <= s.last().id || p == s.len() - 1);
            }
        }
        assert(s.insert(p, t) =~= s.push(t));
    } else {
        let u = s.drop_last();
        assert(p < s.len());
        assert(tids_sorted(u));
        lemma_insert_thread_at(u, t, p);
        assert(u.insert(p, t).push(s.last()) =~= s.insert(p, t));
    }
}

/// Inserts a fresh handle into the sorted set.
pub fn set_insert(threads: &mut Vec<TracedThread>, t: TracedThread)
    requires
        tids_sorted(old(threads)@),
        !spec_has_tid(old(threads)@, t.id),
    ensures
        final(threads)@ == spec_insert_thread(old(threads)@, t),
        tids_sorted(final(threads)@),
        spec_has_tid(final(threads)@, t.id),
        final(threads)@.len() == old(threads)@.len() + 1,
{
    let ghost before = threads@;
    let mut p: usize = 0;
    while p < threads.len() && threads[p].id < t.id
        invariant
            0 <= p <= threads@.len(),
            threads@ == before,
            forall|k: int| 0 <= k < p ==> #[trigger] threads@[k].id < t.id,
        decreases threads@.len() - p,
    {
        p += 1;
    }
    proof {
        if p < before.len() {
            assert(before[p as int].id != t.id);
        }
    }
    threads.insert(p, t);
    proof {
        lemma_insert_thread_at(before, t, p as int);
        assert forall|a: int, b: int| 0 <= a < b < threads@.len() implies #[trigger] threads@[a].id
            < #[trigger] threads@[b].id by {
            if b < p {
            } else if a < p && b == p {
            } else if a < p && b > p {
                assert(threads@[b] == before[b - 1]);
                assert(before[b - 1].id > t.id);
            } else if a == p {
                assert(threads@[b] == before[b - 1]);
                assert(before[b - 1].id > t.id);
            } else {
                assert(threads@[a] == before[a - 1]);
                assert(threads@[b] == before[b - 1]);
            }
        }
        assert(threads@[p as int].id == t.id);
    }
}

/// Whether an error reports a thread that vanished between the directory
/// listing and the attach.
pub fn thread_vanished(e: &Error) -> (r: bool)
    ensures
        r == (e.spec_code() == Some(ESRCH)),
{
    match e.code() {
        Some(code) => code == ESRCH,
        None => false,
    }
}

/// Folds one attach attempt into the set.  A freshly attached thread
/// joins the set; a thread that vanished in the meantime (its attempt
/// failed with `ESRCH`) leaves the set unchanged and raises no error; any
/// other failure is handed back and the set is unchanged.
pub fn apply_attach_outcome(
    threads: &mut Vec<TracedThread>,
    outcome: Result<TracedThread, Error>,
) -> (r: Result<(), Error>)
    requires
        tids_sorted(old(threads)@),
        outcome matches Ok(t) ==> !spec_has_tid(old(threads)@, t.id),
    ensures
        tids_sorted(final(threads)@),
        outcome matches Ok(t) ==> final(threads)@ == spec_insert_thread(old(threads)@, t) && r
            is Ok,
        outcome matches Err(e) ==> final(threads)@ == old(threads)@ && (if e.spec_code() == Some(
            ESRCH,
        ) {
            r is Ok
        } else {
            r matches Err(e2) && e2 == e
        }),
{
    match outcome {
        Ok(t) => {
            set_insert(threads, t);
            Ok(())
        },
        Err(e) => {
            if thread_vanished(&e) {
                Ok(())
            } else {
                Err(e)
            }
        },
    }
}

/// The identifiers of one directory listing that are not yet in the set,
/// in listing order: what one snapshot pass will try to attach.
pub open spec fn spec_unattached(listed: Seq<u32>, attached: Seq<TracedThread>) -> Seq<u32>
    decreases listed.len(),
{
    if listed.len() == 0 {
        Seq::empty()
    } else {
        let rest = spec_unattached(listed.drop_last(), attached);
        if spec_has_tid(attached, listed.last()) {
            rest
        } else {
            rest.push(listed.last())
        }
    }
}

/// Returns the listed identifiers that still need an attach attempt.
pub fn unattached_tids(listed: &Vec<u32>, attached: &Vec<TracedThread>) -> (r: Vec<u32>)
    ensures
        r@ == spec_unattached(listed@, attached@),
{
    let mut r: Vec<u32> = Vec::new();
    let mut i: usize = 0;
    assert(r@ =~= spec_unattached(listed@.take(0), attached@));
    while i < listed.len()
        invariant
            0 <= i <= listed@.len(),
            r@ == spec_unattached(listed@.take(i as int), attached@),
        decreases listed@.len() - i,
    {
        proof {
            assert(listed@.take(i as int + 1).drop_last() =~= listed@.take(i as int));
            assert(listed@.take(i as int + 1).last() == listed@[i as int]);
        }
        if !set_contains(attached, listed[i]) {
            r.push(listed[i]);
        }
        i += 1;
    }
    proof {
        assert(listed@.take(listed@.len() as int) =~= listed@);
    }
    r
}

/// Snapshot enumeration is a fixpoint: once every listed thread is already
/// in the set, a further pass has nothing to attach, so re-running the
/// enumeration returns the same set.
pub proof fn lemma_snapshot_fixpoint(listed: Seq<u32>, attached: Seq<TracedThread>)
    requires
        forall|i: int| 0 <= i < listed.len() ==> spec_has_tid(attached, #[trigger] listed[i]),
    ensures
        spec_unattached(listed, attached) == Seq::<u32>::empty(),
    decreases listed.len(),
{
    if listed.len() > 0 {
        lemma_snapshot_fixpoint(listed.drop_last(), attached);
        assert(spec_has_tid(attached, listed.last()));
    }
}

} // verus!
