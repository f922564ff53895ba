//! Tests of thread enumeration: identifier parsing, the attached set, the
//! vanished-thread rule and the snapshot fixpoint.

use rstack::attach::TracedThread;
use rstack::attach::ESRCH;
use rstack::enumerate::apply_attach_outcome;
use rstack::enumerate::parse_tid;
use rstack::enumerate::set_contains;
use rstack::enumerate::thread_vanished;
use rstack::enumerate::unattached_tids;
use rstack::enumerate::SNAPSHOT_PASSES;
use rstack::error::Error;
use rstack::error::ErrorKind;

fn attached(id: u32) -> TracedThread {
    TracedThread { id, should_detach: true }
}

#[test]
fn directory_names_parse_as_tids() {
    assert_eq!(parse_tid(b"1234"), Some(1234));
    assert_eq!(parse_tid(b"0"), Some(0));
    assert_eq!(parse_tid(b"+7"), Some(7));
    assert_eq!(parse_tid(b"007"), Some(7));
    assert_eq!(parse_tid(b"4294967295"), Some(u32::MAX));
    assert_eq!(parse_tid(b"4294967296"), None);
    assert_eq!(parse_tid(b"99999999999999999999999"), None);
    assert_eq!(parse_tid(b""), None);
    assert_eq!(parse_tid(b"+"), None);
    assert_eq!(parse_tid(b"12a"), None);
    assert_eq!(parse_tid(b"-5"), None);
    assert_eq!(parse_tid(b"."), None);
    assert_eq!(parse_tid(b".."), None);
}

#[test]
fn vanished_thread_adds_no_entry_and_no_error() {
    let mut threads: Vec<TracedThread> = Vec::new();
    let gone: Result<TracedThread, Error> = Err(Error::from_os(ErrorKind::Ptrace, ESRCH));
    assert!(apply_attach_outcome(&mut threads, gone).is_ok());
    assert!(threads.is_empty());
}

#[test]
fn other_attach_errors_propagate() {
    let mut threads: Vec<TracedThread> = Vec::new();
    let refused: Result<TracedThread, Error> = Err(Error::from_os(ErrorKind::Ptrace, 13));
    let e = apply_attach_outcome(&mut threads, refused).expect_err("must propagate");
    assert_eq!(e.kind(), ErrorKind::Ptrace);
    assert_eq!(e.code(), Some(13));
    assert!(threads.is_empty());
}

#[test]
fn vanished_is_only_esrch() {
    assert!(thread_vanished(&Error::from_os(ErrorKind::Ptrace, ESRCH)));
    assert!(thread_vanished(&Error::from_os(ErrorKind::Io, ESRCH)));
    assert!(!thread_vanished(&Error::from_os(ErrorKind::Ptrace, 13)));
    assert!(!thread_vanished(&Error::with_detail(
        ErrorKind::Io,
        "unexpected wait status".to_string()
    )));
}

#[test]
fn the_set_stays_sorted_by_identifier() {
    let mut threads: Vec<TracedThread> = Vec::new();
    for id in [30u32, 10, 20] {
        apply_attach_outcome(&mut threads, Ok(attached(id))).unwrap();
    }
    let ids: Vec<u32> = threads.iter().map(|t| t.id).collect();
    assert_eq!(ids, vec![10, 20, 30]);
    assert!(set_contains(&threads, 20));
    assert!(!set_contains(&threads, 25));
}

#[test]
fn snapshot_pass_attaches_only_new_tids() {
    let threads = vec![attached(10), attached(20)];
    let listed = vec![10, 25, 20, 30];
    assert_eq!(unattached_tids(&listed, &threads), vec![25, 30]);
}

#[test]
fn snapshot_enumeration_is_a_fixpoint() {
    // once every listed thread is attached, another pass finds nothing
    let threads = vec![attached(10), attached(20), attached(30)];
    let listed = vec![30, 10, 20];
    assert_eq!(unattached_tids(&listed, &threads), Vec::<u32>::new());
}

#[test]
fn exiting_threads_leave_a_subset() {
    // three threads listed; the second dies between listing and attach
    let mut threads: Vec<TracedThread> = Vec::new();
    let listed: Vec<u32> = vec![1, 2, 3];
    for tid in unattached_tids(&listed, &threads) {
        let outcome: Result<TracedThread, Error> = if tid == 2 {
            Err(Error::from_os(ErrorKind::Ptrace, ESRCH))
        } else {
            Ok(attached(tid))
        };
        apply_attach_outcome(&mut threads, outcome).unwrap();
    }
    let ids: Vec<u32> = threads.iter().map(|t| t.id).collect();
    assert_eq!(ids, vec![1, 3]);
    assert!(ids.iter().all(|id| listed.contains(id)));
}

#[test]
fn the_pass_cap_is_five() {
    assert_eq!(SNAPSHOT_PASSES, 5);
}
