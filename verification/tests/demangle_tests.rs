//! Tests of name decoding: trimming, lossy UTF-8, and the demangling
//! fallback order.

use rstack::demangle::demangled_name;
use rstack::demangle::thread_name_of;
use rstack::demangle::trim_bytes;

#[test]
fn thread_names_lose_surrounding_whitespace() {
    assert_eq!(thread_name_of(b"worker\n"), "worker");
    assert_eq!(thread_name_of(b"  tokio-runtime-w\t\r\n"), "tokio-runtime-w");
    assert_eq!(thread_name_of(b"plain"), "plain");
    assert_eq!(thread_name_of(b" \n\t"), "");
    assert_eq!(thread_name_of(b""), "");
}

#[test]
fn trimming_keeps_inner_whitespace() {
    assert_eq!(trim_bytes(b" a b "), b"a b".to_vec());
    assert_eq!(trim_bytes(b"\na\n"), b"a".to_vec());
}

#[test]
fn invalid_bytes_decode_to_replacement_characters() {
    // the decoding is lossy, not the identity on the raw bytes
    assert_eq!(thread_name_of(&[0xff, 0xfe]), "\u{fffd}\u{fffd}");
    assert_eq!(thread_name_of(&[0x61, 0xff, 0x62]), "a\u{fffd}b");
}

#[test]
fn itanium_manglings_decode_first() {
    assert_eq!(demangled_name(b"_ZN5space3fooEibc"), "space::foo(int, bool, char)");
}

#[test]
fn unmangled_names_pass_through() {
    assert_eq!(demangled_name(b"close"), "close");
    assert_eq!(demangled_name(b"__GI___libc_read"), "__GI___libc_read");
}

#[test]
fn rust_manglings_decode() {
    let name = demangled_name(b"_ZN4core3fmt5write17h01edf6dd68a42c9cE");
    assert!(name.contains("core::fmt::write"), "got {name}");
}
