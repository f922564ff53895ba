//! Tests of the self-trace wire protocol: round trips, framing, and the
//! inputs that can never parse.

use rstack::wire::decode_options;
use rstack::wire::decode_reply;
use rstack::wire::encode_options;
use rstack::wire::encode_reply;
use rstack::wire::DecodeError;
use rstack::wire::RawFrame;
use rstack::wire::RawOptions;
use rstack::wire::RawThread;

fn sample_threads() -> Vec<RawThread> {
    vec![
        RawThread {
            id: 1,
            name: b"main".to_vec(),
            frames: vec![
                RawFrame { ip: 0x5555_5555_1234, is_signal: false },
                RawFrame { ip: 0x7fff_ffff_0000, is_signal: true },
            ],
        },
        RawThread {
            id: 4242,
            name: Vec::new(),
            frames: vec![
                RawFrame { ip: 0, is_signal: false },
                RawFrame { ip: u64::MAX, is_signal: false },
            ],
        },
        RawThread { id: u32::MAX, name: b"<unknown>".to_vec(), frames: Vec::new() },
    ]
}

fn assert_threads_equal(a: &[RawThread], b: &[RawThread]) {
    assert_eq!(a.len(), b.len());
    for (x, y) in a.iter().zip(b.iter()) {
        assert_eq!(x.id, y.id);
        assert_eq!(x.name, y.name);
        assert_eq!(x.frames.len(), y.frames.len());
        for (f, g) in x.frames.iter().zip(y.frames.iter()) {
            assert_eq!(f.ip, g.ip);
            assert_eq!(f.is_signal, g.is_signal);
        }
    }
}

#[test]
fn reply_round_trip_threads() {
    let reply: Result<Vec<RawThread>, Vec<u8>> = Ok(sample_threads());
    let bytes = encode_reply(&reply);
    let (decoded, used) = decode_reply(&bytes, 0).expect("a full encoding parses");
    assert_eq!(used, bytes.len());
    assert_threads_equal(&reply.unwrap(), &decoded.unwrap());
}

#[test]
fn reply_round_trip_with_trailing_bytes() {
    let reply: Result<Vec<RawThread>, Vec<u8>> = Ok(sample_threads());
    let mut bytes = encode_reply(&reply);
    let message_len = bytes.len();
    bytes.extend_from_slice(b"extra junk");
    let (decoded, used) = decode_reply(&bytes, 0).expect("the message is self-delimiting");
    assert_eq!(used, message_len);
    assert_threads_equal(&reply.unwrap(), &decoded.unwrap());
}

#[test]
fn reply_round_trip_error_text() {
    let reply: Result<Vec<RawThread>, Vec<u8>> = Err(b"no such process".to_vec());
    let bytes = encode_reply(&reply);
    let (decoded, used) = decode_reply(&bytes, 0).expect("a full encoding parses");
    assert_eq!(used, bytes.len());
    assert_eq!(decoded.unwrap_err(), b"no such process".to_vec());
}

#[test]
fn options_round_trip() {
    for snapshot in [false, true] {
        let bytes = encode_options(&RawOptions { snapshot });
        assert_eq!(bytes.len(), 1);
        let (o, used) = decode_options(&bytes, 0).expect("one byte parses");
        assert_eq!(used, 1);
        assert_eq!(o.snapshot, snapshot);
    }
}

#[test]
fn truncated_reply_is_short_not_malformed() {
    let reply: Result<Vec<RawThread>, Vec<u8>> = Ok(sample_threads());
    let bytes = encode_reply(&reply);
    for cut in [0, 3, 4, 11, bytes.len() - 1] {
        assert_eq!(
            decode_reply(&bytes[..cut], 0).unwrap_err(),
            DecodeError::Short,
            "cut at {cut}"
        );
    }
}

#[test]
fn bad_boolean_byte_is_malformed() {
    let reply: Result<Vec<RawThread>, Vec<u8>> = Ok(vec![RawThread {
        id: 9,
        name: Vec::new(),
        frames: vec![RawFrame { ip: 0x10, is_signal: false }],
    }]);
    let mut bytes = encode_reply(&reply);
    // the signal flag is the last byte of the only frame
    let last = bytes.len() - 1;
    bytes[last] = 2;
    assert_eq!(decode_reply(&bytes, 0).unwrap_err(), DecodeError::Malformed);
}

#[test]
fn bad_variant_tag_is_malformed() {
    let mut bytes = Vec::new();
    bytes.extend_from_slice(&5u32.to_le_bytes());
    bytes.extend_from_slice(&0u64.to_le_bytes());
    assert_eq!(decode_reply(&bytes, 0).unwrap_err(), DecodeError::Malformed);
}

#[test]
fn bad_options_byte_is_malformed() {
    assert_eq!(decode_options(&[7], 0).unwrap_err(), DecodeError::Malformed);
    assert_eq!(decode_options(&[], 0).unwrap_err(), DecodeError::Short);
}

#[test]
fn layout_is_little_endian_with_fixed_widths() {
    // One thread, id 0x01020304, empty name, one non-signal frame at
    // 0x1122334455667788: the layout is pinned byte for byte.
    let reply: Result<Vec<RawThread>, Vec<u8>> = Ok(vec![RawThread {
        id: 0x01020304,
        name: Vec::new(),
        frames: vec![RawFrame { ip: 0x1122334455667788, is_signal: true }],
    }]);
    let bytes = encode_reply(&reply);
    let mut expect = Vec::new();
    expect.extend_from_slice(&0u32.to_le_bytes()); // tag: success
    expect.extend_from_slice(&1u64.to_le_bytes()); // one thread
    expect.extend_from_slice(&0x01020304u32.to_le_bytes()); // id
    expect.extend_from_slice(&0u64.to_le_bytes()); // empty name
    expect.extend_from_slice(&1u64.to_le_bytes()); // one frame
    expect.extend_from_slice(&0x1122334455667788u64.to_le_bytes()); // ip
    expect.push(1); // signal flag
    assert_eq!(bytes, expect);
}
