//! The self-trace wire protocol.
//!
//! Parent and child exchange two messages over pipes: the options the
//! parent wants, and the child's reply — the raw threads it traced, or the
//! text of its error.  The encoding is binary and little-endian: lengths
//! and addresses as 64-bit values, identifiers as 32-bit values, a boolean
//! as one byte, and a result's variant as a 32-bit tag, zero for success.
//!
//! A decoder distinguishes a message that is merely cut short — the reader
//! waits for more bytes — from one that can never parse.

use vstd::prelude::*;

verus! {

/// Why a decode attempt failed.
#[derive(Clone, Copy, PartialEq, Eq, Structural, Debug)]
pub enum DecodeError {
    /// The bytes end before the message does; reading further may mend it.
    Short,
    /// The bytes can never parse, however many follow.
    Malformed,
}

/// The options message: what the parent asks the child to do.
#[derive(Clone, Copy, PartialEq, Eq, Structural, Debug)]
pub struct RawOptions {
    /// Whether the child should take a snapshot-mode trace.
    pub snapshot: bool,
}

/// One frame as it crosses the pipe: no symbols, only the pointer and the
/// signal flag; the parent symbolicates.
#[derive(Clone, Copy, PartialEq, Eq, Structural, Debug)]
pub struct RawFrame {
    /// The frame's instruction pointer.
    pub ip: u64,
    /// Whether the frame was pushed by signal delivery.
    pub is_signal: bool,
}

/// One thread as it crosses the pipe.
#[derive(Debug)]
pub struct RawThread {
    /// The thread's identifier.
    pub id: u32,
    /// The bytes of the thread's name.
    pub name: Vec<u8>,
    /// The thread's frames, innermost first.
    pub frames: Vec<RawFrame>,
}

/// The mathematical shape of a raw thread.
pub struct RawThreadModel {
    /// The thread's identifier.
    pub id: u32,
    /// The bytes of the thread's name.
    pub name: Seq<u8>,
    /// The thread's frames, innermost first.
    pub frames: Seq<RawFrame>,
}

impl View for RawThread {
    type V = RawThreadModel;

    open spec fn view(&self) -> RawThreadModel {
        RawThreadModel { id: self.id, name: self.name@, frames: self.frames@ }
    }
}

/// A run of raw threads as its mathematical shape.
pub open spec fn threads_view(ts: Seq<RawThread>) -> Seq<RawThreadModel> {
    ts.map_values(|t: RawThread| t@)
}

/// A reply as its mathematical shape.
pub open spec fn reply_view(r: &Result<Vec<RawThread>, Vec<u8>>) -> Result<
    Seq<RawThreadModel>,
    Seq<u8>,
> {
    match r {
        Ok(ts) => Ok(threads_view(ts@)),
        Err(m) => Err(m@),
    }
}

/// The eight little-endian bytes of a 64-bit value.
pub open spec fn enc_u64(v: u64) -> Seq<u8> {
    seq![
        (v & 0xff) as u8,
        ((v >> 8) & 0xff) as u8,
        ((v >> 16) & 0xff) as u8,
        ((v >> 24) & 0xff) as u8,
        ((v >> 32) & 0xff) as u8,
        ((v >> 40) & 0xff) as u8,
        ((v >> 48) & 0xff) as u8,
        ((v >> 56) & 0xff) as u8,
    ]
}

/// The four little-endian bytes of a 32-bit value.
pub open spec fn enc_u32(v: u32) -> Seq<u8> {
    seq![(v & 0xff) as u8, ((v >> 8) & 0xff) as u8, ((v >> 16) & 0xff) as u8, ((v >> 24) & 0xff) as u8]
}

/// The single byte of a boolean: one for true, zero for false.
pub open spec fn enc_bool(b: bool) -> Seq<u8> {
    if b {
        seq![1u8]
    } else {
        seq![0u8]
    }
}

/// A byte string on the wire: its length, then its bytes.
pub open spec fn enc_bytes(b: Seq<u8>) -> Seq<u8> {
    enc_u64(b.len() as u64) + b
}

/// A frame on the wire: its pointer, then its signal flag.
pub open spec fn enc_frame(f: RawFrame) -> Seq<u8> {
    enc_u64(f.ip) + enc_bool(f.is_signal)
}

/// A run of frames on the wire, without the leading count.
pub open spec fn enc_frames_list(fs: Seq<RawFrame>) -> Seq<u8>
    decreases fs.len(),
{
    if fs.len() == 0 {
        Seq::empty()
    } else {
        enc_frames_list(fs.drop_last()) + enc_frame(fs.last())
    }
}

/// A frame vector on the wire: its count, then each frame.
pub open spec fn enc_frames(fs: Seq<RawFrame>) -> Seq<u8> {
    enc_u64(fs.len() as u64) + enc_frames_list(fs)
}

/// A thread on the wire: its identifier, its name, its frames.
pub open spec fn enc_thread(t: RawThreadModel) -> Seq<u8> {
    enc_u32(t.id) + enc_bytes(t.name) + enc_frames(t.frames)
}

/// A run of threads on the wire, without the leading count.
pub open spec fn enc_threads_list(ts: Seq<RawThreadModel>) -> Seq<u8>
    decreases ts.len(),
{
    if ts.len() == 0 {
        Seq::empty()
    } else {
        enc_threads_list(ts.drop_last()) + enc_thread(ts.last())
    }
}

/// A thread vector on the wire: its count, then each thread.
pub open spec fn enc_threads(ts: Seq<RawThreadModel>) -> Seq<u8> {
    enc_u64(ts.len() as u64) + enc_threads_list(ts)
}

/// The options message on the wire.
pub open spec fn enc_options(o: RawOptions) -> Seq<u8> {
    enc_bool(o.snapshot)
}

/// The reply message on the wire: tag zero and the threads, or tag one and
/// the error text.
pub open spec fn enc_reply(m: Result<Seq<RawThreadModel>, Seq<u8>>) -> Seq<u8> {
    match m {
        Ok(ts) => enc_u32(0) + enc_threads(ts),
        Err(msg) => enc_u32(1) + enc_bytes(msg),
    }
}

/// Appends the eight little-endian bytes of a 64-bit value.
fn push_u64(out: &mut Vec<u8>, v: u64)
    ensures
        final(out)@ == old(out)@ + enc_u64(v),
{
    proof {
        assert((v & 0xff) <= 0xff && ((v >> 8) & 0xff) <= 0xff && ((v >> 16) & 0xff) <= 0xff && ((v
            >> 24) & 0xff) <= 0xff && ((v >> 32) & 0xff) <= 0xff && ((v >> 40) & 0xff) <= 0xff && ((
        v >> 48) & 0xff) <= 0xff && ((v >> 56) & 0xff) <= 0xff) by (bit_vector);
    }
    out.push((v & 0xff) as u8);
    out.push(((v >> 8) & 0xff) as u8);
    out.push(((v >> 16) & 0xff) as u8);
    out.push(((v >> 24) & 0xff) as u8);
    out.push(((v >> 32) & 0xff) as u8);
    out.push(((v >> 40) & 0xff) as u8);
    out.push(((v >> 48) & 0xff) as u8);
    out.push(((v >> 56) & 0xff) as u8);
    proof {
        assert(final(out)@ =~= old(out)@ + enc_u64(v));
    }
}

/// Appends the four little-endian bytes of a 32-bit value.
fn push_u32(out: &mut Vec<u8>, v: u32)
    ensures
        final(out)@ == old(out)@ + enc_u32(v),
{
    proof {
        assert((v & 0xff) <= 0xff && ((v >> 8) & 0xff) <= 0xff && ((v >> 16) & 0xff) <= 0xff && ((v
            >> 24) & 0xff) <= 0xff) by (bit_vector);
    }
    out.push((v & 0xff) as u8);
    out.push(((v >> 8) & 0xff) as u8);
    out.push(((v >> 16) & 0xff) as u8);
    out.push(((v >> 24) & 0xff) as u8);
    proof {
        assert(final(out)@ =~= old(out)@ + enc_u32(v));
    }
}

/// Appends the byte of a boolean.
fn push_bool(out: &mut Vec<u8>, b: bool)
    ensures
        final(out)@ == old(out)@ + enc_bool(b),
{
    out.push(if b {
        1
    } else {
        0
    });
    proof {
        assert(final(out)@ =~= old(out)@ + enc_bool(b));
    }
}

/// Appends a byte string with its length.
fn push_bytes(out: &mut Vec<u8>, b: &[u8])
    ensures
        final(out)@ == old(out)@ + enc_bytes(b@),
{
    push_u64(out, b.len() as u64);
    let ghost mid = out@;
    let mut k: usize = 0;
    while k < b.len()
        invariant
            0 <= k <= b@.len(),
            out@ == mid + b@.take(k as int),
        decreases b@.len() - k,
    {
        out.push(b[k]);
        proof {
            assert(mid + b@.take(k + 1 as int) =~= (mid + b@.take(k as int)).push(b@[k as int]));
        }
        k += 1;
    }
    proof {
        assert(b@.take(b@.len() as int) =~= b@);
        assert(final(out)@ =~= old(out)@ + enc_bytes(b@));
    }
}

/// Encodes the options message.
pub fn encode_options(o: &RawOptions) -> (out: Vec<u8>)
    ensures
        out@ == enc_options(*o),
{
    let mut out: Vec<u8> = Vec::new();
    push_bool(&mut out, o.snapshot);
    proof {
        assert(out@ =~= enc_options(*o));
    }
    out
}

/// Appends one thread.
fn push_thread(out: &mut Vec<u8>, t: &RawThread)
    ensures
        final(out)@ == old(out)@ + enc_thread(t@),
{
    push_u32(out, t.id);
    push_bytes(out, t.name.as_slice());
    push_u64(out, t.frames.len() as u64);
    let ghost mid = out@;
    let mut k: usize = 0;
    while k < t.frames.len()
        invariant
            0 <= k <= t.frames@.len(),
            out@ == mid + enc_frames_list(t.frames@.take(k as int)),
        decreases t.frames@.len() - k,
    {
        let ghost before = out@;
        push_u64(out, t.frames[k].ip);
        push_bool(out, t.frames[k].is_signal);
        proof {
            assert(t.frames@.take(k + 1 as int).drop_last() =~= t.frames@.take(k as int));
            assert(t.frames@.take(k + 1 as int).last() == t.frames@[k as int]);
            assert(out@ =~= mid + enc_frames_list(t.frames@.take(k + 1 as int)));
        }
        k += 1;
    }
    proof {
        assert(t.frames@.take(t.frames@.len() as int) =~= t.frames@);
        assert(final(out)@ =~= old(out)@ + enc_thread(t@));
    }
}

/// Appends a thread vector with its count.
fn push_threads(out: &mut Vec<u8>, ts: &Vec<RawThread>)
    ensures
        final(out)@ == old(out)@ + enc_threads(threads_view(ts@)),
{
    push_u64(out, ts.len() as u64);
    let ghost mid = out@;
    let mut k: usize = 0;
    proof {
        assert(threads_view(ts@).len() == ts@.len());
    }
    while k < ts.len()
        invariant
            0 <= k <= ts@.len(),
            out@ == mid + enc_threads_list(threads_view(ts@.take(k as int))),
        decreases ts@.len() - k,
    {
        push_thread(out, &ts[k]);
        proof {
            let whole = threads_view(ts@.take(k + 1 as int));
            assert(whole.drop_last() =~= threads_view(ts@.take(k as int)));
            assert(whole.last() == ts@[k as int]@);
            assert(out@ =~= mid + enc_threads_list(whole));
        }
        k += 1;
    }
    proof {
        assert(ts@.take(ts@.len() as int) =~= ts@);
        assert(threads_view(ts@).len() == ts@.len());
        assert(final(out)@ =~= old(out)@ + enc_threads(threads_view(ts@)));
    }
}

/// Encodes the reply message.
pub fn encode_reply(r: &Result<Vec<RawThread>, Vec<u8>>) -> (out: Vec<u8>)
    ensures
        out@ == enc_reply(reply_view(r)),
{
    let mut out: Vec<u8> = Vec::new();
    match r {
        Ok(ts) => {
            push_u32(&mut out, 0);
            push_threads(&mut out, ts);
        },
        Err(msg) => {
            push_u32(&mut out, 1);
            push_bytes(&mut out, msg.as_slice());
        },
    }
    proof {
        assert(out@ =~= enc_reply(reply_view(r)));
    }
    out
}

/// The 64-bit value of eight little-endian bytes at a position.
pub open spec fn le_u64_at(s: Seq<u8>, pos: int) -> u64 {
    (s[pos] as u64) | ((s[pos + 1] as u64) << 8) | ((s[pos + 2] as u64) << 16) | ((s[pos + 3] as u64)
        << 24) | ((s[pos + 4] as u64) << 32) | ((s[pos + 5] as u64) << 40) | ((s[pos + 6] as u64)
        << 48) | ((s[pos + 7] as u64) << 56)
}

/// The 32-bit value of four little-endian bytes at a position.
pub open spec fn le_u32_at(s: Seq<u8>, pos: int) -> u32 {
    (s[pos] as u32) | ((s[pos + 1] as u32) << 8) | ((s[pos + 2] as u32) << 16) | ((s[pos + 3] as u32)
        << 24)
}

/// Decodes a 64-bit value.
pub open spec fn spec_dec_u64(s: Seq<u8>, pos: int) -> Result<(u64, int), DecodeError> {
    if 0 <= pos && pos + 8 <= s.len() {
        Ok((le_u64_at(s, pos), pos + 8))
    } else {
        Err(DecodeError::Short)
    }
}

/// Decodes a 32-bit value.
pub open spec fn spec_dec_u32(s: Seq<u8>, pos: int) -> Result<(u32, int), DecodeError> {
    if 0 <= pos && pos + 4 <= s.len() {
        Ok((le_u32_at(s, pos), pos + 4))
    } else {
        Err(DecodeError::Short)
    }
}

/// Decodes a boolean; any byte but zero or one can never parse.
pub open spec fn spec_dec_bool(s: Seq<u8>, pos: int) -> Result<(bool, int), DecodeError> {
    if 0 <= pos && pos + 1 <= s.len() {
        if s[pos] == 0 {
            Ok((false, pos + 1))
        } else if s[pos] == 1 {
            Ok((true, pos + 1))
        } else {
            Err(DecodeError::Malformed)
        }
    } else {
        Err(DecodeError::Short)
    }
}

/// Decodes a byte string; a length that cannot fit in memory can never
/// parse.
pub open spec fn spec_dec_bytes(s: Seq<u8>, pos: int) -> Result<(Seq<u8>, int), DecodeError> {
    match spec_dec_u64(s, pos) {
        Ok((n, p)) => if n > usize::MAX as u64 {
            Err(DecodeError::Malformed)
        } else if p + n <= s.len() {
            Ok((s.subrange(p, p + n as int), p + n as int))
        } else {
            Err(DecodeError::Short)
        },
        Err(e) => Err(e),
    }
}

/// Decodes one frame.
pub open spec fn spec_dec_frame(s: Seq<u8>, pos: int) -> Result<(RawFrame, int), DecodeError> {
    match spec_dec_u64(s, pos) {
        Ok((ip, p)) => match spec_dec_bool(s, p) {
            Ok((b, p2)) => Ok((RawFrame { ip, is_signal: b }, p2)),
            Err(e) => Err(e),
        },
        Err(e) => Err(e),
    }
}

/// Decodes `n` frames in a row.
pub open spec fn spec_dec_frames_n(s: Seq<u8>, pos: int, n: int) -> Result<
    (Seq<RawFrame>, int),
    DecodeError,
>
    decreases n,
{
    if n <= 0 {
        Ok((Seq::empty(), pos))
    } else {
        match spec_dec_frame(s, pos) {
            Ok((f, p)) => match spec_dec_frames_n(s, p, n - 1) {
                Ok((fs, p2)) => Ok((seq![f] + fs, p2)),
                Err(e) => Err(e),
            },
            Err(e) => Err(e),
        }
    }
}

/// Decodes a frame vector: its count, then each frame.
pub open spec fn spec_dec_frames(s: Seq<u8>, pos: int) -> Result<(Seq<RawFrame>, int), DecodeError> {
    match spec_dec_u64(s, pos) {
        Ok((n, p)) => if n > usize::MAX as u64 {
            Err(DecodeError::Malformed)
        } else {
            spec_dec_frames_n(s, p, n as int)
        },
        Err(e) => Err(e),
    }
}

/// Decodes one thread.
pub open spec fn spec_dec_thread(s: Seq<u8>, pos: int) -> Result<(RawThreadModel, int), DecodeError> {
    match spec_dec_u32(s, pos) {
        Ok((id, p)) => match spec_dec_bytes(s, p) {
            Ok((name, p2)) => match spec_dec_frames(s, p2) {
                Ok((frames, p3)) => Ok((RawThreadModel { id, name, frames }, p3)),
                Err(e) => Err(e),
            },
            Err(e) => Err(e),
        },
        Err(e) => Err(e),
    }
}

/// Decodes `n` threads in a row.
pub open spec fn spec_dec_threads_n(s: Seq<u8>, pos: int, n: int) -> Result<
    (Seq<RawThreadModel>, int),
    DecodeError,
>
    decreases n,
{
    if n <= 0 {
        Ok((Seq::empty(), pos))
    } else {
        match spec_dec_thread(s, pos) {
            Ok((t, p)) => match spec_dec_threads_n(s, p, n - 1) {
                Ok((ts, p2)) => Ok((seq![t] + ts, p2)),
                Err(e) => Err(e),
            },
            Err(e) => Err(e),
        }
    }
}

/// Decodes a thread vector: its count, then each thread.
pub open spec fn spec_dec_threads(s: Seq<u8>, pos: int) -> Result<
    (Seq<RawThreadModel>, int),
    DecodeError,
> {
    match spec_dec_u64(s, pos) {
        Ok((n, p)) => if n > usize::MAX as u64 {
            Err(DecodeError::Malformed)
        } else {
            spec_dec_threads_n(s, p, n as int)
        },
        Err(e) => Err(e),
    }
}

/// Decodes the options message.
pub open spec fn spec_dec_options(s: Seq<u8>, pos: int) -> Result<(RawOptions, int), DecodeError> {
    match spec_dec_bool(s, pos) {
        Ok((b, p)) => Ok((RawOptions { snapshot: b }, p)),
        Err(e) => Err(e),
    }
}

/// Decodes the reply message; any tag but zero or one can never parse.
pub open spec fn spec_dec_reply(s: Seq<u8>, pos: int) -> Result<
    (Result<Seq<RawThreadModel>, Seq<u8>>, int),
    DecodeError,
> {
    match spec_dec_u32(s, pos) {
        Ok((tag, p)) => if tag == 0 {
            match spec_dec_threads(s, p) {
                Ok((ts, p2)) => Ok((Ok(ts), p2)),
                Err(e) => Err(e),
            }
        } else if tag == 1 {
            match spec_dec_bytes(s, p) {
                Ok((msg, p2)) => Ok((Err(msg), p2)),
                Err(e) => Err(e),
            }
        } else {
            Err(DecodeError::Malformed)
        },
        Err(e) => Err(e),
    }
}

/// Reads a 64-bit value.
fn dec_u64(s: &[u8], pos: usize) -> (r: Result<(u64, usize), DecodeError>)
    ensures
        match r {
            Ok((v, p)) => spec_dec_u64(s@, pos as int) == Ok::<(u64, int), DecodeError>((
                v,
                p as int,
            )),
            Err(e) => spec_dec_u64(s@, pos as int) == Err::<(u64, int), DecodeError>(e),
        },
{
    if pos < s.len() && s.len() - pos >= 8 {
        let v = (s[pos] as u64) | ((s[pos + 1] as u64) << 8) | ((s[pos + 2] as u64) << 16) | ((s[pos
            + 3] as u64) << 24) | ((s[pos + 4] as u64) << 32) | ((s[pos + 5] as u64) << 40) | ((
        s[pos + 6] as u64) << 48) | ((s[pos + 7] as u64) << 56);
        Ok((v, pos + 8))
    } else {
        Err(DecodeError::Short)
    }
}

/// Reads a 32-bit value.
fn dec_u32(s: &[u8], pos: usize) -> (r: Result<(u32, usize), DecodeError>)
    ensures
        match r {
            Ok((v, p)) => spec_dec_u32(s@, pos as int) == Ok::<(u32, int), DecodeError>((
                v,
                p as int,
            )),
            Err(e) => spec_dec_u32(s@, pos as int) == Err::<(u32, int), DecodeError>(e),
        },
{
    if pos < s.len() && s.len() - pos >= 4 {
        let v = (s[pos] as u32) | ((s[pos + 1] as u32) << 8) | ((s[pos + 2] as u32) << 16) | ((s[pos
            + 3] as u32) << 24);
        Ok((v, pos + 4))
    } else {
        Err(DecodeError::Short)
    }
}

/// Reads a boolean.
fn dec_bool(s: &[u8], pos: usize) -> (r: Result<(bool, usize), DecodeError>)
    ensures
        match r {
            Ok((v, p)) => spec_dec_bool(s@, pos as int) == Ok::<(bool, int), DecodeError>((
                v,
                p as int,
            )),
            Err(e) => spec_dec_bool(s@, pos as int) == Err::<(bool, int), DecodeError>(e),
        },
{
    if pos < s.len() {
        let b = s[pos];
        if b == 0 {
            Ok((false, pos + 1))
        } else if b == 1 {
            Ok((true, pos + 1))
        } else {
            Err(DecodeError::Malformed)
        }
    } else {
        Err(DecodeError::Short)
    }
}

/// Reads a byte string.
fn dec_bytes(s: &[u8], pos: usize) -> (r: Result<(Vec<u8>, usize), DecodeError>)
    ensures
        match r {
            Ok((v, p)) => spec_dec_bytes(s@, pos as int) == Ok::<(Seq<u8>, int), DecodeError>((
                v@,
                p as int,
            )),
            Err(e) => spec_dec_bytes(s@, pos as int) == Err::<(Seq<u8>, int), DecodeError>(e),
        },
{
    match dec_u64(s, pos) {
        Ok((n, p)) => {
            if n > usize::MAX as u64 {
                return Err(DecodeError::Malformed);
            }
            let n_usize = n as usize;
            if n_usize <= s.len() - p {
                let part = vstd::slice::slice_subrange(s, p, p + n_usize);
                let out = vstd::slice::slice_to_vec(part);
                Ok((out, p + n_usize))
            } else {
                Err(DecodeError::Short)
            }
        },
        Err(e) => Err(e),
    }
}

/// Reads one frame.
fn dec_frame(s: &[u8], pos: usize) -> (r: Result<(RawFrame, usize), DecodeError>)
    ensures
        match r {
            Ok((f, p)) => spec_dec_frame(s@, pos as int) == Ok::<(RawFrame, int), DecodeError>((
                f,
                p as int,
            )),
            Err(e) => spec_dec_frame(s@, pos as int) == Err::<(RawFrame, int), DecodeError>(e),
        },
{
    match dec_u64(s, pos) {
        Ok((ip, p)) => match dec_bool(s, p) {
            Ok((b, p2)) => Ok((RawFrame { ip, is_signal: b }, p2)),
            Err(e) => Err(e),
        },
        Err(e) => Err(e),
    }
}

/// Reads `n` frames in a row.
fn dec_frames_n(s: &[u8], pos: usize, n: usize) -> (r: Result<(Vec<RawFrame>, usize), DecodeError>)
    ensures
        match r {
            Ok((fs, p)) => spec_dec_frames_n(s@, pos as int, n as int) == Ok::<
                (Seq<RawFrame>, int),
                DecodeError,
            >((fs@, p as int)),
            Err(e) => spec_dec_frames_n(s@, pos as int, n as int) == Err::<
                (Seq<RawFrame>, int),
                DecodeError,
            >(e),
        },
{
    let mut acc: Vec<RawFrame> = Vec::new();
    let mut cur = pos;
    let mut k: usize = 0;
    proof {
        let init = spec_dec_frames_n(s@, pos as int, n as int);
        match init {
            Ok((fs, p)) => {
                assert(Seq::<RawFrame>::empty() + fs =~= fs);
            },
            Err(_) => {},
        }
    }
    while k < n
        invariant
            0 <= k <= n,
            spec_dec_frames_n(s@, pos as int, n as int) == (match spec_dec_frames_n(
                s@,
                cur as int,
                (n - k) as int,
            ) {
                Ok((fs, p)) => Ok::<(Seq<RawFrame>, int), DecodeError>((acc@ + fs, p)),
                Err(e) => Err::<(Seq<RawFrame>, int), DecodeError>(e),
            }),
        decreases n - k,
    {
        match dec_frame(s, cur) {
            Ok((f, p)) => {
                proof {
                    let rest = spec_dec_frames_n(s@, p as int, (n - k - 1) as int);
                    match rest {
                        Ok((fs2, p2)) => {
                            assert(acc@ + (seq![f] + fs2) =~= acc@.push(f) + fs2);
                        },
                        Err(_) => {},
                    }
                }
                acc.push(f);
                cur = p;
                k += 1;
            },
            Err(e) => {
                return Err(e);
            },
        }
    }
    proof {
        assert(acc@ + Seq::<RawFrame>::empty() =~= acc@);
    }
    Ok((acc, cur))
}

/// Reads a frame vector.
fn dec_frames(s: &[u8], pos: usize) -> (r: Result<(Vec<RawFrame>, usize), DecodeError>)
    ensures
        match r {
            Ok((fs, p)) => spec_dec_frames(s@, pos as int) == Ok::<
                (Seq<RawFrame>, int),
                DecodeError,
            >((fs@, p as int)),
            Err(e) => spec_dec_frames(s@, pos as int) == Err::<(Seq<RawFrame>, int), DecodeError>(
                e,
            ),
        },
{
    match dec_u64(s, pos) {
        Ok((n, p)) => {
            if n > usize::MAX as u64 {
                return Err(DecodeError::Malformed);
            }
            dec_frames_n(s, p, n as usize)
        },
        Err(e) => Err(e),
    }
}

/// Reads one thread.
fn dec_thread(s: &[u8], pos: usize) -> (r: Result<(RawThread, usize), DecodeError>)
    ensures
        match r {
            Ok((t, p)) => spec_dec_thread(s@, pos as int) == Ok::<
                (RawThreadModel, int),
                DecodeError,
            >((t@, p as int)),
            Err(e) => spec_dec_thread(s@, pos as int) == Err::<(RawThreadModel, int), DecodeError>(
                e,
            ),
        },
{
    match dec_u32(s, pos) {
        Ok((id, p)) => match dec_bytes(s, p) {
            Ok((name, p2)) => match dec_frames(s, p2) {
                Ok((frames, p3)) => Ok((RawThread { id, name, frames }, p3)),
                Err(e) => Err(e),
            },
            Err(e) => Err(e),
        },
        Err(e) => Err(e),
    }
}

/// Reads `n` threads in a row.
fn dec_threads_n(s: &[u8], pos: usize, n: usize) -> (r: Result<
    (Vec<RawThread>, usize),
    DecodeError,
>)
    ensures
        match r {
            Ok((ts, p)) => spec_dec_threads_n(s@, pos as int, n as int) == Ok::<
                (Seq<RawThreadModel>, int),
                DecodeError,
            >((threads_view(ts@), p as int)),
            Err(e) => spec_dec_threads_n(s@, pos as int, n as int) == Err::<
                (Seq<RawThreadModel>, int),
                DecodeError,
            >(e),
        },
{
    let mut acc: Vec<RawThread> = Vec::new();
    let mut cur = pos;
    let mut k: usize = 0;
    proof {
        assert(threads_view(acc@) =~= Seq::<RawThreadModel>::empty());
        let init = spec_dec_threads_n(s@, pos as int, n as int);
        match init {
            Ok((ts, p)) => {
                assert(Seq::<RawThreadModel>::empty() + ts =~= ts);
            },
            Err(_) => {},
        }
    }
    while k < n
        invariant
            0 <= k <= n,
            spec_dec_threads_n(s@, pos as int, n as int) == (match spec_dec_threads_n(
                s@,
                cur as int,
                (n - k) as int,
            ) {
                Ok((ts, p)) => Ok::<(Seq<RawThreadModel>, int), DecodeError>((
                    threads_view(acc@) + ts,
                    p,
                )),
                Err(e) => Err::<(Seq<RawThreadModel>, int), DecodeError>(e),
            }),
        decreases n - k,
    {
        match dec_thread(s, cur) {
            Ok((t, p)) => {
                proof {
                    let rest = spec_dec_threads_n(s@, p as int, (n - k - 1) as int);
                    assert(threads_view(acc@.push(t)) =~= threads_view(acc@).push(t@));
                    match rest {
                        Ok((ts2, p2)) => {
                            assert(threads_view(acc@) + (seq![t@] + ts2) =~= threads_view(
                                acc@,
                            ).push(t@) + ts2);
                        },
                        Err(_) => {},
                    }
                }
                acc.push(t);
                cur = p;
                k += 1;
            },
            Err(e) => {
                return Err(e);
            },
        }
    }
    proof {
        assert(threads_view(acc@) + Seq::<RawThreadModel>::empty() =~= threads_view(acc@));
    }
    Ok((acc, cur))
}

/// Reads a thread vector.
fn dec_threads(s: &[u8], pos: usize) -> (r: Result<(Vec<RawThread>, usize), DecodeError>)
    ensures
        match r {
            Ok((ts, p)) => spec_dec_threads(s@, pos as int) == Ok::<
                (Seq<RawThreadModel>, int),
                DecodeError,
            >((threads_view(ts@), p as int)),
            Err(e) => spec_dec_threads(s@, pos as int) == Err::<
                (Seq<RawThreadModel>, int),
                DecodeError,
            >(e),
        },
{
    match dec_u64(s, pos) {
        Ok((n, p)) => {
            if n > usize::MAX as u64 {
                return Err(DecodeError::Malformed);
            }
            dec_threads_n(s, p, n as usize)
        },
        Err(e) => Err(e),
    }
}

/// Decodes the options message from a byte run, reporting how many bytes
/// it took.
pub fn decode_options(s: &[u8], pos: usize) -> (r: Result<(RawOptions, usize), DecodeError>)
    ensures
        match r {
            Ok((o, p)) => spec_dec_options(s@, pos as int) == Ok::<(RawOptions, int), DecodeError>(
                (o, p as int),
            ),
            Err(e) => spec_dec_options(s@, pos as int) == Err::<(RawOptions, int), DecodeError>(e),
        },
{
    match dec_bool(s, pos) {
        Ok((b, p)) => Ok((RawOptions { snapshot: b }, p)),
        Err(e) => Err(e),
    }
}

/// Decodes the reply message from a byte run, reporting how many bytes it
/// took.
pub fn decode_reply(s: &[u8], pos: usize) -> (r: Result<
    (Result<Vec<RawThread>, Vec<u8>>, usize),
    DecodeError,
>)
    ensures
        match r {
            Ok((m, p)) => spec_dec_reply(s@, pos as int) == Ok::<
                (Result<Seq<RawThreadModel>, Seq<u8>>, int),
                DecodeError,
            >((reply_view(&m), p as int)),
            Err(e) => spec_dec_reply(s@, pos as int) == Err::<
                (Result<Seq<RawThreadModel>, Seq<u8>>, int),
                DecodeError,
            >(e),
        },
{
    match dec_u32(s, pos) {
        Ok((tag, p)) => {
            if tag == 0 {
                match dec_threads(s, p) {
                    Ok((ts, p2)) => Ok((Ok(ts), p2)),
                    Err(e) => Err(e),
                }
            } else if tag == 1 {
                match dec_bytes(s, p) {
                    Ok((msg, p2)) => Ok((Err(msg), p2)),
                    Err(e) => Err(e),
                }
            } else {
                Err(DecodeError::Malformed)
            }
        },
        Err(e) => Err(e),
    }
}


/// Whether `chunk` lies inside `s` starting at `pos`.
pub open spec fn holds_at(s: Seq<u8>, pos: int, chunk: Seq<u8>) -> bool {
    &&& 0 <= pos
    &&& pos + chunk.len() <= s.len()
    &&& s.subrange(pos, pos + chunk.len() as int) == chunk
}

/// Every byte of an embedded chunk is the byte of `s` at its offset.
proof fn lemma_holds_at_index(s: Seq<u8>, pos: int, chunk: Seq<u8>, i: int)
    requires
        holds_at(s, pos, chunk),
        0 <= i < chunk.len(),
    ensures
        s[pos + i] == chunk[i],
{
    assert(s.subrange(pos, pos + chunk.len() as int)[i] == chunk[i]);
}

/// An embedded concatenation embeds its halves, one after the other.
proof fn lemma_holds_at_split(s: Seq<u8>, pos: int, x: Seq<u8>, y: Seq<u8>)
    requires
        holds_at(s, pos, x + y),
    ensures
        holds_at(s, pos, x),
        holds_at(s, pos + x.len(), y),
{
    assert forall|i: int| 0 <= i < (x + y).len() implies s[pos + i] == (x + y)[i] by {
        lemma_holds_at_index(s, pos, x + y, i);
    }
    assert(s.subrange(pos, pos + x.len() as int) =~= x);
    assert forall|k: int| 0 <= k < y.len() implies s[pos + x.len() + k] == y[k] by {
        assert(s[pos + (x.len() + k)] == (x + y)[x.len() + k]);
    }
    assert(s.subrange(pos + x.len(), pos + x.len() + y.len() as int) =~= y);
}

/// Decoding an embedded 64-bit value yields the value.
proof fn lemma_dec_u64_at(s: Seq<u8>, pos: int, v: u64)
    requires
        holds_at(s, pos, enc_u64(v)),
    ensures
        spec_dec_u64(s, pos) == Ok::<(u64, int), DecodeError>((v, pos + 8)),
{
    let e = enc_u64(v);
    assert forall|i: int| 0 <= i < 8 implies s[pos + i] == e[i] by {
        lemma_holds_at_index(s, pos, e, i);
    }
    assert((((v & 0xff) as u8) as u64) | (((((v >> 8) & 0xff) as u8) as u64) << 8) | (((((v >> 16)
        & 0xff) as u8) as u64) << 16) | (((((v >> 24) & 0xff) as u8) as u64) << 24) | (((((v >> 32)
        & 0xff) as u8) as u64) << 32) | (((((v >> 40) & 0xff) as u8) as u64) << 40) | (((((v >> 48)
        & 0xff) as u8) as u64) << 48) | (((((v >> 56) & 0xff) as u8) as u64) << 56) == v)
        by (bit_vector);
    assert(s[pos + 0] == e[0] && s[pos + 1] == e[1] && s[pos + 2] == e[2] && s[pos + 3] == e[3]
        && s[pos + 4] == e[4] && s[pos + 5] == e[5] && s[pos + 6] == e[6] && s[pos + 7] == e[7]);
    assert(le_u64_at(s, pos) == v);
}

/// Decoding an embedded 32-bit value yields the value.
proof fn lemma_dec_u32_at(s: Seq<u8>, pos: int, v: u32)
    requires
        holds_at(s, pos, enc_u32(v)),
    ensures
        spec_dec_u32(s, pos) == Ok::<(u32, int), DecodeError>((v, pos + 4)),
{
    let e = enc_u32(v);
    assert forall|i: int| 0 <= i < 4 implies s[pos + i] == e[i] by {
        lemma_holds_at_index(s, pos, e, i);
    }
    assert((((v & 0xff) as u8) as u32) | (((((v >> 8) & 0xff) as u8) as u32) << 8) | (((((v >> 16)
        & 0xff) as u8) as u32) << 16) | (((((v >> 24) & 0xff) as u8) as u32) << 24) == v)
        by (bit_vector);
    assert(s[pos + 0] == e[0] && s[pos + 1] == e[1] && s[pos + 2] == e[2] && s[pos + 3] == e[3]);
    assert(le_u32_at(s, pos) == v);
}

/// Decoding an embedded boolean yields the boolean.
proof fn lemma_dec_bool_at(s: Seq<u8>, pos: int, b: bool)
    requires
        holds_at(s, pos, enc_bool(b)),
    ensures
        spec_dec_bool(s, pos) == Ok::<(bool, int), DecodeError>((b, pos + 1)),
{
    lemma_holds_at_index(s, pos, enc_bool(b), 0);
}

/// Decoding an embedded byte string yields the bytes.
proof fn lemma_dec_bytes_at(s: Seq<u8>, pos: int, b: Seq<u8>)
    requires
        holds_at(s, pos, enc_bytes(b)),
        b.len() <= usize::MAX,
    ensures
        spec_dec_bytes(s, pos) == Ok::<(Seq<u8>, int), DecodeError>((b, pos + 8 + b.len())),
{
    lemma_holds_at_split(s, pos, enc_u64(b.len() as u64), b);
    lemma_dec_u64_at(s, pos, b.len() as u64);
    let n = b.len() as u64;
    assert(!(n > usize::MAX as u64));
    assert(s.subrange(pos + 8, pos + 8 + n as int) =~= b) by {
        assert(holds_at(s, pos + 8, b));
        assert(s.subrange(pos + 8, pos + 8 + b.len() as int) == b);
    }
}

/// A frame run also encodes front first: the first frame, then the rest.
proof fn lemma_enc_frames_list_first(fs: Seq<RawFrame>)
    requires
        fs.len() > 0,
    ensures
        enc_frames_list(fs) == enc_frame(fs.first()) + enc_frames_list(fs.drop_first()),
    decreases fs.len(),
{
    if fs.len() == 1 {
        assert(fs.drop_last() =~= Seq::<RawFrame>::empty());
        assert(fs.drop_first() =~= Seq::<RawFrame>::empty());
        assert(fs.first() == fs.last());
        assert(Seq::<u8>::empty() + enc_frame(fs.last()) =~= enc_frame(fs.first())
            + Seq::<u8>::empty());
    } else {
        let init = fs.drop_last();
        lemma_enc_frames_list_first(init);
        assert(init.first() == fs.first());
        assert(fs.drop_first().drop_last() =~= init.drop_first());
        assert(fs.drop_first().last() == fs.last());
        assert(enc_frames_list(fs.drop_first()) == enc_frames_list(init.drop_first()) + enc_frame(
            fs.last(),
        ));
        assert((enc_frame(fs.first()) + enc_frames_list(init.drop_first())) + enc_frame(fs.last())
            =~= enc_frame(fs.first()) + (enc_frames_list(init.drop_first()) + enc_frame(
            fs.last(),
        )));
    }
}

/// Decoding an embedded frame yields the frame.
proof fn lemma_dec_frame_at(s: Seq<u8>, pos: int, f: RawFrame)
    requires
        holds_at(s, pos, enc_frame(f)),
    ensures
        spec_dec_frame(s, pos) == Ok::<(RawFrame, int), DecodeError>((f, pos + 9)),
{
    lemma_holds_at_split(s, pos, enc_u64(f.ip), enc_bool(f.is_signal));
    lemma_dec_u64_at(s, pos, f.ip);
    lemma_dec_bool_at(s, pos + 8, f.is_signal);
}

/// Decoding an embedded frame run yields the frames.
proof fn lemma_dec_frames_n_at(s: Seq<u8>, pos: int, fs: Seq<RawFrame>)
    requires
        holds_at(s, pos, enc_frames_list(fs)),
    ensures
        spec_dec_frames_n(s, pos, fs.len() as int) == Ok::<(Seq<RawFrame>, int), DecodeError>((
            fs,
            pos + enc_frames_list(fs).len(),
        )),
    decreases fs.len(),
{
    if fs.len() == 0 {
        assert(fs =~= Seq::<RawFrame>::empty());
    } else {
        lemma_enc_frames_list_first(fs);
        lemma_holds_at_split(s, pos, enc_frame(fs.first()), enc_frames_list(fs.drop_first()));
        lemma_dec_frame_at(s, pos, fs.first());
        lemma_dec_frames_n_at(s, pos + 9, fs.drop_first());
        assert(seq![fs.first()] + fs.drop_first() =~= fs);
    }
}

/// Decoding an embedded frame vector yields the frames.
proof fn lemma_dec_frames_at(s: Seq<u8>, pos: int, fs: Seq<RawFrame>)
    requires
        holds_at(s, pos, enc_frames(fs)),
        fs.len() <= usize::MAX,
    ensures
        spec_dec_frames(s, pos) == Ok::<(Seq<RawFrame>, int), DecodeError>((
            fs,
            pos + enc_frames(fs).len(),
        )),
{
    lemma_holds_at_split(s, pos, enc_u64(fs.len() as u64), enc_frames_list(fs));
    lemma_dec_u64_at(s, pos, fs.len() as u64);
    assert(!(fs.len() as u64 > usize::MAX as u64));
    lemma_dec_frames_n_at(s, pos + 8, fs);
}

/// Whether a thread model fits in memory: its name and frame counts are
/// addressable.
pub open spec fn model_bounded(t: RawThreadModel) -> bool {
    t.name.len() <= usize::MAX && t.frames.len() <= usize::MAX
}

/// Decoding an embedded thread yields the thread.
proof fn lemma_dec_thread_at(s: Seq<u8>, pos: int, t: RawThreadModel)
    requires
        holds_at(s, pos, enc_thread(t)),
        model_bounded(t),
    ensures
        spec_dec_thread(s, pos) == Ok::<(RawThreadModel, int), DecodeError>((
            t,
            pos + enc_thread(t).len(),
        )),
{
    lemma_holds_at_split(s, pos, enc_u32(t.id) + enc_bytes(t.name), enc_frames(t.frames));
    lemma_holds_at_split(s, pos, enc_u32(t.id), enc_bytes(t.name));
    lemma_dec_u32_at(s, pos, t.id);
    lemma_dec_bytes_at(s, pos + 4, t.name);
    lemma_dec_frames_at(s, pos + 4 + enc_bytes(t.name).len(), t.frames);
}

/// A thread run also encodes front first.
proof fn lemma_enc_threads_list_first(ts: Seq<RawThreadModel>)
    requires
        ts.len() > 0,
    ensures
        enc_threads_list(ts) == enc_thread(ts.first()) + enc_threads_list(ts.drop_first()),
    decreases ts.len(),
{
    if ts.len() == 1 {
        assert(ts.drop_last() =~= Seq::<RawThreadModel>::empty());
        assert(ts.drop_first() =~= Seq::<RawThreadModel>::empty());
        assert(ts.first() == ts.last());
        assert(Seq::<u8>::empty() + enc_thread(ts.last()) =~= enc_thread(ts.first())
            + Seq::<u8>::empty());
    } else {
        let init = ts.drop_last();
        lemma_enc_threads_list_first(init);
        assert(init.first() == ts.first());
        assert(ts.drop_first().drop_last() =~= init.drop_first());
        assert(ts.drop_first().last() == ts.last());
        assert(enc_threads_list(ts.drop_first()) == enc_threads_list(init.drop_first())
            + enc_thread(ts.last()));
        assert((enc_thread(ts.first()) + enc_threads_list(init.drop_first())) + enc_thread(
            ts.last(),
        ) =~= enc_thread(ts.first()) + (enc_threads_list(init.drop_first()) + enc_thread(
            ts.last(),
        )));
    }
}

/// Decoding an embedded thread run yields the threads.
proof fn lemma_dec_threads_n_at(s: Seq<u8>, pos: int, ts: Seq<RawThreadModel>)
    requires
        holds_at(s, pos, enc_threads_list(ts)),
        forall|k: int| 0 <= k < ts.len() ==> model_bounded(#[trigger] ts[k]),
    ensures
        spec_dec_threads_n(s, pos, ts.len() as int) == Ok::<
            (Seq<RawThreadModel>, int),
            DecodeError,
        >((ts, pos + enc_threads_list(ts).len())),
    decreases ts.len(),
{
    if ts.len() == 0 {
        assert(ts =~= Seq::<RawThreadModel>::empty());
    } else {
        lemma_enc_threads_list_first(ts);
        lemma_holds_at_split(s, pos, enc_thread(ts.first()), enc_threads_list(ts.drop_first()));
        lemma_dec_thread_at(s, pos, ts.first());
        assert(forall|k: int|
            0 <= k < ts.drop_first().len() ==> model_bounded(#[trigger] ts.drop_first()[k]));
        lemma_dec_threads_n_at(s, pos + enc_thread(ts.first()).len(), ts.drop_first());
        assert(seq![ts.first()] + ts.drop_first() =~= ts);
    }
}

/// Decoding an embedded thread vector yields the threads.
proof fn lemma_dec_threads_at(s: Seq<u8>, pos: int, ts: Seq<RawThreadModel>)
    requires
        holds_at(s, pos, enc_threads(ts)),
        ts.len() <= usize::MAX,
        forall|k: int| 0 <= k < ts.len() ==> model_bounded(#[trigger] ts[k]),
    ensures
        spec_dec_threads(s, pos) == Ok::<(Seq<RawThreadModel>, int), DecodeError>((
            ts,
            pos + enc_threads(ts).len(),
        )),
{
    lemma_holds_at_split(s, pos, enc_u64(ts.len() as u64), enc_threads_list(ts));
    lemma_dec_u64_at(s, pos, ts.len() as u64);
    assert(!(ts.len() as u64 > usize::MAX as u64));
    lemma_dec_threads_n_at(s, pos + 8, ts);
}

/// Whether a reply fits in memory.
pub open spec fn reply_bounded(m: Result<Seq<RawThreadModel>, Seq<u8>>) -> bool {
    match m {
        Ok(ts) => ts.len() <= usize::MAX && forall|k: int|
            0 <= k < ts.len() ==> model_bounded(#[trigger] ts[k]),
        Err(msg) => msg.len() <= usize::MAX,
    }
}

/// Decoding an encoded options message — with anything after it — yields
/// the options unchanged and consumes exactly the message.
pub proof fn lemma_options_roundtrip(o: RawOptions, extra: Seq<u8>)
    ensures
        spec_dec_options(enc_options(o) + extra, 0) == Ok::<(RawOptions, int), DecodeError>((
            o,
            enc_options(o).len() as int,
        )),
{
    let s = enc_options(o) + extra;
    assert(s.subrange(0, enc_options(o).len() as int) =~= enc_options(o));
    lemma_dec_bool_at(s, 0, o.snapshot);
}

/// Decoding an encoded success reply — with anything after it — yields the
/// same threads and consumes exactly the message.
#[verifier::spinoff_prover]
#[verifier::rlimit(100)]
proof fn lemma_reply_roundtrip_ok(ts: Seq<RawThreadModel>, extra: Seq<u8>)
    requires
        ts.len() <= usize::MAX,
        forall|k: int| 0 <= k < ts.len() ==> model_bounded(#[trigger] ts[k]),
    ensures
        spec_dec_reply(enc_u32(0) + enc_threads(ts) + extra, 0) == Ok::<
            (Result<Seq<RawThreadModel>, Seq<u8>>, int),
            DecodeError,
        >((Ok(ts), 4 + enc_threads(ts).len() as int)),
{
    let s = enc_u32(0) + enc_threads(ts) + extra;
    assert(s.subrange(0, 4 + enc_threads(ts).len() as int) =~= enc_u32(0) + enc_threads(ts));
    assert(holds_at(s, 0, enc_u32(0) + enc_threads(ts)));
    lemma_holds_at_split(s, 0, enc_u32(0), enc_threads(ts));
    lemma_dec_u32_at(s, 0, 0);
    lemma_dec_threads_at(s, 4, ts);
}

/// Decoding an encoded failure reply — with anything after it — yields the
/// same message text and consumes exactly the message.
#[verifier::spinoff_prover]
#[verifier::rlimit(100)]
proof fn lemma_reply_roundtrip_err(msg: Seq<u8>, extra: Seq<u8>)
    requires
        msg.len() <= usize::MAX,
    ensures
        spec_dec_reply(enc_u32(1) + enc_bytes(msg) + extra, 0) == Ok::<
            (Result<Seq<RawThreadModel>, Seq<u8>>, int),
            DecodeError,
        >((Err(msg), 4 + 8 + msg.len() as int)),
{
    let s = enc_u32(1) + enc_bytes(msg) + extra;
    assert(s.subrange(0, 4 + enc_bytes(msg).len() as int) =~= enc_u32(1) + enc_bytes(msg));
    assert(holds_at(s, 0, enc_u32(1) + enc_bytes(msg)));
    lemma_holds_at_split(s, 0, enc_u32(1), enc_bytes(msg));
    lemma_dec_u32_at(s, 0, 1);
    lemma_dec_bytes_at(s, 4, msg);
}

/// Decoding an encoded reply — with anything after it — yields an equal
/// reply and consumes exactly the message: the protocol codec round-trips.
#[verifier::spinoff_prover]
#[verifier::rlimit(100)]
pub proof fn lemma_reply_roundtrip(m: Result<Seq<RawThreadModel>, Seq<u8>>, extra: Seq<u8>)
    requires
        reply_bounded(m),
    ensures
        spec_dec_reply(enc_reply(m) + extra, 0) == Ok::<
            (Result<Seq<RawThreadModel>, Seq<u8>>, int),
            DecodeError,
        >((m, enc_reply(m).len() as int)),
{
    match m {
        Ok(ts) => {
            lemma_reply_roundtrip_ok(ts, extra);
            assert(enc_reply(m) == enc_u32(0) + enc_threads(ts));
            assert(enc_reply(m) + extra == enc_u32(0) + enc_threads(ts) + extra);
            assert(spec_dec_reply(enc_reply(m) + extra, 0) == spec_dec_reply(
                enc_u32(0) + enc_threads(ts) + extra,
                0,
            ));
            assert(enc_reply(m).len() as int == 4 + enc_threads(ts).len() as int);
            assert(m == Ok::<Seq<RawThreadModel>, Seq<u8>>(ts));
        },
        Err(msg) => {
            lemma_reply_roundtrip_err(msg, extra);
            assert(enc_reply(m) == enc_u32(1) + enc_bytes(msg));
            assert(enc_reply(m) + extra == enc_u32(1) + enc_bytes(msg) + extra);
            assert(spec_dec_reply(enc_reply(m) + extra, 0) == spec_dec_reply(
                enc_u32(1) + enc_bytes(msg) + extra,
                0,
            ));
            assert(enc_reply(m).len() as int == 4 + 8 + msg.len() as int);
            assert(m == Err::<Seq<RawThreadModel>, Seq<u8>>(msg));
        },
    }
}

} // verus!
