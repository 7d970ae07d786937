//! Length-framed stream codec.
//!
//! The chatd connection is a stream of frames, each prefixed with a 3-byte big-endian length.
//! This module encodes outbound frames and reassembles inbound frames from an arbitrarily
//! chunked byte stream. The very first bytes a client sends are the connection header
//! ([`wa_conn_header`]), which is also the Noise prologue.

use vstd::prelude::*;
use crate::bytes::{append_bytes, copy_range};

verus! {

/// Maximum frame payload size (3-byte length field).
pub const MAX_FRAME_LEN: usize = 16777215;

/// Magic bytes that open the stream (`"WA"`).
pub const WA_MAGIC: [u8; 2] = [87u8, 65u8];
/// Protocol "edition" byte sent in the connection header.
pub const EDITION: u8 = 6;
/// Binary-dictionary version byte sent in the connection header.
pub const DICT_VERSION: u8 = 3;

/// Errors from the transport layer.
#[derive(Debug)]
pub enum Error {
    /// A frame exceeded the 3-byte (16 MiB) length limit.
    FrameTooLarge(usize),
    /// An AEAD operation was attempted before the first key was derived.
    NoiseUninitialized,
    /// An AEAD encrypt/decrypt (tag verification) failed.
    Crypto(&'static str),
    /// A key or field had an unexpected length.
    BadLength(&'static str),
    /// The `snow` Noise state machine refused an operation (its message).
    Noise(String),
}

/// The connection header `[ 'W', 'A', EDITION, DICT_VERSION ]`.
pub fn wa_conn_header() -> (h: [u8; 4])
    ensures
        h@ == seq![87u8, 65u8, EDITION, DICT_VERSION],
{
    [WA_MAGIC[0], WA_MAGIC[1], EDITION, DICT_VERSION]
}

/// The 3-byte big-endian length prefix of a frame of `len` bytes.
pub open spec fn frame_header(len: nat) -> Seq<u8> {
    seq![(len / 65536) as u8, ((len / 256) % 256) as u8, (len % 256) as u8]
}

/// A whole frame: the length prefix followed by the payload.
pub open spec fn spec_frame(payload: Seq<u8>) -> Seq<u8> {
    frame_header(payload.len()) + payload
}

/// Append `payload` to `out` as a single length-prefixed frame.
pub fn encode_frame(payload: &[u8], out: &mut Vec<u8>) -> (r: Result<(), Error>)
    ensures
        payload@.len() > MAX_FRAME_LEN ==> (r matches Err(Error::FrameTooLarge(n)) && n == payload@.len())
            && final(out)@ == old(out)@,
        payload@.len() <= MAX_FRAME_LEN ==> r is Ok && final(out)@ == old(out)@ + spec_frame(payload@),
{
    let len = payload.len();
    if len > MAX_FRAME_LEN {
        return Err(Error::FrameTooLarge(len));
    }
    let b0 = (len >> 16) as u8;
    let b1 = ((len >> 8) & 0xff) as u8;
    let b2 = (len & 0xff) as u8;
    assert(b0 == len / 65536 && b1 == (len / 256) % 256 && b2 == len % 256) by (bit_vector)
        requires
            len <= 16777215usize,
            b0 == (len >> 16) as u8,
            b1 == ((len >> 8) & 0xff) as u8,
            b2 == (len & 0xff) as u8,
    ;
    out.push(b0);
    out.push(b1);
    out.push(b2);
    append_bytes(out, payload);
    assert(old(out)@.push(b0).push(b1).push(b2) + payload@ == old(out)@ + spec_frame(payload@));
    Ok(())
}

/// The payload length announced by the first three bytes of `buf`.
pub open spec fn announced_len(buf: Seq<u8>) -> nat
    recommends
        buf.len() >= 3,
{
    (buf[0] as nat) * 65536 + (buf[1] as nat) * 256 + (buf[2] as nat)
}

/// Whether `buf` begins with a complete frame.
pub open spec fn has_frame(buf: Seq<u8>) -> bool {
    buf.len() >= 3 && buf.len() >= 3 + announced_len(buf)
}

/// Reassembles whole frames out of a byte stream delivered in arbitrary chunks.
pub struct FrameReader {
    buf: Vec<u8>,
}

impl View for FrameReader {
    type V = Seq<u8>;

    /// The bytes buffered but not yet handed out as frames.
    closed spec fn view(&self) -> Seq<u8> {
        self.buf@
    }
}

impl FrameReader {
    /// Create an empty reader.
    pub fn new() -> (r: Self)
        ensures
            r@ == Seq::<u8>::empty(),
    {
        FrameReader { buf: Vec::new() }
    }

    /// Feed freshly received bytes into the reader's internal buffer.
    pub fn push(&mut self, data: &[u8])
        ensures
            final(self)@ == old(self)@ + data@,
    {
        append_bytes(&mut self.buf, data);
    }

    /// Pop the next complete frame, or `None` if a full frame isn't buffered yet.
    pub fn next_frame(&mut self) -> (r: Option<Vec<u8>>)
        ensures
            !has_frame(old(self)@) ==> r is None && final(self)@ == old(self)@,
            has_frame(old(self)@) ==> r is Some
                && r->Some_0@ == old(self)@.subrange(3, 3 + announced_len(old(self)@) as int)
                && final(self)@ == old(self)@.subrange(3 + announced_len(old(self)@) as int, old(self)@.len() as int),
    {
        if self.buf.len() < 3 {
            return None;
        }
        let a = self.buf[0] as usize;
        let b = self.buf[1] as usize;
        let c = self.buf[2] as usize;
        let len = (a << 16) | (b << 8) | c;
        assert(len == a * 65536 + b * 256 + c) by (bit_vector)
            requires
                a < 256usize,
                b < 256usize,
                c < 256usize,
                len == (a << 16) | (b << 8) | c,
        ;
        let total = 3 + len;
        if self.buf.len() < total {
            return None;
        }
        let frame = copy_range(self.buf.as_slice(), 3, total);
        let rest = self.buf.split_off(total);
        self.buf = rest;
        Some(frame)
    }

    /// Number of bytes currently buffered but not yet formed into a frame.
    pub fn buffered(&self) -> (n: usize)
        ensures
            n == self@.len(),
    {
        self.buf.len()
    }
}

/// A frame is its payload after three bytes that spell the payload's length big-endian.
pub proof fn lemma_frame_layout(p: Seq<u8>)
    requires
        p.len() <= MAX_FRAME_LEN,
    ensures
        spec_frame(p).len() == p.len() + 3,
        spec_frame(p)[0] * 65536 + spec_frame(p)[1] * 256 + spec_frame(p)[2] == p.len(),
        spec_frame(p).subrange(3, p.len() + 3int) == p,
{
    let n = p.len();
    assert((n / 65536) as u8 as nat * 65536 + ((n / 256) % 256) as u8 as nat * 256 + (n % 256) as u8 as nat == n) by (nonlinear_arith)
        requires n <= 16777215;
    assert(spec_frame(p).subrange(3, p.len() + 3int) =~= p);
}

/// A reader whose buffer starts with `spec_frame(p)` yields exactly `p`,
/// keeping whatever followed the frame.
pub proof fn frame_roundtrip(p: Seq<u8>, rest: Seq<u8>)
    requires
        p.len() <= MAX_FRAME_LEN,
    ensures
        has_frame(spec_frame(p) + rest),
        announced_len(spec_frame(p) + rest) == p.len(),
        (spec_frame(p) + rest).subrange(3, 3 + p.len() as int) == p,
        (spec_frame(p) + rest).subrange(3 + p.len() as int, (spec_frame(p) + rest).len() as int) == rest,
{
    let b = spec_frame(p) + rest;
    let n = p.len();
    assert(b[0] == (n / 65536) as u8);
    assert(b[1] == ((n / 256) % 256) as u8);
    assert(b[2] == (n % 256) as u8);
    assert((n / 65536) as u8 as nat * 65536 + ((n / 256) % 256) as u8 as nat * 256 + (n % 256) as u8 as nat == n) by (nonlinear_arith)
        requires n <= 16777215;
    assert(b.subrange(3, 3 + n as int) =~= p);
    assert(b.subrange(3 + n as int, b.len() as int) =~= rest);
}


/// `next_frame` called until it returns `None`, on the buffered bytes `buf`: the frames it hands
/// out, in order, and the bytes left buffered.
pub open spec fn drain(buf: Seq<u8>) -> (Seq<Seq<u8>>, Seq<u8>)
    decreases buf.len(),
{
    if has_frame(buf) {
        let d = drain(buf.subrange(3 + announced_len(buf) as int, buf.len() as int));
        (seq![buf.subrange(3, 3 + announced_len(buf) as int)] + d.0, d.1)
    } else {
        (Seq::empty(), buf)
    }
}

/// The bytes of the chunks `chunks`, one after another.
pub open spec fn concat_chunks(chunks: Seq<Seq<u8>>) -> Seq<u8>
    decreases chunks.len(),
{
    if chunks.len() == 0 { Seq::empty() } else { concat_chunks(chunks.drop_last()) + chunks.last() }
}

/// A fresh reader fed `chunks`, each `push` followed by `next_frame` until it returns `None`:
/// all the frames handed out, in order, and the bytes left buffered.
pub open spec fn read_chunks(chunks: Seq<Seq<u8>>) -> (Seq<Seq<u8>>, Seq<u8>)
    decreases chunks.len(),
{
    if chunks.len() == 0 {
        (Seq::empty(), Seq::empty())
    } else {
        let prev = read_chunks(chunks.drop_last());
        let d = drain(prev.1 + chunks.last());
        (prev.0 + d.0, d.1)
    }
}

/// The stream of the frames of the payloads `ps`, one after another.
pub open spec fn frames_stream(ps: Seq<Seq<u8>>) -> Seq<u8>
    decreases ps.len(),
{
    if ps.len() == 0 { Seq::empty() } else { spec_frame(ps[0]) + frames_stream(ps.subrange(1, ps.len() as int)) }
}

/// Every payload fits a frame.
pub open spec fn payloads_fit(ps: Seq<Seq<u8>>) -> bool {
    forall|i: int| 0 <= i < ps.len() ==> (#[trigger] ps[i]).len() <= MAX_FRAME_LEN
}

/// The stream of `ps` is that of its first `c` payloads followed by that of the rest.
proof fn lemma_stream_split(ps: Seq<Seq<u8>>, c: int)
    requires
        0 <= c <= ps.len(),
    ensures
        frames_stream(ps) == frames_stream(ps.take(c)) + frames_stream(ps.skip(c)),
    decreases c,
{
    if c == 0 {
        assert(ps.take(0) =~= Seq::<Seq<u8>>::empty());
        assert(ps.skip(0) =~= ps);
        assert(frames_stream(ps) =~= Seq::<u8>::empty() + frames_stream(ps));
    } else {
        let tail = ps.subrange(1, ps.len() as int);
        lemma_stream_split(tail, c - 1);
        assert(ps.take(c).subrange(1, c) =~= tail.take(c - 1));
        assert(tail.skip(c - 1) =~= ps.skip(c));
        assert(frames_stream(ps.take(c)) == spec_frame(ps[0]) + frames_stream(tail.take(c - 1)));
        assert(frames_stream(ps) =~= frames_stream(ps.take(c)) + frames_stream(ps.skip(c)));
    }
}

/// What `drain` leaves never begins with a whole frame.
proof fn lemma_drain_stops(buf: Seq<u8>)
    ensures
        !has_frame(drain(buf).1),
    decreases buf.len(),
{
    if has_frame(buf) {
        lemma_drain_stops(buf.subrange(3 + announced_len(buf) as int, buf.len() as int));
    }
}

/// Draining the first `n` bytes of a stream of frames hands out some leading payloads, exactly
/// those whose frames lie within the `n` bytes, and leaves the bytes after them.
proof fn lemma_drain_prefix(ps: Seq<Seq<u8>>, n: int)
    requires
        payloads_fit(ps),
        0 <= n <= frames_stream(ps).len(),
    ensures
        exists|c: int| 0 <= c <= ps.len() && frames_stream(ps.take(c)).len() <= n
            && #[trigger] drain(frames_stream(ps).take(n)) == (ps.take(c),
                frames_stream(ps).subrange(frames_stream(ps.take(c)).len() as int, n)),
    decreases ps.len(),
{
    let st = frames_stream(ps);
    let t = st.take(n);
    if ps.len() == 0 {
        assert(ps.take(0) =~= ps);
        assert(t =~= st.subrange(0, n));
        assert(drain(t) == (ps.take(0), st.subrange(frames_stream(ps.take(0)).len() as int, n)));
    } else {
        let p0 = ps[0];
        let f = spec_frame(p0);
        let tail = ps.subrange(1, ps.len() as int);
        let lf = f.len() as int;
        assert(p0.len() <= MAX_FRAME_LEN);
        assert(payloads_fit(tail)) by {
            assert forall|i: int| 0 <= i < tail.len() implies (#[trigger] tail[i]).len() <= MAX_FRAME_LEN by {
                assert(tail[i] == ps[i + 1]);
            }
        }
        if n >= lf {
            let rest = frames_stream(tail).take(n - lf);
            frame_roundtrip(p0, rest);
            assert(t =~= f + rest);
            assert((f + rest).subrange(3 + announced_len(f + rest) as int, (f + rest).len() as int) == rest);
            lemma_drain_prefix(tail, n - lf);
            let c1 = choose|c1: int| 0 <= c1 <= tail.len() && frames_stream(tail.take(c1)).len() <= n - lf
                && #[trigger] drain(frames_stream(tail).take(n - lf)) == (tail.take(c1),
                    frames_stream(tail).subrange(frames_stream(tail.take(c1)).len() as int, n - lf));
            let c = c1 + 1;
            assert(ps.take(c) =~= seq![p0] + tail.take(c1));
            assert(ps.take(c).subrange(1, c) =~= tail.take(c1));
            assert(frames_stream(ps.take(c)) == f + frames_stream(tail.take(c1)));
            assert(st.subrange(frames_stream(ps.take(c)).len() as int, n)
                =~= frames_stream(tail).subrange(frames_stream(tail.take(c1)).len() as int, n - lf));
            assert(drain(t) == (ps.take(c), st.subrange(frames_stream(ps.take(c)).len() as int, n)));
        } else {
            if n >= 3 {
                frame_roundtrip(p0, frames_stream(tail));
                assert(t[0] == st[0] && t[1] == st[1] && t[2] == st[2]);
                assert(announced_len(t) == announced_len(st));
            }
            assert(!has_frame(t));
            assert(ps.take(0) =~= Seq::<Seq<u8>>::empty());
            assert(frames_stream(ps.take(0)) =~= Seq::<u8>::empty());
            assert(st.subrange(0, n) =~= t);
            assert(drain(t) == (ps.take(0), st.subrange(frames_stream(ps.take(0)).len() as int, n)));
        }
    }
}

/// The chunks so far spell the start of what all the chunks spell.
proof fn lemma_concat_prefix(chunks: Seq<Seq<u8>>, i: int)
    requires
        0 <= i <= chunks.len(),
    ensures
        concat_chunks(chunks.take(i)).len() <= concat_chunks(chunks).len(),
        concat_chunks(chunks).take(concat_chunks(chunks.take(i)).len() as int) == concat_chunks(chunks.take(i)),
    decreases chunks.len(),
{
    if i == chunks.len() {
        assert(chunks.take(i) =~= chunks);
        assert(concat_chunks(chunks).take(concat_chunks(chunks).len() as int) =~= concat_chunks(chunks));
    } else {
        let init = chunks.drop_last();
        lemma_concat_prefix(init, i);
        assert(chunks.take(i) =~= init.take(i));
        let k = concat_chunks(init.take(i)).len() as int;
        assert(concat_chunks(chunks).take(k) =~= concat_chunks(init).take(k));
    }
}

/// A fresh reader fed chunks that spell the first `n` bytes of the stream of `ps` has handed out
/// the payloads whose frames lie within those bytes and keeps the bytes after them.
proof fn lemma_read_prefix(ps: Seq<Seq<u8>>, chunks: Seq<Seq<u8>>)
    requires
        payloads_fit(ps),
        concat_chunks(chunks).len() <= frames_stream(ps).len(),
        concat_chunks(chunks) == frames_stream(ps).take(concat_chunks(chunks).len() as int),
    ensures
        exists|c: int| 0 <= c <= ps.len()
            && frames_stream(ps.take(c)).len() <= concat_chunks(chunks).len()
            && #[trigger] read_chunks(chunks) == (ps.take(c), frames_stream(ps).subrange(
                frames_stream(ps.take(c)).len() as int, concat_chunks(chunks).len() as int)),
    decreases chunks.len(),
{
    let st = frames_stream(ps);
    if chunks.len() == 0 {
        assert(ps.take(0) =~= Seq::<Seq<u8>>::empty());
        assert(frames_stream(ps.take(0)) =~= Seq::<u8>::empty());
        assert(st.subrange(0, 0) =~= Seq::<u8>::empty());
        assert(read_chunks(chunks) == (ps.take(0), st.subrange(0, 0)));
    } else {
        let init = chunks.drop_last();
        let last = chunks.last();
        let n0 = concat_chunks(init).len() as int;
        let n1 = concat_chunks(chunks).len() as int;
        assert(concat_chunks(init) =~= st.take(n0)) by {
            assert(concat_chunks(chunks).take(n0) =~= concat_chunks(init));
        }
        lemma_read_prefix(ps, init);
        let c0 = choose|c: int| 0 <= c <= ps.len() && frames_stream(ps.take(c)).len() <= n0
            && #[trigger] read_chunks(init) == (ps.take(c), st.subrange(frames_stream(ps.take(c)).len() as int, n0));
        let b = frames_stream(ps.take(c0)).len() as int;
        let qs = ps.skip(c0);
        lemma_stream_split(ps, c0);
        let buf = read_chunks(init).1 + last;
        assert(buf =~= frames_stream(qs).take(n1 - b)) by {
            assert(concat_chunks(chunks) == concat_chunks(init) + last);
            assert(last =~= st.subrange(n0, n1)) by {
                assert forall|j: int| 0 <= j < last.len() implies last[j] == st[n0 + j] by {
                    assert(concat_chunks(chunks)[n0 + j] == last[j]);
                    assert(concat_chunks(chunks)[n0 + j] == st.take(n1)[n0 + j]);
                }
            }
            assert(read_chunks(init).1 == st.subrange(b, n0));
            assert(buf =~= st.subrange(b, n1));
            assert(st == frames_stream(ps.take(c0)) + frames_stream(qs));
            assert(st.subrange(b, n1) =~= frames_stream(qs).take(n1 - b));
        }
        assert(payloads_fit(qs)) by {
            assert forall|j: int| 0 <= j < qs.len() implies (#[trigger] qs[j]).len() <= MAX_FRAME_LEN by {
                assert(qs[j] == ps[j + c0]);
            }
        }
        lemma_drain_prefix(qs, n1 - b);
        let c2 = choose|c2: int| 0 <= c2 <= qs.len() && frames_stream(qs.take(c2)).len() <= n1 - b
            && #[trigger] drain(frames_stream(qs).take(n1 - b)) == (qs.take(c2),
                frames_stream(qs).subrange(frames_stream(qs.take(c2)).len() as int, n1 - b));
        let c = c0 + c2;
        assert(ps.take(c0) + qs.take(c2) =~= ps.take(c));
        lemma_stream_split(ps.take(c), c0);
        assert(ps.take(c).take(c0) =~= ps.take(c0));
        assert(ps.take(c).skip(c0) =~= qs.take(c2));
        assert(st.subrange(frames_stream(ps.take(c)).len() as int, n1)
            =~= frames_stream(qs).subrange(frames_stream(qs.take(c2)).len() as int, n1 - b));
        assert(read_chunks(chunks) == (ps.take(c), st.subrange(frames_stream(ps.take(c)).len() as int, n1)));
    }
}

/// Frames come out whole and in order however the stream is chunked: fed the stream of the
/// payloads `ps` in any chunks, a fresh reader has handed out, after the first `i` chunks, the
/// payloads whose frames have fully arrived, and keeps the bytes after them; once the whole
/// stream has been pushed it has handed out exactly `ps` and holds nothing.
pub proof fn lemma_chunked_reassembly(ps: Seq<Seq<u8>>, chunks: Seq<Seq<u8>>, i: int)
    requires
        payloads_fit(ps),
        concat_chunks(chunks) == frames_stream(ps),
        0 <= i <= chunks.len(),
    ensures
        exists|c: int| 0 <= c <= ps.len()
            && frames_stream(ps.take(c)).len() <= concat_chunks(chunks.take(i)).len()
            && #[trigger] read_chunks(chunks.take(i)) == (ps.take(c), frames_stream(ps).subrange(
                frames_stream(ps.take(c)).len() as int, concat_chunks(chunks.take(i)).len() as int)),
        read_chunks(chunks) == (ps, Seq::<u8>::empty()),
{
    let st = frames_stream(ps);
    lemma_concat_prefix(chunks, i);
    lemma_read_prefix(ps, chunks.take(i));
    assert(st.take(st.len() as int) =~= st);
    lemma_read_prefix(ps, chunks);
    let c = choose|c: int| 0 <= c <= ps.len() && frames_stream(ps.take(c)).len() <= concat_chunks(chunks).len()
        && #[trigger] read_chunks(chunks) == (ps.take(c), st.subrange(frames_stream(ps.take(c)).len() as int,
            concat_chunks(chunks).len() as int));
    lemma_stream_split(ps, c);
    let left = st.subrange(frames_stream(ps.take(c)).len() as int, st.len() as int);
    assert(left =~= frames_stream(ps.skip(c)));
    if c < ps.len() {
        // A whole frame would be left, but the reader drains every whole frame.
        let rest = ps.skip(c);
        assert(rest[0] == ps[c]);
        frame_roundtrip(rest[0], frames_stream(rest.subrange(1, rest.len() as int)));
        if chunks.len() == 0 {
            assert(false);
        } else {
            lemma_drain_stops(read_chunks(chunks.drop_last()).1 + chunks.last());
            assert(false);
        }
    }
    assert(ps.take(c) =~= ps);
    assert(left =~= Seq::<u8>::empty());
}

} // verus!
