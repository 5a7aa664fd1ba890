//! The write-ahead log's on-disk format and batching rules.
//!
//! Each event is stored as one frame:
//! `[index length: u16 LE][index bytes][payload length: u32 LE][payload][CRC32: u32 LE]`,
//! where the CRC-32 covers the index bytes followed by the payload bytes.
use vstd::prelude::*;
use vstd::utf8::{decode_utf8, encode_utf8, encode_utf8_decode_utf8, encode_utf8_valid_utf8, valid_utf8};

use crate::text::owned;

verus! {

/// One event to be appended to the WAL: the target index and the raw
/// document bytes.
pub struct IngestEvent {
    pub index: String,
    pub payload: Vec<u8>,
}

/// The largest number of requests that one WAL batch (one fsync) takes.
pub const MAX_WAL_BATCH: usize = 5000;

/// The name of the WAL segment file that the appender writes to.
pub fn wal_file_name() -> (r: String)
    ensures
        r@ == "00000001.wal"@,
{
    owned("00000001.wal")
}

/// The message that every request of a failed batch receives.
pub open spec fn wal_failure_message() -> Seq<char> {
    "Failed to safely write to WAL"@
}

// ---------------------------------------------------------------------------
// CRC-32
// ---------------------------------------------------------------------------

/// One bit step of the reflected CRC-32 (IEEE 802.3, polynomial
/// `0xEDB88320`).
pub open spec fn crc32_bit(c: u32) -> u32 {
    if c % 2 == 1 {
        (c / 2) ^ 0xEDB8_8320u32
    } else {
        c / 2
    }
}

/// Eight bit steps: the register after absorbing one byte.
pub open spec fn crc32_byte(c: u32, b: u8) -> u32 {
    let x = c ^ (b as u32);
    crc32_bit(crc32_bit(crc32_bit(crc32_bit(crc32_bit(crc32_bit(crc32_bit(crc32_bit(x))))))))
}

/// The register after absorbing `data` from `c`.
pub open spec fn crc32_update(c: u32, data: Seq<u8>) -> u32
    decreases data.len(),
{
    if data.len() == 0 {
        c
    } else {
        crc32_update(crc32_byte(c, data[0]), data.drop_first())
    }
}

/// The CRC-32 checksum (IEEE 802.3): initial register `0xFFFFFFFF`, final
/// complement.
pub open spec fn crc32(data: Seq<u8>) -> u32 {
    crc32_update(0xFFFF_FFFFu32, data) ^ 0xFFFF_FFFFu32
}

/// `crc32fast::hash`: the CRC-32 (IEEE) checksum of `data`. The contract
/// claims that the crate computes the standard CRC-32 that [`crc32`]
/// defines.
#[verifier::external_body]
fn crc32_hash(data: &[u8]) -> (r: u32)
    ensures
        r == crc32(data@),
{
    crc32fast::hash(data)
}

// ---------------------------------------------------------------------------
// Frame layout
// ---------------------------------------------------------------------------

/// Little-endian bytes of a `u16`.
pub open spec fn u16_le(v: u16) -> Seq<u8> {
    seq![(v % 256) as u8, (v / 256) as u8]
}

/// Little-endian bytes of a `u32`.
pub open spec fn u32_le(v: u32) -> Seq<u8> {
    seq![
        (v % 256) as u8,
        ((v / 256) % 256) as u8,
        ((v / 65536) % 256) as u8,
        (v / 16777216) as u8,
    ]
}

/// The `u16` that two little-endian bytes hold.
pub open spec fn le_u16(b: Seq<u8>) -> u16 {
    (b[0] + 256 * b[1]) as u16
}

/// The `u32` that four little-endian bytes hold.
pub open spec fn le_u32(b: Seq<u8>) -> u32 {
    (b[0] + 256 * b[1] + 65536 * b[2] + 16777216 * b[3]) as u32
}

/// The bytes of one frame. Lengths are written truncated to their field
/// width, as `as u16` and `as u32` do.
pub open spec fn frame_bytes(index: Seq<u8>, payload: Seq<u8>) -> Seq<u8> {
    u16_le(index.len() as u16) + index + u32_le(payload.len() as u32) + payload + u32_le(
        crc32(index + payload),
    )
}

/// The bytes of one event's frame.
pub open spec fn event_frame(e: IngestEvent) -> Seq<u8> {
    frame_bytes(encode_utf8(e.index@), e.payload@)
}

/// The bytes of a batch: its events' frames, in order.
pub open spec fn batch_bytes(events: Seq<IngestEvent>) -> Seq<u8>
    decreases events.len(),
{
    if events.len() == 0 {
        Seq::empty()
    } else {
        batch_bytes(events.drop_last()) + event_frame(events.last())
    }
}

/// Whether an event fits the frame's length fields.
pub open spec fn event_fits(e: IngestEvent) -> bool {
    encode_utf8(e.index@).len() <= u16::MAX && e.payload@.len() <= u32::MAX
}

fn push_u16_le(out: &mut Vec<u8>, v: u16)
    ensures
        final(out)@ == old(out)@ + u16_le(v),
{
    out.push((v % 256) as u8);
    out.push((v / 256) as u8);
    assert(final(out)@ =~= old(out)@ + u16_le(v));
}

fn push_u32_le(out: &mut Vec<u8>, v: u32)
    ensures
        final(out)@ == old(out)@ + u32_le(v),
{
    out.push((v % 256) as u8);
    out.push(((v / 256) % 256) as u8);
    out.push(((v / 65536) % 256) as u8);
    out.push((v / 16777216) as u8);
    assert(final(out)@ =~= old(out)@ + u32_le(v));
}

fn push_bytes(out: &mut Vec<u8>, bytes: &[u8])
    ensures
        final(out)@ == old(out)@ + bytes@,
{
    let mut i: usize = 0;
    while i < bytes.len()
        invariant
            i <= bytes@.len(),
            out@ == old(out)@ + bytes@.take(i as int),
        decreases bytes@.len() - i,
    {
        out.push(bytes[i]);
        assert(bytes@.take(i as int).push(bytes@[i as int]) =~= bytes@.take(i + 1));
        assert(old(out)@ + bytes@.take(i + 1) =~= (old(out)@ + bytes@.take(i as int)).push(
            bytes@[i as int],
        ));
        i = i + 1;
    }
    assert(bytes@.take(bytes@.len() as int) =~= bytes@);
}

/// Appends the frame of one event to `out`.
pub fn append_frame(out: &mut Vec<u8>, event: &IngestEvent)
    ensures
        final(out)@ == old(out)@ + event_frame(*event),
{
    let index_bytes = event.index.as_str().as_bytes();
    let payload = event.payload.as_slice();
    let mut covered: Vec<u8> = Vec::new();
    push_bytes(&mut covered, index_bytes);
    push_bytes(&mut covered, payload);
    assert(covered@ =~= index_bytes@ + payload@);
    let checksum = crc32_hash(covered.as_slice());
    push_u16_le(out, index_bytes.len() as u16);
    push_bytes(out, index_bytes);
    push_u32_le(out, payload.len() as u32);
    push_bytes(out, payload);
    push_u32_le(out, checksum);
    assert(final(out)@ =~= old(out)@ + event_frame(*event));
}

/// The frame of one event.
pub fn encode_frame(event: &IngestEvent) -> (r: Vec<u8>)
    ensures
        r@ == event_frame(*event),
{
    let mut out: Vec<u8> = Vec::new();
    append_frame(&mut out, event);
    assert(out@ =~= event_frame(*event));
    out
}

/// The bytes written for a batch: the frames of its events, in order.
pub fn encode_batch(events: &[IngestEvent]) -> (r: Vec<u8>)
    ensures
        r@ == batch_bytes(events@),
{
    let mut out: Vec<u8> = Vec::new();
    let mut i: usize = 0;
    while i < events.len()
        invariant
            i <= events@.len(),
            out@ == batch_bytes(events@.take(i as int)),
        decreases events@.len() - i,
    {
        append_frame(&mut out, &events[i]);
        assert(events@.take(i + 1).drop_last() =~= events@.take(i as int));
        i = i + 1;
    }
    assert(events@.take(events@.len() as int) =~= events@);
    out
}

// ---------------------------------------------------------------------------
// Reading frames back
// ---------------------------------------------------------------------------

/// Why a frame could not be read.
#[derive(Debug, Clone, Copy, PartialEq, Eq, Structural)]
pub enum WalFrameError {
    /// The bytes end inside the frame.
    Truncated,
    /// The stored checksum does not match the index and payload bytes.
    ChecksumMismatch,
    /// The index name is not valid UTF-8.
    InvalidIndexName,
}

/// A frame read back: the index name, the payload and the number of bytes
/// the frame takes.
pub struct DecodedFrame {
    pub index: Seq<char>,
    pub payload: Seq<u8>,
    pub len: nat,
}

/// What reading one frame from the start of `b` gives.
pub open spec fn decode_frame_spec(b: Seq<u8>) -> Result<DecodedFrame, WalFrameError> {
    if b.len() < 2 {
        Err(WalFrameError::Truncated)
    } else {
        let il = le_u16(b.subrange(0, 2)) as int;
        if b.len() < 2 + il + 4 {
            Err(WalFrameError::Truncated)
        } else {
            let index = b.subrange(2, 2 + il);
            let pl = le_u32(b.subrange(2 + il, 6 + il)) as int;
            if b.len() < 6 + il + pl + 4 {
                Err(WalFrameError::Truncated)
            } else {
                let payload = b.subrange(6 + il, 6 + il + pl);
                let crc = le_u32(b.subrange(6 + il + pl, 10 + il + pl));
                if crc != crc32(index + payload) {
                    Err(WalFrameError::ChecksumMismatch)
                } else if !valid_utf8(index) {
                    Err(WalFrameError::InvalidIndexName)
                } else {
                    Ok(DecodedFrame { index: decode_utf8(index), payload, len: (10 + il + pl) as nat })
                }
            }
        }
    }
}

/// `String::from_utf8`: the string that the bytes encode, when they are
/// valid UTF-8 (as the standard library documents).
#[verifier::external_body]
fn string_from_utf8(bytes: Vec<u8>) -> (r: Option<String>)
    ensures
        r is Some <==> valid_utf8(bytes@),
        r matches Some(s) ==> s@ == decode_utf8(bytes@),
{
    String::from_utf8(bytes).ok()
}

fn read_u16_le(b: &[u8], at: usize) -> (r: u16)
    requires
        at + 2 <= b@.len(),
    ensures
        r == le_u16(b@.subrange(at as int, at + 2)),
{
    let v = (b[at] as u16) + 256 * (b[at + 1] as u16);
    assert(b@.subrange(at as int, at + 2)[0] == b@[at as int]);
    assert(b@.subrange(at as int, at + 2)[1] == b@[at + 1]);
    v
}

fn read_u32_le(b: &[u8], at: usize) -> (r: u32)
    requires
        at + 4 <= b@.len(),
    ensures
        r == le_u32(b@.subrange(at as int, at + 4)),
{
    let v = (b[at] as u32) + 256 * (b[at + 1] as u32) + 65536 * (b[at + 2] as u32) + 16777216 * (
    b[at + 3] as u32);
    let ghost s = b@.subrange(at as int, at + 4);
    assert(s[0] == b@[at as int] && s[1] == b@[at + 1] && s[2] == b@[at + 2] && s[3] == b@[at
        + 3]);
    v
}

fn copy_range(b: &[u8], from: usize, to: usize) -> (r: Vec<u8>)
    requires
        from <= to <= b@.len(),
    ensures
        r@ == b@.subrange(from as int, to as int),
{
    let mut out: Vec<u8> = Vec::new();
    let mut i: usize = from;
    while i < to
        invariant
            from <= i <= to <= b@.len(),
            out@ == b@.subrange(from as int, i as int),
        decreases to - i,
    {
        out.push(b[i]);
        assert(b@.subrange(from as int, i as int).push(b@[i as int]) =~= b@.subrange(
            from as int,
            i + 1,
        ));
        i = i + 1;
    }
    out
}

/// Reads the frame that starts at `at`; returns the event and the position
/// after the frame.
pub fn decode_frame(b: &[u8], at: usize) -> (r: Result<(IngestEvent, usize), WalFrameError>)
    requires
        at <= b@.len(),
    ensures
        match decode_frame_spec(b@.subrange(at as int, b@.len() as int)) {
            Ok(f) => r matches Ok((e, next)) && e.index@ == f.index && e.payload@ == f.payload
                && next == at + f.len,
            Err(err) => r == Err::<(IngestEvent, usize), WalFrameError>(err),
        },
{
    let ghost rest = b@.subrange(at as int, b@.len() as int);
    let n = b.len();
    if n - at < 2 {
        return Err(WalFrameError::Truncated);
    }
    let il = read_u16_le(b, at) as usize;
    assert(b@.subrange(at as int, at + 2) =~= rest.subrange(0, 2));
    if n - at - 2 < il + 4 {
        return Err(WalFrameError::Truncated);
    }
    let pl = read_u32_le(b, at + 2 + il) as usize;
    assert(b@.subrange(at + 2 + il, at + 2 + il + 4) =~= rest.subrange(2 + il, 6 + il));
    let avail = n - at - 6 - il;
    if avail < pl || avail - pl < 4 {
        return Err(WalFrameError::Truncated);
    }
    let index = copy_range(b, at + 2, at + 2 + il);
    let payload = copy_range(b, at + 6 + il, at + 6 + il + pl);
    let stored = read_u32_le(b, at + 6 + il + pl);
    assert(index@ =~= rest.subrange(2, 2 + il));
    assert(payload@ =~= rest.subrange(6 + il, 6 + il + pl));
    assert(b@.subrange(at + 6 + il + pl, at + 6 + il + pl + 4) =~= rest.subrange(
        6 + il + pl,
        10 + il + pl,
    ));
    let mut covered: Vec<u8> = Vec::new();
    push_bytes(&mut covered, index.as_slice());
    push_bytes(&mut covered, payload.as_slice());
    if stored != crc32_hash(covered.as_slice()) {
        return Err(WalFrameError::ChecksumMismatch);
    }
    match string_from_utf8(index) {
        Some(name) => Ok((IngestEvent { index: name, payload }, at + 10 + il + pl)),
        None => Err(WalFrameError::InvalidIndexName),
    }
}

/// What reading consecutive frames from `b` until its end gives: the
/// events' index names and payloads, or the first error.
pub open spec fn decode_all_spec(b: Seq<u8>) -> Result<Seq<(Seq<char>, Seq<u8>)>, WalFrameError>
    decreases b.len(),
{
    if b.len() == 0 {
        Ok(Seq::empty())
    } else {
        match decode_frame_spec(b) {
            Err(e) => Err(e),
            Ok(f) => if f.len == 0 || f.len > b.len() {
                Err(WalFrameError::Truncated)
            } else {
                match decode_all_spec(b.subrange(f.len as int, b.len() as int)) {
                    Err(e) => Err(e),
                    Ok(rest) => Ok(seq![(f.index, f.payload)] + rest),
                }
            },
        }
    }
}

proof fn lemma_decoded_len(b: Seq<u8>)
    ensures
        decode_frame_spec(b) matches Ok(f) ==> 10 <= f.len <= b.len(),
{
}

/// Reads every frame of a WAL segment, in order; fails on the first frame
/// that is truncated, corrupted or unreadable.
pub fn decode_all(b: &[u8]) -> (r: Result<Vec<IngestEvent>, WalFrameError>)
    ensures
        match decode_all_spec(b@) {
            Ok(s) => r matches Ok(v) && v@.len() == s.len() && forall|i: int|
                0 <= i < s.len() ==> (#[trigger] v@[i]).index@ == s[i].0 && v@[i].payload@
                    == s[i].1,
            Err(e) => r == Err::<Vec<IngestEvent>, WalFrameError>(e),
        },
{
    let mut out: Vec<IngestEvent> = Vec::new();
    let mut at: usize = 0;
    let ghost done: Seq<(Seq<char>, Seq<u8>)> = Seq::empty();
    proof {
        assert(b@.subrange(0, b@.len() as int) =~= b@);
        if let Ok(t) = decode_all_spec(b@) {
            assert(done + t =~= t);
        }
    }
    while at < b.len()
        invariant
            at <= b@.len(),
            out@.len() == done.len(),
            forall|i: int|
                0 <= i < done.len() ==> (#[trigger] out@[i]).index@ == done[i].0
                    && out@[i].payload@ == done[i].1,
            decode_all_spec(b@) == match decode_all_spec(b@.subrange(at as int, b@.len() as int)) {
                Err(e) => Err(e),
                Ok(rest) => Ok(done + rest),
            },
        decreases b@.len() - at,
    {
        let ghost rest = b@.subrange(at as int, b@.len() as int);
        proof {
            lemma_decoded_len(rest);
        }
        match decode_frame(b, at) {
            Err(e) => {
                return Err(e);
            },
            Ok((e, next)) => {
                proof {
                    let f = decode_frame_spec(rest).unwrap();
                    assert(rest.subrange(f.len as int, rest.len() as int) =~= b@.subrange(
                        next as int,
                        b@.len() as int,
                    ));
                    let tail = decode_all_spec(b@.subrange(next as int, b@.len() as int));
                    if let Ok(t) = tail {
                        assert(done + (seq![(f.index, f.payload)] + t) =~= done.push(
                            (f.index, f.payload),
                        ) + t);
                    }
                    done = done.push((f.index, f.payload));
                }
                out.push(e);
                at = next;
            },
        }
    }
    proof {
        assert(b@.subrange(at as int, b@.len() as int) =~= Seq::<u8>::empty());
        assert(done + Seq::<(Seq<char>, Seq<u8>)>::empty() =~= done);
    }
    Ok(out)
}

// ---------------------------------------------------------------------------
// Laws of the format
// ---------------------------------------------------------------------------

proof fn lemma_u16_le_round_trip(v: u16)
    ensures
        u16_le(v).len() == 2,
        le_u16(u16_le(v)) == v,
{
}

proof fn lemma_u32_le_round_trip(v: u32)
    ensures
        u32_le(v).len() == 4,
        le_u32(u32_le(v)) == v,
{
}

/// Law: a frame reads back as the index name and payload that were
/// written, followed by whatever comes after it, provided the name and
/// payload fit the frame's length fields.
pub proof fn law_frame_round_trip(index: Seq<char>, payload: Seq<u8>, rest: Seq<u8>)
    requires
        encode_utf8(index).len() <= u16::MAX,
        payload.len() <= u32::MAX,
    ensures
        decode_frame_spec(frame_bytes(encode_utf8(index), payload) + rest) == Ok::<
            DecodedFrame,
            WalFrameError,
        >(
            DecodedFrame {
                index,
                payload,
                len: (10 + encode_utf8(index).len() + payload.len()) as nat,
            },
        ),
        frame_bytes(encode_utf8(index), payload).len() == 10 + encode_utf8(index).len()
            + payload.len(),
{
    let ib = encode_utf8(index);
    let il = ib.len() as int;
    let pl = payload.len() as int;
    let b = frame_bytes(ib, payload) + rest;
    lemma_u16_le_round_trip(il as u16);
    lemma_u32_le_round_trip(pl as u32);
    lemma_u32_le_round_trip(crc32(ib + payload));
    assert(b.subrange(0, 2) =~= u16_le(il as u16));
    assert(b.subrange(2, 2 + il) =~= ib);
    assert(b.subrange(2 + il, 6 + il) =~= u32_le(pl as u32));
    assert(b.subrange(6 + il, 6 + il + pl) =~= payload);
    assert(b.subrange(6 + il + pl, 10 + il + pl) =~= u32_le(crc32(ib + payload)));
    encode_utf8_valid_utf8(index);
    encode_utf8_decode_utf8(index);
}

/// A batch's bytes are its first frame followed by the bytes of the rest.
proof fn lemma_batch_bytes_front(events: Seq<IngestEvent>)
    requires
        events.len() > 0,
    ensures
        batch_bytes(events) == event_frame(events[0]) + batch_bytes(events.drop_first()),
    decreases events.len(),
{
    if events.len() == 1 {
        assert(events.drop_last() =~= Seq::<IngestEvent>::empty());
        assert(events.drop_first() =~= Seq::<IngestEvent>::empty());
        assert(batch_bytes(events.drop_first()) =~= Seq::<u8>::empty());
        assert(event_frame(events[0]) + Seq::<u8>::empty() =~= event_frame(events[0]));
        assert(Seq::<u8>::empty() + event_frame(events[0]) =~= event_frame(events[0]));
    } else {
        lemma_batch_bytes_front(events.drop_last());
        assert(events.drop_last()[0] == events[0]);
        assert(events.drop_last().drop_first() =~= events.drop_first().drop_last());
        assert(events.drop_first().last() == events.last());
        assert(batch_bytes(events) =~= event_frame(events[0]) + batch_bytes(events.drop_first()));
    }
}

/// The names and payloads of a sequence of events.
pub open spec fn event_contents(events: Seq<IngestEvent>) -> Seq<(Seq<char>, Seq<u8>)> {
    Seq::new(events.len(), |i: int| (events[i].index@, events[i].payload@))
}

/// Law: the bytes written for a batch read back, frame by frame, as exactly
/// the batch's events (names and payloads), in order, provided each event
/// fits the frame's length fields.
pub proof fn law_batch_round_trip(events: Seq<IngestEvent>)
    requires
        forall|i: int| 0 <= i < events.len() ==> event_fits(#[trigger] events[i]),
    ensures
        decode_all_spec(batch_bytes(events)) == Ok::<Seq<(Seq<char>, Seq<u8>)>, WalFrameError>(
            event_contents(events),
        ),
    decreases events.len(),
{
    if events.len() == 0 {
        assert(event_contents(events) =~= Seq::<(Seq<char>, Seq<u8>)>::empty());
    } else {
        let e = events[0];
        let tail = events.drop_first();
        assert forall|i: int| 0 <= i < tail.len() implies event_fits(#[trigger] tail[i]) by {
            assert(tail[i] == events[i + 1]);
        }
        law_batch_round_trip(tail);
        lemma_batch_bytes_front(events);
        assert(event_fits(events[0]));
        let rest = batch_bytes(tail);
        law_frame_round_trip(e.index@, e.payload@, rest);
        let b = batch_bytes(events);
        let f = decode_frame_spec(b).unwrap();
        assert(b.subrange(f.len as int, b.len() as int) =~= rest);
        assert(event_contents(events) =~= seq![(e.index@, e.payload@)] + event_contents(tail));
    }
}

// ---------------------------------------------------------------------------
// Batching
// ---------------------------------------------------------------------------

/// Whether a batch has reached the size at which the appender stops
/// draining the queue and writes.
pub fn wal_batch_is_full(len: usize) -> (r: bool)
    ensures
        r == (len >= MAX_WAL_BATCH),
{
    len >= MAX_WAL_BATCH
}

/// What every request of a batch is answered: success when the batch was
/// written, flushed and synced, otherwise the WAL failure message.
pub fn wal_batch_reply(batch_success: bool) -> (r: Result<(), String>)
    ensures
        batch_success ==> r is Ok,
        !batch_success ==> (r matches Err(m) && m@ == wal_failure_message()),
{
    if batch_success {
        Ok(())
    } else {
        Err(owned("Failed to safely write to WAL"))
    }
}

} // verus!
