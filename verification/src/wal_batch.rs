//! What the WAL appender reports per batch: the replies its requests get,
//! and the WAL offset after each of its events.
use vstd::prelude::*;
use vstd::utf8::encode_utf8;

use crate::wal::{batch_bytes, event_frame, wal_batch_reply, wal_failure_message, IngestEvent};

verus! {

/// The replies to a batch of `n` requests: every request gets the same
/// reply, the one [`wal_batch_reply`] gives for the batch's outcome.
pub fn wal_batch_replies(n: usize, batch_success: bool) -> (r: Vec<Result<(), String>>)
    ensures
        r@.len() == n,
        forall|i: int|
            0 <= i < n ==> (batch_success ==> (#[trigger] r@[i]) is Ok) && (!batch_success
                ==> (r@[i] matches Err(m) && m@ == wal_failure_message())),
{
    let mut out: Vec<Result<(), String>> = Vec::new();
    let mut i: usize = 0;
    while i < n
        invariant
            i <= n,
            out@.len() == i,
            forall|j: int|
                0 <= j < i ==> (batch_success ==> (#[trigger] out@[j]) is Ok) && (!batch_success
                    ==> (out@[j] matches Err(m) && m@ == wal_failure_message())),
        decreases n - i,
    {
        out.push(wal_batch_reply(batch_success));
        i = i + 1;
    }
    out
}

/// The WAL offset after each event of a batch written from `start`.
pub open spec fn frame_ends(start: u64, events: Seq<IngestEvent>) -> Seq<int> {
    Seq::new(events.len(), |i: int| start + batch_bytes(events.take(i + 1)).len())
}

proof fn lemma_event_frame_len(e: IngestEvent)
    ensures
        event_frame(e).len() == 10 + encode_utf8(e.index@).len() + e.payload@.len(),
{
}

proof fn lemma_batch_len_prefix(events: Seq<IngestEvent>, i: int)
    requires
        0 <= i <= events.len(),
    ensures
        batch_bytes(events.take(i)).len() <= batch_bytes(events).len(),
    decreases events.len(),
{
    if i < events.len() {
        assert(events.drop_last().take(i) =~= events.take(i));
        lemma_batch_len_prefix(events.drop_last(), i);
    } else {
        assert(events.take(i) =~= events);
    }
}

/// The WAL offsets after each event of a batch written from `start`, or
/// `None` when the end of the batch does not fit a `u64`.
pub fn frame_end_offsets(start: u64, events: &[IngestEvent]) -> (r: Option<Vec<u64>>)
    ensures
        r is None <==> start + batch_bytes(events@).len() > u64::MAX,
        r matches Some(v) ==> v@.len() == events@.len() && forall|i: int|
            0 <= i < v@.len() ==> #[trigger] v@[i] == frame_ends(start, events@)[i],
{
    let mut out: Vec<u64> = Vec::new();
    let mut acc: u64 = start;
    let mut i: usize = 0;
    while i < events.len()
        invariant
            i <= events@.len(),
            acc == start + batch_bytes(events@.take(i as int)).len(),
            out@.len() == i,
            forall|j: int| 0 <= j < i ==> #[trigger] out@[j] == frame_ends(start, events@)[j],
        decreases events@.len() - i,
    {
        let e = &events[i];
        let len_index = e.index.as_str().as_bytes().len();
        let len_payload = e.payload.len();
        proof {
            lemma_event_frame_len(*e);
            assert(events@.take(i + 1).drop_last() =~= events@.take(i as int));
            assert(events@.take(i + 1).last() == events@[i as int]);
            lemma_batch_len_prefix(events@, i + 1);
        }
        let next: u128 = acc as u128 + 10 + len_index as u128 + len_payload as u128;
        if next > u64::MAX as u128 {
            return None;
        }
        acc = next as u64;
        out.push(acc);
        i = i + 1;
    }
    proof {
        assert(events@.take(i as int) =~= events@);
    }
    Some(out)
}

} // verus!
