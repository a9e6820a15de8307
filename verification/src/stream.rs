//! One pass over the accumulated bytes: scan, decode, gate, and keep the
//! trailing window for the next pass.

use vstd::prelude::*;
use vstd::slice::*;
use crate::gate::{emits, offered, DedupRateLimiter, GateView};
use crate::packet::{has_header, packet_comments, parse_vorbis_metadata};
use crate::record::{any_change, complete, fresh, merged, rendered, MetadataView, StreamMetadata};
use crate::scan::{find_vorbis_comment_start, is_packet_start, packet_starts};

verus! {

/// The number of trailing bytes that are kept between two passes.
pub const WINDOW: usize = 16384;

/// Where the kept tail of a buffer of this length starts.
pub open spec fn tail_start(len: int) -> int {
    if len > WINDOW {
        len - WINDOW
    } else {
        0
    }
}

/// The trailing window of a buffer: all of it where it is no longer than
/// the window.
pub open spec fn retained(buffer: Seq<u8>) -> Seq<u8> {
    buffer.subrange(tail_start(buffer.len() as int), buffer.len() as int)
}

/// The record that the packet at `offset` yields at time `now_ms`, where it
/// changes anything and makes the record complete.
pub open spec fn candidate(buffer: Seq<u8>, offset: int, now_ms: u64) -> Option<MetadataView> {
    let input = buffer.subrange(offset, buffer.len() as int);
    let record = merged(fresh(now_ms), packet_comments(input), now_ms);
    if has_header(input) && any_change(fresh(now_ms), packet_comments(input), now_ms) && complete(
        record,
    ) {
        Some(record)
    } else {
        None
    }
}

/// The records announced, and the policy's state, after the packets at
/// these offsets were offered in order at time `now_ms`.
pub open spec fn sifted(buffer: Seq<u8>, offsets: Seq<usize>, gate: GateView, now_ms: u64) -> (
    Seq<MetadataView>,
    GateView,
)
    decreases offsets.len(),
{
    if offsets.len() == 0 {
        (Seq::empty(), gate)
    } else {
        let (announced, state) = sifted(buffer, offsets.drop_last(), gate, now_ms);
        match candidate(buffer, offsets.last() as int, now_ms) {
            Some(record) => if emits(state, rendered(record), now_ms) {
                (announced.push(record), offered(state, rendered(record), now_ms))
            } else {
                (announced, state)
            },
            None => (announced, state),
        }
    }
}

/// The records as values.
pub open spec fn records_of(records: Seq<StreamMetadata>) -> Seq<MetadataView> {
    Seq::new(records.len(), |i: int| records[i]@)
}

/// A packet that starts in the kept tail has all its bytes there: what
/// follows its start in the tail is what followed it in the buffer.
pub proof fn law_tail_keeps_packet(buffer: Seq<u8>, offset: int)
    requires
        tail_start(buffer.len() as int) <= offset <= buffer.len(),
    ensures
        retained(buffer).subrange(
            offset - tail_start(buffer.len() as int),
            retained(buffer).len() as int,
        ) == buffer.subrange(offset, buffer.len() as int),
        forall|now_ms: u64|
            candidate(retained(buffer), offset - tail_start(buffer.len() as int), now_ms)
                == #[trigger] candidate(buffer, offset, now_ms),
{
    let cut = tail_start(buffer.len() as int);
    assert(retained(buffer).subrange(offset - cut, retained(buffer).len() as int)
        =~= buffer.subrange(offset, buffer.len() as int));
}

/// The scanner reports an offset in the kept tail exactly when it reported
/// the same place in the buffer and the signature lies in the tail: no
/// packet of the discarded prefix is reported again, and none of the tail
/// is lost.
pub proof fn law_tail_reports(buffer: Seq<u8>, offset: int)
    ensures
        is_packet_start(retained(buffer), offset) <==> (offset >= 1 && is_packet_start(
            buffer,
            offset + tail_start(buffer.len() as int),
        )),
{
    let cut = tail_start(buffer.len() as int);
    let tail = retained(buffer);
    if 1 <= offset && offset + 6 <= tail.len() {
        assert(tail.subrange(offset, offset + 6) =~= buffer.subrange(offset + cut, offset + cut + 6));
        assert(tail[offset - 1] == buffer[offset + cut - 1]);
    }
}

/// Cuts the buffer down to its trailing window.
pub fn retain_tail(buffer: &mut Vec<u8>)
    ensures
        final(buffer)@ == retained(old(buffer)@),
{
    let n: usize = buffer.len();
    if n > WINDOW {
        let tail = buffer.split_off(n - WINDOW);
        *buffer = tail;
    } else {
        proof {
            assert(buffer@.subrange(0, n as int) =~= buffer@);
        }
    }
}

/// Offers the packet at `offset`, if it yields a complete and changed
/// record, to the policy, and appends the record to `announced` if it is to
/// be published.
fn offer_packet(
    buffer: &[u8],
    offset: usize,
    gate: &mut DedupRateLimiter,
    announced: &mut Vec<StreamMetadata>,
    now_ms: u64,
)
    requires
        offset <= buffer@.len(),
    ensures
        old(gate).wf() ==> final(gate).wf(),
        (records_of(final(announced)@), final(gate)@) == (match candidate(
            buffer@,
            offset as int,
            now_ms,
        ) {
            Some(record) => if emits(old(gate)@, rendered(record), now_ms) {
                (
                    records_of(old(announced)@).push(record),
                    offered(old(gate)@, rendered(record), now_ms),
                )
            } else {
                (records_of(old(announced)@), old(gate)@)
            },
            None => (records_of(old(announced)@), old(gate)@),
        }),
{
    let input = slice_subrange(buffer, offset, buffer.len());
    if let Some(record) = parse_vorbis_metadata(input, now_ms) {
        if record.is_complete() {
            let rendering = record.display();
            if gate.offer(rendering.as_str(), now_ms) {
                let ghost before = records_of(announced@);
                announced.push(record);
                proof {
                    assert(records_of(announced@) =~= before.push(record@));
                }
            }
        }
    }
}

/// One pass: appends `chunk` to the buffer, offers the packet at every
/// offset that the scanner reports to the policy, in the scanner's order,
/// and cuts the buffer down to its trailing window. Returns the records to
/// publish, in order.
pub fn absorb(
    buffer: &mut Vec<u8>,
    gate: &mut DedupRateLimiter,
    chunk: &[u8],
    now_ms: u64,
) -> (announced: Vec<StreamMetadata>)
    ensures
        old(gate).wf() ==> final(gate).wf(),
        final(buffer)@ == retained(old(buffer)@ + chunk@),
        (records_of(announced@), final(gate)@) == sifted(
            old(buffer)@ + chunk@,
            packet_starts(old(buffer)@ + chunk@),
            old(gate)@,
            now_ms,
        ),
{
    buffer.extend_from_slice(chunk);
    proof {
        assert(buffer@ =~= old(buffer)@ + chunk@);
    }
    let positions = find_vorbis_comment_start(buffer.as_slice());
    let mut announced: Vec<StreamMetadata> = Vec::new();
    let n: usize = positions.len();
    let mut i: usize = 0;
    proof {
        assert(positions@.subrange(0, 0) =~= Seq::empty());
        assert(records_of(announced@) =~= Seq::empty());
    }
    while i < n
        invariant
            i <= n,
            n == positions@.len(),
            buffer@ == old(buffer)@ + chunk@,
            positions@ == packet_starts(buffer@),
            forall|k: int|
                0 <= k < positions@.len() ==> 1 <= #[trigger] positions@[k] && positions@[k] + 6
                    <= buffer@.len(),
            old(gate).wf() ==> gate.wf(),
            (records_of(announced@), gate@) == sifted(
                buffer@,
                positions@.subrange(0, i as int),
                old(gate)@,
                now_ms,
            ),
        decreases n - i,
    {
        proof {
            assert(positions@.subrange(0, i + 1).drop_last() =~= positions@.subrange(0, i as int));
            assert(positions@.subrange(0, i + 1).last() == positions@[i as int]);
        }
        offer_packet(buffer.as_slice(), positions[i], gate, &mut announced, now_ms);
        i = i + 1;
    }
    proof {
        assert(positions@.subrange(0, n as int) =~= positions@);
    }
    retain_tail(buffer);
    announced
}

} // verus!
