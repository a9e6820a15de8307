//! Locating comment packets in a byte buffer by their signatures.

use vstd::prelude::*;

verus! {

/// Type byte of an initial metadata packet.
pub const INITIAL_PACKET: u8 = 0x01;

/// Type byte of a metadata-update packet.
pub const UPDATE_PACKET: u8 = 0x03;

/// The six ASCII bytes `vorbis`.
pub open spec fn tag_bytes() -> Seq<u8> {
    seq![0x76u8, 0x6Fu8, 0x72u8, 0x62u8, 0x69u8, 0x73u8]
}

/// The six bytes at `at` spell `vorbis`.
pub open spec fn tag_at(buffer: Seq<u8>, at: int) -> bool {
    &&& 0 <= at
    &&& at + 6 <= buffer.len()
    &&& buffer.subrange(at, at + 6) == tag_bytes()
}

/// A signature of the given type ends so that its tag starts at `offset`:
/// the type byte stands just before `offset`, the tag at it.
pub open spec fn signature_before(buffer: Seq<u8>, offset: int, kind: u8) -> bool {
    &&& 1 <= offset
    &&& buffer[offset - 1] == kind
    &&& tag_at(buffer, offset)
}

/// `offset` is one that the scanner reports on this buffer.
pub open spec fn is_packet_start(buffer: Seq<u8>, offset: int) -> bool {
    signature_before(buffer, offset, INITIAL_PACKET) || signature_before(
        buffer,
        offset,
        UPDATE_PACKET,
    )
}

/// The offsets up to `limit` before which a signature of the given type
/// stands, in ascending order.
pub open spec fn offsets_upto(buffer: Seq<u8>, kind: u8, limit: int) -> Seq<usize>
    decreases limit,
{
    if limit <= 0 {
        Seq::<usize>::empty()
    } else if signature_before(buffer, limit, kind) {
        offsets_upto(buffer, kind, limit - 1).push(limit as usize)
    } else {
        offsets_upto(buffer, kind, limit - 1)
    }
}

/// Every offset that the scanner reports: those of initial packets in
/// ascending order, then those of update packets in ascending order.
pub open spec fn packet_starts(buffer: Seq<u8>) -> Seq<usize> {
    offsets_upto(buffer, INITIAL_PACKET, buffer.len() as int) + offsets_upto(
        buffer,
        UPDATE_PACKET,
        buffer.len() as int,
    )
}

/// What `offsets_upto` holds: exactly the offsets up to `limit` with a
/// signature of that type before them, each once, ascending.
pub proof fn lemma_offsets_upto(buffer: Seq<u8>, kind: u8, limit: int)
    requires
        limit <= buffer.len() <= usize::MAX,
    ensures
        forall|offset: int|
            (1 <= offset <= limit && signature_before(buffer, offset, kind)) <==> (0 <= offset
                <= usize::MAX && #[trigger] offsets_upto(buffer, kind, limit).contains(
                offset as usize,
            )),
        forall|i: int, j: int|
            0 <= i < j < offsets_upto(buffer, kind, limit).len() ==> offsets_upto(
                buffer,
                kind,
                limit,
            )[i] < offsets_upto(buffer, kind, limit)[j],
        forall|i: int|
            0 <= i < offsets_upto(buffer, kind, limit).len() ==> 1 <= #[trigger] offsets_upto(
                buffer,
                kind,
                limit,
            )[i] <= limit,
    decreases limit,
{
    if limit > 0 {
        lemma_offsets_upto(buffer, kind, limit - 1);
        let before = offsets_upto(buffer, kind, limit - 1);
        let now = offsets_upto(buffer, kind, limit);
        if signature_before(buffer, limit, kind) {
            assert(now == before.push(limit as usize));
            assert(now[now.len() - 1] == limit as usize);
            assert forall|offset: int|
                (1 <= offset <= limit && signature_before(buffer, offset, kind)) <==> (0 <= offset
                    <= usize::MAX && #[trigger] now.contains(offset as usize)) by {
                if 1 <= offset <= limit && signature_before(buffer, offset, kind) {
                    if offset == limit {
                        assert(now[now.len() - 1] == offset as usize);
                    } else {
                        assert(before.contains(offset as usize));
                        let k = choose|k: int| 0 <= k < before.len() && before[k] == offset as usize;
                        assert(now[k] == offset as usize);
                    }
                }
                if 0 <= offset <= usize::MAX && now.contains(offset as usize) {
                    let k = choose|k: int| 0 <= k < now.len() && now[k] == offset as usize;
                    if k < before.len() {
                        assert(before[k] == offset as usize);
                        assert(before.contains(offset as usize));
                    }
                }
            }
        }
    }
}

/// The six bytes at `at` are the tag.
pub(crate) fn has_tag(buffer: &[u8], at: usize) -> (found: bool)
    requires
        at + 6 <= buffer@.len(),
    ensures
        found == tag_at(buffer@, at as int),
{
    let found = buffer[at] == 0x76 && buffer[at + 1] == 0x6F && buffer[at + 2] == 0x72 && buffer[at
        + 3] == 0x62 && buffer[at + 4] == 0x69 && buffer[at + 5] == 0x73;
    proof {
        let window = buffer@.subrange(at as int, at + 6);
        if found {
            assert(window =~= tag_bytes());
        } else {
            assert(window[0] == buffer@[at as int]);
            assert(window[1] == buffer@[at + 1]);
            assert(window[2] == buffer@[at + 2]);
            assert(window[3] == buffer@[at + 3]);
            assert(window[4] == buffer@[at + 4]);
            assert(window[5] == buffer@[at + 5]);
            assert(tag_bytes()[0] == 0x76u8 && tag_bytes()[1] == 0x6Fu8 && tag_bytes()[2] == 0x72u8
                && tag_bytes()[3] == 0x62u8 && tag_bytes()[4] == 0x69u8 && tag_bytes()[5] == 0x73u8);
        }
    }
    found
}

/// Appends to `positions` the offsets of all signatures of one type.
fn collect_offsets(buffer: &[u8], kind: u8, positions: &mut Vec<usize>)
    ensures
        final(positions)@ == old(positions)@ + offsets_upto(buffer@, kind, buffer@.len() as int),
{
    let n: usize = buffer.len();
    let mut offset: usize = 1;
    proof {
        assert(offsets_upto(buffer@, kind, 0) == Seq::<usize>::empty());
        assert(old(positions)@ + Seq::<usize>::empty() =~= old(positions)@);
    }
    if n == 0 {
        return ;
    }
    while offset < n
        invariant
            n == buffer@.len(),
            1 <= offset <= n,
            positions@ == old(positions)@ + offsets_upto(buffer@, kind, offset as int - 1),
        decreases n - offset,
    {
        if n - offset >= 6 && buffer[offset - 1] == kind && has_tag(buffer, offset) {
            positions.push(offset);
            proof {
                assert(signature_before(buffer@, offset as int, kind));
                assert(positions@ =~= old(positions)@ + offsets_upto(
                    buffer@,
                    kind,
                    offset as int,
                ));
            }
        } else {
            proof {
                assert(!signature_before(buffer@, offset as int, kind));
            }
        }
        offset = offset + 1;
    }
    proof {
        assert(!signature_before(buffer@, n as int, kind));
    }
}

/// Scans the whole buffer for both signatures and returns, for every match,
/// the offset just after its type byte, where the tag begins.
pub fn find_vorbis_comment_start(buffer: &[u8]) -> (positions: Vec<usize>)
    ensures
        positions@ == packet_starts(buffer@),
        forall|offset: int|
            is_packet_start(buffer@, offset) <==> (0 <= offset <= usize::MAX
                && #[trigger] positions@.contains(offset as usize)),
        forall|i: int|
            0 <= i < positions@.len() ==> 1 <= #[trigger] positions@[i] && positions@[i] + 6
                <= buffer@.len(),
{
    let n: usize = buffer.len();
    let mut positions: Vec<usize> = Vec::new();
    collect_offsets(buffer, INITIAL_PACKET, &mut positions);
    collect_offsets(buffer, UPDATE_PACKET, &mut positions);
    proof {
        assert(positions@ =~= packet_starts(buffer@));
        lemma_packet_starts(buffer@);
    }
    positions
}

/// The scanner reports an offset exactly when one of the two signatures
/// stands before it, and every reported offset has its tag inside the
/// buffer.
pub proof fn lemma_packet_starts(buffer: Seq<u8>)
    requires
        buffer.len() <= usize::MAX,
    ensures
        forall|offset: int|
            is_packet_start(buffer, offset) <==> (0 <= offset <= usize::MAX
                && #[trigger] packet_starts(buffer).contains(offset as usize)),
        forall|i: int|
            0 <= i < packet_starts(buffer).len() ==> 1 <= #[trigger] packet_starts(buffer)[i]
                && packet_starts(buffer)[i] + 6 <= buffer.len(),
{
    let n = buffer.len() as int;
    let first = offsets_upto(buffer, INITIAL_PACKET, n);
    let second = offsets_upto(buffer, UPDATE_PACKET, n);
    let all = packet_starts(buffer);
    lemma_offsets_upto(buffer, INITIAL_PACKET, n);
    lemma_offsets_upto(buffer, UPDATE_PACKET, n);
    assert forall|offset: int|
        is_packet_start(buffer, offset) <==> (0 <= offset <= usize::MAX && #[trigger] all.contains(
            offset as usize,
        )) by {
        if signature_before(buffer, offset, INITIAL_PACKET) {
            assert(first.contains(offset as usize));
            let k = choose|k: int| 0 <= k < first.len() && first[k] == offset as usize;
            assert(all[k] == offset as usize);
        }
        if signature_before(buffer, offset, UPDATE_PACKET) {
            assert(second.contains(offset as usize));
            let k = choose|k: int| 0 <= k < second.len() && second[k] == offset as usize;
            assert(all[first.len() + k] == offset as usize);
        }
        if 0 <= offset <= usize::MAX && all.contains(offset as usize) {
            let k = choose|k: int| 0 <= k < all.len() && all[k] == offset as usize;
            if k < first.len() {
                assert(first[k] == offset as usize);
                assert(first.contains(offset as usize));
            } else {
                assert(second[k - first.len()] == offset as usize);
                assert(second.contains(offset as usize));
            }
        }
    }
    assert forall|i: int| 0 <= i < all.len() implies 1 <= #[trigger] all[i] && all[i] + 6
        <= buffer.len() by {
        let offset = all[i] as int;
        assert(all.contains(offset as usize));
        assert(is_packet_start(buffer, offset));
    }
}

} // verus!
