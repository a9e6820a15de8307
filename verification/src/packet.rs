//! Decoding of one comment packet: the tag, the vendor string, the comment
//! count and the length-prefixed comments.

use vstd::prelude::*;
use vstd::slice::*;
use crate::record::{
    any_change, entries_of, fresh, merged, Entry, StreamMetadata,
};
use crate::scan::tag_at;
use crate::text::{comment_pair, decode_lossy, split_comment, utf8_lossy};

verus! {

/// The little-endian number in the four bytes at `at`.
pub open spec fn le_u32(bytes: Seq<u8>, at: int) -> int {
    bytes[at] + 256 * bytes[at + 1] + 65536 * bytes[at + 2] + 16777216 * bytes[at + 3]
}

/// Four bytes stand at `at`.
pub open spec fn has_u32(bytes: Seq<u8>, at: int) -> bool {
    0 <= at && at + 4 <= bytes.len()
}

/// Where the length-prefixed field at `at` ends.
pub open spec fn field_end(bytes: Seq<u8>, at: int) -> int {
    at + 4 + le_u32(bytes, at)
}

/// A whole length-prefixed field stands at `at`: its four length bytes and
/// as many bytes as they say.
pub open spec fn has_field(bytes: Seq<u8>, at: int) -> bool {
    has_u32(bytes, at) && field_end(bytes, at) <= bytes.len()
}

/// The content of the length-prefixed field at `at`.
pub open spec fn field_bytes(bytes: Seq<u8>, at: int) -> Seq<u8> {
    bytes.subrange(at + 4, field_end(bytes, at))
}

/// The packet's head can be decoded: the tag, the vendor field and the
/// comment count are all there.
pub open spec fn has_header(bytes: Seq<u8>) -> bool {
    tag_at(bytes, 0) && has_field(bytes, 6) && has_u32(bytes, field_end(bytes, 6))
}

/// The number of comments that the packet announces.
pub open spec fn comment_count(bytes: Seq<u8>) -> nat {
    le_u32(bytes, field_end(bytes, 6)) as nat
}

/// Where the first comment starts.
pub open spec fn comments_start(bytes: Seq<u8>) -> int {
    field_end(bytes, 6) + 4
}

/// The comments decoded from `at` on: at most `count`, and none from the
/// first one that does not fit in the bytes.
pub open spec fn comments_from(bytes: Seq<u8>, at: int, count: nat) -> Seq<(Seq<char>, Seq<char>)>
    decreases count,
{
    if count == 0 || !has_field(bytes, at) {
        Seq::empty()
    } else {
        seq![comment_pair(utf8_lossy(field_bytes(bytes, at)))] + comments_from(
            bytes,
            field_end(bytes, at),
            (count - 1) as nat,
        )
    }
}

/// Where decoding from `at` stops: behind the last comment that fits.
pub open spec fn cursor_from(bytes: Seq<u8>, at: int, count: nat) -> int
    decreases count,
{
    if count == 0 || !has_field(bytes, at) {
        at
    } else {
        cursor_from(bytes, field_end(bytes, at), (count - 1) as nat)
    }
}

/// The comments of a packet, as far as the bytes hold them.
pub open spec fn packet_comments(bytes: Seq<u8>) -> Seq<(Seq<char>, Seq<char>)> {
    comments_from(bytes, comments_start(bytes), comment_count(bytes))
}

/// Where the decoding of a packet stops.
pub open spec fn packet_cursor(bytes: Seq<u8>) -> int {
    cursor_from(bytes, comments_start(bytes), comment_count(bytes))
}

/// The four bytes that hold `number`, lowest first.
#[verifier::opaque]
pub open spec fn le_bytes(number: int) -> Seq<u8> {
    seq![
        (number % 256) as u8,
        ((number / 256) % 256) as u8,
        ((number / 65536) % 256) as u8,
        ((number / 16777216) % 256) as u8,
    ]
}

/// A content as a length-prefixed field.
pub open spec fn encoded_field(content: Seq<u8>) -> Seq<u8> {
    le_bytes(content.len() as int) + content
}

/// The contents as length-prefixed fields, one after the other.
pub open spec fn encoded_fields(contents: Seq<Seq<u8>>) -> Seq<u8>
    decreases contents.len(),
{
    if contents.len() == 0 {
        Seq::empty()
    } else {
        encoded_field(contents[0]) + encoded_fields(contents.drop_first())
    }
}

/// A packet, from its tag on, with this vendor string and these comments.
pub open spec fn encoded_packet(vendor: Seq<u8>, comments: Seq<Seq<u8>>) -> Seq<u8> {
    crate::scan::tag_bytes() + encoded_field(vendor) + le_bytes(comments.len() as int)
        + encoded_fields(comments)
}

/// The key and value of each comment.
pub open spec fn pairs_of(comments: Seq<Seq<u8>>) -> Seq<(Seq<char>, Seq<char>)> {
    Seq::new(comments.len(), |i: int| comment_pair(utf8_lossy(comments[i])))
}

/// The lengths that four bytes can hold.
pub open spec fn fits_u32(len: nat) -> bool {
    len <= 0xFFFF_FFFF
}

/// `piece` stands in `bytes` at `at`.
pub open spec fn holds_at(bytes: Seq<u8>, at: int, piece: Seq<u8>) -> bool {
    &&& 0 <= at
    &&& at + piece.len() <= bytes.len()
    &&& forall|i: int| 0 <= i < piece.len() ==> bytes[at + i] == #[trigger] piece[i]
}

proof fn lemma_piece_stands(whole: Seq<u8>, before: Seq<u8>, piece: Seq<u8>, after: Seq<u8>)
    requires
        whole =~= before + piece + after,
    ensures
        holds_at(whole, before.len() as int, piece),
{
}

proof fn lemma_four_bytes(number: int)
    ensures
        le_bytes(number).len() == 4,
{
    reveal(le_bytes);
}

proof fn lemma_number_at(bytes: Seq<u8>, at: int, number: int)
    requires
        0 <= number <= 0xFFFF_FFFF,
        holds_at(bytes, at, le_bytes(number)),
    ensures
        has_u32(bytes, at),
        le_u32(bytes, at) == number,
{
    reveal(le_bytes);
    let piece = le_bytes(number);
    assert(bytes[at + 0] == piece[0]);
    assert(bytes[at + 1] == piece[1]);
    assert(bytes[at + 2] == piece[2]);
    assert(bytes[at + 3] == piece[3]);
}

proof fn lemma_field_at(bytes: Seq<u8>, at: int, content: Seq<u8>)
    requires
        fits_u32(content.len()),
        holds_at(bytes, at, encoded_field(content)),
    ensures
        has_field(bytes, at),
        field_end(bytes, at) == at + 4 + content.len(),
        field_bytes(bytes, at) == content,
{
    let piece = encoded_field(content);
    let prefix = le_bytes(content.len() as int);
    lemma_four_bytes(content.len() as int);
    assert forall|i: int| 0 <= i < prefix.len() implies bytes[at + i] == #[trigger] prefix[i] by {
        assert(piece[i] == prefix[i]);
    }
    lemma_number_at(bytes, at, content.len() as int);
    assert forall|i: int| 0 <= i < content.len() implies bytes[at + 4 + i] == content[i] by {
        assert(piece[4 + i] == content[i]);
    }
    assert(field_bytes(bytes, at) =~= content);
}

proof fn lemma_fields_at(bytes: Seq<u8>, at: int, contents: Seq<Seq<u8>>)
    requires
        forall|i: int| 0 <= i < contents.len() ==> fits_u32(#[trigger] contents[i].len()),
        holds_at(bytes, at, encoded_fields(contents)),
    ensures
        comments_from(bytes, at, contents.len()) == pairs_of(contents),
        cursor_from(bytes, at, contents.len()) == at + encoded_fields(contents).len(),
    decreases contents.len(),
{
    if contents.len() == 0 {
        assert(comments_from(bytes, at, 0) =~= pairs_of(contents));
    } else {
        let first = contents[0];
        let rest = contents.drop_first();
        let whole = encoded_fields(contents);
        let head = encoded_field(first);
        let tail = encoded_fields(rest);
        lemma_four_bytes(first.len() as int);
        assert(whole == head + tail);
        assert forall|i: int| 0 <= i < head.len() implies bytes[at + i] == #[trigger] head[i] by {
            assert(whole[i] == head[i]);
        }
        lemma_field_at(bytes, at, first);
        let next = at + head.len();
        assert forall|i: int| 0 <= i < tail.len() implies bytes[next + i] == #[trigger] tail[i] by {
            assert(whole[head.len() + i] == tail[i]);
        }
        assert forall|i: int| 0 <= i < rest.len() implies fits_u32(#[trigger] rest[i].len()) by {
            assert(rest[i] == contents[i + 1]);
        }
        lemma_fields_at(bytes, next, rest);
        assert(next == field_end(bytes, at));
        assert(comments_from(bytes, at, contents.len()) =~= pairs_of(contents)) by {
            assert forall|i: int| 0 <= i < contents.len() implies comments_from(
                bytes,
                at,
                contents.len(),
            )[i] == pairs_of(contents)[i] by {
                if i > 0 {
                    assert(pairs_of(rest)[i - 1] == pairs_of(contents)[i]);
                }
            }
        }
    }
}

/// A packet written out with any vendor string and any comments, and
/// followed by any bytes, decodes to exactly those comments, each split
/// into its trimmed key and value, and decoding stops exactly at the end of
/// the packet.
#[verifier::spinoff_prover]
#[verifier::rlimit(50)]
pub proof fn law_written_packet_decodes(
    vendor: Seq<u8>,
    comments: Seq<Seq<u8>>,
    following: Seq<u8>,
)
    requires
        fits_u32(vendor.len()),
        fits_u32(comments.len()),
        forall|i: int| 0 <= i < comments.len() ==> fits_u32(#[trigger] comments[i].len()),
    ensures
        has_header(encoded_packet(vendor, comments) + following),
        packet_comments(encoded_packet(vendor, comments) + following) == pairs_of(comments),
        packet_cursor(encoded_packet(vendor, comments) + following) == encoded_packet(
            vendor,
            comments,
        ).len(),
{
    let tag = crate::scan::tag_bytes();
    let field = encoded_field(vendor);
    let count = le_bytes(comments.len() as int);
    let fields = encoded_fields(comments);
    let bytes = encoded_packet(vendor, comments) + following;
    lemma_four_bytes(vendor.len() as int);
    lemma_four_bytes(comments.len() as int);
    assert(bytes.subrange(0, 6) =~= tag);
    lemma_piece_stands(bytes, tag, field, count + fields + following);
    lemma_field_at(bytes, 6, vendor);
    lemma_piece_stands(bytes, tag + field, count, fields + following);
    lemma_number_at(bytes, 10 + vendor.len() as int, comments.len() as int);
    lemma_piece_stands(bytes, tag + field + count, fields, following);
    lemma_fields_at(bytes, 14 + vendor.len() as int, comments);
}

/// Reads the little-endian number at `at`, if four bytes stand there.
pub fn read_u32(input: &[u8], at: usize) -> (number: Option<u32>)
    ensures
        number.is_some() == has_u32(input@, at as int),
        number.is_some() ==> number.unwrap() == le_u32(input@, at as int),
{
    let n: usize = input.len();
    if at > n || n - at < 4 {
        return None;
    }
    let b0: u32 = input[at] as u32;
    let b1: u32 = input[at + 1] as u32;
    let b2: u32 = input[at + 2] as u32;
    let b3: u32 = input[at + 3] as u32;
    Some(b0 + 256 * b1 + 65536 * b2 + 16777216 * b3)
}

/// Finds the field at `at`: where its content starts and where it ends.
fn field_bounds(input: &[u8], at: usize) -> (bounds: Option<(usize, usize)>)
    ensures
        bounds.is_some() == has_field(input@, at as int),
        bounds.is_some() ==> bounds.unwrap().0 == at + 4 && bounds.unwrap().1 == field_end(
            input@,
            at as int,
        ),
{
    let n: usize = input.len();
    match read_u32(input, at) {
        Some(length) => {
            let start: usize = at + 4;
            if n - start < length as usize {
                None
            } else {
                Some((start, start + length as usize))
            }
        },
        None => None,
    }
}

/// Decodes the length-prefixed string at `at`: four length bytes, then that
/// many bytes of text, read as UTF-8 with replacement of what is invalid.
/// Gives the text and where the field ends, or nothing where the bytes run
/// out.
pub fn parse_length_string(input: &[u8], at: usize) -> (field: Option<(usize, String)>)
    ensures
        field.is_some() == has_field(input@, at as int),
        field.is_some() ==> field.unwrap().0 == field_end(input@, at as int) && field.unwrap().1@
            == utf8_lossy(field_bytes(input@, at as int)),
{
    match field_bounds(input, at) {
        Some((start, end)) => Some((end, decode_lossy(slice_subrange(input, start, end)))),
        None => None,
    }
}

/// Decodes the comment at `at`: a length-prefixed string, split at its first
/// `=` into key and value, both trimmed. Gives the entry and where the
/// field ends, or nothing where the bytes run out.
pub fn parse_comment(input: &[u8], at: usize) -> (comment: Option<(usize, Entry)>)
    ensures
        comment.is_some() == has_field(input@, at as int),
        comment.is_some() ==> comment.unwrap().0 == field_end(input@, at as int) && (
        comment.unwrap().1.key@,
        comment.unwrap().1.value@,
        ) == comment_pair(utf8_lossy(field_bytes(input@, at as int))),
{
    match parse_length_string(input, at) {
        Some((end, text)) => {
            let pair = split_comment(text.as_str());
            Some((end, Entry { key: pair.0, value: pair.1 }))
        },
        None => None,
    }
}

/// Decodes the comments of the packet that starts with its tag at the
/// beginning of `input`. Gives nothing where the tag, the vendor string or
/// the count cannot be read; else the comments that the bytes hold, in
/// order, up to the announced count, and where decoding stopped.
pub fn read_comments(input: &[u8]) -> (decoded: Option<(Vec<Entry>, usize)>)
    ensures
        decoded.is_some() == has_header(input@),
        decoded.is_some() ==> entries_of(decoded.unwrap().0@) == packet_comments(input@)
            && decoded.unwrap().1 == packet_cursor(input@),
{
    if input.len() < 6 || !crate::scan::has_tag(input, 0) {
        return None;
    }
    let after_vendor: usize = match field_bounds(input, 6) {
        Some((_, end)) => end,
        None => {
            return None;
        },
    };
    let count: u32 = match read_u32(input, after_vendor) {
        Some(count) => count,
        None => {
            return None;
        },
    };
    let start: usize = after_vendor + 4;
    let mut comments: Vec<Entry> = Vec::new();
    let mut at: usize = start;
    let mut left: u32 = count;
    proof {
        assert(entries_of(comments@) + packet_comments(input@) =~= packet_comments(input@));
    }
    while left > 0
        invariant
            at <= input@.len(),
            has_header(input@),
            packet_comments(input@) == entries_of(comments@) + comments_from(
                input@,
                at as int,
                left as nat,
            ),
            packet_cursor(input@) == cursor_from(input@, at as int, left as nat),
        decreases left,
    {
        match parse_comment(input, at) {
            Some((end, entry)) => {
                let ghost before = entries_of(comments@);
                let ghost pair = (entry.key@, entry.value@);
                comments.push(entry);
                proof {
                    assert(entries_of(comments@) =~= before.push(pair));
                    assert(before + (seq![pair] + comments_from(
                        input@,
                        end as int,
                        (left - 1) as nat,
                    )) =~= before.push(pair) + comments_from(
                        input@,
                        end as int,
                        (left - 1) as nat,
                    ));
                }
                at = end;
                left = left - 1;
            },
            None => {
                proof {
                    assert(entries_of(comments@) + Seq::empty() =~= entries_of(comments@));
                }
                return Some((comments, at));
            },
        }
    }
    proof {
        assert(entries_of(comments@) + Seq::empty() =~= entries_of(comments@));
    }
    Some((comments, at))
}

/// Decodes the packet at the beginning of `input` into a record made at
/// time `now_ms`, merging its comments in order. Gives the record only if
/// some comment changed a field of it; a packet that cannot be read, or
/// that changes nothing, gives nothing.
pub fn parse_vorbis_metadata(input: &[u8], now_ms: u64) -> (parsed: Option<StreamMetadata>)
    ensures
        parsed.is_some() == (has_header(input@) && any_change(
            fresh(now_ms),
            packet_comments(input@),
            now_ms,
        )),
        parsed.is_some() ==> parsed.unwrap().wf() && parsed.unwrap()@ == merged(
            fresh(now_ms),
            packet_comments(input@),
            now_ms,
        ),
{
    let comments: Vec<Entry> = match read_comments(input) {
        Some((comments, _)) => comments,
        None => {
            return None;
        },
    };
    let mut metadata = StreamMetadata::new(now_ms);
    let mut updated = false;
    let n: usize = comments.len();
    let mut i: usize = 0;
    let ghost all = entries_of(comments@);
    proof {
        assert(all.subrange(0, 0) =~= Seq::empty());
    }
    while i < n
        invariant
            i <= n,
            n == comments@.len(),
            all == entries_of(comments@),
            metadata.wf(),
            metadata@ == merged(fresh(now_ms), all.subrange(0, i as int), now_ms),
            updated == any_change(fresh(now_ms), all.subrange(0, i as int), now_ms),
        decreases n - i,
    {
        proof {
            assert(all.subrange(0, i + 1).drop_last() =~= all.subrange(0, i as int));
            assert(all.subrange(0, i + 1).last() == all[i as int]);
        }
        let changed = metadata.update_from_comment(
            comments[i].key.as_str(),
            comments[i].value.as_str(),
            now_ms,
        );
        updated = updated || changed;
        i = i + 1;
    }
    proof {
        assert(all.subrange(0, n as int) =~= all);
    }
    if updated {
        Some(metadata)
    } else {
        None
    }
}

} // verus!
