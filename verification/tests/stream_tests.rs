use iceprxy::distributor::Distributor;
use iceprxy::gate::DedupRateLimiter;
use iceprxy::packet::parse_vorbis_metadata;
use iceprxy::record::StreamMetadata;
use iceprxy::scan::find_vorbis_comment_start;
use iceprxy::stream::{absorb, retain_tail};

fn field(content: &[u8]) -> Vec<u8> {
    let mut out = (content.len() as u32).to_le_bytes().to_vec();
    out.extend_from_slice(content);
    out
}

fn framed(kind: u8, comments: &[&str]) -> Vec<u8> {
    let mut out = vec![kind];
    out.extend_from_slice(b"vorbis");
    out.extend(field(b"vendor"));
    out.extend((comments.len() as u32).to_le_bytes());
    for comment in comments {
        out.extend(field(comment.as_bytes()));
    }
    out
}

#[test]
fn first_candidate_is_always_announced() {
    let mut gate = DedupRateLimiter::new();
    assert!(gate.offer("Title: A", 0));
    assert!(gate.started);
    assert_eq!(gate.seen, vec!["Title: A".to_string()]);
    assert_eq!(gate.last_emit_ms, 0);
}

#[test]
fn same_rendering_is_suppressed() {
    let mut gate = DedupRateLimiter::new();
    assert!(gate.offer("Title: A", 1000));
    assert!(!gate.offer("Title: A", 2000));
    assert!(!gate.offer("Title: A", 60000));
    assert_eq!(gate.last_emit_ms, 1000);
    assert_eq!(gate.seen.len(), 1);
}

#[test]
fn new_rendering_waits_for_interval() {
    let mut gate = DedupRateLimiter::new();
    assert!(gate.offer("Title: A", 1000));
    assert!(!gate.offer("Title: B", 5999));
    assert_eq!(gate.seen.len(), 1);
    assert!(gate.offer("Title: B", 6000));
    assert_eq!(gate.last_emit_ms, 6000);
    assert_eq!(gate.seen.len(), 2);
}

#[test]
fn clock_that_went_back_counts_as_interval_passed() {
    let mut gate = DedupRateLimiter::new();
    assert!(gate.offer("Title: A", 10000));
    assert!(gate.offer("Title: B", 9000));
    assert_eq!(gate.last_emit_ms, 9000);
}

#[test]
fn seen_set_is_cleared_beyond_limit() {
    let mut gate = DedupRateLimiter::new();
    for i in 0..100u64 {
        assert!(gate.offer(&format!("Title: {}", i), i * 5000));
    }
    assert_eq!(gate.seen.len(), 100);
    assert!(gate.offer("Title: last", 100 * 5000));
    assert!(gate.seen.is_empty());
    assert!(gate.started);
}

#[test]
fn end_to_end_policy() {
    let mut gate = DedupRateLimiter::new();
    let a = parse_vorbis_metadata(&framed(3, &["title=A"])[1..], 0).unwrap().display();
    let b = parse_vorbis_metadata(&framed(3, &["title=B"])[1..], 0).unwrap().display();
    assert!(gate.offer(&a, 0));
    assert!(!gate.offer(&a, 3000));
    assert!(gate.offer(&b, 6000));
    assert!(!gate.offer(&a, 20000));
    let mut now: u64 = 20000;
    for i in 0..98u64 {
        now += 5000;
        assert!(gate.offer(&format!("Title: filler {}", i), now));
        assert!(!gate.offer(&a, now + 4999));
    }
    assert_eq!(gate.seen.len(), 100);
    now += 5000;
    assert!(gate.offer("Title: one more", now));
    assert!(gate.seen.is_empty());
    now += 5000;
    assert!(gate.offer(&a, now));
}

#[test]
fn absorb_announces_first_packet_once() {
    let mut buffer: Vec<u8> = Vec::new();
    let mut gate = DedupRateLimiter::new();
    let chunk = framed(3, &["title=Song", "artist=Band"]);
    let first = absorb(&mut buffer, &mut gate, &chunk, 100);
    assert_eq!(first.len(), 1);
    assert_eq!(first[0].title, "Song");
    assert_eq!(first[0].artist, Some("Band".to_string()));
    assert_eq!(first[0].last_update, 100);
    assert_eq!(buffer, chunk);
    let again = absorb(&mut buffer, &mut gate, &chunk, 10000);
    assert!(again.is_empty());
    assert_eq!(buffer.len(), 2 * chunk.len());
}

#[test]
fn absorb_skips_incomplete_records() {
    let mut buffer: Vec<u8> = Vec::new();
    let mut gate = DedupRateLimiter::new();
    let chunk = framed(1, &["album=LP"]);
    assert!(absorb(&mut buffer, &mut gate, &chunk, 100).is_empty());
    assert!(!gate.started);
}

#[test]
fn absorb_completes_packet_split_over_chunks() {
    let mut buffer: Vec<u8> = Vec::new();
    let mut gate = DedupRateLimiter::new();
    let whole = framed(3, &["genre=Jazz", "title=Late"]);
    let (head, tail) = whole.split_at(20);
    assert!(absorb(&mut buffer, &mut gate, head, 1).is_empty());
    let out = absorb(&mut buffer, &mut gate, tail, 2);
    assert_eq!(out.len(), 1);
    assert_eq!(out[0].title, "Late");
    assert_eq!(out[0].genre, Some("Jazz".to_string()));
}

#[test]
fn absorb_applies_interval_within_one_chunk() {
    let mut buffer: Vec<u8> = Vec::new();
    let mut gate = DedupRateLimiter::new();
    let mut chunk = framed(1, &["title=A"]);
    chunk.extend(framed(1, &["title=B"]));
    let out = absorb(&mut buffer, &mut gate, &chunk, 0);
    assert_eq!(out.len(), 1);
    assert_eq!(out[0].title, "A");
    let later = absorb(&mut buffer, &mut gate, &[], 5000);
    assert_eq!(later.len(), 1);
    assert_eq!(later[0].title, "B");
}

#[test]
fn absorb_keeps_trailing_window() {
    let mut buffer: Vec<u8> = vec![0u8; 16000];
    let mut gate = DedupRateLimiter::new();
    let chunk: Vec<u8> = (0..1000u32).map(|i| (i % 200) as u8 + 10).collect();
    absorb(&mut buffer, &mut gate, &chunk, 0);
    assert_eq!(buffer.len(), 16384);
    assert_eq!(&buffer[16384 - 1000..], &chunk[..]);
    assert!(buffer[..16384 - 1000].iter().all(|b| *b == 0));
}

#[test]
fn short_buffer_is_kept_whole() {
    let mut buffer: Vec<u8> = (0..=255u8).collect();
    let before = buffer.clone();
    retain_tail(&mut buffer);
    assert_eq!(buffer, before);
    let mut exact = vec![7u8; 16384];
    retain_tail(&mut exact);
    assert_eq!(exact.len(), 16384);
}

#[test]
fn packet_in_retained_tail_decodes_as_before() {
    let mut buffer = vec![0u8; 20000];
    let inside = framed(3, &["title=Kept", "artist=Tail"]);
    let lost = framed(3, &["title=Lost"]);
    buffer[100..100 + lost.len()].copy_from_slice(&lost);
    buffer[19000..19000 + inside.len()].copy_from_slice(&inside);
    let before = find_vorbis_comment_start(&buffer);
    assert_eq!(before, vec![101, 19001]);
    let expected = parse_vorbis_metadata(&buffer[19001..], 5).unwrap();
    retain_tail(&mut buffer);
    assert_eq!(buffer.len(), 16384);
    let after = find_vorbis_comment_start(&buffer);
    assert_eq!(after, vec![19001 - (20000 - 16384)]);
    let decoded = parse_vorbis_metadata(&buffer[after[0]..], 5).unwrap();
    assert_eq!(decoded, expected);
    assert_eq!(decoded.title, "Kept");
}

#[test]
fn late_subscriber_sees_published_record() {
    let mut distributor = Distributor::new(100);
    assert_eq!(distributor.read_current(), None);
    assert_eq!(distributor.first_item(), None);
    let mut record = StreamMetadata::new(1);
    record.update_from_comment("title", "On Air", 2);
    assert_eq!(distributor.publish(record.clone()), 0);
    let mut late = distributor.feed.subscribe();
    assert_eq!(distributor.first_item(), Some(&record));
    assert_eq!(distributor.read_current(), Some(&record));
    assert!(late.try_recv().is_err());
    assert_eq!(distributor.first_item(), Some(&record));
}

#[test]
fn publish_overwrites_slot() {
    let mut distributor = Distributor::new(100);
    let mut first = StreamMetadata::new(1);
    first.update_from_comment("title", "One", 2);
    let mut second = StreamMetadata::new(3);
    second.update_from_comment("title", "Two", 4);
    distributor.publish(first);
    distributor.publish(second.clone());
    assert_eq!(distributor.read_current(), Some(&second));
}

#[test]
fn publish_reaches_every_subscriber_once() {
    let mut distributor = Distributor::new(4);
    let mut one = distributor.feed.subscribe();
    let mut two = distributor.feed.subscribe();
    let mut record = StreamMetadata::new(1);
    record.update_from_comment("artist", "Band", 2);
    record.update_from_comment("mood", "calm", 3);
    assert_eq!(distributor.publish(record.clone()), 2);
    assert_eq!(one.try_recv().unwrap(), record);
    assert_eq!(two.try_recv().unwrap(), record);
    assert!(one.try_recv().is_err());
    assert!(two.try_recv().is_err());
}

#[test]
fn slow_subscriber_loses_only_its_own_backlog() {
    let mut distributor = Distributor::new(1);
    let mut slow = distributor.feed.subscribe();
    let mut first = StreamMetadata::new(1);
    first.update_from_comment("title", "One", 2);
    let mut second = StreamMetadata::new(3);
    second.update_from_comment("title", "Two", 4);
    distributor.publish(first);
    distributor.publish(second.clone());
    assert!(slow.try_recv().is_err());
    assert_eq!(slow.try_recv().unwrap(), second);
    assert_eq!(distributor.read_current(), Some(&second));
}

#[test]
fn duplicate_equals_record() {
    let mut record = StreamMetadata::new(9);
    record.update_from_comment("title", "T", 10);
    record.update_from_comment("genre", "G", 11);
    record.update_from_comment("a", "1", 12);
    record.update_from_comment("b", "2", 13);
    assert_eq!(record.duplicate(), record);
    assert_eq!(StreamMetadata::new(5).duplicate(), StreamMetadata::new(5));
}

#[test]
fn feed_keeps_as_many_records_as_it_was_made_for() {
    let mut one = StreamMetadata::new(1);
    one.update_from_comment("title", "One", 2);
    let mut two = StreamMetadata::new(3);
    two.update_from_comment("title", "Two", 4);

    let mut roomy = Distributor::new(2);
    let mut reader = roomy.feed.subscribe();
    roomy.publish(one.clone());
    roomy.publish(two.clone());
    assert_eq!(reader.try_recv().unwrap(), one);
    assert_eq!(reader.try_recv().unwrap(), two);

    let mut tight = Distributor::new(1);
    let mut behind = tight.feed.subscribe();
    tight.publish(one.clone());
    tight.publish(two.clone());
    assert!(behind.try_recv().is_err());
    assert_eq!(behind.try_recv().unwrap(), two);
}
