use iceprxy::packet::{parse_comment, parse_length_string, parse_vorbis_metadata, read_comments, read_u32};
use iceprxy::record::Entry;
use iceprxy::scan::find_vorbis_comment_start;
use iceprxy::text::{find_separator, split_comment};

fn field(content: &[u8]) -> Vec<u8> {
    let mut out = (content.len() as u32).to_le_bytes().to_vec();
    out.extend_from_slice(content);
    out
}

fn packet(vendor: &str, comments: &[&str]) -> Vec<u8> {
    let mut out = b"vorbis".to_vec();
    out.extend(field(vendor.as_bytes()));
    out.extend((comments.len() as u32).to_le_bytes());
    for comment in comments {
        out.extend(field(comment.as_bytes()));
    }
    out
}

fn entry(key: &str, value: &str) -> Entry {
    Entry { key: key.to_string(), value: value.to_string() }
}

#[test]
fn read_u32_is_little_endian() {
    assert_eq!(read_u32(&[0x78, 0x56, 0x34, 0x12], 0), Some(0x12345678));
    assert_eq!(read_u32(&[0xFF, 0xFF, 0xFF, 0xFF], 0), Some(u32::MAX));
    assert_eq!(read_u32(&[9, 1, 2, 0, 0], 1), Some(513));
}

#[test]
fn read_u32_needs_four_bytes() {
    assert_eq!(read_u32(&[1, 2, 3], 0), None);
    assert_eq!(read_u32(&[1, 2, 3, 4], 1), None);
    assert_eq!(read_u32(&[1, 2, 3, 4], 9), None);
    assert_eq!(read_u32(&[], 0), None);
}

#[test]
fn length_string_is_decoded() {
    let mut bytes = field(b"hello");
    bytes.extend_from_slice(b"rest");
    assert_eq!(parse_length_string(&bytes, 0), Some((9, "hello".to_string())));
}

#[test]
fn length_string_may_be_empty() {
    assert_eq!(parse_length_string(&[0, 0, 0, 0], 0), Some((4, String::new())));
}

#[test]
fn length_string_that_runs_out_gives_nothing() {
    assert_eq!(parse_length_string(&[5, 0, 0, 0, b'a', b'b'], 0), None);
    assert_eq!(parse_length_string(&[5, 0, 0], 0), None);
    assert_eq!(parse_length_string(&[0xFF, 0xFF, 0xFF, 0xFF, 1], 0), None);
}

#[test]
fn length_string_replaces_invalid_utf8() {
    let bytes = field(&[b'a', 0xFF, b'b']);
    assert_eq!(parse_length_string(&bytes, 0), Some((7, "a\u{FFFD}b".to_string())));
}

#[test]
fn separator_is_first_equals_sign() {
    assert_eq!(find_separator("a=b=c"), Some(1));
    assert_eq!(find_separator("=x"), Some(0));
    assert_eq!(find_separator("abc"), None);
    assert_eq!(find_separator(""), None);
    assert_eq!(find_separator("é=1"), Some(1));
}

#[test]
fn comment_is_split_and_trimmed() {
    assert_eq!(split_comment("  Title = My Song  "), ("Title".to_string(), "My Song".to_string()));
    assert_eq!(split_comment("a=b=c"), ("a".to_string(), "b=c".to_string()));
    assert_eq!(split_comment("k="), ("k".to_string(), String::new()));
    assert_eq!(split_comment("=v"), (String::new(), "v".to_string()));
}

#[test]
fn comment_without_separator_is_all_key() {
    assert_eq!(split_comment("  lonely "), ("lonely".to_string(), String::new()));
    assert_eq!(split_comment(""), (String::new(), String::new()));
}

#[test]
fn parse_comment_gives_entry_and_end() {
    let mut bytes = vec![7u8];
    bytes.extend(field(b" artist =  The Band "));
    let end = bytes.len();
    bytes.push(1);
    assert_eq!(parse_comment(&bytes, 1), Some((end, entry("artist", "The Band"))));
    assert_eq!(parse_comment(&bytes, end), None);
}

#[test]
fn whole_packet_yields_all_pairs_and_ends_at_packet_end() {
    let bytes = packet("vendor 1.0", &["TITLE= Night Drive ", " artist =Neon", "year=1984", "flag"]);
    let (comments, cursor) = read_comments(&bytes).unwrap();
    assert_eq!(
        comments,
        vec![
            entry("TITLE", "Night Drive"),
            entry("artist", "Neon"),
            entry("year", "1984"),
            entry("flag", ""),
        ]
    );
    assert_eq!(cursor, bytes.len());
}

#[test]
fn packet_with_no_comments_yields_none_and_ends_at_packet_end() {
    let mut bytes = packet("v", &[]);
    let end = bytes.len();
    bytes.extend_from_slice(b"audio data");
    let (comments, cursor) = read_comments(&bytes).unwrap();
    assert!(comments.is_empty());
    assert_eq!(cursor, end);
    assert_eq!(parse_vorbis_metadata(&bytes, 1), None);
}

#[test]
fn packet_at_known_offset_is_decoded() {
    let mut bytes = vec![0u8, 9, 9, 3];
    bytes.extend(packet("v", &["title=A", "artist=B"]));
    let end = bytes.len();
    bytes.extend_from_slice(&[1, 2, 3]);
    assert_eq!(find_vorbis_comment_start(&bytes), vec![4]);
    let (comments, cursor) = read_comments(&bytes[4..]).unwrap();
    assert_eq!(comments, vec![entry("title", "A"), entry("artist", "B")]);
    assert_eq!(cursor + 4, end);
}

#[test]
fn missing_tag_gives_nothing() {
    let mut bytes = packet("v", &["title=A"]);
    bytes[0] = b'V';
    assert_eq!(read_comments(&bytes), None);
    assert_eq!(parse_vorbis_metadata(&bytes, 1), None);
    assert_eq!(parse_vorbis_metadata(b"vorbi", 1), None);
    assert_eq!(parse_vorbis_metadata(&[], 1), None);
}

#[test]
fn truncated_header_gives_nothing() {
    let bytes = packet("vendor", &["title=A"]);
    assert_eq!(read_comments(&bytes[..8]), None);
    assert_eq!(read_comments(&bytes[..12]), None);
    assert_eq!(read_comments(&bytes[..18]), None);
    assert_eq!(parse_vorbis_metadata(&bytes[..18], 1), None);
}

#[test]
fn truncated_comment_keeps_earlier_ones() {
    let bytes = packet("v", &["title=A", "artist=B"]);
    let cut = bytes.len() - 3;
    let (comments, cursor) = read_comments(&bytes[..cut]).unwrap();
    assert_eq!(comments, vec![entry("title", "A")]);
    assert_eq!(cursor, 6 + 5 + 4 + 11);
    let record = parse_vorbis_metadata(&bytes[..cut], 77).unwrap();
    assert_eq!(record.title, "A");
    assert_eq!(record.artist, None);
    assert_eq!(record.last_update, 77);
}

#[test]
fn count_larger_than_content_stops_at_end() {
    let mut bytes = b"vorbis".to_vec();
    bytes.extend(field(b""));
    bytes.extend(5u32.to_le_bytes());
    bytes.extend(field(b"genre=Jazz"));
    let (comments, cursor) = read_comments(&bytes).unwrap();
    assert_eq!(comments, vec![entry("genre", "Jazz")]);
    assert_eq!(cursor, bytes.len());
}

#[test]
fn packet_is_merged_into_record() {
    let bytes = packet("v", &["Title=Song", "ARTIST=Band", "album=LP", "Genre=Pop", "x=1", "x=2"]);
    let record = parse_vorbis_metadata(&bytes, 1234).unwrap();
    assert_eq!(record.title, "Song");
    assert_eq!(record.artist, Some("Band".to_string()));
    assert_eq!(record.album, Some("LP".to_string()));
    assert_eq!(record.genre, Some("Pop".to_string()));
    assert_eq!(record.other, vec![entry("x", "2")]);
    assert_eq!(record.last_update, 1234);
    assert_eq!(record.display(), "Artist: Band | Title: Song | Album: LP | Genre: Pop | x: 2");
}

#[test]
fn packet_that_changes_nothing_gives_nothing() {
    let bytes = packet("v", &["title=Unknown"]);
    assert_eq!(parse_vorbis_metadata(&bytes, 1), None);
}

#[test]
fn invalid_utf8_in_comment_is_replaced() {
    let mut bytes = b"vorbis".to_vec();
    bytes.extend(field(b"v"));
    bytes.extend(1u32.to_le_bytes());
    bytes.extend(field(&[b't', b'i', b't', b'l', b'e', b'=', 0xC3, 0x28]));
    let record = parse_vorbis_metadata(&bytes, 1).unwrap();
    assert_eq!(record.title, "\u{FFFD}(");
}
