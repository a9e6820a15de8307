use iceprxy::scan::find_vorbis_comment_start;

#[test]
fn empty_buffer_has_no_packets() {
    assert_eq!(find_vorbis_comment_start(&[]), Vec::<usize>::new());
}

#[test]
fn short_buffer_has_no_packets() {
    assert_eq!(find_vorbis_comment_start(b"\x01vorbi"), Vec::<usize>::new());
}

#[test]
fn signature_alone_is_found() {
    assert_eq!(find_vorbis_comment_start(b"\x01vorbis"), vec![1]);
    assert_eq!(find_vorbis_comment_start(b"\x03vorbis"), vec![1]);
}

#[test]
fn other_type_bytes_are_not_signatures() {
    assert_eq!(find_vorbis_comment_start(b"\x05vorbis \x02vorbis vorbis"), Vec::<usize>::new());
}

#[test]
fn initial_packets_come_before_update_packets() {
    let buffer = b"..\x03vorbis..\x01vorbis\x03vorbis\x01vorbis";
    assert_eq!(find_vorbis_comment_start(buffer), vec![12, 26, 3, 19]);
}

#[test]
fn adjacent_signatures_are_all_found() {
    let buffer = b"\x01vorbis\x01vorbis\x01vorbis";
    assert_eq!(find_vorbis_comment_start(buffer), vec![1, 8, 15]);
}

#[test]
fn signature_at_end_of_buffer_is_found() {
    let buffer = b"abcdef\x03vorbis";
    assert_eq!(find_vorbis_comment_start(buffer), vec![7]);
}

#[test]
fn tag_without_type_byte_is_not_found() {
    assert_eq!(find_vorbis_comment_start(b"vorbis\x01"), Vec::<usize>::new());
}
