use opus_framing::error::Error;
use opus_framing::ogg::{CommentHeader, IdHeader, OggOpusError, COMMENTS_IGNORE_LEN};
use opus_framing::packet::MalformedPacketError;

fn id_header_bytes(version: u8) -> Vec<u8> {
    let mut v = b"OpusHead".to_vec();
    v.push(version);
    v.push(2); // channel count
    v.extend_from_slice(&[0x38, 0x01]); // pre-skip 312
    v.extend_from_slice(&[0x80, 0xBB, 0x00, 0x00]); // input sample rate 48000
    v.extend_from_slice(&[0xF0, 0xFF]); // output gain -16
    v.push(0); // channel mapping family
    v
}

fn tags_bytes(vendor: &[u8], comments: &[&[u8]]) -> Vec<u8> {
    let mut v = b"OpusTags".to_vec();
    v.extend_from_slice(&(vendor.len() as u32).to_le_bytes());
    v.extend_from_slice(vendor);
    v.extend_from_slice(&(comments.len() as u32).to_le_bytes());
    for c in comments {
        v.extend_from_slice(&(c.len() as u32).to_le_bytes());
        v.extend_from_slice(c);
    }
    v
}

#[test]
fn id_header_with_major_version_zero_parses() {
    let header = IdHeader::new(&id_header_bytes(0x01)).unwrap();
    assert_eq!(header.version(), (0, 1));
    assert_eq!(header.channels(), 2);
    assert_eq!(header.mapping_family(), 0);
    assert_eq!(header.pre_skip(), 312);
    assert_eq!(header.sample_rate(), Some(48_000));
    assert_eq!(header.output_gain(), -16);
}

#[test]
fn id_header_with_nonzero_major_version_is_rejected() {
    assert_eq!(
        IdHeader::new(&id_header_bytes(0x21)).unwrap_err(),
        Error::Ogg(OggOpusError::UnsupportedVersion)
    );
}

#[test]
fn id_header_with_wrong_magic_is_rejected() {
    let mut data = id_header_bytes(0x01);
    data[4] = b'X';
    assert_eq!(
        IdHeader::new(&data).unwrap_err(),
        Error::Ogg(OggOpusError::BadMagic)
    );
}

#[test]
fn truncated_id_header_is_rejected() {
    assert_eq!(
        IdHeader::new(b"Opus").unwrap_err(),
        Error::Malformed(MalformedPacketError::UnexpectedEof)
    );
    assert_eq!(
        IdHeader::new(b"OpusHead").unwrap_err(),
        Error::Malformed(MalformedPacketError::UnexpectedEof)
    );
}

#[test]
fn id_header_zero_sample_rate_reads_back_as_none() {
    let mut data = id_header_bytes(0x01);
    data[12] = 0;
    data[13] = 0;
    data[14] = 0;
    data[15] = 0;
    let header = IdHeader::new(&data).unwrap();
    assert_eq!(header.sample_rate(), None);
}

#[test]
fn comment_header_parses_vendor_and_count() {
    let data = tags_bytes(b"vendor one", &[b"TITLE=Song", b"ARTIST=Band"]);
    let header = CommentHeader::new(&data).unwrap();
    assert_eq!(header.vendor(), "vendor one");

    let mut comments = header.comments();
    assert_eq!(comments.size_hint(), (0, Some(2)));
    assert_eq!(comments.next(), Some(("TITLE", "Song")));
    assert_eq!(comments.next(), Some(("ARTIST", "Band")));
    assert_eq!(comments.next(), None);
    assert_eq!(comments.size_hint(), (0, Some(0)));
}

#[test]
fn oversized_comment_packet_is_a_denial_of_service() {
    // one byte over the 125,829,120-byte ceiling, rejected before any field
    // is read: the buffer holds no magic at all
    let data = vec![0u8; 125_829_121];
    assert_eq!(
        CommentHeader::new(&data).unwrap_err(),
        Error::Ogg(OggOpusError::DenialOfService)
    );
}

#[test]
fn comment_header_with_wrong_magic_is_rejected() {
    let mut data = tags_bytes(b"v", &[]);
    data[0] = b'X';
    assert_eq!(
        CommentHeader::new(&data).unwrap_err(),
        Error::Ogg(OggOpusError::BadMagic)
    );
}

#[test]
fn truncated_comment_header_is_rejected() {
    // vendor length prefix runs past the end of the packet
    let mut data = b"OpusTags".to_vec();
    data.extend_from_slice(&100u32.to_le_bytes());
    data.extend_from_slice(b"short");
    assert_eq!(
        CommentHeader::new(&data).unwrap_err(),
        Error::Malformed(MalformedPacketError::UnexpectedEof)
    );
}

#[test]
fn malformed_comment_does_not_poison_later_comments() {
    // the first comment is not UTF-8; the second is well-formed
    let data = tags_bytes(b"v", &[&[0xFF, 0xFE, 0x3D, 0x80], b"TITLE=Song"]);
    let header = CommentHeader::new(&data).unwrap();
    let mut comments = header.comments();
    assert_eq!(comments.next(), None);
    assert_eq!(comments.next(), Some(("TITLE", "Song")));
    assert_eq!(comments.next(), None);
}

#[test]
fn comment_without_separator_yields_nothing_but_advances() {
    let data = tags_bytes(b"v", &[b"no separator here", b"KEY=value"]);
    let header = CommentHeader::new(&data).unwrap();
    let mut comments = header.comments();
    assert_eq!(comments.next(), None);
    assert_eq!(comments.next(), Some(("KEY", "value")));
}

#[test]
fn comment_with_overlong_declared_length_ends_iteration() {
    // the first comment declares more bytes than the packet holds; the cursor
    // parks at the end and later calls yield nothing
    let mut data = tags_bytes(b"v", &[]);
    // rewrite the count to 2 and append one bad comment
    let count_at = 8 + 4 + 1;
    data[count_at..count_at + 4].copy_from_slice(&2u32.to_le_bytes());
    data.extend_from_slice(&100u32.to_le_bytes());
    data.extend_from_slice(b"short");
    let header = CommentHeader::new(&data).unwrap();
    let mut comments = header.comments();
    assert_eq!(comments.next(), None);
    assert_eq!(comments.next(), None);
}

#[test]
fn vendor_with_invalid_utf8_is_replaced_not_rejected() {
    let data = tags_bytes(&[b't', b'e', 0xFF, b's', b't'], &[]);
    let header = CommentHeader::new(&data).unwrap();
    assert_eq!(header.vendor(), "te\u{FFFD}st");
}

#[test]
fn comment_count_survives_the_retain_cutoff() {
    // a packet longer than the ignore threshold keeps its declared count, but
    // comments past the retained bytes fail to parse
    let big = vec![b'x'; COMMENTS_IGNORE_LEN + 1000];
    let mut comment0 = b"A=".to_vec();
    comment0.extend_from_slice(&big);
    let data = tags_bytes(b"v", &[&comment0, b"B=c"]);
    assert!(data.len() > COMMENTS_IGNORE_LEN);
    let header = CommentHeader::new(&data).unwrap();
    let mut comments = header.comments();
    assert_eq!(comments.size_hint(), (0, Some(2)));
    // the first comment's declared length overruns the retained bytes
    assert_eq!(comments.next(), None);
    assert_eq!(comments.next(), None);
}

#[test]
fn error_messages_name_the_failure() {
    assert_eq!(
        OggOpusError::DenialOfService.message(),
        "suspected denial-of-service attack"
    );
    assert_eq!(
        Error::Ogg(OggOpusError::BadPaging).message(),
        "bad ogg paging alignment"
    );
    assert_eq!(
        Error::Read.message(),
        "the ogg container layer could not read a packet"
    );
}
