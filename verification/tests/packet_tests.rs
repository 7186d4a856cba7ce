use opus_framing::error::Error;
use opus_framing::packet::{Decoder, MalformedPacketError, Packet};
use opus_framing::sample::PayloadDecoder;
use opus_framing::toc::{Config, FrameSize, Mode};

fn frames_of(packet: &Packet) -> Vec<Vec<u8>> {
    let mut frames = Vec::new();
    let mut i = 0;
    while i < packet.frame_count() {
        frames.push(packet.frame(i).to_vec());
        i += 1;
    }
    frames
}

#[test]
fn code_0_ten_byte_packet_yields_one_nine_byte_frame() {
    let data = [0x00u8, 1, 2, 3, 4, 5, 6, 7, 8, 9];
    let packet = Packet::new(&data).unwrap();
    assert_eq!(packet.config().mode, Mode::Silk);
    assert!(!packet.stereo());
    assert_eq!(frames_of(&packet), vec![vec![1, 2, 3, 4, 5, 6, 7, 8, 9]]);
}

#[test]
fn empty_packet_is_unexpected_eof() {
    assert_eq!(
        Packet::new(&[]).unwrap_err(),
        MalformedPacketError::UnexpectedEof
    );
}

#[test]
fn code_0_overlong_frame_iff_over_1275_bytes() {
    // 1275-byte frame: accepted
    let mut data = vec![0x00u8];
    data.extend_from_slice(&[7u8; 1275]);
    let packet = Packet::new(&data).unwrap();
    assert_eq!(packet.frame_count(), 1);
    assert_eq!(packet.frame(0).len(), 1275);

    // 1276-byte frame: rejected
    let mut data = vec![0x00u8];
    data.extend_from_slice(&[7u8; 1276]);
    assert_eq!(
        Packet::new(&data).unwrap_err(),
        MalformedPacketError::OverlongFrame
    );
}

#[test]
fn code_1_splits_the_body_in_equal_halves() {
    let data = [0x01u8, 10, 11, 12, 13];
    let packet = Packet::new(&data).unwrap();
    assert_eq!(frames_of(&packet), vec![vec![10, 11], vec![12, 13]]);
}

#[test]
fn code_1_odd_body_is_uneven_frame_lengths() {
    let data = [0x01u8, 10, 11, 12];
    assert_eq!(
        Packet::new(&data).unwrap_err(),
        MalformedPacketError::UnevenFrameLengths
    );
}

#[test]
fn code_2_reads_the_first_length_and_infers_the_second() {
    let data = [0x02u8, 3, 20, 21, 22, 30, 31];
    let packet = Packet::new(&data).unwrap();
    assert_eq!(frames_of(&packet), vec![vec![20, 21, 22], vec![30, 31]]);
}

#[test]
fn code_2_first_frame_longer_than_packet_is_frame_overflow() {
    let data = [0x02u8, 5, 20, 21];
    assert_eq!(
        Packet::new(&data).unwrap_err(),
        MalformedPacketError::FrameOverflow
    );
}

#[test]
fn code_2_empty_body_is_unexpected_eof() {
    assert_eq!(
        Packet::new(&[0x02u8]).unwrap_err(),
        MalformedPacketError::UnexpectedEof
    );
}

#[test]
fn code_3_cbr_divides_the_body_evenly() {
    // frame count byte: CBR, no padding, 2 frames
    let data = [0x03u8, 0b0000_0010, 1, 2, 3, 4, 5, 6];
    let packet = Packet::new(&data).unwrap();
    assert_eq!(frames_of(&packet), vec![vec![1, 2, 3], vec![4, 5, 6]]);
}

#[test]
fn code_3_cbr_uneven_body_is_uneven_frame_lengths() {
    let data = [0x03u8, 0b0000_0010, 1, 2, 3, 4, 5];
    assert_eq!(
        Packet::new(&data).unwrap_err(),
        MalformedPacketError::UnevenFrameLengths
    );
}

#[test]
fn code_3_cbr_overlong_frame_iff_over_1275_bytes() {
    // CBR, no padding, 1 frame of 2000 bytes: over the limit
    let mut data = vec![0x03u8, 0b0000_0001];
    data.extend_from_slice(&[7u8; 2000]);
    assert_eq!(
        Packet::new(&data).unwrap_err(),
        MalformedPacketError::OverlongFrame
    );

    // exactly 1275 bytes per frame: accepted
    let mut data = vec![0x03u8, 0b0000_0010];
    data.extend_from_slice(&[7u8; 2550]);
    let packet = Packet::new(&data).unwrap();
    assert_eq!(packet.frame_count(), 2);
    assert_eq!(packet.frame(0).len(), 1275);
    assert_eq!(packet.frame(1).len(), 1275);
}

#[test]
fn code_3_vbr_overlong_inferred_last_frame_is_rejected() {
    // VBR, no padding, 2 frames; the first is 1 byte, the inferred last frame
    // would be 2000 bytes: over the limit
    let mut data = vec![0x03u8, 0b1000_0010, 1, 9];
    data.extend_from_slice(&[7u8; 2000]);
    assert_eq!(
        Packet::new(&data).unwrap_err(),
        MalformedPacketError::OverlongFrame
    );

    // an inferred last frame of exactly 1275 bytes: accepted
    let mut data = vec![0x03u8, 0b1000_0010, 1, 9];
    data.extend_from_slice(&[7u8; 1275]);
    let packet = Packet::new(&data).unwrap();
    assert_eq!(packet.frame_count(), 2);
    assert_eq!(packet.frame(1).len(), 1275);
}

#[test]
fn code_3_vbr_reads_explicit_lengths_and_infers_the_last() {
    // VBR, no padding, 3 frames; lengths 2 and 3 are explicit, the last frame
    // takes the remaining 4 bytes
    let data = [0x03u8, 0b1000_0011, 2, 3, 1, 2, 3, 4, 5, 6, 7, 8, 9];
    let packet = Packet::new(&data).unwrap();
    assert_eq!(
        frames_of(&packet),
        vec![vec![1, 2], vec![3, 4, 5], vec![6, 7, 8, 9]]
    );
}

#[test]
fn code_3_vbr_single_frame_takes_the_whole_body() {
    // the boundary case: one VBR frame under implicit framing has no explicit
    // length code at all
    let data = [0x03u8, 0b1000_0001, 1, 2, 3, 4];
    let packet = Packet::new(&data).unwrap();
    assert_eq!(frames_of(&packet), vec![vec![1, 2, 3, 4]]);
}

#[test]
fn code_3_zero_frames_is_rejected() {
    let data = [0x03u8, 0b0000_0000, 1, 2, 3];
    assert_eq!(
        Packet::new(&data).unwrap_err(),
        MalformedPacketError::ZeroFrames
    );
}

#[test]
fn code_3_zero_frames_wins_over_missing_padding() {
    // the padding flag is set but no padding byte follows; the zero frame
    // count is rejected before any padding is read
    let data = [0x03u8, 0b0100_0000];
    assert_eq!(
        Packet::new(&data).unwrap_err(),
        MalformedPacketError::ZeroFrames
    );
}

#[test]
fn code_3_over_120_ms_is_overlong_duration() {
    // config 0 has 10 ms frames, so 13 frames are 130 ms
    let mut data = vec![0x03u8, 13];
    data.extend_from_slice(&[0u8; 13]);
    assert_eq!(
        Packet::new(&data).unwrap_err(),
        MalformedPacketError::OverlongDuration
    );
}

#[test]
fn code_3_overlong_duration_wins_over_missing_padding() {
    // padding flag set, no padding byte; the duration check comes first
    let data = [0x03u8, 0b0100_0000 | 13];
    assert_eq!(
        Packet::new(&data).unwrap_err(),
        MalformedPacketError::OverlongDuration
    );
}

#[test]
fn code_3_padding_length_is_254_per_255_byte_plus_terminal() {
    // CBR, padding, 1 frame; padding size bytes [255, 4] code 254 + 4 = 258
    // padding bytes, leaving a 2-byte frame
    let mut data = vec![0x03u8, 0b0100_0001, 255, 4, 9, 8];
    data.extend_from_slice(&[0u8; 258]);
    let packet = Packet::new(&data).unwrap();
    assert_eq!(frames_of(&packet), vec![vec![9, 8]]);
}

#[test]
fn code_3_padding_without_terminal_byte_is_unexpected_eof() {
    let data = [0x03u8, 0b0100_0001, 255, 255, 255];
    assert_eq!(
        Packet::new(&data).unwrap_err(),
        MalformedPacketError::UnexpectedEof
    );
}

#[test]
fn code_3_padding_longer_than_body_is_unexpected_eof() {
    // padding of 20 declared, but only 3 bytes remain
    let data = [0x03u8, 0b0100_0001, 20, 1, 2, 3];
    assert_eq!(
        Packet::new(&data).unwrap_err(),
        MalformedPacketError::UnexpectedEof
    );
}

#[test]
fn self_delimited_code_0_returns_the_remainder() {
    let data = [0x00u8, 3, 1, 2, 3, 90, 91];
    let (packet, rem) = Packet::new_with_framing(&data, true).unwrap();
    assert_eq!(frames_of(&packet), vec![vec![1, 2, 3]]);
    assert_eq!(rem, &[90, 91]);
}

#[test]
fn self_delimited_code_1_sizes_both_frames_with_one_length() {
    let data = [0x01u8, 2, 1, 2, 3, 4, 90];
    let (packet, rem) = Packet::new_with_framing(&data, true).unwrap();
    assert_eq!(frames_of(&packet), vec![vec![1, 2], vec![3, 4]]);
    assert_eq!(rem, &[90]);
}

#[test]
fn self_delimited_code_2_reads_both_lengths() {
    let data = [0x02u8, 1, 2, 7, 8, 9, 90];
    let (packet, rem) = Packet::new_with_framing(&data, true).unwrap();
    assert_eq!(frames_of(&packet), vec![vec![7], vec![8, 9]]);
    assert_eq!(rem, &[90]);
}

#[test]
fn self_delimited_code_3_cbr_reads_one_length_for_all_frames() {
    let data = [0x03u8, 0b0000_0010, 2, 1, 2, 3, 4, 90];
    let (packet, rem) = Packet::new_with_framing(&data, true).unwrap();
    assert_eq!(frames_of(&packet), vec![vec![1, 2], vec![3, 4]]);
    assert_eq!(rem, &[90]);
}

#[test]
fn self_delimited_truncated_frame_is_unexpected_eof() {
    let data = [0x00u8, 5, 1, 2];
    assert_eq!(
        Packet::new_with_framing(&data, true).unwrap_err(),
        MalformedPacketError::UnexpectedEof
    );
}

#[test]
fn two_byte_length_code_is_four_times_second_plus_first() {
    // first byte 252 and second byte 12 code a length of 12 * 4 + 252 = 300
    let mut data = vec![0x00u8, 252, 12];
    data.extend_from_slice(&[3u8; 300]);
    data.push(90);
    let (packet, rem) = Packet::new_with_framing(&data, true).unwrap();
    assert_eq!(packet.frame_count(), 1);
    assert_eq!(packet.frame(0).len(), 300);
    assert_eq!(rem, &[90]);
}

#[test]
fn round_trip_preserves_frame_bytes_for_every_layout() {
    // code 0
    let f = [5u8, 6, 7];
    let mut data = vec![0x00u8];
    data.extend_from_slice(&f);
    assert_eq!(frames_of(&Packet::new(&data).unwrap()), vec![f.to_vec()]);

    // code 1, equal frames
    let (f1, f2) = ([1u8, 2], [3u8, 4]);
    let mut data = vec![0x01u8];
    data.extend_from_slice(&f1);
    data.extend_from_slice(&f2);
    assert_eq!(
        frames_of(&Packet::new(&data).unwrap()),
        vec![f1.to_vec(), f2.to_vec()]
    );

    // code 2, different frames
    let (f1, f2) = ([1u8], [2u8, 3, 4]);
    let mut data = vec![0x02u8, f1.len() as u8];
    data.extend_from_slice(&f1);
    data.extend_from_slice(&f2);
    assert_eq!(
        frames_of(&Packet::new(&data).unwrap()),
        vec![f1.to_vec(), f2.to_vec()]
    );

    // code 3 CBR
    let (f1, f2, f3) = ([1u8, 2], [3u8, 4], [5u8, 6]);
    let mut data = vec![0x03u8, 3];
    data.extend_from_slice(&f1);
    data.extend_from_slice(&f2);
    data.extend_from_slice(&f3);
    assert_eq!(
        frames_of(&Packet::new(&data).unwrap()),
        vec![f1.to_vec(), f2.to_vec(), f3.to_vec()]
    );

    // code 3 VBR
    let (f1, f2) = ([1u8, 2, 3], [4u8]);
    let mut data = vec![0x03u8, 0b1000_0010, f1.len() as u8];
    data.extend_from_slice(&f1);
    data.extend_from_slice(&f2);
    assert_eq!(
        frames_of(&Packet::new(&data).unwrap()),
        vec![f1.to_vec(), f2.to_vec()]
    );
}

#[test]
fn malformed_packet_error_messages() {
    assert_eq!(
        MalformedPacketError::OverlongFrame.message(),
        "contained frame exceeds 1275 byte limit"
    );
    assert_eq!(
        MalformedPacketError::ZeroFrames.message(),
        "contained zero frames"
    );
}

struct SummingDecoder;

impl PayloadDecoder<Vec<i16>, i16> for SummingDecoder {
    fn decode_frame(
        &mut self,
        _config: Config,
        _stereo: bool,
        frame: &[u8],
        _channel_count: u8,
        _buf: &mut Vec<i16>,
    ) -> Result<usize, Error> {
        Ok(frame.len())
    }
}

struct FailingDecoder;

impl PayloadDecoder<Vec<i16>, i16> for FailingDecoder {
    fn decode_frame(
        &mut self,
        _config: Config,
        _stereo: bool,
        _frame: &[u8],
        _channel_count: u8,
        _buf: &mut Vec<i16>,
    ) -> Result<usize, Error> {
        Err(Error::Read)
    }
}

#[test]
fn decoder_sums_the_payload_sample_counts() {
    let data = [0x01u8, 10, 11, 12, 13];
    let packet = Packet::new(&data).unwrap();
    let mut decoder = Decoder::new(48_000, 2);
    let mut buf: Vec<i16> = Vec::new();
    let mut payload = SummingDecoder;
    assert_eq!(decoder.decode(Some(packet), &mut buf, &mut payload), Ok(4));
}

#[test]
fn decoder_propagates_the_payload_error() {
    let data = [0x00u8, 1, 2, 3];
    let packet = Packet::new(&data).unwrap();
    let mut decoder = Decoder::new(48_000, 1);
    let mut buf: Vec<i16> = Vec::new();
    let mut payload = FailingDecoder;
    assert_eq!(
        decoder.decode(Some(packet), &mut buf, &mut payload),
        Err(Error::Read)
    );
}

#[test]
fn stereo_flag_reaches_the_packet() {
    let data = [0x04u8, 1, 2];
    let packet = Packet::new(&data).unwrap();
    assert!(packet.stereo());
    assert_eq!(packet.config().frame_size, FrameSize::Ten);
}
