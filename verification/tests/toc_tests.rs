use opus_framing::toc::{
    Bandwidth, ConfigNumber, FrameCount, FrameSize, FramesLayout, Mode, TableOfContents,
};

#[test]
fn toc_byte_zero_is_silk_narrowband_ten_ms_mono_one_frame() {
    let toc = TableOfContents(0x00);
    let config = toc.config();
    assert_eq!(config.mode, Mode::Silk);
    assert_eq!(config.bandwidth, Bandwidth::Narrowband);
    assert_eq!(config.frame_size, FrameSize::Ten);
    assert!(!toc.stereo());
    assert_eq!(toc.frames_layout(), FramesLayout::One);
}

#[test]
fn config_table_matches_rfc_table_2() {
    for n in 0u8..=31 {
        let config = ConfigNumber::new(n).unwrap().config();

        let mode = if n <= 11 {
            Mode::Silk
        } else if n <= 15 {
            Mode::Hybrid
        } else {
            Mode::Celt
        };
        assert_eq!(config.mode, mode, "mode of config {}", n);

        let bandwidth = match n {
            0..=3 | 16..=19 => Bandwidth::Narrowband,
            4..=7 => Bandwidth::MediumBand,
            8..=11 | 20..=23 => Bandwidth::Wideband,
            12 | 13 | 24..=27 => Bandwidth::SuperWideband,
            _ => Bandwidth::Fullband,
        };
        assert_eq!(config.bandwidth, bandwidth, "bandwidth of config {}", n);

        let micros = match n {
            16 | 20 | 24 | 28 => 2_500,
            17 | 21 | 25 | 29 => 5_000,
            0 | 4 | 8 | 12 | 14 | 18 | 22 | 26 | 30 => 10_000,
            1 | 5 | 9 | 13 | 15 | 19 | 23 | 27 | 31 => 20_000,
            2 | 6 | 10 => 40_000,
            _ => 60_000,
        };
        assert_eq!(
            config.frame_size.as_microseconds(),
            micros,
            "frame size of config {}",
            n
        );
    }
}

#[test]
fn decode_is_total_and_deterministic_over_all_bytes() {
    for b in 0u8..=255 {
        let toc = TableOfContents(b);
        // total: every byte decodes without panicking
        let first = (toc.config(), toc.stereo(), toc.frames_layout());
        // deterministic: the same byte always decodes the same way
        let second = (toc.config(), toc.stereo(), toc.frames_layout());
        assert_eq!(first, second);
        // the configuration depends on the config number alone
        let config = ConfigNumber::new(b >> 3).unwrap().config();
        assert_eq!(first.0, config);
    }
}

#[test]
fn config_number_accepts_exactly_zero_to_thirty_one() {
    assert_eq!(ConfigNumber::new(0), Some(ConfigNumber(0)));
    assert_eq!(ConfigNumber::new(31), Some(ConfigNumber(31)));
    assert_eq!(ConfigNumber::new(32), None);
    assert_eq!(ConfigNumber::new(255), None);
}

#[test]
fn frames_layout_codes_map_to_the_four_layouts() {
    assert_eq!(FramesLayout::new(0), Some(FramesLayout::One));
    assert_eq!(FramesLayout::new(1), Some(FramesLayout::TwoEqual));
    assert_eq!(FramesLayout::new(2), Some(FramesLayout::TwoDifferent));
    assert_eq!(FramesLayout::new(3), Some(FramesLayout::Arbitrary));
    assert_eq!(FramesLayout::new(4), None);
}

#[test]
fn stereo_and_layout_bits_of_the_toc_byte() {
    let toc = TableOfContents(0b0000_0110);
    assert!(toc.stereo());
    assert_eq!(toc.frames_layout(), FramesLayout::TwoDifferent);
}

#[test]
fn frame_count_byte_fields() {
    let fc = FrameCount(0b1100_0101);
    assert!(fc.vbr());
    assert!(fc.padding());
    assert_eq!(fc.frame_count(), 5);

    let fc = FrameCount(0b0011_1111);
    assert!(!fc.vbr());
    assert!(!fc.padding());
    assert_eq!(fc.frame_count(), 63);
}

#[test]
fn frame_sizes_in_microseconds() {
    assert_eq!(FrameSize::TwoPointFive.as_microseconds(), 2_500);
    assert_eq!(FrameSize::Five.as_microseconds(), 5_000);
    assert_eq!(FrameSize::Ten.as_microseconds(), 10_000);
    assert_eq!(FrameSize::Twenty.as_microseconds(), 20_000);
    assert_eq!(FrameSize::Fourty.as_microseconds(), 40_000);
    assert_eq!(FrameSize::Sixty.as_microseconds(), 60_000);
}
