//! The table-of-contents (TOC) byte of an Opus packet: configuration number,
//! stereo flag and frame-layout code, per RFC 6716 section 3.1 and Table 2.
use vstd::prelude::*;

verus! {

/// The codec(s) of each frame within a specific packet.
#[derive(Debug, PartialEq, Eq, Structural, Clone, Copy, Hash)]
pub enum Mode {
    /// Uses only the SILK codec
    Silk,
    /// Uses both the SILK and CELT codecs
    Hybrid,
    /// Uses only the CELT codec
    Celt,
}

/// The bandwidth of each frame within a specific packet.
#[derive(Debug, PartialEq, Eq, Structural, Clone, Copy, Hash)]
pub enum Bandwidth {
    /// 4 kHz audio bandwidth, with an effective sample rate of 8 kHz
    Narrowband,
    /// 6 kHz audio bandwidth, with an effective sample rate of 12 kHz
    MediumBand,
    /// 8 kHz audio bandwidth, with an effective sample rate of 16 kHz
    Wideband,
    /// 12 kHz audio bandwidth, with an effective sample rate of 24 kHz
    SuperWideband,
    /// 20 kHz audio bandwidth, with an effective sample rate of 48 kHz
    Fullband,
}

/// The duration of frames within a specific packet.
#[derive(Debug, PartialEq, Eq, Structural, Clone, Copy, Hash)]
pub enum FrameSize {
    /// 2.5 ms
    TwoPointFive,
    /// 5 ms
    Five,
    /// 10 ms
    Ten,
    /// 20 ms
    Twenty,
    /// 40 ms
    Fourty,
    /// 60 ms
    Sixty,
}

/// A packet's configuration number, the five high bits of the TOC byte.
#[derive(Debug, PartialEq, Eq, Structural, Clone, Copy, Hash)]
pub struct ConfigNumber(pub u8);

/// The full decoder configuration carried by a configuration number.
#[derive(Debug, PartialEq, Eq, Structural, Clone, Copy, Hash)]
pub struct Config {
    pub mode: Mode,
    pub bandwidth: Bandwidth,
    pub frame_size: FrameSize,
}

impl Config {
    /// The codec ("mode") of the configuration.
    pub fn mode(self) -> (r: Mode)
        ensures
            r == self.mode,
    {
        self.mode
    }

    /// The bandwidth of the configuration.
    pub fn bandwidth(self) -> (r: Bandwidth)
        ensures
            r == self.bandwidth,
    {
        self.bandwidth
    }

    /// The frame duration of the configuration.
    pub fn frame_size(self) -> (r: FrameSize)
        ensures
            r == self.frame_size,
    {
        self.frame_size
    }
}

/// How the frames of a packet are laid out: the two low bits of the TOC byte.
#[derive(Debug, PartialEq, Eq, Structural, Clone, Copy, Hash)]
pub enum FramesLayout {
    /// 1 frame.
    One,
    /// 2 frames, each with an equal compressed size.
    TwoEqual,
    /// 2 frames, with different compressed sizes.
    TwoDifferent,
    /// An arbitrary number of frames.
    Arbitrary,
}

/// The table-of-contents (TOC) byte of a packet.
#[derive(Debug, PartialEq, Eq, Structural, Clone, Copy, Hash)]
pub struct TableOfContents(pub u8);

/// The frame count byte of a code 3 packet.
#[derive(Debug, PartialEq, Eq, Structural, Clone, Copy, Hash)]
pub struct FrameCount(pub u8);

/// The configuration number encoded in a TOC byte: its five high bits.
pub open spec fn spec_config_num(b: u8) -> u8 {
    (b >> 3) & 0x1f
}

/// The mode assigned to a configuration number by RFC 6716 Table 2.
pub open spec fn spec_mode(n: u8) -> Mode {
    if n <= 11 {
        Mode::Silk
    } else if n <= 15 {
        Mode::Hybrid
    } else {
        Mode::Celt
    }
}

/// The bandwidth assigned to a configuration number by RFC 6716 Table 2.
pub open spec fn spec_bandwidth(n: u8) -> Bandwidth {
    if n <= 3 || (16 <= n && n <= 19) {
        Bandwidth::Narrowband
    } else if n <= 7 {
        Bandwidth::MediumBand
    } else if n <= 11 || (20 <= n && n <= 23) {
        Bandwidth::Wideband
    } else if n == 12 || n == 13 || (24 <= n && n <= 27) {
        Bandwidth::SuperWideband
    } else {
        Bandwidth::Fullband
    }
}

/// The frame duration assigned to a configuration number by RFC 6716 Table 2.
pub open spec fn spec_frame_size(n: u8) -> FrameSize {
    if n == 16 || n == 20 || n == 24 || n == 28 {
        FrameSize::TwoPointFive
    } else if n == 17 || n == 21 || n == 25 || n == 29 {
        FrameSize::Five
    } else if n == 0 || n == 4 || n == 8 || n == 12 || n == 14 || n == 18 || n == 22 || n == 26
        || n == 30 {
        FrameSize::Ten
    } else if n == 2 || n == 6 || n == 10 {
        FrameSize::Fourty
    } else if n == 3 || n == 7 || n == 11 {
        FrameSize::Sixty
    } else {
        FrameSize::Twenty
    }
}

/// A frame duration in microseconds.
pub open spec fn spec_micros(fs: FrameSize) -> u16 {
    match fs {
        FrameSize::TwoPointFive => 2_500,
        FrameSize::Five => 5_000,
        FrameSize::Ten => 10_000,
        FrameSize::Twenty => 20_000,
        FrameSize::Fourty => 40_000,
        FrameSize::Sixty => 60_000,
    }
}

/// The configuration triple assigned to a configuration number.
pub open spec fn spec_config(n: u8) -> Config {
    Config {
        mode: spec_mode(n),
        bandwidth: spec_bandwidth(n),
        frame_size: spec_frame_size(n),
    }
}

/// The stereo flag of a TOC byte: its third-lowest bit.
pub open spec fn spec_stereo(b: u8) -> bool {
    b & 0x04 != 0
}

/// The frame layout assigned to a two-bit code.
pub open spec fn spec_layout(c: u8) -> FramesLayout {
    if c == 0 {
        FramesLayout::One
    } else if c == 1 {
        FramesLayout::TwoEqual
    } else if c == 2 {
        FramesLayout::TwoDifferent
    } else {
        FramesLayout::Arbitrary
    }
}

/// The frame layout encoded in a TOC byte: its two low bits.
pub open spec fn spec_toc_layout(b: u8) -> FramesLayout {
    spec_layout(b & 0x03)
}

impl ConfigNumber {
    /// Accepts exactly the configuration numbers that RFC 6716 defines, 0 to 31.
    pub fn new(config: u8) -> (r: Option<ConfigNumber>)
        ensures
            config <= 31 ==> r == Some(ConfigNumber(config)),
            config > 31 ==> r is None,
    {
        if config <= 31 {
            Some(ConfigNumber(config))
        } else {
            None
        }
    }

    /// The mode of this configuration number, per RFC 6716 Table 2.
    pub fn mode(self) -> (r: Mode)
        ensures
            r == spec_mode(self.0),
    {
        if self.0 <= 11 {
            Mode::Silk
        } else if self.0 <= 15 {
            Mode::Hybrid
        } else {
            Mode::Celt
        }
    }

    /// The bandwidth of this configuration number, per RFC 6716 Table 2.
    pub fn bandwidth(self) -> (r: Bandwidth)
        ensures
            r == spec_bandwidth(self.0),
    {
        let n = self.0;
        if n <= 3 || (16 <= n && n <= 19) {
            Bandwidth::Narrowband
        } else if n <= 7 {
            Bandwidth::MediumBand
        } else if n <= 11 || (20 <= n && n <= 23) {
            Bandwidth::Wideband
        } else if n == 12 || n == 13 || (24 <= n && n <= 27) {
            Bandwidth::SuperWideband
        } else {
            Bandwidth::Fullband
        }
    }

    /// The frame duration of this configuration number, per RFC 6716 Table 2.
    pub fn frame_size(self) -> (r: FrameSize)
        ensures
            r == spec_frame_size(self.0),
    {
        let n = self.0;
        if n == 16 || n == 20 || n == 24 || n == 28 {
            FrameSize::TwoPointFive
        } else if n == 17 || n == 21 || n == 25 || n == 29 {
            FrameSize::Five
        } else if n == 0 || n == 4 || n == 8 || n == 12 || n == 14 || n == 18 || n == 22 || n == 26
            || n == 30 {
            FrameSize::Ten
        } else if n == 2 || n == 6 || n == 10 {
            FrameSize::Fourty
        } else if n == 3 || n == 7 || n == 11 {
            FrameSize::Sixty
        } else {
            FrameSize::Twenty
        }
    }

    /// The full configuration triple of this configuration number.
    pub fn config(self) -> (r: Config)
        ensures
            r == spec_config(self.0),
    {
        Config { mode: self.mode(), bandwidth: self.bandwidth(), frame_size: self.frame_size() }
    }
}

impl FrameSize {
    /// Returns the corresponding number of microseconds as an integer.
    pub fn as_microseconds(self) -> (r: u16)
        ensures
            r == spec_micros(self),
    {
        match self {
            FrameSize::TwoPointFive => 2_500,
            FrameSize::Five => 5_000,
            FrameSize::Ten => 10_000,
            FrameSize::Twenty => 20_000,
            FrameSize::Fourty => 40_000,
            FrameSize::Sixty => 60_000,
        }
    }
}

impl FramesLayout {
    /// Decodes a two-bit layout code; codes above 3 are not layouts.
    pub fn new(c: u8) -> (r: Option<FramesLayout>)
        ensures
            c <= 3 ==> r == Some(spec_layout(c)),
            c > 3 ==> r is None,
    {
        if c == 0 {
            Some(FramesLayout::One)
        } else if c == 1 {
            Some(FramesLayout::TwoEqual)
        } else if c == 2 {
            Some(FramesLayout::TwoDifferent)
        } else if c == 3 {
            Some(FramesLayout::Arbitrary)
        } else {
            None
        }
    }
}

impl TableOfContents {
    /// The configuration number carried by this TOC byte.
    pub fn config_number(self) -> (r: ConfigNumber)
        ensures
            r == ConfigNumber(spec_config_num(self.0)),
            spec_config_num(self.0) <= 31,
    {
        let b = self.0;
        proof {
            assert((b >> 3) & 0x1f <= 31) by (bit_vector);
        }
        ConfigNumber((b >> 3) & 0x1f)
    }

    /// Returns the overall configuration specified.
    pub fn config(self) -> (r: Config)
        ensures
            r == spec_config(spec_config_num(self.0)),
    {
        self.config_number().config()
    }

    /// Returns the specified codec ("mode").
    pub fn mode(self) -> (r: Mode)
        ensures
            r == spec_mode(spec_config_num(self.0)),
    {
        self.config_number().mode()
    }

    /// Returns the specified bandwidth.
    pub fn bandwidth(self) -> (r: Bandwidth)
        ensures
            r == spec_bandwidth(spec_config_num(self.0)),
    {
        self.config_number().bandwidth()
    }

    /// Returns the specified frame size.
    pub fn frame_size(self) -> (r: FrameSize)
        ensures
            r == spec_frame_size(spec_config_num(self.0)),
    {
        self.config_number().frame_size()
    }

    /// Returns whether the frames are stereo (`true`) or mono (`false`).
    pub fn stereo(self) -> (r: bool)
        ensures
            r == spec_stereo(self.0),
    {
        self.0 & 0x04 != 0
    }

    /// Returns the frame layout specified by the two low bits.
    pub fn frames_layout(self) -> (r: FramesLayout)
        ensures
            r == spec_toc_layout(self.0),
    {
        let b = self.0;
        let c = b & 0x03;
        proof {
            assert(b & 0x03 <= 3) by (bit_vector);
        }
        if c == 0 {
            FramesLayout::One
        } else if c == 1 {
            FramesLayout::TwoEqual
        } else if c == 2 {
            FramesLayout::TwoDifferent
        } else {
            FramesLayout::Arbitrary
        }
    }
}

impl FrameCount {
    /// Returns whether this packet is VBR (`true`) or CBR (`false`).
    pub fn vbr(self) -> (r: bool)
        ensures
            r == spec_vbr(self.0),
    {
        self.0 & 0x80 != 0
    }

    /// Returns whether or not this packet contains Opus padding.
    pub fn padding(self) -> (r: bool)
        ensures
            r == spec_has_padding(self.0),
    {
        self.0 & 0x40 != 0
    }

    /// Returns the number of frames in this packet.
    pub fn frame_count(self) -> (r: u8)
        ensures
            r == spec_frame_count(self.0),
            r <= 63,
    {
        let b = self.0;
        proof {
            assert(b & 0x3f <= 63) by (bit_vector);
        }
        b & 0x3f
    }
}

/// The VBR flag of a frame count byte: its high bit.
pub open spec fn spec_vbr(b: u8) -> bool {
    b & 0x80 != 0
}

/// The padding-present flag of a frame count byte: its second-highest bit.
pub open spec fn spec_has_padding(b: u8) -> bool {
    b & 0x40 != 0
}

/// The frame count carried by a frame count byte: its six low bits.
pub open spec fn spec_frame_count(b: u8) -> u8 {
    b & 0x3f
}

impl Default for TableOfContents {
    /// A zero TOC byte: configuration 0, mono, one frame.
    fn default() -> (r: TableOfContents)
        ensures
            r == TableOfContents(0),
    {
        TableOfContents(0)
    }
}

impl Default for ConfigNumber {
    /// The configuration number of the default TOC byte.
    fn default() -> (r: ConfigNumber)
        ensures
            r == ConfigNumber(0),
    {
        ConfigNumber(0)
    }
}

impl Default for Mode {
    /// The mode of the default TOC byte.
    fn default() -> (r: Mode)
        ensures
            r == spec_mode(0),
    {
        Mode::Silk
    }
}

impl Default for Bandwidth {
    /// The bandwidth of the default TOC byte.
    fn default() -> (r: Bandwidth)
        ensures
            r == spec_bandwidth(0),
    {
        Bandwidth::Narrowband
    }
}

impl Default for FrameSize {
    /// The frame duration of the default TOC byte.
    fn default() -> (r: FrameSize)
        ensures
            r == spec_frame_size(0),
    {
        FrameSize::Ten
    }
}

impl Default for Config {
    /// The configuration of the default TOC byte.
    fn default() -> (r: Config)
        ensures
            r == spec_config(0),
    {
        Config {
            mode: Mode::Silk,
            bandwidth: Bandwidth::Narrowband,
            frame_size: FrameSize::Ten,
        }
    }
}

impl Default for FramesLayout {
    /// The frame layout of the default TOC byte.
    fn default() -> (r: FramesLayout)
        ensures
            r == spec_layout(0),
    {
        FramesLayout::One
    }
}

impl Default for FrameCount {
    /// A zero frame count byte: CBR, no padding, zero frames.
    fn default() -> (r: FrameCount)
        ensures
            r == FrameCount(0),
    {
        FrameCount(0)
    }
}

/// Every TOC byte carries a configuration number that RFC 6716 Table 2
/// defines, so decoding the TOC byte is total: no byte value is rejected.
pub proof fn lemma_toc_total(b: u8)
    ensures
        spec_config_num(b) <= 31,
{
    assert((b >> 3) & 0x1f <= 31) by (bit_vector);
}

/// Decoding the configuration is deterministic: two TOC bytes that carry the
/// same configuration number always decode to the same
/// (mode, bandwidth, frame size) triple of the fixed table.
pub proof fn lemma_toc_config_deterministic(a: u8, b: u8)
    requires
        spec_config_num(a) == spec_config_num(b),
    ensures
        spec_config(spec_config_num(a)) == spec_config(spec_config_num(b)),
{
}

} // verus!
