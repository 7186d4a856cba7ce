//! Decodes Opus codec packets into sequences of frames, per RFC 6716 § 3.
use vstd::prelude::*;
use vstd::slice::slice_subrange;

use crate::error::Error;
use crate::sample::{PayloadDecoder, Sample, Samples, SAMPLES_PER_FRAME_MAX};
use crate::toc::{
    Config, FrameSize, FramesLayout, TableOfContents, FrameCount, spec_config, spec_config_num,
    spec_stereo, spec_toc_layout, spec_micros, spec_vbr, spec_has_padding, spec_frame_count,
};

verus! {

/// The maximum allowable duration of a packet in microseconds (RFC 6716 § 3.4:R5).
pub const DURATION_MAX: u32 = 120_000;

/// The maximum implicit length of a frame, in bytes, according to RFC 6716 § 3.4:R2.
pub const FRAME_LEN_MAX: usize = 1275;

/// The error type returned when a packet is malformed.
///
/// Each variant is tied to an RFC 6716 § 3.4 conformance rule.
#[derive(Debug, PartialEq, Eq, Structural, PartialOrd, Ord, Clone, Copy, Hash)]
pub enum MalformedPacketError {
    /// The packet's buffer was exhausted in the middle of parsing (R1 and
    /// general truncation).
    UnexpectedEof,
    /// A contained frame is longer than the limit of 1275 bytes (R2).
    OverlongFrame,
    /// The packet has an invalid payload length for its contents, such that the
    /// length of its frames cannot be inferred (R3/R6).
    UnevenFrameLengths,
    /// The packet's first frame purports to be longer than the packet itself (R4).
    FrameOverflow,
    /// The packet contained zero frames (R5 clause 1).
    ZeroFrames,
    /// The audio duration within this packet exceeded 120 ms (R5 clause 2).
    OverlongDuration,
}

impl MalformedPacketError {
    /// A short description of the error.
    pub fn message(&self) -> &'static str {
        match self {
            MalformedPacketError::UnexpectedEof => "unexpected end of packet data",
            MalformedPacketError::OverlongFrame => "contained frame exceeds 1275 byte limit",
            MalformedPacketError::UnevenFrameLengths => "packet has invalid payload length",
            MalformedPacketError::FrameOverflow => "contained frame longer than packet itself",
            MalformedPacketError::ZeroFrames => "contained zero frames",
            MalformedPacketError::OverlongDuration => "frames totaled longer than 120 ms",
        }
    }
}

/// The decoded shape of a packet body: its frame byte ranges, in order, and
/// the bytes that follow the packet.
pub ghost struct SpecPacket {
    pub config: Config,
    pub stereo: bool,
    pub frames: Seq<Seq<u8>>,
    pub rem: Seq<u8>,
}

/// The RFC 6716 § 3.2.1 length code at the head of `b`: the encoded length and
/// how many bytes encode it. A first byte of 0 to 251 is the length itself; a
/// first byte of 252 to 255 needs a second byte, and the length is
/// `second * 4 + first`.
pub open spec fn spec_length_code(b: Seq<u8>) -> Result<(int, int), MalformedPacketError> {
    if b.len() == 0 {
        Err(MalformedPacketError::UnexpectedEof)
    } else if b[0] <= 251 {
        Ok((b[0] as int, 1))
    } else if b.len() < 2 {
        Err(MalformedPacketError::UnexpectedEof)
    } else {
        Ok((b[1] * 4 + b[0], 2))
    }
}

/// The Opus padding length coded at the head of `b`: each byte valued 255
/// contributes 254 and continues the code; the first byte below 255 ends it
/// and contributes its own value. Returns the padding length and the number of
/// bytes that code it.
pub open spec fn spec_padding(b: Seq<u8>) -> Result<(int, int), MalformedPacketError>
    decreases b.len(),
{
    if b.len() == 0 {
        Err(MalformedPacketError::UnexpectedEof)
    } else if b[0] == 255 {
        match spec_padding(b.skip(1)) {
            Ok((pad, consumed)) => Ok((pad + 254, consumed + 1)),
            Err(e) => Err(e),
        }
    } else {
        Ok((b[0] as int, 1))
    }
}

/// The sum of a sequence of lengths.
pub open spec fn spec_sum(lens: Seq<int>) -> int
    decreases lens.len(),
{
    if lens.len() == 0 {
        0
    } else {
        lens[0] + spec_sum(lens.skip(1))
    }
}

/// The consecutive byte ranges of `b` that begin at `start` and have the given
/// lengths.
pub open spec fn spec_frames(b: Seq<u8>, start: int, lens: Seq<int>) -> Seq<Seq<u8>>
    decreases lens.len(),
{
    if lens.len() == 0 {
        Seq::empty()
    } else {
        seq![b.subrange(start, start + lens[0])] + spec_frames(b, start + lens[0], lens.skip(1))
    }
}

/// `n` length codes read back to back from the head of `b`: the lengths, in
/// order, and the total number of bytes that code them.
pub open spec fn spec_vbr_lens(b: Seq<u8>, n: nat) -> Result<
    (Seq<int>, int),
    MalformedPacketError,
>
    decreases n,
{
    if n == 0 {
        Ok((Seq::empty(), 0))
    } else {
        match spec_length_code(b) {
            Err(e) => Err(e),
            Ok((len, off)) => match spec_vbr_lens(b.skip(off), (n - 1) as nat) {
                Err(e) => Err(e),
                Ok((lens, off2)) => Ok((seq![len] + lens, off + off2)),
            },
        }
    }
}

/// Decoding a code 0 packet body: a single frame. Self-delimited framing reads
/// the frame's length code; implicit framing takes the whole buffer as the
/// frame and rejects it past 1275 bytes (R2).
pub open spec fn spec_code0(sd: bool, b: Seq<u8>) -> Result<
    (Seq<Seq<u8>>, Seq<u8>),
    MalformedPacketError,
> {
    if sd {
        match spec_length_code(b) {
            Err(e) => Err(e),
            Ok((len, off)) => if off + len > b.len() {
                Err(MalformedPacketError::UnexpectedEof)
            } else {
                Ok((seq![b.subrange(off, off + len)], b.skip(off + len)))
            },
        }
    } else {
        if b.len() > FRAME_LEN_MAX {
            Err(MalformedPacketError::OverlongFrame)
        } else {
            Ok((seq![b], Seq::empty()))
        }
    }
}

/// Decoding a code 1 packet body: two equal-size frames. Self-delimited
/// framing reads one length code that sizes each frame; implicit framing
/// splits the buffer in half, rejecting odd totals (R3) and overlong halves (R2).
pub open spec fn spec_code1(sd: bool, b: Seq<u8>) -> Result<
    (Seq<Seq<u8>>, Seq<u8>),
    MalformedPacketError,
> {
    if sd {
        match spec_length_code(b) {
            Err(e) => Err(e),
            Ok((len, off)) => if off + 2 * len > b.len() {
                Err(MalformedPacketError::UnexpectedEof)
            } else {
                Ok(
                    (
                        seq![
                            b.subrange(off, off + len),
                            b.subrange(off + len, off + 2 * len),
                        ],
                        b.skip(off + 2 * len),
                    ),
                )
            },
        }
    } else {
        if b.len() % 2 != 0 {
            Err(MalformedPacketError::UnevenFrameLengths)
        } else if b.len() / 2 > FRAME_LEN_MAX {
            Err(MalformedPacketError::OverlongFrame)
        } else {
            Ok(
                (
                    seq![
                        b.subrange(0, b.len() as int / 2),
                        b.subrange(b.len() as int / 2, b.len() as int),
                    ],
                    Seq::empty(),
                ),
            )
        }
    }
}

/// Decoding a code 2 packet body: two frames of different sizes. The first
/// frame's length is always an explicit length code; the second's is explicit
/// under self-delimited framing and inferred from the remaining buffer under
/// implicit framing, where a first frame longer than the buffer is a
/// `FrameOverflow` (R4).
pub open spec fn spec_code2(sd: bool, b: Seq<u8>) -> Result<
    (Seq<Seq<u8>>, Seq<u8>),
    MalformedPacketError,
> {
    match spec_length_code(b) {
        Err(e) => Err(e),
        Ok((len1, off1)) => if sd {
            match spec_length_code(b.skip(off1)) {
                Err(e) => Err(e),
                Ok((len2, off2)) => {
                    let start = off1 + off2;
                    if start + len1 + len2 > b.len() {
                        Err(MalformedPacketError::UnexpectedEof)
                    } else {
                        Ok(
                            (
                                seq![
                                    b.subrange(start, start + len1),
                                    b.subrange(start + len1, start + len1 + len2),
                                ],
                                b.skip(start + len1 + len2),
                            ),
                        )
                    }
                },
            }
        } else {
            if len1 > b.len() - off1 {
                Err(MalformedPacketError::FrameOverflow)
            } else if b.len() - off1 - len1 > FRAME_LEN_MAX {
                Err(MalformedPacketError::OverlongFrame)
            } else {
                Ok(
                    (
                        seq![
                            b.subrange(off1, off1 + len1),
                            b.subrange(off1 + len1, b.len() as int),
                        ],
                        Seq::empty(),
                    ),
                )
            }
        },
    }
}

/// Decoding the frames of a code 3 VBR body `d` (the bytes after the frame
/// count byte and the padding length code), given the frame count `m` and the
/// measured padding length `pad`. Every frame's length is an explicit length
/// code, except the last frame under implicit framing, whose length is
/// whatever remains after the other frames and the padding; an inferred last
/// frame over 1275 bytes breaks R2 and is rejected as `OverlongFrame`.
pub open spec fn spec_code3_vbr(sd: bool, d: Seq<u8>, m: nat, pad: int) -> Result<
    (Seq<Seq<u8>>, Seq<u8>),
    MalformedPacketError,
> {
    if sd {
        match spec_vbr_lens(d, m) {
            Err(e) => Err(e),
            Ok((lens, hdr)) => if hdr + spec_sum(lens) + pad > d.len() {
                Err(MalformedPacketError::UnexpectedEof)
            } else {
                Ok((spec_frames(d, hdr, lens), d.skip(hdr + spec_sum(lens) + pad)))
            },
        }
    } else {
        match spec_vbr_lens(d, (m - 1) as nat) {
            Err(e) => Err(e),
            Ok((lens, hdr)) => if hdr + spec_sum(lens) + pad > d.len() {
                Err(MalformedPacketError::UnexpectedEof)
            } else if d.len() - pad - hdr - spec_sum(lens) > FRAME_LEN_MAX {
                Err(MalformedPacketError::OverlongFrame)
            } else {
                Ok(
                    (
                        spec_frames(d, hdr, lens.push(d.len() - pad - hdr - spec_sum(lens))),
                        Seq::empty(),
                    ),
                )
            },
        }
    }
}

/// Decoding the frames of a code 3 CBR body `d`, given the frame count `m` and
/// the measured padding length `pad`. Self-delimited framing reads one length
/// code used by every frame; implicit framing divides the buffer minus the
/// padding evenly by `m`, rejecting uneven totals (R6) and a uniform frame
/// length over 1275 bytes (R2).
pub open spec fn spec_code3_cbr(sd: bool, d: Seq<u8>, m: nat, pad: int) -> Result<
    (Seq<Seq<u8>>, Seq<u8>),
    MalformedPacketError,
> {
    if sd {
        match spec_length_code(d) {
            Err(e) => Err(e),
            Ok((len, off)) => if off + m * len + pad > d.len() {
                Err(MalformedPacketError::UnexpectedEof)
            } else {
                Ok(
                    (
                        spec_frames(d, off, Seq::new(m, |i: int| len)),
                        d.skip(off + m * len + pad),
                    ),
                )
            },
        }
    } else {
        let avail = d.len() - pad;
        if avail % (m as int) != 0 {
            Err(MalformedPacketError::UnevenFrameLengths)
        } else if avail / (m as int) > FRAME_LEN_MAX {
            Err(MalformedPacketError::OverlongFrame)
        } else {
            Ok((spec_frames(d, 0, Seq::new(m, |i: int| avail / (m as int))), Seq::empty()))
        }
    }
}

/// Decoding a code 3 packet body: frame count byte, R5 checks, padding length
/// code, then the VBR or CBR sub-decoder. The zero-frame and duration checks
/// come before any padding byte is read; padding longer than the rest of the
/// body is a truncation.
pub open spec fn spec_code3(fs: FrameSize, sd: bool, b: Seq<u8>) -> Result<
    (Seq<Seq<u8>>, Seq<u8>),
    MalformedPacketError,
> {
    if b.len() == 0 {
        Err(MalformedPacketError::UnexpectedEof)
    } else {
        let fc = b[0];
        let m = spec_frame_count(fc) as int;
        if m == 0 {
            Err(MalformedPacketError::ZeroFrames)
        } else if m * spec_micros(fs) > DURATION_MAX {
            Err(MalformedPacketError::OverlongDuration)
        } else {
            let d = b.skip(1);
            let pad_r = if spec_has_padding(fc) {
                spec_padding(d)
            } else {
                Ok((0int, 0int))
            };
            match pad_r {
                Err(e) => Err(e),
                Ok((pad, consumed)) => {
                    let d2 = d.skip(consumed);
                    if pad > d2.len() {
                        Err(MalformedPacketError::UnexpectedEof)
                    } else if spec_vbr(fc) {
                        spec_code3_vbr(sd, d2, m as nat, pad)
                    } else {
                        spec_code3_cbr(sd, d2, m as nat, pad)
                    }
                },
            }
        }
    }
}

/// Decoding a packet body under the given layout.
pub open spec fn spec_packet_body(fs: FrameSize, sd: bool, layout: FramesLayout, b: Seq<u8>) -> Result<
    (Seq<Seq<u8>>, Seq<u8>),
    MalformedPacketError,
> {
    match layout {
        FramesLayout::One => spec_code0(sd, b),
        FramesLayout::TwoEqual => spec_code1(sd, b),
        FramesLayout::TwoDifferent => spec_code2(sd, b),
        FramesLayout::Arbitrary => spec_code3(fs, sd, b),
    }
}

/// Decoding a whole packet: the TOC byte picks the configuration, the stereo
/// flag and the layout, and the body is split under that layout.
pub open spec fn spec_decode(sd: bool, data: Seq<u8>) -> Result<SpecPacket, MalformedPacketError> {
    if data.len() == 0 {
        Err(MalformedPacketError::UnexpectedEof)
    } else {
        let t = data[0];
        match spec_packet_body(
            spec_config(spec_config_num(t)).frame_size,
            sd,
            spec_toc_layout(t),
            data.skip(1),
        ) {
            Err(e) => Err(e),
            Ok((frames, rem)) => Ok(
                SpecPacket {
                    config: spec_config(spec_config_num(t)),
                    stereo: spec_stereo(t),
                    frames: frames,
                    rem: rem,
                },
            ),
        }
    }
}

/// A sequence of usizes as mathematical integers.
pub open spec fn lens_ints(lens: Seq<usize>) -> Seq<int> {
    lens.map_values(|l: usize| l as int)
}

/// The views of a sequence of byte slices.
pub open spec fn frames_view(frames: Seq<&[u8]>) -> Seq<Seq<u8>> {
    frames.map_values(|f: &[u8]| f@)
}

impl<'a> Packet<'a> {
    /// The decoder configuration shared by the packet's frames.
    pub closed spec fn spec_config(self) -> Config {
        self.config
    }

    /// Whether the packet's frames are stereo.
    pub closed spec fn spec_stereo(self) -> bool {
        self.stereo
    }

    /// The bytes of each frame, in order.
    pub closed spec fn spec_frames(self) -> Seq<Seq<u8>> {
        frames_view(self.frames@)
    }
}

/// An Opus codec packet: a group of frames with a shared configuration.
///
/// The frames are borrowed views into the caller's buffer, never copies, so a
/// `Packet` cannot outlive the buffer it was decoded from.
#[derive(Debug, Clone)]
pub struct Packet<'a> {
    /// Decoder configuration necessary for each frame.
    config: Config,
    /// Are the frames encoded as stereo (true) or mono (false).
    stereo: bool,
    /// Slices of each individual frame.
    frames: Vec<&'a [u8]>,
}

/// A sum of non-negative lengths is non-negative.
proof fn lemma_sum_nonneg(s: Seq<int>)
    requires
        forall|i: int| 0 <= i < s.len() ==> s[i] >= 0,
    ensures
        spec_sum(s) >= 0,
    decreases s.len(),
{
    if s.len() > 0 {
        assert(forall|i: int| 0 <= i < s.skip(1).len() ==> s.skip(1)[i] == s[i + 1]);
        lemma_sum_nonneg(s.skip(1));
    }
}

/// Appending one length adds it to the sum.
proof fn lemma_sum_push(s: Seq<int>, x: int)
    ensures
        spec_sum(s.push(x)) == spec_sum(s) + x,
    decreases s.len(),
{
    if s.len() == 0 {
        assert(s.push(x)[0] == x);
        assert(s.push(x).skip(1) =~= Seq::<int>::empty());
        assert(spec_sum(Seq::<int>::empty()) == 0);
    } else {
        assert(s.push(x)[0] == s[0]);
        assert(s.push(x).skip(1) =~= s.skip(1).push(x));
        lemma_sum_push(s.skip(1), x);
    }
}

/// Slices `lens.len()` consecutive frames out of `data`, beginning at `start`.
fn take_frames<'b>(data: &'b [u8], start: usize, lens: &Vec<usize>) -> (r: Vec<&'b [u8]>)
    requires
        start + spec_sum(lens_ints(lens@)) <= data@.len(),
    ensures
        frames_view(r@) == spec_frames(data@, start as int, lens_ints(lens@)),
        r@.len() == lens@.len(),
{
    let mut frames: Vec<&'b [u8]> = Vec::new();
    let mut offset: usize = start;
    let mut i: usize = 0;
    let data_len = data.len();

    proof {
        assert(data_len == data@.len() && data@.len() <= usize::MAX);
    }
    proof {
        assert(lens_ints(lens@).skip(0) =~= lens_ints(lens@));
        assert(frames_view(frames@) + spec_frames(data@, start as int, lens_ints(lens@))
            =~= spec_frames(data@, start as int, lens_ints(lens@)));
    }
    while i < lens.len()
        invariant
            i <= lens@.len(),
            frames@.len() == i,
            data@.len() <= usize::MAX,
            offset + spec_sum(lens_ints(lens@).skip(i as int)) <= data@.len(),
            frames_view(frames@) + spec_frames(data@, offset as int, lens_ints(lens@).skip(i as int))
                == spec_frames(data@, start as int, lens_ints(lens@)),
        decreases lens@.len() - i,
    {
        let ghost rest = lens_ints(lens@).skip(i as int);
        let len_i = lens[i];
        proof {
            assert(rest[0] == len_i as int);
            assert(rest.skip(1) =~= lens_ints(lens@).skip(i as int + 1));
            assert(forall|j: int| 0 <= j < rest.skip(1).len() ==> rest.skip(1)[j] >= 0);
            lemma_sum_nonneg(rest.skip(1));
            assert(spec_sum(rest) == rest[0] + spec_sum(rest.skip(1)));
        }
        let frame = slice_subrange(data, offset, offset + len_i);
        let ghost old_frames = frames@;
        frames.push(frame);
        proof {
            assert(frames_view(frames@) =~= frames_view(old_frames) + seq![frame@]);
            assert(frames_view(frames@) + spec_frames(data@, offset as int + len_i as int,
                rest.skip(1)) =~= frames_view(old_frames) + spec_frames(data@, offset as int,
                rest));
        }
        offset = offset + len_i;
        i = i + 1;
    }
    proof {
        assert(lens_ints(lens@).skip(i as int) =~= Seq::<int>::empty());
        assert(frames_view(frames@) + spec_frames(data@, offset as int, Seq::<int>::empty())
            =~= frames_view(frames@));
    }
    frames
}

/// The sum of `n` copies of `v` is `n * v`.
proof fn lemma_sum_const(n: nat, v: int)
    ensures
        spec_sum(Seq::new(n, |i: int| v)) == n * v,
    decreases n,
{
    if n == 0 {
        assert(Seq::new(0nat, |i: int| v) =~= Seq::<int>::empty());
        assert(spec_sum(Seq::<int>::empty()) == 0);
    } else {
        assert(Seq::new(n, |i: int| v).skip(1) =~= Seq::new((n - 1) as nat, |i: int| v));
        lemma_sum_const((n - 1) as nat, v);
        assert(((n - 1) as int) * v + v == n * v) by (nonlinear_arith);
    }
}

/// A vector of `n` copies of `len`.
fn repeat_len(len: usize, n: usize) -> (r: Vec<usize>)
    ensures
        lens_ints(r@) == Seq::new(n as nat, |i: int| len as int),
        r@.len() == n,
{
    let mut lens: Vec<usize> = Vec::new();
    let mut i: usize = 0;
    while i < n
        invariant
            i <= n,
            lens@.len() == i,
            lens_ints(lens@) =~= Seq::new(i as nat, |j: int| len as int),
        decreases n - i,
    {
        let ghost old_lens = lens@;
        lens.push(len);
        proof {
            assert(forall|j: int|
                0 <= j < lens@.len() ==> lens_ints(lens@)[j] == (#[trigger] lens@[j]) as int);
            assert(forall|j: int|
                0 <= j < old_lens.len() ==> lens_ints(old_lens)[j] == (#[trigger] old_lens[j]) as int);
            assert(forall|j: int| 0 <= j < old_lens.len() ==> old_lens[j] as int == len as int);
            assert(lens_ints(lens@) =~= Seq::new((i + 1) as nat, |j: int| len as int));
        }
        i = i + 1;
    }
    lens
}

/// Reads `n` length codes back to back from the head of `data`, returning the
/// lengths, the number of bytes the codes occupy, and the sum of the lengths.
fn read_vbr_lens(data: &[u8], n: usize) -> (r: Result<
    (Vec<usize>, usize, usize),
    MalformedPacketError,
>)
    requires
        n <= 63,
    ensures
        match r {
            Ok(v) => {
                &&& spec_vbr_lens(data@, n as nat) == Ok::<(Seq<int>, int), MalformedPacketError>(
                    (lens_ints(v.0@), v.1 as int),
                )
                &&& v.0@.len() == n
                &&& v.1 <= data@.len()
                &&& v.2 as int == spec_sum(lens_ints(v.0@))
                &&& v.2 <= n * FRAME_LEN_MAX
            },
            Err(e) => spec_vbr_lens(data@, n as nat) == Err::<(Seq<int>, int), MalformedPacketError>(
                e,
            ),
        },
{
    let mut lens: Vec<usize> = Vec::new();
    let mut offset: usize = 0;
    let mut total: usize = 0;
    let mut i: usize = 0;

    proof {
        assert(data@.skip(0) =~= data@);
        assert(lens_ints(lens@) =~= Seq::<int>::empty());
        assert(spec_sum(Seq::<int>::empty()) == 0);
    }
    while i < n
        invariant
            i <= n <= 63,
            lens@.len() == i,
            offset <= data@.len(),
            total as int == spec_sum(lens_ints(lens@)),
            total <= i * FRAME_LEN_MAX,
            (match spec_vbr_lens(data@.skip(offset as int), (n - i) as nat) {
                Ok(v2) => spec_vbr_lens(data@, n as nat) == Ok::<
                    (Seq<int>, int),
                    MalformedPacketError,
                >((lens_ints(lens@) + v2.0, offset + v2.1)),
                Err(e) => spec_vbr_lens(data@, n as nat) == Err::<
                    (Seq<int>, int),
                    MalformedPacketError,
                >(e),
            }),
        decreases n - i,
    {
        let tail = slice_subrange(data, offset, data.len());
        proof {
            assert(tail@ =~= data@.skip(offset as int));
        }
        let (l, c) = match Packet::length_code(tail) {
            Ok(v) => v,
            Err(e) => {
                return Err(e);
            },
        };
        let ghost old_lens = lens@;
        let ghost old_offset = offset as int;
        proof {
            let pre = data@.skip(old_offset);
            assert(pre.skip(c as int) =~= data@.skip(old_offset + c as int));
            match spec_vbr_lens(pre.skip(c as int), (n - i - 1) as nat) {
                Ok(v2) => {
                    assert(spec_vbr_lens(pre, (n - i) as nat) == Ok::<
                        (Seq<int>, int),
                        MalformedPacketError,
                    >((seq![l as int] + v2.0, c + v2.1)));
                    assert(lens_ints(old_lens).push(l as int) + v2.0 =~= lens_ints(old_lens) + (
                    seq![l as int] + v2.0));
                },
                Err(e) => {
                    assert(spec_vbr_lens(pre, (n - i) as nat) == Err::<
                        (Seq<int>, int),
                        MalformedPacketError,
                    >(e));
                },
            }
            lemma_sum_push(lens_ints(old_lens), l as int);
        }
        lens.push(l);
        proof {
            assert(lens_ints(lens@) =~= lens_ints(old_lens).push(l as int));
        }
        offset = offset + c;
        total = total + l;
        i = i + 1;
    }
    proof {
        assert(lens_ints(lens@) + Seq::<int>::empty() =~= lens_ints(lens@));
    }
    Ok((lens, offset, total))
}

impl<'a> Packet<'a> {
    /// Returns the length code of the packet and the offset to add.
    pub fn length_code(data: &[u8]) -> (r: Result<(usize, usize), MalformedPacketError>)
        ensures
            match r {
                Ok((len, off)) => spec_length_code(data@) == Ok::<(int, int), MalformedPacketError>(
                    (len as int, off as int),
                ) && len <= FRAME_LEN_MAX && 1 <= off <= 2 && off <= data@.len(),
                Err(e) => spec_length_code(data@) == Err::<(int, int), MalformedPacketError>(e),
            },
    {
        if data.len() == 0 {
            return Err(MalformedPacketError::UnexpectedEof);
        }
        let first = data[0];
        if first <= 251 {
            Ok((first as usize, 1))
        } else if data.len() < 2 {
            Err(MalformedPacketError::UnexpectedEof)
        } else {
            let second = data[1];
            Ok(((second as usize) * 4 + (first as usize), 2))
        }
    }

    /// Returns the length of the padding bytes at the end of the current
    /// packet, based on the padding size bytes, and the number of padding size
    /// bytes to skip over.
    pub fn padding(data: &[u8]) -> (r: Result<(u128, usize), MalformedPacketError>)
        ensures
            match r {
                Ok((pad, consumed)) => spec_padding(data@) == Ok::<
                    (int, int),
                    MalformedPacketError,
                >((pad as int, consumed as int)) && consumed <= data@.len(),
                Err(e) => spec_padding(data@) == Err::<(int, int), MalformedPacketError>(e),
            },
    {
        let mut pad: u128 = 0;
        let mut offset: usize = 0;

        proof {
            assert(data@.skip(0) =~= data@);
        }
        loop
            invariant
                offset <= data@.len(),
                pad <= 254 * (offset as u128),
                (match spec_padding(data@.skip(offset as int)) {
                    Ok((p, c)) => spec_padding(data@) == Ok::<(int, int), MalformedPacketError>(
                        (p + pad, c + offset),
                    ),
                    Err(e) => spec_padding(data@) == Err::<(int, int), MalformedPacketError>(e),
                }),
            decreases data@.len() - offset,
        {
            if offset >= data.len() {
                proof {
                    assert(data@.skip(offset as int).len() == 0);
                }
                return Err(MalformedPacketError::UnexpectedEof);
            }
            let byte = data[offset];
            proof {
                assert(data@.skip(offset as int)[0] == data@[offset as int]);
                assert(data@.skip(offset as int).skip(1) =~= data@.skip(offset as int + 1));
            }
            if byte == 255 {
                pad = pad + 254;
                offset = offset + 1;
            } else {
                return Ok((pad + (byte as u128), offset + 1));
            }
        }
    }

    /// Decodes the body of a code 0 packet.
    pub fn decode_code_0(config: Config, stereo: bool, self_delimiting: bool, data: &'a [u8]) -> (r:
        Result<(Packet<'a>, &'a [u8]), MalformedPacketError>)
        ensures
            body_result_matches(r, config, stereo, spec_code0(self_delimiting, data@)),
    {
        if self_delimiting {
            let (len, off) = match Packet::length_code(data) {
                Ok(v) => v,
                Err(e) => {
                    return Err(e);
                },
            };
            if len > data.len() - off {
                return Err(MalformedPacketError::UnexpectedEof);
            }
            let frame = slice_subrange(data, off, off + len);
            let rem = slice_subrange(data, off + len, data.len());
            let frames = vec![frame];
            proof {
                assert(frames_view(frames@) =~= seq![
                    data@.subrange(off as int, off as int + len as int),
                ]);
                assert(rem@ =~= data@.skip(off as int + len as int));
            }
            Ok((Packet { config, stereo, frames }, rem))
        } else {
            if data.len() > FRAME_LEN_MAX {
                return Err(MalformedPacketError::OverlongFrame);
            }
            let frame = slice_subrange(data, 0, data.len());
            let rem = slice_subrange(data, data.len(), data.len());
            let frames = vec![frame];
            proof {
                assert(frame@ =~= data@);
                assert(frames_view(frames@) =~= seq![data@]);
                assert(rem@ =~= Seq::<u8>::empty());
            }
            Ok((Packet { config, stereo, frames }, rem))
        }
    }

    /// Decodes the body of a code 1 packet.
    pub fn decode_code_1(config: Config, stereo: bool, self_delimiting: bool, data: &'a [u8]) -> (r:
        Result<(Packet<'a>, &'a [u8]), MalformedPacketError>)
        ensures
            body_result_matches(r, config, stereo, spec_code1(self_delimiting, data@)),
    {
        if self_delimiting {
            let (len, off) = match Packet::length_code(data) {
                Ok(v) => v,
                Err(e) => {
                    return Err(e);
                },
            };
            if 2 * len > data.len() - off {
                return Err(MalformedPacketError::UnexpectedEof);
            }
            let f1 = slice_subrange(data, off, off + len);
            let f2 = slice_subrange(data, off + len, off + 2 * len);
            let rem = slice_subrange(data, off + 2 * len, data.len());
            let frames = vec![f1, f2];
            proof {
                assert(frames_view(frames@) =~= seq![
                    data@.subrange(off as int, off as int + len as int),
                    data@.subrange(off as int + len as int, off as int + 2 * len as int),
                ]);
                assert(rem@ =~= data@.skip(off as int + 2 * len as int));
            }
            Ok((Packet { config, stereo, frames }, rem))
        } else {
            if data.len() % 2 != 0 {
                return Err(MalformedPacketError::UnevenFrameLengths);
            }
            let half = data.len() / 2;
            if half > FRAME_LEN_MAX {
                return Err(MalformedPacketError::OverlongFrame);
            }
            let f1 = slice_subrange(data, 0, half);
            let f2 = slice_subrange(data, half, data.len());
            let rem = slice_subrange(data, data.len(), data.len());
            let frames = vec![f1, f2];
            proof {
                assert(frames_view(frames@) =~= seq![
                    data@.subrange(0, data@.len() as int / 2),
                    data@.subrange(data@.len() as int / 2, data@.len() as int),
                ]);
                assert(rem@ =~= Seq::<u8>::empty());
            }
            Ok((Packet { config, stereo, frames }, rem))
        }
    }

    /// Decodes the body of a code 2 packet.
    pub fn decode_code_2(config: Config, stereo: bool, self_delimiting: bool, data: &'a [u8]) -> (r:
        Result<(Packet<'a>, &'a [u8]), MalformedPacketError>)
        ensures
            body_result_matches(r, config, stereo, spec_code2(self_delimiting, data@)),
    {
        let (len1, off1) = match Packet::length_code(data) {
            Ok(v) => v,
            Err(e) => {
                return Err(e);
            },
        };
        if self_delimiting {
            let tail = slice_subrange(data, off1, data.len());
            proof {
                assert(tail@ =~= data@.skip(off1 as int));
            }
            let (len2, off2) = match Packet::length_code(tail) {
                Ok(v) => v,
                Err(e) => {
                    return Err(e);
                },
            };
            let start = off1 + off2;
            if len1 + len2 > data.len() - start {
                return Err(MalformedPacketError::UnexpectedEof);
            }
            let f1 = slice_subrange(data, start, start + len1);
            let f2 = slice_subrange(data, start + len1, start + len1 + len2);
            let rem = slice_subrange(data, start + len1 + len2, data.len());
            let frames = vec![f1, f2];
            proof {
                assert(frames_view(frames@) =~= seq![
                    data@.subrange(start as int, start as int + len1 as int),
                    data@.subrange(
                        start as int + len1 as int,
                        start as int + len1 as int + len2 as int,
                    ),
                ]);
                assert(rem@ =~= data@.skip(start as int + len1 as int + len2 as int));
            }
            Ok((Packet { config, stereo, frames }, rem))
        } else {
            if len1 > data.len() - off1 {
                return Err(MalformedPacketError::FrameOverflow);
            }
            if data.len() - off1 - len1 > FRAME_LEN_MAX {
                return Err(MalformedPacketError::OverlongFrame);
            }
            let f1 = slice_subrange(data, off1, off1 + len1);
            let f2 = slice_subrange(data, off1 + len1, data.len());
            let rem = slice_subrange(data, data.len(), data.len());
            let frames = vec![f1, f2];
            proof {
                assert(frames_view(frames@) =~= seq![
                    data@.subrange(off1 as int, off1 as int + len1 as int),
                    data@.subrange(off1 as int + len1 as int, data@.len() as int),
                ]);
                assert(rem@ =~= Seq::<u8>::empty());
            }
            Ok((Packet { config, stereo, frames }, rem))
        }
    }

    /// Decodes the body of a code 3 packet.
    pub fn decode_code_3(config: Config, stereo: bool, self_delimiting: bool, data: &'a [u8]) -> (r:
        Result<(Packet<'a>, &'a [u8]), MalformedPacketError>)
        ensures
            body_result_matches(r, config, stereo, spec_code3(
                config.frame_size,
                self_delimiting,
                data@,
            )),
    {
        if data.len() == 0 {
            return Err(MalformedPacketError::UnexpectedEof);
        }
        let fc = FrameCount(data[0]);
        let frame_count = fc.frame_count();
        if frame_count == 0 {
            return Err(MalformedPacketError::ZeroFrames);
        }
        let length_us = FrameSize::as_microseconds(config.frame_size);
        proof {
            assert((frame_count as u32) * (length_us as u32) <= 63 * 60_000) by (nonlinear_arith)
                requires
                    frame_count <= 63,
                    length_us <= 60_000,
            ;
        }
        if (frame_count as u32) * (length_us as u32) > DURATION_MAX {
            return Err(MalformedPacketError::OverlongDuration);
        }
        let d = slice_subrange(data, 1, data.len());
        proof {
            assert(d@ =~= data@.skip(1));
        }
        let (pad, consumed): (u128, usize) = if fc.padding() {
            match Packet::padding(d) {
                Ok(v) => v,
                Err(e) => {
                    return Err(e);
                },
            }
        } else {
            (0, 0)
        };
        let d2 = slice_subrange(d, consumed, d.len());
        proof {
            assert(d2@ =~= d@.skip(consumed as int));
        }
        if pad > d2.len() as u128 {
            return Err(MalformedPacketError::UnexpectedEof);
        }
        let padding = pad as usize;
        if fc.vbr() {
            Packet::decode_code_3_vbr(config, stereo, self_delimiting, d2, frame_count, padding)
        } else {
            Packet::decode_code_3_cbr(config, stereo, self_delimiting, d2, frame_count, padding)
        }
    }

    /// Decodes the frames of a code 3 VBR packet, after the frame count byte
    /// and the padding length code.
    pub fn decode_code_3_vbr(
        config: Config,
        stereo: bool,
        self_delimiting: bool,
        data: &'a [u8],
        frame_count: u8,
        padding: usize,
    ) -> (r: Result<(Packet<'a>, &'a [u8]), MalformedPacketError>)
        requires
            1 <= frame_count <= 63,
            padding <= data@.len(),
        ensures
            body_result_matches(r, config, stereo, spec_code3_vbr(
                self_delimiting,
                data@,
                frame_count as nat,
                padding as int,
            )),
    {
        let n: usize = if self_delimiting {
            frame_count as usize
        } else {
            (frame_count - 1) as usize
        };
        let (mut lens, hdr, total) = match read_vbr_lens(data, n) {
            Ok(v) => v,
            Err(e) => {
                return Err(e);
            },
        };
        if padding > data.len() - hdr {
            return Err(MalformedPacketError::UnexpectedEof);
        }
        if total > data.len() - hdr - padding {
            return Err(MalformedPacketError::UnexpectedEof);
        }
        if self_delimiting {
            let frames = take_frames(data, hdr, &lens);
            let rem = slice_subrange(data, hdr + total + padding, data.len());
            proof {
                assert(rem@ =~= data@.skip(hdr as int + total as int + padding as int));
            }
            Ok((Packet { config, stereo, frames }, rem))
        } else {
            let last = data.len() - hdr - padding - total;
            if last > FRAME_LEN_MAX {
                return Err(MalformedPacketError::OverlongFrame);
            }
            let ghost old_lens = lens@;
            lens.push(last);
            proof {
                assert(lens_ints(lens@) =~= lens_ints(old_lens).push(last as int));
                lemma_sum_push(lens_ints(old_lens), last as int);
            }
            let frames = take_frames(data, hdr, &lens);
            let rem = slice_subrange(data, data.len(), data.len());
            proof {
                assert(rem@ =~= Seq::<u8>::empty());
            }
            Ok((Packet { config, stereo, frames }, rem))
        }
    }

    /// Decodes the frames of a code 3 CBR packet, after the frame count byte
    /// and the padding length code.
    pub fn decode_code_3_cbr(
        config: Config,
        stereo: bool,
        self_delimiting: bool,
        data: &'a [u8],
        frame_count: u8,
        padding: usize,
    ) -> (r: Result<(Packet<'a>, &'a [u8]), MalformedPacketError>)
        requires
            1 <= frame_count <= 63,
            padding <= data@.len(),
        ensures
            body_result_matches(r, config, stereo, spec_code3_cbr(
                self_delimiting,
                data@,
                frame_count as nat,
                padding as int,
            )),
    {
        let m = frame_count as usize;
        if self_delimiting {
            let (len, off) = match Packet::length_code(data) {
                Ok(v) => v,
                Err(e) => {
                    return Err(e);
                },
            };
            proof {
                assert(m * len <= 63 * 1275) by (nonlinear_arith)
                    requires
                        m <= 63,
                        len <= 1275,
                        0 <= m,
                        0 <= len,
                ;
            }
            if m * len > data.len() - off || padding > data.len() - off - m * len {
                return Err(MalformedPacketError::UnexpectedEof);
            }
            let lens = repeat_len(len, m);
            proof {
                lemma_sum_const(m as nat, len as int);
            }
            let frames = take_frames(data, off, &lens);
            let rem = slice_subrange(data, off + m * len + padding, data.len());
            proof {
                assert(rem@ =~= data@.skip(off as int + (m * len) as int + padding as int));
            }
            Ok((Packet { config, stereo, frames }, rem))
        } else {
            let avail = data.len() - padding;
            if avail % m != 0 {
                return Err(MalformedPacketError::UnevenFrameLengths);
            }
            let len = avail / m;
            if len > FRAME_LEN_MAX {
                return Err(MalformedPacketError::OverlongFrame);
            }
            proof {
                vstd::arithmetic::div_mod::lemma_fundamental_div_mod(avail as int, m as int);
            }
            let lens = repeat_len(len, m);
            proof {
                lemma_sum_const(m as nat, len as int);
            }
            let frames = take_frames(data, 0, &lens);
            let rem = slice_subrange(data, data.len(), data.len());
            proof {
                assert(rem@ =~= Seq::<u8>::empty());
            }
            Ok((Packet { config, stereo, frames }, rem))
        }
    }

    /// Decodes an internally-framed packet from bytes.
    ///
    /// The length of `data` must be exactly the length of the packet; the
    /// buffer's own length stands in for every length the framing leaves
    /// implicit.
    pub fn new(data: &'a [u8]) -> (r: Result<Packet<'a>, MalformedPacketError>)
        ensures
            match r {
                Ok(p) => {
                    &&& spec_decode(false, data@) is Ok
                    &&& p.spec_config() == spec_decode(false, data@).unwrap().config
                    &&& p.spec_stereo() == spec_decode(false, data@).unwrap().stereo
                    &&& p.spec_frames() == spec_decode(false, data@).unwrap().frames
                },
                Err(e) => spec_decode(false, data@) == Err::<SpecPacket, MalformedPacketError>(e),
            },
    {
        match Packet::new_with_framing(data, false) {
            Ok((packet, _)) => Ok(packet),
            Err(e) => Err(e),
        }
    }

    /// Decodes a potentially self-delimited packet from bytes, per RFC 6716
    /// Appendix B, returning the packet and the bytes that follow it.
    pub fn new_with_framing(data: &'a [u8], self_delimiting: bool) -> (r: Result<
        (Packet<'a>, &'a [u8]),
        MalformedPacketError,
    >)
        ensures
            decode_result_matches(r, spec_decode(self_delimiting, data@)),
    {
        if data.len() == 0 {
            return Err(MalformedPacketError::UnexpectedEof);
        }
        let toc = TableOfContents(data[0]);
        let body = slice_subrange(data, 1, data.len());
        proof {
            assert(body@ =~= data@.skip(1));
        }
        let config = toc.config();
        let stereo = toc.stereo();
        match toc.frames_layout() {
            FramesLayout::One => Packet::decode_code_0(config, stereo, self_delimiting, body),
            FramesLayout::TwoEqual => Packet::decode_code_1(config, stereo, self_delimiting, body),
            FramesLayout::TwoDifferent => Packet::decode_code_2(
                config,
                stereo,
                self_delimiting,
                body,
            ),
            FramesLayout::Arbitrary => Packet::decode_code_3(
                config,
                stereo,
                self_delimiting,
                body,
            ),
        }
    }

    /// The configuration shared by the packet's frames.
    pub fn config(&self) -> (r: Config)
        ensures
            r == self.spec_config(),
    {
        self.config
    }

    /// Whether the packet's frames are stereo.
    pub fn stereo(&self) -> (r: bool)
        ensures
            r == self.spec_stereo(),
    {
        self.stereo
    }

    /// The number of frames in the packet.
    pub fn frame_count(&self) -> (r: usize)
        ensures
            r == self.spec_frames().len(),
    {
        self.frames.len()
    }

    /// The bytes of one frame.
    pub fn frame(&self, i: usize) -> (r: &'a [u8])
        requires
            i < self.spec_frames().len(),
        ensures
            r@ == self.spec_frames()[i as int],
    {
        self.frames[i]
    }
}

/// A padding length code can only fail by truncation: whenever it fails, the
/// failure is `UnexpectedEof`.
proof fn lemma_padding_err_is_eof(b: Seq<u8>)
    ensures
        spec_padding(b) is Err ==> spec_padding(b) == Err::<(int, int), MalformedPacketError>(
            MalformedPacketError::UnexpectedEof,
        ),
    decreases b.len(),
{
    if b.len() > 0 && b[0] == 255 {
        lemma_padding_err_is_eof(b.skip(1));
    }
}

/// A run of length codes can only fail by truncation: whenever it fails, the
/// failure is `UnexpectedEof`.
proof fn lemma_vbr_lens_err_is_eof(b: Seq<u8>, n: nat)
    ensures
        spec_vbr_lens(b, n) is Err ==> spec_vbr_lens(b, n) == Err::<
            (Seq<int>, int),
            MalformedPacketError,
        >(MalformedPacketError::UnexpectedEof),
    decreases n,
{
    if n > 0 {
        match spec_length_code(b) {
            Err(_) => {},
            Ok((len, off)) => {
                lemma_vbr_lens_err_is_eof(b.skip(off), (n - 1) as nat);
            },
        }
    }
}

/// For a single-frame packet body, `OverlongFrame` is raised if and only if
/// the frame's length exceeds 1275 bytes, and never for a length of at most
/// 1275 bytes: a decoded single frame always fits the limit. Under
/// self-delimited framing a length code cannot express a length over 1275, so
/// the error can only arise from implicit framing.
pub proof fn lemma_overlong_frame_iff(sd: bool, b: Seq<u8>)
    ensures
        (spec_code0(sd, b) == Err::<(Seq<Seq<u8>>, Seq<u8>), MalformedPacketError>(
            MalformedPacketError::OverlongFrame,
        )) <==> (!sd && b.len() > FRAME_LEN_MAX),
        spec_code0(sd, b) is Ok ==> spec_code0(sd, b).unwrap().0.len() == 1 && spec_code0(
            sd,
            b,
        ).unwrap().0[0].len() <= FRAME_LEN_MAX,
{
}

/// For layout code 3, a zero frame count is rejected as `ZeroFrames`, and a
/// non-zero frame count whose total audio duration exceeds 120 ms as
/// `OverlongDuration` — each if and only if, whatever the rest of the body
/// holds, because both checks come before the padding length is read.
pub proof fn lemma_code3_guards(fs: FrameSize, sd: bool, b: Seq<u8>)
    requires
        b.len() > 0,
    ensures
        (spec_code3(fs, sd, b) == Err::<(Seq<Seq<u8>>, Seq<u8>), MalformedPacketError>(
            MalformedPacketError::ZeroFrames,
        )) <==> spec_frame_count(b[0]) == 0,
        (spec_code3(fs, sd, b) == Err::<(Seq<Seq<u8>>, Seq<u8>), MalformedPacketError>(
            MalformedPacketError::OverlongDuration,
        )) <==> (spec_frame_count(b[0]) != 0 && spec_frame_count(b[0]) * spec_micros(fs)
            > DURATION_MAX),
{
    let m = spec_frame_count(b[0]) as int;
    if m != 0 && m * spec_micros(fs) <= DURATION_MAX {
        let d = b.skip(1);
        if spec_has_padding(b[0]) {
            lemma_padding_err_is_eof(d);
        }
        match (if spec_has_padding(b[0]) {
            spec_padding(d)
        } else {
            Ok((0int, 0int))
        }) {
            Err(_) => {},
            Ok((pad, consumed)) => {
                let d2 = d.skip(consumed);
                if pad <= d2.len() {
                    if spec_vbr(b[0]) {
                        if sd {
                            lemma_vbr_lens_err_is_eof(d2, m as nat);
                        } else {
                            lemma_vbr_lens_err_is_eof(d2, (m - 1) as nat);
                        }
                    }
                }
            },
        }
    }
}

/// A padding length code of `n` bytes valued 255 followed by a terminal byte
/// `k` decodes to a padding length of `254 * n + k` and occupies `n + 1`
/// bytes, whatever follows it.
pub proof fn lemma_padding_value(n: nat, k: u8, rest: Seq<u8>)
    requires
        k < 255,
    ensures
        spec_padding(Seq::new(n, |i: int| 255u8) + seq![k] + rest) == Ok::<
            (int, int),
            MalformedPacketError,
        >((254 * n + k, n as int + 1)),
    decreases n,
{
    let s = Seq::new(n, |i: int| 255u8) + seq![k] + rest;
    if n == 0 {
        assert(s[0] == k);
    } else {
        assert(s[0] == 255);
        assert(s.skip(1) =~= Seq::new((n - 1) as nat, |i: int| 255u8) + seq![k] + rest);
        lemma_padding_value((n - 1) as nat, k, rest);
    }
}

/// A padding length code that runs out of bytes before a terminal byte below
/// 255 appears is rejected as `UnexpectedEof`.
pub proof fn lemma_padding_eof(n: nat)
    ensures
        spec_padding(Seq::new(n, |i: int| 255u8)) == Err::<(int, int), MalformedPacketError>(
            MalformedPacketError::UnexpectedEof,
        ),
    decreases n,
{
    let s = Seq::new(n, |i: int| 255u8);
    if n > 0 {
        assert(s[0] == 255);
        assert(s.skip(1) =~= Seq::new((n - 1) as nat, |i: int| 255u8));
        lemma_padding_eof((n - 1) as nat);
    }
}

/// Consecutive slicing yields one frame per length.
proof fn lemma_spec_frames_len(b: Seq<u8>, start: int, lens: Seq<int>)
    ensures
        spec_frames(b, start, lens).len() == lens.len(),
    decreases lens.len(),
{
    if lens.len() > 0 {
        lemma_spec_frames_len(b, start + lens[0], lens.skip(1));
    }
}

/// Reading `n` length codes yields `n` lengths.
proof fn lemma_vbr_lens_len(b: Seq<u8>, n: nat)
    ensures
        spec_vbr_lens(b, n) is Ok ==> spec_vbr_lens(b, n).unwrap().0.len() == n,
    decreases n,
{
    if n > 0 {
        match spec_length_code(b) {
            Err(_) => {},
            Ok((len, off)) => {
                lemma_vbr_lens_len(b.skip(off), (n - 1) as nat);
            },
        }
    }
}

/// A decoded packet holds between 1 and 63 frames: one or two under layout
/// codes 0 to 2, and the frame count byte's six-bit count under code 3.
pub proof fn lemma_decode_frame_count(sd: bool, data: Seq<u8>)
    ensures
        spec_decode(sd, data) is Ok ==> 1 <= spec_decode(sd, data).unwrap().frames.len() <= 63,
{
    if data.len() > 0 {
        let t = data[0];
        let b = data.skip(1);
        let fs = spec_config(spec_config_num(t)).frame_size;
        if spec_toc_layout(t) == FramesLayout::Arbitrary && b.len() > 0 {
            let fc = b[0];
            assert(forall|x: u8| #[trigger] (x & 0x3f) <= 63) by (bit_vector);
            let m = spec_frame_count(fc) as int;
            if m != 0 && m * spec_micros(fs) <= DURATION_MAX {
                let d = b.skip(1);
                match (if spec_has_padding(fc) {
                    spec_padding(d)
                } else {
                    Ok((0int, 0int))
                }) {
                    Err(_) => {},
                    Ok((pad, consumed)) => {
                        let d2 = d.skip(consumed);
                        if pad <= d2.len() {
                            if spec_vbr(fc) {
                                if sd {
                                    lemma_vbr_lens_len(d2, m as nat);
                                    match spec_vbr_lens(d2, m as nat) {
                                        Err(_) => {},
                                        Ok((lens, hdr)) => {
                                            lemma_spec_frames_len(d2, hdr, lens);
                                        },
                                    }
                                } else {
                                    lemma_vbr_lens_len(d2, (m - 1) as nat);
                                    match spec_vbr_lens(d2, (m - 1) as nat) {
                                        Err(_) => {},
                                        Ok((lens, hdr)) => {
                                            lemma_spec_frames_len(
                                                d2,
                                                hdr,
                                                lens.push(
                                                    d2.len() - pad - hdr - spec_sum(lens),
                                                ),
                                            );
                                        },
                                    }
                                }
                            } else {
                                if sd {
                                    match spec_length_code(d2) {
                                        Err(_) => {},
                                        Ok((len, off)) => {
                                            lemma_spec_frames_len(
                                                d2,
                                                off,
                                                Seq::new(m as nat, |i: int| len),
                                            );
                                        },
                                    }
                                } else {
                                    let avail = d2.len() - pad;
                                    lemma_spec_frames_len(
                                        d2,
                                        0,
                                        Seq::new(m as nat, |i: int| avail / m),
                                    );
                                }
                            }
                        }
                    },
                }
            }
        }
    }
}

/// Lengths read from length codes lie between 0 and 1275 — two code bytes can
/// express no more — and the codes span a non-negative number of bytes.
proof fn lemma_vbr_lens_bounds(b: Seq<u8>, n: nat)
    ensures
        spec_vbr_lens(b, n) is Ok ==> spec_vbr_lens(b, n).unwrap().1 >= 0,
        spec_vbr_lens(b, n) is Ok ==> forall|i: int|
            0 <= i < spec_vbr_lens(b, n).unwrap().0.len() ==> 0 <= #[trigger] spec_vbr_lens(
                b,
                n,
            ).unwrap().0[i] <= FRAME_LEN_MAX,
    decreases n,
{
    if n > 0 {
        match spec_length_code(b) {
            Err(_) => {},
            Ok((len, off)) => {
                lemma_vbr_lens_bounds(b.skip(off), (n - 1) as nat);
                match spec_vbr_lens(b.skip(off), (n - 1) as nat) {
                    Err(_) => {},
                    Ok((lens2, hdr2)) => {
                        let combined = seq![len] + lens2;
                        assert forall|i: int|
                            0 <= i < combined.len() implies 0 <= #[trigger] combined[i]
                            <= FRAME_LEN_MAX by {
                            if i == 0 {
                                assert(combined[0] == len);
                            } else {
                                assert(combined[i] == lens2[i - 1]);
                            }
                        }
                    },
                }
            },
        }
    }
}

/// Slicing consecutive non-negative lengths that fit the buffer yields one
/// frame per length, each exactly its length long.
proof fn lemma_spec_frames_fit(b: Seq<u8>, start: int, lens: Seq<int>)
    requires
        0 <= start,
        start + spec_sum(lens) <= b.len(),
        forall|i: int| 0 <= i < lens.len() ==> #[trigger] lens[i] >= 0,
    ensures
        forall|i: int| 0 <= i < lens.len() ==> spec_frames(b, start, lens)[i].len()
            == #[trigger] lens[i],
    decreases lens.len(),
{
    if lens.len() > 0 {
        assert(forall|i: int| 0 <= i < lens.skip(1).len() ==> lens.skip(1)[i] == lens[i + 1]);
        assert(spec_sum(lens) == lens[0] + spec_sum(lens.skip(1)));
        lemma_sum_nonneg(lens.skip(1));
        lemma_spec_frames_fit(b, start + lens[0], lens.skip(1));
        lemma_spec_frames_len(b, start + lens[0], lens.skip(1));
        let frames = spec_frames(b, start, lens);
        let rest = spec_frames(b, start + lens[0], lens.skip(1));
        assert(frames == seq![b.subrange(start, start + lens[0])] + rest);
        assert forall|i: int| 0 <= i < lens.len() implies frames[i].len() == #[trigger] lens[i] by {
            if i == 0 {
                assert(frames[0] == b.subrange(start, start + lens[0]));
                assert(b.subrange(start, start + lens[0]).len() == lens[0]);
            } else {
                assert(frames[i] == rest[i - 1]);
                assert(rest[i - 1].len() == lens.skip(1)[i - 1]);
            }
        }
    }
}

/// Every frame of a decoded packet fits the 1275-byte cap of RFC 6716
/// § 3.4:R2: a length code cannot express more, and every length the framing
/// infers or divides out of the buffer is checked against the cap.
pub proof fn lemma_decoded_frames_fit(sd: bool, data: Seq<u8>)
    ensures
        spec_decode(sd, data) is Ok ==> forall|i: int|
            0 <= i < spec_decode(sd, data).unwrap().frames.len() ==> #[trigger] spec_decode(
                sd,
                data,
            ).unwrap().frames[i].len() <= FRAME_LEN_MAX,
{
    if data.len() > 0 {
        let t = data[0];
        let b = data.skip(1);
        let fs = spec_config(spec_config_num(t)).frame_size;
        match spec_toc_layout(t) {
            FramesLayout::One => {
                if sd {
                    match spec_length_code(b) {
                        Err(_) => {},
                        Ok((len, off)) => {
                            if off + len <= b.len() {
                                assert(seq![b.subrange(off, off + len)][0].len() == len);
                            }
                        },
                    }
                } else {
                    if b.len() <= FRAME_LEN_MAX {
                        assert(seq![b][0].len() == b.len());
                    }
                }
            },
            FramesLayout::TwoEqual => {
                if sd {
                    match spec_length_code(b) {
                        Err(_) => {},
                        Ok((len, off)) => {
                            if off + 2 * len <= b.len() {
                                let frames = seq![
                                    b.subrange(off, off + len),
                                    b.subrange(off + len, off + 2 * len),
                                ];
                                assert(frames[0].len() == len && frames[1].len() == len);
                            }
                        },
                    }
                } else {
                    if b.len() % 2 == 0 && b.len() / 2 <= FRAME_LEN_MAX {
                        vstd::arithmetic::div_mod::lemma_fundamental_div_mod(b.len() as int, 2);
                        let half = b.len() as int / 2;
                        let frames = seq![
                            b.subrange(0, half),
                            b.subrange(half, b.len() as int),
                        ];
                        assert(frames[0].len() == half && frames[1].len() == b.len() - half);
                    }
                }
            },
            FramesLayout::TwoDifferent => {
                match spec_length_code(b) {
                    Err(_) => {},
                    Ok((len1, off1)) => {
                        if sd {
                            match spec_length_code(b.skip(off1)) {
                                Err(_) => {},
                                Ok((len2, off2)) => {
                                    let start = off1 + off2;
                                    if start + len1 + len2 <= b.len() {
                                        let frames = seq![
                                            b.subrange(start, start + len1),
                                            b.subrange(start + len1, start + len1 + len2),
                                        ];
                                        assert(frames[0].len() == len1 && frames[1].len()
                                            == len2);
                                    }
                                },
                            }
                        } else {
                            if len1 <= b.len() - off1 && b.len() - off1 - len1 <= FRAME_LEN_MAX {
                                let frames = seq![
                                    b.subrange(off1, off1 + len1),
                                    b.subrange(off1 + len1, b.len() as int),
                                ];
                                assert(frames[0].len() == len1 && frames[1].len() == b.len()
                                    - off1 - len1);
                            }
                        }
                    },
                }
            },
            FramesLayout::Arbitrary => {
                lemma_code3_frames_fit(fs, sd, b);
            },
        }
    }
}

/// Frames cut along lengths that fit the cap fit the cap themselves.
proof fn lemma_frames_within(b: Seq<u8>, start: int, lens: Seq<int>)
    requires
        0 <= start,
        start + spec_sum(lens) <= b.len(),
        forall|i: int| 0 <= i < lens.len() ==> 0 <= #[trigger] lens[i] <= FRAME_LEN_MAX,
    ensures
        spec_frames(b, start, lens).len() == lens.len(),
        forall|i: int| 0 <= i < spec_frames(b, start, lens).len() ==> #[trigger] spec_frames(
            b,
            start,
            lens,
        )[i].len() <= FRAME_LEN_MAX,
{
    lemma_spec_frames_len(b, start, lens);
    lemma_spec_frames_fit(b, start, lens);
    assert forall|i: int|
        0 <= i < spec_frames(b, start, lens).len() implies #[trigger] spec_frames(
        b,
        start,
        lens,
    )[i].len() <= FRAME_LEN_MAX by {
        assert(spec_frames(b, start, lens)[i].len() == lens[i]);
    }
}

/// A decoded padding length is never negative.
proof fn lemma_padding_nonneg(b: Seq<u8>)
    ensures
        spec_padding(b) is Ok ==> spec_padding(b).unwrap().0 >= 0,
    decreases b.len(),
{
    if b.len() > 0 && b[0] == 255 {
        lemma_padding_nonneg(b.skip(1));
    }
}

/// The code 3 case of the frame cap: explicit VBR and CBR lengths come from
/// length codes, the inferred VBR last frame and the divided CBR frame length
/// are checked against the cap before any frame is cut.
proof fn lemma_code3_frames_fit(fs: FrameSize, sd: bool, b: Seq<u8>)
    ensures
        spec_code3(fs, sd, b) is Ok ==> forall|i: int|
            0 <= i < spec_code3(fs, sd, b).unwrap().0.len() ==> #[trigger] spec_code3(
                fs,
                sd,
                b,
            ).unwrap().0[i].len() <= FRAME_LEN_MAX,
{
    if b.len() > 0 {
        let fc = b[0];
        let m = spec_frame_count(fc) as int;
        if m != 0 && m * spec_micros(fs) <= DURATION_MAX {
            let d = b.skip(1);
            if spec_has_padding(fc) {
                lemma_padding_nonneg(d);
            }
            match (if spec_has_padding(fc) {
                spec_padding(d)
            } else {
                Ok((0int, 0int))
            }) {
                Err(_) => {},
                Ok((pad, consumed)) => {
                    let d2 = d.skip(consumed);
                    if pad <= d2.len() {
                        if spec_vbr(fc) {
                            if sd {
                                lemma_vbr_lens_bounds(d2, m as nat);
                                match spec_vbr_lens(d2, m as nat) {
                                    Err(_) => {},
                                    Ok((lens, hdr)) => {
                                        if hdr + spec_sum(lens) + pad <= d2.len() {
                                            lemma_frames_within(d2, hdr, lens);
                                        }
                                    },
                                }
                            } else {
                                lemma_vbr_lens_bounds(d2, (m - 1) as nat);
                                match spec_vbr_lens(d2, (m - 1) as nat) {
                                    Err(_) => {},
                                    Ok((lens, hdr)) => {
                                        let last = d2.len() - pad - hdr - spec_sum(lens);
                                        if hdr + spec_sum(lens) + pad <= d2.len() && last
                                            <= FRAME_LEN_MAX {
                                            let lens2 = lens.push(last);
                                            lemma_sum_push(lens, last);
                                            assert(forall|i: int|
                                                0 <= i < lens2.len() ==> 0 <= #[trigger] lens2[i]
                                                    <= FRAME_LEN_MAX);
                                            lemma_frames_within(d2, hdr, lens2);
                                        }
                                    },
                                }
                            }
                        } else {
                            if sd {
                                match spec_length_code(d2) {
                                    Err(_) => {},
                                    Ok((len, off)) => {
                                        if off + m * len + pad <= d2.len() {
                                            let lens = Seq::new(m as nat, |i: int| len);
                                            lemma_sum_const(m as nat, len);
                                            assert(forall|i: int|
                                                0 <= i < lens.len() ==> 0 <= #[trigger] lens[i]
                                                    <= FRAME_LEN_MAX);
                                            lemma_frames_within(d2, off, lens);
                                        }
                                    },
                                }
                            } else {
                                let avail = d2.len() - pad;
                                if avail % m == 0 && avail / m <= FRAME_LEN_MAX {
                                    vstd::arithmetic::div_mod::lemma_fundamental_div_mod(
                                        avail,
                                        m,
                                    );
                                    vstd::arithmetic::div_mod::lemma_div_pos_is_pos(avail, m);
                                    let lens = Seq::new(m as nat, |i: int| avail / m);
                                    lemma_sum_const(m as nat, avail / m);
                                    assert(forall|i: int|
                                        0 <= i < lens.len() ==> 0 <= #[trigger] lens[i]
                                            <= FRAME_LEN_MAX);
                                    lemma_frames_within(d2, 0, lens);
                                }
                            }
                        }
                    }
                },
            }
        }
    }
}

/// Whether an executable decode result agrees with the spec-level decoding of
/// a packet body: same frames, same remainder, same error.
pub open spec fn body_result_matches<'a>(
    r: Result<(Packet<'a>, &'a [u8]), MalformedPacketError>,
    config: Config,
    stereo: bool,
    sp: Result<(Seq<Seq<u8>>, Seq<u8>), MalformedPacketError>,
) -> bool {
    match r {
        Ok((p, rem)) => {
            &&& sp is Ok
            &&& p.spec_config() == config
            &&& p.spec_stereo() == stereo
            &&& p.spec_frames() == sp.unwrap().0
            &&& rem@ == sp.unwrap().1
        },
        Err(e) => sp == Err::<(Seq<Seq<u8>>, Seq<u8>), MalformedPacketError>(e),
    }
}

/// Whether an executable packet decode agrees with the spec-level decoding of
/// a whole packet.
pub open spec fn decode_result_matches<'a>(
    r: Result<(Packet<'a>, &'a [u8]), MalformedPacketError>,
    sp: Result<SpecPacket, MalformedPacketError>,
) -> bool {
    match r {
        Ok((p, rem)) => {
            &&& sp is Ok
            &&& p.spec_config() == sp.unwrap().config
            &&& p.spec_stereo() == sp.unwrap().stereo
            &&& p.spec_frames() == sp.unwrap().frames
            &&& rem@ == sp.unwrap().rem
        },
        Err(e) => sp == Err::<SpecPacket, MalformedPacketError>(e),
    }
}

/// Decodes whole packets by handing each frame, with the packet's shared
/// configuration, to a payload decoder.
#[derive(Debug, Clone, Copy)]
pub struct Decoder {
    sample_rate: u32,
    channels: u8,
}

impl Decoder {
    /// The output sample rate the decoder was created with.
    pub closed spec fn spec_sample_rate(self) -> u32 {
        self.sample_rate
    }

    /// The channel count the decoder was created with.
    pub closed spec fn spec_channels(self) -> u8 {
        self.channels
    }

    /// Creates a decoder for the given output sample rate and channel count.
    pub fn new(sample_rate: u32, channels: u8) -> (r: Decoder)
        ensures
            r.spec_sample_rate() == sample_rate,
            r.spec_channels() == channels,
    {
        Decoder { sample_rate, channels }
    }

    /// Splits the packet into its frames and forwards each, with the packet's
    /// configuration and stereo flag, to the payload decoder, summing the
    /// sample counts. Decoding with no packet at all (packet-loss concealment)
    /// is the payload decoder's separately specified responsibility, not this
    /// layer's, so a packet is required here.
    pub fn decode<'a, S, T, P>(
        &mut self,
        packet: Option<Packet<'a>>,
        buf: &mut S,
        payload: &mut P,
    ) -> (r: Result<usize, Error>) where S: Samples<T>, T: Sample, P: PayloadDecoder<S, T>
        requires
            packet is Some,
            packet.unwrap().spec_frames().len() <= 63,
        ensures
            *final(self) == *old(self),
            r is Ok ==> r.unwrap() <= packet.unwrap().spec_frames().len()
                * SAMPLES_PER_FRAME_MAX,
            r is Ok ==> r.unwrap() <= 63 * SAMPLES_PER_FRAME_MAX,
    {
        let packet = packet.unwrap();
        let n = packet.frame_count();
        let mut total: u32 = 0;
        let mut i: usize = 0;
        while i < n
            invariant
                i <= n,
                n == packet.spec_frames().len(),
                n <= 63,
                total <= i * SAMPLES_PER_FRAME_MAX,
        decreases n - i,
        {
            let frame = packet.frame(i);
            let count = match payload.decode_frame(
                packet.config(),
                packet.stereo(),
                frame,
                self.channels,
                buf,
            ) {
                Ok(c) => c,
                Err(e) => {
                    return Err(e);
                },
            };
            total = total + (count as u32);
            i = i + 1;
        }
        Ok(total as usize)
    }
}

} // verus!
