//! Decoding of Ogg-encapsulated Opus streams: the identification and comment
//! headers, the user comment iterator, and the packet-by-packet reader.
use std::io::{Read, Seek};

use vstd::prelude::*;
use vstd::slice::{slice_subrange, slice_to_vec};
use vstd::utf8::{decode_utf8, valid_utf8};

use crate::error::Error;
use crate::packet::{lemma_decode_frame_count, spec_decode, Decoder, MalformedPacketError, Packet};
use crate::sample::{PayloadDecoder, Sample, Samples, SAMPLES_PER_FRAME_MAX};

verus! {

/// The ogg crate's read error.
#[verifier::external_type_specification]
#[verifier::external_body]
pub struct ExOggReadError(::ogg::OggReadError);

/// Holds the ogg crate's packet reader over the byte source `R`, type-erased:
/// the verifier cannot carry the reader's std::io bounds on a datatype, so the
/// reader sits behind `Any` and the wrappers below, the only code that touches
/// it, recover it at the source type the marker pins. `packet_source_new` is
/// the one constructor and stores a reader over exactly that type, so the
/// recovery cannot fail.
#[verifier::external_body]
#[verifier::reject_recursive_types(R)]
struct PacketSource<R> {
    reader: Box<dyn std::any::Any>,
    source_type: core::marker::PhantomData<R>,
}

/// Relies on ogg::PacketReader::new: wraps a byte source for packet-level
/// reading.
#[verifier::external_body]
fn packet_source_new<R: Read + Seek + 'static>(reader: R) -> PacketSource<R> {
    PacketSource {
        reader: Box::new(::ogg::PacketReader::new(reader)),
        source_type: core::marker::PhantomData,
    }
}

/// Relies on ogg::PacketReader::read_packet, converting its result to plain
/// values through the packet's data field and its first_in_stream,
/// first_in_page and last_in_page accessors: the next packet's bytes and
/// paging flags, in that order, `None` at the end of the physical stream, or
/// the container's read error.
#[verifier::external_body]
fn read_packet<R: Read + Seek + 'static>(source: &mut PacketSource<R>) -> Result<
    Option<(Vec<u8>, bool, bool, bool)>,
    ::ogg::OggReadError,
> {
    let reader: &mut ::ogg::PacketReader<R> = source.reader.downcast_mut().expect("the source type is pinned by the marker");
    match reader.read_packet()? {
        None => Ok(None),
        Some(p) => {
            let flags = (p.first_in_stream(), p.first_in_page(), p.last_in_page());
            Ok(Some((p.data, flags.0, flags.1, flags.2)))
        },
    }
}

/// Relies on ogg::PacketReader::into_inner: returns the wrapped byte source.
#[verifier::external_body]
fn packet_source_into_inner<R: Read + Seek + 'static>(source: PacketSource<R>) -> R {
    let reader: Box<::ogg::PacketReader<R>> = source.reader.downcast().expect("the source type is pinned by the marker");
    reader.into_inner()
}

/// The little-endian 16-bit integer held by two bytes.
pub open spec fn spec_le16(b0: u8, b1: u8) -> u16 {
    (b0 + b1 * 256) as u16
}

/// The little-endian 32-bit integer held by four bytes.
pub open spec fn spec_le32(b0: u8, b1: u8, b2: u8, b3: u8) -> u32 {
    (b0 + b1 * 256 + b2 * 65_536 + b3 * 16_777_216) as u32
}

/// Relies on byteorder::LittleEndian::read_u16: the little-endian u16 held by
/// the first two bytes. byteorder panics on a shorter buffer, so two bytes are
/// required here.
#[verifier::external_body]
fn read_u16_le(b: &[u8]) -> (r: u16)
    requires
        b@.len() >= 2,
    ensures
        r == spec_le16(b@[0], b@[1]),
{
    <byteorder::LittleEndian as byteorder::ByteOrder>::read_u16(b)
}

/// Relies on byteorder::LittleEndian::read_u32: the little-endian u32 held by
/// the first four bytes. byteorder panics on a shorter buffer, so four bytes
/// are required here.
#[verifier::external_body]
fn read_u32_le(b: &[u8]) -> (r: u32)
    requires
        b@.len() >= 4,
    ensures
        r == spec_le32(b@[0], b@[1], b@[2], b@[3]),
{
    <byteorder::LittleEndian as byteorder::ByteOrder>::read_u32(b)
}

/// Relies on byteorder::LittleEndian::read_i16: the little-endian u16 held by
/// the first two bytes, reinterpreted as an i16. byteorder panics on a shorter
/// buffer, so two bytes are required here.
#[verifier::external_body]
fn read_i16_le(b: &[u8]) -> (r: i16)
    requires
        b@.len() >= 2,
    ensures
        r == spec_le16(b@[0], b@[1]) as i16,
{
    <byteorder::LittleEndian as byteorder::ByteOrder>::read_i16(b)
}

/// Relies on core::str::from_utf8: it succeeds exactly on valid UTF-8 and
/// yields the characters those bytes encode.
#[verifier::external_body]
fn str_from_utf8<'x>(b: &'x [u8]) -> (r: Option<&'x str>)
    ensures
        r is Some <==> valid_utf8(b@),
        r is Some ==> r.unwrap()@ == decode_utf8(b@),
{
    core::str::from_utf8(b).ok()
}

/// The characters String::from_utf8_lossy substitutes for a byte sequence:
/// a function of the bytes alone.
pub uninterp spec fn utf8_lossy(b: Seq<u8>) -> Seq<char>;

/// Relies on String::from_utf8_lossy: its result depends on the bytes alone,
/// and on valid UTF-8 it is exactly the characters the bytes encode.
#[verifier::external_body]
fn utf8_lossy_owned(b: &[u8]) -> (r: String)
    ensures
        r@ == utf8_lossy(b@),
        valid_utf8(b@) ==> r@ == decode_utf8(b@),
{
    String::from_utf8_lossy(b).into_owned()
}

/// The error type returned when the Ogg Opus stream is malformed.
#[derive(Debug, PartialEq, Eq, Structural, PartialOrd, Ord, Clone, Copy, Hash)]
pub enum OggOpusError {
    /// Stream rejected due to a suspected denial-of-service attack.
    DenialOfService,
    /// The Ogg header packets are incorrectly page-aligned.
    BadPaging,
    /// Either of the identification header or the comment header had the wrong
    /// magic number.
    BadMagic,
    /// The identification header indicated that this Ogg file conforms to an
    /// unsupported version of the encapsulation specification.
    UnsupportedVersion,
}

impl OggOpusError {
    /// A short description of the error.
    pub fn message(&self) -> &'static str {
        match self {
            OggOpusError::DenialOfService => "suspected denial-of-service attack",
            OggOpusError::BadPaging => "bad ogg paging alignment",
            OggOpusError::BadMagic => "invalid magic number",
            OggOpusError::UnsupportedVersion => "unsupported encapsulation specification version",
        }
    }
}

/// Whether a packet begins with the 8-byte magic "OpusHead".
pub open spec fn spec_is_opus_head(b: Seq<u8>) -> bool {
    &&& b.len() >= 8
    &&& b[0] == 0x4f
    &&& b[1] == 0x70
    &&& b[2] == 0x75
    &&& b[3] == 0x73
    &&& b[4] == 0x48
    &&& b[5] == 0x65
    &&& b[6] == 0x61
    &&& b[7] == 0x64
}

/// Whether a packet begins with the 8-byte magic "OpusTags".
pub open spec fn spec_is_opus_tags(b: Seq<u8>) -> bool {
    &&& b.len() >= 8
    &&& b[0] == 0x4f
    &&& b[1] == 0x70
    &&& b[2] == 0x75
    &&& b[3] == 0x73
    &&& b[4] == 0x54
    &&& b[5] == 0x61
    &&& b[6] == 0x67
    &&& b[7] == 0x73
}

/// The fields of a parsed identification header.
pub ghost struct SpecIdHeader {
    pub version: u8,
    pub channel_count: u8,
    pub mapping_family: u8,
    pub pre_skip: u16,
    pub sample_rate: u32,
    pub output_gain: i16,
}

/// Parsing an identification header packet: the "OpusHead" magic, a version
/// byte whose high nibble (the major version) must be zero, the output
/// channel count, the pre-skip, the informational sample rate, the output
/// gain, and the channel mapping family. Multi-byte fields are little-endian.
pub open spec fn spec_id_header(b: Seq<u8>) -> Result<SpecIdHeader, Error> {
    if b.len() < 8 {
        Err(Error::Malformed(MalformedPacketError::UnexpectedEof))
    } else if !spec_is_opus_head(b) {
        Err(Error::Ogg(OggOpusError::BadMagic))
    } else if b.len() < 9 {
        Err(Error::Malformed(MalformedPacketError::UnexpectedEof))
    } else if b[8] & 0xf0 != 0 {
        Err(Error::Ogg(OggOpusError::UnsupportedVersion))
    } else if b.len() < 19 {
        Err(Error::Malformed(MalformedPacketError::UnexpectedEof))
    } else {
        Ok(
            SpecIdHeader {
                version: b[8],
                channel_count: b[9],
                mapping_family: b[18],
                pre_skip: spec_le16(b[10], b[11]),
                sample_rate: spec_le32(b[12], b[13], b[14], b[15]),
                output_gain: spec_le16(b[16], b[17]) as i16,
            },
        )
    }
}

/// The parsed identification header of an Ogg Opus stream, constructed once
/// when a stream opens and immutable thereafter.
#[derive(Debug, PartialEq, Eq, Structural, Clone, Copy, Hash)]
pub struct IdHeader {
    /// Encapsulation specification version.
    version: u8,
    /// Number of output channels.
    channel_count: u8,
    /// Channel mapping family.
    mapping_family: u8,
    /// Number of samples (at 48 kHz) to discard when beginning playback.
    pre_skip: u16,
    /// Sample rate of the original input (before encoding) in Hz; zero when
    /// unspecified. This is not the sample rate to use for playback.
    sample_rate: u32,
    /// 20*log_10 of the factor by which to scale the decoder output to
    /// receive the desired playback volume.
    output_gain: i16,
}

impl IdHeader {
    /// The stored version byte.
    pub closed spec fn spec_version(self) -> u8 {
        self.version
    }

    /// The stored channel count.
    pub closed spec fn spec_channel_count(self) -> u8 {
        self.channel_count
    }

    /// The stored channel mapping family.
    pub closed spec fn spec_mapping_family(self) -> u8 {
        self.mapping_family
    }

    /// The stored pre-skip.
    pub closed spec fn spec_pre_skip(self) -> u16 {
        self.pre_skip
    }

    /// The stored informational sample rate; zero when unspecified.
    pub closed spec fn spec_sample_rate(self) -> u32 {
        self.sample_rate
    }

    /// The stored output gain.
    pub closed spec fn spec_output_gain(self) -> i16 {
        self.output_gain
    }

    /// An accepted header's major version is zero.
    pub open spec fn wf(self) -> bool {
        self.spec_version() & 0xf0 == 0
    }

    /// Whether a header holds exactly the fields of a parse model.
    pub open spec fn matches(self, m: SpecIdHeader) -> bool {
        &&& self.spec_version() == m.version
        &&& self.spec_channel_count() == m.channel_count
        &&& self.spec_mapping_family() == m.mapping_family
        &&& self.spec_pre_skip() == m.pre_skip
        &&& self.spec_sample_rate() == m.sample_rate
        &&& self.spec_output_gain() == m.output_gain
    }

    /// Creates a new ID header representation from the bytes of the first
    /// packet of the stream.
    pub fn new(data: &[u8]) -> (r: Result<IdHeader, Error>)
        ensures
            match r {
                Ok(h) => spec_id_header(data@) is Ok && h.matches(spec_id_header(data@).unwrap())
                    && h.wf(),
                Err(e) => spec_id_header(data@) == Err::<SpecIdHeader, Error>(e),
            },
    {
        if data.len() < 8 {
            return Err(Error::Malformed(MalformedPacketError::UnexpectedEof));
        }
        if !(data[0] == 0x4f && data[1] == 0x70 && data[2] == 0x75 && data[3] == 0x73 && data[4]
            == 0x48 && data[5] == 0x65 && data[6] == 0x61 && data[7] == 0x64) {
            return Err(Error::Ogg(OggOpusError::BadMagic));
        }
        if data.len() < 9 {
            return Err(Error::Malformed(MalformedPacketError::UnexpectedEof));
        }
        let version = data[8];
        if version & 0xf0 != 0 {
            return Err(Error::Ogg(OggOpusError::UnsupportedVersion));
        }
        if data.len() < 19 {
            return Err(Error::Malformed(MalformedPacketError::UnexpectedEof));
        }
        let pre_skip = read_u16_le(slice_subrange(data, 10, 12));
        let sample_rate = read_u32_le(slice_subrange(data, 12, 16));
        let output_gain = read_i16_le(slice_subrange(data, 16, 18));
        Ok(
            IdHeader {
                version,
                channel_count: data[9],
                mapping_family: data[18],
                pre_skip,
                sample_rate,
                output_gain,
            },
        )
    }

    /// Returns the encapsulation specification version as (major, minor).
    pub fn version(&self) -> (r: (u8, u8))
        ensures
            r.0 == (self.spec_version() & 0xf0) >> 4u8,
            r.1 == self.spec_version() & 0x0f,
    {
        ((self.version & 0xf0) >> 4, self.version & 0x0f)
    }

    /// Returns the number of output channels.
    pub fn channels(&self) -> (r: u8)
        ensures
            r == self.spec_channel_count(),
    {
        self.channel_count
    }

    /// Returns the channel mapping family.
    pub fn mapping_family(&self) -> (r: u8)
        ensures
            r == self.spec_mapping_family(),
    {
        self.mapping_family
    }

    /// Returns the number of samples (at 48 kHz) to discard when beginning
    /// playback.
    pub fn pre_skip(&self) -> (r: u16)
        ensures
            r == self.spec_pre_skip(),
    {
        self.pre_skip
    }

    /// Returns the encoding sample rate, or `None` when the header left it
    /// unspecified.
    pub fn sample_rate(&self) -> (r: Option<u32>)
        ensures
            self.spec_sample_rate() == 0 ==> r is None,
            self.spec_sample_rate() != 0 ==> r == Some(self.spec_sample_rate()),
    {
        if self.sample_rate == 0 {
            None
        } else {
            Some(self.sample_rate)
        }
    }

    /// Returns 20*log_10 of the factor by which to scale the decoder output to
    /// receive the desired playback volume.
    pub fn output_gain(&self) -> (r: i16)
        ensures
            r == self.spec_output_gain(),
    {
        self.output_gain
    }
}

/// The index of the first `=` byte of a comment, if any.
pub open spec fn spec_find_eq(c: Seq<u8>) -> Option<int>
    decreases c.len(),
{
    if c.len() == 0 {
        None
    } else if c[0] == 0x3d {
        Some(0)
    } else {
        match spec_find_eq(c.skip(1)) {
            Some(i) => Some(i + 1),
            None => None,
        }
    }
}

/// Finds the first `=` byte of a comment.
fn find_eq(c: &[u8]) -> (r: Option<usize>)
    ensures
        match r {
            Some(i) => spec_find_eq(c@) == Some(i as int) && i < c@.len(),
            None => spec_find_eq(c@) is None,
        },
{
    let mut i: usize = 0;
    proof {
        assert(c@.skip(0) =~= c@);
    }
    while i < c.len()
        invariant
            i <= c@.len(),
            (match spec_find_eq(c@.skip(i as int)) {
                Some(k) => spec_find_eq(c@) == Some(k + i),
                None => spec_find_eq(c@) is None,
            }),
        decreases c@.len() - i,
    {
        proof {
            assert(c@.skip(i as int)[0] == c@[i as int]);
            assert(c@.skip(i as int).skip(1) =~= c@.skip(i as int + 1));
        }
        if c[i] == 0x3d {
            return Some(i);
        }
        i = i + 1;
    }
    proof {
        assert(c@.skip(i as int).len() == 0);
    }
    None
}

/// One step of the comment iterator over the retained comment bytes `c` with
/// declared count `num`: from `read` comments consumed and cursor `pos`, the
/// new count, the new cursor, and the comment yielded, if any. The cursor
/// always advances by the comment's declared length prefix, so one malformed
/// comment (no `=`, or invalid UTF-8 on either side of it) yields nothing but
/// does not stop later comments from being read; a declared length that
/// overruns the retained bytes parks the cursor at the end.
pub open spec fn spec_comments_next(c: Seq<u8>, num: u32, read: u32, pos: int) -> (
    u32,
    int,
    Option<(Seq<char>, Seq<char>)>,
) {
    if !(pos < c.len() && read < num) {
        (read, pos, None::<(Seq<char>, Seq<char>)>)
    } else if pos + 4 > c.len() {
        (read, pos, None::<(Seq<char>, Seq<char>)>)
    } else {
        let l = spec_le32(c[pos], c[pos + 1], c[pos + 2], c[pos + 3]) as int;
        let nr = (read + 1) as u32;
        if l > c.len() - pos - 4 {
            (nr, c.len() as int, None::<(Seq<char>, Seq<char>)>)
        } else {
            let np = pos + 4 + l;
            let cmt = c.subrange(pos + 4, np);
            match spec_find_eq(cmt) {
                None => (nr, np, None::<(Seq<char>, Seq<char>)>),
                Some(i) => {
                    let key = cmt.subrange(0, i);
                    let val = cmt.subrange(i + 1, cmt.len() as int);
                    if valid_utf8(key) && valid_utf8(val) {
                        (nr, np, Some((decode_utf8(key), decode_utf8(val))))
                    } else {
                        (nr, np, None::<(Seq<char>, Seq<char>)>)
                    }
                },
            }
        }
    }
}

/// An iterator over user comments: a single-pass cursor over the retained
/// comment bytes, bounded by the declared comment count.
#[derive(Debug, PartialEq, Eq, Clone, Hash)]
pub struct Comments<'a> {
    comments: &'a [u8],
    comments_num: u32,
    comments_read: u32,
    pos: usize,
}

impl<'a> Comments<'a> {
    /// The retained comment bytes.
    pub closed spec fn spec_comments(self) -> Seq<u8> {
        self.comments@
    }

    /// The declared comment count.
    pub closed spec fn spec_num(self) -> u32 {
        self.comments_num
    }

    /// How many comments have been consumed.
    pub closed spec fn spec_read(self) -> u32 {
        self.comments_read
    }

    /// The cursor into the retained comment bytes.
    pub closed spec fn spec_pos(self) -> int {
        self.pos as int
    }

    /// Yields the next comment as a `(name, value)` pair, or `None` at the end
    /// of the comments or for one malformed comment.
    pub fn next(&mut self) -> (r: Option<(&'a str, &'a str)>)
        ensures
            final(self).spec_comments() == old(self).spec_comments(),
            final(self).spec_num() == old(self).spec_num(),
            ({
                let (nr, np, res) = spec_comments_next(
                    old(self).spec_comments(),
                    old(self).spec_num(),
                    old(self).spec_read(),
                    old(self).spec_pos(),
                );
                &&& final(self).spec_read() == nr
                &&& final(self).spec_pos() == np
                &&& (match r {
                    Some(kv) => res is Some && kv.0@ == res.unwrap().0 && kv.1@ == res.unwrap().1,
                    None => res is None,
                })
            }),
    {
        let buf: &'a [u8] = self.comments;
        if !(self.pos < buf.len() && self.comments_read < self.comments_num) {
            return None;
        }
        if buf.len() - self.pos < 4 {
            return None;
        }
        let l = read_u32_le(slice_subrange(buf, self.pos, self.pos + 4)) as usize;
        let cmt_start = self.pos + 4;
        self.comments_read = self.comments_read + 1;
        if l > buf.len() - cmt_start {
            self.pos = buf.len();
            return None;
        }
        let new_pos = cmt_start + l;
        self.pos = new_pos;
        let cmt = slice_subrange(buf, cmt_start, new_pos);
        let eq = match find_eq(cmt) {
            Some(i) => i,
            None => {
                return None;
            },
        };
        let key_bytes = slice_subrange(cmt, 0, eq);
        let val_bytes = slice_subrange(cmt, eq + 1, cmt.len());
        let key = match str_from_utf8(key_bytes) {
            Some(s) => s,
            None => {
                return None;
            },
        };
        let val = match str_from_utf8(val_bytes) {
            Some(s) => s,
            None => {
                return None;
            },
        };
        Some((key, val))
    }

    /// How many comments may still come: at least zero, since the next comment
    /// might be malformed, and at most the declared count minus those consumed.
    pub fn size_hint(&self) -> (r: (usize, Option<usize>))
        ensures
            r.0 == 0,
            self.spec_num() >= self.spec_read() ==> r.1 == Some(
                (self.spec_num() - self.spec_read()) as usize,
            ),
            self.spec_num() < self.spec_read() ==> r.1 == Some(0usize),
    {
        let rem: usize = if self.comments_num >= self.comments_read {
            (self.comments_num - self.comments_read) as usize
        } else {
            0
        };
        (0, Some(rem))
    }
}

/// The fields of a parsed comment header.
pub ghost struct SpecCommentHeader {
    pub vendor: Seq<char>,
    pub comments_num: u32,
    pub comments: Seq<u8>,
}

/// Maximum length of the comment packet; anything longer is rejected outright
/// as a suspected denial-of-service attack.
pub const PACKET_LEN_MAX: usize = 125_829_120;

/// Packet position after which comment data is discarded, bounding the memory
/// and parsing work hostile input can demand.
pub const COMMENTS_IGNORE_LEN: usize = 61_440;

/// Parsing a comment header packet: the size ceiling, the "OpusTags" magic,
/// the vendor string with its length prefix, the declared comment count, and
/// the retained comment bytes, cut off at the ignore threshold.
pub open spec fn spec_comment_header(b: Seq<u8>) -> Result<SpecCommentHeader, Error> {
    if b.len() > PACKET_LEN_MAX {
        Err(Error::Ogg(OggOpusError::DenialOfService))
    } else if b.len() < 8 {
        Err(Error::Malformed(MalformedPacketError::UnexpectedEof))
    } else if !spec_is_opus_tags(b) {
        Err(Error::Ogg(OggOpusError::BadMagic))
    } else if b.len() < 12 {
        Err(Error::Malformed(MalformedPacketError::UnexpectedEof))
    } else {
        let vlen = spec_le32(b[8], b[9], b[10], b[11]) as int;
        let cstart = 12 + vlen;
        if cstart + 4 > b.len() {
            Err(Error::Malformed(MalformedPacketError::UnexpectedEof))
        } else {
            let num = spec_le32(b[cstart], b[cstart + 1], b[cstart + 2], b[cstart + 3]);
            let begin = cstart + 4;
            let end = if b.len() <= COMMENTS_IGNORE_LEN {
                b.len() as int
            } else {
                COMMENTS_IGNORE_LEN as int
            };
            Ok(
                SpecCommentHeader {
                    vendor: utf8_lossy(b.subrange(12, cstart)),
                    comments_num: num,
                    comments: if begin <= end {
                        b.subrange(begin, end)
                    } else {
                        Seq::empty()
                    },
                },
            )
        }
    }
}

/// The parsed comment header of an Ogg Opus stream: the vendor string, the
/// declared comment count, and the retained comment bytes, parsed lazily.
#[derive(Debug, PartialEq, Eq, Clone, Hash)]
pub struct CommentHeader {
    comments: Vec<u8>,
    comments_num: u32,
    vendor: String,
}

impl CommentHeader {
    /// The retained comment bytes.
    pub closed spec fn spec_comments_bytes(self) -> Seq<u8> {
        self.comments@
    }

    /// The declared comment count.
    pub closed spec fn spec_num(self) -> u32 {
        self.comments_num
    }

    /// The vendor string's characters.
    pub closed spec fn spec_vendor(self) -> Seq<char> {
        self.vendor@
    }

    /// Whether a header holds exactly the fields of a parse model.
    pub open spec fn matches(self, m: SpecCommentHeader) -> bool {
        &&& self.spec_vendor() == m.vendor
        &&& self.spec_num() == m.comments_num
        &&& self.spec_comments_bytes() == m.comments
    }

    /// Creates a new comment header representation from the bytes of the
    /// second packet of the stream.
    pub fn new(data: &[u8]) -> (r: Result<CommentHeader, Error>)
        ensures
            match r {
                Ok(h) => spec_comment_header(data@) is Ok && h.matches(
                    spec_comment_header(data@).unwrap(),
                ),
                Err(e) => spec_comment_header(data@) == Err::<SpecCommentHeader, Error>(e),
            },
    {
        if data.len() > PACKET_LEN_MAX {
            return Err(Error::Ogg(OggOpusError::DenialOfService));
        }
        if data.len() < 8 {
            return Err(Error::Malformed(MalformedPacketError::UnexpectedEof));
        }
        if !(data[0] == 0x4f && data[1] == 0x70 && data[2] == 0x75 && data[3] == 0x73 && data[4]
            == 0x54 && data[5] == 0x61 && data[6] == 0x67 && data[7] == 0x73) {
            return Err(Error::Ogg(OggOpusError::BadMagic));
        }
        if data.len() < 12 {
            return Err(Error::Malformed(MalformedPacketError::UnexpectedEof));
        }
        let vlen = read_u32_le(slice_subrange(data, 8, 12)) as usize;
        if vlen > data.len() - 12 || 4 > data.len() - 12 - vlen {
            return Err(Error::Malformed(MalformedPacketError::UnexpectedEof));
        }
        let cstart = 12 + vlen;
        let num = read_u32_le(slice_subrange(data, cstart, cstart + 4));
        let vendor = utf8_lossy_owned(slice_subrange(data, 12, cstart));
        let begin = cstart + 4;
        let end = if data.len() <= COMMENTS_IGNORE_LEN {
            data.len()
        } else {
            COMMENTS_IGNORE_LEN
        };
        let comments: Vec<u8> = if begin <= end {
            slice_to_vec(slice_subrange(data, begin, end))
        } else {
            Vec::new()
        };
        proof {
            if begin > end {
                assert(comments@ =~= Seq::<u8>::empty());
            }
        }
        Ok(CommentHeader { comments, comments_num: num, vendor })
    }

    /// Returns an iterator over the user comments.
    pub fn comments<'s>(&'s self) -> (r: Comments<'s>)
        ensures
            r.spec_comments() == self.spec_comments_bytes(),
            r.spec_num() == self.spec_num(),
            r.spec_read() == 0,
            r.spec_pos() == 0,
    {
        Comments {
            comments: self.comments.as_slice(),
            comments_num: self.comments_num,
            comments_read: 0,
            pos: 0,
        }
    }

    /// Returns the vendor string.
    pub fn vendor<'s>(&'s self) -> (r: &'s str)
        ensures
            r@ == self.spec_vendor(),
    {
        self.vendor.as_str()
    }
}

/// The sample rate to decode at until better infrastructure is installed.
pub const DECODE_SAMPLE_RATE: u32 = 48_000;

/// Whether a header packet is correctly paged: the identification header must
/// be the first packet of the stream, and each header packet must be alone on
/// its page, first and last in it; anything else is `BadPaging`. For the
/// comment header, which need not open the stream, the first flag is passed
/// as true.
pub fn check_paging(first_in_stream: bool, first_in_page: bool, last_in_page: bool) -> (r: Result<
    (),
    Error,
>)
    ensures
        r is Ok <==> (first_in_stream && first_in_page && last_in_page),
        r is Err ==> r == Err::<(), Error>(Error::Ogg(OggOpusError::BadPaging)),
{
    if first_in_stream && first_in_page && last_in_page {
        Ok(())
    } else {
        Err(Error::Ogg(OggOpusError::BadPaging))
    }
}

/// Decides one audio-read step on the container's outcome: a container failure
/// is a read error; no packet left is the clean end of the stream, zero
/// samples and no error; a packet is decoded under implicit framing (the
/// container's packet boundary is authoritative), a malformed one failing this
/// step with exactly the framing layer's error, a well-formed one handed frame
/// by frame to the payload decoder.
pub fn decode_next_packet<S, T, P>(
    decoder: &mut Decoder,
    outcome: Result<Option<(Vec<u8>, bool, bool, bool)>, ::ogg::OggReadError>,
    buf: &mut S,
    payload: &mut P,
) -> (r: Result<usize, Error>) where S: Samples<T>, T: Sample, P: PayloadDecoder<S, T>
    ensures
        *final(decoder) == *old(decoder),
        (match outcome {
            Err(_) => r == Err::<usize, Error>(Error::Read),
            Ok(None) => r == Ok::<usize, Error>(0),
            Ok(Some(p)) => match spec_decode(false, p.0@) {
                Err(e) => r == Err::<usize, Error>(Error::Malformed(e)),
                Ok(sp) => r is Ok ==> r.unwrap() <= sp.frames.len() * SAMPLES_PER_FRAME_MAX,
            },
        }),
        r is Ok ==> r.unwrap() <= 63 * SAMPLES_PER_FRAME_MAX,
{
    let (bytes, _, _, _) = match outcome {
        Err(_) => {
            return Err(Error::Read);
        },
        Ok(None) => {
            return Ok(0);
        },
        Ok(Some(p)) => p,
    };
    let packet = match Packet::new(bytes.as_slice()) {
        Ok(p) => p,
        Err(e) => {
            return Err(Error::Malformed(e));
        },
    };
    proof {
        lemma_decode_frame_count(false, bytes@);
    }
    decoder.decode(Some(packet), buf, payload)
}

/// A reader for Ogg Opus files and/or streams: parses the two mandatory
/// header packets when it opens, then decodes one audio packet per call.
#[verifier::reject_recursive_types(R)]
pub struct OggOpusReader<R> {
    comments: CommentHeader,
    decoder: Decoder,
    id_header: IdHeader,
    reader: PacketSource<R>,
}

impl<R: Read + Seek + 'static> OggOpusReader<R> {
    /// The parsed identification header.
    pub closed spec fn spec_id(self) -> IdHeader {
        self.id_header
    }

    /// The parsed comment header.
    pub closed spec fn spec_comment_header(self) -> CommentHeader {
        self.comments
    }

    /// The packet decoder.
    pub closed spec fn spec_decoder(self) -> Decoder {
        self.decoder
    }

    /// Creates a new `OggOpusReader` from the given reader, reading and
    /// validating the two mandatory header packets: each must occupy exactly
    /// one Ogg page of its own, the identification header first in the stream,
    /// and each must parse; any failure rejects the stream.
    pub fn new(reader: R) -> (r: Result<OggOpusReader<R>, Error>)
        ensures
            r is Ok ==> r.unwrap().spec_id().wf(),
            r is Ok ==> r.unwrap().spec_decoder().spec_channels() == r.unwrap().spec_id()
                .spec_channel_count(),
            r is Ok ==> r.unwrap().spec_decoder().spec_sample_rate() == DECODE_SAMPLE_RATE,
    {
        let mut pr = packet_source_new::<R>(reader);

        // read id header
        let (id_data, id_first_in_stream, id_first_in_page, id_last_in_page) = match read_packet(
            &mut pr,
        ) {
            Ok(Some(p)) => p,
            Ok(None) => {
                return Err(Error::Read);
            },
            Err(_) => {
                return Err(Error::Read);
            },
        };
        match check_paging(id_first_in_stream, id_first_in_page, id_last_in_page) {
            Ok(()) => {},
            Err(e) => {
                return Err(e);
            },
        }
        let id_header = match IdHeader::new(id_data.as_slice()) {
            Ok(h) => h,
            Err(e) => {
                return Err(e);
            },
        };

        // read comment header
        let (comments_data, _, cmt_first_in_page, cmt_last_in_page) = match read_packet(&mut pr) {
            Ok(Some(p)) => p,
            Ok(None) => {
                return Err(Error::Read);
            },
            Err(_) => {
                return Err(Error::Read);
            },
        };
        match check_paging(true, cmt_first_in_page, cmt_last_in_page) {
            Ok(()) => {},
            Err(e) => {
                return Err(e);
            },
        }
        let comments = match CommentHeader::new(comments_data.as_slice()) {
            Ok(h) => h,
            Err(e) => {
                return Err(e);
            },
        };

        // initialize decoder
        let decoder = Decoder::new(DECODE_SAMPLE_RATE, id_header.channels());

        Ok(OggOpusReader { comments, decoder, id_header, reader: pr })
    }

    /// Returns an iterator over user comments contained in the comment header.
    pub fn comments<'s>(&'s self) -> (r: Comments<'s>)
        ensures
            r.spec_comments() == self.spec_comment_header().spec_comments_bytes(),
            r.spec_num() == self.spec_comment_header().spec_num(),
            r.spec_read() == 0,
            r.spec_pos() == 0,
    {
        self.comments.comments()
    }

    /// Returns the number of samples (at 48 kHz) to discard when beginning
    /// playback.
    pub fn pre_skip(&self) -> (r: u16)
        ensures
            r == self.spec_id().spec_pre_skip(),
    {
        self.id_header.pre_skip()
    }

    /// Returns the sample rate of the media this file was encoded from, in Hz,
    /// or `None` when the header left it unspecified. Note that this is not
    /// necessarily the sample rate it will be played back at.
    pub fn sample_rate(&self) -> (r: Option<u32>)
        ensures
            self.spec_id().spec_sample_rate() == 0 ==> r is None,
            self.spec_id().spec_sample_rate() != 0 ==> r == Some(self.spec_id().spec_sample_rate()),
    {
        self.id_header.sample_rate()
    }

    /// Returns 20*log_10 of the factor by which to scale the decoder output to
    /// receive the desired playback volume.
    pub fn output_gain(&self) -> (r: i16)
        ensures
            r == self.spec_id().spec_output_gain(),
    {
        self.id_header.output_gain()
    }

    /// Returns the encoder vendor string from the comment header.
    pub fn vendor<'s>(&'s self) -> (r: &'s str)
        ensures
            r@ == self.spec_comment_header().spec_vendor(),
    {
        self.comments.vendor()
    }

    /// Returns the encapsulation specification version as (major, minor).
    pub fn version(&self) -> (r: (u8, u8))
        ensures
            r.0 == (self.spec_id().spec_version() & 0xf0) >> 4u8,
            r.1 == self.spec_id().spec_version() & 0x0f,
    {
        self.id_header.version()
    }

    /// Reads the next audio packet, splits it into frames, and forwards each
    /// frame to the payload decoder, returning the number of samples written
    /// into `buf`, or 0 at the clean end of the stream.
    pub fn read_samples<S, T, P>(&mut self, buf: &mut S, payload: &mut P) -> (r: Result<
        usize,
        Error,
    >) where S: Samples<T>, T: Sample, P: PayloadDecoder<S, T>
        ensures
            final(self).spec_id() == old(self).spec_id(),
            final(self).spec_comment_header() == old(self).spec_comment_header(),
            final(self).spec_decoder() == old(self).spec_decoder(),
            r is Ok ==> r.unwrap() <= 63 * SAMPLES_PER_FRAME_MAX,
    {
        let outcome = read_packet(&mut self.reader);
        decode_next_packet(&mut self.decoder, outcome, buf, payload)
    }

    /// Returns the wrapped reader, consuming the `OggOpusReader`.
    pub fn into_inner(self) -> R {
        packet_source_into_inner(self.reader)
    }
}

} // verus!
