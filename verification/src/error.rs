//! The error type shared by the whole library.
use vstd::prelude::*;

use crate::ogg::OggOpusError;
use crate::packet::MalformedPacketError;

verus! {

/// Any failure this library reports: a malformed Ogg Opus encapsulation, a
/// malformed Opus packet, or a failure of the Ogg container layer to produce
/// a packet at all.
#[derive(Debug, PartialEq, Eq, Structural, Clone, Copy, Hash)]
pub enum Error {
    /// The Ogg Opus stream is malformed.
    Ogg(OggOpusError),
    /// An Opus packet is malformed.
    Malformed(MalformedPacketError),
    /// The Ogg container layer could not read a packet.
    Read,
}

impl Error {
    /// A short description of the error.
    pub fn message(&self) -> &'static str {
        match self {
            Error::Ogg(e) => e.message(),
            Error::Malformed(e) => e.message(),
            Error::Read => "the ogg container layer could not read a packet",
        }
    }
}

} // verus!
