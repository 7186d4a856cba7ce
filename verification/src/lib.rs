//! Wire-level framing of the Opus audio codec: RFC 6716 packet and frame
//! structure, plus the Ogg encapsulation headers that carry Opus streams.
pub mod error;
pub mod ogg;
pub mod packet;
pub mod sample;
pub mod toc;
