//! Audio sample types and the payload decoder that consumes decoded frames.
use vstd::prelude::*;

use crate::error::Error;
use crate::toc::Config;

verus! {

/// The most samples a payload decoder may report for one frame: 120 ms of
/// 48 kHz audio across the 255 channels an Opus mapping table can carry.
pub const SAMPLES_PER_FRAME_MAX: usize = 1_468_800;

/// A single audio sample.
pub trait Sample {

}

impl Sample for i16 {

}

/// A buffer of audio samples.
pub trait Samples<T: Sample> {

}

impl<T: Sample> Samples<T> for Vec<T> {

}

impl<T: Sample> Samples<T> for [T] {

}

/// The audio payload decoder that consumes the frames this library splits out
/// of each packet: the SILK/CELT layer, which is outside this library's scope
/// and supplied by its caller.
pub trait PayloadDecoder<S, T> where S: Samples<T>, T: Sample {
    /// Decodes one frame into `buf` and reports how many samples it wrote.
    ///
    /// One frame holds at most 120 ms of 48 kHz audio, so the report may not
    /// exceed `SAMPLES_PER_FRAME_MAX`.
    fn decode_frame(
        &mut self,
        config: Config,
        stereo: bool,
        frame: &[u8],
        channel_count: u8,
        buf: &mut S,
    ) -> (r: Result<usize, Error>)
        ensures
            r is Ok ==> r.unwrap() <= SAMPLES_PER_FRAME_MAX,
    ;
}

} // verus!
