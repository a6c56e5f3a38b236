//! Sampled-sound headers and data carried inside `'snd '` resources.

use vstd::prelude::*;

use crate::be::{spec_u32_of, u32_be};
use crate::snd::{Frequency, SoundError};

verus! {

/// The number of bytes in a sampled-sound header before the samples.
pub const SAMPLED_HEADER_LEN: usize = 22;

/// A buffer of sampled-sound data with its playback parameters.
///
/// Layout on the wire (all integers big-endian): `sample_ptr`(4, must be
/// zero), `len`(4), `sample_rate`(4, unsigned 16.16 fixed-point bits),
/// `loop_start`(4), `loop_end`(4), `encoding`(1, must be zero),
/// `base_frequency`(1), then `len` bytes of samples.
#[derive(Debug)]
pub struct SampledSound {
    /// The sample rate, as the raw bits of an unsigned 16.16 fixed-point
    /// multiple of 1 Hz.
    pub sample_rate: Frequency,
    /// The loop range, when either bound is nonzero, as (start, end).
    pub loop_range: Option<(u32, u32)>,
    /// The MIDI note at which the samples play at their recorded pitch.
    pub base_frequency: u8,
    /// The sample bytes.
    pub samples: Vec<u8>,
}

/// The ghost image of a sampled sound, with the samples as a byte
/// sequence.
pub struct SampledModel {
    /// The sample-rate bits.
    pub sample_rate: u32,
    /// The loop range, when present.
    pub loop_range: Option<(u32, u32)>,
    /// The base MIDI note.
    pub base_frequency: u8,
    /// The sample bytes.
    pub samples: Seq<u8>,
}

/// Whether a concrete sampled sound realises a ghost image.
pub open spec fn sampled_matches(s: SampledSound, m: SampledModel) -> bool {
    &&& s.sample_rate == m.sample_rate
    &&& s.loop_range == m.loop_range
    &&& s.base_frequency == m.base_frequency
    &&& s.samples@ == m.samples
}

/// What parsing a sampled sound from the given bytes must produce.
pub open spec fn spec_parse_sampled(bytes: Seq<u8>) -> Result<SampledModel, SoundError> {
    if bytes.len() < 22 {
        Err(SoundError::CorruptResource)
    } else {
        let sample_ptr = spec_u32_of(bytes, 0);
        let len = spec_u32_of(bytes, 4);
        let sample_rate = spec_u32_of(bytes, 8);
        let loop_start = spec_u32_of(bytes, 12);
        let loop_end = spec_u32_of(bytes, 16);
        let encoding = bytes[20];
        let base_frequency = bytes[21];
        if sample_ptr != 0 {
            Err(SoundError::UnresolveablePointer)
        } else if encoding != 0 {
            Err(SoundError::UnsupportedSoundFormat(encoding))
        } else if bytes.len() < 22 + len {
            Err(SoundError::CorruptResource)
        } else {
            let loop_range = if loop_start == 0 && loop_end == 0 {
                None
            } else {
                Some((loop_start, loop_end))
            };
            Ok(
                SampledModel {
                    sample_rate,
                    loop_range,
                    base_frequency,
                    samples: bytes.subrange(22, 22 + len),
                },
            )
        }
    }
}

impl SampledSound {
    /// Parses a sampled sound from the start of the given bytes.
    ///
    /// # Errors
    ///
    /// [`SoundError::CorruptResource`] when the header or the sample data
    /// is truncated, [`SoundError::UnresolveablePointer`] when the sound
    /// points at process memory rather than carrying its samples, and
    /// [`SoundError::UnsupportedSoundFormat`] for any encoding other than
    /// plain 8-bit samples.
    pub fn try_from(bytes: &[u8]) -> (r: Result<SampledSound, SoundError>)
        ensures
            ({
                match spec_parse_sampled(bytes@) {
                    Ok(m) => r matches Ok(s) && sampled_matches(s, m),
                    Err(e) => r == Err::<SampledSound, SoundError>(e),
                }
            }),
    {
        if bytes.len() < SAMPLED_HEADER_LEN {
            return Err(SoundError::CorruptResource);
        }
        let sample_ptr = u32_be(bytes[0], bytes[1], bytes[2], bytes[3]);
        let len = u32_be(bytes[4], bytes[5], bytes[6], bytes[7]);
        let sample_rate = u32_be(bytes[8], bytes[9], bytes[10], bytes[11]);
        let loop_start = u32_be(bytes[12], bytes[13], bytes[14], bytes[15]);
        let loop_end = u32_be(bytes[16], bytes[17], bytes[18], bytes[19]);
        let encoding = bytes[20];
        let base_frequency = bytes[21];
        if sample_ptr != 0 {
            return Err(SoundError::UnresolveablePointer);
        }
        if encoding != 0 {
            return Err(SoundError::UnsupportedSoundFormat(encoding));
        }
        if (bytes.len() as u64) < 22 + len as u64 {
            return Err(SoundError::CorruptResource);
        }
        let loop_range = if loop_start == 0 && loop_end == 0 {
            None
        } else {
            Some((loop_start, loop_end))
        };
        let mut samples: Vec<u8> = Vec::new();
        samples.extend_from_slice(
            &bytes[SAMPLED_HEADER_LEN..SAMPLED_HEADER_LEN + len as usize],
        );
        proof {
            assert(samples@ =~= bytes@.subrange(22, 22 + spec_u32_of(bytes@, 4)));
        }
        Ok(SampledSound { sample_rate, loop_range, base_frequency, samples })
    }

    /// Returns the sample rate, as unsigned 16.16 fixed-point bits.
    pub fn sample_rate(&self) -> (r: Frequency)
        ensures
            r == self.sample_rate,
    {
        self.sample_rate
    }

    /// Returns the MIDI note at which the samples play at their recorded
    /// pitch.
    pub fn base_frequency(&self) -> (r: u8)
        ensures
            r == self.base_frequency,
    {
        self.base_frequency
    }

    /// Returns the sample bytes.
    pub fn samples(&self) -> (r: &Vec<u8>)
        ensures
            r@ == self.samples@,
    {
        &self.samples
    }
}

} // verus!
