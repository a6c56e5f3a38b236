//! Sound Manager command records, as found in `'snd '` resources.

use vstd::prelude::*;

use crate::be::{spec_u16_of, spec_u32_of, u16_be, u32_be};
use crate::snd::sampled::{sampled_matches, spec_parse_sampled, SampledModel, SampledSound};
use crate::snd::{Frequency, SoundError};

verus! {

/// A Sound Manager command that might be found in an `'snd '` resource.
///
/// Sound Manager supported a range of sound commands. While the majority
/// of Sound Manager commands control and modify sound playback, some were
/// used to query system capabilities/state and others were used to load
/// data from specific parts of memory. The latter two classes of commands
/// did not appear in `'snd '` resources (since there was no way for a
/// static resource to know where to return responses to queries or to
/// know the layout of a running system's memory) and are excluded from
/// this enumeration.
#[derive(Debug)]
pub enum SoundCommand {
    /// Do nothing.
    Null,
    /// Stop the sound that is currently playing.
    Quiet,
    /// Remove all commands currently queued in the specified sound
    /// channel; does not affect any sound that is currently in progress.
    Flush,
    /// Suspend further command processing in a channel until the
    /// specified duration (in half-milliseconds) has elapsed.
    Wait(u16),
    /// Pause any further command processing in a channel until a
    /// [`SoundCommand::Resume`] is received.
    Pause,
    /// Resume command processing in a channel that was previously paused.
    Resume,
    /// Execute the callback function specified as a parameter when
    /// creating a new channel; both parameters are application-specific.
    Callback(u16, u32),
    /// Synchronize multiple channels of sound: every channel with the
    /// given identifier decrements its count and resumes at zero.
    Sync {
        /// The application-selected group identifier.
        identifier: u32,
        /// The number of `Sync` commands still awaited.
        count: u16,
    },
    /// Play the specified note (as a MIDI note value) for the specified
    /// duration in half-milliseconds.
    FreqDuration {
        /// The MIDI note value.
        note: u8,
        /// The duration in half-milliseconds.
        duration: u16,
    },
    /// Rest a channel for the specified duration in half-milliseconds.
    Rest(u16),
    /// Change the frequency/pitch of a sound to the given note (as a MIDI
    /// note value), or start playing at it.
    Freq(u8),
    /// Change the amplitude of the current or next sound.
    Amp(u8),
    /// Change the timbre of a square-wave sound: 0 is a clear tone, 254 a
    /// buzzing one.
    Timbre(u8),
    /// Install the given wave table as a voice in the channel.
    WaveTable(Vec<u8>),
    /// Install a sampled sound as a voice in a channel.
    Sound(SampledSound),
    /// Play a buffer of sampled-sound data.
    Buffer(SampledSound),
    /// Set the rate of a sampled sound that is currently playing, as an
    /// unsigned 16.16 fixed-point multiple of 22 kHz.
    Rate(Frequency),
}

/// The ghost image of a command, with byte payloads as sequences.
pub enum CommandModel {
    /// Image of [`SoundCommand::Null`].
    Null,
    /// Image of [`SoundCommand::Quiet`].
    Quiet,
    /// Image of [`SoundCommand::Flush`].
    Flush,
    /// Image of [`SoundCommand::Wait`].
    Wait(u16),
    /// Image of [`SoundCommand::Pause`].
    Pause,
    /// Image of [`SoundCommand::Resume`].
    Resume,
    /// Image of [`SoundCommand::Callback`].
    Callback(u16, u32),
    /// Image of [`SoundCommand::Sync`].
    Sync {
        /// The group identifier.
        identifier: u32,
        /// The awaited count.
        count: u16,
    },
    /// Image of [`SoundCommand::FreqDuration`].
    FreqDuration {
        /// The MIDI note value.
        note: u8,
        /// The duration in half-milliseconds.
        duration: u16,
    },
    /// Image of [`SoundCommand::Rest`].
    Rest(u16),
    /// Image of [`SoundCommand::Freq`].
    Freq(u8),
    /// Image of [`SoundCommand::Amp`].
    Amp(u8),
    /// Image of [`SoundCommand::Timbre`].
    Timbre(u8),
    /// Image of [`SoundCommand::WaveTable`].
    WaveTable(Seq<u8>),
    /// Image of [`SoundCommand::Sound`].
    Sound(SampledModel),
    /// Image of [`SoundCommand::Buffer`].
    Buffer(SampledModel),
    /// Image of [`SoundCommand::Rate`].
    Rate(u32),
}

/// Whether a concrete command realises a ghost image.
pub open spec fn cmd_matches(c: SoundCommand, m: CommandModel) -> bool {
    match (c, m) {
        (SoundCommand::Null, CommandModel::Null) => true,
        (SoundCommand::Quiet, CommandModel::Quiet) => true,
        (SoundCommand::Flush, CommandModel::Flush) => true,
        (SoundCommand::Wait(a), CommandModel::Wait(b)) => a == b,
        (SoundCommand::Pause, CommandModel::Pause) => true,
        (SoundCommand::Resume, CommandModel::Resume) => true,
        (SoundCommand::Callback(a1, a2), CommandModel::Callback(b1, b2)) => a1 == b1 && a2 == b2,
        (
            SoundCommand::Sync { identifier: ai, count: ac },
            CommandModel::Sync { identifier: bi, count: bc },
        ) => ai == bi && ac == bc,
        (
            SoundCommand::FreqDuration { note: an, duration: ad },
            CommandModel::FreqDuration { note: bn, duration: bd },
        ) => an == bn && ad == bd,
        (SoundCommand::Rest(a), CommandModel::Rest(b)) => a == b,
        (SoundCommand::Freq(a), CommandModel::Freq(b)) => a == b,
        (SoundCommand::Amp(a), CommandModel::Amp(b)) => a == b,
        (SoundCommand::Timbre(a), CommandModel::Timbre(b)) => a == b,
        (SoundCommand::WaveTable(a), CommandModel::WaveTable(b)) => a@ == b,
        (SoundCommand::Sound(a), CommandModel::Sound(b)) => sampled_matches(a, b),
        (SoundCommand::Buffer(a), CommandModel::Buffer(b)) => sampled_matches(a, b),
        (SoundCommand::Rate(a), CommandModel::Rate(b)) => a == b,
        _ => false,
    }
}

/// What parsing the eight-byte command record at `offset` must produce.
/// Commands that install data (wave tables and sampled sounds) resolve
/// their offset parameter against the whole resource.
pub open spec fn spec_parse_command(bytes: Seq<u8>, offset: int) -> Result<
    CommandModel,
    SoundError,
> {
    let command_id = spec_u16_of(bytes, offset);
    let param1 = spec_u16_of(bytes, offset + 2);
    let param2 = spec_u32_of(bytes, offset + 4);
    let offset_bit_set = command_id >= 0x8000;
    let cmd = command_id % 0x8000;
    if cmd == 0 {
        Ok(CommandModel::Null)
    } else if cmd == 3 {
        Ok(CommandModel::Quiet)
    } else if cmd == 4 {
        Ok(CommandModel::Flush)
    } else if cmd == 10 {
        Ok(CommandModel::Wait(param1))
    } else if cmd == 11 {
        Ok(CommandModel::Pause)
    } else if cmd == 12 {
        Ok(CommandModel::Resume)
    } else if cmd == 13 {
        Ok(CommandModel::Callback(param1, param2))
    } else if cmd == 14 {
        Ok(CommandModel::Sync { identifier: param2, count: param1 })
    } else if cmd == 40 {
        if param2 > 127 {
            Err(SoundError::IllegalParameter { command: 40, param1, param2 })
        } else {
            Ok(CommandModel::FreqDuration { note: param2 as u8, duration: param1 })
        }
    } else if cmd == 41 {
        Ok(CommandModel::Rest(param1))
    } else if cmd == 42 {
        if param2 > 127 {
            Err(SoundError::IllegalParameter { command: 42, param1, param2 })
        } else {
            Ok(CommandModel::Freq(param2 as u8))
        }
    } else if cmd == 43 {
        if param1 <= 255 {
            Ok(CommandModel::Amp(param1 as u8))
        } else {
            Err(SoundError::IllegalParameter { command: 43, param1, param2 })
        }
    } else if cmd == 44 {
        // Yes, strictly less than: timbre is bounded between 0 and 254,
        // inclusive.
        if param1 < 255 {
            Ok(CommandModel::Timbre(param1 as u8))
        } else {
            Err(SoundError::IllegalParameter { command: 44, param1, param2 })
        }
    } else if cmd == 60 {
        if !offset_bit_set {
            Err(SoundError::UnresolveablePointer)
        } else if bytes.len() < param2 + param1 {
            Err(SoundError::CorruptResource)
        } else {
            Ok(CommandModel::WaveTable(bytes.subrange(param2 as int, param2 + param1)))
        }
    } else if cmd == 80 {
        if !offset_bit_set {
            Err(SoundError::UnresolveablePointer)
        } else if bytes.len() < param2 {
            Err(SoundError::CorruptResource)
        } else {
            match spec_parse_sampled(bytes.skip(param2 as int)) {
                Ok(s) => Ok(CommandModel::Sound(s)),
                Err(e) => Err(e),
            }
        }
    } else if cmd == 81 {
        if !offset_bit_set {
            Err(SoundError::UnresolveablePointer)
        } else if bytes.len() < param2 {
            Err(SoundError::CorruptResource)
        } else {
            match spec_parse_sampled(bytes.skip(param2 as int)) {
                Ok(s) => Ok(CommandModel::Buffer(s)),
                Err(e) => Err(e),
            }
        }
    } else if cmd == 82 {
        Ok(CommandModel::Rate(param2))
    } else {
        Err(SoundError::IllegalCommand(cmd as u16))
    }
}

/// Parses the eight-byte command record at `offset`.
pub fn parse_command(bytes: &[u8], offset: usize) -> (r: Result<SoundCommand, SoundError>)
    requires
        offset + 8 <= bytes@.len(),
    ensures
        ({
            match spec_parse_command(bytes@, offset as int) {
                Ok(m) => r matches Ok(c) && cmd_matches(c, m),
                Err(e) => r == Err::<SoundCommand, SoundError>(e),
            }
        }),
{
    let command_id = u16_be(bytes[offset], bytes[offset + 1]);
    let param1 = u16_be(bytes[offset + 2], bytes[offset + 3]);
    let param2 = u32_be(
        bytes[offset + 4],
        bytes[offset + 5],
        bytes[offset + 6],
        bytes[offset + 7],
    );
    let offset_bit_set = command_id >= 0x8000;
    let cmd = command_id % 0x8000;
    match cmd {
        0 => Ok(SoundCommand::Null),
        3 => Ok(SoundCommand::Quiet),
        4 => Ok(SoundCommand::Flush),
        10 => Ok(SoundCommand::Wait(param1)),
        11 => Ok(SoundCommand::Pause),
        12 => Ok(SoundCommand::Resume),
        13 => Ok(SoundCommand::Callback(param1, param2)),
        14 => Ok(SoundCommand::Sync { identifier: param2, count: param1 }),
        40 => {
            if param2 > 127 {
                Err(SoundError::IllegalParameter { command: 40, param1, param2 })
            } else {
                Ok(SoundCommand::FreqDuration { note: param2 as u8, duration: param1 })
            }
        },
        41 => Ok(SoundCommand::Rest(param1)),
        42 => {
            if param2 > 127 {
                Err(SoundError::IllegalParameter { command: 42, param1, param2 })
            } else {
                Ok(SoundCommand::Freq(param2 as u8))
            }
        },
        43 => {
            if param1 <= 255 {
                Ok(SoundCommand::Amp(param1 as u8))
            } else {
                Err(SoundError::IllegalParameter { command: 43, param1, param2 })
            }
        },
        44 => {
            if param1 < 255 {
                Ok(SoundCommand::Timbre(param1 as u8))
            } else {
                Err(SoundError::IllegalParameter { command: 44, param1, param2 })
            }
        },
        60 => {
            if !offset_bit_set {
                Err(SoundError::UnresolveablePointer)
            } else if (bytes.len() as u64) < param2 as u64 + param1 as u64 {
                Err(SoundError::CorruptResource)
            } else {
                let start = param2 as usize;
                let end = start + param1 as usize;
                let mut table: Vec<u8> = Vec::new();
                table.extend_from_slice(&bytes[start..end]);
                proof {
                    assert(table@ =~= bytes@.subrange(
                        param2 as int,
                        param2 + spec_u16_of(bytes@, offset as int + 2),
                    ));
                }
                Ok(SoundCommand::WaveTable(table))
            }
        },
        80 => {
            if !offset_bit_set {
                Err(SoundError::UnresolveablePointer)
            } else if (bytes.len() as u64) < param2 as u64 {
                Err(SoundError::CorruptResource)
            } else {
                let suffix = vstd::slice::slice_subrange(bytes, param2 as usize, bytes.len());
                proof {
                    assert(suffix@ =~= bytes@.skip(param2 as int));
                }
                match SampledSound::try_from(suffix) {
                    Ok(s) => Ok(SoundCommand::Sound(s)),
                    Err(e) => Err(e),
                }
            }
        },
        81 => {
            if !offset_bit_set {
                Err(SoundError::UnresolveablePointer)
            } else if (bytes.len() as u64) < param2 as u64 {
                Err(SoundError::CorruptResource)
            } else {
                let suffix = vstd::slice::slice_subrange(bytes, param2 as usize, bytes.len());
                proof {
                    assert(suffix@ =~= bytes@.skip(param2 as int));
                }
                match SampledSound::try_from(suffix) {
                    Ok(s) => Ok(SoundCommand::Buffer(s)),
                    Err(e) => Err(e),
                }
            }
        },
        82 => Ok(SoundCommand::Rate(param2)),
        _ => Err(SoundError::IllegalCommand(cmd)),
    }
}

} // verus!
