//! Decoding of Sound Manager `'snd '` resources.
//!
//! A `'snd '` resource describes a sound as a list of commands, possibly
//! accompanied by data formats (for format-1 resources) and by sampled
//! sound data that the commands point into.

pub mod command;
pub mod sampled;

use vstd::prelude::*;

use crate::be::{spec_u16_of, spec_u32_of, u16_be, u32_be};
use crate::snd::command::{cmd_matches, parse_command, spec_parse_command, CommandModel, SoundCommand};

verus! {

/// An unsigned 16.16 fixed-point frequency or rate, kept as its raw bits.
/// A value of `0x00010000` stands for 1.0.
pub type Frequency = u32;

/// The 44.1 kHz sample rate, as 16.16 fixed-point bits.
pub const RATE_44_KHZ: Frequency = 0xac440000;

/// The 22 kHz sample rate, as 16.16 fixed-point bits.
pub const RATE_22_KHZ: Frequency = 0x56ee8ba3;

/// The 11 kHz sample rate, as 16.16 fixed-point bits.
pub const RATE_11_KHZ: Frequency = 0x2b7745d1;

/// The format of a `'snd '` resource.
#[derive(Clone, Copy, Debug, Eq, PartialEq, Structural)]
pub enum ResourceFormat {
    /// The general format.
    Snd1,
    /// The HyperCard format, considered obsolete by format 1.
    Snd2,
}

impl ResourceFormat {
    /// Maps a format identifier to its format.
    pub fn try_from_id(format_id: u16) -> (r: Result<ResourceFormat, SoundError>)
        ensures
            format_id == 1 ==> r == Ok::<ResourceFormat, SoundError>(ResourceFormat::Snd1),
            format_id == 2 ==> r == Ok::<ResourceFormat, SoundError>(ResourceFormat::Snd2),
            format_id != 1 && format_id != 2 ==> r == Err::<ResourceFormat, SoundError>(
                SoundError::IllegalResourceFormat(format_id),
            ),
    {
        match format_id {
            1 => Ok(ResourceFormat::Snd1),
            2 => Ok(ResourceFormat::Snd2),
            id => Err(SoundError::IllegalResourceFormat(id)),
        }
    }
}

/// A data format named in the leading table of a format-1 resource, with
/// its initialisation parameter.
#[derive(Clone, Copy, Debug, Eq, PartialEq, Structural)]
pub enum DataFormat {
    /// Square-wave data.
    SquareWave(u32),
    /// Wave-table data.
    WaveTable(u32),
    /// Sampled-sound data.
    SampledSound(u32),
}

/// The error type for operations on `'snd '` resources.
#[derive(Clone, Copy, Debug, Eq, PartialEq, Structural)]
pub enum SoundError {
    /// The resource declares a format other than 1 or 2.
    IllegalResourceFormat(u16),
    /// A data-format record names an unknown format.
    IllegalDataFormat(u16),
    /// A command record names a command that cannot appear in a resource.
    IllegalCommand(u16),
    /// A command carries a parameter outside its legal range.
    IllegalParameter {
        /// The command whose parameter is out of range.
        command: u16,
        /// The first parameter as stored.
        param1: u16,
        /// The second parameter as stored.
        param2: u32,
    },
    /// A command points at process memory instead of data in the
    /// resource.
    UnresolveablePointer,
    /// A sampled sound uses an encoding other than plain 8-bit samples.
    UnsupportedSoundFormat(u8),
    /// The resource is too short for what its own counts and offsets
    /// announce.
    CorruptResource,
}

/// What parsing the six-byte data-format record at `offset` must produce.
pub open spec fn spec_parse_format(bytes: Seq<u8>, offset: int) -> Result<DataFormat, SoundError> {
    let format_id = spec_u16_of(bytes, offset);
    let init = spec_u32_of(bytes, offset + 2);
    if format_id == 1 {
        Ok(DataFormat::SquareWave(init))
    } else if format_id == 3 {
        Ok(DataFormat::WaveTable(init))
    } else if format_id == 5 {
        Ok(DataFormat::SampledSound(init))
    } else {
        Err(SoundError::IllegalDataFormat(format_id))
    }
}

/// Folds the data-format records from table position `k` onwards onto the
/// formats gathered so far.
pub open spec fn spec_parse_formats(
    bytes: Seq<u8>,
    k: int,
    count: int,
    acc: Seq<DataFormat>,
) -> Result<Seq<DataFormat>, SoundError>
    decreases count - k,
{
    if k >= count {
        Ok(acc)
    } else {
        match spec_parse_format(bytes, 4 + 6 * k) {
            Ok(f) => spec_parse_formats(bytes, k + 1, count, acc.push(f)),
            Err(e) => Err(e),
        }
    }
}

/// Folds the command records from list position `k` onwards onto the
/// commands gathered so far.
pub open spec fn spec_parse_commands(
    bytes: Seq<u8>,
    commands_offset: int,
    k: int,
    count: int,
    acc: Seq<CommandModel>,
) -> Result<Seq<CommandModel>, SoundError>
    decreases count - k,
{
    if k >= count {
        Ok(acc)
    } else {
        match spec_parse_command(bytes, commands_offset + 8 * k) {
            Ok(m) => spec_parse_commands(bytes, commands_offset, k + 1, count, acc.push(m)),
            Err(e) => Err(e),
        }
    }
}

/// What parsing a whole `'snd '` resource must produce: its format, its
/// data formats, and the ghost images of its commands.
pub open spec fn spec_parse_snd(bytes: Seq<u8>) -> Result<
    (ResourceFormat, Seq<DataFormat>, Seq<CommandModel>),
    SoundError,
> {
    if bytes.len() < 6 {
        Err(SoundError::CorruptResource)
    } else {
        let format_id = spec_u16_of(bytes, 0);
        if format_id == 1 {
            let dcount = spec_u16_of(bytes, 2);
            if bytes.len() < 6 + dcount * 6 {
                Err(SoundError::CorruptResource)
            } else {
                match spec_parse_formats(bytes, 0, dcount as int, Seq::empty()) {
                    Err(e) => Err(e),
                    Ok(formats) => {
                        let clo = 4 + 6 * dcount;
                        let ccount = spec_u16_of(bytes, clo as int);
                        if bytes.len() < clo + 2 + ccount * 8 {
                            Err(SoundError::CorruptResource)
                        } else {
                            match spec_parse_commands(
                                bytes,
                                clo + 2,
                                0,
                                ccount as int,
                                Seq::empty(),
                            ) {
                                Ok(cmds) => Ok((ResourceFormat::Snd1, formats, cmds)),
                                Err(e) => Err(e),
                            }
                        }
                    },
                }
            }
        } else if format_id == 2 {
            let ccount = spec_u16_of(bytes, 6);
            if bytes.len() < 8 + ccount * 8 {
                Err(SoundError::CorruptResource)
            } else {
                match spec_parse_commands(bytes, 8, 0, ccount as int, Seq::empty()) {
                    Ok(cmds) => Ok((ResourceFormat::Snd2, Seq::empty(), cmds)),
                    Err(e) => Err(e),
                }
            }
        } else {
            Err(SoundError::IllegalResourceFormat(format_id))
        }
    }
}

/// A `'snd '` resource represents a sound, and `SndResource` instances
/// describe the contents of a single `'snd '` resource.
///
/// Sounds are constructed from one or more commands, and may be produced
/// procedurally or using sampled data.
#[derive(Debug)]
pub struct SndResource {
    /// The resource's format.
    pub resource_format: ResourceFormat,
    /// The data formats named by a format-1 resource.
    pub data_formats: Vec<DataFormat>,
    /// The commands of the sound, in resource order.
    pub commands: Vec<SoundCommand>,
}

/// Whether a parsed resource realises what [`spec_parse_snd`] prescribes.
pub open spec fn snd_matches(
    s: SndResource,
    m: (ResourceFormat, Seq<DataFormat>, Seq<CommandModel>),
) -> bool {
    &&& s.resource_format == m.0
    &&& s.data_formats@ == m.1
    &&& s.commands@.len() == m.2.len()
    &&& forall|k: int| 0 <= k < s.commands@.len() ==> cmd_matches(#[trigger] s.commands@[k], m.2[k])
}

impl SndResource {
    /// Returns the format of this sound resource. [`ResourceFormat::Snd2`]
    /// was used primarily for HyperCard sounds and was considered
    /// obsolete/deprecated by [`ResourceFormat::Snd1`] by 1994 at the
    /// latest.
    pub fn resource_format(&self) -> (r: ResourceFormat)
        ensures
            r == self.resource_format,
    {
        self.resource_format
    }

    /// Returns the "data formats" described by this sound resource. May
    /// be empty for `Snd1` resources and is always empty for `Snd2`
    /// resources.
    pub fn data_formats(&self) -> (r: &Vec<DataFormat>)
        ensures
            r@ == self.data_formats@,
    {
        &self.data_formats
    }

    /// Returns the list of commands contained in this sound resource.
    pub fn commands(&self) -> (r: &Vec<SoundCommand>)
        ensures
            r@ == self.commands@,
    {
        &self.commands
    }

    /// Parses a whole `'snd '` resource.
    ///
    /// # Errors
    ///
    /// Every counted table is bounds-checked against the resource's
    /// length ([`SoundError::CorruptResource`] when it falls short, where
    /// an unchecked reader might fault instead), and each record must
    /// name a known format or command with parameters in range.
    #[verifier::loop_isolation(false)]
    #[verifier::rlimit(100)]
    pub fn try_from(bytes: &[u8]) -> (r: Result<SndResource, SoundError>)
        ensures
            ({
                match spec_parse_snd(bytes@) {
                    Ok(m) => r matches Ok(s) && snd_matches(s, m),
                    Err(e) => r == Err::<SndResource, SoundError>(e),
                }
            }),
    {
        if bytes.len() < 6 {
            return Err(SoundError::CorruptResource);
        }
        let format_id = u16_be(bytes[0], bytes[1]);
        let resource_format = match ResourceFormat::try_from_id(format_id) {
            Ok(f) => f,
            Err(e) => {
                return Err(e);
            },
        };
        let mut data_formats: Vec<DataFormat> = Vec::new();
        let commands_count_offset: usize;
        match resource_format {
            ResourceFormat::Snd1 => {
                let dcount = u16_be(bytes[2], bytes[3]) as usize;
                if (bytes.len() as u64) < 6 + 6 * (dcount as u64) {
                    return Err(SoundError::CorruptResource);
                }
                let mut k: usize = 0;
                while k < dcount
                    invariant
                        k <= dcount,
                        spec_parse_formats(bytes@, 0, dcount as int, Seq::empty())
                            == spec_parse_formats(bytes@, k as int, dcount as int, data_formats@),
                    decreases dcount - k,
                {
                    let off = 4 + 6 * k;
                    let fmt_id = u16_be(bytes[off], bytes[off + 1]);
                    let init = u32_be(
                        bytes[off + 2],
                        bytes[off + 3],
                        bytes[off + 4],
                        bytes[off + 5],
                    );
                    proof {
                        assert(fmt_id == spec_u16_of(bytes@, 4 + 6 * (k as int)));
                        assert(init == spec_u32_of(bytes@, 4 + 6 * (k as int) + 2));
                    }
                    let fmt = match fmt_id {
                        1 => DataFormat::SquareWave(init),
                        3 => DataFormat::WaveTable(init),
                        5 => DataFormat::SampledSound(init),
                        other => {
                            return Err(SoundError::IllegalDataFormat(other));
                        },
                    };
                    data_formats.push(fmt);
                    k = k + 1;
                }
                commands_count_offset = 4 + 6 * dcount;
            },
            ResourceFormat::Snd2 => {
                commands_count_offset = 6;
            },
        }
        if commands_count_offset + 2 > bytes.len() {
            return Err(SoundError::CorruptResource);
        }
        let ccount = u16_be(bytes[commands_count_offset], bytes[commands_count_offset + 1])
            as usize;
        if (bytes.len() as u64) < commands_count_offset as u64 + 2 + 8 * (ccount as u64) {
            return Err(SoundError::CorruptResource);
        }
        let commands_offset = commands_count_offset + 2;
        let mut commands: Vec<SoundCommand> = Vec::new();
        let ghost mut g_cmds: Seq<CommandModel> = Seq::empty();
        let mut k: usize = 0;
        while k < ccount
            invariant
                k <= ccount,
                commands@.len() == g_cmds.len(),
                forall|j: int|
                    0 <= j < commands@.len() ==> cmd_matches(#[trigger] commands@[j], g_cmds[j]),
                spec_parse_commands(bytes@, commands_offset as int, 0, ccount as int, Seq::empty())
                    == spec_parse_commands(
                    bytes@,
                    commands_offset as int,
                    k as int,
                    ccount as int,
                    g_cmds,
                ),
            decreases ccount - k,
        {
            let off = commands_offset + 8 * k;
            match parse_command(bytes, off) {
                Ok(c) => {
                    proof {
                        let m = spec_parse_command(bytes@, off as int).unwrap();
                        g_cmds = g_cmds.push(m);
                    }
                    commands.push(c);
                },
                Err(e) => {
                    return Err(e);
                },
            }
            k = k + 1;
        }
        Ok(SndResource { resource_format, data_formats, commands })
    }
}

} // verus!
