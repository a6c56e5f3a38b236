//! Tests for `'snd '` resource and sampled-sound decoding.

use clarus::snd::command::SoundCommand;
use clarus::snd::sampled::SampledSound;
use clarus::snd::DataFormat;
use clarus::snd::ResourceFormat;
use clarus::snd::SndResource;
use clarus::snd::SoundError;
use clarus::snd::RATE_22_KHZ;

/// Builds a format-1 `'snd '` resource with one sampled-sound data format
/// and a single `bufferCmd` pointing at an in-resource sampled sound.
fn sampled_snd_resource(samples: &[u8]) -> Vec<u8> {
    let mut bytes = Vec::new();
    // Resource format 1, one data format: sampled sound, no init flags.
    bytes.extend_from_slice(&1u16.to_be_bytes());
    bytes.extend_from_slice(&1u16.to_be_bytes());
    bytes.extend_from_slice(&5u16.to_be_bytes());
    bytes.extend_from_slice(&0u32.to_be_bytes());
    // One command: bufferCmd (81) with the offset bit set, pointing at
    // the sampled-sound header that follows the command list.
    bytes.extend_from_slice(&1u16.to_be_bytes());
    bytes.extend_from_slice(&0x8051u16.to_be_bytes());
    bytes.extend_from_slice(&0u16.to_be_bytes());
    bytes.extend_from_slice(&20u32.to_be_bytes());
    // Sampled-sound header: in-place samples, 22 kHz, no loop, plain
    // encoding, base frequency 60 (middle C).
    bytes.extend_from_slice(&0u32.to_be_bytes());
    bytes.extend_from_slice(&(samples.len() as u32).to_be_bytes());
    bytes.extend_from_slice(&RATE_22_KHZ.to_be_bytes());
    bytes.extend_from_slice(&0u32.to_be_bytes());
    bytes.extend_from_slice(&0u32.to_be_bytes());
    bytes.push(0);
    bytes.push(60);
    bytes.extend_from_slice(samples);
    bytes
}

#[test]
fn load_sound() {
    let bytes = sampled_snd_resource(&[0x80, 0x90, 0xa0, 0x90]);

    let snd = SndResource::try_from(&bytes[..]).unwrap();

    assert_eq!(ResourceFormat::Snd1, snd.resource_format());

    assert_eq!(1, snd.data_formats().len());
    assert!(matches!(&snd.data_formats()[0], DataFormat::SampledSound(_)));

    assert_eq!(1, snd.commands().len());

    if let SoundCommand::Buffer(ref sampled_sound) = snd.commands()[0] {
        assert_eq!(RATE_22_KHZ, sampled_sound.sample_rate());
        assert_eq!(60, sampled_sound.base_frequency());
        assert!(!sampled_sound.samples().is_empty());
    } else {
        panic!("Unexpected sound command");
    }
}

#[test]
fn load() {
    let bytes = sampled_snd_resource(&[1, 2, 3, 4]);
    let sound = SampledSound::try_from(&bytes[20..]).unwrap();

    assert_eq!(RATE_22_KHZ, sound.sample_rate());
    assert_eq!(60, sound.base_frequency());
    assert_eq!(&[1, 2, 3, 4], sound.samples().as_slice());
}

#[test]
fn unknown_resource_format_is_rejected() {
    let mut bytes = sampled_snd_resource(&[1]);
    bytes[1] = 3;

    assert!(matches!(
        SndResource::try_from(&bytes[..]),
        Err(SoundError::IllegalResourceFormat(3))
    ));
}

#[test]
fn unknown_data_format_is_rejected() {
    let mut bytes = sampled_snd_resource(&[1]);
    bytes[5] = 2;

    assert!(matches!(
        SndResource::try_from(&bytes[..]),
        Err(SoundError::IllegalDataFormat(2))
    ));
}

#[test]
fn unknown_command_is_rejected() {
    // nullCmd with a bogus identifier (77 names no resource command).
    let mut bytes = Vec::new();
    bytes.extend_from_slice(&2u16.to_be_bytes());
    bytes.extend_from_slice(&0u32.to_be_bytes());
    bytes.extend_from_slice(&1u16.to_be_bytes());
    bytes.extend_from_slice(&77u16.to_be_bytes());
    bytes.extend_from_slice(&0u16.to_be_bytes());
    bytes.extend_from_slice(&0u32.to_be_bytes());

    assert!(matches!(
        SndResource::try_from(&bytes[..]),
        Err(SoundError::IllegalCommand(77))
    ));
}

#[test]
fn out_of_range_note_is_rejected() {
    // freqCmd (42) with a note above 127.
    let mut bytes = Vec::new();
    bytes.extend_from_slice(&2u16.to_be_bytes());
    bytes.extend_from_slice(&0u32.to_be_bytes());
    bytes.extend_from_slice(&1u16.to_be_bytes());
    bytes.extend_from_slice(&42u16.to_be_bytes());
    bytes.extend_from_slice(&7u16.to_be_bytes());
    bytes.extend_from_slice(&128u32.to_be_bytes());

    assert!(matches!(
        SndResource::try_from(&bytes[..]),
        Err(SoundError::IllegalParameter { command: 42, param1: 7, param2: 128 })
    ));
}

#[test]
fn sound_pointer_without_offset_bit_is_rejected() {
    // soundCmd (80) without the offset bit points at process memory.
    let mut bytes = Vec::new();
    bytes.extend_from_slice(&2u16.to_be_bytes());
    bytes.extend_from_slice(&0u32.to_be_bytes());
    bytes.extend_from_slice(&1u16.to_be_bytes());
    bytes.extend_from_slice(&80u16.to_be_bytes());
    bytes.extend_from_slice(&0u16.to_be_bytes());
    bytes.extend_from_slice(&0u32.to_be_bytes());

    assert!(matches!(
        SndResource::try_from(&bytes[..]),
        Err(SoundError::UnresolveablePointer)
    ));
}

#[test]
fn truncated_resource_is_corrupt() {
    // A format-2 resource announcing one command but carrying none.
    let mut bytes = Vec::new();
    bytes.extend_from_slice(&2u16.to_be_bytes());
    bytes.extend_from_slice(&0u32.to_be_bytes());
    bytes.extend_from_slice(&1u16.to_be_bytes());

    assert!(matches!(
        SndResource::try_from(&bytes[..]),
        Err(SoundError::CorruptResource)
    ));
    assert!(matches!(
        SndResource::try_from(&bytes[..3]),
        Err(SoundError::CorruptResource)
    ));
}

#[test]
fn unsupported_sample_encoding_is_rejected() {
    let mut bytes = sampled_snd_resource(&[1, 2]);
    // The encoding byte sits 20 bytes into the sampled-sound header.
    bytes[40] = 1;

    assert!(matches!(
        SndResource::try_from(&bytes[..]),
        Err(SoundError::UnsupportedSoundFormat(1))
    ));
}

#[test]
fn wave_table_command_carries_its_table() {
    // waveTableCmd (60) with the offset bit, table of four bytes at
    // offset 20.
    let mut bytes = Vec::new();
    bytes.extend_from_slice(&2u16.to_be_bytes());
    bytes.extend_from_slice(&0u32.to_be_bytes());
    bytes.extend_from_slice(&1u16.to_be_bytes());
    bytes.extend_from_slice(&0x803cu16.to_be_bytes());
    bytes.extend_from_slice(&4u16.to_be_bytes());
    bytes.extend_from_slice(&16u32.to_be_bytes());
    bytes.extend_from_slice(&[9, 8, 7, 6]);

    let snd = SndResource::try_from(&bytes[..]).unwrap();

    assert_eq!(ResourceFormat::Snd2, snd.resource_format());
    assert!(snd.data_formats().is_empty());
    assert_eq!(1, snd.commands().len());
    if let SoundCommand::WaveTable(ref table) = snd.commands()[0] {
        assert_eq!(&[9, 8, 7, 6], table.as_slice());
    } else {
        panic!("Unexpected sound command");
    }
}

#[test]
fn plain_commands_parse() {
    // A format-2 resource with a waitCmd and a rateCmd.
    let mut bytes = Vec::new();
    bytes.extend_from_slice(&2u16.to_be_bytes());
    bytes.extend_from_slice(&0u32.to_be_bytes());
    bytes.extend_from_slice(&2u16.to_be_bytes());
    bytes.extend_from_slice(&10u16.to_be_bytes());
    bytes.extend_from_slice(&500u16.to_be_bytes());
    bytes.extend_from_slice(&0u32.to_be_bytes());
    bytes.extend_from_slice(&82u16.to_be_bytes());
    bytes.extend_from_slice(&0u16.to_be_bytes());
    bytes.extend_from_slice(&0x00020000u32.to_be_bytes());

    let snd = SndResource::try_from(&bytes[..]).unwrap();

    assert_eq!(2, snd.commands().len());
    assert!(matches!(snd.commands()[0], SoundCommand::Wait(500)));
    assert!(matches!(snd.commands()[1], SoundCommand::Rate(0x00020000)));
}
