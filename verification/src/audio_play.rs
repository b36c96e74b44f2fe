//! Playing sound.
use vstd::prelude::*;

use crate::samples::frame_words;
#[allow(unused_imports)]
use crate::decode::{resampler_options, Sample};
#[allow(unused_imports)]
use crate::presentation::PLAY_SAMPLE_RATE;
#[allow(unused_imports)]
use crate::samples::{are_words, frame_bytes, has_frame};

verus! {

/// The rate of the sound that is played, in samples a second.
pub const AUDIO_SAMPLE_RATE: u32 = 48000;

/// The number of channels of the sound that is played.
pub const AUDIO_CHANNELS: u16 = 2;

/// A piece of sound as the player takes it; the samples are the bits of 32 bit numbers.
#[derive(Debug)]
pub struct SamplesBuffer {
    pub channels: u16,
    pub sample_rate: u32,
    pub samples: Vec<u32>,
}

/// Why a sound frame cannot be played.
#[derive(Debug, Clone, Copy, PartialEq, Eq, Structural)]
pub enum PlayError {
    /// The bytes cannot be read as samples of this machine.
    Misaligned,
    /// The sound has no channels.
    NoChannels,
    /// The sound has no rate.
    NoRate,
}

/// Why sound of so many channels and such a rate cannot be played, if it cannot.
pub open spec fn play_error(channels: u32, rate: u32) -> Option<PlayError> {
    if channels as u16 == 0 {
        Some(PlayError::NoChannels)
    } else if rate == 0 {
        Some(PlayError::NoRate)
    } else {
        None
    }
}

/// Sound is played exactly where it has channels and a rate, and what is missing is told, the
/// channels first.
pub proof fn law_play_error(channels: u32, rate: u32)
    requires
        channels < 65536,
    ensures
        play_error(channels, rate) is None <==> channels > 0 && rate > 0,
        play_error(channels, rate) == Some(PlayError::NoChannels) <==> channels == 0,
        play_error(channels, rate) == Some(PlayError::NoRate) <==> channels > 0 && rate == 0,
{
}

/// Sound is resampled to just what is played: as many samples a second, in as many channels.
pub proof fn law_resampled_as_played(sample: Sample, rate: u32)
    ensures
        resampler_options(sample, rate).out_rate == AUDIO_SAMPLE_RATE,
        resampler_options(sample, rate).out_channels == AUDIO_CHANNELS,
        AUDIO_SAMPLE_RATE == PLAY_SAMPLE_RATE,
{
}

/// Takes the samples of a frame and says how they are played.
pub fn samples_buffer(words: Vec<u32>, channels: u32, rate: u32) -> (buffer: Result<
    SamplesBuffer,
    PlayError,
>)
    ensures
        match buffer {
            Ok(buffer) => play_error(channels, rate) is None && buffer.channels == channels as u16
                && buffer.sample_rate == rate && buffer.samples@ == words@,
            Err(e) => play_error(channels, rate) == Some(e),
        },
{
    let n_channels: u16 = #[verifier::truncate]
    (channels as u16);
    if n_channels == 0 {
        return Err(PlayError::NoChannels);
    }
    if rate == 0 {
        return Err(PlayError::NoRate);
    }
    Ok(SamplesBuffer { channels: n_channels, sample_rate: rate, samples: words })
}

/// What the player keeps beside the device that plays: the volume, as the bits of a 32 bit number.
#[derive(Debug, Clone, Copy, PartialEq, Eq, Structural)]
pub struct AudioPlayer {
    pub current_volumn: u32,
}

/// The bits of the 32 bit number one: the full volume.
pub const FULL_VOLUME: u32 = 0x3f80_0000;

impl AudioPlayer {
    /// Makes a player at full volume.
    pub fn new() -> (player: AudioPlayer)
        ensures
            player.current_volumn == FULL_VOLUME,
    {
        AudioPlayer { current_volumn: FULL_VOLUME }
    }

    /// Changes the volume.
    pub fn change_volumn(&mut self, volumn: u32)
        ensures
            final(self).current_volumn == volumn,
    {
        self.current_volumn = volumn;
    }

    /// The volume.
    pub fn current_volumn(&self) -> (volumn: u32)
        ensures
            volumn == self.current_volumn,
    {
        self.current_volumn
    }

    /// Makes a piece of sound out of the bytes of a frame.
    pub fn play_raw_data_from_audio_frame(bytes: &[u8], samples: usize, channels: u32, rate: u32) -> (
    buffer: Result<SamplesBuffer, PlayError>)
        requires
            has_frame(bytes@, samples, channels),
        ensures
            match buffer {
                Ok(buffer) => play_error(channels, rate) is None && buffer.channels == channels as u16
                    && buffer.sample_rate == rate && are_words(
                    buffer.samples@,
                    bytes@.take(frame_bytes(samples as int, channels as int)),
                ),
                Err(e) => e == PlayError::Misaligned || play_error(channels, rate) == Some(e),
            },
    {
        match frame_words(bytes, samples, channels) {
            Some(words) => samples_buffer(words, channels, rate),
            None => Err(PlayError::Misaligned),
        }
    }
}

/// The full volume is the number one: a 32 bit number without sign is its fraction, of 23 bits,
/// added to one and doubled as often as its exponent says, less 127.
pub proof fn law_full_volume_is_one()
    ensures
        FULL_VOLUME as int / 0x80_0000 == 127,
        FULL_VOLUME as int % 0x80_0000 == 0,
{
}

} // verus!
