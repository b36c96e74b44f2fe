//! Subtitles by a built-in model: speech is gathered, and transcribed in segments.
use std::collections::VecDeque;

use vstd::prelude::*;

verus! {

/// How many frames without speech a segment outlasts.
pub const BUFFER_FRAME_COUNT: usize = 35;

/// How many samples are transcribed together.
pub const MAXIMUM_SAMPLE_COUNT: usize = 32000;

/// How many samples the voice detector listens to: ten milliseconds.
pub const VAD_SAMPLES: usize = 160;

/// The language that is transcribed, if any.
#[derive(Debug, Clone, Copy, PartialEq, Eq, Structural)]
pub enum UsedModel {
    Empty,
    Chinese,
    English,
}

/// The special tokens of a vocabulary, as far as it has them.
#[derive(Debug, Clone, Copy, PartialEq, Eq, Structural)]
pub struct SpecialTokens {
    pub start_of_transcript: Option<usize>,
    pub transcribe: Option<usize>,
    pub start_of_prev: Option<usize>,
    pub english: Option<usize>,
    pub chinese: Option<usize>,
    pub first_timestamp: Option<usize>,
    pub end_of_text: Option<usize>,
    pub no_timestamps: Option<usize>,
}

impl SpecialTokens {
    /// Whether no special token is missing.
    pub open spec fn are_complete(&self) -> bool {
        &&& self.start_of_transcript is Some
        &&& self.transcribe is Some
        &&& self.start_of_prev is Some
        &&& self.english is Some
        &&& self.chinese is Some
        &&& self.first_timestamp is Some
        &&& self.end_of_text is Some
        &&& self.no_timestamps is Some
    }
}

/// The tokens with which a transcription in a language starts.
pub open spec fn start_tokens(tokens: SpecialTokens, language: usize) -> Seq<usize> {
    seq![
        tokens.start_of_transcript.unwrap(),
        language,
        tokens.transcribe.unwrap(),
        tokens.no_timestamps.unwrap(),
    ]
}

/// The tokens that are used for a language.
pub open spec fn chosen_tokens(
    used_model: UsedModel,
    english: Seq<usize>,
    chinese: Seq<usize>,
) -> Seq<usize> {
    if used_model == UsedModel::Chinese {
        chinese
    } else {
        english
    }
}

/// A transcription starts with the token that starts one, then that of its language, then the ones
/// that ask for a transcription and for no timestamps; only the second differs between languages.
/// English is used unless Chinese is chosen. A vocabulary must have all eight special tokens.
pub proof fn law_start_tokens(tokens: SpecialTokens, language: usize, english: Seq<usize>, chinese: Seq<usize>)
    ensures
        start_tokens(tokens, language).len() == 4,
        tokens.start_of_transcript is Some ==> start_tokens(tokens, language)[0]
            == tokens.start_of_transcript.unwrap(),
        start_tokens(tokens, language)[1] == language,
        tokens.transcribe is Some ==> start_tokens(tokens, language)[2] == tokens.transcribe.unwrap(),
        tokens.no_timestamps is Some ==> start_tokens(tokens, language)[3]
            == tokens.no_timestamps.unwrap(),
        chosen_tokens(UsedModel::Chinese, english, chinese) == chinese,
        chosen_tokens(UsedModel::English, english, chinese) == english,
        chosen_tokens(UsedModel::Empty, english, chinese) == english,
        tokens.are_complete() <==> !(tokens.start_of_transcript is None || tokens.transcribe is None
            || tokens.start_of_prev is None || tokens.english is None || tokens.chinese is None
            || tokens.first_timestamp is None || tokens.end_of_text is None
            || tokens.no_timestamps is None),
{
}

/// What can go wrong with subtitles.
#[derive(Debug, Clone, Copy, PartialEq, Eq, Structural)]
pub enum SubtitleError {
    /// The vocabulary lacks a special token.
    SpecialTokenMissing,
    /// The voice detector refused the samples.
    VoiceDetection,
}

/// How readily a detector of voices takes sound for something else.
#[derive(Debug, Clone, Copy, PartialEq, Eq, Structural)]
pub enum VoiceMode {
    Quality,
    LowBitrate,
    Aggressive,
    VeryAggressive,
}

/// Whether voice is heard in some samples of sound at 16000 samples a second, for a detector that
/// has heard nothing before.
pub uninterp spec fn voice_in(samples: Seq<i16>, mode: VoiceMode) -> bool;

/// Listens for a voice.
///
/// Trusted: `webrtc_vad::Vad::is_voice_segment`, on a new detector for 16000 samples a second that
/// was set to a mode. It takes ten, twenty or thirty milliseconds of sound and refuses any other
/// length; whether it hears a voice depends on the samples and the mode alone. It cannot be given
/// no samples at all.
#[verifier::external_body]
fn detect_voice(samples: &Vec<i16>, mode: VoiceMode) -> (heard: Result<bool, SubtitleError>)
    requires
        samples@.len() > 0,
    ensures
        heard == (if samples@.len() == 160 || samples@.len() == 320 || samples@.len() == 480 {
            Ok::<bool, SubtitleError>(voice_in(samples@, mode))
        } else {
            Err(SubtitleError::VoiceDetection)
        }),
{
    let mut vad = webrtc_vad::Vad::new_with_rate(webrtc_vad::SampleRate::Rate16kHz);
    vad.set_mode(match mode {
        VoiceMode::Quality => webrtc_vad::VadMode::Quality,
        VoiceMode::LowBitrate => webrtc_vad::VadMode::LowBitrate,
        VoiceMode::Aggressive => webrtc_vad::VadMode::Aggressive,
        VoiceMode::VeryAggressive => webrtc_vad::VadMode::VeryAggressive,
    });
    vad.is_voice_segment(samples).map_err(|_| SubtitleError::VoiceDetection)
}

/// The speech that has been heard and not transcribed yet. Samples of speech are kept as the bits
/// of 32 bit numbers.
#[derive(Debug)]
pub struct AISubTitle2 {
    pub speaking: bool,
    pub unactive_count: usize,
    pub vad_buffer: VecDeque<i16>,
    pub speech_segment: VecDeque<u32>,
    pub english_initial_tokens: Vec<usize>,
    pub chinese_initial_tokens: Vec<usize>,
    pub end_token: usize,
}

/// The mathematical value of an `AISubTitle2`, without the tokens.
pub ghost struct Hearing {
    pub speaking: bool,
    pub unactive_count: int,
    pub waiting: Seq<i16>,
    pub speech: Seq<u32>,
}

impl AISubTitle2 {
    /// What has been heard.
    pub open spec fn hearing(&self) -> Hearing {
        Hearing {
            speaking: self.speaking,
            unactive_count: self.unactive_count as int,
            waiting: self.vad_buffer@,
            speech: self.speech_segment@,
        }
    }

    /// Whether the tokens are the same as those of another one.
    pub open spec fn same_tokens(&self, other: &AISubTitle2) -> bool {
        &&& self.english_initial_tokens@ == other.english_initial_tokens@
        &&& self.chinese_initial_tokens@ == other.chinese_initial_tokens@
        &&& self.end_token == other.end_token
    }

    /// Whether the count of frames without speech is one that listening can lead to.
    pub open spec fn inv(&self) -> bool {
        self.unactive_count <= BUFFER_FRAME_COUNT + 1
    }
}

/// What listening leads to: what has been heard then, whether samples are transcribed, and whether
/// the segment ends once they are.
pub ghost struct Heard {
    pub hearing: Hearing,
    pub full: bool,
    pub ends: bool,
}

/// What becomes of what was heard when a voice is active or not: a segment begins with a voice,
/// grows with it, is transcribed piece by piece when it is long enough, and ends when no voice has
/// been heard for some time.
pub open spec fn after_listening(hearing: Hearing, active: bool, frame: Seq<u32>) -> Heard {
    if active {
        let speech = hearing.speech + frame;
        let full = hearing.speaking && speech.len() > MAXIMUM_SAMPLE_COUNT;
        Heard {
            hearing: Hearing {
                speaking: true,
                unactive_count: if hearing.speaking {
                    hearing.unactive_count
                } else {
                    0
                },
                speech: if full {
                    speech.skip(MAXIMUM_SAMPLE_COUNT as int)
                } else {
                    speech
                },
                ..hearing
            },
            full,
            ends: false,
        }
    } else if !hearing.speaking {
        Heard { hearing, full: false, ends: false }
    } else if hearing.unactive_count <= BUFFER_FRAME_COUNT {
        Heard {
            hearing: Hearing { unactive_count: hearing.unactive_count + 1, ..hearing },
            full: false,
            ends: false,
        }
    } else if hearing.speech.len() > MAXIMUM_SAMPLE_COUNT {
        Heard {
            hearing: Hearing {
                speech: hearing.speech.skip(MAXIMUM_SAMPLE_COUNT as int),
                ..hearing
            },
            full: true,
            ends: true,
        }
    } else {
        Heard { hearing: Hearing { speaking: false, ..hearing }, full: false, ends: false }
    }
}

/// The samples that are transcribed when the segment is long enough.
pub open spec fn piece_of(hearing: Hearing, active: bool, frame: Seq<u32>) -> Seq<u32> {
    let speech = if active {
        hearing.speech + frame
    } else {
        hearing.speech
    };
    speech.take(MAXIMUM_SAMPLE_COUNT as int)
}

/// Samples that are transcribed together.
#[derive(Debug)]
pub struct Piece {
    pub samples: Vec<u32>,
    /// Whether the segment ends once the samples are transcribed.
    pub ends_segment: bool,
}

/// Whether a piece is what listening leads to.
pub open spec fn is_piece(
    piece: Option<Piece>,
    hearing: Hearing,
    active: bool,
    frame: Seq<u32>,
) -> bool {
    let heard = after_listening(hearing, active, frame);
    match piece {
        Some(piece) => heard.full && piece.samples@ == piece_of(hearing, active, frame)
            && piece.ends_segment == heard.ends,
        None => !heard.full,
    }
}

/// What waits for the voice detector when some more samples have come.
pub open spec fn with_samples(hearing: Hearing, pcm: Seq<i16>) -> Hearing {
    Hearing { waiting: hearing.waiting + pcm, ..hearing }
}

/// What waits when the detector has taken its samples.
pub open spec fn taken(hearing: Hearing) -> Hearing {
    Hearing { waiting: hearing.waiting.skip(VAD_SAMPLES as int), ..hearing }
}

/// Whether `after` and a piece are what a frame of sound leads to: when more than enough samples
/// wait, the detector listens to the first of them.
pub open spec fn is_received(
    after: Hearing,
    piece: Option<Piece>,
    before: Hearing,
    pcm: Seq<i16>,
    frame: Seq<u32>,
) -> bool {
    let hearing = with_samples(before, pcm);
    let active = voice_in(hearing.waiting.take(VAD_SAMPLES as int), VoiceMode::Aggressive);
    if hearing.waiting.len() > VAD_SAMPLES {
        &&& after == after_listening(taken(hearing), active, frame).hearing
        &&& is_piece(piece, taken(hearing), active, frame)
    } else {
        &&& after == hearing
        &&& piece is None
    }
}

/// What has been heard when a piece has been transcribed, or not.
pub open spec fn after_piece(hearing: Hearing, ends_segment: bool, succeeded: bool) -> Hearing {
    Hearing { speaking: hearing.speaking && !(ends_segment && succeeded), ..hearing }
}

impl AISubTitle2 {
    /// Prepares for the tokens of a vocabulary, which must have all special tokens.
    pub fn new(tokens: &SpecialTokens) -> (made: Result<AISubTitle2, SubtitleError>)
        ensures
            match made {
                Ok(subtitle) => {
                    &&& tokens.are_complete()
                    &&& subtitle.inv()
                    &&& subtitle.hearing() == (Hearing {
                        speaking: false,
                        unactive_count: 0,
                        waiting: Seq::empty(),
                        speech: Seq::empty(),
                    })
                    &&& subtitle.english_initial_tokens@ == start_tokens(
                        *tokens,
                        tokens.english.unwrap(),
                    )
                    &&& subtitle.chinese_initial_tokens@ == start_tokens(
                        *tokens,
                        tokens.chinese.unwrap(),
                    )
                    &&& subtitle.end_token == tokens.end_of_text.unwrap()
                },
                Err(e) => !tokens.are_complete() && e == SubtitleError::SpecialTokenMissing,
            },
    {
        match (
            tokens.start_of_transcript,
            tokens.transcribe,
            tokens.english,
            tokens.chinese,
            tokens.end_of_text,
            tokens.no_timestamps,
        ) {
            (
                Some(start),
                Some(transcribe),
                Some(english),
                Some(chinese),
                Some(end_token),
                Some(no_timestamps),
            ) if tokens.start_of_prev.is_some() && tokens.first_timestamp.is_some() => {
                let english_initial_tokens: Vec<usize> = vec![
                    start,
                    english,
                    transcribe,
                    no_timestamps,
                ];
                let chinese_initial_tokens: Vec<usize> = vec![
                    start,
                    chinese,
                    transcribe,
                    no_timestamps,
                ];
                assert(english_initial_tokens@ =~= start_tokens(*tokens, english));
                assert(chinese_initial_tokens@ =~= start_tokens(*tokens, chinese));
                Ok(
                    AISubTitle2 {
                        speaking: false,
                        unactive_count: 0,
                        vad_buffer: VecDeque::new(),
                        speech_segment: VecDeque::new(),
                        english_initial_tokens,
                        chinese_initial_tokens,
                        end_token,
                    },
                )
            },
            _ => Err(SubtitleError::SpecialTokenMissing),
        }
    }

    /// The tokens with which a transcription starts: those of English, unless Chinese is wanted.
    pub fn initial_tokens(&self, used_model: UsedModel) -> (tokens: &Vec<usize>)
        ensures
            tokens@ == chosen_tokens(
                used_model,
                self.english_initial_tokens@,
                self.chinese_initial_tokens@,
            ),
    {
        match used_model {
            UsedModel::Chinese => &self.chinese_initial_tokens,
            _ => &self.english_initial_tokens,
        }
    }

    /// Takes the samples out that are transcribed together.
    pub fn process_audio_data(&mut self) -> (piece: Vec<u32>)
        requires
            old(self).speech_segment@.len() >= MAXIMUM_SAMPLE_COUNT,
        ensures
            piece@ == old(self).speech_segment@.take(MAXIMUM_SAMPLE_COUNT as int),
            final(self).hearing() == (Hearing {
                speech: old(self).speech_segment@.skip(MAXIMUM_SAMPLE_COUNT as int),
                ..old(self).hearing()
            }),
            final(self).same_tokens(old(self)),
    {
        let ghost all = self.speech_segment@;
        assert(all.skip(0) =~= all);
        let mut piece: Vec<u32> = Vec::new();
        while piece.len() < MAXIMUM_SAMPLE_COUNT
            invariant
                piece@.len() <= MAXIMUM_SAMPLE_COUNT <= all.len(),
                piece@ == all.take(piece@.len() as int),
                self.hearing() == (Hearing {
                    speech: all.skip(piece@.len() as int),
                    ..old(self).hearing()
                }),
                self.same_tokens(old(self)),
            decreases MAXIMUM_SAMPLE_COUNT - piece@.len(),
        {
            let ghost n = piece@.len() as int;
            if let Some(sample) = self.speech_segment.pop_front() {
                piece.push(sample);
                assert(piece@ =~= all.take(n + 1));
                assert(self.speech_segment@ =~= all.skip(n + 1));
            }
        }
        piece
    }

    /// Takes note of whether a voice is active, together with the samples of the frame in which it
    /// was listened for. Gives back samples to transcribe, when there are enough, with whether the
    /// segment ends once they are transcribed.
    pub fn listen(&mut self, active: bool, frame: &Vec<u32>) -> (piece: Option<Piece>)
        requires
            old(self).inv(),
        ensures
            final(self).inv(),
            final(self).same_tokens(old(self)),
            final(self).hearing() == after_listening(
                old(self).hearing(),
                active,
                frame@,
            ).hearing,
            is_piece(piece, old(self).hearing(), active, frame@),
    {
        if active {
            let was_speaking = self.speaking;
            if !was_speaking {
                self.speaking = true;
                self.unactive_count = 0;
            }
            self.extend_speech(frame);
            if was_speaking && self.speech_segment.len() > MAXIMUM_SAMPLE_COUNT {
                return Some(Piece { samples: self.process_audio_data(), ends_segment: false });
            }
            None
        } else if self.speaking {
            if self.unactive_count > BUFFER_FRAME_COUNT {
                if self.speech_segment.len() > MAXIMUM_SAMPLE_COUNT {
                    return Some(
                        Piece { samples: self.process_audio_data(), ends_segment: true },
                    );
                }
                self.speaking = false;
                return None;
            }
            self.unactive_count = self.unactive_count + 1;
            None
        } else {
            None
        }
    }

    /// Takes note that a piece has been transcribed, or that this failed: the segment ends with the
    /// piece that ends it, unless that one failed.
    pub fn piece_transcribed(&mut self, ends_segment: bool, succeeded: bool)
        requires
            old(self).inv(),
        ensures
            final(self).inv(),
            final(self).same_tokens(old(self)),
            final(self).hearing() == after_piece(old(self).hearing(), ends_segment, succeeded),
    {
        if ends_segment && succeeded {
            self.speaking = false;
        }
    }

    /// Adds samples to the segment.
    fn extend_speech(&mut self, frame: &Vec<u32>)
        ensures
            final(self).hearing() == (Hearing {
                speech: old(self).speech_segment@ + frame@,
                ..old(self).hearing()
            }),
            final(self).same_tokens(old(self)),
    {
        let mut i: usize = 0;
        assert(self.speech_segment@ + frame@.take(0) =~= self.speech_segment@);
        while i < frame.len()
            invariant
                i <= frame@.len(),
                self.hearing() == (Hearing {
                    speech: old(self).speech_segment@ + frame@.take(i as int),
                    ..old(self).hearing()
                }),
                self.same_tokens(old(self)),
            decreases frame@.len() - i,
        {
            self.speech_segment.push_back(frame[i]);
            assert(self.speech_segment@ =~= old(self).speech_segment@ + frame@.take(i + 1));
            i = i + 1;
        }
        assert(frame@.take(frame@.len() as int) =~= frame@);
    }

    /// Adds samples to those that wait for the voice detector.
    fn extend_waiting(&mut self, pcm: &Vec<i16>)
        ensures
            final(self).hearing() == with_samples(old(self).hearing(), pcm@),
            final(self).same_tokens(old(self)),
    {
        let mut i: usize = 0;
        assert(self.vad_buffer@ + pcm@.take(0) =~= self.vad_buffer@);
        while i < pcm.len()
            invariant
                i <= pcm@.len(),
                self.hearing() == with_samples(old(self).hearing(), pcm@.take(i as int)),
                self.same_tokens(old(self)),
            decreases pcm@.len() - i,
        {
            self.vad_buffer.push_back(pcm[i]);
            assert(self.vad_buffer@ =~= old(self).vad_buffer@ + pcm@.take(i + 1));
            i = i + 1;
        }
        assert(pcm@.take(pcm@.len() as int) =~= pcm@);
    }

    /// Takes the samples out that the voice detector listens to.
    fn take_waiting(&mut self) -> (samples: Vec<i16>)
        requires
            old(self).vad_buffer@.len() >= VAD_SAMPLES,
        ensures
            samples@ == old(self).vad_buffer@.take(VAD_SAMPLES as int),
            final(self).hearing() == taken(old(self).hearing()),
            final(self).same_tokens(old(self)),
    {
        let ghost all = self.vad_buffer@;
        assert(all.skip(0) =~= all);
        let mut samples: Vec<i16> = Vec::new();
        while samples.len() < VAD_SAMPLES
            invariant
                samples@.len() <= VAD_SAMPLES <= all.len(),
                samples@ == all.take(samples@.len() as int),
                self.hearing() == (Hearing {
                    waiting: all.skip(samples@.len() as int),
                    ..old(self).hearing()
                }),
                self.same_tokens(old(self)),
            decreases VAD_SAMPLES - samples@.len(),
        {
            let ghost n = samples@.len() as int;
            if let Some(sample) = self.vad_buffer.pop_front() {
                samples.push(sample);
                assert(samples@ =~= all.take(n + 1));
                assert(self.vad_buffer@ =~= all.skip(n + 1));
            }
        }
        samples
    }

    /// Takes a frame of sound: `pcm` holds its samples as the voice detector takes them, and
    /// `frame` as they are transcribed. When more than enough samples wait, the detector listens to
    /// the first of them. Gives back samples to transcribe, when there are enough.
    pub fn receive_frame_data(&mut self, pcm: &Vec<i16>, frame: &Vec<u32>) -> (piece: Result<
        Option<Piece>,
        SubtitleError,
    >)
        requires
            old(self).inv(),
        ensures
            final(self).inv(),
            final(self).same_tokens(old(self)),
            piece is Ok,
            is_received(
                final(self).hearing(),
                piece.unwrap(),
                old(self).hearing(),
                pcm@,
                frame@,
            ),
    {
        self.extend_waiting(pcm);
        if self.vad_buffer.len() > VAD_SAMPLES {
            let samples = self.take_waiting();
            match detect_voice(&samples, VoiceMode::Aggressive) {
                Ok(active) => Ok(self.listen(active, frame)),
                Err(e) => Err(e),
            }
        } else {
            Ok(None)
        }
    }
}

/// No sample of speech is lost: what is taken out and what stays are what was there before,
/// together with the new frame where a voice was active.
pub proof fn law_speech_is_kept(hearing: Hearing, active: bool, frame: Seq<u32>)
    ensures
        ({
            let heard = after_listening(hearing, active, frame);
            let before = if active {
                hearing.speech + frame
            } else {
                hearing.speech
            };
            before == (if heard.full {
                piece_of(hearing, active, frame) + heard.hearing.speech
            } else {
                heard.hearing.speech
            })
        }),
{
    let heard = after_listening(hearing, active, frame);
    let before = if active {
        hearing.speech + frame
    } else {
        hearing.speech
    };
    if heard.full {
        assert(piece_of(hearing, active, frame) + heard.hearing.speech =~= before);
    }
}

/// Every piece that is transcribed is two seconds long.
pub proof fn law_pieces_are_whole(hearing: Hearing, active: bool, frame: Seq<u32>)
    requires
        after_listening(hearing, active, frame).full,
    ensures
        piece_of(hearing, active, frame).len() == MAXIMUM_SAMPLE_COUNT,
{
}

/// A voice that is heard begins a segment, or goes on with it, and the samples of its frame are
/// added behind the others. Where more than 32000 wait in a segment that was there before, the
/// first 32000 are transcribed, and the segment goes on.
pub proof fn law_voice_is_gathered(hearing: Hearing, frame: Seq<u32>)
    ensures
        ({
            let heard = after_listening(hearing, true, frame);
            let speech = hearing.speech + frame;
            &&& heard.hearing.speaking
            &&& !heard.ends
            &&& heard.hearing.waiting == hearing.waiting
            &&& heard.full <==> hearing.speaking && speech.len() > 32000
            &&& !heard.full ==> heard.hearing.speech == speech
            &&& heard.full ==> piece_of(hearing, true, frame) == speech.subrange(0, 32000)
                && heard.hearing.speech == speech.subrange(32000, speech.len() as int)
            &&& !hearing.speaking ==> heard.hearing.unactive_count == 0
            &&& hearing.speaking ==> heard.hearing.unactive_count == hearing.unactive_count
        }),
{
    let speech = hearing.speech + frame;
    if speech.len() > 32000 {
        assert(speech.take(32000) =~= speech.subrange(0, 32000));
        assert(speech.skip(32000) =~= speech.subrange(32000, speech.len() as int));
    }
}

/// What has been heard after some frames without a voice.
pub open spec fn after_silence(hearing: Hearing, frames: Seq<Seq<u32>>) -> Hearing
    decreases frames.len(),
{
    if frames.len() == 0 {
        hearing
    } else {
        after_listening(after_silence(hearing, frames.drop_last()), false, frames.last()).hearing
    }
}

/// Silence adds nothing to a segment. A segment outlasts 36 silent frames, and one of no more than
/// 32000 samples ends with the next one; its samples are kept. Where there is no segment, silence
/// changes nothing.
pub proof fn law_silence_ends_segment(hearing: Hearing, frames: Seq<Seq<u32>>)
    requires
        hearing.unactive_count == 0,
        hearing.speech.len() <= 32000 || frames.len() <= 36,
    ensures
        hearing.speaking && frames.len() <= 36 ==> after_silence(hearing, frames).speaking
            && after_silence(hearing, frames).unactive_count == frames.len(),
        frames.len() > 36 ==> !after_silence(hearing, frames).speaking,
        !hearing.speaking ==> after_silence(hearing, frames) == hearing,
        after_silence(hearing, frames).speech == hearing.speech,
        after_silence(hearing, frames).waiting == hearing.waiting,
        after_silence(hearing, frames).unactive_count <= 36,
    decreases frames.len(),
{
    if frames.len() > 0 {
        law_silence_ends_segment(hearing, frames.drop_last());
    }
}

/// Each silent frame is counted while a segment goes on, up to one more than 35, and nothing else
/// changes. With the next one a segment of no more than 32000 samples ends, and nothing of it is
/// transcribed.
pub proof fn law_silence_is_counted(hearing: Hearing, frame: Seq<u32>)
    requires
        hearing.speaking,
    ensures
        ({
            let heard = after_listening(hearing, false, frame);
            &&& hearing.unactive_count <= 35 ==> !heard.full && heard.hearing == (Hearing {
                unactive_count: hearing.unactive_count + 1,
                ..hearing
            })
            &&& hearing.unactive_count > 35 && hearing.speech.len() <= 32000 ==> !heard.full
                && !heard.hearing.speaking && heard.hearing.speech == hearing.speech
                && heard.hearing.unactive_count == hearing.unactive_count
            &&& heard.hearing.waiting == hearing.waiting
        }),
{
}

/// A long segment is not cut off by silence: once it ends, the first 32000 samples are transcribed,
/// and it ends when that has succeeded.
pub proof fn law_long_segment_is_transcribed_at_end(hearing: Hearing, frame: Seq<u32>)
    requires
        hearing.speaking,
        hearing.unactive_count > 35,
        hearing.speech.len() > 32000,
    ensures
        ({
            let heard = after_listening(hearing, false, frame);
            &&& heard.full && heard.ends
            &&& piece_of(hearing, false, frame) == hearing.speech.subrange(0, 32000)
            &&& heard.hearing.speech == hearing.speech.subrange(32000, hearing.speech.len() as int)
            &&& heard.hearing.speaking
            &&& !after_piece(heard.hearing, heard.ends, true).speaking
            &&& after_piece(heard.hearing, heard.ends, false).speaking
            &&& after_piece(heard.hearing, heard.ends, true).speech == heard.hearing.speech
        }),
{
    assert(hearing.speech.take(32000) =~= hearing.speech.subrange(0, 32000));
    assert(hearing.speech.skip(32000) =~= hearing.speech.subrange(
        32000,
        hearing.speech.len() as int,
    ));
}

/// Only a piece that ends a segment, and was transcribed, ends it.
pub proof fn law_pieces_in_between_end_nothing(hearing: Hearing, succeeded: bool)
    ensures
        after_piece(hearing, false, succeeded) == hearing,
        after_piece(hearing, true, false) == hearing,
        !after_piece(hearing, true, true).speaking,
{
}

/// The samples of a frame wait behind those before it. While no more than 160 wait, nothing else
/// happens; else the detector takes the first 160, and the rest go on waiting. What is transcribed
/// are 32000 samples, and none of them comes before its time: without a voice now or before there
/// is no piece.
pub proof fn law_detector_listens_in_order(
    after: Hearing,
    piece: Option<Piece>,
    before: Hearing,
    pcm: Seq<i16>,
    frame: Seq<u32>,
)
    requires
        is_received(after, piece, before, pcm, frame),
    ensures
        ({
            let all = before.waiting + pcm;
            let active = voice_in(all.take(160), VoiceMode::Aggressive);
            &&& all.len() <= 160 ==> after == (Hearing { waiting: all, ..before }) && piece is None
            &&& all.len() > 160 ==> after.waiting == all.skip(160)
            &&& all.len() > 160 && active ==> after.speaking
            &&& all.len() > 160 && !active && !before.speaking ==> !after.speaking && after.speech
                == before.speech
            &&& piece is Some ==> before.speaking && piece.unwrap().samples@.len() == 32000
            &&& piece is Some ==> piece.unwrap().samples@ + after.speech == if active {
                before.speech + frame
            } else {
                before.speech
            }
        }),
{
    let hearing = taken(with_samples(before, pcm));
    let all = before.waiting + pcm;
    if all.len() > 160 {
        let active = voice_in(all.take(160), VoiceMode::Aggressive);
        law_speech_is_kept(hearing, active, frame);
    }
}

} // verus!
