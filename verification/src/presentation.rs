//! Synchronization and presentation of sound and pictures.
use std::collections::VecDeque;

use vstd::prelude::*;

use crate::arith::{can_scale, scale};
#[allow(unused_imports)]
use crate::arith::{fits_i64, lemma_trunc_by_positive, scale_fits, trunc_div};
use crate::decode::Rational;
use crate::samples::frame_words;
#[allow(unused_imports)]
use crate::samples::{are_words, frame_bytes, has_frame};
use crate::whispercpp_transcriber::UsedModel;

verus! {

/// The rate of the sound that is played, in samples a second.
pub const PLAY_SAMPLE_RATE: u32 = 48000;

/// The number of samples that are analyzed together.
pub const FFT_SIZE: usize = 1024;

/// How many milliseconds the pictures may be ahead of the sound before they are shown anyway.
pub const MAX_LEAD_MILLIS: i64 = 1000;

/// The milliseconds that some ticks of a time base last, as far as they are whole.
pub open spec fn millis_of(base: Rational, ticks: int) -> int {
    trunc_div(ticks * 1000 * base.numerator, base.denominator as int)
}

/// Whether the milliseconds can be computed.
pub open spec fn millis_fit(base: Rational, ticks: int) -> bool {
    fits_i64(ticks * 1000) && scale_fits(
        ticks * 1000,
        base.numerator as int,
        base.denominator as int,
    )
}

/// Whether `millis` may be called on these values.
pub fn can_tell_millis(base: Rational, ticks: i64) -> (fits: bool)
    ensures
        fits == millis_fit(base, ticks as int),
{
    match ticks.checked_mul(1000) {
        Some(product) => can_scale(product, base.numerator as i64, base.denominator as i64),
        None => false,
    }
}

/// The milliseconds that some ticks of a time base last.
pub fn millis(base: Rational, ticks: i64) -> (ms: i64)
    requires
        millis_fit(base, ticks as int),
    ensures
        ms == millis_of(base, ticks as int),
{
    scale(ticks * 1000, base.numerator as i64, base.denominator as i64)
}

/// What a source tells of its streams.
#[derive(Debug, Clone, Copy, PartialEq, Eq, Structural)]
pub struct MediaSourceInfo {
    pub has_audio: bool,
    pub audio_time_base: Rational,
    pub video_time_base: Rational,
}

/// Whether the next picture is due: without sound always, otherwise when the sound is ahead of the
/// pictures, or the pictures are so far ahead that they cannot be in step.
pub open spec fn chases(info: MediaSourceInfo, main_ts: i64, video_ts: i64) -> bool {
    let v_time = millis_of(info.video_time_base, video_ts as int);
    let a_time = millis_of(info.audio_time_base, main_ts as int);
    !info.has_audio || a_time > v_time || v_time - a_time > MAX_LEAD_MILLIS
}

/// Whether it can be told if the next picture is due.
pub open spec fn chase_fits(info: MediaSourceInfo, main_ts: i64, video_ts: i64) -> bool {
    info.has_audio ==> millis_fit(info.video_time_base, video_ts as int) && millis_fit(
        info.audio_time_base,
        main_ts as int,
    )
}

/// The timestamp of the main stream after a round of playing.
pub open spec fn next_timestamp(
    main_ts: i64,
    audio_pts: Option<i64>,
    has_audio: bool,
    video_ts: i64,
) -> i64 {
    if !has_audio {
        video_ts
    } else {
        match audio_pts {
            Some(pts) => pts,
            None => main_ts,
        }
    }
}

/// How a task that presents sound or pictures can end.
#[derive(Debug, Clone, Copy, PartialEq, Eq, Structural)]
pub enum PresentError {
    /// There is no task for the sound.
    NoAudioTask,
    /// There is no task for the pictures.
    NoVideoTask,
}

/// The tasks that present a source.
#[derive(Debug, Clone, Copy, PartialEq, Eq, Structural)]
pub struct PresentDataManager {
    pub has_audio_task: bool,
    pub has_video_task: bool,
    /// Whether the tasks that were started last are told to stop.
    pub cancelled: bool,
    pub is_running: bool,
}

impl PresentDataManager {
    /// Makes a manager without tasks.
    pub fn new(cancelled: bool) -> (manager: PresentDataManager)
        ensures
            manager == (PresentDataManager {
                has_audio_task: false,
                has_video_task: false,
                cancelled,
                is_running: false,
            }),
    {
        PresentDataManager {
            has_audio_task: false,
            has_video_task: false,
            cancelled,
            is_running: false,
        }
    }

    /// A manager whose tasks have just been started.
    pub open spec fn started() -> PresentDataManager {
        PresentDataManager {
            has_audio_task: true,
            has_video_task: true,
            cancelled: false,
            is_running: true,
        }
    }

    /// Starts both tasks, which nothing tells to stop yet.
    pub fn spawn_present_tasks(&mut self)
        ensures
            *final(self) == PresentDataManager::started(),
    {
        self.cancelled = false;
        self.has_audio_task = true;
        self.has_video_task = true;
        self.is_running = true;
    }

    /// What is left of the tasks when they are told to stop.
    pub open spec fn after_cancel(self) -> PresentDataManager {
        PresentDataManager {
            has_audio_task: false,
            has_video_task: if self.has_audio_task {
                false
            } else {
                self.has_video_task
            },
            cancelled: true,
            is_running: self.is_running && !(self.has_audio_task && self.has_video_task),
        }
    }

    /// What is reported when the tasks are told to stop.
    pub open spec fn cancel_report(self) -> Result<(), PresentError> {
        if !self.has_audio_task {
            Err(PresentError::NoAudioTask)
        } else if !self.has_video_task {
            Err(PresentError::NoVideoTask)
        } else {
            Ok(())
        }
    }

    /// Tells both tasks to stop. It is an error if one of them is missing; the sound comes first.
    pub fn cancel_present_tasks(&mut self) -> (result: Result<(), PresentError>)
        ensures
            *final(self) == old(self).after_cancel(),
            result == old(self).cancel_report(),
    {
        self.cancelled = true;
        if !self.has_audio_task {
            return Err(PresentError::NoAudioTask);
        }
        self.has_audio_task = false;
        if !self.has_video_task {
            return Err(PresentError::NoVideoTask);
        }
        self.has_video_task = false;
        self.is_running = false;
        Ok(())
    }

    /// The timestamp of the main stream after a round of playing: that of the sound that was played
    /// last, or, where there is no sound, that of the picture.
    pub fn update_current_timestamp(
        main_ts: i64,
        audio_pts: Option<i64>,
        audio_existence_flag: bool,
        video_ts: i64,
    ) -> (updated: i64)
        ensures
            updated == next_timestamp(main_ts, audio_pts, audio_existence_flag, video_ts),
    {
        if audio_existence_flag {
            match audio_pts {
                Some(pts) => pts,
                None => main_ts,
            }
        } else {
            video_ts
        }
    }

    /// Decides whether the next picture is due.
    pub fn should_video_chase_audio(info: &MediaSourceInfo, main_ts: i64, video_ts: i64) -> (chase:
        bool)
        requires
            chase_fits(*info, main_ts, video_ts),
        ensures
            chase == chases(*info, main_ts, video_ts),
    {
        if !info.has_audio {
            return true;
        }
        let v_time = millis(info.video_time_base, video_ts);
        let a_time = millis(info.audio_time_base, main_ts);
        a_time > v_time || v_time as i128 - a_time as i128 > MAX_LEAD_MILLIS as i128
    }
}

/// A manager that is started and then stopped reports no error, has no tasks left and does not run;
/// to stop it once more is an error.
pub proof fn law_start_then_stop()
    ensures
        ({
            let stopped = PresentDataManager::started().after_cancel();
            &&& PresentDataManager::started().cancel_report() is Ok
            &&& stopped == (PresentDataManager {
                has_audio_task: false,
                has_video_task: false,
                cancelled: true,
                is_running: false,
            })
            &&& stopped.cancel_report() == Err::<(), PresentError>(PresentError::NoAudioTask)
        }),
{
}

/// While sound and pictures are in step, or the pictures are ahead by a second at most, no picture
/// is due.
pub proof fn law_pictures_wait_for_sound(info: MediaSourceInfo, main_ts: i64, video_ts: i64)
    requires
        info.has_audio,
        0 <= millis_of(info.video_time_base, video_ts as int) - millis_of(
            info.audio_time_base,
            main_ts as int,
        ) <= 1000,
    ensures
        !chases(info, main_ts, video_ts),
{
}

/// Whether a source has been played to its end: nothing is left to demux and nothing waits to be
/// presented. A live source has no end.
pub open spec fn play_ended(
    live_mode: bool,
    demux_eof: bool,
    audio_frames: usize,
    video_frames: usize,
) -> bool {
    !live_mode && demux_eof && audio_frames == 0 && video_frames == 0
}

/// Decides whether a source has been played to its end.
pub fn is_play_end(live_mode: bool, demux_eof: bool, audio_frames: usize, video_frames: usize) -> (
ended: bool)
    ensures
        ended == play_ended(live_mode, demux_eof, audio_frames, video_frames),
{
    !live_mode && demux_eof && audio_frames == 0 && video_frames == 0
}

/// What a presenting task finds at the start of a round.
#[derive(Debug, Clone, Copy, PartialEq, Eq, Structural)]
pub struct PlayState {
    pub cancelled: bool,
    pub paused: bool,
    pub live_mode: bool,
    pub demux_eof: bool,
    pub audio_frames: usize,
    pub video_frames: usize,
    /// What the source tells of its streams, unless it is gone.
    pub info: Option<MediaSourceInfo>,
}

impl PlayState {
    /// Whether the player pauses in this round because the end is reached.
    pub open spec fn reaches_end(&self) -> bool {
        !self.cancelled && !self.paused && play_ended(
            self.live_mode,
            self.demux_eof,
            self.audio_frames,
            self.video_frames,
        )
    }
}

/// What a presenting task does in a round.
#[derive(Debug, Clone, Copy, PartialEq, Eq, Structural)]
pub enum PlayAction {
    /// The task ends.
    Exit,
    /// The player is paused: the task waits for notice.
    WaitForNotice,
    /// Nothing is to be done in this round.
    Rest,
    /// The timestamp is brought up to date, without a new frame.
    UpdateTimestamp,
    /// The next frame is taken; before that the decoder may be told that few are left.
    TakeFrame { notify_decoder: bool },
}

/// A round of a presenting task: whether the player pauses, and what the task does.
#[derive(Debug, Clone, Copy, PartialEq, Eq, Structural)]
pub struct PlayRound {
    pub pause: bool,
    pub action: PlayAction,
}

/// How many sources the audio player holds at most before it gets another.
pub const SOURCES_AHEAD: usize = 8;

/// Below how many sound frames the decoder is told.
pub const AUDIO_FRAMES_LOW: usize = 5;

/// Below how many pictures the decoder is told.
pub const VIDEO_FRAMES_LOW: usize = 10;

/// A round of the task that plays sound.
pub open spec fn audio_round(state: PlayState, queued_sources: usize) -> PlayRound {
    PlayRound {
        pause: state.reaches_end(),
        action: if state.cancelled {
            PlayAction::Exit
        } else if state.paused {
            PlayAction::WaitForNotice
        } else if queued_sources >= SOURCES_AHEAD {
            PlayAction::Rest
        } else {
            match state.info {
                None => PlayAction::Exit,
                Some(info) => if info.has_audio {
                    PlayAction::TakeFrame { notify_decoder: state.audio_frames < AUDIO_FRAMES_LOW }
                } else {
                    PlayAction::UpdateTimestamp
                },
            }
        },
    }
}

impl PresentDataManager {
    /// Decides what the task that plays sound does in a round.
    pub fn execute_audio_task(state: &PlayState, queued_sources: usize) -> (round: PlayRound)
        ensures
            round == audio_round(*state, queued_sources),
    {
        if state.cancelled {
            return PlayRound { pause: false, action: PlayAction::Exit };
        }
        if state.paused {
            return PlayRound { pause: false, action: PlayAction::WaitForNotice };
        }
        let pause = is_play_end(
            state.live_mode,
            state.demux_eof,
            state.audio_frames,
            state.video_frames,
        );
        let action = if queued_sources >= SOURCES_AHEAD {
            PlayAction::Rest
        } else {
            match state.info {
                None => PlayAction::Exit,
                Some(info) => if info.has_audio {
                    PlayAction::TakeFrame { notify_decoder: state.audio_frames < AUDIO_FRAMES_LOW }
                } else {
                    PlayAction::UpdateTimestamp
                },
            }
        };
        PlayRound { pause, action }
    }
}

/// What becomes of a sound frame.
#[derive(Debug, Clone, Copy, PartialEq, Eq, Structural)]
pub struct SoundUse {
    /// The frame is played, drawn as bars, and its timestamp is kept.
    pub play: Option<i64>,
    pub transcribe: bool,
}

/// What becomes of a sound frame.
pub open spec fn sound_use(pts: Option<i64>, used_model: UsedModel) -> SoundUse {
    SoundUse { play: pts, transcribe: pts is Some && used_model != UsedModel::NoModel }
}

/// Every sound frame with a timestamp is played at its time, whether or not it is transcribed; it
/// is transcribed where a language is chosen, and only what is played is.
pub proof fn law_sound_use(pts: i64, used_model: UsedModel)
    ensures
        sound_use(Some(pts), used_model).play == Some(pts),
        sound_use(Some(pts), UsedModel::English).transcribe,
        sound_use(Some(pts), UsedModel::Chinese).transcribe,
        !sound_use(Some(pts), UsedModel::NoModel).transcribe,
        sound_use(None, used_model).play is None && !sound_use(None, used_model).transcribe,
{
}

/// Decides what becomes of a sound frame, given its timestamp if a frame came and has one: it is
/// played, and transcribed where a model is in use.
pub fn use_audio_frame(pts: Option<i64>, used_model: UsedModel) -> (used: SoundUse)
    ensures
        used == sound_use(pts, used_model),
{
    let wanted = match used_model {
        UsedModel::NoModel => false,
        _ => true,
    };
    SoundUse { play: pts, transcribe: pts.is_some() && wanted }
}

/// A round of the task that shows pictures. `due` says whether the time of the next picture has
/// come, for a source without sound.
pub open spec fn video_round(
    state: PlayState,
    main_ts: i64,
    video_ts: i64,
    due: bool,
) -> PlayRound {
    match state.info {
        _ if state.cancelled => PlayRound { pause: false, action: PlayAction::Exit },
        _ if state.paused => PlayRound { pause: false, action: PlayAction::WaitForNotice },
        None => PlayRound { pause: false, action: PlayAction::Exit },
        Some(info) => PlayRound {
            pause: state.reaches_end(),
            action: if !chases(info, main_ts, video_ts) {
                PlayAction::Rest
            } else if info.has_audio || due {
                PlayAction::TakeFrame { notify_decoder: state.video_frames < VIDEO_FRAMES_LOW }
            } else {
                PlayAction::Rest
            },
        },
    }
}

/// Whether the decoder of the pictures is told in a round that few are left.
pub open spec fn tells_video_decoder(state: PlayState, main_ts: i64, video_ts: i64) -> bool {
    &&& !state.cancelled && !state.paused
    &&& state.info is Some
    &&& chases(state.info.unwrap(), main_ts, video_ts)
    &&& state.video_frames < VIDEO_FRAMES_LOW
}

impl PresentDataManager {
    /// Decides what the task that shows pictures does in a round, and whether the decoder is told
    /// that few pictures are left; it is told also where the next picture is not due yet.
    pub fn execute_video_task(state: &PlayState, main_ts: i64, video_ts: i64, due: bool) -> (round: (
        PlayRound,
        bool,
    ))
        requires
            !state.cancelled && !state.paused && state.info is Some ==> chase_fits(
                state.info.unwrap(),
                main_ts,
                video_ts,
            ),
        ensures
            round.0 == video_round(*state, main_ts, video_ts, due),
            round.1 == tells_video_decoder(*state, main_ts, video_ts),
    {
        if state.cancelled {
            return (PlayRound { pause: false, action: PlayAction::Exit }, false);
        }
        if state.paused {
            return (PlayRound { pause: false, action: PlayAction::WaitForNotice }, false);
        }
        match state.info {
            None => (PlayRound { pause: false, action: PlayAction::Exit }, false),
            Some(info) => {
                let pause = is_play_end(
                    state.live_mode,
                    state.demux_eof,
                    state.audio_frames,
                    state.video_frames,
                );
                if !PresentDataManager::should_video_chase_audio(&info, main_ts, video_ts) {
                    return (PlayRound { pause, action: PlayAction::Rest }, false);
                }
                let notify_decoder = state.video_frames < VIDEO_FRAMES_LOW;
                let action = if info.has_audio || due {
                    PlayAction::TakeFrame { notify_decoder }
                } else {
                    PlayAction::Rest
                };
                (PlayRound { pause, action }, notify_decoder)
            },
        }
    }
}

/// A live source is never paused by its presenting tasks.
pub proof fn law_live_plays_on(
    state: PlayState,
    queued_sources: usize,
    main_ts: i64,
    video_ts: i64,
    due: bool,
)
    requires
        state.live_mode,
    ensures
        !audio_round(state, queued_sources).pause,
        !video_round(state, main_ts, video_ts, due).pause,
{
}

/// A task that is told to stop ends, and a paused one waits, whatever else it finds.
pub proof fn law_stop_and_pause(
    state: PlayState,
    queued_sources: usize,
    main_ts: i64,
    video_ts: i64,
    due: bool,
)
    ensures
        state.cancelled ==> audio_round(state, queued_sources).action == PlayAction::Exit
            && video_round(state, main_ts, video_ts, due).action == PlayAction::Exit,
        !state.cancelled && state.paused ==> audio_round(state, queued_sources).action
            == PlayAction::WaitForNotice && video_round(state, main_ts, video_ts, due).action
            == PlayAction::WaitForNotice,
{
}

/// What happens to the time at which the next picture is due, without sound.
#[derive(Debug, Clone, Copy, PartialEq, Eq, Structural)]
pub enum DueChange {
    Keep,
    /// It moves on by so many milliseconds.
    Advance { millis: u64 },
    /// It is now.
    Reset,
}

/// What becomes of a picture.
#[derive(Debug, Clone, Copy, PartialEq, Eq, Structural)]
pub struct PictureUse {
    pub render: bool,
    /// The timestamp of the pictures from now on, if it changes.
    pub timestamp: Option<i64>,
    pub due: DueChange,
}

/// The milliseconds between two pictures.
pub open spec fn gap_millis(base: Rational, from: i64, to: i64) -> int {
    millis_of(base, to - from)
}

/// Whether the milliseconds between two pictures can be computed.
pub open spec fn gap_fits(base: Rational, from: i64, to: i64) -> bool {
    fits_i64(to - from) && millis_fit(base, to - from)
}

/// Whether it can be told what becomes of a picture: only without sound, for a picture after the
/// first, must the gap before it be told.
pub open spec fn picture_fits(
    info: MediaSourceInfo,
    frame_pts: Option<Option<i64>>,
    video_ts: i64,
) -> bool {
    match frame_pts {
        Some(Some(pts)) => info.has_audio || pts <= 0 || gap_fits(
            info.video_time_base,
            video_ts,
            pts,
        ),
        _ => true,
    }
}

/// What becomes of a picture can be told wherever there is sound, no picture, no timestamp, or a
/// gap that can be told.
pub proof fn law_picture_fits(info: MediaSourceInfo, pts: i64, video_ts: i64)
    ensures
        picture_fits(info, None, video_ts) && picture_fits(info, Some(None), video_ts),
        info.has_audio || pts <= 0 ==> picture_fits(info, Some(Some(pts)), video_ts),
        gap_fits(info.video_time_base, video_ts, pts) ==> picture_fits(
            info,
            Some(Some(pts)),
            video_ts,
        ),
{
}

/// Whether `use_video_frame` may be called on these values.
pub fn can_use_video_frame(
    info: &MediaSourceInfo,
    frame_pts: Option<Option<i64>>,
    video_ts: i64,
) -> (fits: bool)
    ensures
        fits == picture_fits(*info, frame_pts, video_ts),
{
    match frame_pts {
        Some(Some(pts)) => {
            if info.has_audio || pts <= 0 {
                return true;
            }
            match pts.checked_sub(video_ts) {
                Some(ticks) => can_tell_millis(info.video_time_base, ticks),
                None => false,
            }
        },
        _ => true,
    }
}

/// What becomes of a picture.
pub open spec fn picture_use(
    info: MediaSourceInfo,
    frame_pts: Option<Option<i64>>,
    video_ts: i64,
) -> PictureUse {
    match frame_pts {
        None => PictureUse { render: false, timestamp: None, due: DueChange::Keep },
        Some(pts) if info.has_audio => PictureUse {
            render: true,
            timestamp: pts,
            due: DueChange::Keep,
        },
        Some(None) => PictureUse { render: false, timestamp: None, due: DueChange::Keep },
        Some(Some(pts)) => PictureUse {
            render: true,
            timestamp: Some(pts),
            due: if pts > 0 && gap_millis(info.video_time_base, video_ts, pts) < 1000 {
                DueChange::Advance {
                    millis: (gap_millis(info.video_time_base, video_ts, pts) as i64) as u64,
                }
            } else {
                DueChange::Reset
            },
        },
    }
}

/// Decides what becomes of a picture.
///
/// `frame_pts` is nothing if no picture came, and holds the timestamp of the picture, if it has
/// one. With sound each picture is shown. Without sound a picture without a timestamp is not
/// shown; the time at which the next one is due moves on by the gap between this picture and the
/// one before it, or starts anew where the gap is a second or more or the picture is the first.
pub fn use_video_frame(
    info: &MediaSourceInfo,
    frame_pts: Option<Option<i64>>,
    video_ts: i64,
) -> (used: PictureUse)
    requires
        picture_fits(*info, frame_pts, video_ts),
    ensures
        used == picture_use(*info, frame_pts, video_ts),
{
    match frame_pts {
        None => PictureUse { render: false, timestamp: None, due: DueChange::Keep },
        Some(pts) => {
            if info.has_audio {
                return PictureUse { render: true, timestamp: pts, due: DueChange::Keep };
            }
            match pts {
                None => PictureUse { render: false, timestamp: None, due: DueChange::Keep },
                Some(pts) => {
                    if pts > 0 {
                        let gap = millis(info.video_time_base, pts - video_ts);
                        if gap < 1000 {
                            return PictureUse {
                                render: true,
                                timestamp: Some(pts),
                                due: DueChange::Advance {
                                    millis: #[verifier::truncate]
                                    (gap as u64),
                                },
                            };
                        }
                    }
                    PictureUse { render: true, timestamp: Some(pts), due: DueChange::Reset }
                },
            }
        },
    }
}

/// The samples that wait to be analyzed, each as the bits of a 32 bit number.
#[derive(Debug)]
pub struct FrequencyAnalyzer {
    pub buffer: VecDeque<u32>,
}

/// Some windows of samples, one after the other.
pub open spec fn windows_joined(windows: Seq<Vec<u32>>, n: int) -> Seq<u32>
    decreases n,
{
    if n <= 0 {
        Seq::empty()
    } else {
        windows_joined(windows, n - 1) + windows[n - 1]@
    }
}

/// Whether some samples have been cut into whole windows and a rest that is shorter than one.
pub open spec fn is_cut(samples: Seq<u32>, windows: Seq<Vec<u32>>, rest: Seq<u32>) -> bool {
    &&& samples == windows_joined(windows, windows.len() as int) + rest
    &&& forall|i: int| 0 <= i < windows.len() ==> (#[trigger] windows[i])@.len() == FFT_SIZE
    &&& rest.len() < FFT_SIZE
}

proof fn lemma_joined_push(windows: Seq<Vec<u32>>, window: Vec<u32>, n: int)
    requires
        n <= windows.len(),
    ensures
        windows_joined(windows.push(window), n) == windows_joined(windows, n),
    decreases n,
{
    if n > 0 {
        lemma_joined_push(windows, window, n - 1);
        assert(windows.push(window)[n - 1] == windows[n - 1]);
    }
}

impl FrequencyAnalyzer {
    /// Makes an analyzer without samples.
    pub fn new() -> (analyzer: FrequencyAnalyzer)
        ensures
            analyzer.buffer@ == Seq::<u32>::empty(),
    {
        FrequencyAnalyzer { buffer: VecDeque::new() }
    }

    /// Takes some more samples, and gives back the windows that are full now.
    pub fn push_samples(&mut self, samples: &Vec<u32>) -> (windows: Vec<Vec<u32>>)
        ensures
            is_cut(old(self).buffer@ + samples@, windows@, final(self).buffer@),
    {
        let ghost all = self.buffer@ + samples@;
        let mut i: usize = 0;
        assert(self.buffer@ + samples@.take(0) =~= self.buffer@);
        while i < samples.len()
            invariant
                i <= samples@.len(),
                self.buffer@ == old(self).buffer@ + samples@.take(i as int),
            decreases samples@.len() - i,
        {
            self.buffer.push_back(samples[i]);
            assert(samples@.take(i + 1) =~= samples@.take(i as int).push(samples@[i as int]));
            i = i + 1;
        }
        assert(samples@.take(samples@.len() as int) =~= samples@);
        let mut windows: Vec<Vec<u32>> = Vec::new();
        assert(windows_joined(windows@, 0) + self.buffer@ =~= all);
        while self.buffer.len() >= FFT_SIZE
            invariant
                all == windows_joined(windows@, windows@.len() as int) + self.buffer@,
                forall|k: int|
                    0 <= k < windows@.len() ==> (#[trigger] windows@[k])@.len() == FFT_SIZE,
            decreases self.buffer@.len(),
        {
            let ghost waiting = self.buffer@;
            let mut window: Vec<u32> = Vec::new();
            while window.len() < FFT_SIZE
                invariant
                    window@.len() <= FFT_SIZE <= waiting.len(),
                    window@ + self.buffer@ == waiting,
                decreases FFT_SIZE - window@.len(),
            {
                let ghost before = self.buffer@;
                let ghost old_window = window@;
                if let Some(sample) = self.buffer.pop_front() {
                    window.push(sample);
                    assert(window@ + self.buffer@ =~= old_window + before);
                }
            }
            let ghost old_windows = windows@;
            proof {
                lemma_joined_push(old_windows, window, old_windows.len() as int);
            }
            windows.push(window);
            assert(windows_joined(windows@, windows@.len() as int) + self.buffer@ =~= all);
        }
        windows
    }

    /// Takes the samples of a sound frame out of its bytes, and gives back the windows that are
    /// full now. Nothing is taken where the bytes cannot be read as samples of this machine.
    pub fn process_frame(&mut self, bytes: &[u8], samples: usize, channels: u32) -> (windows:
        Option<Vec<Vec<u32>>>)
        requires
            has_frame(bytes@, samples, channels),
        ensures
            match windows {
                Some(windows) => exists|words: Seq<u32>|
                    #[trigger] are_words(
                        words,
                        bytes@.take(frame_bytes(samples as int, channels as int)),
                    ) && is_cut(old(self).buffer@ + words, windows@, final(self).buffer@),
                None => final(self).buffer@ == old(self).buffer@,
            },
    {
        match frame_words(bytes, samples, channels) {
            Some(words) => {
                assert(are_words(
                    words@,
                    bytes@.take(frame_bytes(samples as int, channels as int)),
                ));
                Some(self.push_samples(&words))
            },
            None => None,
        }
    }
}

/// A fraction between zero and one.
#[derive(Debug, Clone, Copy, PartialEq, Eq, Structural)]
pub struct Weight {
    pub num: usize,
    pub den: usize,
}

/// How much a frequency counts in a triangle that rises from `left` to `centre` and falls to
/// `right`.
pub open spec fn triangle_weight(left: usize, centre: usize, right: usize, at: int) -> Weight {
    if left <= at <= centre {
        Weight { num: (at - left) as usize, den: (centre - left) as usize }
    } else if centre < at <= right {
        Weight { num: (right - at) as usize, den: (right - centre) as usize }
    } else {
        Weight { num: 0, den: 1 }
    }
}

/// A triangle counts its centre fully, its ends not at all, and nothing more than fully.
pub proof fn law_triangle(left: usize, centre: usize, right: usize, at: int)
    requires
        left < centre < right,
        at >= 0,
    ensures
        ({
            let weight = triangle_weight(left, centre, right, at);
            &&& weight.den > 0
            &&& weight.num <= weight.den
            &&& weight.num == weight.den <==> at == centre
            &&& weight.num == 0 <==> at <= left || at >= right
        }),
{
}

/// The number of frequencies that an analysis tells apart.
pub const BINS: usize = 513;

/// Whether a triangle is drawn: it must rise and fall.
pub open spec fn is_drawn(bins: Seq<usize>, i: int) -> bool {
    bins[i] != bins[i + 1] && bins[i + 1] != bins[i + 2]
}

/// The triangles that are drawn over the first `n` corners.
pub open spec fn triangles(bins: Seq<usize>, n: int) -> Seq<Seq<Weight>>
    decreases n,
{
    if n <= 0 {
        Seq::empty()
    } else if is_drawn(bins, n - 1) {
        triangles(bins, n - 1).push(
            Seq::new(
                BINS as nat,
                |at: int| triangle_weight(bins[n - 1], bins[n], bins[n + 1], at),
            ),
        )
    } else {
        triangles(bins, n - 1)
    }
}

/// The values of some filters.
pub open spec fn filters_of(filters: Seq<Vec<Weight>>) -> Seq<Seq<Weight>> {
    filters.map_values(|filter: Vec<Weight>| filter@)
}

impl FrequencyAnalyzer {
    /// Builds the triangles by which the frequencies are gathered into bars. Each triangle lies
    /// over three corners that follow each other; one that does not rise or does not fall is left
    /// out.
    pub fn construct_mel_filterbank(bins: &Vec<usize>, filterbank_size: usize) -> (filters: Vec<
        Vec<Weight>,
    >)
        requires
            filterbank_size + 2 <= bins@.len(),
        ensures
            filters_of(filters@) == triangles(bins@, filterbank_size as int),
    {
        let n_bins: usize = bins.len();
        let mut filters: Vec<Vec<Weight>> = Vec::new();
        let mut i: usize = 0;
        assert(filters_of(filters@) =~= triangles(bins@, 0));
        while i < filterbank_size
            invariant
                i <= filterbank_size,
                filterbank_size + 2 <= n_bins == bins@.len(),
                filters_of(filters@) == triangles(bins@, i as int),
            decreases filterbank_size - i,
        {
            let l = bins[i];
            let c = bins[i + 1];
            let r = bins[i + 2];
            if c != l && r != c {
                let mut hs: Vec<Weight> = Vec::new();
                let mut idx: usize = 0;
                while idx < BINS
                    invariant
                        c != l,
                        r != c,
                        idx <= BINS,
                        hs@ == Seq::new(idx as nat, |at: int| triangle_weight(l, c, r, at)),
                    decreases BINS - idx,
                {
                    let weight = if idx >= l && idx <= c {
                        Weight { num: idx - l, den: c - l }
                    } else if idx > c && idx <= r {
                        Weight { num: r - idx, den: r - c }
                    } else {
                        Weight { num: 0, den: 1 }
                    };
                    hs.push(weight);
                    idx = idx + 1;
                    assert(hs@ =~= Seq::new(idx as nat, |at: int| triangle_weight(l, c, r, at)));
                }
                let ghost before = filters@;
                filters.push(hs);
                assert(filters_of(filters@) =~= filters_of(before).push(hs@));
            }
            i = i + 1;
        }
        filters
    }
}

/// The milliseconds of some ticks do not last longer than the ticks, and one millisecond more
/// would, where the time base is a positive length. Later ticks never have fewer milliseconds.
pub proof fn law_millis(base: Rational, ticks: int, later: int)
    requires
        base.numerator > 0,
        base.denominator > 0,
        0 <= ticks <= later,
    ensures
        0 <= millis_of(base, ticks) <= millis_of(base, later),
        millis_of(base, ticks) * base.denominator <= ticks * 1000 * base.numerator < (millis_of(
            base,
            ticks,
        ) + 1) * base.denominator,
{
    let (n, d) = (base.numerator as int, base.denominator as int);
    let (x, y) = (ticks * 1000 * n, later * 1000 * n);
    assert(0 <= x <= y) by (nonlinear_arith)
        requires
            x == ticks * 1000 * n,
            y == later * 1000 * n,
            0 <= ticks <= later,
            n > 0,
    ;
    lemma_trunc_by_positive(x, d);
    lemma_trunc_by_positive(y, d);
    let q = x / d;
    vstd::arithmetic::div_mod::lemma_div_pos_is_pos(x, d);
    vstd::arithmetic::div_mod::lemma_div_is_ordered(x, y, d);
    vstd::arithmetic::div_mod::lemma_fundamental_div_mod(x, d);
    assert(q * d <= x < (q + 1) * d) by (nonlinear_arith)
        requires
            x == d * q + x % d,
            0 <= x % d < d,
    ;
}

/// Milliseconds can be told wherever they and the numbers on the way to them are within the
/// machine's range.
pub proof fn law_millis_can_be_told(base: Rational, ticks: int)
    requires
        base.denominator > 0,
    ensures
        millis_fit(base, ticks) <==> i64::MIN <= ticks * 1000 <= i64::MAX && i64::MIN <= ticks * 1000
            * base.numerator <= i64::MAX,
{
}

/// With sound the next picture is due whenever the sound is later than the pictures, however far
/// they have fallen behind, and whenever the pictures are ahead by more than a second. Without
/// sound it is always due.
pub proof fn law_pictures_catch_up(info: MediaSourceInfo, main_ts: i64, video_ts: i64)
    ensures
        ({
            let sound = millis_of(info.audio_time_base, main_ts as int);
            let pictures = millis_of(info.video_time_base, video_ts as int);
            &&& sound > pictures ==> chases(info, main_ts, video_ts)
            &&& pictures > sound + 1000 ==> chases(info, main_ts, video_ts)
            &&& !info.has_audio ==> chases(info, main_ts, video_ts)
            &&& info.has_audio && sound <= pictures <= sound + 1000 ==> !chases(
                info,
                main_ts,
                video_ts,
            )
        }),
{
}

/// Pictures that wait for the sound are due as soon as the sound has gone on past them: once the
/// sound lasts a millisecond longer than the pictures, measured in their own ticks, the next
/// picture is due.
pub proof fn law_sound_draws_pictures(info: MediaSourceInfo, main_ts: i64, video_ts: i64)
    requires
        info.audio_time_base.numerator > 0,
        info.audio_time_base.denominator > 0,
        info.video_time_base.numerator > 0,
        info.video_time_base.denominator > 0,
        main_ts >= 0,
        video_ts >= 0,
    ensures
        forall|ms: int|
            video_ts * 1000 * info.video_time_base.numerator < #[trigger] (ms
                * info.video_time_base.denominator) && ms * info.audio_time_base.denominator
                <= main_ts * 1000 * info.audio_time_base.numerator ==> chases(info, main_ts, video_ts),
{
    let (a, v) = (info.audio_time_base, info.video_time_base);
    let sound = millis_of(a, main_ts as int);
    let pictures = millis_of(v, video_ts as int);
    law_millis(a, main_ts as int, main_ts as int);
    law_millis(v, video_ts as int, video_ts as int);
    assert forall|ms: int|
        video_ts * 1000 * v.numerator < #[trigger] (ms * v.denominator) && ms * a.denominator
            <= main_ts * 1000 * a.numerator implies chases(info, main_ts, video_ts) by {
        let (p, q) = (v.denominator as int, a.denominator as int);
        assert(pictures < ms) by (nonlinear_arith)
            requires
                pictures * p < ms * p,
                p > 0,
        ;
        assert(ms < sound + 1) by (nonlinear_arith)
            requires
                ms * q < (sound + 1) * q,
                q > 0,
        ;
    }
}

/// The clock of playback is that of the sound that was played last, and that of the pictures where
/// there is no sound. It stands still while sound is awaited.
pub proof fn law_clock_follows(main_ts: i64, pts: i64, video_ts: i64)
    ensures
        next_timestamp(main_ts, Some(pts), true, video_ts) == pts,
        next_timestamp(main_ts, None, true, video_ts) == main_ts,
        forall|audio_pts: Option<i64>| #[trigger]
            next_timestamp(main_ts, audio_pts, false, video_ts) == video_ts,
{
}

/// A source has been played to its end exactly when it is not live, all of it was demuxed, and no
/// sound and no picture is left.
pub proof fn law_end_of_playing(
    live_mode: bool,
    demux_eof: bool,
    audio_frames: usize,
    video_frames: usize,
)
    ensures
        play_ended(false, true, 0, 0),
        audio_frames > 0 || video_frames > 0 ==> !play_ended(
            live_mode,
            demux_eof,
            audio_frames,
            video_frames,
        ),
        !play_ended(true, demux_eof, audio_frames, video_frames),
        !play_ended(live_mode, false, audio_frames, video_frames),
{
}

/// While the player plays, sound is taken as long as the audio player holds fewer than eight pieces
/// and the source has sound; where few are left, the decoder is told. Without sound the clock is
/// brought up to date. The player pauses at the end, and only there.
pub proof fn law_sound_is_played(state: PlayState, info: MediaSourceInfo, queued_sources: usize)
    requires
        !state.cancelled,
        !state.paused,
        state.info == Some(info),
    ensures
        ({
            let round = audio_round(state, queued_sources);
            &&& queued_sources < 8 && info.has_audio ==> round.action is TakeFrame
            &&& round.action is TakeFrame ==> info.has_audio && queued_sources < 8 && (
            round.action->notify_decoder <==> state.audio_frames < 5)
            &&& queued_sources < 8 && !info.has_audio <==> round.action == PlayAction::UpdateTimestamp
            &&& queued_sources >= 8 <==> round.action == PlayAction::Rest
            &&& round.pause <==> !state.live_mode && state.demux_eof && state.audio_frames == 0
                && state.video_frames == 0
        }),
        audio_round(PlayState { info: None, ..state }, queued_sources).action == if queued_sources < 8 {
            PlayAction::Exit
        } else {
            PlayAction::Rest
        },
{
}

/// While the player plays, a picture is taken whenever the next one is due: with sound when the
/// sound is ahead, or behind by more than a second, without sound when its time has come. The
/// decoder is told wherever the next picture may be taken and fewer than ten are left. The player
/// pauses at the end, and only there. Without a source the task ends.
pub proof fn law_pictures_are_shown(
    state: PlayState,
    info: MediaSourceInfo,
    main_ts: i64,
    video_ts: i64,
    due: bool,
)
    requires
        !state.cancelled,
        !state.paused,
        state.info == Some(info),
    ensures
        ({
            let round = video_round(state, main_ts, video_ts, due);
            let sound = millis_of(info.audio_time_base, main_ts as int);
            let pictures = millis_of(info.video_time_base, video_ts as int);
            &&& info.has_audio && (sound > pictures || pictures > sound + 1000) ==> round.action
                is TakeFrame
            &&& info.has_audio && sound <= pictures <= sound + 1000 ==> round.action
                == PlayAction::Rest
            &&& !info.has_audio ==> (round.action is TakeFrame <==> due)
            &&& round.action is TakeFrame || round.action == PlayAction::Rest
            &&& round.action is TakeFrame ==> (round.action->notify_decoder <==> state.video_frames
                < 10)
            &&& round.action is TakeFrame && state.video_frames < 10 ==> tells_video_decoder(
                state,
                main_ts,
                video_ts,
            )
            &&& tells_video_decoder(state, main_ts, video_ts) ==> state.video_frames < 10
            &&& !info.has_audio && state.video_frames < 10 ==> tells_video_decoder(
                state,
                main_ts,
                video_ts,
            )
            &&& round.pause <==> !state.live_mode && state.demux_eof && state.audio_frames == 0
                && state.video_frames == 0
        }),
        ({
            let gone = PlayState { info: None, ..state };
            &&& video_round(gone, main_ts, video_ts, due).action == PlayAction::Exit
            &&& !tells_video_decoder(gone, main_ts, video_ts)
        }),
{
}

/// To stop the tasks succeeds exactly where there are both; else it tells which one is missing, the
/// one for the sound first. In any case they are told to stop.
pub proof fn law_stop_reports(manager: PresentDataManager)
    ensures
        manager.after_cancel().cancelled,
        !manager.after_cancel().has_audio_task,
        manager.cancel_report() is Ok <==> manager.has_audio_task && manager.has_video_task,
        manager.cancel_report() is Ok ==> !manager.after_cancel().has_video_task
            && !manager.after_cancel().is_running,
        manager.cancel_report() == Err::<(), PresentError>(PresentError::NoVideoTask)
            <==> manager.has_audio_task && !manager.has_video_task,
        manager.cancel_report() is Err ==> manager.after_cancel().is_running == manager.is_running
            && manager.after_cancel().has_video_task == manager.has_video_task,
        PresentDataManager::started().is_running && !PresentDataManager::started().cancelled,
{
}

/// With sound each picture that came is shown. Without sound it is shown where it has a timestamp,
/// and the next one is due later by as many milliseconds as lie between it and the one before,
/// unless it is the first, or a second or more lies between them: then time starts anew.
pub proof fn law_picture_use(
    info: MediaSourceInfo,
    came: bool,
    pts: Option<i64>,
    video_ts: i64,
)
    ensures
        ({
            let used = picture_use(
                info,
                if came {
                    Some(pts)
                } else {
                    None
                },
                video_ts,
            );
            &&& used.render <==> came && (info.has_audio || pts is Some)
            &&& used.timestamp == if came {
                pts
            } else {
                None
            }
            &&& !came || info.has_audio || pts is None ==> used.due == DueChange::Keep
            &&& came && !info.has_audio && pts is Some ==> {
                let gap = gap_millis(info.video_time_base, video_ts, pts.unwrap());
                &&& pts.unwrap() <= 0 || gap >= 1000 ==> used.due == DueChange::Reset
                &&& pts.unwrap() > 0 && 0 <= gap < 1000 ==> used.due is Advance
                    && used.due->millis == gap
                &&& pts.unwrap() > 0 && gap < 0 ==> used.due is Advance
            }
        }),
{
}

/// The gap between two pictures lasts as long as the ticks between them.
pub proof fn law_gap(base: Rational, from: i64, to: i64)
    requires
        base.numerator > 0,
        base.denominator > 0,
        from <= to,
    ensures
        gap_millis(base, from, to) * base.denominator <= (to - from) * 1000 * base.numerator < (
        gap_millis(base, from, to) + 1) * base.denominator,
        gap_millis(base, from, from) == 0,
{
    law_millis(base, to - from, to - from);
    lemma_trunc_by_positive(0, base.denominator as int);
    assert(0 * 1000 * base.numerator == 0) by (nonlinear_arith);
}

proof fn lemma_windows_joined(windows: Seq<Vec<u32>>, n: int, i: int, j: int)
    requires
        0 <= i < n <= windows.len(),
        0 <= j < 1024,
        forall|k: int| 0 <= k < windows.len() ==> (#[trigger] windows[k])@.len() == 1024,
    ensures
        windows_joined(windows, n).len() == 1024 * n,
        windows_joined(windows, n)[1024 * i + j] == windows[i]@[j],
    decreases n,
{
    if n > 1 {
        lemma_windows_joined(
            windows,
            n - 1,
            if i < n - 1 {
                i
            } else {
                0
            },
            j,
        );
    } else {
        assert(windows_joined(windows, 0).len() == 0);
    }
    assert(windows[n - 1]@.len() == 1024);
}

/// Samples are analyzed in the order in which they came, 1024 at a time, none twice and none left
/// out; those that do not fill a window are kept.
pub proof fn law_samples_are_windowed(samples: Seq<u32>, windows: Seq<Vec<u32>>, rest: Seq<u32>)
    requires
        is_cut(samples, windows, rest),
    ensures
        windows.len() == samples.len() / 1024,
        rest == samples.skip(1024 * windows.len() as int),
        forall|i: int, j: int|
            0 <= i < windows.len() && 0 <= j < 1024 ==> (#[trigger] windows[i]@[j]) == samples[1024
                * i + j],
{
    let n = windows.len() as int;
    if n > 0 {
        lemma_windows_joined(windows, n, 0, 0);
    }
    assert(windows_joined(windows, n).len() == 1024 * n);
    assert(rest =~= samples.skip(1024 * n));
    assert forall|i: int, j: int| 0 <= i < windows.len() && 0 <= j < 1024 implies (
    #[trigger] windows[i]@[j]) == samples[1024 * i + j] by {
        lemma_windows_joined(windows, n, i, j);
    }
}

/// A triangle rises and falls evenly: what a frequency counts is to the whole as its distance from
/// the near end is to the width of that side.
pub proof fn law_triangle_is_straight(left: usize, centre: usize, right: usize, at: int)
    requires
        left < centre < right,
        left <= at <= right,
    ensures
        ({
            let weight = triangle_weight(left, centre, right, at);
            &&& at <= centre ==> weight.num * (centre - left) == (at - left) * weight.den
            &&& at >= centre ==> weight.num * (right - centre) == (right - at) * weight.den
        }),
{
    let weight = triangle_weight(left, centre, right, at);
    if at == centre {
        assert(weight.num == weight.den);
        assert(weight.num * (right - centre) == (right - at) * weight.den) by (nonlinear_arith)
            requires
                weight.num == weight.den,
                right - centre == right - at,
        ;
    }
}

/// Each triangle covers all 513 frequencies. Where the corners differ, there is one triangle for
/// each three of them, in their order; where neighbours are the same, there is none.
pub proof fn law_triangles(bins: Seq<usize>, n: int)
    requires
        0 <= n,
        n + 2 <= bins.len(),
    ensures
        triangles(bins, n).len() <= n,
        forall|k: int|
            0 <= k < triangles(bins, n).len() ==> (#[trigger] triangles(bins, n)[k]).len() == 513,
        (forall|i: int| 0 <= i <= n ==> (#[trigger] bins[i]) != bins[i + 1]) ==> triangles(bins, n).len()
            == n && forall|k: int, at: int|
            0 <= k < n && 0 <= at < 513 ==> (#[trigger] triangles(bins, n)[k][at]) == triangle_weight(
                bins[k],
                bins[k + 1],
                bins[k + 2],
                at,
            ),
        (forall|i: int| 0 <= i <= n ==> (#[trigger] bins[i]) == bins[i + 1]) ==> triangles(bins, n).len()
            == 0,
    decreases n,
{
    if n > 0 {
        law_triangles(bins, n - 1);
        if forall|i: int| 0 <= i <= n ==> (#[trigger] bins[i]) != bins[i + 1] {
            assert(bins[n - 1] != bins[n - 1 + 1] && bins[n] != bins[n + 1]);
        }
        if forall|i: int| 0 <= i <= n ==> (#[trigger] bins[i]) == bins[i + 1] {
            assert(bins[n - 1] == bins[n - 1 + 1]);
        }
    }
}

/// Without sound it can always be told whether the next picture is due. With sound it can wherever
/// the milliseconds of both can be told. The gap between two pictures can be told wherever the
/// ticks between them and their milliseconds are within the machine's range.
pub proof fn law_step_can_be_told(info: MediaSourceInfo, main_ts: i64, video_ts: i64)
    ensures
        !info.has_audio ==> chase_fits(info, main_ts, video_ts),
        millis_fit(info.audio_time_base, main_ts as int) && millis_fit(
            info.video_time_base,
            video_ts as int,
        ) ==> chase_fits(info, main_ts, video_ts),
        info.video_time_base.denominator > 0 && 0 <= main_ts <= video_ts && i64::MIN <= (video_ts
            - main_ts) * 1000 <= i64::MAX && i64::MIN <= (video_ts - main_ts) * 1000
            * info.video_time_base.numerator <= i64::MAX ==> gap_fits(
            info.video_time_base,
            main_ts,
            video_ts,
        ),
{
}

/// The places of the corners at which a triangle rises and falls, of the first `n`.
pub open spec fn drawn_places(bins: Seq<usize>, n: int) -> Seq<int> {
    Seq::new(n as nat, |i: int| i).filter(
        |i: int| bins[i] != bins[i + 1] && bins[i + 1] != bins[i + 2],
    )
}

/// There is a triangle for each three corners that follow each other and of which no neighbours are
/// the same, in their order, and no other.
pub proof fn law_triangles_in_order(bins: Seq<usize>, n: int)
    requires
        0 <= n,
    ensures
        triangles(bins, n) == drawn_places(bins, n).map_values(
            |i: int|
                Seq::new(513, |at: int| triangle_weight(bins[i], bins[i + 1], bins[i + 2], at)),
        ),
    decreases n,
{
    reveal(Seq::filter);
    let drawn = |i: int| bins[i] != bins[i + 1] && bins[i + 1] != bins[i + 2];
    let row = |i: int|
        Seq::new(513, |at: int| triangle_weight(bins[i], bins[i + 1], bins[i + 2], at));
    let all = Seq::new(n as nat, |i: int| i);
    if n > 0 {
        law_triangles_in_order(bins, n - 1);
        let fewer = Seq::new((n - 1) as nat, |i: int| i);
        assert(all.drop_last() =~= fewer);
        assert(all.last() == n - 1);
        if drawn(n - 1) {
            assert(all.filter(drawn) == fewer.filter(drawn).push(n - 1));
            assert(all.filter(drawn).map_values(row) =~= fewer.filter(drawn).map_values(row).push(
                row(n - 1),
            ));
            assert(row(n - 1) =~= Seq::new(
                BINS as nat,
                |at: int| triangle_weight(bins[n - 1], bins[n], bins[n + 1], at),
            ));
        } else {
            assert(all.filter(drawn) == fewer.filter(drawn));
        }
    } else {
        assert(all.filter(drawn).map_values(row) =~= Seq::empty());
    }
}

} // verus!
