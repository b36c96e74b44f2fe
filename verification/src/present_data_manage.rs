//! Presentation of a source whose decoder tells the main stream.
use vstd::prelude::*;

use crate::decode::{MainStream, Rational};
use crate::presentation::{
    use_video_frame, MediaSourceInfo, PictureUse, PlayAction, PresentError,
};
#[allow(unused_imports)]
use crate::presentation::{
    chase_fits, chases, gap_fits, gap_millis, millis_of, next_timestamp, picture_use, DueChange,
};

verus! {

/// What the presenting tasks read of the decoder.
#[derive(Debug, Clone, Copy, PartialEq, Eq, Structural)]
pub struct DataManageContext {
    pub main_stream: MainStream,
    pub audio_time_base: Rational,
    pub video_time_base: Rational,
}

impl DataManageContext {
    /// What the context tells of the streams: there is sound to follow where the sound is the main
    /// stream.
    pub open spec fn info(self) -> MediaSourceInfo {
        MediaSourceInfo {
            has_audio: self.main_stream == MainStream::Audio,
            audio_time_base: self.audio_time_base,
            video_time_base: self.video_time_base,
        }
    }

    fn to_info(&self) -> (info: MediaSourceInfo)
        ensures
            info == self.info(),
    {
        MediaSourceInfo {
            has_audio: match self.main_stream {
                MainStream::Audio => true,
                MainStream::Video => false,
            },
            audio_time_base: self.audio_time_base,
            video_time_base: self.video_time_base,
        }
    }
}

/// How many sources the audio sink holds at most before it gets another.
pub const SINK_SOURCES_AHEAD: usize = 10;

/// Below how many sound frames the decoder is told.
pub const SOUND_FRAMES_LOW: usize = 5;

/// Below how many pictures the decoder is told.
pub const PICTURES_LOW: usize = 10;

/// What the task that plays sound does in a round.
pub open spec fn sound_action(
    context: DataManageContext,
    paused: bool,
    queued_sources: usize,
    audio_frames: usize,
) -> PlayAction {
    if paused || queued_sources >= SINK_SOURCES_AHEAD {
        PlayAction::Rest
    } else if context.main_stream == MainStream::Audio {
        PlayAction::TakeFrame { notify_decoder: audio_frames < SOUND_FRAMES_LOW }
    } else {
        PlayAction::UpdateTimestamp
    }
}

/// What the task that shows pictures does in a round.
pub open spec fn picture_action(
    context: DataManageContext,
    paused: bool,
    video_frames: usize,
    main_ts: i64,
    video_ts: i64,
    due: bool,
) -> PlayAction {
    if !paused && chases(context.info(), main_ts, video_ts) && (context.main_stream
        == MainStream::Audio || due) {
        PlayAction::TakeFrame { notify_decoder: video_frames < PICTURES_LOW }
    } else {
        PlayAction::Rest
    }
}

/// Whether the decoder is told in a round that few pictures are left.
pub open spec fn tells_decoder(
    context: DataManageContext,
    paused: bool,
    video_frames: usize,
    main_ts: i64,
    video_ts: i64,
) -> bool {
    !paused && chases(context.info(), main_ts, video_ts) && video_frames < PICTURES_LOW
}

/// The tasks that present a source.
#[derive(Debug, Clone, Copy, PartialEq, Eq, Structural)]
pub struct PresentDataManager {
    pub has_audio_task: bool,
    pub has_video_task: bool,
}

/// Which tasks are stopped.
#[derive(Debug, Clone, Copy, PartialEq, Eq, Structural)]
pub struct AbortedTasks {
    pub audio: bool,
    pub video: bool,
}

impl PresentDataManager {
    /// Makes a manager without tasks.
    pub fn new() -> (manager: PresentDataManager)
        ensures
            manager == (PresentDataManager { has_audio_task: false, has_video_task: false }),
    {
        PresentDataManager { has_audio_task: false, has_video_task: false }
    }

    /// Starts both tasks.
    pub fn start_present_tasks(&mut self)
        ensures
            *final(self) == (PresentDataManager { has_audio_task: true, has_video_task: true }),
    {
        self.has_audio_task = true;
        self.has_video_task = true;
    }

    /// Which tasks are to be stopped, and what is reported.
    pub open spec fn stopped(self) -> (AbortedTasks, Result<(), PresentError>) {
        (
            AbortedTasks {
                audio: self.has_audio_task,
                video: self.has_audio_task && self.has_video_task,
            },
            if !self.has_audio_task {
                Err::<(), PresentError>(PresentError::NoAudioTask)
            } else if !self.has_video_task {
                Err(PresentError::NoVideoTask)
            } else {
                Ok(())
            },
        )
    }

    /// Tells which tasks are to be stopped; it is an error if one is missing, and then only those
    /// before it are stopped. The sound comes first.
    pub fn stop_present_tasks(&self) -> (stopped: (AbortedTasks, Result<(), PresentError>))
        ensures
            stopped == self.stopped(),
    {
        if !self.has_audio_task {
            return (
                AbortedTasks { audio: false, video: false },
                Err(PresentError::NoAudioTask),
            );
        }
        if !self.has_video_task {
            return (AbortedTasks { audio: true, video: false }, Err(PresentError::NoVideoTask));
        }
        (AbortedTasks { audio: true, video: true }, Ok(()))
    }

    /// Decides what the task that plays sound does in a round.
    pub fn play_audio_task(
        context: &DataManageContext,
        paused: bool,
        queued_sources: usize,
        audio_frames: usize,
    ) -> (action: PlayAction)
        ensures
            action == sound_action(*context, paused, queued_sources, audio_frames),
    {
        if paused || queued_sources >= SINK_SOURCES_AHEAD {
            return PlayAction::Rest;
        }
        match context.main_stream {
            MainStream::Audio => PlayAction::TakeFrame {
                notify_decoder: audio_frames < SOUND_FRAMES_LOW,
            },
            MainStream::Video => PlayAction::UpdateTimestamp,
        }
    }

    /// Decides what the task that shows pictures does in a round, and whether the decoder is told
    /// that few pictures are left; it is told also where the next picture is not due yet.
    pub fn play_video_task(
        context: &DataManageContext,
        paused: bool,
        video_frames: usize,
        main_ts: i64,
        video_ts: i64,
        due: bool,
    ) -> (round: (PlayAction, bool))
        requires
            !paused ==> chase_fits(context.info(), main_ts, video_ts),
        ensures
            round.1 == tells_decoder(*context, paused, video_frames, main_ts, video_ts),
            round.0 == picture_action(*context, paused, video_frames, main_ts, video_ts, due),
    {
        if paused || !Self::should_video_catch_audio(context, main_ts, video_ts) {
            return (PlayAction::Rest, false);
        }
        let notify_decoder = video_frames < PICTURES_LOW;
        let is_due = match context.main_stream {
            MainStream::Audio => true,
            MainStream::Video => due,
        };
        if is_due {
            (PlayAction::TakeFrame { notify_decoder }, notify_decoder)
        } else {
            (PlayAction::Rest, notify_decoder)
        }
    }

    /// Decides what becomes of a picture, as `use_video_frame` does for sources that tell whether
    /// they have sound.
    pub fn use_picture(
        context: &DataManageContext,
        frame_pts: Option<Option<i64>>,
        video_ts: i64,
    ) -> (used: PictureUse)
        requires
            match frame_pts {
                Some(Some(pts)) => context.main_stream == MainStream::Audio || pts <= 0
                    || gap_fits(context.video_time_base, video_ts, pts),
                _ => true,
            },
        ensures
            used == picture_use(context.info(), frame_pts, video_ts),
            used.render == (frame_pts is Some && (context.main_stream == MainStream::Audio
                || frame_pts.unwrap() is Some)),
            used.timestamp == (match frame_pts {
                Some(pts) => pts,
                None => None,
            }),
            used.due == (match frame_pts {
                Some(Some(pts)) if context.main_stream == MainStream::Video => if pts > 0
                    && gap_millis(context.video_time_base, video_ts, pts) < 1000 {
                    DueChange::Advance {
                        millis: (gap_millis(context.video_time_base, video_ts, pts) as i64) as u64,
                    }
                } else {
                    DueChange::Reset
                },
                _ => DueChange::Keep,
            }),
    {
        use_video_frame(&context.to_info(), frame_pts, video_ts)
    }

    /// The timestamp of the main stream after a round of playing.
    pub fn update_current_timestamp(
        main_ts: i64,
        audio_pts: Option<i64>,
        main_stream: MainStream,
        video_ts: i64,
    ) -> (updated: i64)
        ensures
            updated == next_timestamp(
                main_ts,
                audio_pts,
                main_stream == MainStream::Audio,
                video_ts,
            ),
            updated == (match (main_stream, audio_pts) {
                (MainStream::Video, _) => video_ts,
                (MainStream::Audio, Some(pts)) => pts,
                (MainStream::Audio, None) => main_ts,
            }),
    {
        match main_stream {
            MainStream::Audio => match audio_pts {
                Some(pts) => pts,
                None => main_ts,
            },
            MainStream::Video => video_ts,
        }
    }

    /// Decides whether the next picture is due.
    pub fn should_video_catch_audio(context: &DataManageContext, main_ts: i64, video_ts: i64) -> (
    catch: bool)
        requires
            chase_fits(context.info(), main_ts, video_ts),
        ensures
            catch == chases(context.info(), main_ts, video_ts),
    {
        crate::presentation::PresentDataManager::should_video_chase_audio(
            &context.to_info(),
            main_ts,
            video_ts,
        )
    }
}

/// While the player plays and the sink holds fewer than ten pieces, sound is taken where it is the
/// main stream, and the decoder is told where fewer than five pieces are left; else the clock is
/// brought up to date. A paused player rests.
pub proof fn law_sink_is_supplied(
    context: DataManageContext,
    paused: bool,
    queued_sources: usize,
    audio_frames: usize,
)
    ensures
        ({
            let action = sound_action(context, paused, queued_sources, audio_frames);
            &&& action == PlayAction::Rest <==> paused || queued_sources >= 10
            &&& !paused && queued_sources < 10 && context.main_stream == MainStream::Audio ==> action
                is TakeFrame && (action->notify_decoder <==> audio_frames < 5)
            &&& !paused && queued_sources < 10 && context.main_stream == MainStream::Video ==> action
                == PlayAction::UpdateTimestamp
        }),
{
}

/// While the player plays, a picture is taken whenever the sound, where it is the main stream, is
/// later than the pictures, and none while they are level or ahead by up to a second. Where the
/// pictures are the main stream, one is taken when its time has come. The decoder is told where
/// fewer than ten are left. A paused player takes none.
pub proof fn law_pictures_keep_step(
    context: DataManageContext,
    paused: bool,
    video_frames: usize,
    main_ts: i64,
    video_ts: i64,
    due: bool,
)
    ensures
        ({
            let action = picture_action(context, paused, video_frames, main_ts, video_ts, due);
            let told = tells_decoder(context, paused, video_frames, main_ts, video_ts);
            let sound = millis_of(context.audio_time_base, main_ts as int);
            let pictures = millis_of(context.video_time_base, video_ts as int);
            &&& paused ==> action == PlayAction::Rest && !told
            &&& !paused && context.main_stream == MainStream::Audio && (sound > pictures || pictures
                > sound + 1000) ==> action is TakeFrame
            &&& context.main_stream == MainStream::Audio && sound <= pictures <= sound + 1000 ==> action
                == PlayAction::Rest && !told
            &&& !paused && context.main_stream == MainStream::Video ==> (action is TakeFrame <==> due)
                && (told <==> video_frames < 10)
            &&& action is TakeFrame ==> action->notify_decoder == told && (told <==> video_frames < 10)
            &&& action is TakeFrame || action == PlayAction::Rest
        }),
{
}

/// Both tasks are stopped exactly where there are both; else the missing one is reported, the one
/// for the sound first, and nothing that comes after it is stopped.
pub proof fn law_both_tasks_are_stopped(manager: PresentDataManager)
    ensures
        ({
            let (aborted, report) = manager.stopped();
            &&& report is Ok <==> aborted.audio && aborted.video
            &&& report is Ok <==> manager.has_audio_task && manager.has_video_task
            &&& report == Err::<(), PresentError>(PresentError::NoAudioTask) <==> !manager.has_audio_task
            &&& aborted.audio == manager.has_audio_task
        }),
{
}

} // verus!
