//! The main window.
use std::collections::VecDeque;

use vstd::prelude::*;

use crate::gpu_post_process::TextureFormat;
#[allow(unused_imports)]
use crate::gpu_post_process::{component_bits, components};
use crate::pictures::{
    can_fit_picture,
    can_resize,
    copy_picture,
    decode_picture,
    fit_picture,
    load_background,
    premultiply,
    resize_deep,
    Picture,
};
use crate::whispercpp_transcriber::UsedModel;
#[allow(unused_imports)]
use crate::pictures::{
    can_fit,
    colour_layout,
    decoded,
    fitted,
    law_pictures_fit,
    premultiplied,
    resize_fits,
    resized_deep,
    PictureValue,
};

verus! {

/// The flags of the window.
#[derive(Debug, Clone, Copy, PartialEq, Eq, Structural)]
pub struct UIFlags {
    pub pause_flag: bool,
    pub tip_window_flag: bool,
    pub visible_flag: bool,
    pub live_mode: bool,
    pub theme_flag: bool,
}

/// The state of the window.
#[derive(Debug)]
pub struct AppUI {
    pub ui_flags: UIFlags,
    /// How visible the controls are, as the bits of a 32 bit number.
    pub visible_num: u32,
    /// Whether the screen is kept on.
    pub is_kept_awake: bool,
    /// How far the source has been played, in units of its main stream.
    pub current_main_stream_timestamp: i64,
    /// How far the pictures have been shown, in units of their stream.
    pub current_video_timestamp: i64,
    /// The model that makes subtitles.
    pub used_model: UsedModel,
    /// The source that is opened where nothing says which one.
    pub path: String,
    /// What the window of tips says.
    pub tip_window_msg: String,
    /// What is shown where a source has no picture.
    pub background: Picture,
}

/// The mathematical value of an `AppUI`.
pub ghost struct AppState {
    pub ui_flags: UIFlags,
    pub visible_num: u32,
    pub is_kept_awake: bool,
    pub current_main_stream_timestamp: i64,
    pub current_video_timestamp: i64,
    pub used_model: UsedModel,
    pub path: Seq<char>,
    pub tip_window_msg: Seq<char>,
    pub background: PictureValue,
}

impl View for AppUI {
    type V = AppState;

    open spec fn view(&self) -> AppState {
        AppState {
            ui_flags: self.ui_flags,
            visible_num: self.visible_num,
            is_kept_awake: self.is_kept_awake,
            current_main_stream_timestamp: self.current_main_stream_timestamp,
            current_video_timestamp: self.current_video_timestamp,
            used_model: self.used_model,
            path: self.path@,
            tip_window_msg: self.tip_window_msg@,
            background: self.background@,
        }
    }
}

/// The paths of some files that were dropped on the window, as far as they have one.
pub open spec fn paths_of(dropped: Seq<Option<String>>) -> Seq<Option<Seq<char>>> {
    dropped.map_values(
        |path: Option<String>|
            match path {
                Some(path) => Some(path@),
                None => None,
            },
    )
}

/// The path of what is to be played when some files were dropped.
pub open spec fn dropped_path(dropped: Seq<Option<Seq<char>>>) -> Option<Seq<char>> {
    if dropped.len() > 0 {
        dropped[0]
    } else {
        None
    }
}

impl AppState {
    /// The window when its theme has been set.
    pub open spec fn themed(self) -> AppState {
        AppState { ui_flags: UIFlags { theme_flag: true, ..self.ui_flags }, ..self }
    }

    /// The window when its controls are as visible as they are while they fade.
    pub open spec fn with_fading(self, fading_bits: u32) -> AppState {
        AppState {
            visible_num: if self.ui_flags.pause_flag {
                ONE_BITS
            } else {
                fading_bits
            },
            ..self
        }
    }

    /// The window when its controls are asked for, or not.
    pub open spec fn with_visible(self, visible_flag: bool) -> AppState {
        AppState { ui_flags: UIFlags { visible_flag, ..self.ui_flags }, ..self }
    }

    /// The window when some files were dropped on it.
    pub open spec fn with_drop(self, dropped: Seq<Option<Seq<char>>>) -> AppState {
        AppState {
            ui_flags: UIFlags {
                live_mode: self.ui_flags.live_mode && dropped_path(dropped) is None,
                ..self.ui_flags
            },
            ..self
        }
    }

    /// The window when a click has closed its tip, or none has.
    pub open spec fn with_tip_window(self, close_clicked: bool) -> AppState {
        AppState {
            ui_flags: UIFlags {
                tip_window_flag: self.ui_flags.tip_window_flag && !close_clicked,
                ..self.ui_flags
            },
            ..self
        }
    }
}

/// While the player is paused its controls are fully visible, at the number one; else they fade.
/// The theme is set once. Controls are asked for while something asks for them.
pub proof fn law_controls(state: AppState, fading_bits: u32, visible_flag: bool)
    ensures
        state.ui_flags.pause_flag ==> state.with_fading(fading_bits).visible_num as int == 127
            * 0x80_0000,
        !state.ui_flags.pause_flag ==> state.with_fading(fading_bits).visible_num == fading_bits,
        state.with_fading(fading_bits).ui_flags == state.ui_flags,
        state.themed().ui_flags.theme_flag && state.themed().themed() == state.themed(),
        state.with_visible(visible_flag).ui_flags.visible_flag == visible_flag,
        state.with_visible(visible_flag).ui_flags.pause_flag == state.ui_flags.pause_flag,
{
}

/// Of the files that were dropped the first one is played, if its path is known, and then the
/// source is not live. Where nothing is to be played, nothing changes.
pub proof fn law_first_dropped_file_is_played(state: AppState, dropped: Seq<Option<Seq<char>>>)
    ensures
        dropped.len() > 0 ==> dropped_path(dropped) == dropped[0],
        dropped.len() == 0 ==> dropped_path(dropped) is None,
        dropped_path(dropped) is Some ==> !state.with_drop(dropped).ui_flags.live_mode,
        dropped_path(dropped) is None ==> state.with_drop(dropped) == state,
        state.with_drop(dropped).ui_flags.pause_flag == state.ui_flags.pause_flag,
{
}

/// A tip stays until it is closed, and then it is gone.
pub proof fn law_tip_stays_until_closed(state: AppState)
    ensures
        state.with_tip_window(false) == state,
        !state.with_tip_window(true).ui_flags.tip_window_flag,
        state.with_tip_window(true).tip_window_msg == state.tip_window_msg,
        state.with_tip_window(true).ui_flags.pause_flag == state.ui_flags.pause_flag,
{
}

/// Which of the parts that a window works with could be made. They are made in this order, and what
/// stands after one that could not be made need not be tried.
#[derive(Debug, Clone, Copy, PartialEq, Eq, Structural)]
pub struct AppParts {
    pub runtime: bool,
    pub media_engine: bool,
    pub render_state: bool,
    pub transcoder: bool,
    pub audio_player: bool,
    pub transcriber: bool,
}

/// Why a window cannot be opened.
#[derive(Debug, Clone, Copy, PartialEq, Eq, Structural)]
pub enum OpenError {
    Runtime,
    /// The background is no picture.
    Background,
    MediaEngine,
    /// The window is not drawn by the graphics card.
    RenderState,
    Transcoder,
    AudioPlayer,
    Transcriber,
}

/// Why a window cannot be opened, if it cannot: the first part that is missing.
pub open spec fn missing_part(parts: AppParts, has_background: bool) -> Option<OpenError> {
    if !parts.runtime {
        Some(OpenError::Runtime)
    } else if !has_background {
        Some(OpenError::Background)
    } else if !parts.media_engine {
        Some(OpenError::MediaEngine)
    } else if !parts.render_state {
        Some(OpenError::RenderState)
    } else if !parts.transcoder {
        Some(OpenError::Transcoder)
    } else if !parts.audio_player {
        Some(OpenError::AudioPlayer)
    } else if !parts.transcriber {
        Some(OpenError::Transcriber)
    } else {
        None
    }
}

/// What a window is when it has just been opened.
pub open spec fn first_state(background: PictureValue) -> AppState {
    AppState {
        ui_flags: UIFlags {
            pause_flag: false,
            tip_window_flag: false,
            visible_flag: false,
            live_mode: false,
            theme_flag: false,
        },
        visible_num: FIRST_VISIBLE_NUM,
        is_kept_awake: false,
        current_main_stream_timestamp: 0,
        current_video_timestamp: 0,
        used_model: UsedModel::NoModel,
        path: Seq::empty(),
        tip_window_msg: FIRST_TIP@,
        background,
    }
}

/// What is to be played next, if anything, and whether what plays is a live source. The path is
/// whatever names the source.
#[derive(Debug, PartialEq, Eq)]
pub struct SourceChoice<P> {
    pub path: Option<P>,
    pub live_mode: bool,
}

/// What the window does about the screen going dark.
#[derive(Debug, Clone, Copy, PartialEq, Eq, Structural)]
pub enum KeepAwakeAction {
    Leave,
    /// The screen is kept on from now on.
    Create,
    /// The screen may go dark again.
    Release,
}

/// What the window does about the screen going dark, given whether the player is paused and whether
/// the screen is kept on.
pub open spec fn keepawake_action(paused: bool, is_kept_awake: bool) -> KeepAwakeAction {
    if !paused && !is_kept_awake {
        KeepAwakeAction::Create
    } else if paused && is_kept_awake {
        KeepAwakeAction::Release
    } else {
        KeepAwakeAction::Leave
    }
}

/// Once the window has done what it does about the screen going dark, the screen is kept on exactly
/// while the player is not paused, and nothing is done where it already is as it should be.
pub proof fn law_screen_is_on_while_playing(paused: bool, is_kept_awake: bool)
    ensures
        ({
            let action = keepawake_action(paused, is_kept_awake);
            let after = match action {
                KeepAwakeAction::Create => true,
                KeepAwakeAction::Release => false,
                KeepAwakeAction::Leave => is_kept_awake,
            };
            &&& after == !paused
            &&& keepawake_action(paused, after) == KeepAwakeAction::Leave
            &&& is_kept_awake == !paused ==> action == KeepAwakeAction::Leave
        }),
{
}

/// The bits of the 32 bit number one.
pub const ONE_BITS: u32 = 0x3f80_0000;

/// What the visibility of the controls is at first, as bits.
pub const FIRST_VISIBLE_NUM: u32 = 1;

/// What the window of tips says before there is a tip.
pub const FIRST_TIP: &'static str = "empty msg";

impl AppUI {
    /// Opens a window, with a background that has been decoded, or could not be.
    pub fn open(parts: AppParts, background: Option<Picture>) -> (app: Result<AppUI, OpenError>)
        ensures
            match app {
                Ok(app) => missing_part(parts, background is Some) is None && app@ == first_state(
                    background.unwrap()@,
                ),
                Err(e) => missing_part(parts, background is Some) == Some(e),
            },
    {
        if !parts.runtime {
            return Err(OpenError::Runtime);
        }
        match background {
            None => Err(OpenError::Background),
            Some(background) => {
                if !parts.media_engine {
                    return Err(OpenError::MediaEngine);
                }
                if !parts.render_state {
                    return Err(OpenError::RenderState);
                }
                if !parts.transcoder {
                    return Err(OpenError::Transcoder);
                }
                if !parts.audio_player {
                    return Err(OpenError::AudioPlayer);
                }
                if !parts.transcriber {
                    return Err(OpenError::Transcriber);
                }
                let app = AppUI {
                    ui_flags: UIFlags {
                        pause_flag: false,
                        tip_window_flag: false,
                        visible_flag: false,
                        live_mode: false,
                        theme_flag: false,
                    },
                    visible_num: FIRST_VISIBLE_NUM,
                    is_kept_awake: false,
                    current_main_stream_timestamp: 0,
                    current_video_timestamp: 0,
                    used_model: UsedModel::NoModel,
                    path: String::new(),
                    tip_window_msg: FIRST_TIP.to_owned(),
                    background,
                };
                assert(app.path@ =~= Seq::<char>::empty());
                Ok(app)
            },
        }
    }

    /// Opens a window: nothing plays, no tip is shown, and the background is decoded.
    pub fn new(parts: AppParts, background: &[u8]) -> (app: Result<AppUI, OpenError>)
        ensures
            match app {
                Ok(app) => missing_part(parts, decoded(background@) is Some) is None && match decoded(
                    background@,
                ) {
                    Some((width, height, rgba)) => app@ == first_state(
                        PictureValue { width, height, rgba },
                    ) && app@.background.wf(),
                    None => false,
                },
                Err(e) => missing_part(parts, decoded(background@) is Some) == Some(e),
            },
    {
        Self::open(parts, load_background(background))
    }

    /// Tells whether the theme is still to be set, which happens once.
    pub fn take_theme(&mut self) -> (set: bool)
        ensures
            set == !old(self).ui_flags.theme_flag,
            final(self)@ == old(self)@.themed(),
    {
        let set = !self.ui_flags.theme_flag;
        self.ui_flags.theme_flag = true;
        set
    }

    /// Decides what is done about the screen going dark: it is kept on while a source plays.
    pub fn manage_keepawake(&self) -> (action: KeepAwakeAction)
        ensures
            action == keepawake_action(self.ui_flags.pause_flag, self.is_kept_awake),
    {
        if !self.ui_flags.pause_flag {
            if !self.is_kept_awake {
                return KeepAwakeAction::Create;
            }
        } else if self.is_kept_awake {
            return KeepAwakeAction::Release;
        }
        KeepAwakeAction::Leave
    }

    /// Takes note of whether the screen is kept on now.
    pub fn note_keepawake(&mut self, is_kept_awake: bool)
        ensures
            final(self)@ == (AppState { is_kept_awake, ..old(self)@ }),
    {
        self.is_kept_awake = is_kept_awake;
    }

    /// How visible the controls are, as the bits of a 32 bit number: fully while the player is
    /// paused, otherwise as far as they have not faded.
    pub fn apply_visiable_animation(&mut self, fading_bits: u32)
        ensures
            final(self)@ == old(self)@.with_fading(fading_bits),
    {
        self.visible_num = if self.ui_flags.pause_flag {
            ONE_BITS
        } else {
            fading_bits
        };
    }

    /// Takes note, when the window is painted anew, that nothing asks for the controls yet.
    pub fn clear_visible_flag(&mut self)
        ensures
            final(self)@ == old(self)@.with_visible(false),
    {
        self.ui_flags.visible_flag = false;
    }

    /// Takes note that the pointer moves, or not, and tells whether the controls are to fade anew.
    pub fn detect_pointer_moving(&mut self, is_moving: bool) -> (trigger: bool)
        ensures
            trigger == is_moving,
            final(self)@ == old(self)@.with_visible(old(self).ui_flags.visible_flag || is_moving),
    {
        if is_moving {
            self.ui_flags.visible_flag = true;
        }
        is_moving
    }

    /// Takes the files that were dropped on the window, each with its path if it has one, and tells
    /// which one is to be played: the first one. It is not a live source.
    pub fn detect_file_drag(&mut self, dropped: &Vec<Option<String>>) -> (path: Option<String>)
        ensures
            match path {
                Some(path) => dropped_path(paths_of(dropped@)) == Some(path@),
                None => dropped_path(paths_of(dropped@)) is None,
            },
            final(self)@ == old(self)@.with_drop(paths_of(dropped@)),
    {
        if dropped.len() == 0 {
            return None;
        }
        match &dropped[0] {
            Some(path) => {
                self.ui_flags.live_mode = false;
                Some(path.clone())
            },
            None => None,
        }
    }

    /// Closes the window that shows a tip, if that was asked for.
    pub fn paint_tip_window(&mut self, close_clicked: bool) -> (shown: bool)
        ensures
            shown == old(self).ui_flags.tip_window_flag,
            final(self)@ == old(self)@.with_tip_window(close_clicked),
    {
        let shown = self.ui_flags.tip_window_flag;
        if shown && close_clicked {
            self.ui_flags.tip_window_flag = false;
        }
        shown
    }
}

/// Why another source could not be played.
#[derive(Debug, Clone, Copy, PartialEq, Eq, Structural)]
pub enum ResetError {
    /// The tasks that present the old source could not be stopped.
    StopPresentTasks,
    /// The new source could not be opened.
    ResetInput,
    /// The texture of the pictures could not be replaced.
    UpdateVideoTexture,
}

/// Where the change to another source stands.
#[derive(Debug, Clone, Copy, PartialEq, Eq, Structural)]
pub enum ResetStage {
    /// The tasks that present the old source are stopped.
    StopPresentTasks,
    /// The new source is opened.
    ResetInput,
    /// The queue of sound is cleared, and what the source tells of its streams is read.
    ReadInfo,
    /// The colour space is set, and the picture that is shown first is made.
    ShowPicture,
    /// The texture of the pictures is replaced.
    UpdateVideoTexture,
    /// The tasks that present the new source are started.
    SpawnPresentTasks,
    /// The new source is played.
    Done,
    /// The source told nothing of its streams, so nothing is played.
    Abandoned,
    /// Something went wrong, and is shown.
    Failed(ResetError),
}

/// The stage after another one, given whether that one succeeded.
pub open spec fn stage_after(stage: ResetStage, succeeded: bool) -> ResetStage {
    match stage {
        ResetStage::StopPresentTasks => if succeeded {
            ResetStage::ResetInput
        } else {
            ResetStage::Failed(ResetError::StopPresentTasks)
        },
        ResetStage::ResetInput => if succeeded {
            ResetStage::ReadInfo
        } else {
            ResetStage::Failed(ResetError::ResetInput)
        },
        ResetStage::ReadInfo => if succeeded {
            ResetStage::ShowPicture
        } else {
            ResetStage::Abandoned
        },
        ResetStage::ShowPicture => ResetStage::UpdateVideoTexture,
        ResetStage::UpdateVideoTexture => if succeeded {
            ResetStage::SpawnPresentTasks
        } else {
            ResetStage::Failed(ResetError::UpdateVideoTexture)
        },
        ResetStage::SpawnPresentTasks => ResetStage::Done,
        _ => stage,
    }
}

/// The stage after some others, the first of which is `first`.
pub open spec fn stages_after(first: ResetStage, successes: Seq<bool>) -> ResetStage
    decreases successes.len(),
{
    if successes.len() == 0 {
        first
    } else {
        stage_after(stages_after(first, successes.drop_last()), successes.last())
    }
}

/// What came of a stage of the change to another source: whether it succeeded, and how a failure
/// was reported.
pub ghost struct StageOutcome {
    pub succeeded: bool,
    pub report: Seq<char>,
}

/// Whether some stages succeeded.
pub open spec fn successes_of(outcomes: Seq<StageOutcome>) -> Seq<bool> {
    outcomes.map_values(|outcome: StageOutcome| outcome.succeeded)
}

/// The window when the change to another source has begun.
pub open spec fn reset_begun(state: AppState) -> AppState {
    AppState {
        ui_flags: UIFlags { pause_flag: true, ..state.ui_flags },
        current_main_stream_timestamp: 0,
        current_video_timestamp: 0,
        ..state
    }
}

/// The window when it shows what went wrong.
pub open spec fn with_tip(state: AppState, error: ResetError, report: Seq<char>) -> AppState {
    AppState {
        ui_flags: UIFlags { tip_window_flag: true, ..state.ui_flags },
        tip_window_msg: tip_start(error) + report,
        ..state
    }
}

/// The window after a stage of the change to another source: it shows what went wrong, if the stage
/// failed now.
pub open spec fn state_after(state: AppState, stage: ResetStage, outcome: StageOutcome) -> AppState {
    match (stage, stage_after(stage, outcome.succeeded)) {
        (ResetStage::Failed(_), _) => state,
        (_, ResetStage::Failed(error)) => with_tip(state, error, outcome.report),
        _ => state,
    }
}

/// The window after some stages of the change to another source, the first of which is `first`.
pub open spec fn state_after_stages(
    state: AppState,
    first: ResetStage,
    outcomes: Seq<StageOutcome>,
) -> AppState
    decreases outcomes.len(),
{
    if outcomes.len() == 0 {
        state
    } else {
        state_after(
            state_after_stages(state, first, outcomes.drop_last()),
            stages_after(first, successes_of(outcomes.drop_last())),
            outcomes.last(),
        )
    }
}

/// Where the change to another source begins.
pub open spec fn first_stage(is_running: bool) -> ResetStage {
    if is_running {
        ResetStage::StopPresentTasks
    } else {
        ResetStage::ResetInput
    }
}

impl AppUI {
    /// Starts to change to another source: the player pauses, and both clocks go back to the start.
    /// Tasks that present an old source are stopped first.
    pub fn reset_media_input(&mut self, is_running: bool) -> (stage: ResetStage)
        ensures
            stage == first_stage(is_running),
            final(self)@ == reset_begun(old(self)@),
    {
        self.ui_flags.pause_flag = true;
        self.current_main_stream_timestamp = 0;
        self.current_video_timestamp = 0;
        if is_running {
            ResetStage::StopPresentTasks
        } else {
            ResetStage::ResetInput
        }
    }

    /// Shows what went wrong with the change to another source.
    pub fn show_reset_error(&mut self, error: ResetError, report: &str)
        ensures
            final(self)@ == with_tip(old(self)@, error, report@),
    {
        self.tip_window_msg = Self::tip_message(error, report);
        self.ui_flags.tip_window_flag = true;
    }

    /// Goes on with the change to another source, and shows what went wrong, if the stage failed
    /// now.
    pub fn finish_reset_stage(&mut self, stage: ResetStage, succeeded: bool, report: &str) -> (next:
        ResetStage)
        ensures
            next == stage_after(stage, succeeded),
            final(self)@ == state_after(old(self)@, stage, StageOutcome { succeeded, report: report@ }),
    {
        let next = Self::next_reset_stage(stage, succeeded);
        match (stage, next) {
            (ResetStage::Failed(_), _) => {},
            (_, ResetStage::Failed(error)) => self.show_reset_error(error, report),
            _ => {},
        }
        next
    }

    /// Goes on with the change to another source.
    pub fn next_reset_stage(stage: ResetStage, succeeded: bool) -> (next: ResetStage)
        ensures
            next == stage_after(stage, succeeded),
    {
        match stage {
            ResetStage::StopPresentTasks => if succeeded {
                ResetStage::ResetInput
            } else {
                ResetStage::Failed(ResetError::StopPresentTasks)
            },
            ResetStage::ResetInput => if succeeded {
                ResetStage::ReadInfo
            } else {
                ResetStage::Failed(ResetError::ResetInput)
            },
            ResetStage::ReadInfo => if succeeded {
                ResetStage::ShowPicture
            } else {
                ResetStage::Abandoned
            },
            ResetStage::ShowPicture => ResetStage::UpdateVideoTexture,
            ResetStage::UpdateVideoTexture => if succeeded {
                ResetStage::SpawnPresentTasks
            } else {
                ResetStage::Failed(ResetError::UpdateVideoTexture)
            },
            ResetStage::SpawnPresentTasks => ResetStage::Done,
            _ => stage,
        }
    }
}

/// A change to another source that is done, has failed or was abandoned stays so.
pub proof fn law_reset_ends(stage: ResetStage, successes: Seq<bool>, more: bool)
    requires
        stages_after(stage, successes) is Done || stages_after(stage, successes) is Failed
            || stages_after(stage, successes) is Abandoned,
    ensures
        stages_after(stage, successes.push(more)) == stages_after(stage, successes),
{
    assert(successes.push(more).drop_last() =~= successes);
}

/// A change to another source is over after six steps at the latest, and after five where no tasks
/// had to be stopped.
pub proof fn law_reset_is_over(is_running: bool, successes: Seq<bool>)
    requires
        successes.len() >= 6 || !is_running && successes.len() >= 5,
    ensures
        ({
            let stage = stages_after(first_stage(is_running), successes);
            stage is Done || stage is Failed || stage is Abandoned
        }),
    decreases successes.len(),
{
    if successes.len() > 6 || !is_running && successes.len() > 5 {
        law_reset_is_over(is_running, successes.drop_last());
    } else {
        reveal_with_fuel(stages_after, 7);
    }
}

/// The tasks that present a source are started only when the old ones could be stopped, if they
/// ran, the source was opened, it told of its streams, and the texture was replaced.
pub proof fn law_tasks_start_after_success(is_running: bool, successes: Seq<bool>)
    requires
        stages_after(first_stage(is_running), successes) == ResetStage::SpawnPresentTasks,
    ensures
        ({
            let opened: int = if is_running {
                1
            } else {
                0
            };
            &&& successes.len() == opened + 4
            &&& is_running ==> successes[0]
            &&& successes[opened]
            &&& successes[opened + 1]
            &&& successes[opened + 3]
        }),
{
    if successes.len() >= 6 || !is_running && successes.len() >= 5 {
        law_reset_is_over(is_running, successes);
    } else {
        reveal_with_fuel(stages_after, 7);
    }
}

/// A picture is too large to be made to fit for a video.
#[derive(Debug, Clone, Copy, PartialEq, Eq, Structural)]
pub struct PictureTooLarge;

/// A picture as the texture of a video of some size holds it.
pub open spec fn presented(picture: PictureValue, video_rect: (u32, u32)) -> PictureValue {
    premultiplied(fitted(picture, video_rect))
}

proof fn lemma_successes_drop_last(outcomes: Seq<StageOutcome>)
    requires
        outcomes.len() > 0,
    ensures
        successes_of(outcomes).drop_last() == successes_of(outcomes.drop_last()),
        successes_of(outcomes).last() == outcomes.last().succeeded,
{
    assert(successes_of(outcomes).drop_last() =~= successes_of(outcomes.drop_last()));
}

/// Where no stage of a change to another source has failed, the window is as when it began.
pub proof fn law_no_failure_no_tip(state: AppState, first: ResetStage, outcomes: Seq<StageOutcome>)
    requires
        !(stages_after(first, successes_of(outcomes)) is Failed),
    ensures
        state_after_stages(state, first, outcomes) == state,
    decreases outcomes.len(),
{
    if outcomes.len() > 0 {
        lemma_successes_drop_last(outcomes);
        law_no_failure_no_tip(state, first, outcomes.drop_last());
    }
}

/// Where a change to another source has failed, the window shows which stage failed and how that
/// was reported; nothing else has changed since the change began.
pub proof fn law_failure_is_shown(
    state: AppState,
    is_running: bool,
    outcomes: Seq<StageOutcome>,
    error: ResetError,
)
    requires
        stages_after(first_stage(is_running), successes_of(outcomes)) == ResetStage::Failed(error),
    ensures
        exists|k: int|
            {
                &&& 0 <= k < outcomes.len()
                &&& !(#[trigger] outcomes[k]).succeeded
                &&& state_after_stages(state, first_stage(is_running), outcomes) == with_tip(
                    state,
                    error,
                    outcomes[k].report,
                )
            },
    decreases outcomes.len(),
{
    let first = first_stage(is_running);
    if outcomes.len() > 0 {
        lemma_successes_drop_last(outcomes);
        let earlier = outcomes.drop_last();
        let stage = stages_after(first, successes_of(earlier));
        if stage is Failed {
            law_failure_is_shown(state, is_running, earlier, error);
            let k = choose|k: int|
                {
                    &&& 0 <= k < earlier.len()
                    &&& !(#[trigger] earlier[k]).succeeded
                    &&& state_after_stages(state, first, earlier) == with_tip(
                        state,
                        error,
                        earlier[k].report,
                    )
                };
            assert(outcomes[k] == earlier[k]);
        } else {
            law_no_failure_no_tip(state, first, earlier);
            assert(!outcomes[outcomes.len() - 1].succeeded);
        }
    }
}

/// Where a change to another source has failed, the tasks that present it were not started at any
/// time before.
pub proof fn law_failure_starts_no_tasks(is_running: bool, successes: Seq<bool>, n: int)
    requires
        stages_after(first_stage(is_running), successes) is Failed,
        0 <= n <= successes.len(),
    ensures
        stages_after(first_stage(is_running), successes.take(n)) != ResetStage::SpawnPresentTasks,
        !(stages_after(first_stage(is_running), successes.take(n)) is Done),
    decreases successes.len() - n,
{
    let first = first_stage(is_running);
    if n < successes.len() {
        law_failure_starts_no_tasks(is_running, successes, n + 1);
        assert(successes.take(n + 1).drop_last() =~= successes.take(n));
    } else {
        assert(successes.take(n) =~= successes);
    }
}

/// In a change to another source the tasks that present it are started once at most.
pub proof fn law_tasks_start_once(is_running: bool, successes: Seq<bool>, m: int, n: int)
    requires
        0 <= m <= successes.len(),
        0 <= n <= successes.len(),
        stages_after(first_stage(is_running), successes.take(m)) == ResetStage::SpawnPresentTasks,
        stages_after(first_stage(is_running), successes.take(n)) == ResetStage::SpawnPresentTasks,
    ensures
        m == n,
{
    law_tasks_start_after_success(is_running, successes.take(m));
    law_tasks_start_after_success(is_running, successes.take(n));
}

/// In a change to another source that is done, the tasks that present it were started.
pub proof fn law_done_started_tasks(is_running: bool, successes: Seq<bool>)
    requires
        stages_after(first_stage(is_running), successes) == ResetStage::Done,
    ensures
        exists|n: int|
            0 <= n < successes.len() && #[trigger] stages_after(
                first_stage(is_running),
                successes.take(n),
            ) == ResetStage::SpawnPresentTasks,
    decreases successes.len(),
{
    let first = first_stage(is_running);
    if successes.len() > 0 {
        let earlier = successes.drop_last();
        assert(earlier =~= successes.take(successes.len() - 1));
        if stages_after(first, earlier) == ResetStage::Done {
            law_done_started_tasks(is_running, earlier);
            let n = choose|n: int|
                0 <= n < earlier.len() && #[trigger] stages_after(first, earlier.take(n))
                    == ResetStage::SpawnPresentTasks;
            assert(earlier.take(n) =~= successes.take(n));
        }
    }
}

/// Whether the picture that some bytes encode has more than eight bits for each colour.
pub open spec fn is_deep(bytes: Seq<u8>) -> bool {
    match colour_layout(bytes) {
        Some((pixel_bits, channels)) => pixel_bits > 8 * channels,
        None => false,
    }
}

/// Whether a cover must be made to fit before its colours become bytes: it has more than eight bits
/// for each colour, and another size than the video.
pub open spec fn fits_deep(bytes: Seq<u8>, size: (u32, u32), video_rect: (u32, u32)) -> bool {
    is_deep(bytes) && video_rect.0 != 0 && size != video_rect
}

/// Whether the cover of a source cannot be made to fit for a video of some size, though it can be
/// decoded.
pub open spec fn cover_too_large(cover: Option<Seq<u8>>, video_rect: (u32, u32)) -> bool {
    match cover {
        Some(bytes) => match decoded(bytes) {
            Some((width, height, _)) => if fits_deep(bytes, (width, height), video_rect) {
                !resize_fits(width, height, video_rect.0, video_rect.1, 16)
            } else {
                !can_fit(width, height, video_rect)
            },
            None => false,
        },
        None => false,
    }
}

/// The cover of a source as it is shown, if it has one that can be decoded. One with more than
/// eight bits for each colour is made to fit before its colours become bytes.
pub open spec fn presented_cover(cover: Option<Seq<u8>>, video_rect: (u32, u32)) -> Option<
    PictureValue,
> {
    match cover {
        Some(bytes) => match decoded(bytes) {
            Some((width, height, rgba)) => if fits_deep(bytes, (width, height), video_rect) {
                let (width, height, rgba) = resized_deep(bytes, video_rect.0, video_rect.1);
                Some(premultiplied(PictureValue { width, height, rgba }))
            } else {
                Some(presented(PictureValue { width, height, rgba }, video_rect))
            },
            None => None,
        },
        None => None,
    }
}

/// The picture that is shown when a source is opened.
pub open spec fn opening_picture(
    background: PictureValue,
    cover: Option<Seq<u8>>,
    video_rect: (u32, u32),
) -> PictureValue {
    match presented_cover(cover, video_rect) {
        Some(picture) => picture,
        None => presented(background, video_rect),
    }
}

/// A source with a cover that can be decoded is opened with that cover, and any other one with the
/// background, each made to fit for the video.
pub proof fn law_opening_picture(
    background: PictureValue,
    cover: Option<Seq<u8>>,
    video_rect: (u32, u32),
)
    ensures
        cover is None || decoded(cover.unwrap()) is None ==> opening_picture(
            background,
            cover,
            video_rect,
        ) == premultiplied(fitted(background, video_rect)),
        cover is Some && decoded(cover.unwrap()) is Some ==> Some(
            opening_picture(background, cover, video_rect),
        ) == presented_cover(cover, video_rect),
{
}

/// The bytes of a cover, if there is one.
pub open spec fn cover_bytes(cover: Option<Vec<u8>>) -> Option<Seq<u8>> {
    match cover {
        Some(bytes) => Some(bytes@),
        None => None,
    }
}

/// How a tip begins.
pub open spec fn tip_start(error: ResetError) -> Seq<char> {
    match error {
        ResetError::StopPresentTasks => "stop_present_tasks error:"@,
        ResetError::ResetInput => "reset_input error:"@,
        ResetError::UpdateVideoTexture => "update_video_texture error:"@,
    }
}

impl AppUI {
    /// The tip that is shown when something went wrong: what it was, and how it was reported.
    pub fn tip_message(error: ResetError, report: &str) -> (message: String)
        ensures
            message@ == tip_start(error) + report@,
    {
        let start = match error {
            ResetError::StopPresentTasks => "stop_present_tasks error:",
            ResetError::ResetInput => "reset_input error:",
            ResetError::UpdateVideoTexture => "update_video_texture error:",
        };
        let mut message = start.to_owned();
        message.append(report);
        message
    }

    /// Makes the background fit for a video of some size.
    pub fn reset_main_colorimg_to_bg(background: &Picture, video_rect: (u32, u32)) -> (shown: Picture)
        requires
            background@.wf(),
            can_fit(background.width, background.height, video_rect),
        ensures
            shown@ == presented(background@, video_rect),
            shown@.wf(),
    {
        premultiply(fit_picture(copy_picture(background), video_rect))
    }

    /// What becomes of a cover that has been decoded, or could not be: it is made to fit for a
    /// video of some size, unless it is too large for that.
    pub fn fit_cover(decoded: Option<Picture>, video_rect: (u32, u32)) -> (shown: Result<
        Option<Picture>,
        PictureTooLarge,
    >)
        requires
            decoded is Some ==> decoded.unwrap()@.wf(),
        ensures
            match decoded {
                Some(picture) => match shown {
                    Ok(Some(shown)) => can_fit(picture.width, picture.height, video_rect) && shown@
                        == presented(picture@, video_rect) && shown@.wf(),
                    Ok(None) => false,
                    Err(_) => !can_fit(picture.width, picture.height, video_rect),
                },
                None => shown == Ok::<Option<Picture>, PictureTooLarge>(None),
            },
    {
        match decoded {
            Some(picture) => if can_fit_picture(picture.width, picture.height, video_rect) {
                Ok(Some(premultiply(fit_picture(picture, video_rect))))
            } else {
                Err(PictureTooLarge)
            },
            None => Ok(None),
        }
    }

    /// What becomes of a cover of some size with more than eight bits for each colour: it is made
    /// to fit for a video of another size, unless it is too large for that.
    fn fit_deep_cover(bytes: &[u8], size: (u32, u32), video_rect: (u32, u32)) -> (shown: Result<
        Option<Picture>,
        PictureTooLarge,
    >)
        requires
            decoded(bytes@) is Some,
            (decoded(bytes@).unwrap().0, decoded(bytes@).unwrap().1) == size,
        ensures
            match shown {
                Ok(Some(shown)) => {
                    let (width, height, rgba) = resized_deep(bytes@, video_rect.0, video_rect.1);
                    &&& resize_fits(size.0, size.1, video_rect.0, video_rect.1, 16)
                    &&& shown@ == premultiplied(PictureValue { width, height, rgba })
                    &&& shown@.wf()
                },
                Ok(None) => false,
                Err(_) => !resize_fits(size.0, size.1, video_rect.0, video_rect.1, 16),
            },
    {
        if !can_resize(size.0, size.1, video_rect, 16) {
            return Err(PictureTooLarge);
        }
        match resize_deep(bytes, video_rect.0, video_rect.1) {
            Some(small) => Ok(Some(premultiply(small))),
            None => Ok(None),
        }
    }

    /// The cover of a source as it is shown, if it has one that can be decoded. It is an error
    /// where that one cannot be made to fit.
    pub fn reset_main_colorimg_to_cover(cover: &Option<Vec<u8>>, video_rect: (u32, u32)) -> (shown:
        Result<Option<Picture>, PictureTooLarge>)
        ensures
            match shown {
                Ok(shown) => {
                    &&& !cover_too_large(cover_bytes(*cover), video_rect)
                    &&& match shown {
                        Some(shown) => shown@.wf() && presented_cover(
                            cover_bytes(*cover),
                            video_rect,
                        ) == Some(shown@),
                        None => presented_cover(cover_bytes(*cover), video_rect) is None,
                    }
                },
                Err(_) => cover_too_large(cover_bytes(*cover), video_rect),
            },
    {
        match cover {
            Some(bytes) => match decode_picture(bytes.as_slice()) {
                Some(decoding) => {
                    let picture = decoding.picture;
                    let is_deep = decoding.pixel_bits as u32 > 8 * decoding.channels as u32;
                    let same_size = picture.width == video_rect.0 && picture.height == video_rect.1;
                    if is_deep && video_rect.0 != 0 && !same_size {
                        Self::fit_deep_cover(
                            bytes.as_slice(),
                            (picture.width, picture.height),
                            video_rect,
                        )
                    } else {
                        Self::fit_cover(Some(picture), video_rect)
                    }
                },
                None => Ok(None),
            },
            None => Ok(None),
        }
    }

    /// The picture that is shown when a source is opened: its cover, or else the background. It is
    /// an error where the source has a cover that cannot be made to fit.
    pub fn first_picture(
        background: &Picture,
        cover: &Option<Vec<u8>>,
        video_rect: (u32, u32),
    ) -> (shown: Result<Picture, PictureTooLarge>)
        requires
            background@.wf(),
            can_fit(background.width, background.height, video_rect),
        ensures
            match shown {
                Ok(shown) => {
                    &&& !cover_too_large(cover_bytes(*cover), video_rect)
                    &&& shown@.wf()
                    &&& shown@ == opening_picture(background@, cover_bytes(*cover), video_rect)
                },
                Err(_) => cover_too_large(cover_bytes(*cover), video_rect),
            },
    {
        match Self::reset_main_colorimg_to_cover(cover, video_rect) {
            Ok(Some(shown)) => Ok(shown),
            Ok(None) => Ok(Self::reset_main_colorimg_to_bg(background, video_rect)),
            Err(e) => Err(e),
        }
    }
}

/// A texture that is made for a picture, and what is copied to it.
#[derive(Debug)]
pub struct TextureUpload<'a> {
    pub width: u32,
    pub height: u32,
    pub format: TextureFormat,
    pub bytes_per_row: u32,
    pub pixels: &'a [u8],
}

/// The texture that is shown, with the picture that it was made for, and those that are no longer
/// shown but not released yet. A texture is known by its number.
#[derive(Debug)]
pub struct PresentationTexture {
    pub id: u64,
    pub format: TextureFormat,
    pub main_color_image: Picture,
    pub garbage: VecDeque<u64>,
}

/// The mathematical value of a `PresentationTexture`.
pub ghost struct TextureState {
    pub id: u64,
    pub format: TextureFormat,
    pub picture: PictureValue,
    pub garbage: Seq<u64>,
}

impl View for PresentationTexture {
    type V = TextureState;

    open spec fn view(&self) -> TextureState {
        TextureState {
            id: self.id,
            format: self.format,
            picture: self.main_color_image@,
            garbage: self.garbage@,
        }
    }
}

/// How many subtitles can wait to be shown.
pub const SUBTITLE_LIMIT: usize = 10;

/// How many rows of bars can wait to be shown.
pub const BARS_LIMIT: usize = 128;

/// How many textures can wait to be released.
pub const GARBAGE_LIMIT: usize = 8;

impl TextureState {
    /// Whether there is room for one more texture to wait.
    pub open spec fn has_room(self) -> bool {
        self.garbage.len() < GARBAGE_LIMIT
    }

    /// The texture that has waited longest, if any waits.
    pub open spec fn oldest(self) -> Option<u64> {
        if self.garbage.len() > 0 {
            Some(self.garbage[0])
        } else {
            None
        }
    }

    /// What is shown, and what waits, when the texture that has waited longest has been released.
    pub open spec fn without_oldest(self) -> TextureState {
        if self.garbage.len() > 0 {
            TextureState { garbage: self.garbage.skip(1), ..self }
        } else {
            self
        }
    }

    /// What is shown, and what waits, when the texture has been replaced by one that was made for a
    /// picture.
    pub open spec fn replaced(self, new_id: u64, picture: PictureValue) -> TextureState {
        TextureState {
            id: new_id,
            format: TextureFormat::Rgba8Unorm,
            picture,
            garbage: self.garbage.push(self.id),
        }
    }
}

/// A texture can be replaced exactly while fewer than eight wait to be released. The new one is
/// shown with its picture, and the old one waits behind the others; none of those is lost or comes
/// out of turn.
pub proof fn law_texture_is_replaced(state: TextureState, new_id: u64, picture: PictureValue)
    ensures
        state.has_room() <==> state.garbage.len() < 8,
        ({
            let after = state.replaced(new_id, picture);
            &&& after.id == new_id
            &&& after.picture == picture
            &&& after.format == TextureFormat::Rgba8Unorm
            &&& after.garbage.len() == state.garbage.len() + 1
            &&& after.garbage[after.garbage.len() - 1] == state.id
            &&& forall|i: int|
                0 <= i < state.garbage.len() ==> (#[trigger] after.garbage[i]) == state.garbage[i]
        }),
{
}

/// Textures are released in the order in which they were replaced, each once, and what is shown is
/// never released: one that has just been replaced comes after all that waited before it.
pub proof fn law_textures_are_released_in_order(
    state: TextureState,
    new_id: u64,
    picture: PictureValue,
)
    ensures
        ({
            let after = state.replaced(new_id, picture);
            &&& state.oldest() is None ==> after.oldest() == Some(state.id)
                && after.without_oldest().oldest() is None
            &&& state.oldest() is Some ==> after.oldest() == state.oldest()
                && after.without_oldest().garbage == state.without_oldest().garbage.push(state.id)
            &&& after.without_oldest().id == new_id && after.without_oldest().picture == picture
            &&& state.oldest() is Some ==> state.without_oldest().garbage.len() == state.garbage.len()
                - 1
            &&& state.oldest() is None ==> state.without_oldest() == state
            &&& state.garbage.len() == 8 ==> !state.has_room() && state.without_oldest().has_room()
        }),
{
    let after = state.replaced(new_id, picture);
    if state.garbage.len() > 0 {
        assert(after.without_oldest().garbage =~= state.without_oldest().garbage.push(state.id));
    }
}

impl PresentationTexture {
    /// Shows a first texture, which was made for a picture and is known by `id`.
    pub fn new(id: u64, picture: Picture) -> (texture: PresentationTexture)
        ensures
            texture@ == (TextureState {
                id,
                format: TextureFormat::Rgba8Unorm,
                picture: picture@,
                garbage: Seq::empty(),
            }),
    {
        PresentationTexture {
            id,
            format: TextureFormat::Rgba8Unorm,
            main_color_image: picture,
            garbage: VecDeque::new(),
        }
    }

    /// The texture that is made for a picture: it has the size of the picture, and holds its
    /// pixels.
    pub fn upload<'a>(picture: &'a Picture) -> (upload: TextureUpload<'a>)
        requires
            4 * picture.width <= u32::MAX,
        ensures
            upload.width == picture.width,
            upload.height == picture.height,
            upload.format == TextureFormat::Rgba8Unorm,
            upload.bytes_per_row == 4 * picture.width,
            upload.pixels@ == picture.rgba@,
            picture@.wf() ==> upload.pixels@.len() == upload.bytes_per_row * upload.height,
            upload.bytes_per_row == components(upload.format) * component_bits(upload.format) / 8
                * upload.width,
    {
        TextureUpload {
            width: picture.width,
            height: picture.height,
            format: TextureFormat::Rgba8Unorm,
            bytes_per_row: picture.width * 4,
            pixels: picture.rgba.as_slice(),
        }
    }

    /// Shows a new texture, which was made for a picture and is known by `new_id`; the old one
    /// waits to be released. There must be room for it to wait; otherwise nothing changes, and the
    /// picture is given back.
    pub fn update_video_texture(&mut self, new_id: u64, picture: Picture) -> (updated: Result<
        (),
        Picture,
    >)
        ensures
            match updated {
                Ok(_) => {
                    &&& old(self)@.has_room()
                    &&& final(self)@ == old(self)@.replaced(new_id, picture@)
                },
                Err(given_back) => {
                    &&& !old(self)@.has_room()
                    &&& given_back@ == picture@
                    &&& final(self)@ == old(self)@
                },
            },
    {
        if self.garbage.len() >= GARBAGE_LIMIT {
            return Err(picture);
        }
        let old_id = self.id;
        self.garbage.push_back(old_id);
        self.id = new_id;
        self.format = TextureFormat::Rgba8Unorm;
        self.main_color_image = picture;
        Ok(())
    }

    /// Tells which texture is to be released now: the one that has waited longest.
    pub fn release_garbage_texture(&mut self) -> (released: Option<u64>)
        ensures
            match released {
                Some(id) => old(self)@ == (TextureState {
                    garbage: seq![id] + final(self)@.garbage,
                    ..final(self)@
                }),
                None => old(self)@.garbage.len() == 0 && final(self)@ == old(self)@,
            },
            released == old(self)@.oldest(),
            final(self)@ == old(self)@.without_oldest(),
    {
        let ghost before = self.garbage@;
        let released = self.garbage.pop_front();
        proof {
            if let Some(id) = released {
                assert(before =~= seq![id] + self.garbage@);
                assert(self.garbage@ =~= before.skip(1));
            }
        }
        released
    }
}

/// A window is opened exactly where nothing is missing; else the part that is told is missing, and
/// all that come before it are there.
pub proof fn law_missing_part(parts: AppParts, has_background: bool)
    ensures
        ({
            let missing = missing_part(parts, has_background);
            let drawn = parts.runtime && has_background && parts.media_engine && parts.render_state;
            &&& missing is None <==> drawn && parts.transcoder && parts.audio_player
                && parts.transcriber
            &&& missing == Some(OpenError::Runtime) <==> !parts.runtime
            &&& missing == Some(OpenError::Background) <==> parts.runtime && !has_background
            &&& missing == Some(OpenError::MediaEngine) <==> parts.runtime && has_background
                && !parts.media_engine
            &&& missing == Some(OpenError::RenderState) <==> parts.runtime && has_background
                && parts.media_engine && !parts.render_state
            &&& missing == Some(OpenError::Transcoder) <==> drawn && !parts.transcoder
            &&& missing == Some(OpenError::AudioPlayer) <==> drawn && parts.transcoder
                && !parts.audio_player
            &&& missing == Some(OpenError::Transcriber) <==> drawn && parts.transcoder
                && parts.audio_player && !parts.transcriber
        }),
{
}

/// A window that has just been opened shows its background; nothing is paused, live or being
/// transcribed, no tip is shown, and both clocks stand at the start.
pub proof fn law_first_state(background: PictureValue)
    ensures
        ({
            let state = first_state(background);
            &&& state.background == background
            &&& !state.ui_flags.pause_flag && !state.ui_flags.tip_window_flag
                && !state.ui_flags.live_mode && !state.ui_flags.visible_flag
                && !state.ui_flags.theme_flag
            &&& state.current_main_stream_timestamp == 0 && state.current_video_timestamp == 0
            &&& state.used_model == UsedModel::NoModel && !state.is_kept_awake
            &&& state.path.len() == 0
        }),
{
}

/// A change to another source pauses the player and sets both clocks back. What was chosen before
/// stays.
pub proof fn law_reset_begins(state: AppState)
    ensures
        ({
            let begun = reset_begun(state);
            &&& begun.ui_flags.pause_flag
            &&& begun.current_main_stream_timestamp == 0 && begun.current_video_timestamp == 0
            &&& begun.ui_flags.tip_window_flag == state.ui_flags.tip_window_flag
                && begun.ui_flags.live_mode == state.ui_flags.live_mode && begun.ui_flags.visible_flag
                == state.ui_flags.visible_flag
            &&& begun.used_model == state.used_model && begun.path == state.path
                && begun.tip_window_msg == state.tip_window_msg && begun.background
                == state.background
        }),
        first_stage(true) == ResetStage::StopPresentTasks,
        first_stage(false) == ResetStage::ResetInput,
{
}

/// A tip opens its window and says which stage failed and, after that, how it was reported. Nothing
/// else changes. Different stages are told apart.
pub proof fn law_tip_says_what_failed(
    state: AppState,
    error: ResetError,
    other: ResetError,
    report: Seq<char>,
)
    ensures
        ({
            let shown = with_tip(state, error, report);
            let start = tip_start(error);
            &&& shown.ui_flags.tip_window_flag
            &&& shown.tip_window_msg.len() == start.len() + report.len()
            &&& shown.tip_window_msg.take(start.len() as int) == start
            &&& shown.tip_window_msg.skip(start.len() as int) == report
            &&& shown.ui_flags.pause_flag == state.ui_flags.pause_flag
            &&& shown.current_main_stream_timestamp == state.current_main_stream_timestamp
            &&& shown.path == state.path && shown.used_model == state.used_model && shown.background
                == state.background
        }),
        tip_start(error) == tip_start(other) ==> error == other,
{
    let start = tip_start(error);
    let message = start + report;
    assert(message.take(start.len() as int) =~= start);
    assert(message.skip(start.len() as int) =~= report);
    reveal_strlit("stop_present_tasks error:");
    reveal_strlit("reset_input error:");
    reveal_strlit("update_video_texture error:");
}

/// Where every stage succeeds, the new source is opened, its streams are read, its picture is
/// shown, the texture is replaced and the tasks are started, one after the other, and then it is
/// played; tasks of an old source are stopped before.
pub proof fn law_success_plays_source(successes: Seq<bool>)
    requires
        forall|i: int| 0 <= i < successes.len() ==> #[trigger] successes[i],
    ensures
        successes.len() == 0 ==> stages_after(first_stage(false), successes) == ResetStage::ResetInput,
        successes.len() == 1 ==> stages_after(first_stage(false), successes) == ResetStage::ReadInfo
            && stages_after(first_stage(true), successes) == ResetStage::ResetInput,
        successes.len() == 2 ==> stages_after(first_stage(false), successes)
            == ResetStage::ShowPicture,
        successes.len() == 3 ==> stages_after(first_stage(false), successes)
            == ResetStage::UpdateVideoTexture,
        successes.len() == 4 ==> stages_after(first_stage(false), successes)
            == ResetStage::SpawnPresentTasks,
        successes.len() >= 5 ==> stages_after(first_stage(false), successes) == ResetStage::Done,
        successes.len() == 5 ==> stages_after(first_stage(true), successes)
            == ResetStage::SpawnPresentTasks,
        successes.len() >= 6 ==> stages_after(first_stage(true), successes) == ResetStage::Done,
    decreases successes.len(),
{
    if successes.len() > 6 {
        law_success_plays_source(successes.drop_last());
    } else {
        reveal_with_fuel(stages_after, 8);
    }
}

/// A stage that fails is named by the failure. A source that tells nothing of its streams is given
/// up without a word. That the first picture cannot be made stops nothing.
pub proof fn law_failed_stage_is_named(stage: ResetStage)
    ensures
        stage_after(ResetStage::StopPresentTasks, false) == ResetStage::Failed(
            ResetError::StopPresentTasks,
        ),
        stage_after(ResetStage::ResetInput, false) == ResetStage::Failed(ResetError::ResetInput),
        stage_after(ResetStage::UpdateVideoTexture, false) == ResetStage::Failed(
            ResetError::UpdateVideoTexture,
        ),
        stage_after(ResetStage::ReadInfo, false) == ResetStage::Abandoned,
        stage_after(ResetStage::ShowPicture, false) == stage_after(ResetStage::ShowPicture, true),
        !(stage is Failed) ==> !(stage_after(stage, true) is Failed),
{
}

/// A cover that can be decoded is shown, made to fit for the video as any picture is, unless it has
/// more than eight bits for each colour: then it is made to fit first, where it has another size
/// than the video. A source without a cover, or with one that cannot be decoded, shows none, and
/// none of these is too large.
pub proof fn law_cover_is_shown(
    bytes: Seq<u8>,
    video_rect: (u32, u32),
    pixel_bits: u16,
    channels: u8,
)
    requires
        colour_layout(bytes) == Some((pixel_bits, channels)),
    ensures
        presented_cover(None, video_rect) is None && !cover_too_large(None, video_rect),
        decoded(bytes) is None ==> presented_cover(Some(bytes), video_rect) is None && !cover_too_large(
            Some(bytes),
            video_rect,
        ),
        decoded(bytes) is Some ==> {
            let (width, height, rgba) = decoded(bytes).unwrap();
            let picture = PictureValue { width, height, rgba };
            let deep = resized_deep(bytes, video_rect.0, video_rect.1);
            &&& presented_cover(Some(bytes), video_rect) is Some
            &&& pixel_bits <= 8 * channels || video_rect.0 == 0 || (width, height) == video_rect
                ==> presented_cover(Some(bytes), video_rect) == Some(
                premultiplied(fitted(picture, video_rect)),
            )
            &&& pixel_bits > 8 * channels && video_rect.0 != 0 && (width, height) != video_rect
                ==> presented_cover(Some(bytes), video_rect) == Some(
                premultiplied(PictureValue { width: deep.0, height: deep.1, rgba: deep.2 }),
            )
            &&& width <= 8192 && height <= 8192 && video_rect.0 <= 8192 && video_rect.1 <= 8192
                ==> !cover_too_large(Some(bytes), video_rect)
        },
{
    if let Some((width, height, rgba)) = decoded(bytes) {
        if width <= 8192 && height <= 8192 && video_rect.0 <= 8192 && video_rect.1 <= 8192 {
            law_pictures_fit(width, height, video_rect, 16);
        }
    }
}

} // verus!
