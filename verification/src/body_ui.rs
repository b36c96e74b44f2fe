//! The middle of the window: the button that plays and pauses, and the bars of the sound.
use vstd::prelude::*;

verus! {

/// What is done when the player is paused or goes on.
#[derive(Debug, Clone, Copy, PartialEq, Eq, Structural)]
pub enum PlayPauseAction {
    /// Nothing was asked for.
    Leave,
    /// The sound pauses.
    Pause,
    /// The sound goes on, and the tasks that wait are given notice.
    Play,
}

/// What the button shows.
#[derive(Debug, Clone, Copy, PartialEq, Eq, Structural)]
pub enum ButtonImage {
    Play,
    Pause,
}

/// What the middle of the window shows.
#[derive(Debug, Clone, Copy, PartialEq, Eq, Structural)]
pub struct BodyUI {
    pub pause_flag: bool,
}

/// Whether the bars of the sound are shown.
pub open spec fn shows_bars(streams: Option<(bool, bool)>) -> bool {
    match streams {
        Some((has_audio, has_video)) => has_audio && !has_video,
        None => false,
    }
}

impl BodyUI {
    /// What becomes of the player when it is asked to pause or to go on, or is not asked.
    pub open spec fn after_asking(self, asked: bool) -> BodyUI {
        BodyUI { pause_flag: self.pause_flag != asked }
    }

    /// What is done with the sound when the player is asked to pause or to go on, or is not asked.
    pub open spec fn action(self, asked: bool) -> PlayPauseAction {
        if !asked {
            PlayPauseAction::Leave
        } else if self.pause_flag {
            PlayPauseAction::Play
        } else {
            PlayPauseAction::Pause
        }
    }

    /// What the button shows.
    pub open spec fn image(self, has_source: bool) -> Option<ButtonImage> {
        if !has_source {
            None
        } else if self.pause_flag {
            Some(ButtonImage::Play)
        } else {
            Some(ButtonImage::Pause)
        }
    }

    /// What the button shows: what a click would do. Without a source there is no button.
    pub fn button_image(&self, has_source: bool) -> (image: Option<ButtonImage>)
        ensures
            image == self.image(has_source),
    {
        if !has_source {
            None
        } else if self.pause_flag {
            Some(ButtonImage::Play)
        } else {
            Some(ButtonImage::Pause)
        }
    }

    /// Pauses the player or lets it go on, if there is a source and the button was clicked or the
    /// space bar released.
    pub fn paint_playpause_btn(&mut self, has_source: bool, clicked: bool, space_released: bool) -> (
    action: PlayPauseAction)
        ensures
            ({
                let asked = has_source && (clicked || space_released);
                &&& *final(self) == old(self).after_asking(asked)
                &&& action == old(self).action(asked)
            }),
    {
        if !has_source || !(clicked || space_released) {
            return PlayPauseAction::Leave;
        }
        self.pause_flag = !self.pause_flag;
        if self.pause_flag {
            PlayPauseAction::Pause
        } else {
            PlayPauseAction::Play
        }
    }

    /// Decides whether the bars of the sound are shown: for a source that has sound and no
    /// pictures. The flags say whether it has them; there are none when the source is gone.
    pub fn paint_mel_bars(streams: Option<(bool, bool)>) -> (shown: bool)
        ensures
            shown == shows_bars(streams),
    {
        match streams {
            Some((has_audio, has_video)) => has_audio && !has_video,
            None => false,
        }
    }
}

/// A player that is asked twice is as it was before.
pub proof fn law_pause_twice(body: BodyUI)
    ensures
        body.after_asking(true) != body,
        body.after_asking(true).after_asking(true) == body,
{
}

/// The sound does what the player does: it pauses when the player becomes paused, it goes on when
/// the player does, and it is left alone when nothing was asked for. The button shows what asking
/// would do.
pub proof fn law_sound_follows_button(body: BodyUI)
    ensures
        body.action(true) == PlayPauseAction::Pause <==> body.after_asking(true).pause_flag,
        body.action(true) == PlayPauseAction::Play <==> !body.after_asking(true).pause_flag,
        body.action(false) == PlayPauseAction::Leave,
        body.after_asking(false) == body,
        body.image(true) == Some(ButtonImage::Pause) <==> body.action(true) == PlayPauseAction::Pause,
        body.image(true) == Some(ButtonImage::Play) <==> body.action(true) == PlayPauseAction::Play,
        body.image(false) is None,
{
}

/// Bars stand in for pictures: they are shown for sound without pictures, and for nothing else.
pub proof fn law_bars_stand_in_for_pictures(has_audio: bool, has_video: bool)
    ensures
        shows_bars(Some((true, false))),
        shows_bars(Some((has_audio, true))) == false,
        shows_bars(Some((false, has_video))) == false,
        shows_bars(None) == false,
{
}

} // verus!
