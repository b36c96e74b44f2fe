//! The subtitle.
use vstd::prelude::*;

verus! {

/// The subtitle that is shown, if any.
#[derive(Debug)]
pub struct CaptionUI {
    pub subtitle_str: Option<String>,
}

/// What is shown when a subtitle has come, or none has.
pub open spec fn after_text(shown: Option<Seq<char>>, came: Option<Seq<char>>) -> Option<Seq<char>> {
    match came {
        Some(text) => Some(text),
        None => shown,
    }
}

/// What is shown when time has gone by.
pub open spec fn after_time(shown: Option<Seq<char>>, is_over: bool) -> Option<Seq<char>> {
    if is_over {
        None
    } else {
        shown
    }
}

/// A subtitle is shown from when it comes until its time is over or another one comes.
pub proof fn law_subtitle_is_shown(shown: Option<Seq<char>>, text: Seq<char>, next: Seq<char>)
    ensures
        after_text(shown, Some(text)) == Some(text),
        after_time(after_text(shown, Some(text)), false) == Some(text),
        after_text(after_text(shown, Some(text)), None) == Some(text),
        after_text(after_text(shown, Some(text)), Some(next)) == Some(next),
        after_time(after_text(shown, Some(text)), true) is None,
        after_text(None, None) is None,
{
}

impl CaptionUI {
    /// The text that is shown.
    pub open spec fn shown(&self) -> Option<Seq<char>> {
        match self.subtitle_str {
            Some(text) => Some(text@),
            None => None,
        }
    }

    /// Makes a caption that shows nothing.
    pub fn new() -> (caption: CaptionUI)
        ensures
            caption.shown() is None,
    {
        CaptionUI { subtitle_str: None }
    }

    /// Takes a new subtitle, if one came, and tells whether its time starts now.
    pub fn receive(&mut self, text: Option<String>) -> (restart_clock: bool)
        ensures
            restart_clock == (text is Some),
            final(self).shown() == after_text(
                old(self).shown(),
                match text {
                    Some(text) => Some(text@),
                    None => None,
                },
            ),
    {
        match text {
            Some(text) => {
                self.subtitle_str = Some(text);
                true
            },
            None => false,
        }
    }

    /// Removes a subtitle that has been shown long enough.
    pub fn paint_subtitle(&mut self, is_over: bool)
        ensures
            final(self).shown() == after_time(old(self).shown(), is_over),
    {
        if is_over {
            self.subtitle_str = None;
        }
    }
}

} // verus!
