//! The bar with the progress slider and the buttons for subtitles, volume and full screen.
use vstd::prelude::*;

use crate::arith::{can_scale, scale};
#[allow(unused_imports)]
use crate::arith::scale_fits;
use crate::clock::{clock_of_seconds, clock_text, ClockTime};
#[allow(unused_imports)]
use crate::clock::{
    clock_of, law_clock_tells_seconds, law_no_time_after_a_day, law_time_text_len, time_text,
};
use crate::decode::TinyDecoder;
#[allow(unused_imports)]
use crate::decode::{seconds_of, DecoderState, Rational};
use crate::whispercpp_transcriber::UsedModel;

verus! {

/// What the bar shows.
#[derive(Debug)]
pub struct ControlbarUI {
    pub time_text: String,
    pub play_time: ClockTime,
    pub show_subtitle_options_flag: bool,
    pub show_volume_slider_flag: bool,
    pub fullscreen_flag: bool,
}

/// The mathematical value of a `ControlbarUI`.
pub ghost struct BarState {
    pub time_text: Seq<char>,
    pub play_time: ClockTime,
    pub show_subtitle_options: bool,
    pub show_volume_slider: bool,
    pub fullscreen: bool,
}

impl View for ControlbarUI {
    type V = BarState;

    open spec fn view(&self) -> BarState {
        BarState {
            time_text: self.time_text@,
            play_time: self.play_time,
            show_subtitle_options: self.show_subtitle_options_flag,
            show_volume_slider: self.show_volume_slider_flag,
            fullscreen: self.fullscreen_flag,
        }
    }
}

/// The time of the start.
pub open spec fn start_time() -> ClockTime {
    ClockTime { hour: 0, minute: 0, second: 0 }
}

/// Whether the clock of a source runs: there is a source, and it is not live.
pub open spec fn clock_runs(has_source: bool, live_mode: bool) -> bool {
    has_source && !live_mode
}

/// Where the progress slider begins, where it stands, and where it ends.
#[derive(Debug, Clone, Copy, PartialEq, Eq, Structural)]
pub struct SliderRange {
    pub first: i64,
    pub shown: i64,
    pub last: i64,
}

/// One of the things that follow when the slider has been dragged.
#[derive(Debug, Clone, Copy, PartialEq, Eq, Structural)]
pub enum SliderStep {
    /// The source goes on from a place.
    Seek {
        ts: i64,
    },
    /// The sound that waits to be played is dropped.
    ClearSourceQueue,
    /// The sound is played.
    Play,
}

/// Where the slider begins and ends, and where it stands.
pub open spec fn slider(current_ts: i64, end_ts: i64, live_mode: bool) -> SliderRange {
    if live_mode {
        SliderRange { first: 0, shown: 0, last: 0 }
    } else {
        SliderRange { first: 0, shown: current_ts, last: end_ts }
    }
}

/// What is done when the slider has been let go at a place, or has not.
pub open spec fn slider_steps(released: Option<i64>) -> Seq<SliderStep> {
    match released {
        Some(ts) => seq![SliderStep::Seek { ts }, SliderStep::ClearSourceQueue, SliderStep::Play],
        None => Seq::empty(),
    }
}

impl BarState {
    /// The bar when its clock has been brought up to date, where the clock runs.
    pub open spec fn at_time(self, base: Rational, play_ts: i64, runs: bool) -> BarState {
        let time = clock_of(seconds_of(base, play_ts as int));
        if runs && time is Some {
            BarState { play_time: time.unwrap(), ..self }
        } else {
            self
        }
    }

    /// The bar when the button of the subtitles was clicked.
    pub open spec fn caption_clicked(self) -> BarState {
        BarState { show_subtitle_options: !self.show_subtitle_options, ..self }
    }

    /// The bar when the button of the volume was clicked.
    pub open spec fn volume_clicked(self) -> BarState {
        BarState { show_volume_slider: !self.show_volume_slider, ..self }
    }

    /// The bar when the button of the full screen was clicked.
    pub open spec fn fullscreen_clicked(self) -> BarState {
        BarState { fullscreen: !self.fullscreen, ..self }
    }

    /// The bar when it shows its time as text, and the end after it where that can be read.
    pub open spec fn with_text(self, end: Option<Seq<char>>) -> BarState {
        BarState {
            time_text: match end {
                Some(end) => time_text(self.play_time).push('|') + end,
                None => time_text(self.play_time),
            },
            ..self
        }
    }
}

/// Each button changes its own part of the bar, and nothing else; two clicks leave it as it was.
pub proof fn law_buttons_toggle(state: BarState)
    ensures
        state.caption_clicked().show_subtitle_options == !state.show_subtitle_options,
        state.caption_clicked().caption_clicked() == state,
        state.caption_clicked().show_volume_slider == state.show_volume_slider
            && state.caption_clicked().fullscreen == state.fullscreen,
        state.volume_clicked().show_volume_slider == !state.show_volume_slider,
        state.volume_clicked().volume_clicked() == state,
        state.volume_clicked().show_subtitle_options == state.show_subtitle_options
            && state.volume_clicked().fullscreen == state.fullscreen,
        state.fullscreen_clicked().fullscreen == !state.fullscreen,
        state.fullscreen_clicked().fullscreen_clicked() == state,
        state.fullscreen_clicked().show_volume_slider == state.show_volume_slider
            && state.fullscreen_clicked().show_subtitle_options == state.show_subtitle_options,
{
}

/// For a source that is not live the slider shows how far it has been played, between its start and
/// its end; for a live one it stands still at the start.
pub proof fn law_slider(current_ts: i64, end_ts: i64, live_mode: bool)
    ensures
        slider(current_ts, end_ts, live_mode).first == 0,
        slider(current_ts, end_ts, false).shown == current_ts,
        slider(current_ts, end_ts, false).last == end_ts,
        slider(current_ts, end_ts, true).shown == 0 && slider(current_ts, end_ts, true).last == 0,
        0 <= current_ts <= end_ts ==> slider(current_ts, end_ts, live_mode).first <= slider(
            current_ts,
            end_ts,
            live_mode,
        ).shown <= slider(current_ts, end_ts, live_mode).last,
{
}

/// When the slider is let go, the source is moved to just that place before what was queued is
/// dropped, and only then is it played. Nothing is done before it is let go.
pub proof fn law_slider_moves_source(ts: i64)
    ensures
        slider_steps(Some(ts)).len() == 3,
        slider_steps(Some(ts))[0] is Seek && slider_steps(Some(ts))[0]->ts == ts,
        slider_steps(Some(ts))[1] == SliderStep::ClearSourceQueue,
        slider_steps(Some(ts))[2] == SliderStep::Play,
        slider_steps(None).len() == 0,
{
}

/// While the clock runs, the bar tells the whole seconds that have been played, as long as they are
/// less than a day; it shows them in its first eight characters. Where the end can be read, it
/// follows after a bar. A clock that does not run stands still, and nothing but the clock changes.
pub proof fn law_bar_tells_time(
    state: BarState,
    base: Rational,
    play_ts: i64,
    end: Seq<char>,
)
    requires
        0 <= seconds_of(base, play_ts as int) < 86400,
    ensures
        ({
            let now = state.at_time(base, play_ts, true);
            let text = now.with_text(Some(end)).time_text;
            &&& now.play_time.hour * 3600 + now.play_time.minute * 60 + now.play_time.second
                == seconds_of(base, play_ts as int)
            &&& text.len() == 9 + end.len()
            &&& text.take(8) == time_text(now.play_time)
            &&& text[8] == '|'
            &&& text.skip(9) == end
            &&& now.with_text(None).time_text == time_text(now.play_time)
            &&& now.time_text == state.time_text && now.fullscreen == state.fullscreen
            &&& now.with_text(Some(end)).play_time == now.play_time
        }),
        state.at_time(base, play_ts, false) == state,
        start_time().hour == 0 && start_time().minute == 0 && start_time().second == 0,
        clock_runs(true, false) && !clock_runs(true, true) && !clock_runs(false, false)
            && !clock_runs(false, true),
{
    law_clock_tells_seconds(seconds_of(base, play_ts as int));
    let now = state.at_time(base, play_ts, true);
    let text = now.with_text(Some(end)).time_text;
    law_time_text_len(now.play_time);
    assert(text.take(8) =~= time_text(now.play_time));
    assert(text.skip(9) =~= end);
}

/// A time that is no time of day leaves the bar as it was.
pub proof fn law_bar_keeps_last_time(state: BarState, base: Rational, play_ts: i64, runs: bool)
    requires
        86400 <= seconds_of(base, play_ts as int) < 256 * 3600,
    ensures
        state.at_time(base, play_ts, runs) == state,
{
    law_no_time_after_a_day(seconds_of(base, play_ts as int));
}

impl ControlbarUI {
    /// Whether the time that is shown is one that a day has.
    pub open spec fn inv(&self) -> bool {
        self.play_time.is_valid()
    }

    /// Makes a bar that shows no time yet.
    pub fn new() -> (bar: ControlbarUI)
        ensures
            bar.inv(),
            bar@ == (BarState {
                time_text: Seq::empty(),
                play_time: start_time(),
                show_subtitle_options: false,
                show_volume_slider: false,
                fullscreen: false,
            }),
    {
        ControlbarUI {
            time_text: String::new(),
            play_time: ClockTime { hour: 0, minute: 0, second: 0 },
            show_subtitle_options_flag: false,
            show_volume_slider_flag: false,
            fullscreen_flag: false,
        }
    }

    /// Where the slider begins and ends, and where it stands: from the start of the source to its
    /// end, at the time that is played. For a live source it stands still.
    pub fn slider_range(current_ts: i64, end_ts: i64, live_mode: bool) -> (range: SliderRange)
        ensures
            range == slider(current_ts, end_ts, live_mode),
    {
        if live_mode {
            SliderRange { first: 0, shown: 0, last: 0 }
        } else {
            SliderRange { first: 0, shown: current_ts, last: end_ts }
        }
    }

    /// What is done, in this order, when the slider has been dragged and let go at a place. Until
    /// the source plays from there, the place that is shown stays what it was.
    pub fn paint_progress_slider(released: Option<i64>) -> (steps: Vec<SliderStep>)
        ensures
            steps@ == slider_steps(released),
    {
        let mut steps: Vec<SliderStep> = Vec::new();
        if let Some(ts) = released {
            steps.push(SliderStep::Seek { ts });
            steps.push(SliderStep::ClearSourceQueue);
            steps.push(SliderStep::Play);
        }
        steps
    }

    /// Shows or hides the choice of subtitles.
    pub fn click_caption_button(&mut self)
        ensures
            final(self)@ == old(self)@.caption_clicked(),
    {
        self.show_subtitle_options_flag = !self.show_subtitle_options_flag;
    }

    /// Shows or hides the slider of the volume.
    pub fn click_volume_button(&mut self)
        ensures
            final(self)@ == old(self)@.volume_clicked(),
    {
        self.show_volume_slider_flag = !self.show_volume_slider_flag;
    }

    /// Fills the screen or not, and tells which.
    pub fn click_fullscreen_button(&mut self) -> (fullscreen: bool)
        ensures
            fullscreen == final(self)@.fullscreen,
            final(self)@ == old(self)@.fullscreen_clicked(),
    {
        self.fullscreen_flag = !self.fullscreen_flag;
        self.fullscreen_flag
    }

    /// Decides whether the transcribing task is given notice when a language is clicked: only where
    /// one is to be transcribed.
    pub fn choose_model(clicked: UsedModel) -> (notify: bool)
        ensures
            notify == (clicked != UsedModel::NoModel),
    {
        match clicked {
            UsedModel::NoModel => false,
            _ => true,
        }
    }

    /// Shows a text as the time.
    pub fn set_time_text(&mut self, s: String)
        ensures
            final(self)@ == (BarState { time_text: s@, ..old(self)@ }),
    {
        self.time_text = s;
    }

    /// Whether `update_time` may be called on these values.
    pub fn can_update_time(
        decoder: &TinyDecoder,
        play_ts: i64,
        has_source: bool,
        live_mode: bool,
    ) -> (fits: bool)
        ensures
            fits == (clock_runs(has_source, live_mode) ==> scale_fits(
                play_ts as int,
                decoder@.main_base().numerator as int,
                decoder@.main_base().denominator as int,
            )),
    {
        if !has_source || live_mode {
            return true;
        }
        let base = decoder.main_time_base();
        can_scale(play_ts, base.numerator as i64, base.denominator as i64)
    }

    /// Brings the time up to date, given the timestamp of the main stream, and tells whether it is
    /// a time of day; where it is not, the time stays as it was. The clock of a live source stands
    /// still, and so does the clock without a source.
    pub fn update_time(
        &mut self,
        decoder: &TinyDecoder,
        play_ts: i64,
        has_source: bool,
        live_mode: bool,
    ) -> (shown: bool)
        requires
            old(self).inv(),
            clock_runs(has_source, live_mode) ==> scale_fits(
                play_ts as int,
                decoder@.main_base().numerator as int,
                decoder@.main_base().denominator as int,
            ),
        ensures
            final(self).inv(),
            final(self)@ == old(self)@.at_time(
                decoder@.main_base(),
                play_ts,
                clock_runs(has_source, live_mode),
            ),
            shown == (!clock_runs(has_source, live_mode) || clock_of(
                seconds_of(decoder@.main_base(), play_ts as int),
            ) is Some),
    {
        if !has_source || live_mode {
            return true;
        }
        let base = decoder.main_time_base();
        let seconds = scale(play_ts, base.numerator as i64, base.denominator as i64);
        match clock_of_seconds(seconds) {
            Some(time) => {
                self.play_time = time;
                true
            },
            None => false,
        }
    }

    /// Shows the time, and after it the end of the source where that can be read.
    pub fn update_time_text(&mut self, end_time: Option<&str>)
        requires
            old(self).inv(),
        ensures
            final(self).inv(),
            final(self)@ == old(self)@.with_text(
                match end_time {
                    Some(end) => Some(end@),
                    None => None,
                },
            ),
    {
        if let Some(mut now) = clock_text(self.play_time) {
            if let Some(end) = end_time {
                proof {
                    reveal_strlit("|");
                    assert("|"@ =~= seq!['|']);
                }
                now.append("|");
                now.append(end);
                assert(now@ =~= time_text(old(self)@.play_time).push('|') + end@);
            }
            self.set_time_text(now);
        }
    }
}

} // verus!
