//! The bar with the information texts and the buttons that open files and lists.
use vstd::prelude::*;

use crate::appui::SourceChoice;
use crate::clock::{local_date_time_text, DateTime};
#[allow(unused_imports)]
use crate::clock::{date_time_text, digit};

verus! {

/// What the bar shows.
#[derive(Debug)]
pub struct HeadbarUI {
    pub fps_text_str: String,
    pub playlist_window_flag: bool,
    pub internet_list_window_flag: bool,
}

/// The mathematical value of a `HeadbarUI`.
pub ghost struct HeadState {
    pub fps_text: Seq<char>,
    pub playlist_window: bool,
    pub internet_list_window: bool,
}

impl View for HeadbarUI {
    type V = HeadState;

    open spec fn view(&self) -> HeadState {
        HeadState {
            fps_text: self.fps_text_str@,
            playlist_window: self.playlist_window_flag,
            internet_list_window: self.internet_list_window_flag,
        }
    }
}

/// The decimal digits of a number.
pub open spec fn digits_of(n: nat) -> Seq<char>
    decreases n,
{
    if n < 10 {
        seq![digit(n as int)]
    } else {
        digits_of(n / 10).push(digit((n % 10) as int))
    }
}

/// How a number is written.
pub open spec fn number_text(n: int) -> Seq<char> {
    if n < 0 {
        seq!['-'] + digits_of((-n) as nat)
    } else {
        digits_of(n as nat)
    }
}

/// Writes one digit.
fn write_digit(d: u32) -> (text: &'static str)
    requires
        d < 10,
    ensures
        text@ == seq![digit(d as int)],
{
    proof {
        reveal_strlit("0");
        reveal_strlit("1");
        reveal_strlit("2");
        reveal_strlit("3");
        reveal_strlit("4");
        reveal_strlit("5");
        reveal_strlit("6");
        reveal_strlit("7");
        reveal_strlit("8");
        reveal_strlit("9");
    }
    let text = match d {
        0 => "0",
        1 => "1",
        2 => "2",
        3 => "3",
        4 => "4",
        5 => "5",
        6 => "6",
        7 => "7",
        8 => "8",
        _ => "9",
    };
    assert(text@ =~= seq![digit(d as int)]);
    text
}

/// Writes the digits of a number.
fn write_digits(n: u32) -> (text: String)
    ensures
        text@ == digits_of(n as nat),
    decreases n,
{
    if n < 10 {
        write_digit(n).to_owned()
    } else {
        let mut text = write_digits(n / 10);
        text.append(write_digit(n % 10));
        assert(text@ =~= digits_of(n as nat));
        text
    }
}

/// Writes a number.
fn write_number(n: i32) -> (text: String)
    ensures
        text@ == number_text(n as int),
{
    if n < 0 {
        let mut text = "-".to_owned();
        proof {
            reveal_strlit("-");
        }
        text.append(write_digits((-(n as i64)) as u32).as_str());
        assert(text@ =~= number_text(n as int));
        text
    } else {
        write_digits(n as u32)
    }
}

/// How the frames a second are shown.
pub open spec fn fps_text(fps: i32) -> Seq<char> {
    "fps:"@ + number_text(fps as int)
}

/// How the date and the time are shown, if they are known.
pub open spec fn info_text(now: Option<DateTime>) -> Seq<char> {
    "date-time："@ + (match now {
        Some(at) => date_time_text(at),
        None => Seq::empty(),
    })
}

/// The date and the time are shown behind a fixed word, which stands alone where they are not
/// known.
pub proof fn law_info_text(at: DateTime)
    ensures
        info_text(None) == "date-time："@,
        info_text(Some(at)).take("date-time："@.len() as int) == "date-time："@,
        info_text(Some(at)).skip("date-time："@.len() as int) == date_time_text(at),
{
    assert(info_text(None) =~= "date-time："@);
    assert(info_text(Some(at)).take("date-time："@.len() as int) =~= "date-time："@);
    assert(info_text(Some(at)).skip("date-time："@.len() as int) =~= date_time_text(at));
}

/// Whether what plays is live after a file was chosen, or none was.
pub open spec fn stays_live(live_mode: bool, is_chosen: bool, path_is_text: bool) -> bool {
    live_mode && !(is_chosen && path_is_text)
}

/// Whether the frames a second are shown anew.
pub open spec fn is_time_for_fps(elapsed_secs: Option<u64>) -> bool {
    elapsed_secs is Some && elapsed_secs.unwrap() > 0
}

impl HeadState {
    /// The bar when the frames a second have been looked at.
    pub open spec fn with_fps(self, elapsed_secs: Option<u64>, fps: i32) -> HeadState {
        if is_time_for_fps(elapsed_secs) {
            HeadState { fps_text: fps_text(fps), ..self }
        } else {
            self
        }
    }

    /// The bar when the button of the playlist was clicked, or not.
    pub open spec fn playlist_clicked(self, clicked: bool) -> HeadState {
        HeadState { playlist_window: self.playlist_window != clicked, ..self }
    }

    /// The bar when the button of what is on the net was clicked, or not.
    pub open spec fn internet_list_clicked(self, clicked: bool) -> HeadState {
        HeadState { internet_list_window: self.internet_list_window != clicked, ..self }
    }
}

/// A file that was chosen, and whose path can be shown, is not live; where none was chosen, what
/// plays stays what it is.
pub proof fn law_files_are_not_live(live_mode: bool, path_is_text: bool)
    ensures
        !stays_live(live_mode, true, true),
        stays_live(live_mode, false, path_is_text) == live_mode,
        stays_live(live_mode, true, false) == live_mode,
{
}

/// The frames a second are shown anew once a whole second has gone by, and not before; where the
/// clock has gone back they stay.
pub proof fn law_fps_once_a_second(state: HeadState, secs: u64, fps: i32)
    ensures
        secs >= 1 ==> state.with_fps(Some(secs), fps).fps_text == fps_text(fps),
        state.with_fps(Some(0), fps) == state,
        state.with_fps(None, fps) == state,
        state.with_fps(Some(secs), fps).playlist_window == state.playlist_window,
        state.with_fps(Some(secs), fps).internet_list_window == state.internet_list_window,
{
}

/// A click opens a window that is closed and closes one that is open, and two clicks leave it as it
/// was. Each button has its own window.
pub proof fn law_lists_open_and_close(state: HeadState)
    ensures
        state.playlist_clicked(true).playlist_window == !state.playlist_window,
        state.playlist_clicked(true).playlist_clicked(true) == state,
        state.playlist_clicked(false) == state,
        state.playlist_clicked(true).internet_list_window == state.internet_list_window,
        state.internet_list_clicked(true).internet_list_window == !state.internet_list_window,
        state.internet_list_clicked(true).internet_list_clicked(true) == state,
        state.internet_list_clicked(false) == state,
        state.internet_list_clicked(true).playlist_window == state.playlist_window,
{
}

impl HeadbarUI {
    /// Makes a bar that shows no frames yet, with both windows closed.
    pub fn new() -> (bar: HeadbarUI)
        ensures
            bar@ == (HeadState {
                fps_text: Seq::empty(),
                playlist_window: false,
                internet_list_window: false,
            }),
    {
        HeadbarUI {
            fps_text_str: String::new(),
            playlist_window_flag: false,
            internet_list_window_flag: false,
        }
    }

    /// What is played next: the file that was chosen, if one was. It is not a live source if its
    /// path can be shown, as `path_is_text` says.
    pub fn paint_file_btn<P>(chosen: Option<P>, path_is_text: bool, live_mode: bool) -> (choice:
        SourceChoice<P>)
        ensures
            choice.path == chosen,
            choice.live_mode == stays_live(live_mode, chosen is Some, path_is_text),
    {
        let is_live = match &chosen {
            Some(_) => live_mode && !path_is_text,
            None => live_mode,
        };
        SourceChoice { path: chosen, live_mode: is_live }
    }

    /// Shows the frames a second, at most once a second, and tells whether they are shown anew.
    /// `elapsed_secs` are the whole seconds since they were shown last, if the clock has not gone
    /// back.
    pub fn update_fps(&mut self, elapsed_secs: Option<u64>, fps: i32) -> (updated: bool)
        ensures
            updated == is_time_for_fps(elapsed_secs),
            final(self)@ == old(self)@.with_fps(elapsed_secs, fps),
    {
        match elapsed_secs {
            Some(secs) => if secs > 0 {
                let mut text = "fps:".to_owned();
                text.append(write_number(fps).as_str());
                self.fps_text_str = text;
                true
            } else {
                false
            },
            None => false,
        }
    }

    /// The date and the time as they are shown, if the local time is known.
    pub fn paint_frame_info_text(now: Option<DateTime>) -> (text: String)
        requires
            now is Some ==> now.unwrap().is_valid(),
        ensures
            text@ == info_text(now),
    {
        let mut text = "date-time：".to_owned();
        if let Some(at) = now {
            if let Some(shown) = local_date_time_text(at) {
                text.append(shown.as_str());
            }
        } else {
            assert(text@ + Seq::<char>::empty() =~= text@);
        }
        text
    }

    /// Opens or closes the window of the playlist, if its button was clicked, and tells whether it
    /// is shown.
    pub fn paint_playlist_button(&mut self, clicked: bool) -> (shown: bool)
        ensures
            shown == final(self)@.playlist_window,
            final(self)@ == old(self)@.playlist_clicked(clicked),
    {
        if clicked {
            self.playlist_window_flag = !self.playlist_window_flag;
        }
        self.playlist_window_flag
    }

    /// Opens or closes the window of what is on the net, if its button was clicked, and tells
    /// whether it is shown.
    pub fn paint_internet_list_button(&mut self, clicked: bool) -> (shown: bool)
        ensures
            shown == final(self)@.internet_list_window,
            final(self)@ == old(self)@.internet_list_clicked(clicked),
    {
        if clicked {
            self.internet_list_window_flag = !self.internet_list_window_flag;
        }
        self.internet_list_window_flag
    }
}

/// The number that some decimal digits make.
pub open spec fn number_of(digits: Seq<char>) -> int
    decreases digits.len(),
{
    if digits.len() == 0 {
        0
    } else {
        10 * number_of(digits.drop_last()) + (digits.last() as int - '0' as int)
    }
}

/// A number is read back from its digits. It is written with digits only, at least one, and without
/// a zero in front unless it is zero.
pub proof fn law_digits_are_read_back(n: nat)
    ensures
        number_of(digits_of(n)) == n,
        digits_of(n).len() >= 1,
        forall|i: int| 0 <= i < digits_of(n).len() ==> '0' <= #[trigger] digits_of(n)[i] <= '9',
        n > 0 ==> digits_of(n)[0] != '0',
        n == 0 ==> digits_of(n).len() == 1,
    decreases n,
{
    if n >= 10 {
        law_digits_are_read_back(n / 10);
        assert(digits_of(n).drop_last() =~= digits_of(n / 10));
        assert(digits_of(n).last() as int == 48 + n % 10);
    } else {
        assert(digits_of(n).drop_last() =~= Seq::<char>::empty());
        assert(number_of(digits_of(n).drop_last()) == 0);
        assert(digits_of(n).last() as int == 48 + n);
    }
}

/// The frames a second are shown as their number behind a fixed word, with a minus sign before the
/// digits of a number below zero. Different numbers are shown differently.
pub proof fn law_fps_are_read_back(fps: i32, other: i32)
    ensures
        fps_text(fps).take("fps:"@.len() as int) == "fps:"@,
        fps >= 0 ==> number_of(fps_text(fps).skip("fps:"@.len() as int)) == fps,
        fps < 0 ==> fps_text(fps)["fps:"@.len() as int] == '-' && number_of(
            fps_text(fps).skip("fps:"@.len() as int + 1),
        ) == -fps,
        fps_text(fps) == fps_text(other) ==> fps == other,
{
    lemma_fps(fps);
    lemma_fps(other);
}

proof fn lemma_fps(fps: i32)
    ensures
        fps_text(fps).take("fps:"@.len() as int) == "fps:"@,
        fps >= 0 ==> number_of(fps_text(fps).skip("fps:"@.len() as int)) == fps && fps_text(
            fps,
        )["fps:"@.len() as int] != '-',
        fps < 0 ==> fps_text(fps)["fps:"@.len() as int] == '-' && number_of(
            fps_text(fps).skip("fps:"@.len() as int + 1),
        ) == -fps,
{
    let text = fps_text(fps);
    let start = "fps:"@.len() as int;
    assert(text.take(start) =~= "fps:"@);
    if fps >= 0 {
        law_digits_are_read_back(fps as nat);
        assert(text.skip(start) =~= digits_of(fps as nat));
        assert(text[start] == digits_of(fps as nat)[0]);
    } else {
        law_digits_are_read_back((-fps) as nat);
        assert(text.skip(start + 1) =~= digits_of((-fps) as nat));
    }
}

} // verus!
