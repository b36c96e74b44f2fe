//! The list of local media files.
use vstd::prelude::*;

use crate::appui::SourceChoice;
use crate::decode::{MediaType, StreamInfo, ATTACHED_PIC};
#[allow(unused_imports)]
use crate::headbar_ui::stays_live;
use crate::pictures::{load_picture, premultiply, Picture};
#[allow(unused_imports)]
use crate::pictures::{decoded, premultiplied};

verus! {

/// The shortest duration of a file that is listed, in microseconds.
pub const SHORTEST_DURATION: i64 = 5_000_000;

/// Why a file is not listed.
#[derive(Debug, Clone, Copy, PartialEq, Eq, Structural)]
pub enum CoverError {
    /// It is no media file, or too short.
    NotMedia,
    /// The picture that stands for a missing cover cannot be decoded.
    NoDefault,
}

/// Whether a stream holds a cover.
pub open spec fn is_cover(stream: StreamInfo) -> bool {
    stream.medium == MediaType::Video && stream.disposition == ATTACHED_PIC
}

/// Whether `found` is what is found when the cover of a file is looked for.
pub open spec fn is_found_cover(
    found: Result<Option<usize>, CoverError>,
    duration: Option<i64>,
    streams: Seq<StreamInfo>,
) -> bool {
    match duration {
        Some(duration) if duration >= SHORTEST_DURATION => match found {
            Ok(Some(index)) => exists|i: int|
                #![trigger streams[i]]
                0 <= i < streams.len() && is_cover(streams[i]) && streams[i].index == index && forall|
                    j: int,
                |
                    0 <= j < i ==> !is_cover(#[trigger] streams[j]),
            Ok(None) => forall|j: int|
                0 <= j < streams.len() ==> !is_cover(#[trigger] streams[j]),
            Err(_) => false,
        },
        _ => found == Err::<Option<usize>, CoverError>(CoverError::NotMedia),
    }
}

/// A file that can be opened and lasts five seconds or more is listed, with the first picture that
/// is attached to it, if there is one. Any other file is not.
pub proof fn law_first_cover_is_found(
    found: Result<Option<usize>, CoverError>,
    duration: Option<i64>,
    streams: Seq<StreamInfo>,
    i: int,
)
    requires
        is_found_cover(found, duration, streams),
    ensures
        found is Ok <==> duration is Some && duration.unwrap() >= 5_000_000,
        found is Ok && 0 <= i < streams.len() && streams[i].medium == MediaType::Video
            && streams[i].disposition == 1024 && (forall|j: int|
            0 <= j < i ==> (#[trigger] streams[j]).medium != MediaType::Video || streams[j].disposition
                != 1024) ==> found.unwrap() == Some(streams[i].index),
        found is Ok && (forall|j: int|
            0 <= j < streams.len() ==> (#[trigger] streams[j]).medium != MediaType::Video
                || streams[j].disposition != 1024) ==> found.unwrap() is None,
{
    if found is Ok && found.unwrap() is Some {
        let at = choose|at: int|
            #![trigger streams[at]]
            0 <= at < streams.len() && is_cover(streams[at]) && streams[at].index
                == found.unwrap().unwrap() && forall|j: int|
                0 <= j < at ==> !is_cover(#[trigger] streams[j]);
        if 0 <= i < streams.len() && is_cover(streams[i]) && at < i {
            assert(is_cover(streams[at]));
        }
    }
}

/// The bar that lets a folder be listed.
#[derive(Debug, Clone, Copy, PartialEq, Eq, Structural)]
pub struct PlayListControlbar;

/// The row that shows one file. Its path is whatever the system names files by.
#[derive(Debug)]
pub struct MediaDesPane<P> {
    pub name: String,
    pub path: P,
}

/// The list of what was found.
#[derive(Debug, Clone, Copy, PartialEq, Eq, Structural)]
pub struct DesList;

impl PlayListControlbar {
    /// Finds the first stream that holds a cover. The duration is that of the file in microseconds;
    /// it is nothing if the file cannot be opened.
    pub fn find_cover_stream(duration: Option<i64>, streams: &Vec<StreamInfo>) -> (found: Result<
        Option<usize>,
        CoverError,
    >)
        ensures
            is_found_cover(found, duration, streams@),
    {
        match duration {
            Some(duration) => if duration < SHORTEST_DURATION {
                return Err(CoverError::NotMedia);
            },
            None => {
                return Err(CoverError::NotMedia);
            },
        }
        let mut i: usize = 0;
        while i < streams.len()
            invariant
                duration is Some,
                duration.unwrap() >= SHORTEST_DURATION,
                i <= streams@.len(),
                forall|j: int| 0 <= j < i ==> !is_cover(#[trigger] streams@[j]),
            decreases streams@.len() - i,
        {
            let stream = streams[i];
            if let MediaType::Video = stream.medium {
                if stream.disposition == ATTACHED_PIC {
                    assert(is_cover(streams@[i as int]));
                    return Ok(Some(stream.index));
                }
            }
            i = i + 1;
        }
        Ok(None)
    }

    /// Takes the cover out of a packet, if it is there and can be decoded.
    pub fn cover_of_packet(stream_index: usize, cover_index: usize, data: Option<&[u8]>) -> (cover:
        Option<Picture>)
        ensures
            match cover {
                Some(picture) => stream_index == cover_index && data is Some && decoded(
                    data.unwrap()@,
                ) == Some((picture.width, picture.height, picture.rgba@)) && picture@.wf(),
                None => stream_index != cover_index || data is None || decoded(
                    data.unwrap()@,
                ) is None,
            },
    {
        if stream_index != cover_index {
            return None;
        }
        match data {
            Some(bytes) => load_picture(bytes),
            None => None,
        }
    }

    /// The cover that is shown: the one that was found, or else the picture that stands for it.
    pub fn load_file_cover(found: Option<Picture>, default_bytes: &[u8]) -> (cover: Result<
        Picture,
        CoverError,
    >)
        ensures
            match found {
                Some(picture) => cover is Ok && cover.unwrap()@ == picture@,
                None => match cover {
                    Ok(picture) => decoded(default_bytes@) == Some(
                        (picture.width, picture.height, picture.rgba@),
                    ) && picture@.wf(),
                    Err(e) => e == CoverError::NoDefault && decoded(default_bytes@) is None,
                },
            },
    {
        match found {
            Some(picture) => Ok(picture),
            None => match load_picture(default_bytes) {
                Some(picture) => Ok(picture),
                None => Err(CoverError::NoDefault),
            },
        }
    }

    /// The cover of a file as its texture holds it.
    pub fn load_cover_texture(cover: Picture) -> (shown: Picture)
        requires
            cover@.wf(),
        ensures
            shown@ == premultiplied(cover@),
            shown@.wf(),
    {
        premultiply(cover)
    }

    /// What is listed of an entry of a folder: a file whose name is text and whose cover could be
    /// loaded.
    pub fn scan_video_folder(
        is_file: bool,
        name: Option<String>,
        cover: Result<Picture, CoverError>,
    ) -> (listed: Option<(String, Picture)>)
        ensures
            match listed {
                Some((shown, picture)) => is_file && name is Some && cover is Ok && shown@
                    == name.unwrap()@ && picture@ == cover.unwrap()@,
                None => !is_file || name is None || cover is Err,
            },
    {
        if !is_file {
            return None;
        }
        match (name, cover) {
            (Some(name), Ok(picture)) => Some((name, picture)),
            _ => None,
        }
    }
}

impl<P> MediaDesPane<P> {
    /// What is played next: the file, if its name was clicked. A file is not a live source.
    pub fn ui(&self, clicked: bool, live_mode: bool) -> (choice: SourceChoice<&P>)
        ensures
            choice == (SourceChoice {
                path: if clicked {
                    Some(&self.path)
                } else {
                    None
                },
                live_mode: stays_live(live_mode, clicked, true),
            }),
    {
        if clicked {
            SourceChoice { path: Some(&self.path), live_mode: false }
        } else {
            SourceChoice { path: None, live_mode }
        }
    }
}

/// The column in which a file is shown.
pub open spec fn column_at(idx: int) -> int {
    idx % 2
}

/// The first file is shown on the left, and of two files that follow each other one is on the left
/// and one on the right.
pub proof fn law_columns_take_turns(idx: int)
    requires
        idx >= 0,
    ensures
        column_at(0) == 0,
        column_at(idx) == 0 || column_at(idx) == 1,
        column_at(idx + 1) == 1 - column_at(idx),
{
}

impl DesList {
    /// The column in which a file is shown: left and right by turns.
    pub fn column_of(idx: usize) -> (column: usize)
        ensures
            column == column_at(idx as int),
    {
        idx % 2
    }
}

/// A stream holds a cover exactly where it holds a picture that is only attached.
pub proof fn law_covers_are_attached_pictures(stream: StreamInfo)
    ensures
        is_cover(stream) <==> stream.medium == MediaType::Video && stream.disposition == 1024,
        is_cover(stream) ==> stream.has_cover() && !stream.has_video(),
        SHORTEST_DURATION == 5 * 1_000_000,
{
}

} // verus!
