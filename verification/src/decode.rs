//! Opening a media source, demuxing it, and decoding its streams.
use vstd::prelude::*;

use crate::arith::{can_scale, div_i64, scale};
#[allow(unused_imports)]
use crate::arith::{scale_fits, trunc_div};
use crate::clock::{clock_of_seconds, clock_text};
#[allow(unused_imports)]
use crate::clock::{
    clock_of, law_clock_tells_seconds, law_no_time_after_a_day, time_text, ClockTime,
};

verus! {

/// The stream whose clock the playback follows.
#[derive(Debug, Clone, Copy, PartialEq, Eq, Structural)]
pub enum MainStream {
    Video,
    Audio,
}

/// A fraction; a time base is the length of one tick in seconds.
#[derive(Debug, Clone, Copy, PartialEq, Eq, Structural)]
pub struct Rational {
    pub numerator: i32,
    pub denominator: i32,
}

/// What a stream holds.
#[derive(Debug, Clone, Copy, PartialEq, Eq, Structural)]
pub enum MediaType {
    Unknown,
    Video,
    Audio,
    Data,
    Subtitle,
    Attachment,
}

/// The disposition of a video stream that is only a picture, such as an album cover.
pub const ATTACHED_PIC: i32 = 1024;

/// The duration of a source that does not tell it.
pub const NO_TIMESTAMP: i64 = i64::MIN;

/// The index of a stream that the source does not have.
pub const NO_STREAM: usize = usize::MAX;

/// What a source tells of one of its streams.
#[derive(Debug, Clone, Copy, PartialEq, Eq, Structural)]
pub struct StreamInfo {
    pub index: usize,
    pub medium: MediaType,
    pub disposition: i32,
    pub time_base: Rational,
}

impl StreamInfo {
    /// Whether the stream holds a cover picture.
    pub open spec fn has_cover(&self) -> bool {
        self.medium == MediaType::Attachment || self.medium == MediaType::Video && self.disposition
            == ATTACHED_PIC
    }

    /// Whether the stream holds moving pictures.
    pub open spec fn has_video(&self) -> bool {
        self.medium == MediaType::Video && self.disposition != ATTACHED_PIC
    }

    /// Whether the stream holds sound.
    pub open spec fn has_audio(&self) -> bool {
        self.medium == MediaType::Audio
    }
}

/// The first one of some streams that is wanted.
pub open spec fn first_stream(
    streams: Seq<StreamInfo>,
    wanted: spec_fn(StreamInfo) -> bool,
) -> Option<StreamInfo>
    decreases streams.len(),
{
    if streams.len() == 0 {
        None
    } else {
        match first_stream(streams.drop_last(), wanted) {
            Some(stream) => Some(stream),
            None => if wanted(streams.last()) {
                Some(streams.last())
            } else {
                None
            },
        }
    }
}

/// The last one of some streams that is wanted.
pub open spec fn last_stream(
    streams: Seq<StreamInfo>,
    wanted: spec_fn(StreamInfo) -> bool,
) -> Option<StreamInfo>
    decreases streams.len(),
{
    if streams.len() == 0 {
        None
    } else if wanted(streams.last()) {
        Some(streams.last())
    } else {
        last_stream(streams.drop_last(), wanted)
    }
}

/// The streams of a source that the player uses.
#[derive(Debug, Clone, Copy, PartialEq, Eq, Structural)]
pub struct ChosenStreams {
    pub cover: Option<StreamInfo>,
    pub video: Option<StreamInfo>,
    pub audio: Option<StreamInfo>,
}

/// Which streams the player uses: the last cover, the last video and the first audio.
pub open spec fn chosen(streams: Seq<StreamInfo>) -> ChosenStreams {
    ChosenStreams {
        cover: last_stream(streams, |stream: StreamInfo| stream.has_cover()),
        video: last_stream(streams, |stream: StreamInfo| stream.has_video()),
        audio: first_stream(streams, |stream: StreamInfo| stream.has_audio()),
    }
}

/// Chooses the streams that the player uses.
pub fn choose_streams(streams: &Vec<StreamInfo>) -> (found: ChosenStreams)
    ensures
        found == chosen(streams@),
{
    let mut cover: Option<StreamInfo> = None;
    let mut video: Option<StreamInfo> = None;
    let mut audio: Option<StreamInfo> = None;
    let mut i: usize = 0;
    while i < streams.len()
        invariant
            i <= streams@.len(),
            (ChosenStreams { cover, video, audio }) == chosen(streams@.take(i as int)),
        decreases streams@.len() - i,
    {
        let stream = streams[i];
        proof {
            let more = streams@.take(i + 1);
            assert(more.drop_last() =~= streams@.take(i as int));
            assert(more.last() == stream);
        }
        match stream.medium {
            MediaType::Video => {
                if stream.disposition == ATTACHED_PIC {
                    cover = Some(stream);
                } else {
                    video = Some(stream);
                }
            },
            MediaType::Audio => {
                if audio.is_none() {
                    audio = Some(stream);
                }
            },
            MediaType::Attachment => {
                cover = Some(stream);
            },
            _ => {},
        }
        i = i + 1;
    }
    assert(streams@.take(streams@.len() as int) =~= streams@);
    ChosenStreams { cover, video, audio }
}

/// Whether the playback follows the clock of the video: only where there is no audio.
pub open spec fn follows_video(found: ChosenStreams) -> bool {
    found.video is Some && found.audio is None
}

/// How many items wait in each queue between the tasks of a decoder and those that present.
#[derive(Debug, Clone, Copy, PartialEq, Eq, Structural)]
pub struct QueueLens {
    pub audio_packets: usize,
    pub video_packets: usize,
    pub audio_frames: usize,
    pub video_frames: usize,
}

impl QueueLens {
    /// Nothing waits in any queue.
    pub open spec fn empty() -> QueueLens {
        QueueLens { audio_packets: 0, video_packets: 0, audio_frames: 0, video_frames: 0 }
    }
}

/// The state of a decoder, without the handles of what works for it.
#[derive(Debug)]
pub struct TinyDecoder {
    pub video_stream_index: usize,
    pub audio_stream_index: usize,
    pub cover_stream_index: usize,
    pub main_stream: MainStream,
    pub video_time_base: Rational,
    pub audio_time_base: Rational,
    pub video_frame_rect: (u32, u32),
    /// The duration of the source in microseconds.
    pub format_duration: i64,
    /// The duration of the source in ticks of the main stream.
    pub end_timestamp: i64,
    pub end_time_formatted_string: String,
    pub has_input: bool,
    pub has_video_decoder: bool,
    pub has_audio_decoder: bool,
    pub has_resampler: bool,
    pub demux_exit_flag: bool,
    pub decode_exit_flag: bool,
    pub has_demux_task: bool,
    pub has_video_decode_task: bool,
    pub has_audio_decode_task: bool,
    pub hardware_config_flag: bool,
    pub cover_pic_data: Option<Vec<u8>>,
    pub media_source_flag: bool,
    pub waiting: QueueLens,
}

/// The mathematical value of a `TinyDecoder`.
pub ghost struct DecoderState {
    pub video_stream_index: usize,
    pub audio_stream_index: usize,
    pub cover_stream_index: usize,
    pub main_stream: MainStream,
    pub video_time_base: Rational,
    pub audio_time_base: Rational,
    pub video_frame_rect: (u32, u32),
    pub format_duration: i64,
    pub end_timestamp: i64,
    pub end_time: Seq<char>,
    pub has_input: bool,
    pub has_video_decoder: bool,
    pub has_audio_decoder: bool,
    pub has_resampler: bool,
    pub demux_exit_flag: bool,
    pub decode_exit_flag: bool,
    pub has_demux_task: bool,
    pub has_video_decode_task: bool,
    pub has_audio_decode_task: bool,
    pub hardware_config_flag: bool,
    pub cover: Option<Seq<u8>>,
    pub media_source_flag: bool,
    pub waiting: QueueLens,
}

impl View for TinyDecoder {
    type V = DecoderState;

    open spec fn view(&self) -> DecoderState {
        DecoderState {
            video_stream_index: self.video_stream_index,
            audio_stream_index: self.audio_stream_index,
            cover_stream_index: self.cover_stream_index,
            main_stream: self.main_stream,
            video_time_base: self.video_time_base,
            audio_time_base: self.audio_time_base,
            video_frame_rect: self.video_frame_rect,
            format_duration: self.format_duration,
            end_timestamp: self.end_timestamp,
            end_time: self.end_time_formatted_string@,
            has_input: self.has_input,
            has_video_decoder: self.has_video_decoder,
            has_audio_decoder: self.has_audio_decoder,
            has_resampler: self.has_resampler,
            demux_exit_flag: self.demux_exit_flag,
            decode_exit_flag: self.decode_exit_flag,
            has_demux_task: self.has_demux_task,
            has_video_decode_task: self.has_video_decode_task,
            has_audio_decode_task: self.has_audio_decode_task,
            hardware_config_flag: self.hardware_config_flag,
            cover: match self.cover_pic_data {
                Some(data) => Some(data@),
                None => None,
            },
            media_source_flag: self.media_source_flag,
            waiting: self.waiting,
        }
    }
}

/// The time base of a stream that has none.
pub open spec fn unit_base() -> Rational {
    Rational { numerator: 1, denominator: 1 }
}

/// A decoder without a source; three of its values, and the queues of frames, are shared with the
/// rest of the player.
pub open spec fn fresh_decoder(
    media_source_flag: bool,
    end_timestamp: i64,
    hardware_config_flag: bool,
    audio_frames: usize,
    video_frames: usize,
) -> DecoderState {
    DecoderState {
        video_stream_index: NO_STREAM,
        audio_stream_index: NO_STREAM,
        cover_stream_index: NO_STREAM,
        main_stream: MainStream::Audio,
        video_time_base: unit_base(),
        audio_time_base: unit_base(),
        video_frame_rect: (0, 0),
        format_duration: 0,
        end_timestamp,
        end_time: Seq::empty(),
        has_input: false,
        has_video_decoder: false,
        has_audio_decoder: false,
        has_resampler: false,
        demux_exit_flag: false,
        decode_exit_flag: false,
        has_demux_task: false,
        has_video_decode_task: false,
        has_audio_decode_task: false,
        hardware_config_flag,
        cover: None,
        media_source_flag,
        waiting: QueueLens { audio_packets: 0, video_packets: 0, audio_frames, video_frames },
    }
}

/// A decoder that knows the streams of a source.
pub open spec fn with_streams(state: DecoderState, found: ChosenStreams) -> DecoderState {
    DecoderState {
        cover_stream_index: match found.cover {
            Some(stream) => stream.index,
            None => state.cover_stream_index,
        },
        audio_stream_index: match found.audio {
            Some(stream) => stream.index,
            None => state.audio_stream_index,
        },
        audio_time_base: match found.audio {
            Some(stream) => stream.time_base,
            None => state.audio_time_base,
        },
        video_stream_index: match found.video {
            Some(stream) => stream.index,
            None => state.video_stream_index,
        },
        video_time_base: match found.video {
            Some(stream) => stream.time_base,
            None => state.video_time_base,
        },
        main_stream: if follows_video(found) {
            MainStream::Video
        } else {
            state.main_stream
        },
        ..state
    }
}

/// A decoder that knows the duration of its source, given in microseconds.
pub open spec fn with_duration(state: DecoderState, duration: i64) -> DecoderState {
    let end = end_ticks(state.main_base(), duration);
    DecoderState {
        format_duration: if duration == NO_TIMESTAMP {
            0
        } else {
            duration
        },
        end_timestamp: end as i64,
        end_time: end_time_of(state.end_time, state.main_base(), end),
        ..state
    }
}

/// The duration of a source in ticks of a time base, given it in microseconds.
pub open spec fn end_ticks(base: Rational, duration: i64) -> int {
    if duration == NO_TIMESTAMP {
        0
    } else {
        trunc_div(
            trunc_div(duration * base.denominator, base.numerator as int),
            1_000_000,
        )
    }
}

/// The seconds that some ticks of a time base last, as far as they are whole.
pub open spec fn seconds_of(base: Rational, ticks: int) -> int {
    trunc_div(ticks * base.numerator, base.denominator as int)
}

/// How the end of a source is shown; where it is no time of day, nothing new is shown.
#[verifier::opaque]
pub open spec fn end_time_of(shown: Seq<char>, base: Rational, ticks: int) -> Seq<char> {
    match clock_of(seconds_of(base, ticks)) {
        Some(time) => time_text(time),
        None => shown,
    }
}

/// Whether the duration of a source can be told in ticks and in seconds.
#[verifier::opaque]
pub open spec fn source_fits(base: Rational, duration: i64) -> bool {
    &&& duration != NO_TIMESTAMP ==> scale_fits(
        duration as int,
        base.denominator as int,
        base.numerator as int,
    )
    &&& scale_fits(
        end_ticks(base, duration),
        base.numerator as int,
        base.denominator as int,
    )
}

/// Tells the duration of a source in ticks of a time base, given it in microseconds.
fn duration_ticks(base: Rational, duration: i64) -> (ticks: i64)
    requires
        source_fits(base, duration),
    ensures
        ticks == end_ticks(base, duration),
        scale_fits(ticks as int, base.numerator as int, base.denominator as int),
{
    proof {
        reveal(source_fits);
    }
    if duration == NO_TIMESTAMP {
        0
    } else {
        div_i64(scale(duration, base.denominator as i64, base.numerator as i64), 1_000_000)
    }
}

impl DecoderState {
    /// The time base of the main stream.
    pub open spec fn main_base(self) -> Rational {
        match self.main_stream {
            MainStream::Audio => self.audio_time_base,
            MainStream::Video => self.video_time_base,
        }
    }

    /// The index of the main stream.
    pub open spec fn main_index(self) -> usize {
        match self.main_stream {
            MainStream::Audio => self.audio_stream_index,
            MainStream::Video => self.video_stream_index,
        }
    }

    /// The decoder when the handles of its tasks are stopped.
    pub open spec fn stopped(self) -> DecoderState {
        DecoderState { demux_exit_flag: true, decode_exit_flag: true, ..self }
    }

    /// The decoder that is ready for a new source: one that had a source before starts anew.
    pub open spec fn ready(self) -> DecoderState {
        if self.has_demux_task {
            fresh_decoder(false, 0, false, 0, 0)
        } else {
            self
        }
    }

    /// The tasks that work for the decoder.
    pub open spec fn tasks(self) -> StoppedTasks {
        StoppedTasks {
            demux: self.has_demux_task,
            video_decode: self.has_video_decode_task,
            audio_decode: self.has_audio_decode_task,
        }
    }

    /// The decoder when it has begun to demux and decode its source.
    pub open spec fn started(self) -> DecoderState {
        DecoderState {
            has_input: true,
            has_demux_task: true,
            has_video_decode_task: true,
            has_audio_decode_task: true,
            media_source_flag: true,
            ..self
        }
    }

    /// What the demuxer of the decoder keeps.
    pub open spec fn demux_context(self) -> DemuxContext {
        DemuxContext {
            audio_stream_index: self.audio_stream_index,
            video_stream_index: self.video_stream_index,
            cover_stream_index: self.cover_stream_index,
        }
    }

    /// The decoder when its source was moved.
    pub open spec fn moved(self) -> DecoderState {
        DecoderState { waiting: QueueLens::empty(), ..self }
    }

    /// How its source is moved to a time.
    pub open spec fn seek_plan(self, ts: i64) -> Option<SeekPlan> {
        if self.has_input {
            Some(
                SeekPlan {
                    request: SeekRequest {
                        stream_index: self.main_index() as i32,
                        min_ts: i64::MIN,
                        ts,
                        max_ts: ts,
                        flags: SEEK_FLAG_ANY,
                    },
                    flush: self.flushed(),
                },
            )
        } else {
            None
        }
    }

    /// Which decoders are flushed when the source has been moved.
    pub open spec fn flushed(self) -> FlushedDecoders {
        FlushedDecoders { audio: self.has_audio_decoder, video: self.has_video_decoder }
    }

    /// The decoder when it has a decoder and a resampler for the sound.
    pub open spec fn with_audio_decoder(self) -> DecoderState {
        DecoderState { has_audio_decoder: true, has_resampler: true, ..self }
    }

    /// The decoder when it has a decoder for pictures of some size.
    pub open spec fn with_video_decoder(self, width: u32, height: u32) -> DecoderState {
        DecoderState { has_video_decoder: true, video_frame_rect: (width, height), ..self }
    }

    /// The decoder when pictures are decoded on a device, or not.
    pub open spec fn with_device(self, on_device: bool) -> DecoderState {
        DecoderState { hardware_config_flag: self.hardware_config_flag || on_device, ..self }
    }

    /// The decoder when it is done for good.
    pub open spec fn closed(self) -> DecoderState {
        DecoderState {
            demux_exit_flag: true,
            decode_exit_flag: true,
            has_demux_task: false,
            has_video_decode_task: false,
            has_audio_decode_task: false,
            has_resampler: false,
            ..self
        }
    }
}

/// How the tasks of a decoder are stopped.
#[derive(Debug, Clone, Copy, PartialEq, Eq, Structural)]
pub struct StoppedTasks {
    pub demux: bool,
    pub video_decode: bool,
    pub audio_decode: bool,
}

/// A request to move a source to another time.
#[derive(Debug, Clone, Copy, PartialEq, Eq, Structural)]
pub struct SeekRequest {
    pub stream_index: i32,
    pub min_ts: i64,
    pub ts: i64,
    pub max_ts: i64,
    pub flags: i32,
}

/// How a source is moved: what it is asked for, and then which decoders are flushed.
#[derive(Debug, Clone, Copy, PartialEq, Eq, Structural)]
pub struct SeekPlan {
    pub request: SeekRequest,
    pub flush: FlushedDecoders,
}

/// The flag that lets a source be moved to any frame, not only to those that stand alone.
pub const SEEK_FLAG_ANY: i32 = 4;

impl TinyDecoder {
    /// Makes a decoder without a source. Its queues of packets are new; some frames may wait
    /// already.
    pub fn new(
        media_source_flag: bool,
        end_timestamp: i64,
        hardware_config_flag: bool,
        audio_frames: usize,
        video_frames: usize,
    ) -> (decoder: TinyDecoder)
        ensures
            decoder@ == fresh_decoder(
                media_source_flag,
                end_timestamp,
                hardware_config_flag,
                audio_frames,
                video_frames,
            ),
    {
        let decoder = TinyDecoder {
            video_stream_index: NO_STREAM,
            audio_stream_index: NO_STREAM,
            cover_stream_index: NO_STREAM,
            main_stream: MainStream::Audio,
            video_time_base: Rational { numerator: 1, denominator: 1 },
            audio_time_base: Rational { numerator: 1, denominator: 1 },
            video_frame_rect: (0, 0),
            format_duration: 0,
            end_timestamp,
            end_time_formatted_string: String::new(),
            has_input: false,
            has_video_decoder: false,
            has_audio_decoder: false,
            has_resampler: false,
            demux_exit_flag: false,
            decode_exit_flag: false,
            has_demux_task: false,
            has_video_decode_task: false,
            has_audio_decode_task: false,
            hardware_config_flag,
            cover_pic_data: None,
            media_source_flag,
            waiting: QueueLens { audio_packets: 0, video_packets: 0, audio_frames, video_frames },
        };
        decoder
    }

    /// Takes note of how many items wait in each queue.
    pub fn note_queues(&mut self, waiting: QueueLens)
        ensures
            final(self)@ == (DecoderState { waiting, ..old(self)@ }),
    {
        self.waiting = waiting;
    }

    /// Resets every field and empties every queue, so that the decoder is ready for a new source.
    pub fn reset_states(&mut self)
        ensures
            final(self)@ == fresh_decoder(false, 0, false, 0, 0),
    {
        *self = TinyDecoder::new(false, 0, false, 0, 0);
    }

    /// Stops the tasks, and tells which ones there were.
    pub fn stop_background_tasks(&mut self) -> (stopped: StoppedTasks)
        ensures
            final(self)@ == old(self)@.stopped(),
            stopped == old(self)@.tasks(),
    {
        self.demux_exit_flag = true;
        self.decode_exit_flag = true;
        StoppedTasks {
            demux: self.has_demux_task,
            video_decode: self.has_video_decode_task,
            audio_decode: self.has_audio_decode_task,
        }
    }

    /// Makes room for a new source: where one was being decoded, its tasks are stopped and every
    /// field is reset. Tells which tasks are to be stopped, if any.
    pub fn leave_source(&mut self) -> (stopped: Option<StoppedTasks>)
        ensures
            final(self)@ == old(self)@.ready(),
            stopped == (if old(self).has_demux_task {
                Some(old(self)@.tasks())
            } else {
                None
            }),
    {
        if self.has_demux_task {
            let stopped = self.stop_background_tasks();
            self.reset_states();
            Some(stopped)
        } else {
            None
        }
    }

    /// The time base of the main stream.
    pub fn main_time_base(&self) -> (base: Rational)
        ensures
            base == self@.main_base(),
    {
        match self.main_stream {
            MainStream::Audio => self.audio_time_base,
            MainStream::Video => self.video_time_base,
        }
    }

    /// The time base that the main stream will have when the decoder takes these streams.
    fn next_time_base(&self, found: &ChosenStreams) -> (base: Rational)
        ensures
            base == with_streams(self@, *found).main_base(),
    {
        let takes_video = found.video.is_some() && found.audio.is_none();
        let follows_video = takes_video || match self.main_stream {
            MainStream::Video => true,
            MainStream::Audio => false,
        };
        if follows_video {
            match found.video {
                Some(stream) => stream.time_base,
                None => self.video_time_base,
            }
        } else {
            match found.audio {
                Some(stream) => stream.time_base,
                None => self.audio_time_base,
            }
        }
    }

    /// Whether `reset_input` can tell the duration of a source with these streams.
    pub fn can_reset_input(&self, streams: &Vec<StreamInfo>, duration: i64) -> (fits: bool)
        ensures
            fits == source_fits(with_streams(self@, chosen(streams@)).main_base(), duration),
    {
        let found = choose_streams(streams);
        let base = self.next_time_base(&found);
        let (num, den) = (base.numerator as i64, base.denominator as i64);
        proof {
            reveal(source_fits);
        }
        if duration == NO_TIMESTAMP {
            return can_scale(0, num, den);
        }
        can_scale(duration, den, num) && can_scale(
            div_i64(scale(duration, den, num), 1_000_000),
            num,
            den,
        )
    }

    /// Takes the streams that are used, and the clock that the playback follows.
    fn take_streams(&mut self, found: &ChosenStreams)
        ensures
            final(self)@ == with_streams(old(self)@, *found),
    {
        let main_stream = if found.video.is_some() && found.audio.is_none() {
            MainStream::Video
        } else {
            self.main_stream
        };
        let cover_stream_index = match found.cover {
            Some(stream) => stream.index,
            None => self.cover_stream_index,
        };
        let (audio_stream_index, audio_time_base) = match found.audio {
            Some(stream) => (stream.index, stream.time_base),
            None => (self.audio_stream_index, self.audio_time_base),
        };
        let (video_stream_index, video_time_base) = match found.video {
            Some(stream) => (stream.index, stream.time_base),
            None => (self.video_stream_index, self.video_time_base),
        };
        self.cover_stream_index = cover_stream_index;
        self.audio_stream_index = audio_stream_index;
        self.audio_time_base = audio_time_base;
        self.video_stream_index = video_stream_index;
        self.video_time_base = video_time_base;
        self.main_stream = main_stream;
    }

    /// Takes the duration of the source, given in microseconds.
    fn take_duration(&mut self, duration: i64)
        requires
            source_fits(old(self)@.main_base(), duration),
        ensures
            final(self)@ == with_duration(old(self)@, duration),
    {
        let base = self.main_time_base();
        let end_ts = duration_ticks(base, duration);
        let format_duration: i64 = if duration == NO_TIMESTAMP {
            0
        } else {
            duration
        };
        self.compute_end_time_str(end_ts);
        self.format_duration = format_duration;
        self.end_timestamp = end_ts;
    }

    /// Takes the streams of a source and its duration in microseconds: which streams are used,
    /// which clock the playback follows, when the source ends and how that is shown. Gives back
    /// the streams for which decoders are to be made.
    pub fn reset_input(&mut self, streams: &Vec<StreamInfo>, duration: i64) -> (found:
        ChosenStreams)
        requires
            source_fits(with_streams(old(self)@, chosen(streams@)).main_base(), duration),
        ensures
            found == chosen(streams@),
            final(self)@ == with_duration(with_streams(old(self)@, chosen(streams@)), duration),
    {
        let found = choose_streams(streams);
        self.take_streams(&found);
        self.take_duration(duration);
        found
    }

    /// Shows when the source ends, given the end in ticks of the main stream.
    pub fn compute_end_time_str(&mut self, end_ts: i64)
        requires
            scale_fits(
                end_ts as int,
                old(self)@.main_base().numerator as int,
                old(self)@.main_base().denominator as int,
            ),
        ensures
            final(self)@ == (DecoderState {
                end_time: end_time_of(old(self)@.end_time, old(self)@.main_base(), end_ts as int),
                ..old(self)@
            }),
    {
        let base = self.main_time_base();
        let seconds = scale(end_ts, base.numerator as i64, base.denominator as i64);
        proof {
            reveal(end_time_of);
        }
        if let Some(time) = clock_of_seconds(seconds) {
            if let Some(text) = clock_text(time) {
                self.end_time_formatted_string = text;
            }
        }
    }

    /// Notes that the audio of the source has a decoder and a resampler.
    pub fn take_audio_decoder(&mut self)
        ensures
            final(self)@ == old(self)@.with_audio_decoder(),
    {
        self.has_resampler = true;
        self.has_audio_decoder = true;
    }

    /// Notes that the video of the source has a decoder, and how large its pictures are.
    pub fn take_video_decoder(&mut self, width: u32, height: u32)
        ensures
            final(self)@ == old(self)@.with_video_decoder(width, height),
    {
        self.video_frame_rect = (width, height);
        self.has_video_decoder = true;
    }

    /// Starts to demux and decode the source: the tasks run, and the player has a source.
    pub fn start_process_input(&mut self) -> (context: DemuxContext)
        ensures
            final(self)@ == old(self)@.started(),
            context == old(self)@.demux_context(),
    {
        self.has_input = true;
        self.has_demux_task = true;
        self.has_video_decode_task = true;
        self.has_audio_decode_task = true;
        self.media_source_flag = true;
        DemuxContext {
            audio_stream_index: self.audio_stream_index,
            video_stream_index: self.video_stream_index,
            cover_stream_index: self.cover_stream_index,
        }
    }

    /// Moves the source to a time, given in ticks of the main stream: to the frame at that time or
    /// the last one before it. Then each decoder that there is is flushed, once, whatever came of
    /// the request. Without a source there is nothing to ask for and nothing to flush. The queues
    /// are emptied in any case.
    pub fn seek_timestamp_to_decode(&mut self, ts: i64) -> (plan: Option<SeekPlan>)
        ensures
            final(self)@ == old(self)@.moved(),
            plan == old(self)@.seek_plan(ts),
    {
        let main_stream_idx: usize = match self.main_stream {
            MainStream::Audio => self.audio_stream_index,
            MainStream::Video => self.video_stream_index,
        };
        let plan = if self.has_input {
            let request = SeekRequest {
                stream_index: #[verifier::truncate]
                (main_stream_idx as i32),
                min_ts: i64::MIN,
                ts,
                max_ts: ts,
                flags: SEEK_FLAG_ANY,
            };
            Some(SeekPlan { request, flush: self.flush_decoders() })
        } else {
            None
        };
        self.waiting = QueueLens {
            audio_packets: 0,
            video_packets: 0,
            audio_frames: 0,
            video_frames: 0,
        };
        plan
    }
}

/// Where a decoded picture is taken from.
#[derive(Debug, Clone, Copy, PartialEq, Eq, Structural)]
pub enum FrameSource {
    /// It stays as the decoder gave it.
    AsDecoded,
    /// It is copied from the device and brought to a format, and keeps the timestamp of the decoded
    /// picture.
    FromDevice { pts: Option<i64>, format: PixelFormat },
}

/// Where a decoded picture is taken from.
pub open spec fn frame_source(hardware_config: bool, pts: Option<i64>) -> FrameSource {
    if hardware_config {
        FrameSource::FromDevice { pts, format: PixelFormat::Yuv420p }
    } else {
        FrameSource::AsDecoded
    }
}

/// A picture is copied from the device exactly where the device decodes; it keeps its timestamp, so
/// that it is shown at its own time.
pub proof fn law_device_pictures_are_copied(hardware_config: bool, pts: Option<i64>)
    ensures
        frame_source(hardware_config, pts) is FromDevice <==> hardware_config,
        frame_source(true, pts)->pts == pts,
        frame_source(true, pts)->format == PixelFormat::Yuv420p,
{
}

/// Which decoders are flushed.
#[derive(Debug, Clone, Copy, PartialEq, Eq, Structural)]
pub struct FlushedDecoders {
    pub audio: bool,
    pub video: bool,
}

impl TinyDecoder {
    /// Decides where a decoded picture is taken from: pictures that a device decoded must be copied
    /// to where they can be read, in the format in which the player works on.
    pub fn convert_hardware_frame(hardware_config: bool, pts: Option<i64>) -> (source: FrameSource)
        ensures
            source == frame_source(hardware_config, pts),
    {
        if hardware_config {
            FrameSource::FromDevice { pts, format: PixelFormat::Yuv420p }
        } else {
            FrameSource::AsDecoded
        }
    }

    /// Tells which decoders are to be flushed after the source was moved: those that there are.
    pub fn flush_decoders(&self) -> (flushed: FlushedDecoders)
        ensures
            flushed == self@.flushed(),
    {
        FlushedDecoders { audio: self.has_audio_decoder, video: self.has_video_decoder }
    }

    /// Ends the decoder: its tasks are told to end and are waited for, and the resampler is freed.
    /// Tells which tasks are to be waited for.
    pub fn close(&mut self) -> (ended: StoppedTasks)
        ensures
            final(self)@ == old(self)@.closed(),
            ended == old(self)@.tasks(),
    {
        let ended = self.stop_background_tasks();
        self.has_demux_task = false;
        self.has_video_decode_task = false;
        self.has_audio_decode_task = false;
        self.has_resampler = false;
        ended
    }
}

/// A decoder that left its source and one that never had one cannot be told apart.
pub proof fn law_reset_is_fresh(used: TinyDecoder, fresh: TinyDecoder)
    requires
        used.has_demux_task,
        fresh@ == fresh_decoder(false, 0, false, 0, 0),
    ensures
        used@.ready() == fresh@,
{
}

/// Leaving a source empties every queue, and it makes no difference whether the source was moved
/// before.
pub proof fn law_queues_are_emptied(used: TinyDecoder, moved: TinyDecoder)
    requires
        used.has_demux_task,
        moved@ == (DecoderState { waiting: QueueLens::empty(), ..used@ }),
    ensures
        used@.ready().waiting == QueueLens::empty(),
        moved@.ready() == used@.ready(),
{
}

/// A source without a main stream is moved as a whole: its stream is the number -1.
pub proof fn law_seek_without_stream(decoder: TinyDecoder)
    requires
        decoder@.main_index() == NO_STREAM,
    ensures
        decoder@.main_index() as i32 == -1,
{
    let highest = NO_STREAM;
    assert(highest <= !0usize) by (bit_vector);
    assert(!0usize as i32 == -1i32) by (bit_vector);
}

/// The whole seconds of the end, counted through ticks of a time base that divides a second, are
/// those of the duration.
pub proof fn law_end_in_seconds(duration: i64, ticks_per_second: i32)
    requires
        duration >= 0,
        ticks_per_second > 0,
        ({
            let base = Rational { numerator: 1, denominator: ticks_per_second };
            source_fits(base, duration)
        }),
    ensures
        ({
            let base = Rational { numerator: 1, denominator: ticks_per_second };
            seconds_of(base, end_ticks(base, duration)) == duration / 1_000_000
        }),
{
    let t = ticks_per_second as int;
    let d = duration as int;
    crate::arith::lemma_trunc_by_positive(d * t, 1);
    assert(d * t >= 0) by (nonlinear_arith)
        requires
            d >= 0,
            t > 0,
    ;
    assert((d * t) / 1 == d * t);
    crate::arith::lemma_trunc_by_positive(d * t, 1_000_000);
    let ticks = (d * t) / 1_000_000;
    vstd::arithmetic::div_mod::lemma_div_pos_is_pos(d * t, 1_000_000);
    crate::arith::lemma_trunc_by_positive(ticks * 1, t);
    vstd::arithmetic::div_mod::lemma_div_denominator(d * t, 1_000_000, t);
    vstd::arithmetic::div_mod::lemma_div_denominator(d * t, t, 1_000_000);
    assert(1_000_000 * t == t * 1_000_000) by (nonlinear_arith);
    vstd::arithmetic::div_mod::lemma_div_multiples_vanish(d, t);
    assert(t * d == d * t) by (nonlinear_arith);
}

/// Which packets the demuxer keeps.
#[derive(Debug, Clone, Copy, PartialEq, Eq, Structural)]
pub struct DemuxContext {
    pub audio_stream_index: usize,
    pub video_stream_index: usize,
    pub cover_stream_index: usize,
}

/// How many packets of both kinds may wait before the demuxer rests.
pub const PACKETS_WANTED: usize = 500;

/// What the demuxer does next.
#[derive(Debug, Clone, Copy, PartialEq, Eq, Structural)]
pub enum DemuxAction {
    Exit,
    ReadPacket,
    WaitForNotice,
}

/// What came of reading a packet.
#[derive(Debug, Clone, Copy, PartialEq, Eq, Structural)]
pub enum PacketRead {
    Packet { stream_index: usize, has_data: bool },
    Eof,
    Ended,
    Failed,
    NoInput,
}

/// What becomes of what was read.
#[derive(Debug, Clone, Copy, PartialEq, Eq, Structural)]
pub enum PacketUse {
    KeepAsCover,
    SendToAudio,
    SendToVideo,
    Drop,
    /// Nothing was read; after so many milliseconds it may be tried again.
    RetryAfter { millis: u64 },
}

/// What the demuxer does next.
pub open spec fn demux_action(
    exit: bool,
    audio_packets: usize,
    video_packets: usize,
) -> DemuxAction {
    if exit {
        DemuxAction::Exit
    } else if audio_packets < PACKETS_WANTED || video_packets < PACKETS_WANTED {
        DemuxAction::ReadPacket
    } else {
        DemuxAction::WaitForNotice
    }
}

/// The demuxer reads on exactly as long as it is not told to end and fewer than 500 packets of one
/// kind wait, so that neither decoder runs dry while the other one is supplied.
pub proof fn law_demuxer_supplies_both(exit: bool, audio_packets: usize, video_packets: usize)
    ensures
        demux_action(exit, audio_packets, video_packets) == DemuxAction::Exit <==> exit,
        demux_action(exit, audio_packets, video_packets) == DemuxAction::ReadPacket <==> !exit && !(
        audio_packets >= 500 && video_packets >= 500),
        demux_action(exit, audio_packets, video_packets) == demux_action(
            exit,
            video_packets,
            audio_packets,
        ),
{
}

impl TinyDecoder {
    /// Decides what the demuxer does next: it reads as long as one of the two kinds of packets is
    /// short.
    pub fn packet_demux_process(
        demux_exit_flag: bool,
        audio_packets: usize,
        video_packets: usize,
    ) -> (action: DemuxAction)
        ensures
            action == demux_action(demux_exit_flag, audio_packets, video_packets),
    {
        if demux_exit_flag {
            DemuxAction::Exit
        } else if audio_packets < PACKETS_WANTED || video_packets < PACKETS_WANTED {
            DemuxAction::ReadPacket
        } else {
            DemuxAction::WaitForNotice
        }
    }
}

impl DemuxContext {
    /// What becomes of what was read: a packet goes where its stream goes, the cover first.
    pub open spec fn use_of(&self, read: PacketRead) -> PacketUse {
        match read {
            PacketRead::Packet { stream_index, has_data } => if stream_index
                == self.cover_stream_index {
                if has_data {
                    PacketUse::KeepAsCover
                } else {
                    PacketUse::Drop
                }
            } else if stream_index == self.audio_stream_index {
                PacketUse::SendToAudio
            } else if stream_index == self.video_stream_index {
                PacketUse::SendToVideo
            } else {
                PacketUse::Drop
            },
            PacketRead::Eof => PacketUse::RetryAfter { millis: 10 },
            _ => PacketUse::RetryAfter { millis: 0 },
        }
    }

    /// Decides what becomes of what was read.
    pub fn route_packet(&self, read: PacketRead) -> (used: PacketUse)
        ensures
            used == self.use_of(read),
    {
        match read {
            PacketRead::Packet { stream_index, has_data } => {
                if stream_index == self.cover_stream_index {
                    if has_data {
                        PacketUse::KeepAsCover
                    } else {
                        PacketUse::Drop
                    }
                } else if stream_index == self.audio_stream_index {
                    PacketUse::SendToAudio
                } else if stream_index == self.video_stream_index {
                    PacketUse::SendToVideo
                } else {
                    PacketUse::Drop
                }
            },
            PacketRead::Eof => PacketUse::RetryAfter { millis: 10 },
            _ => PacketUse::RetryAfter { millis: 0 },
        }
    }
}

/// A packet is sent to a decoder only if it comes from the stream of that decoder, and every
/// packet of that stream is, unless the stream holds the cover.
pub proof fn law_packets_reach_their_decoder(context: DemuxContext, stream: usize, has_data: bool)
    requires
        context.audio_stream_index != context.video_stream_index,
    ensures
        ({
            let used = context.use_of(PacketRead::Packet { stream_index: stream, has_data });
            let is_cover = stream == context.cover_stream_index;
            &&& used == PacketUse::SendToAudio <==> stream == context.audio_stream_index
                && !is_cover
            &&& used == PacketUse::SendToVideo <==> stream == context.video_stream_index
                && !is_cover
            &&& used == PacketUse::KeepAsCover <==> is_cover && has_data
        }),
{
}

/// The two kinds of decoding.
#[derive(Debug, Clone, Copy, PartialEq, Eq, Structural)]
pub enum DecodeKind {
    Video,
    Audio,
}

/// Why decoding stopped.
#[derive(Debug, Clone, Copy, PartialEq, Eq, Structural)]
pub enum DecodeError {
    /// No resampler is there for the sound.
    NoResampler,
    /// The resampler refused a frame.
    ConvertFailed,
}

/// Where a decoding task stands.
#[derive(Debug, Clone, Copy, PartialEq, Eq, Structural)]
pub enum DecodePhase {
    /// It looks whether it should go on, and whether there is room for frames.
    Check,
    /// It waits until there is room for frames.
    WaitForRoom,
    /// It waits for a packet.
    ReceivePacket,
    /// It hands a packet to the decoder.
    FeedDecoder,
    /// It takes a frame out of the decoder.
    TakeFrame,
    /// It converts a frame: sound to the player's format, pictures to where they can be read.
    ConvertFrame,
    /// It puts a frame into the queue.
    SendFrame,
    /// It has ended, with or without an error.
    Ended(Option<DecodeError>),
}

/// What happened to a decoding task.
#[derive(Debug, Clone, Copy, PartialEq, Eq, Structural)]
pub enum DecodeEvent {
    /// The task looked at the exit flag and at the number of frames in the queue.
    Checked { exit: bool, queued_frames: usize },
    /// The notice came that frames were taken.
    Noticed,
    /// A packet came; so many are left, and there is a decoder or not.
    PacketCame { packets_left: usize, has_decoder: bool },
    /// No packet can come any more.
    NoPacket,
    /// The decoder took the packet, or not; there is a resampler or not.
    PacketTaken { accepted: bool, has_resampler: bool },
    /// The decoder gave a frame, or none.
    FrameCame { given: bool },
    /// The frame was converted; zero means success.
    Converted { status: i32 },
    /// The frame was put into the queue, or the queue was gone.
    FrameSent,
}

/// How many frames a task decodes ahead.
pub open spec fn frames_ahead(kind: DecodeKind) -> int {
    match kind {
        DecodeKind::Video => 15,
        DecodeKind::Audio => 30,
    }
}

/// Below how many packets the demuxer is asked for more.
pub const PACKETS_LOW: usize = 200;

/// What a decoding task does after an event. An event that does not belong to the phase changes
/// nothing.
pub open spec fn next_phase(
    kind: DecodeKind,
    phase: DecodePhase,
    event: DecodeEvent,
) -> DecodePhase {
    match (phase, event) {
        (DecodePhase::Check, DecodeEvent::Checked { exit, queued_frames }) => if exit {
            DecodePhase::Ended(None)
        } else if queued_frames < frames_ahead(kind) {
            DecodePhase::ReceivePacket
        } else {
            DecodePhase::WaitForRoom
        },
        (DecodePhase::WaitForRoom, DecodeEvent::Noticed) => DecodePhase::Check,
        (DecodePhase::ReceivePacket, DecodeEvent::NoPacket) => DecodePhase::Check,
        (DecodePhase::ReceivePacket, DecodeEvent::PacketCame { has_decoder, .. }) => if has_decoder {
            DecodePhase::FeedDecoder
        } else {
            DecodePhase::Check
        },
        (DecodePhase::FeedDecoder, DecodeEvent::PacketTaken { accepted, has_resampler }) => {
            if !accepted {
                DecodePhase::Check
            } else if kind == DecodeKind::Audio && !has_resampler {
                DecodePhase::Ended(Some(DecodeError::NoResampler))
            } else {
                DecodePhase::TakeFrame
            }
        },
        (DecodePhase::TakeFrame, DecodeEvent::FrameCame { given }) => if given {
            DecodePhase::ConvertFrame
        } else {
            DecodePhase::Check
        },
        (DecodePhase::ConvertFrame, DecodeEvent::Converted { status }) => if kind
            == DecodeKind::Audio && status != 0 {
            DecodePhase::Ended(Some(DecodeError::ConvertFailed))
        } else {
            DecodePhase::SendFrame
        },
        (DecodePhase::SendFrame, DecodeEvent::FrameSent) => DecodePhase::TakeFrame,
        _ => phase,
    }
}

/// Whether an event makes the task ask the demuxer for more packets.
pub open spec fn asks_for_packets(phase: DecodePhase, event: DecodeEvent) -> bool {
    match (phase, event) {
        (DecodePhase::ReceivePacket, DecodeEvent::PacketCame { packets_left, .. }) => packets_left
            < PACKETS_LOW,
        _ => false,
    }
}

/// Decides how a decoding task goes on after an event, and whether the demuxer is to be asked for
/// more packets.
fn decode_step(kind: DecodeKind, phase: DecodePhase, event: DecodeEvent) -> (next: (
    DecodePhase,
    bool,
))
    ensures
        next.0 == next_phase(kind, phase, event),
        next.1 == asks_for_packets(phase, event),
{
    let ahead: usize = match kind {
        DecodeKind::Video => 15,
        DecodeKind::Audio => 30,
    };
    let is_audio = match kind {
        DecodeKind::Video => false,
        DecodeKind::Audio => true,
    };
    match (phase, event) {
        (DecodePhase::Check, DecodeEvent::Checked { exit, queued_frames }) => {
            if exit {
                (DecodePhase::Ended(None), false)
            } else if queued_frames < ahead {
                (DecodePhase::ReceivePacket, false)
            } else {
                (DecodePhase::WaitForRoom, false)
            }
        },
        (DecodePhase::WaitForRoom, DecodeEvent::Noticed) => (DecodePhase::Check, false),
        (DecodePhase::ReceivePacket, DecodeEvent::NoPacket) => (DecodePhase::Check, false),
        (DecodePhase::ReceivePacket, DecodeEvent::PacketCame { packets_left, has_decoder }) => {
            if has_decoder {
                (DecodePhase::FeedDecoder, packets_left < PACKETS_LOW)
            } else {
                (DecodePhase::Check, packets_left < PACKETS_LOW)
            }
        },
        (DecodePhase::FeedDecoder, DecodeEvent::PacketTaken { accepted, has_resampler }) => {
            if !accepted {
                (DecodePhase::Check, false)
            } else if is_audio && !has_resampler {
                (DecodePhase::Ended(Some(DecodeError::NoResampler)), false)
            } else {
                (DecodePhase::TakeFrame, false)
            }
        },
        (DecodePhase::TakeFrame, DecodeEvent::FrameCame { given }) => {
            if given {
                (DecodePhase::ConvertFrame, false)
            } else {
                (DecodePhase::Check, false)
            }
        },
        (DecodePhase::ConvertFrame, DecodeEvent::Converted { status }) => {
            if is_audio && status != 0 {
                (DecodePhase::Ended(Some(DecodeError::ConvertFailed)), false)
            } else {
                (DecodePhase::SendFrame, false)
            }
        },
        (DecodePhase::SendFrame, DecodeEvent::FrameSent) => (DecodePhase::TakeFrame, false),
        _ => (phase, false),
    }
}

impl TinyDecoder {
    /// Decides how the task that decodes pictures goes on after an event, and whether the demuxer
    /// is to be asked for more packets.
    pub fn video_frame_decode_process(phase: DecodePhase, event: DecodeEvent) -> (next: (
        DecodePhase,
        bool,
    ))
        ensures
            next.0 == next_phase(DecodeKind::Video, phase, event),
            next.1 == asks_for_packets(phase, event),
    {
        decode_step(DecodeKind::Video, phase, event)
    }

    /// Decides how the task that decodes sound goes on after an event, and whether the demuxer is
    /// to be asked for more packets.
    pub fn audio_frame_decode_process(phase: DecodePhase, event: DecodeEvent) -> (next: (
        DecodePhase,
        bool,
    ))
        ensures
            next.0 == next_phase(DecodeKind::Audio, phase, event),
            next.1 == asks_for_packets(phase, event),
    {
        decode_step(DecodeKind::Audio, phase, event)
    }
}

/// The phase of a task after some events.
pub open spec fn phase_after(kind: DecodeKind, events: Seq<DecodeEvent>) -> DecodePhase
    decreases events.len(),
{
    if events.len() == 0 {
        DecodePhase::Check
    } else {
        next_phase(kind, phase_after(kind, events.drop_last()), events.last())
    }
}

/// Pictures are decoded without errors, whatever happens.
pub proof fn law_video_never_fails(events: Seq<DecodeEvent>)
    ensures
        !(phase_after(DecodeKind::Video, events) matches DecodePhase::Ended(Some(_))),
    decreases events.len(),
{
    if events.len() > 0 {
        law_video_never_fails(events.drop_last());
    }
}

/// A task that has ended stays so.
pub proof fn law_ended_is_ended(kind: DecodeKind, events: Seq<DecodeEvent>, more: DecodeEvent)
    requires
        phase_after(kind, events) is Ended,
    ensures
        phase_after(kind, events.push(more)) == phase_after(kind, events),
{
    assert(events.push(more).drop_last() =~= events);
}

/// A task that sees the exit flag ends; it takes no packet when enough frames wait.
pub proof fn law_check(kind: DecodeKind, exit: bool, queued_frames: usize)
    ensures
        ({
            let next = next_phase(
                kind,
                DecodePhase::Check,
                DecodeEvent::Checked { exit, queued_frames },
            );
            &&& next == DecodePhase::Ended(None) <==> exit
            &&& next == DecodePhase::ReceivePacket <==> !exit && queued_frames < frames_ahead(kind)
        }),
{
}

/// The layout of the samples of a sound.
#[derive(Debug, Clone, Copy, PartialEq, Eq, Structural)]
pub enum SampleLayout {
    Packed,
    Planar,
}

/// The kind of the samples of a sound.
#[derive(Debug, Clone, Copy, PartialEq, Eq, Structural)]
pub enum Sample {
    NoFormat,
    U8(SampleLayout),
    I16(SampleLayout),
    I32(SampleLayout),
    I64(SampleLayout),
    F32(SampleLayout),
    F64(SampleLayout),
}

/// The kind of the samples as the resampler names it.
#[derive(Debug, Clone, Copy, PartialEq, Eq, Structural)]
pub enum AvSampleFormat {
    NoFormat,
    U8,
    S16,
    S32,
    Flt,
    Dbl,
    U8p,
    S16p,
    S32p,
    Fltp,
    Dblp,
    S64,
    S64p,
}

/// How the resampler names a kind of samples.
pub open spec fn av_format(sample: Sample) -> AvSampleFormat {
    match sample {
        Sample::NoFormat => AvSampleFormat::NoFormat,
        Sample::U8(SampleLayout::Packed) => AvSampleFormat::U8,
        Sample::U8(SampleLayout::Planar) => AvSampleFormat::U8p,
        Sample::I16(SampleLayout::Packed) => AvSampleFormat::S16,
        Sample::I16(SampleLayout::Planar) => AvSampleFormat::S16p,
        Sample::I32(SampleLayout::Packed) => AvSampleFormat::S32,
        Sample::I32(SampleLayout::Planar) => AvSampleFormat::S32p,
        Sample::I64(SampleLayout::Packed) => AvSampleFormat::S64,
        Sample::I64(SampleLayout::Planar) => AvSampleFormat::S64p,
        Sample::F32(SampleLayout::Packed) => AvSampleFormat::Flt,
        Sample::F32(SampleLayout::Planar) => AvSampleFormat::Fltp,
        Sample::F64(SampleLayout::Packed) => AvSampleFormat::Dbl,
        Sample::F64(SampleLayout::Planar) => AvSampleFormat::Dblp,
    }
}

/// What the resampler makes of which sound.
#[derive(Debug, Clone, Copy, PartialEq, Eq, Structural)]
pub struct ResamplerOptions {
    pub out_channels: u16,
    pub out_format: AvSampleFormat,
    pub out_rate: i32,
    pub in_format: AvSampleFormat,
    pub in_rate: i32,
}

/// What the resampler makes of a sound.
pub open spec fn resampler_options(sample: Sample, rate: u32) -> ResamplerOptions {
    ResamplerOptions {
        out_channels: 2,
        out_format: AvSampleFormat::Flt,
        out_rate: 48000,
        in_format: av_format(sample),
        in_rate: rate as i32,
    }
}

/// How many bytes a sample has under a name of the resampler.
pub open spec fn named_bytes(format: AvSampleFormat) -> int {
    match format {
        AvSampleFormat::NoFormat => 0,
        AvSampleFormat::U8 | AvSampleFormat::U8p => 1,
        AvSampleFormat::S16 | AvSampleFormat::S16p => 2,
        AvSampleFormat::S32 | AvSampleFormat::S32p => 4,
        AvSampleFormat::Flt | AvSampleFormat::Fltp => 4,
        AvSampleFormat::S64 | AvSampleFormat::S64p => 8,
        AvSampleFormat::Dbl | AvSampleFormat::Dblp => 8,
    }
}

/// Whether a name of the resampler stands for floating point numbers.
pub open spec fn named_float(format: AvSampleFormat) -> bool {
    format == AvSampleFormat::Flt || format == AvSampleFormat::Fltp || format == AvSampleFormat::Dbl
        || format == AvSampleFormat::Dblp
}

/// Whether a name of the resampler stands for samples that lie apart, channel by channel.
pub open spec fn named_planar(format: AvSampleFormat) -> bool {
    ||| format == AvSampleFormat::U8p
    ||| format == AvSampleFormat::S16p
    ||| format == AvSampleFormat::S32p
    ||| format == AvSampleFormat::S64p
    ||| format == AvSampleFormat::Fltp
    ||| format == AvSampleFormat::Dblp
}

/// The name of a kind of samples tells how wide they are, whether they are floating point numbers,
/// and whether they lie apart.
pub proof fn law_sample_names_tell(layout: SampleLayout)
    ensures
        named_bytes(av_format(Sample::NoFormat)) == 0,
        named_bytes(av_format(Sample::U8(layout))) == 1,
        named_bytes(av_format(Sample::I16(layout))) == 2,
        named_bytes(av_format(Sample::I32(layout))) == 4,
        named_bytes(av_format(Sample::I64(layout))) == 8,
        named_bytes(av_format(Sample::F32(layout))) == 4,
        named_bytes(av_format(Sample::F64(layout))) == 8,
        forall|sample: Sample| #[trigger]
            named_float(av_format(sample)) <==> sample is F32 || sample is F64,
        forall|sample: Sample| #[trigger]
            named_planar(av_format(sample)) <==> sample == Sample::U8(SampleLayout::Planar) || sample
                == Sample::I16(SampleLayout::Planar) || sample == Sample::I32(SampleLayout::Planar)
                || sample == Sample::I64(SampleLayout::Planar) || sample == Sample::F32(
                SampleLayout::Planar,
            ) || sample == Sample::F64(SampleLayout::Planar),
{
}

/// Whatever the sound, the resampler is told what it is and makes packed 32 bit floats of two
/// channels at 48000 samples a second out of it.
pub proof fn law_sound_is_resampled(sample: Sample, rate: u32)
    requires
        rate <= i32::MAX,
    ensures
        ({
            let options = resampler_options(sample, rate);
            &&& options.in_rate == rate
            &&& options.in_format == av_format(sample)
            &&& options.out_rate == 48000
            &&& options.out_channels == 2
            &&& named_float(options.out_format) && named_bytes(options.out_format) == 4
                && !named_planar(options.out_format)
        }),
{
}

/// Different kinds of samples have different names.
pub proof fn law_sample_names_differ(a: Sample, b: Sample)
    requires
        av_format(a) == av_format(b),
    ensures
        a == b,
{
}

impl TinyDecoder {
    /// Tells the resampler what to make of a sound: two channels of packed 32 bit floats at the
    /// rate of the player.
    pub fn alloc_swr_ctx(sample: Sample, rate: u32) -> (options: ResamplerOptions)
        ensures
            options == resampler_options(sample, rate),
    {
        let in_format = match sample {
            Sample::NoFormat => AvSampleFormat::NoFormat,
            Sample::U8(SampleLayout::Packed) => AvSampleFormat::U8,
            Sample::U8(SampleLayout::Planar) => AvSampleFormat::U8p,
            Sample::I16(SampleLayout::Packed) => AvSampleFormat::S16,
            Sample::I16(SampleLayout::Planar) => AvSampleFormat::S16p,
            Sample::I32(SampleLayout::Packed) => AvSampleFormat::S32,
            Sample::I32(SampleLayout::Planar) => AvSampleFormat::S32p,
            Sample::I64(SampleLayout::Packed) => AvSampleFormat::S64,
            Sample::I64(SampleLayout::Planar) => AvSampleFormat::S64p,
            Sample::F32(SampleLayout::Packed) => AvSampleFormat::Flt,
            Sample::F32(SampleLayout::Planar) => AvSampleFormat::Fltp,
            Sample::F64(SampleLayout::Packed) => AvSampleFormat::Dbl,
            Sample::F64(SampleLayout::Planar) => AvSampleFormat::Dblp,
        };
        ResamplerOptions {
            out_channels: 2,
            out_format: AvSampleFormat::Flt,
            out_rate: 48000,
            in_format,
            in_rate: #[verifier::truncate]
            (rate as i32),
        }
    }
}

/// A kind of device that can decode pictures.
#[derive(Debug, Clone, Copy, PartialEq, Eq, Structural)]
pub enum HwDeviceType {
    D3d12va,
    Vulkan,
    Other,
}

/// How the pixels of a picture are stored.
#[derive(Debug, Clone, Copy, PartialEq, Eq, Structural)]
pub enum PixelFormat {
    NoFormat,
    D3d12,
    Vulkan,
    Nv12,
    P010le,
    Yuv420p,
    Yuv420p10,
    Yuv420p10le,
    Other(i32),
}

/// Finds the first configuration of a codec that decodes on the preferred kind of device.
pub fn find_hw_config(configs: &Vec<HwDeviceType>) -> (found: Option<usize>)
    ensures
        match found {
            Some(i) => i < configs@.len() && configs@[i as int] == HwDeviceType::D3d12va && forall|
                j: int,
            |
                0 <= j < i ==> #[trigger] configs@[j] != HwDeviceType::D3d12va,
            None => forall|j: int|
                0 <= j < configs@.len() ==> #[trigger] configs@[j] != HwDeviceType::D3d12va,
        },
{
    let mut idx: usize = 0;
    while idx < configs.len()
        invariant
            idx <= configs@.len(),
            forall|j: int| 0 <= j < idx ==> #[trigger] configs@[j] != HwDeviceType::D3d12va,
        decreases configs@.len() - idx,
    {
        if let HwDeviceType::D3d12va = configs[idx] {
            return Some(idx);
        }
        idx = idx + 1;
    }
    None
}

/// Why no decoder can be chosen.
#[derive(Debug, Clone, Copy, PartialEq, Eq, Structural)]
pub enum DecoderChoiceError {
    /// The decoder has no codec.
    NoCodec,
}

/// The configurations of a codec, if there is one.
pub open spec fn configs_of(configs: Option<Vec<HwDeviceType>>) -> Option<Seq<HwDeviceType>> {
    match configs {
        Some(list) => Some(list@),
        None => None,
    }
}

/// Whether pictures are decoded on a device.
pub open spec fn device_choice(
    configs: Option<Seq<HwDeviceType>>,
    device_status: i32,
) -> Result<bool, DecoderChoiceError> {
    match configs {
        None => Err(DecoderChoiceError::NoCodec),
        Some(list) => Ok(list.contains(HwDeviceType::D3d12va) && device_status == 0),
    }
}

/// Pictures are decoded on a device exactly where the codec can use the preferred kind and it could
/// be opened; else the processor decodes them. Only a decoder without a codec is refused.
pub proof fn law_device_is_preferred(
    state: DecoderState,
    list: Seq<HwDeviceType>,
    device_status: i32,
    i: int,
)
    ensures
        device_choice(None, device_status) is Err,
        device_choice(Some(list), device_status) is Ok,
        0 <= i < list.len() && list[i] == HwDeviceType::D3d12va && device_status == 0 ==> device_choice(
            Some(list),
            device_status,
        ) == Ok::<bool, DecoderChoiceError>(true),
        device_status != 0 || (forall|k: int|
            0 <= k < list.len() ==> (#[trigger] list[k]) != HwDeviceType::D3d12va) ==> device_choice(
            Some(list),
            device_status,
        ) == Ok::<bool, DecoderChoiceError>(false),
        state.with_device(true).hardware_config_flag,
        state.with_device(false) == state,
{
}

/// What a decoder has for sound and pictures is what is flushed when the source is moved, and
/// nothing is taken away by having one or the other.
pub proof fn law_decoders_are_noted(state: DecoderState, width: u32, height: u32)
    ensures
        state.with_audio_decoder().flushed().audio,
        state.with_audio_decoder().has_resampler,
        state.with_audio_decoder().flushed().video == state.flushed().video,
        state.with_video_decoder(width, height).flushed().video,
        state.with_video_decoder(width, height).flushed().audio == state.flushed().audio,
        state.with_video_decoder(width, height).video_frame_rect.0 == width,
        state.with_video_decoder(width, height).video_frame_rect.1 == height,
        state.with_audio_decoder().started().flushed().audio,
        state.with_video_decoder(width, height).started().flushed().video,
{
}

impl TinyDecoder {
    /// Decides whether pictures are decoded on a device. `configs` are those of the codec, if there
    /// is one, and `device_status` is what came of opening the device; zero means success. Without
    /// a suitable device, or where it cannot be opened, the processor decodes.
    pub fn choose_decoder_with_hardware_prefer(
        &mut self,
        configs: &Option<Vec<HwDeviceType>>,
        device_status: i32,
    ) -> (on_device: Result<bool, DecoderChoiceError>)
        ensures
            on_device == device_choice(configs_of(*configs), device_status),
            final(self)@ == old(self)@.with_device(on_device is Ok && on_device.unwrap()),
    {
        match configs {
            None => Err(DecoderChoiceError::NoCodec),
            Some(list) => {
                let found = find_hw_config(list).is_some() && device_status == 0;
                if found {
                    self.hardware_config_flag = true;
                }
                Ok(found)
            },
        }
    }
}

/// Where a list of pixel formats ends: at the first entry that is none.
pub open spec fn formats_end(formats: Seq<PixelFormat>, end: int) -> bool {
    &&& 0 <= end < formats.len()
    &&& formats[end] == PixelFormat::NoFormat
    &&& forall|j: int| 0 <= j < end ==> #[trigger] formats[j] != PixelFormat::NoFormat
}

/// The pixel format of a decoder that offers those before `end`.
pub open spec fn picked_format(formats: Seq<PixelFormat>, end: int) -> PixelFormat {
    if formats.take(end).contains(PixelFormat::D3d12) {
        PixelFormat::D3d12
    } else {
        formats[0]
    }
}

/// The format of the preferred device is picked wherever it is offered before the list ends, and
/// else the first one.
pub proof fn law_device_format_is_picked(formats: Seq<PixelFormat>, end: int)
    requires
        formats_end(formats, end),
    ensures
        forall|i: int|
            0 <= i < end && #[trigger] formats[i] == PixelFormat::D3d12 ==> picked_format(formats, end)
                == PixelFormat::D3d12,
        (forall|i: int| 0 <= i < end ==> (#[trigger] formats[i]) != PixelFormat::D3d12)
            ==> picked_format(formats, end) == formats[0],
        formats[end] == PixelFormat::NoFormat,
        forall|i: int| 0 <= i < end ==> (#[trigger] formats[i]) != PixelFormat::NoFormat,
{
    assert forall|i: int| 0 <= i < end && #[trigger] formats[i]
        == PixelFormat::D3d12 implies picked_format(formats, end) == PixelFormat::D3d12 by {
        assert(formats.take(end)[i] == PixelFormat::D3d12);
    }
}

/// Picks the pixel format of a decoder out of those that it offers: that of the preferred device,
/// or else the first one.
pub fn get_format_callback(formats: &Vec<PixelFormat>) -> (picked: PixelFormat)
    requires
        exists|end: int| formats_end(formats@, end),
    ensures
        forall|end: int|
            formats_end(formats@, end) ==> picked == picked_format(formats@, end),
{
    let ghost end = choose|end: int| formats_end(formats@, end);
    let len: usize = formats.len();
    let mut i: usize = 0;
    loop
        invariant
            len == formats@.len(),
            formats_end(formats@, end),
            i <= end,
            forall|j: int| 0 <= j < i ==> #[trigger] formats@[j] != PixelFormat::D3d12,
        ensures
            i == end,
        decreases end - i,
    {
        match formats[i] {
            PixelFormat::NoFormat => {
                break;
            },
            PixelFormat::D3d12 => {
                proof {
                    assert forall|other: int| formats_end(formats@, other) implies formats@.take(
                        other,
                    ).contains(PixelFormat::D3d12) by {
                        lemma_formats_end(formats@, end, other);
                        assert(formats@.take(end)[i as int] == PixelFormat::D3d12);
                    }
                }
                return PixelFormat::D3d12;
            },
            _ => {},
        }
        i = i + 1;
    }
    proof {
        assert forall|other: int| formats_end(formats@, other) implies !formats@.take(
            other,
        ).contains(PixelFormat::D3d12) by {
            lemma_formats_end(formats@, end, other);
        }
    }
    formats[0]
}

/// A list of pixel formats has only one end.
pub proof fn lemma_formats_end(formats: Seq<PixelFormat>, a: int, b: int)
    requires
        formats_end(formats, a),
        formats_end(formats, b),
    ensures
        a == b,
{
    if a < b {
        assert(formats[a] != PixelFormat::NoFormat);
    } else if b < a {
        assert(formats[b] != PixelFormat::NoFormat);
    }
}

proof fn lemma_last_stream(streams: Seq<StreamInfo>, wanted: spec_fn(StreamInfo) -> bool)
    ensures
        match last_stream(streams, wanted) {
            Some(stream) => streams.contains(stream) && wanted(stream),
            None => forall|i: int| 0 <= i < streams.len() ==> !wanted(#[trigger] streams[i]),
        },
    decreases streams.len(),
{
    if streams.len() > 0 {
        let front = streams.drop_last();
        lemma_last_stream(front, wanted);
        assert(streams.last() == streams[streams.len() - 1]);
        if !wanted(streams.last()) {
            match last_stream(front, wanted) {
                Some(stream) => {
                    let i = choose|i: int| 0 <= i < front.len() && front[i] == stream;
                    assert(streams[i] == stream);
                },
                None => {
                    assert forall|i: int| 0 <= i < streams.len() implies !wanted(
                        #[trigger] streams[i],
                    ) by {
                        if i < front.len() {
                            assert(front[i] == streams[i]);
                        }
                    }
                },
            }
        }
    }
}

proof fn lemma_first_stream(streams: Seq<StreamInfo>, wanted: spec_fn(StreamInfo) -> bool)
    ensures
        match first_stream(streams, wanted) {
            Some(stream) => streams.contains(stream) && wanted(stream),
            None => forall|i: int| 0 <= i < streams.len() ==> !wanted(#[trigger] streams[i]),
        },
    decreases streams.len(),
{
    if streams.len() > 0 {
        let front = streams.drop_last();
        lemma_first_stream(front, wanted);
        assert(streams.last() == streams[streams.len() - 1]);
        match first_stream(front, wanted) {
            Some(stream) => {
                let i = choose|i: int| 0 <= i < front.len() && front[i] == stream;
                assert(streams[i] == stream);
            },
            None => {
                assert forall|i: int| 0 <= i < front.len() implies !wanted(
                    #[trigger] streams[i],
                ) by {
                    assert(front[i] == streams[i]);
                }
            },
        }
    }
}

/// The chosen streams are streams of the source, each of its kind, and a kind is missing only if
/// the source has no stream of it.
pub proof fn law_chosen_streams(streams: Seq<StreamInfo>)
    ensures
        ({
            let found = chosen(streams);
            &&& match found.audio {
                Some(stream) => streams.contains(stream) && stream.has_audio(),
                None => forall|i: int|
                    0 <= i < streams.len() ==> !(#[trigger] streams[i]).has_audio(),
            }
            &&& match found.video {
                Some(stream) => streams.contains(stream) && stream.has_video(),
                None => forall|i: int|
                    0 <= i < streams.len() ==> !(#[trigger] streams[i]).has_video(),
            }
            &&& match found.cover {
                Some(stream) => streams.contains(stream) && stream.has_cover(),
                None => forall|i: int|
                    0 <= i < streams.len() ==> !(#[trigger] streams[i]).has_cover(),
            }
        }),
{
    lemma_first_stream(streams, |stream: StreamInfo| stream.has_audio());
    lemma_last_stream(streams, |stream: StreamInfo| stream.has_video());
    lemma_last_stream(streams, |stream: StreamInfo| stream.has_cover());
}

/// No stream is used for two things.
pub proof fn law_streams_have_one_use(stream: StreamInfo)
    ensures
        !(stream.has_audio() && stream.has_video()),
        !(stream.has_audio() && stream.has_cover()),
        !(stream.has_video() && stream.has_cover()),
{
}

/// Of several streams the player uses the last one with moving pictures, the last cover and the
/// first one with sound. A picture that is only attached is a cover.
pub proof fn law_choice_among_streams(streams: Seq<StreamInfo>, i: int)
    requires
        0 <= i < streams.len(),
    ensures
        ({
            let found = chosen(streams);
            let stream = streams[i];
            &&& stream.medium == MediaType::Audio && (forall|k: int|
                0 <= k < i ==> (#[trigger] streams[k]).medium != MediaType::Audio) ==> found.audio
                == Some(stream)
            &&& stream.medium == MediaType::Video && stream.disposition != 1024 && (forall|k: int|
                i < k < streams.len() ==> (#[trigger] streams[k]).medium != MediaType::Video
                    || streams[k].disposition == 1024) ==> found.video == Some(stream)
            &&& (stream.medium == MediaType::Attachment || stream.medium == MediaType::Video
                && stream.disposition == 1024) && (forall|k: int|
                i < k < streams.len() ==> (#[trigger] streams[k]).medium != MediaType::Attachment && (
                streams[k].medium != MediaType::Video || streams[k].disposition != 1024))
                ==> found.cover == Some(stream)
            &&& found.audio is Some ==> found.audio.unwrap().medium == MediaType::Audio
            &&& found.video is Some ==> found.video.unwrap().medium == MediaType::Video
            &&& found.cover is Some ==> found.cover.unwrap().medium == MediaType::Attachment
                || found.cover.unwrap().medium == MediaType::Video
        }),
{
    law_chosen_streams(streams);
    lemma_first_at(streams, |stream: StreamInfo| stream.has_audio(), i);
    lemma_last_at(streams, |stream: StreamInfo| stream.has_video(), i);
    lemma_last_at(streams, |stream: StreamInfo| stream.has_cover(), i);
}

proof fn lemma_first_at(streams: Seq<StreamInfo>, wanted: spec_fn(StreamInfo) -> bool, i: int)
    requires
        0 <= i < streams.len(),
    ensures
        wanted(streams[i]) && (forall|k: int| 0 <= k < i ==> !wanted(#[trigger] streams[k]))
            ==> first_stream(streams, wanted) == Some(streams[i]),
    decreases streams.len(),
{
    if wanted(streams[i]) && forall|k: int| 0 <= k < i ==> !wanted(#[trigger] streams[k]) {
        let front = streams.drop_last();
        if i < front.len() {
            assert(forall|k: int| 0 <= k < front.len() ==> front[k] == #[trigger] streams[k]);
            lemma_first_at(front, wanted, i);
        } else {
            lemma_first_stream(front, wanted);
            if let Some(stream) = first_stream(front, wanted) {
                let k = choose|k: int| 0 <= k < front.len() && front[k] == stream;
                assert(streams[k] == stream);
            }
        }
    }
}

proof fn lemma_last_at(streams: Seq<StreamInfo>, wanted: spec_fn(StreamInfo) -> bool, i: int)
    requires
        0 <= i < streams.len(),
    ensures
        wanted(streams[i]) && (forall|k: int|
            i < k < streams.len() ==> !wanted(#[trigger] streams[k])) ==> last_stream(streams, wanted)
            == Some(streams[i]),
    decreases streams.len(),
{
    if wanted(streams[i]) && forall|k: int|
        i < k < streams.len() ==> !wanted(#[trigger] streams[k]) {
        let front = streams.drop_last();
        if i < front.len() {
            assert(!wanted(streams[streams.len() - 1]));
            assert(forall|k: int| 0 <= k < front.len() ==> front[k] == #[trigger] streams[k]);
            lemma_last_at(front, wanted, i);
        }
    }
}

/// A decoder takes the index and the time base of each stream that is used. Playback follows the
/// sound wherever there is sound, and the pictures where there are only pictures.
pub proof fn law_streams_are_taken(state: DecoderState, found: ChosenStreams)
    requires
        state.main_stream == MainStream::Audio,
    ensures
        ({
            let taken = with_streams(state, found);
            &&& found.audio is Some ==> taken.audio_stream_index == found.audio.unwrap().index
                && taken.audio_time_base == found.audio.unwrap().time_base && taken.main_index()
                == found.audio.unwrap().index && taken.main_base() == found.audio.unwrap().time_base
            &&& found.audio is None && found.video is Some ==> taken.main_index()
                == found.video.unwrap().index && taken.main_base() == found.video.unwrap().time_base
            &&& found.video is Some ==> taken.video_stream_index == found.video.unwrap().index
                && taken.video_time_base == found.video.unwrap().time_base
            &&& found.cover is Some ==> taken.cover_stream_index == found.cover.unwrap().index
            &&& found.audio is None ==> taken.audio_stream_index == state.audio_stream_index
                && taken.audio_time_base == state.audio_time_base
            &&& found.video is None ==> taken.video_stream_index == state.video_stream_index
                && taken.video_time_base == state.video_time_base
            &&& found.cover is None ==> taken.cover_stream_index == state.cover_stream_index
        }),
{
}

/// Playback follows the pictures exactly where there are only pictures, or where it did so before.
pub proof fn law_main_stream(state: DecoderState, found: ChosenStreams)
    ensures
        with_streams(state, found).main_stream == MainStream::Video <==> state.main_stream
            == MainStream::Video || found.video is Some && found.audio is None,
        with_streams(state, found).main_base() == match with_streams(state, found).main_stream {
            MainStream::Video => with_streams(state, found).video_time_base,
            MainStream::Audio => with_streams(state, found).audio_time_base,
        },
{
}

/// What a decoder is before it has a source: no stream, no task, no decoder, nothing to play and
/// nothing that tells a task to end.
pub proof fn law_fresh_decoder_is_idle(
    media_source_flag: bool,
    end_timestamp: i64,
    hardware_config_flag: bool,
    audio_frames: usize,
    video_frames: usize,
)
    ensures
        ({
            let fresh = fresh_decoder(
                media_source_flag,
                end_timestamp,
                hardware_config_flag,
                audio_frames,
                video_frames,
            );
            let tasks = fresh.tasks();
            &&& !tasks.demux && !tasks.video_decode && !tasks.audio_decode
            &&& !fresh.demux_exit_flag && !fresh.decode_exit_flag
            &&& !fresh.has_input && !fresh.has_audio_decoder && !fresh.has_video_decoder
                && !fresh.has_resampler
            &&& fresh.audio_stream_index == usize::MAX && fresh.video_stream_index == usize::MAX
                && fresh.cover_stream_index == usize::MAX
            &&& fresh.main_base() == (Rational { numerator: 1, denominator: 1 })
            &&& fresh.video_time_base == (Rational { numerator: 1, denominator: 1 })
            &&& fresh.main_stream == MainStream::Audio
            &&& fresh.cover is None && fresh.end_time.len() == 0 && fresh.format_duration == 0
            &&& fresh.media_source_flag == media_source_flag && fresh.end_timestamp == end_timestamp
                && fresh.hardware_config_flag == hardware_config_flag
            &&& fresh.waiting.audio_packets == 0 && fresh.waiting.video_packets == 0
            &&& fresh.waiting.audio_frames == audio_frames && fresh.waiting.video_frames
                == video_frames
        }),
{
}

/// A source that was started is being played, with a task for each of its parts, and each task
/// keeps the streams that the decoder uses. Where a new source comes, all those tasks are stopped,
/// and nothing of the old source is left. Where none was started, nothing changes.
pub proof fn law_started_is_left(state: DecoderState)
    ensures
        state.started().has_input && state.started().media_source_flag,
        state.started().tasks().demux && state.started().tasks().video_decode
            && state.started().tasks().audio_decode,
        state.demux_context().audio_stream_index == state.audio_stream_index,
        state.demux_context().video_stream_index == state.video_stream_index,
        state.demux_context().cover_stream_index == state.cover_stream_index,
        state.started().audio_time_base == state.audio_time_base,
        state.started().video_time_base == state.video_time_base,
        state.started().main_stream == state.main_stream,
        state.started().end_timestamp == state.end_timestamp,
        !state.started().ready().has_input && !state.started().ready().media_source_flag,
        !state.started().ready().tasks().demux && !state.started().ready().tasks().video_decode
            && !state.started().ready().tasks().audio_decode,
        state.started().ready().waiting.video_frames == 0,
        state.started().ready().waiting.audio_frames == 0,
        !state.tasks().demux ==> state.ready() == state,
{
}

/// A decoder that is stopped or done for good tells all its tasks to end; one that is done has none
/// left, and no resampler.
pub proof fn law_tasks_are_told_to_end(state: DecoderState, kind: DecodeKind, queued_frames: usize)
    ensures
        state.stopped().demux_exit_flag && state.stopped().decode_exit_flag,
        state.stopped().tasks() == state.tasks(),
        state.closed().demux_exit_flag && state.closed().decode_exit_flag,
        !state.closed().tasks().demux && !state.closed().tasks().video_decode
            && !state.closed().tasks().audio_decode && !state.closed().has_resampler,
        demux_action(state.stopped().demux_exit_flag, 0, 0) == DemuxAction::Exit,
        next_phase(
            kind,
            DecodePhase::Check,
            DecodeEvent::Checked { exit: state.closed().decode_exit_flag, queued_frames },
        ) == DecodePhase::Ended(None),
{
}

/// A source is moved in ticks of its main stream, to the given time or before it and never past it,
/// to any frame; then the decoders that there are start anew, and nothing from before waits any
/// more. Without a source nothing is asked for.
pub proof fn law_seek(state: DecoderState, ts: i64)
    requires
        state.main_index() <= i32::MAX,
    ensures
        state.seek_plan(ts) is Some <==> state.has_input,
        state.has_input ==> {
            let plan = state.seek_plan(ts).unwrap();
            &&& plan.request.ts == ts && plan.request.max_ts == ts && plan.request.min_ts == i64::MIN
            &&& plan.request.flags == 4
            &&& state.main_stream == MainStream::Audio ==> plan.request.stream_index
                == state.audio_stream_index
            &&& state.main_stream == MainStream::Video ==> plan.request.stream_index
                == state.video_stream_index
            &&& plan.flush.audio == state.has_audio_decoder
            &&& plan.flush.video == state.has_video_decoder
        },
        ({
            let waiting = state.moved().waiting;
            waiting.audio_packets + waiting.video_packets + waiting.audio_frames + waiting.video_frames
                == 0
        }),
        state.moved().tasks() == state.tasks() && state.moved().has_input == state.has_input,
{
}

/// The ticks of the end are the whole ticks of the duration, where the time base is a positive
/// length: they do not last longer than the duration, and one more tick would. Their whole seconds
/// are counted the same way. A source that does not tell its duration ends at zero.
pub proof fn law_end_is_the_duration(base: Rational, duration: i64)
    requires
        base.numerator > 0,
        base.denominator > 0,
        duration >= 0,
    ensures
        ({
            let ticks = end_ticks(base, duration);
            let seconds = seconds_of(base, ticks);
            &&& 0 <= ticks
            &&& ticks * (base.numerator * 1_000_000) <= duration * base.denominator < (ticks + 1) * (
            base.numerator * 1_000_000)
            &&& 0 <= seconds
            &&& seconds * base.denominator <= ticks * base.numerator < (seconds + 1)
                * base.denominator
        }),
        end_ticks(base, i64::MIN) == 0,
{
    let (n, d, t) = (base.numerator as int, base.denominator as int, duration as int);
    let product = t * d;
    assert(product >= 0) by (nonlinear_arith)
        requires
            product == t * d,
            t >= 0,
            d > 0,
    ;
    crate::arith::lemma_trunc_by_positive(product, n);
    let scaled = product / n;
    vstd::arithmetic::div_mod::lemma_div_pos_is_pos(product, n);
    crate::arith::lemma_trunc_by_positive(scaled, 1_000_000);
    let ticks = scaled / 1_000_000;
    assert(ticks == end_ticks(base, duration));
    vstd::arithmetic::div_mod::lemma_div_denominator(product, n, 1_000_000);
    let whole = n * 1_000_000;
    assert(ticks == product / whole);
    vstd::arithmetic::div_mod::lemma_fundamental_div_mod(product, whole);
    assert(ticks * whole <= product < (ticks + 1) * whole) by (nonlinear_arith)
        requires
            product == whole * ticks + product % whole,
            0 <= product % whole < whole,
    ;
    let lasting = ticks * n;
    assert(lasting >= 0) by (nonlinear_arith)
        requires
            lasting == ticks * n,
            ticks >= 0,
            n > 0,
    ;
    crate::arith::lemma_trunc_by_positive(lasting, d);
    let seconds = lasting / d;
    vstd::arithmetic::div_mod::lemma_div_pos_is_pos(lasting, d);
    vstd::arithmetic::div_mod::lemma_fundamental_div_mod(lasting, d);
    assert(seconds * d <= lasting < (seconds + 1) * d) by (nonlinear_arith)
        requires
            lasting == d * seconds + lasting % d,
            0 <= lasting % d < d,
    ;
}

/// Every source whose duration in ticks is within the machine's range, where its time base is a
/// positive length, is accepted; so is one that does not tell its duration.
pub proof fn law_sources_are_accepted(base: Rational, duration: i64)
    requires
        base.numerator > 0,
        base.denominator > 0,
    ensures
        duration >= 0 && duration * base.denominator <= i64::MAX ==> source_fits(base, duration),
        source_fits(base, i64::MIN),
{
    reveal(source_fits);
    assert(0 * base.numerator == 0) by (nonlinear_arith);
    if duration >= 0 && duration * base.denominator <= i64::MAX {
        law_end_is_the_duration(base, duration);
        let ticks = end_ticks(base, duration);
        let n = base.numerator as int;
        assert(0 <= ticks * n <= ticks * (n * 1_000_000)) by (nonlinear_arith)
            requires
                ticks >= 0,
                n > 0,
        ;
        assert(0 <= duration * base.denominator) by (nonlinear_arith)
            requires
                duration >= 0,
                base.denominator > 0,
        ;
    }
}

/// A decoder notes the duration, and the ticks in which it lasts on the clock that playback
/// follows. Where these are less than a day, the end is shown as a time of day of just as many
/// seconds; where they are not, what was shown stays.
pub proof fn law_duration_is_noted(state: DecoderState, duration: i64)
    requires
        state.main_base().numerator > 0,
        state.main_base().denominator > 0,
        duration >= 0,
        duration * state.main_base().denominator <= i64::MAX,
    ensures
        ({
            let base = state.main_base();
            let noted = with_duration(state, duration);
            let seconds = seconds_of(base, end_ticks(base, duration));
            &&& noted.format_duration == duration
            &&& noted.end_timestamp == end_ticks(base, duration)
            &&& seconds < 86400 ==> exists|time: ClockTime|
                time.hour * 3600 + time.minute * 60 + time.second == seconds && noted.end_time
                    == #[trigger] time_text(time)
            &&& 86400 <= seconds < 256 * 3600 ==> noted.end_time == state.end_time
            &&& noted.main_base() == base && noted.audio_stream_index == state.audio_stream_index
                && noted.video_stream_index == state.video_stream_index
        }),
{
    reveal(end_time_of);
    let base = state.main_base();
    law_end_is_the_duration(base, duration);
    law_sources_are_accepted(base, duration);
    let ticks = end_ticks(base, duration);
    let seconds = seconds_of(base, ticks);
    let n = base.numerator as int;
    assert(ticks <= ticks * (n * 1_000_000)) by (nonlinear_arith)
        requires
            ticks >= 0,
            n > 0,
    ;
    if seconds < 86400 {
        law_clock_tells_seconds(seconds);
    }
    law_no_time_after_a_day(seconds);
    let noted = with_duration(state, duration);
    assert(noted.main_base() == base);
}

/// A packet of a stream that is not used is dropped. Nothing is dropped at the end of the source:
/// the demuxer looks again after ten milliseconds there, and at once where reading failed.
pub proof fn law_nothing_used_is_dropped(context: DemuxContext, stream: usize, has_data: bool)
    ensures
        ({
            let used = context.use_of(PacketRead::Packet { stream_index: stream, has_data });
            &&& !(used is RetryAfter)
            &&& used == PacketUse::Drop ==> stream == context.cover_stream_index && !has_data || stream
                != context.cover_stream_index && stream != context.audio_stream_index && stream
                != context.video_stream_index
            &&& stream != context.cover_stream_index && stream != context.audio_stream_index && stream
                != context.video_stream_index ==> used == PacketUse::Drop
        }),
        context.use_of(PacketRead::Eof) == (PacketUse::RetryAfter { millis: 10 }),
        forall|read: PacketRead|
            !(read is Packet) && !(read is Eof) ==> #[trigger] context.use_of(read)
                == (PacketUse::RetryAfter { millis: 0 }),
{
}

/// A frame that was converted goes into the queue: a picture always, sound where the conversion
/// succeeded. Decoding of sound ends with an error exactly where it did not.
pub proof fn law_converted_is_sent(kind: DecodeKind, status: i32)
    ensures
        ({
            let next = next_phase(kind, DecodePhase::ConvertFrame, DecodeEvent::Converted { status });
            &&& status == 0 ==> next == DecodePhase::SendFrame
            &&& kind == DecodeKind::Video ==> next == DecodePhase::SendFrame
            &&& next == DecodePhase::Ended(Some(DecodeError::ConvertFailed)) <==> kind
                == DecodeKind::Audio && status != 0
        }),
{
}

/// A task ends only where it sees the exit flag, where sound has no resampler, or where sound could
/// not be converted, and it says which of these it was.
pub proof fn law_what_ends_decoding(kind: DecodeKind, phase: DecodePhase, event: DecodeEvent)
    requires
        !(phase is Ended),
        next_phase(kind, phase, event) is Ended,
    ensures
        match next_phase(kind, phase, event)->Ended_0 {
            None => event is Checked && event->exit,
            Some(DecodeError::NoResampler) => kind == DecodeKind::Audio && event is PacketTaken
                && event->accepted && !event->has_resampler,
            Some(DecodeError::ConvertFailed) => kind == DecodeKind::Audio && event is Converted
                && event->status != 0,
        },
{
}

/// Where a task may go on and fewer than 15 pictures, or 30 pieces of sound, wait, it takes a
/// packet; else it waits for room and then looks again. A packet goes to the decoder, if there is
/// one, and what the decoder takes is followed by its frames, one by one, until it gives none; then
/// the task looks again.
pub proof fn law_packets_are_decoded(kind: DecodeKind, queued_frames: usize, packets_left: usize)
    ensures
        ({
            let checked = next_phase(
                kind,
                DecodePhase::Check,
                DecodeEvent::Checked { exit: false, queued_frames },
            );
            let room = if kind == DecodeKind::Video {
                15int
            } else {
                30int
            };
            &&& queued_frames < room ==> checked == DecodePhase::ReceivePacket
            &&& queued_frames >= room ==> checked == DecodePhase::WaitForRoom
        }),
        next_phase(kind, DecodePhase::WaitForRoom, DecodeEvent::Noticed) == DecodePhase::Check,
        next_phase(kind, DecodePhase::ReceivePacket, DecodeEvent::NoPacket) == DecodePhase::Check,
        next_phase(
            kind,
            DecodePhase::ReceivePacket,
            DecodeEvent::PacketCame { packets_left, has_decoder: true },
        ) == DecodePhase::FeedDecoder,
        next_phase(
            kind,
            DecodePhase::ReceivePacket,
            DecodeEvent::PacketCame { packets_left, has_decoder: false },
        ) == DecodePhase::Check,
        next_phase(
            kind,
            DecodePhase::FeedDecoder,
            DecodeEvent::PacketTaken { accepted: true, has_resampler: true },
        ) == DecodePhase::TakeFrame,
        next_phase(
            DecodeKind::Video,
            DecodePhase::FeedDecoder,
            DecodeEvent::PacketTaken { accepted: true, has_resampler: false },
        ) == DecodePhase::TakeFrame,
        next_phase(
            DecodeKind::Audio,
            DecodePhase::FeedDecoder,
            DecodeEvent::PacketTaken { accepted: true, has_resampler: false },
        ) == DecodePhase::Ended(Some(DecodeError::NoResampler)),
        forall|has_resampler: bool| #[trigger]
            next_phase(
                kind,
                DecodePhase::FeedDecoder,
                DecodeEvent::PacketTaken { accepted: false, has_resampler },
            ) == DecodePhase::Check,
        next_phase(kind, DecodePhase::TakeFrame, DecodeEvent::FrameCame { given: true })
            == DecodePhase::ConvertFrame,
        next_phase(kind, DecodePhase::TakeFrame, DecodeEvent::FrameCame { given: false })
            == DecodePhase::Check,
        next_phase(kind, DecodePhase::SendFrame, DecodeEvent::FrameSent) == DecodePhase::TakeFrame,
{
}

/// The demuxer is asked for more exactly when a packet came and fewer than 200 are left, whether or
/// not there is a decoder.
pub proof fn law_demuxer_is_asked(phase: DecodePhase, event: DecodeEvent)
    ensures
        asks_for_packets(phase, event) <==> phase == DecodePhase::ReceivePacket && event is PacketCame
            && event->packets_left < 200,
{
}

/// How many frames the decoder has given to a task in some events.
pub open spec fn frames_given(kind: DecodeKind, events: Seq<DecodeEvent>) -> nat
    decreases events.len(),
{
    if events.len() == 0 {
        0
    } else {
        let before = frames_given(kind, events.drop_last());
        if phase_after(kind, events.drop_last()) == DecodePhase::TakeFrame && events.last() == (
        DecodeEvent::FrameCame { given: true }) {
            before + 1
        } else {
            before
        }
    }
}

/// How many frames a task has put into the queue in some events.
pub open spec fn frames_queued(kind: DecodeKind, events: Seq<DecodeEvent>) -> nat
    decreases events.len(),
{
    if events.len() == 0 {
        0
    } else {
        let before = frames_queued(kind, events.drop_last());
        if phase_after(kind, events.drop_last()) == DecodePhase::SendFrame && events.last()
            == DecodeEvent::FrameSent {
            before + 1
        } else {
            before
        }
    }
}

/// Every frame that the decoder gives goes into the queue, and nothing else does: at any time at
/// most one is on its way, and a frame is lost only where sound could not be converted.
pub proof fn law_every_frame_is_sent(kind: DecodeKind, events: Seq<DecodeEvent>)
    ensures
        frames_given(kind, events) == frames_queued(kind, events) + match phase_after(kind, events) {
            DecodePhase::ConvertFrame => 1int,
            DecodePhase::SendFrame => 1int,
            DecodePhase::Ended(Some(DecodeError::ConvertFailed)) => 1int,
            _ => 0int,
        },
    decreases events.len(),
{
    if events.len() > 0 {
        law_every_frame_is_sent(kind, events.drop_last());
    }
}

/// What happens out of turn changes nothing: only what a phase waits for leads on from it.
pub proof fn law_events_out_of_turn(kind: DecodeKind, phase: DecodePhase, event: DecodeEvent)
    ensures
        next_phase(kind, phase, event) != phase ==> match phase {
            DecodePhase::Check => event is Checked,
            DecodePhase::WaitForRoom => event is Noticed,
            DecodePhase::ReceivePacket => event is NoPacket || event is PacketCame,
            DecodePhase::FeedDecoder => event is PacketTaken,
            DecodePhase::TakeFrame => event is FrameCame,
            DecodePhase::ConvertFrame => event is Converted,
            DecodePhase::SendFrame => event is FrameSent,
            DecodePhase::Ended(_) => false,
        },
{
}

/// A source that does not tell its duration is taken to end at the start, which is shown so.
pub proof fn law_unknown_duration(state: DecoderState)
    requires
        state.main_base().denominator > 0,
    ensures
        with_duration(state, i64::MIN).format_duration == 0,
        with_duration(state, i64::MIN).end_timestamp == 0,
        with_duration(state, i64::MIN).end_time == time_text(
            ClockTime { hour: 0, minute: 0, second: 0 },
        ),
{
    reveal(end_time_of);
    let base = state.main_base();
    assert(0 * base.numerator == 0) by (nonlinear_arith);
    crate::arith::lemma_trunc_by_positive(0, base.denominator as int);
    assert(seconds_of(base, 0) == 0);
    law_clock_tells_seconds(0);
}

} // verus!
