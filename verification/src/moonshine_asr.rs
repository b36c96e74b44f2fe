//! Transcription by a streaming model.
use vstd::prelude::*;

#[allow(unused_imports)]
use vstd::utf8::{decode_utf8, valid_utf8};

verus! {

/// The kind of model that is loaded: a tiny one that transcribes while it listens.
pub const MOONSHINE_MODEL_ARCH_TINY_STREAMING: u32 = 2;

/// The version of the model's interface.
pub const MOONSHINE_HEADER_VERSION: i32 = 20000;

/// The language that is transcribed, if any.
#[derive(Debug, Clone, Copy, PartialEq, Eq, Structural)]
pub enum UsedModel {
    NoModel,
    Chinese,
    English,
}

/// What can go wrong with transcription.
#[derive(Debug, Clone, Copy, PartialEq, Eq, Structural)]
pub enum TranscribeError {
    /// The stream could not be started.
    StartStream,
    /// The sound could not be added to the stream.
    AddAudio,
    /// The stream could not be transcribed.
    TranscribeStream,
    /// A line is not UTF-8.
    NotText,
}

/// A line of a transcript.
#[derive(Debug)]
pub struct TranscriptLine {
    pub text: Vec<u8>,
    /// Zero means that the speaker has not finished talking.
    pub is_complete: i8,
}

/// A model that transcribes a stream.
#[derive(Debug, Clone, Copy, PartialEq, Eq, Structural)]
pub struct Transcriber {
    pub transcriber_handle: i32,
    pub stream_handle: i32,
}

/// Reads bytes as text.
///
/// Trusted: `std::str::from_utf8`. It succeeds if and only if the bytes are UTF-8, and the text is
/// what they encode.
#[verifier::external_body]
fn text_from(bytes: &[u8]) -> (text: Option<String>)
    ensures
        match text {
            Some(text) => valid_utf8(bytes@) && text@ == decode_utf8(bytes@),
            None => !valid_utf8(bytes@),
        },
{
    match std::str::from_utf8(bytes) {
        Ok(text) => Some(text.to_string()),
        Err(_) => None,
    }
}

/// The texts of the first `n` lines that are still being spoken, up to the first one that is not
/// text.
pub open spec fn spoken(lines: Seq<TranscriptLine>, n: int) -> Seq<Seq<char>>
    decreases n,
{
    if n <= 0 {
        Seq::empty()
    } else if lines[n - 1].is_complete == 0 && all_text(lines, n) {
        spoken(lines, n - 1).push(decode_utf8(lines[n - 1].text@))
    } else {
        spoken(lines, n - 1)
    }
}

/// Whether the first `n` lines that are still being spoken are text.
pub open spec fn all_text(lines: Seq<TranscriptLine>, n: int) -> bool {
    forall|i: int|
        0 <= i < n && (#[trigger] lines[i]).is_complete == 0 ==> valid_utf8(lines[i].text@)
}

/// The values of some texts.
pub open spec fn texts_of(texts: Seq<String>) -> Seq<Seq<char>> {
    texts.map_values(|text: String| text@)
}

/// The model with its stream, or why there is none.
pub open spec fn started(
    transcriber_handle: i32,
    stream_handle: i32,
    start_status: i32,
) -> Result<Transcriber, TranscribeError> {
    if start_status == 0 {
        Ok(Transcriber { transcriber_handle, stream_handle })
    } else {
        Err(TranscribeError::StartStream)
    }
}

/// A model is used exactly where its stream could be started, and each handle is kept as what it
/// is.
pub proof fn law_started(transcriber_handle: i32, stream_handle: i32, start_status: i32)
    ensures
        ({
            let made = started(transcriber_handle, stream_handle, start_status);
            &&& made is Ok <==> start_status == 0
            &&& made is Ok ==> made.unwrap().transcriber_handle == transcriber_handle
                && made.unwrap().stream_handle == stream_handle
        }),
{
}

/// What is reported of a transcript, given what came of adding the sound and of transcribing.
pub open spec fn transcript_report(
    add_status: i32,
    transcribe_status: i32,
    lines: Seq<TranscriptLine>,
) -> Result<(), TranscribeError> {
    if add_status != 0 {
        Err(TranscribeError::AddAudio)
    } else if transcribe_status != 0 {
        Err(TranscribeError::TranscribeStream)
    } else if !all_text(lines, lines.len() as int) {
        Err(TranscribeError::NotText)
    } else {
        Ok(())
    }
}

/// What is shown of a transcript.
pub open spec fn transcript_texts(
    add_status: i32,
    transcribe_status: i32,
    lines: Seq<TranscriptLine>,
) -> Seq<Seq<char>> {
    if add_status != 0 || transcribe_status != 0 {
        Seq::empty()
    } else {
        spoken(lines, lines.len() as int)
    }
}

impl Transcriber {
    /// Takes the handles of a model and its stream, given what came of starting the stream; zero
    /// means success.
    pub fn new(transcriber_handle: i32, stream_handle: i32, start_status: i32) -> (made: Result<
        Transcriber,
        TranscribeError,
    >)
        ensures
            made == started(transcriber_handle, stream_handle, start_status),
    {
        if start_status != 0 {
            return Err(TranscribeError::StartStream);
        }
        Ok(Transcriber { transcriber_handle, stream_handle })
    }

    /// Decides what is shown of a transcript: the lines that are still being spoken. The statuses
    /// are what came of adding the sound and of transcribing; zero means success. A line that is
    /// not text is an error, but what comes before it is shown.
    pub fn push_audio_frame(
        add_status: i32,
        transcribe_status: i32,
        lines: &Vec<TranscriptLine>,
    ) -> (shown: (Vec<String>, Result<(), TranscribeError>))
        ensures
            shown.1 == transcript_report(add_status, transcribe_status, lines@),
            texts_of(shown.0@) == transcript_texts(add_status, transcribe_status, lines@),
    {
        let mut texts: Vec<String> = Vec::new();
        assert(texts_of(texts@) =~= Seq::empty());
        if add_status != 0 {
            return (texts, Err(TranscribeError::AddAudio));
        }
        if transcribe_status != 0 {
            return (texts, Err(TranscribeError::TranscribeStream));
        }
        let mut i: usize = 0;
        while i < lines.len()
            invariant
                add_status == 0,
                transcribe_status == 0,
                i <= lines@.len(),
                all_text(lines@, i as int),
                texts_of(texts@) == spoken(lines@, i as int),
            decreases lines@.len() - i,
        {
            if lines[i].is_complete == 0 {
                match text_from(lines[i].text.as_slice()) {
                    Some(text) => {
                        let ghost before = texts_of(texts@);
                        texts.push(text);
                        assert(texts_of(texts@) =~= before.push(text@));
                    },
                    None => {
                        proof {
                            lemma_nothing_after(lines@, i as int, lines@.len() as int);
                        }
                        return (texts, Err(TranscribeError::NotText));
                    },
                }
            }
            i = i + 1;
        }
        (texts, Ok(()))
    }
}

proof fn lemma_nothing_after(lines: Seq<TranscriptLine>, bad: int, n: int)
    requires
        0 <= bad < n <= lines.len(),
        lines[bad].is_complete == 0,
        !valid_utf8(lines[bad].text@),
    ensures
        !all_text(lines, n),
        spoken(lines, n) == spoken(lines, bad),
    decreases n,
{
    assert(lines[bad].is_complete == 0);
    if n - 1 > bad {
        lemma_nothing_after(lines, bad, n - 1);
    }
}

/// Where every line that is still being spoken is text, just those lines are shown, all of them and
/// in their order.
pub proof fn law_spoken_lines_are_shown(lines: Seq<TranscriptLine>)
    requires
        forall|i: int|
            0 <= i < lines.len() && (#[trigger] lines[i]).is_complete == 0 ==> valid_utf8(
                lines[i].text@,
            ),
    ensures
        spoken(lines, lines.len() as int) == lines.filter(
            |line: TranscriptLine| line.is_complete == 0,
        ).map_values(|line: TranscriptLine| decode_utf8(line.text@)),
    decreases lines.len(),
{
    let open = |line: TranscriptLine| line.is_complete == 0;
    let text = |line: TranscriptLine| decode_utf8(line.text@);
    reveal(Seq::filter);
    if lines.len() > 0 {
        let n = lines.len() as int;
        let front = lines.drop_last();
        assert(forall|i: int| 0 <= i < front.len() ==> front[i] == #[trigger] lines[i]);
        assert forall|i: int| 0 <= i < front.len() && (
        #[trigger] front[i]).is_complete == 0 implies valid_utf8(front[i].text@) by {
            assert(front[i] == lines[i]);
        }
        law_spoken_lines_are_shown(front);
        lemma_spoken_front(lines, front, n - 1);
        if lines.last().is_complete == 0 {
            assert(lines.filter(open) == front.filter(open).push(lines.last()));
            assert(lines.filter(open).map_values(text) =~= front.filter(open).map_values(text).push(
                decode_utf8(lines.last().text@),
            ));
        } else {
            assert(lines.filter(open) == front.filter(open));
        }
    } else {
        assert(lines.filter(open).map_values(text) =~= Seq::empty());
    }
}

proof fn lemma_spoken_front(lines: Seq<TranscriptLine>, front: Seq<TranscriptLine>, n: int)
    requires
        0 <= n <= front.len() <= lines.len(),
        forall|i: int| 0 <= i < front.len() ==> front[i] == #[trigger] lines[i],
    ensures
        spoken(front, n) == spoken(lines, n),
    decreases n,
{
    if n > 0 {
        lemma_spoken_front(lines, front, n - 1);
        assert(front[n - 1] == lines[n - 1]);
        assert(all_text(front, n) == all_text(lines, n)) by {
            if all_text(front, n) {
                assert forall|i: int| 0 <= i < n && (
                #[trigger] lines[i]).is_complete == 0 implies valid_utf8(lines[i].text@) by {
                    assert(front[i] == lines[i]);
                }
            }
            if all_text(lines, n) {
                assert forall|i: int| 0 <= i < n && (
                #[trigger] front[i]).is_complete == 0 implies valid_utf8(front[i].text@) by {
                    assert(front[i] == lines[i]);
                }
            }
        }
    }
}

/// A line that is being spoken and is not text is found, and nothing from it on is shown; what
/// comes before it is.
pub proof fn law_bad_line_stops(lines: Seq<TranscriptLine>, bad: int)
    requires
        0 <= bad < lines.len(),
        lines[bad].is_complete == 0,
        !valid_utf8(lines[bad].text@),
    ensures
        !all_text(lines, lines.len() as int),
        spoken(lines, lines.len() as int) == spoken(lines.take(bad), bad),
{
    lemma_nothing_after(lines, bad, lines.len() as int);
    lemma_spoken_front(lines, lines.take(bad), bad);
}

/// Where the sound was added and transcribed, and each line that is still being spoken is text,
/// nothing is wrong and those lines are shown. The first step that failed is told, and then nothing
/// is shown.
pub proof fn law_transcript(add_status: i32, transcribe_status: i32, lines: Seq<TranscriptLine>)
    ensures
        ({
            let report = transcript_report(add_status, transcribe_status, lines);
            let texts = transcript_texts(add_status, transcribe_status, lines);
            let readable = forall|i: int|
                0 <= i < lines.len() && (#[trigger] lines[i]).is_complete == 0 ==> valid_utf8(
                    lines[i].text@,
                );
            &&& report is Ok <==> add_status == 0 && transcribe_status == 0 && readable
            &&& report is Ok ==> texts == lines.filter(
                |line: TranscriptLine| line.is_complete == 0,
            ).map_values(|line: TranscriptLine| decode_utf8(line.text@))
            &&& report == Err::<(), TranscribeError>(TranscribeError::AddAudio) <==> add_status != 0
            &&& report == Err::<(), TranscribeError>(TranscribeError::TranscribeStream) <==> add_status
                == 0 && transcribe_status != 0
            &&& add_status != 0 || transcribe_status != 0 ==> texts.len() == 0
        }),
{
    if forall|i: int|
        0 <= i < lines.len() && (#[trigger] lines[i]).is_complete == 0 ==> valid_utf8(lines[i].text@) {
        law_spoken_lines_are_shown(lines);
    }
}

} // verus!
