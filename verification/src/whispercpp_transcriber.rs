//! Transcription by a local whisper server.
use std::collections::VecDeque;

use vstd::prelude::*;

use crate::decode::{AvSampleFormat, ResamplerOptions};
#[allow(unused_imports)]
use crate::decode::{
    named_bytes, named_float, named_planar, resampler_options as play_options, Sample,
};

verus! {

/// The rate of the sound that is transcribed, in samples a second.
pub const TRANSCRIBE_SAMPLE_RATE: u32 = 16000;

/// Where the whisper server listens.
pub const LOCAL_WHISPER_SERVER_URL: &'static str = "http://127.0.0.1:8187/inference";

/// The bytes of three seconds of sound.
pub const THREE_SEC_BYTES_LEN: usize = 96000;

/// How many bytes are too few to be transcribed.
pub const TOO_FEW_BYTES: usize = 32;

/// The language that is transcribed, if any.
#[derive(Debug, Clone, Copy, PartialEq, Eq, Structural)]
pub enum UsedModel {
    NoModel,
    Chinese,
    English,
}

/// What can go wrong with transcription.
#[derive(Debug, Clone, Copy, PartialEq, Eq, Structural)]
pub enum TranscribeError {
    /// The resampler could not be made.
    ResamplerCreate,
    /// The resampler could not be started.
    ResamplerInit,
    /// The resampler refused a frame.
    Convert { code: i32 },
    /// No language is chosen.
    NoLanguage,
    /// The sound could not be packed.
    Wav,
    /// The reply is not JSON.
    BadReply,
    /// The reply holds no text.
    NoText,
}

/// The sound that waits to be transcribed.
#[derive(Debug)]
pub struct Transcriber {
    pub buffer_queue: VecDeque<u8>,
}

/// What the transcribing task does in a round.
#[derive(Debug, Clone, Copy, PartialEq, Eq, Structural)]
pub enum TranscribeAction {
    Exit,
    WaitForNotice,
    Transcribe,
}

/// The two bytes of a sample, the lowest first.
pub open spec fn sample_bytes(sample: i16) -> Seq<u8> {
    seq![(sample as int % 256) as u8, (sample as int / 256 % 256) as u8]
}

/// The bytes of some samples.
pub open spec fn samples_bytes(samples: Seq<i16>) -> Seq<u8>
    decreases samples.len(),
{
    if samples.len() == 0 {
        Seq::empty()
    } else {
        samples_bytes(samples.drop_last()) + sample_bytes(samples.last())
    }
}

/// A number in two bytes, the lowest first.
pub open spec fn low_first_2(n: int) -> Seq<u8> {
    seq![(n % 256) as u8, (n / 256 % 256) as u8]
}

/// A number in four bytes, the lowest first.
pub open spec fn low_first_4(n: int) -> Seq<u8> {
    low_first_2(n % 65536) + low_first_2(n / 65536)
}

/// The bytes before the samples in a file of uncompressed sound in one channel of 16 bits.
#[verifier::opaque]
pub open spec fn wav_header(data_len: int, sample_rate: u32) -> Seq<u8> {
    seq![0x52u8, 0x49u8, 0x46u8, 0x46u8] + low_first_4(data_len + 36) + seq![
        0x57u8,
        0x41u8,
        0x56u8,
        0x45u8,
        0x66u8,
        0x6du8,
        0x74u8,
        0x20u8,
    ] + low_first_4(16) + low_first_2(1) + low_first_2(1) + low_first_4(sample_rate as int)
        + low_first_4(2 * sample_rate) + low_first_2(2) + low_first_2(16) + seq![
        0x64u8,
        0x61u8,
        0x74u8,
        0x61u8,
    ] + low_first_4(data_len)
}

/// Whether a file is one of uncompressed sound in one channel of 16 bits, whose samples are the
/// bytes `data`. Its sizes are 32 bit numbers.
pub open spec fn is_wav(file: Seq<u8>, data: Seq<u8>, sample_rate: u32) -> bool {
    &&& sample_rate > 0
    &&& 2 * sample_rate <= u32::MAX
    &&& data.len() % 2 == 0
    &&& data.len() + 36 <= u32::MAX
    &&& file == wav_header(data.len() as int, sample_rate) + data
}

/// Makes a file of uncompressed sound without samples.
///
/// Trusted: `hound::WavWriter::new` on an empty buffer in memory, and `finalize`. For one channel
/// of 16 bits it writes the 44 bytes of a plain header. Nothing fails in memory. It divides by the
/// sample rate, and its numbers are of 32 bits, which must not overflow.
#[verifier::external_body]
fn open_wav(channels: u16, sample_rate: u32, bits: u16) -> (file: Option<Vec<u8>>)
    requires
        channels == 1,
        bits == 16,
        sample_rate > 0,
        2 * sample_rate <= u32::MAX,
    ensures
        file is Some,
        is_wav(file.unwrap()@, Seq::empty(), sample_rate),
{
    let sample_format = hound::SampleFormat::Int;
    let spec = hound::WavSpec { channels, sample_rate, bits_per_sample: bits, sample_format };
    let mut cursor = std::io::Cursor::new(Vec::new());
    hound::WavWriter::new(&mut cursor, spec).ok()?.finalize().ok()?;
    Some(cursor.into_inner())
}

/// Adds a sample to a file of uncompressed sound.
///
/// Trusted: `hound::WavWriter::new_append` on the file in memory, `write_sample`, and `finalize`.
/// It reads the header, writes the sample behind the others with its lowest byte first, and fills
/// the new sizes in. Nothing fails in memory. The sizes are 32 bit numbers, which must not
/// overflow.
#[verifier::external_body]
fn append_sample(file: &mut Vec<u8>, sample: i16) -> (written: bool)
    requires
        exists|data: Seq<u8>, sample_rate: u32| #[trigger]
            is_wav(old(file)@, data, sample_rate) && data.len() + 38 <= u32::MAX,
    ensures
        written,
        forall|data: Seq<u8>, sample_rate: u32| #[trigger]
            is_wav(old(file)@, data, sample_rate) ==> is_wav(
                final(file)@,
                data + sample_bytes(sample),
                sample_rate,
            ),
{
    match hound::WavWriter::new_append(std::io::Cursor::new(file)) {
        Ok(mut writer) => writer.write_sample(sample).is_ok() && writer.finalize().is_ok(),
        Err(_) => false,
    }
}

/// Packs samples into a file of uncompressed sound.
fn write_wav(samples: &Vec<i16>, sample_rate: u32) -> (file: Option<Vec<u8>>)
    requires
        sample_rate > 0,
        2 * sample_rate <= u32::MAX,
        2 * samples@.len() + 36 <= u32::MAX,
    ensures
        file is Some,
        file.unwrap()@ == wav_header(2 * samples@.len() as int, sample_rate) + samples_bytes(samples@),
{
    let mut file = match open_wav(1, sample_rate, 16) {
        Some(file) => file,
        None => return None,
    };
    let mut i: usize = 0;
    assert(samples_bytes(samples@.take(0)) =~= Seq::<u8>::empty());
    while i < samples.len()
        invariant
            i <= samples@.len(),
            2 * samples@.len() + 36 <= u32::MAX,
            samples_bytes(samples@.take(i as int)).len() == 2 * i,
            is_wav(file@, samples_bytes(samples@.take(i as int)), sample_rate),
        decreases samples@.len() - i,
    {
        let ghost data = samples_bytes(samples@.take(i as int));
        assert(is_wav(file@, data, sample_rate) && data.len() + 38 <= u32::MAX);
        if !append_sample(&mut file, samples[i]) {
            return None;
        }
        assert(samples@.take(i + 1).drop_last() =~= samples@.take(i as int));
        i = i + 1;
    }
    assert(samples@.take(samples@.len() as int) =~= samples@);
    Some(file)
}

/// The number that two bytes make as a sample, the lowest first.
pub open spec fn sample_of(low: u8, high: u8) -> int {
    if high < 128 {
        low + 256 * high
    } else {
        low + 256 * high - 65536
    }
}

/// Reads two bytes as a sample.
fn sample_from(low: u8, high: u8) -> (sample: i16)
    ensures
        sample == sample_of(low, high),
        sample_bytes(sample) == seq![low, high],
{
    let sample: i16 = (if high < 128 {
        low as i32 + 256 * high as i32
    } else {
        low as i32 + 256 * high as i32 - 65536
    }) as i16;
    assert(sample_bytes(sample) =~= seq![low, high]);
    sample
}

/// How many of some bytes are whole samples.
pub open spec fn whole_len(len: nat) -> int {
    len as int - len as int % 2
}

/// The file into which some bytes of sound are packed.
pub open spec fn packed(pcm: Seq<u8>) -> Seq<u8> {
    wav_header(whole_len(pcm.len()), TRANSCRIBE_SAMPLE_RATE) + pcm.take(whole_len(pcm.len()))
}

/// Reads each two bytes as a sample; a byte that is left over is dropped.
fn read_samples(pcm_data: &[u8]) -> (samples: Vec<i16>)
    ensures
        2 * samples@.len() == whole_len(pcm_data@.len()),
        samples_bytes(samples@) == pcm_data@.take(whole_len(pcm_data@.len())),
{
    let len: usize = pcm_data.len();
    let whole: usize = len - len % 2;
    let mut samples: Vec<i16> = Vec::new();
    let mut i: usize = 0;
    assert(pcm_data@.take(0) =~= samples_bytes(samples@));
    while i < whole
        invariant
            len == pcm_data@.len(),
            whole <= len,
            whole % 2 == 0,
            i <= whole,
            i % 2 == 0,
            2 * samples@.len() == i,
            samples_bytes(samples@) == pcm_data@.take(i as int),
        decreases whole - i,
    {
        let ghost before = samples@;
        let sample = sample_from(pcm_data[i], pcm_data[i + 1]);
        samples.push(sample);
        assert(samples@.drop_last() =~= before);
        assert(samples_bytes(samples@) =~= pcm_data@.take(i + 2));
        i = i + 2;
    }
    samples
}

impl Transcriber {
    /// Packs sound into a file: each two bytes are a sample, and a byte that is left over is
    /// dropped.
    pub fn package_wav_bytes(pcm_data: &[u8]) -> (file: Result<Vec<u8>, TranscribeError>)
        requires
            pcm_data@.len() + 36 <= u32::MAX,
        ensures
            file is Ok,
            file.unwrap()@ == packed(pcm_data@),
    {
        let samples = read_samples(pcm_data);
        match write_wav(&samples, TRANSCRIBE_SAMPLE_RATE) {
            Some(file) => Ok(file),
            None => Err(TranscribeError::Wav),
        }
    }
}

/// The header of a packed file is 44 bytes long.
pub proof fn law_header_len(data_len: int, sample_rate: u32)
    ensures
        wav_header(data_len, sample_rate).len() == 44,
{
    reveal(wav_header);
}

/// The samples can be read back from a packed file: they are its bytes after the header.
pub proof fn law_samples_follow_header(pcm: Seq<u8>)
    requires
        pcm.len() % 2 == 0,
    ensures
        (wav_header(whole_len(pcm.len()), TRANSCRIBE_SAMPLE_RATE) + pcm.take(
            whole_len(pcm.len()),
        )).skip(44) == pcm,
{
    law_header_len(whole_len(pcm.len()), TRANSCRIBE_SAMPLE_RATE);
    assert((wav_header(whole_len(pcm.len()), TRANSCRIBE_SAMPLE_RATE) + pcm.take(
        whole_len(pcm.len()),
    )).skip(44) =~= pcm);
}

/// What the transcribing task does in a round.
pub open spec fn transcribe_action(
    cancelled: bool,
    paused: bool,
    used_model: UsedModel,
) -> TranscribeAction {
    if cancelled {
        TranscribeAction::Exit
    } else if paused || used_model == UsedModel::NoModel {
        TranscribeAction::WaitForNotice
    } else {
        TranscribeAction::Transcribe
    }
}

/// Sound is transcribed exactly while the player plays and a language is chosen, and the task ends
/// exactly when it is told to.
pub proof fn law_when_to_transcribe(cancelled: bool, paused: bool, used_model: UsedModel)
    ensures
        transcribe_action(cancelled, paused, used_model) == TranscribeAction::Exit <==> cancelled,
        transcribe_action(cancelled, paused, used_model) == TranscribeAction::Transcribe <==> !cancelled
            && !paused && (used_model == UsedModel::English || used_model == UsedModel::Chinese),
{
}

/// Which bytes are sent to be transcribed when some wait: all of them, but no more than three
/// seconds; too few are not sent.
pub open spec fn sent_of(waiting: Seq<u8>) -> Option<Seq<u8>> {
    if waiting.len() >= THREE_SEC_BYTES_LEN {
        Some(waiting.take(THREE_SEC_BYTES_LEN as int))
    } else if waiting.len() > TOO_FEW_BYTES {
        Some(waiting)
    } else {
        None
    }
}

/// Which bytes wait after that: less than three seconds are kept, to be sent again when more have
/// come.
pub open spec fn kept_of(waiting: Seq<u8>) -> Seq<u8> {
    if waiting.len() >= THREE_SEC_BYTES_LEN {
        waiting.skip(THREE_SEC_BYTES_LEN as int)
    } else {
        waiting
    }
}

/// Why a transcriber cannot be made, if it cannot, given what came of making and starting its
/// resampler.
pub open spec fn start_error(alloc_status: i32, init_status: i32) -> Option<TranscribeError> {
    if alloc_status < 0 {
        Some(TranscribeError::ResamplerCreate)
    } else if init_status < 0 {
        Some(TranscribeError::ResamplerInit)
    } else {
        None
    }
}

/// A transcriber is made exactly where neither step failed, and the first one that failed is told.
pub proof fn law_start_error(alloc_status: i32, init_status: i32)
    ensures
        start_error(alloc_status, init_status) is None <==> alloc_status >= 0 && init_status >= 0,
        start_error(alloc_status, init_status) == Some(TranscribeError::ResamplerCreate)
            <==> alloc_status < 0,
        start_error(alloc_status, init_status) == Some(TranscribeError::ResamplerInit)
            <==> alloc_status >= 0 && init_status < 0,
{
}

/// The bytes that are taken from a frame that the resampler has made, or why it made none.
pub open spec fn frame_data(status: i32, bytes: Seq<u8>, samples: usize) -> Result<
    Seq<u8>,
    TranscribeError,
> {
    if status < 0 {
        Err(TranscribeError::Convert { code: status })
    } else {
        Ok(bytes.take(2 * samples))
    }
}

/// Of a frame that was converted all samples are taken, two bytes each, in order, and nothing after
/// them. Where the conversion failed, its number is told.
pub proof fn law_frame_data(status: i32, bytes: Seq<u8>, samples: usize, i: int)
    requires
        2 * samples <= bytes.len(),
    ensures
        frame_data(status, bytes, samples) is Ok <==> status >= 0,
        status >= 0 ==> frame_data(status, bytes, samples).unwrap().len() == samples + samples,
        status >= 0 && 0 <= i < samples + samples ==> frame_data(status, bytes, samples).unwrap()[i]
            == bytes[i],
        status < 0 ==> frame_data(status, bytes, samples) == Err::<Seq<u8>, TranscribeError>(
            TranscribeError::Convert { code: status },
        ),
{
}

impl Transcriber {
    /// Makes a transcriber without sound. The arguments are what came of making and starting its
    /// resampler; numbers below zero are errors.
    pub fn new(alloc_status: i32, init_status: i32) -> (made: Result<Transcriber, TranscribeError>)
        ensures
            match made {
                Ok(transcriber) => start_error(alloc_status, init_status) is None
                    && transcriber.buffer_queue@ == Seq::<u8>::empty(),
                Err(e) => start_error(alloc_status, init_status) == Some(e),
            },
    {
        if alloc_status < 0 {
            return Err(TranscribeError::ResamplerCreate);
        }
        if init_status < 0 {
            return Err(TranscribeError::ResamplerInit);
        }
        Ok(Transcriber { buffer_queue: VecDeque::new() })
    }

    /// What the resampler makes of the sound that is played: one channel of 16 bit numbers.
    pub fn resampler_options() -> (options: ResamplerOptions)
        ensures
            options == (ResamplerOptions {
                out_channels: 1,
                out_format: AvSampleFormat::S16,
                out_rate: 16000,
                in_format: AvSampleFormat::Flt,
                in_rate: 48000,
            }),
            named_bytes(options.out_format) == 2,
            !named_float(options.out_format),
            !named_planar(options.out_format),
            forall|sample: Sample, rate: u32|
                options.in_format == (#[trigger] play_options(sample, rate)).out_format
                    && options.in_rate == play_options(sample, rate).out_rate,
    {
        ResamplerOptions {
            out_channels: 1,
            out_format: AvSampleFormat::S16,
            out_rate: 16000,
            in_format: AvSampleFormat::Flt,
            in_rate: 48000,
        }
    }

    /// Decides what the transcribing task does in a round.
    pub fn next_action(cancelled: bool, paused: bool, used_model: UsedModel) -> (action:
        TranscribeAction)
        ensures
            action == transcribe_action(cancelled, paused, used_model),
    {
        if cancelled {
            return TranscribeAction::Exit;
        }
        match used_model {
            UsedModel::NoModel => TranscribeAction::WaitForNotice,
            _ => if paused {
                TranscribeAction::WaitForNotice
            } else {
                TranscribeAction::Transcribe
            },
        }
    }

    /// Takes some more bytes of sound, and gives back those that are to be transcribed.
    pub fn take_sound(&mut self, data: &Vec<u8>) -> (sent: Option<Vec<u8>>)
        ensures
            match sent {
                Some(bytes) => sent_of(old(self).buffer_queue@ + data@) == Some(bytes@),
                None => sent_of(old(self).buffer_queue@ + data@) is None,
            },
            final(self).buffer_queue@ == kept_of(old(self).buffer_queue@ + data@),
    {
        let ghost all = self.buffer_queue@ + data@;
        let mut i: usize = 0;
        assert(self.buffer_queue@ + data@.take(0) =~= self.buffer_queue@);
        while i < data.len()
            invariant
                i <= data@.len(),
                self.buffer_queue@ == old(self).buffer_queue@ + data@.take(i as int),
            decreases data@.len() - i,
        {
            self.buffer_queue.push_back(data[i]);
            assert(self.buffer_queue@ =~= old(self).buffer_queue@ + data@.take(i + 1));
            i = i + 1;
        }
        assert(data@.take(data@.len() as int) =~= data@);
        if self.buffer_queue.len() < THREE_SEC_BYTES_LEN {
            if self.buffer_queue.len() > TOO_FEW_BYTES {
                let mut bytes: Vec<u8> = Vec::new();
                while bytes.len() < self.buffer_queue.len()
                    invariant
                        self.buffer_queue@ == all,
                        bytes@.len() <= all.len(),
                        bytes@ == all.take(bytes@.len() as int),
                    decreases all.len() - bytes@.len(),
                {
                    let ghost n = bytes@.len() as int;
                    let at: usize = bytes.len();
                    bytes.push(self.buffer_queue[at]);
                    assert(bytes@ =~= all.take(n + 1));
                }
                assert(all.take(all.len() as int) =~= all);
                return Some(bytes);
            }
            return None;
        }
        let mut bytes: Vec<u8> = Vec::new();
        assert(all.skip(0) =~= all);
        while bytes.len() < THREE_SEC_BYTES_LEN
            invariant
                bytes@.len() <= THREE_SEC_BYTES_LEN <= all.len(),
                bytes@ == all.take(bytes@.len() as int),
                self.buffer_queue@ == all.skip(bytes@.len() as int),
            decreases THREE_SEC_BYTES_LEN - bytes@.len(),
        {
            let ghost n = bytes@.len() as int;
            if let Some(byte) = self.buffer_queue.pop_front() {
                bytes.push(byte);
                assert(bytes@ =~= all.take(n + 1));
                assert(self.buffer_queue@ =~= all.skip(n + 1));
            }
        }
        Some(bytes)
    }

    /// Takes the bytes of a frame that the resampler has made, which may hold more than the
    /// samples; a status below zero is an error.
    pub fn push_audio_frame(status: i32, bytes: &[u8], samples: usize) -> (data: Result<
        Vec<u8>,
        TranscribeError,
    >)
        requires
            status >= 0 ==> 2 * samples <= bytes@.len(),
        ensures
            match data {
                Ok(data) => frame_data(status, bytes@, samples) == Ok::<Seq<u8>, TranscribeError>(
                    data@,
                ),
                Err(e) => frame_data(status, bytes@, samples) == Err::<Seq<u8>, TranscribeError>(e),
            },
    {
        if status < 0 {
            return Err(TranscribeError::Convert { code: status });
        }
        let total: usize = bytes.len();
        assert(total == bytes@.len());
        let len: usize = samples * 2;
        let mut data: Vec<u8> = Vec::new();
        while data.len() < len
            invariant
                data@.len() <= len <= bytes@.len(),
                data@ == bytes@.take(data@.len() as int),
            decreases len - data@.len(),
        {
            let ghost n = data@.len() as int;
            data.push(bytes[data.len()]);
            assert(data@ =~= bytes@.take(n + 1));
        }
        Ok(data)
    }

    /// How the server is told the language.
    pub fn request_language(used_model: UsedModel) -> (language: Result<
        &'static str,
        TranscribeError,
    >)
        ensures
            match language {
                Ok(name) => used_model != UsedModel::NoModel && name@ == (if used_model
                    == UsedModel::English {
                    "en"@
                } else {
                    "zh"@
                }),
                Err(e) => used_model == UsedModel::NoModel && e == TranscribeError::NoLanguage,
            },
    {
        match used_model {
            UsedModel::NoModel => Err(TranscribeError::NoLanguage),
            UsedModel::English => Ok("en"),
            UsedModel::Chinese => Ok("zh"),
        }
    }

    /// What is sent to the server: the language, and the sound as a file.
    pub fn send_request(bytes: &[u8], used_model: UsedModel) -> (request: Result<
        (&'static str, Vec<u8>),
        TranscribeError,
    >)
        requires
            bytes@.len() + 36 <= u32::MAX,
        ensures
            match request {
                Ok((language, file)) => {
                    &&& used_model != UsedModel::NoModel
                    &&& language@ == (if used_model == UsedModel::English {
                        "en"@
                    } else {
                        "zh"@
                    })
                    &&& file@ == packed(bytes@)
                },
                Err(e) => used_model == UsedModel::NoModel && e == TranscribeError::NoLanguage,
            },
    {
        let language = match Self::request_language(used_model) {
            Ok(language) => language,
            Err(e) => {
                return Err(e);
            },
        };
        match Self::package_wav_bytes(bytes) {
            Ok(file) => Ok((language, file)),
            Err(e) => Err(e),
        }
    }
}

/// No sound is lost: what is taken out for good and what is kept are what waited.
pub proof fn law_sound_is_kept(waiting: Seq<u8>)
    ensures
        waiting.len() >= THREE_SEC_BYTES_LEN ==> sent_of(waiting).unwrap() + kept_of(waiting)
            == waiting,
        waiting.len() < THREE_SEC_BYTES_LEN ==> kept_of(waiting) == waiting,
{
    if waiting.len() >= THREE_SEC_BYTES_LEN {
        assert(sent_of(waiting).unwrap() + kept_of(waiting) =~= waiting);
    }
}

/// Never more than three seconds are sent at once.
pub proof fn law_sent_is_short(waiting: Seq<u8>)
    requires
        sent_of(waiting) is Some,
    ensures
        TOO_FEW_BYTES < sent_of(waiting).unwrap().len() <= THREE_SEC_BYTES_LEN,
{
}

/// The member of a JSON object with a given name: nothing if the bytes are no JSON, no text if the
/// object has no such member or it is not a string.
pub uninterp spec fn json_member(body: Seq<u8>, name: Seq<char>) -> Option<Option<Seq<char>>>;

/// The value of a text that may be there.
pub open spec fn text_of(parsed: Option<Option<String>>) -> Option<Option<Seq<char>>> {
    match parsed {
        Some(Some(text)) => Some(Some(text@)),
        Some(None) => Some(None),
        None => None,
    }
}

/// Reads a member of a JSON object.
///
/// Trusted: `serde_json::from_slice` to a `Value`, indexed by a name, and `Value::as_str`. What
/// comes out depends on the bytes and the name alone; which bytes are JSON is not stated.
#[verifier::external_body]
fn parse_member(body: &[u8], name: &str) -> (parsed: Option<Option<String>>)
    ensures
        text_of(parsed) == json_member(body@, name@),
{
    match serde_json::from_slice::<serde_json::Value>(body) {
        Ok(value) => Some(value[name].as_str().map(|text| text.to_string())),
        Err(_) => None,
    }
}

/// The text of a reply, given what was read of it.
pub fn reply_text(parsed: Option<Option<String>>) -> (text: Result<String, TranscribeError>)
    ensures
        match text {
            Ok(text) => text_of(parsed) == Some(Some(text@)),
            Err(e) => e == (if parsed is None {
                TranscribeError::BadReply
            } else {
                TranscribeError::NoText
            }) && !(text_of(parsed) matches Some(Some(_))),
        },
{
    match parsed {
        Some(Some(text)) => Ok(text),
        Some(None) => Err(TranscribeError::NoText),
        None => Err(TranscribeError::BadReply),
    }
}

/// Reads the text out of the server's reply.
pub fn read_reply(body: &[u8]) -> (text: Result<String, TranscribeError>)
    ensures
        match text {
            Ok(text) => json_member(body@, "text"@) == Some(Some(text@)),
            Err(e) => e == (if json_member(body@, "text"@) is None {
                TranscribeError::BadReply
            } else {
                TranscribeError::NoText
            }) && !(json_member(body@, "text"@) matches Some(Some(_))),
        },
{
    reply_text(parse_member(body, "text"))
}

/// A line without the carriage return at its end.
pub open spec fn without_return(line: Seq<char>) -> Seq<char> {
    if line.len() > 0 && line.last() == '\r' {
        line.drop_last()
    } else {
        line
    }
}

/// The lines of a text: each ends at a line feed, with a carriage return before it or not; the last
/// one may end with the text.
pub open spec fn lines_of(text: Seq<char>) -> Seq<Seq<char>>
    decreases text.len(),
{
    let end = text.index_of_first('\n');
    if text.len() == 0 {
        Seq::empty()
    } else if end is None {
        seq![text]
    } else {
        let at = end.unwrap();
        if 0 <= at < text.len() {
            seq![without_return(text.take(at))] + lines_of(text.skip(at + 1))
        } else {
            Seq::empty()
        }
    }
}

/// The values of some texts.
pub open spec fn texts_of(texts: Seq<String>) -> Seq<Seq<char>> {
    texts.map_values(|text: String| text@)
}

impl Transcriber {
    /// The subtitles that a transcription is shown as: its lines.
    pub fn transcribe(script: &str) -> (lines: Vec<String>)
        ensures
            texts_of(lines@) == lines_of(script@),
    {
        let len: usize = script.unicode_len();
        let mut lines: Vec<String> = Vec::new();
        let mut start: usize = 0;
        let mut i: usize = 0;
        assert(script@.skip(0) =~= script@);
        assert(texts_of(lines@) + lines_of(script@) =~= lines_of(script@));
        while i < len
            invariant
                len == script@.len(),
                start <= i <= len,
                forall|k: int| start <= k < i ==> script@[k] != '\n',
                texts_of(lines@) + lines_of(script@.skip(start as int)) == lines_of(script@),
            decreases len - i,
        {
            if script.get_char(i) == '\n' {
                let ghost rest = script@.skip(start as int);
                let ghost at = i - start;
                proof {
                    assert(rest[at] == '\n');
                    assert forall|k: int| 0 <= k < at implies rest[k] != '\n' by {
                        assert(script@[start + k] != '\n');
                    }
                    lemma_first_at(rest, '\n', at);
                    assert(rest.skip(at + 1) =~= script@.skip(i + 1));
                    assert(rest.take(at) =~= script@.subrange(start as int, i as int));
                }
                let end: usize = if i > start && script.get_char(i - 1) == '\r' {
                    i - 1
                } else {
                    i
                };
                let line = script.substring_char(start, end).to_owned();
                assert(line@ =~= without_return(rest.take(at)));
                let ghost before = texts_of(lines@);
                lines.push(line);
                proof {
                    assert(texts_of(lines@) =~= before.push(line@));
                    assert(texts_of(lines@) + lines_of(script@.skip(i + 1)) =~= before + lines_of(
                        rest,
                    ));
                }
                start = i + 1;
            }
            i = i + 1;
        }
        let ghost rest = script@.skip(start as int);
        if start < len {
            proof {
                assert forall|k: int| 0 <= k < rest.len() implies rest[k] != '\n' by {
                    assert(script@[start + k] != '\n');
                }
                lemma_first_absent(rest, '\n');
            }
            let line = script.substring_char(start, len).to_owned();
            assert(line@ =~= rest);
            let ghost before = texts_of(lines@);
            lines.push(line);
            assert(texts_of(lines@) =~= before.push(line@));
            assert(texts_of(lines@) =~= before + lines_of(rest));
        } else {
            assert(rest.len() == 0);
            assert(texts_of(lines@) =~= texts_of(lines@) + lines_of(rest));
        }
        lines
    }
}

proof fn lemma_first_at(text: Seq<char>, c: char, at: int)
    requires
        0 <= at < text.len(),
        text[at] == c,
        forall|k: int| 0 <= k < at ==> text[k] != c,
    ensures
        text.index_of_first(c) == Some(at),
{
    text.index_of_first_ensures(c);
}

proof fn lemma_first_absent(text: Seq<char>, c: char)
    requires
        forall|k: int| 0 <= k < text.len() ==> text[k] != c,
    ensures
        text.index_of_first(c) is None,
{
    text.index_of_first_ensures(c);
}

/// Sound of more than 32 bytes and less than three seconds is sent as a whole, in order, and all of
/// it is kept, so that it is sent again together with what comes next. Less than that is kept and
/// not sent.
pub proof fn law_short_sound_is_sent_whole(waiting: Seq<u8>, more: Seq<u8>)
    requires
        waiting.len() < 96000,
    ensures
        waiting.len() > 32 ==> sent_of(waiting) == Some(waiting),
        waiting.len() <= 32 ==> sent_of(waiting) is None,
        kept_of(waiting) == waiting,
        32 < waiting.len() + more.len() < 96000 ==> sent_of(kept_of(waiting) + more) == Some(
            waiting + more,
        ),
{
}

/// Of three seconds of sound or more, the first three seconds are sent, in order, and the rest is
/// kept, in order. Three seconds are 16000 samples of two bytes a second.
pub proof fn law_long_sound_is_sent_in_parts(waiting: Seq<u8>)
    requires
        waiting.len() >= 96000,
    ensures
        96000 == 3 * TRANSCRIBE_SAMPLE_RATE * 2,
        sent_of(waiting) is Some,
        sent_of(waiting).unwrap().len() == 96000,
        kept_of(waiting).len() == waiting.len() - 96000,
        forall|i: int|
            0 <= i < 96000 ==> (#[trigger] sent_of(waiting).unwrap()[i]) == waiting[i],
        forall|i: int|
            0 <= i < waiting.len() - 96000 ==> (#[trigger] kept_of(waiting)[i]) == waiting[96000 + i],
{
}

/// A sample is read back from its two bytes.
pub proof fn law_sample_bytes(sample: i16)
    ensures
        sample_bytes(sample).len() == 2,
        sample_of(sample_bytes(sample)[0], sample_bytes(sample)[1]) == sample,
        -32768 <= sample_of(sample_bytes(sample)[0], sample_bytes(sample)[1]) <= 32767,
        sample >= 0 ==> sample_bytes(sample)[0] + 256 * sample_bytes(sample)[1] == sample,
        sample < 0 ==> sample_bytes(sample)[0] + 256 * sample_bytes(sample)[1] == sample + 65536,
{
}

/// Each two of the bytes of some samples are one sample, in order.
pub proof fn law_samples_keep_order(samples: Seq<i16>, i: int)
    requires
        0 <= i < samples.len(),
    ensures
        samples_bytes(samples).len() == 2 * samples.len(),
        sample_of(samples_bytes(samples)[2 * i], samples_bytes(samples)[2 * i + 1]) == samples[i],
    decreases samples.len(),
{
    let front = samples.drop_last();
    if front.len() > 0 {
        law_samples_keep_order(
            front,
            if i < front.len() {
                i
            } else {
                0
            },
        );
    } else {
        assert(samples_bytes(front).len() == 0);
    }
    law_sample_bytes(samples.last());
    if i < front.len() {
        assert(samples_bytes(samples)[2 * i] == samples_bytes(front)[2 * i]);
        assert(samples_bytes(samples)[2 * i + 1] == samples_bytes(front)[2 * i + 1]);
    }
}

/// The number that two bytes make, the lowest first.
pub open spec fn number_2(bytes: Seq<u8>, at: int) -> int {
    bytes[at] + 256 * bytes[at + 1]
}

/// The number that four bytes make, the lowest first.
pub open spec fn number_4(bytes: Seq<u8>, at: int) -> int {
    number_2(bytes, at) + 65536 * number_2(bytes, at + 2)
}

/// Whoever reads the header of a packed file finds one channel of uncompressed 16 bit samples, the
/// sample rate, and two bytes for each sample.
pub proof fn law_header_tells_format(data_len: int, sample_rate: u32)
    requires
        2 * sample_rate <= u32::MAX,
    ensures
        ({
            let header = wav_header(data_len, sample_rate);
            &&& header.subrange(8, 16) == seq![87u8, 65u8, 86u8, 69u8, 102u8, 109u8, 116u8, 32u8]
            &&& number_4(header, 16) == 16
            &&& number_2(header, 20) == 1
            &&& number_2(header, 22) == 1
            &&& number_4(header, 24) == sample_rate
            &&& number_4(header, 28) == 2 * sample_rate
            &&& number_2(header, 32) == 2
            &&& number_2(header, 34) == 16
        }),
{
    let header = wav_header(data_len, sample_rate);
    lemma_header_fields(data_len, sample_rate);
    lemma_number_4(header, 16, 16);
    lemma_number_4(header, 24, sample_rate as int);
    lemma_number_4(header, 28, 2 * sample_rate);
    lemma_number_2(header, 20, 1);
    lemma_number_2(header, 22, 1);
    lemma_number_2(header, 32, 2);
    lemma_number_2(header, 34, 16);
}

/// Whoever reads the header of a packed file finds how many bytes of samples follow it, and the
/// size of the whole file but for its first eight bytes.
pub proof fn law_header_tells_size(data_len: int, sample_rate: u32)
    requires
        0 <= data_len,
        data_len + 36 <= u32::MAX,
    ensures
        ({
            let header = wav_header(data_len, sample_rate);
            &&& header.subrange(0, 4) == seq![82u8, 73u8, 70u8, 70u8]
            &&& header.subrange(36, 40) == seq![100u8, 97u8, 116u8, 97u8]
            &&& number_4(header, 4) == header.len() + data_len - 8
            &&& number_4(header, 40) == data_len
        }),
{
    let header = wav_header(data_len, sample_rate);
    law_header_len(data_len, sample_rate);
    lemma_header_sizes(data_len, sample_rate);
    lemma_number_4(header, 4, data_len + 36);
    lemma_number_4(header, 40, data_len);
}

proof fn lemma_part_is_last(start: Seq<u8>, part: Seq<u8>)
    ensures
        (start + part).len() == start.len() + part.len(),
        (start + part).subrange(start.len() as int, (start.len() + part.len()) as int) == part,
{
    assert((start + part).subrange(start.len() as int, (start.len() + part.len()) as int) =~= part);
}

proof fn lemma_part_stays(start: Seq<u8>, more: Seq<u8>, from: int, to: int)
    requires
        0 <= from <= to <= start.len(),
    ensures
        (start + more).subrange(from, to) == start.subrange(from, to),
{
    assert((start + more).subrange(from, to) =~= start.subrange(from, to));
}

/// The part of the header that tells the format, between the size of the file and the samples.
proof fn lemma_format_part(
    wave: Seq<u8>,
    size: Seq<u8>,
    kind: Seq<u8>,
    channels: Seq<u8>,
    rate: Seq<u8>,
    bytes_rate: Seq<u8>,
    block: Seq<u8>,
    bits: Seq<u8>,
)
    requires
        wave.len() == 16,
        size.len() == 4,
        kind.len() == 2,
        channels.len() == 2,
        rate.len() == 4,
        bytes_rate.len() == 4,
        block.len() == 2,
        bits.len() == 2,
    ensures
        ({
            let all = wave + size + kind + channels + rate + bytes_rate + block + bits;
            &&& all.len() == 36
            &&& all.subrange(0, 16) == wave
            &&& all.subrange(16, 20) == size
            &&& all.subrange(20, 22) == kind
            &&& all.subrange(22, 24) == channels
            &&& all.subrange(24, 28) == rate
            &&& all.subrange(28, 32) == bytes_rate
            &&& all.subrange(32, 34) == block
            &&& all.subrange(34, 36) == bits
        }),
{
    let all = wave + size + kind + channels + rate + bytes_rate + block + bits;
    assert(all.subrange(0, 16) =~= wave);
    assert(all.subrange(16, 20) =~= size);
    assert(all.subrange(20, 22) =~= kind);
    assert(all.subrange(22, 24) =~= channels);
    assert(all.subrange(24, 28) =~= rate);
    assert(all.subrange(28, 32) =~= bytes_rate);
    assert(all.subrange(32, 34) =~= block);
    assert(all.subrange(34, 36) =~= bits);
}

/// The header is made of what stands before its format, the format, and what tells the samples.
proof fn lemma_header_parts(data_len: int, sample_rate: u32) -> (parts: (Seq<u8>, Seq<u8>))
    ensures
        wav_header(data_len, sample_rate) == parts.0 + parts.1,
        parts.0 == seq![82u8, 73u8, 70u8, 70u8] + low_first_4(data_len + 36) + seq![
            87u8,
            65u8,
            86u8,
            69u8,
            102u8,
            109u8,
            116u8,
            32u8,
        ] + low_first_4(16) + low_first_2(1) + low_first_2(1) + low_first_4(sample_rate as int)
            + low_first_4(2 * sample_rate) + low_first_2(2) + low_first_2(16),
        parts.1 == seq![100u8, 97u8, 116u8, 97u8] + low_first_4(data_len),
{
    reveal(wav_header);
    let format = seq![82u8, 73u8, 70u8, 70u8] + low_first_4(data_len + 36) + seq![
        87u8,
        65u8,
        86u8,
        69u8,
        102u8,
        109u8,
        116u8,
        32u8,
    ] + low_first_4(16) + low_first_2(1) + low_first_2(1) + low_first_4(sample_rate as int)
        + low_first_4(2 * sample_rate) + low_first_2(2) + low_first_2(16);
    let (mark, len) = (seq![100u8, 97u8, 116u8, 97u8], low_first_4(data_len));
    assert(format + mark + len =~= format + (mark + len));
    (format, mark + len)
}

proof fn lemma_header_fields(data_len: int, sample_rate: u32)
    ensures
        ({
            let header = wav_header(data_len, sample_rate);
            &&& header.len() == 44
            &&& header.subrange(8, 16) == seq![87u8, 65u8, 86u8, 69u8, 102u8, 109u8, 116u8, 32u8]
            &&& header.subrange(16, 20) == low_first_4(16)
            &&& header.subrange(20, 22) == low_first_2(1)
            &&& header.subrange(22, 24) == low_first_2(1)
            &&& header.subrange(24, 28) == low_first_4(sample_rate as int)
            &&& header.subrange(28, 32) == low_first_4(2 * sample_rate)
            &&& header.subrange(32, 34) == low_first_2(2)
            &&& header.subrange(34, 36) == low_first_2(16)
        }),
{
    let (format, data) = lemma_header_parts(data_len, sample_rate);
    let words = seq![87u8, 65u8, 86u8, 69u8, 102u8, 109u8, 116u8, 32u8];
    let start = seq![82u8, 73u8, 70u8, 70u8] + low_first_4(data_len + 36);
    let wave = start + words;
    lemma_part_is_last(start, words);
    lemma_format_part(
        wave,
        low_first_4(16),
        low_first_2(1),
        low_first_2(1),
        low_first_4(sample_rate as int),
        low_first_4(2 * sample_rate),
        low_first_2(2),
        low_first_2(16),
    );
    assert(format.subrange(0, 16).subrange(8, 16) =~= format.subrange(8, 16));
    lemma_part_stays(format, data, 8, 16);
    lemma_part_stays(format, data, 16, 20);
    lemma_part_stays(format, data, 20, 22);
    lemma_part_stays(format, data, 22, 24);
    lemma_part_stays(format, data, 24, 28);
    lemma_part_stays(format, data, 28, 32);
    lemma_part_stays(format, data, 32, 34);
    lemma_part_stays(format, data, 34, 36);
}

proof fn lemma_header_sizes(data_len: int, sample_rate: u32)
    ensures
        ({
            let header = wav_header(data_len, sample_rate);
            &&& header.subrange(0, 4) == seq![82u8, 73u8, 70u8, 70u8]
            &&& header.subrange(36, 40) == seq![100u8, 97u8, 116u8, 97u8]
            &&& header.subrange(4, 8) == low_first_4(data_len + 36)
            &&& header.subrange(40, 44) == low_first_4(data_len)
        }),
{
    let (format, data) = lemma_header_parts(data_len, sample_rate);
    let header = wav_header(data_len, sample_rate);
    let words = seq![87u8, 65u8, 86u8, 69u8, 102u8, 109u8, 116u8, 32u8];
    let (riff, size) = (seq![82u8, 73u8, 70u8, 70u8], low_first_4(data_len + 36));
    let start = riff + size;
    let wave = start + words;
    lemma_format_part(
        wave,
        low_first_4(16),
        low_first_2(1),
        low_first_2(1),
        low_first_4(sample_rate as int),
        low_first_4(2 * sample_rate),
        low_first_2(2),
        low_first_2(16),
    );
    assert(riff =~= riff.subrange(0, 4));
    lemma_part_is_last(riff, size);
    lemma_part_stays(riff, size, 0, 4);
    lemma_part_stays(start, words, 0, 4);
    lemma_part_stays(start, words, 4, 8);
    assert(format.subrange(0, 16).subrange(0, 4) =~= format.subrange(0, 4));
    assert(format.subrange(0, 16).subrange(4, 8) =~= format.subrange(4, 8));
    lemma_part_stays(format, data, 0, 4);
    lemma_part_stays(format, data, 4, 8);
    let (mark, len) = (seq![100u8, 97u8, 116u8, 97u8], low_first_4(data_len));
    lemma_part_is_last(format, data);
    lemma_part_is_last(mark, len);
    lemma_part_stays(mark, len, 0, 4);
    assert(mark =~= mark.subrange(0, 4));
    assert(header.subrange(36, 44).subrange(0, 4) =~= header.subrange(36, 40));
    assert(header.subrange(36, 44).subrange(4, 8) =~= header.subrange(40, 44));
}

proof fn lemma_number_4(bytes: Seq<u8>, at: int, n: int)
    requires
        0 <= at,
        at + 4 <= bytes.len(),
        0 <= n <= u32::MAX,
        bytes.subrange(at, at + 4) == low_first_4(n),
    ensures
        number_4(bytes, at) == n,
{
    let part = bytes.subrange(at, at + 4);
    assert(part[0] == bytes[at] && part[1] == bytes[at + 1] && part[2] == bytes[at + 2] && part[3]
        == bytes[at + 3]);
}

proof fn lemma_number_2(bytes: Seq<u8>, at: int, n: int)
    requires
        0 <= at,
        at + 2 <= bytes.len(),
        0 <= n <= 65535,
        bytes.subrange(at, at + 2) == low_first_2(n),
    ensures
        number_2(bytes, at) == n,
{
    let part = bytes.subrange(at, at + 2);
    assert(part[0] == bytes[at] && part[1] == bytes[at + 1]);
}

/// A packed file holds every byte of the sound but one that is left over, in order, after its
/// header.
pub proof fn law_packed_sound_is_whole(pcm: Seq<u8>)
    ensures
        packed(pcm).len() == 44 + 2 * (pcm.len() / 2),
        forall|i: int|
            0 <= i < 2 * (pcm.len() / 2) ==> #[trigger] pcm[i] == packed(pcm)[44 + i],
        pcm.len() + 36 <= u32::MAX ==> number_4(packed(pcm), 40) == 2 * (pcm.len() / 2),
        number_4(packed(pcm), 24) == 16000,
        number_2(packed(pcm), 22) == 1 && number_2(packed(pcm), 34) == 16,
{
    let len = whole_len(pcm.len());
    law_header_len(len, TRANSCRIBE_SAMPLE_RATE);
    law_header_tells_format(len, TRANSCRIBE_SAMPLE_RATE);
    if pcm.len() + 36 <= u32::MAX {
        law_header_tells_size(len, TRANSCRIBE_SAMPLE_RATE);
    }
    let header = wav_header(len, TRANSCRIBE_SAMPLE_RATE);
    assert(forall|i: int| 0 <= i < 44 ==> packed(pcm)[i] == #[trigger] header[i]);
}

/// A line of a transcription ends at each line feed; a carriage return before it does not belong to
/// the line. What follows the line feed is cut into lines by itself. Text without a line feed is
/// one line, and no text is none.
pub proof fn law_lines(line: Seq<char>, rest: Seq<char>)
    requires
        !line.contains('\n'),
    ensures
        lines_of(line + seq!['\n'] + rest) == seq![without_return(line)] + lines_of(rest),
        lines_of(line) == if line.len() == 0 {
            Seq::<Seq<char>>::empty()
        } else {
            seq![line]
        },
        without_return(line.push('\r')) == line,
        line.len() > 0 && line[line.len() - 1] != '\r' ==> without_return(line) == line,
        without_return(Seq::<char>::empty()).len() == 0,
{
    let text = line + seq!['\n'] + rest;
    let at = line.len() as int;
    assert forall|k: int| 0 <= k < at implies text[k] != '\n' by {
        assert(line[k] == text[k]);
    }
    lemma_first_at(text, '\n', at);
    assert(text.take(at) =~= line);
    assert(text.skip(at + 1) =~= rest);
    lemma_first_absent(line, '\n');
    assert(line.push('\r').drop_last() =~= line);
}

} // verus!
