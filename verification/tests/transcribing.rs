use tiny_player::ai_sub_title2::{
    AISubTitle2, SpecialTokens, SubtitleError, UsedModel as BuiltInModel, MAXIMUM_SAMPLE_COUNT,
};
use tiny_player::moonshine_asr::{
    TranscribeError as StreamError, Transcriber as StreamTranscriber, TranscriptLine,
};
use tiny_player::whispercpp_transcriber::{
    read_reply, reply_text, TranscribeAction, TranscribeError, Transcriber, UsedModel,
    THREE_SEC_BYTES_LEN,
};

fn all_tokens() -> SpecialTokens {
    SpecialTokens {
        start_of_transcript: Some(50258),
        transcribe: Some(50359),
        start_of_prev: Some(50361),
        english: Some(50259),
        chinese: Some(50260),
        first_timestamp: Some(50364),
        end_of_text: Some(50257),
        no_timestamps: Some(50363),
    }
}

fn subtitle() -> AISubTitle2 {
    match AISubTitle2::new(&all_tokens()) {
        Ok(subtitle) => subtitle,
        Err(_) => panic!("tokens are complete"),
    }
}

/// A tone with harmonics, as loud as a voice.
fn tone(n: usize) -> Vec<i16> {
    (0..n)
        .map(|i| {
            let t = i as f64 / 16000.0;
            let wave: f64 = (1..12)
                .map(|k| (t * 150.0 * k as f64 * std::f64::consts::TAU).sin() / k as f64)
                .sum();
            (wave * 9000.0) as i16
        })
        .collect()
}

#[test]
fn tokens_are_put_together_by_language() {
    let subtitle = subtitle();
    assert_eq!(subtitle.english_initial_tokens, vec![50258, 50259, 50359, 50363]);
    assert_eq!(subtitle.chinese_initial_tokens, vec![50258, 50260, 50359, 50363]);
    assert_eq!(subtitle.end_token, 50257);
    assert_eq!(subtitle.initial_tokens(BuiltInModel::Chinese), &subtitle.chinese_initial_tokens);
    assert_eq!(subtitle.initial_tokens(BuiltInModel::Empty), &subtitle.english_initial_tokens);
    assert_eq!(subtitle.initial_tokens(BuiltInModel::English), &subtitle.english_initial_tokens);
}

#[test]
fn every_special_token_is_needed() {
    let incomplete = [
        SpecialTokens { start_of_transcript: None, ..all_tokens() },
        SpecialTokens { transcribe: None, ..all_tokens() },
        SpecialTokens { start_of_prev: None, ..all_tokens() },
        SpecialTokens { english: None, ..all_tokens() },
        SpecialTokens { chinese: None, ..all_tokens() },
        SpecialTokens { first_timestamp: None, ..all_tokens() },
        SpecialTokens { end_of_text: None, ..all_tokens() },
        SpecialTokens { no_timestamps: None, ..all_tokens() },
    ];
    for tokens in incomplete {
        match AISubTitle2::new(&tokens) {
            Ok(_) => panic!("a token is missing"),
            Err(e) => assert_eq!(e, SubtitleError::SpecialTokenMissing),
        }
    }
}

#[test]
fn a_segment_begins_and_ends_with_a_voice() {
    let mut subtitle = subtitle();
    assert!(subtitle.listen(false, &vec![1, 2]).is_none());
    assert!(!subtitle.speaking && subtitle.speech_segment.is_empty());
    assert!(subtitle.listen(true, &vec![1, 2]).is_none());
    assert!(subtitle.speaking);
    assert_eq!(subtitle.speech_segment.len(), 2);
    for _ in 0..36 {
        assert!(subtitle.listen(false, &vec![3]).is_none());
        assert!(subtitle.speaking);
    }
    assert_eq!(subtitle.unactive_count, 36);
    assert!(subtitle.listen(false, &vec![3]).is_none());
    assert!(!subtitle.speaking);
    assert_eq!(subtitle.speech_segment.len(), 2);
}

#[test]
fn long_segments_are_transcribed_in_pieces() {
    let mut subtitle = subtitle();
    let frame: Vec<u32> = (0..MAXIMUM_SAMPLE_COUNT as u32).collect();
    assert!(subtitle.listen(true, &frame).is_none());
    match subtitle.listen(true, &vec![7, 8]) {
        Some(piece) => {
            assert_eq!(piece.samples, frame);
            assert!(!piece.ends_segment);
        }
        None => panic!("the segment is long enough"),
    }
    assert_eq!(subtitle.speech_segment.iter().copied().collect::<Vec<u32>>(), vec![7, 8]);
}

#[test]
fn the_last_piece_ends_the_segment_once_transcribed() {
    let mut subtitle = subtitle();
    let frame: Vec<u32> = (0..MAXIMUM_SAMPLE_COUNT as u32 + 5).collect();
    assert!(subtitle.listen(true, &frame).is_none());
    subtitle.unactive_count = 36;
    match subtitle.listen(false, &vec![9]) {
        Some(piece) => {
            assert_eq!(piece.samples.len(), MAXIMUM_SAMPLE_COUNT);
            assert!(piece.ends_segment);
        }
        None => panic!("the segment is long enough"),
    }
    assert!(subtitle.speaking);
    subtitle.piece_transcribed(true, false);
    assert!(subtitle.speaking);
    subtitle.piece_transcribed(true, true);
    assert!(!subtitle.speaking);
    assert_eq!(subtitle.speech_segment.len(), 5);
}

#[test]
fn the_detector_waits_for_enough_samples() {
    let mut subtitle = subtitle();
    assert!(matches!(subtitle.receive_frame_data(&vec![0; 160], &vec![1]), Ok(None)));
    assert_eq!(subtitle.vad_buffer.len(), 160);
    assert!(matches!(subtitle.receive_frame_data(&vec![0; 1], &vec![1]), Ok(None)));
    assert_eq!(subtitle.vad_buffer.len(), 1);
}

#[test]
fn silence_is_no_voice_and_a_loud_tone_is() {
    let mut subtitle = subtitle();
    let _ = subtitle.receive_frame_data(&vec![0; 480], &vec![1]);
    assert!(!subtitle.speaking);
    assert!(subtitle.speech_segment.is_empty());
    subtitle.vad_buffer.clear();
    let _ = subtitle.receive_frame_data(&tone(480), &vec![1, 2, 3]);
    assert!(subtitle.speaking);
    assert_eq!(subtitle.speech_segment.len(), 3);
}

#[test]
fn sound_is_packed_with_a_plain_header() {
    let file = Transcriber::package_wav_bytes(&[1, 2, 3, 0xff, 9]);
    let expected: Vec<u8> = vec![
        0x52, 0x49, 0x46, 0x46, 40, 0, 0, 0, 0x57, 0x41, 0x56, 0x45, 0x66, 0x6d, 0x74, 0x20, 16, 0,
        0, 0, 1, 0, 1, 0, 0x80, 0x3e, 0, 0, 0, 0x7d, 0, 0, 2, 0, 16, 0, 0x64, 0x61, 0x74, 0x61, 4,
        0, 0, 0, 1, 2, 3, 0xff,
    ];
    assert_eq!(file, Ok(expected));
}

#[test]
fn silence_is_packed_as_a_header_alone() {
    match Transcriber::package_wav_bytes(&[]) {
        Ok(file) => {
            assert_eq!(file.len(), 44);
            assert_eq!(file[4..8], [36, 0, 0, 0]);
            assert_eq!(file[40..], [0, 0, 0, 0]);
        }
        Err(_) => panic!("nothing can fail"),
    }
}

#[test]
fn samples_can_be_read_back_from_a_file() {
    let pcm: Vec<u8> = (0..2000).map(|i| (i * 7 % 256) as u8).collect();
    match Transcriber::package_wav_bytes(&pcm) {
        Ok(file) => assert_eq!(file[44..], pcm[..]),
        Err(_) => panic!("nothing can fail"),
    }
}

#[test]
fn a_file_is_the_same_as_one_written_at_once() {
    let samples: Vec<i16> = (0..3000).map(|i| (i * 37 - 32000) as i16).collect();
    let pcm: Vec<u8> = samples.iter().flat_map(|sample| sample.to_le_bytes()).collect();
    let spec = hound::WavSpec {
        channels: 1,
        sample_rate: 16000,
        bits_per_sample: 16,
        sample_format: hound::SampleFormat::Int,
    };
    let mut cursor = std::io::Cursor::new(Vec::new());
    match hound::WavWriter::new(&mut cursor, spec) {
        Ok(mut writer) => {
            for sample in &samples {
                assert!(writer.write_sample(*sample).is_ok());
            }
        }
        Err(e) => panic!("{}", e),
    }
    match Transcriber::package_wav_bytes(&pcm) {
        Ok(file) => assert_eq!(file, cursor.into_inner()),
        Err(_) => panic!("nothing can fail"),
    }
}

#[test]
fn a_transcriber_needs_its_resampler() {
    assert!(Transcriber::new(0, 0).is_ok());
    assert!(matches!(Transcriber::new(-1, -1), Err(TranscribeError::ResamplerCreate)));
    assert!(matches!(Transcriber::new(0, -1), Err(TranscribeError::ResamplerInit)));
    let options = Transcriber::resampler_options();
    assert_eq!((options.out_channels, options.out_rate, options.in_rate), (1, 16000, 48000));
}

#[test]
fn the_task_waits_without_a_language() {
    let next = Transcriber::next_action;
    assert_eq!(next(true, false, UsedModel::English), TranscribeAction::Exit);
    assert_eq!(next(false, true, UsedModel::English), TranscribeAction::WaitForNotice);
    assert_eq!(next(false, false, UsedModel::NoModel), TranscribeAction::WaitForNotice);
    assert_eq!(next(false, false, UsedModel::Chinese), TranscribeAction::Transcribe);
}

#[test]
fn short_sound_is_sent_again_until_it_is_long() {
    let mut transcriber = match Transcriber::new(0, 0) {
        Ok(transcriber) => transcriber,
        Err(_) => panic!("the resampler is there"),
    };
    assert_eq!(transcriber.take_sound(&vec![1; 32]), None);
    assert_eq!(transcriber.take_sound(&vec![2; 1]).map(|s| s.len()), Some(33));
    assert_eq!(transcriber.buffer_queue.len(), 33);
    let sent = transcriber.take_sound(&vec![3; THREE_SEC_BYTES_LEN]);
    assert_eq!(sent.as_ref().map(|s| s.len()), Some(THREE_SEC_BYTES_LEN));
    assert_eq!(sent.map(|s| s[30..34].to_vec()), Some(vec![1, 1, 2, 3]));
    assert_eq!(transcriber.buffer_queue.len(), 33);
}

#[test]
fn frames_hold_two_bytes_a_sample() {
    assert_eq!(Transcriber::push_audio_frame(0, &[1, 2, 3, 4, 5], 2), Ok(vec![1, 2, 3, 4]));
    assert_eq!(
        Transcriber::push_audio_frame(-22, &[], 5),
        Err(TranscribeError::Convert { code: -22 })
    );
}

#[test]
fn requests_name_the_language() {
    assert_eq!(Transcriber::request_language(UsedModel::English), Ok("en"));
    assert_eq!(Transcriber::request_language(UsedModel::Chinese), Ok("zh"));
    match Transcriber::send_request(&[1, 2], UsedModel::Chinese) {
        Ok((language, file)) => {
            assert_eq!(language, "zh");
            assert_eq!(file.len(), 46);
        }
        Err(_) => panic!("a language is chosen"),
    }
    assert_eq!(
        Transcriber::send_request(&[1, 2], UsedModel::NoModel),
        Err(TranscribeError::NoLanguage)
    );
}

#[test]
fn replies_hold_a_text() {
    assert_eq!(read_reply(b"{\"text\": \"hello\\nworld\"}"), Ok("hello\nworld".to_string()));
    assert_eq!(read_reply(b"{\"text\": 5}"), Err(TranscribeError::NoText));
    assert_eq!(read_reply(b"[1, 2]"), Err(TranscribeError::NoText));
    assert_eq!(read_reply(b"{\"text\": "), Err(TranscribeError::BadReply));
    assert_eq!(reply_text(Some(Some("a".to_string()))), Ok("a".to_string()));
    assert_eq!(reply_text(Some(None)), Err(TranscribeError::NoText));
    assert_eq!(reply_text(None), Err(TranscribeError::BadReply));
}

#[test]
fn transcripts_are_shown_line_by_line() {
    for script in ["", "a", "a\nb", "a\r\nb\r", "\n\n", "x\n", "\r\n", "α\nβγ\r\n\r", "a\rb"] {
        let lines: Vec<String> = script.lines().map(|line| line.to_string()).collect();
        assert_eq!(Transcriber::transcribe(script), lines);
    }
}

fn line(text: &[u8], is_complete: i8) -> TranscriptLine {
    TranscriptLine { text: text.to_vec(), is_complete }
}

#[test]
fn streams_must_be_started() {
    assert_eq!(
        StreamTranscriber::new(3, 4, 0),
        Ok(StreamTranscriber { transcriber_handle: 3, stream_handle: 4 })
    );
    assert_eq!(StreamTranscriber::new(3, 4, 1), Err(StreamError::StartStream));
}

#[test]
fn lines_that_are_still_spoken_are_shown() {
    let lines = vec![line(b"one", 0), line(b"two", 1), line("drei".as_bytes(), 0)];
    assert_eq!(
        StreamTranscriber::push_audio_frame(0, 0, &lines),
        (vec!["one".to_string(), "drei".to_string()], Ok(()))
    );
}

#[test]
fn what_is_not_text_ends_the_transcript() {
    let lines = vec![line(&[0xff], 1), line(b"one", 0), line(&[0xc3, 0x28], 0), line(b"two", 0)];
    assert_eq!(
        StreamTranscriber::push_audio_frame(0, 0, &lines),
        (vec!["one".to_string()], Err(StreamError::NotText))
    );
}

#[test]
fn stream_failures_show_nothing() {
    let lines = vec![line(b"one", 0)];
    assert_eq!(
        StreamTranscriber::push_audio_frame(1, 1, &lines),
        (vec![], Err(StreamError::AddAudio))
    );
    assert_eq!(
        StreamTranscriber::push_audio_frame(0, -1, &lines),
        (vec![], Err(StreamError::TranscribeStream))
    );
}
