use tiny_player::decode::{MainStream, Rational};
use tiny_player::present_data_manage::{
    AbortedTasks, DataManageContext, PresentDataManager as DecoderPresenter,
};
use tiny_player::presentation::{
    can_tell_millis, can_use_video_frame, is_play_end, millis, use_audio_frame, use_video_frame,
    DueChange, FrequencyAnalyzer, MediaSourceInfo, PictureUse, PlayAction, PlayRound, PlayState,
    PresentDataManager, PresentError, SoundUse, Weight, BINS, FFT_SIZE,
};
use tiny_player::whispercpp_transcriber::UsedModel;

const MILLIS: Rational = Rational { numerator: 1, denominator: 1000 };
const TICKS: Rational = Rational { numerator: 1, denominator: 25 };

fn info(has_audio: bool) -> MediaSourceInfo {
    MediaSourceInfo { has_audio, audio_time_base: MILLIS, video_time_base: TICKS }
}

fn playing() -> PlayState {
    PlayState {
        cancelled: false,
        paused: false,
        live_mode: false,
        demux_eof: false,
        audio_frames: 9,
        video_frames: 9,
        info: Some(info(true)),
    }
}

#[test]
fn ticks_become_milliseconds() {
    assert_eq!(millis(TICKS, 26), 1040);
    assert_eq!(millis(TICKS, -1), -40);
    assert!(can_tell_millis(TICKS, 26));
    assert!(!can_tell_millis(TICKS, i64::MAX / 999));
    assert!(!can_tell_millis(Rational { numerator: 1, denominator: 0 }, 1));
}

#[test]
fn pictures_chase_the_sound() {
    let chase = PresentDataManager::should_video_chase_audio;
    assert!(chase(&info(false), 0, 1000));
    assert!(chase(&info(true), 1001, 25));
    assert!(!chase(&info(true), 1000, 25));
    assert!(!chase(&info(true), 0, 25));
}

#[test]
fn pictures_more_than_a_second_ahead_are_shown() {
    let chase = PresentDataManager::should_video_chase_audio;
    assert!(chase(&info(true), 0, 26));
    assert!(!chase(&info(true), 40, 26));
}

#[test]
fn tasks_start_and_stop() {
    let mut manager = PresentDataManager::new(false);
    assert!(!manager.is_running);
    assert_eq!(manager.cancel_present_tasks(), Err(PresentError::NoAudioTask));
    assert!(manager.cancelled);
    manager.spawn_present_tasks();
    assert!(manager.is_running && !manager.cancelled);
    assert_eq!(manager.cancel_present_tasks(), Ok(()));
    assert!(!manager.is_running && manager.cancelled);
    assert!(!manager.has_audio_task && !manager.has_video_task);
}

#[test]
fn a_missing_picture_task_is_an_error() {
    let mut manager = PresentDataManager::new(false);
    manager.has_audio_task = true;
    manager.is_running = true;
    assert_eq!(manager.cancel_present_tasks(), Err(PresentError::NoVideoTask));
    assert!(!manager.has_audio_task && manager.is_running);
}

#[test]
fn the_timestamp_follows_sound_or_pictures() {
    let update = PresentDataManager::update_current_timestamp;
    assert_eq!(update(5, Some(7), true, 9), 7);
    assert_eq!(update(5, None, true, 9), 5);
    assert_eq!(update(5, Some(7), false, 9), 9);
}

#[test]
fn a_source_ends_when_nothing_is_left() {
    assert!(is_play_end(false, true, 0, 0));
    assert!(!is_play_end(true, true, 0, 0));
    assert!(!is_play_end(false, false, 0, 0));
    assert!(!is_play_end(false, true, 1, 0));
    assert!(!is_play_end(false, true, 0, 1));
}

#[test]
fn sound_is_taken_while_the_player_is_short() {
    let round = |state: &PlayState, queued| PresentDataManager::execute_audio_task(state, queued);
    let take = |notify_decoder| PlayAction::TakeFrame { notify_decoder };
    assert_eq!(round(&playing(), 7), PlayRound { pause: false, action: take(false) });
    assert_eq!(round(&playing(), 8), PlayRound { pause: false, action: PlayAction::Rest });
    let low = PlayState { audio_frames: 4, ..playing() };
    assert_eq!(round(&low, 0), PlayRound { pause: false, action: take(true) });
    let silent = PlayState { info: Some(info(false)), ..playing() };
    assert_eq!(round(&silent, 0).action, PlayAction::UpdateTimestamp);
    let gone = PlayState { info: None, ..playing() };
    assert_eq!(round(&gone, 0).action, PlayAction::Exit);
    assert_eq!(round(&gone, 8).action, PlayAction::Rest);
}

#[test]
fn stopped_and_paused_tasks_do_nothing_else() {
    let stopped = PlayState { cancelled: true, paused: true, demux_eof: true, ..playing() };
    assert_eq!(
        PresentDataManager::execute_audio_task(&stopped, 0),
        PlayRound { pause: false, action: PlayAction::Exit }
    );
    assert_eq!(
        PresentDataManager::execute_video_task(&stopped, 0, 0, true),
        (PlayRound { pause: false, action: PlayAction::Exit }, false)
    );
    let paused = PlayState { cancelled: false, ..stopped };
    assert_eq!(
        PresentDataManager::execute_audio_task(&paused, 0).action,
        PlayAction::WaitForNotice
    );
    assert_eq!(
        PresentDataManager::execute_video_task(&paused, 0, 0, true).0.action,
        PlayAction::WaitForNotice
    );
    assert_eq!(
        PresentDataManager::execute_video_task(&paused, i64::MAX, i64::MIN, true).0.action,
        PlayAction::WaitForNotice
    );
}

#[test]
fn the_end_pauses_the_player_unless_live() {
    let end = PlayState { demux_eof: true, audio_frames: 0, video_frames: 0, ..playing() };
    assert!(PresentDataManager::execute_audio_task(&end, 8).pause);
    assert!(PresentDataManager::execute_video_task(&end, 0, 0, false).0.pause);
    let live = PlayState { live_mode: true, ..end };
    assert!(!PresentDataManager::execute_audio_task(&live, 8).pause);
    assert!(!PresentDataManager::execute_video_task(&live, 0, 0, false).0.pause);
}

#[test]
fn pictures_are_taken_when_they_are_due() {
    let silent = PlayState { info: Some(info(false)), ..playing() };
    let take = |notify_decoder| PlayAction::TakeFrame { notify_decoder };
    let round = PresentDataManager::execute_video_task;
    assert_eq!(round(&silent, 0, 0, true), (PlayRound { pause: false, action: take(true) }, true));
    assert_eq!(
        round(&silent, 0, 0, false),
        (PlayRound { pause: false, action: PlayAction::Rest }, true)
    );
    let many = PlayState { video_frames: 10, ..playing() };
    assert_eq!(round(&many, 1000, 0, false).0.action, take(false));
    assert_eq!(round(&many, 0, 0, true), (PlayRound { pause: false, action: PlayAction::Rest }, false));
    let gone = PlayState { info: None, demux_eof: true, ..playing() };
    assert_eq!(round(&gone, 0, 0, true).0, PlayRound { pause: false, action: PlayAction::Exit });
}

#[test]
fn sound_is_transcribed_where_a_model_is_in_use() {
    assert_eq!(
        use_audio_frame(Some(4), UsedModel::English),
        SoundUse { play: Some(4), transcribe: true }
    );
    assert_eq!(
        use_audio_frame(Some(4), UsedModel::NoModel),
        SoundUse { play: Some(4), transcribe: false }
    );
    assert_eq!(
        use_audio_frame(None, UsedModel::Chinese),
        SoundUse { play: None, transcribe: false }
    );
}

#[test]
fn pictures_with_sound_are_shown_at_once() {
    let used = |pts| use_video_frame(&info(true), pts, 10);
    let shown = |timestamp| PictureUse { render: true, timestamp, due: DueChange::Keep };
    assert_eq!(used(Some(Some(12))), shown(Some(12)));
    assert_eq!(used(Some(None)), shown(None));
    assert_eq!(
        used(None),
        PictureUse { render: false, timestamp: None, due: DueChange::Keep }
    );
}

#[test]
fn silent_pictures_keep_their_distance() {
    let used = |pts| use_video_frame(&info(false), pts, 10);
    let shown = |due| PictureUse { render: true, timestamp: Some(12), due };
    assert_eq!(used(Some(Some(12))), shown(DueChange::Advance { millis: 80 }));
    assert_eq!(used(Some(Some(35))).due, DueChange::Reset);
    assert_eq!(used(Some(Some(34))).due, DueChange::Advance { millis: 960 });
    assert_eq!(used(Some(Some(0))).due, DueChange::Reset);
    assert_eq!(used(Some(Some(9))).due, DueChange::Advance { millis: (-40_i64) as u64 });
    assert_eq!(
        used(Some(None)),
        PictureUse { render: false, timestamp: None, due: DueChange::Keep }
    );
}

#[test]
fn gaps_that_cannot_be_told_are_refused() {
    assert!(can_use_video_frame(&info(false), Some(Some(12)), 10));
    assert!(!can_use_video_frame(&info(false), Some(Some(i64::MAX)), -1));
    assert!(!can_use_video_frame(&info(false), Some(Some(i64::MAX)), 1));
    assert!(can_use_video_frame(&info(true), Some(Some(i64::MAX)), -1));
    assert!(can_use_video_frame(&info(false), Some(None), 1));
}

#[test]
fn samples_are_cut_into_windows() {
    let mut analyzer = FrequencyAnalyzer::new();
    let samples: Vec<u32> = (0..2500).collect();
    let windows = analyzer.push_samples(&samples);
    assert_eq!(windows.len(), 2);
    assert_eq!(windows[0], (0..1024).collect::<Vec<u32>>());
    assert_eq!(windows[1], (1024..2048).collect::<Vec<u32>>());
    assert_eq!(analyzer.buffer.len(), 2500 - 2 * FFT_SIZE);
    let more = analyzer.push_samples(&(2500..3072).collect());
    assert_eq!(more.len(), 1);
    assert_eq!(more[0], (2048..3072).collect::<Vec<u32>>());
    assert!(analyzer.buffer.is_empty());
}

#[test]
fn frames_are_read_as_words_of_the_machine() {
    let values: Vec<u32> = (0..1101).map(|i| i * 65793 + 7).collect();
    let bytes: &[u8] = bytemuck::cast_slice(&values);
    let mut analyzer = FrequencyAnalyzer::new();
    match analyzer.process_frame(bytes, 550, 2) {
        Some(windows) => {
            assert_eq!(windows.len(), 1);
            assert_eq!(windows[0], values[..1024].to_vec());
        }
        None => panic!("the bytes lie where words can lie"),
    }
    assert_eq!(
        analyzer.buffer.iter().copied().collect::<Vec<u32>>(),
        values[1024..1100].to_vec()
    );
}

#[test]
fn frames_at_odd_addresses_are_not_read() {
    let values: Vec<u32> = (0..9).collect();
    let bytes: &[u8] = bytemuck::cast_slice(&values);
    let mut analyzer = FrequencyAnalyzer::new();
    assert!(analyzer.process_frame(&bytes[1..], 4, 2).is_none());
    assert!(analyzer.buffer.is_empty());
}

#[test]
fn triangles_rise_and_fall() {
    let filters = FrequencyAnalyzer::construct_mel_filterbank(&vec![2, 4, 8, 8, 9], 3);
    assert_eq!(filters.len(), 1);
    let filter = &filters[0];
    assert_eq!(filter.len(), BINS);
    assert_eq!(filter[2], Weight { num: 0, den: 2 });
    assert_eq!(filter[3], Weight { num: 1, den: 2 });
    assert_eq!(filter[4], Weight { num: 2, den: 2 });
    assert_eq!(filter[5], Weight { num: 3, den: 4 });
    assert_eq!(filter[8], Weight { num: 0, den: 4 });
    assert_eq!(filter[9], Weight { num: 0, den: 1 });
}

fn context(main_stream: MainStream) -> DataManageContext {
    DataManageContext { main_stream, audio_time_base: MILLIS, video_time_base: TICKS }
}

#[test]
fn decoder_tasks_are_started_and_stopped() {
    let mut manager = DecoderPresenter::new();
    assert_eq!(
        manager.stop_present_tasks(),
        (AbortedTasks { audio: false, video: false }, Err(PresentError::NoAudioTask))
    );
    manager.has_audio_task = true;
    assert_eq!(
        manager.stop_present_tasks(),
        (AbortedTasks { audio: true, video: false }, Err(PresentError::NoVideoTask))
    );
    manager.start_present_tasks();
    assert_eq!(
        manager.stop_present_tasks(),
        (AbortedTasks { audio: true, video: true }, Ok(()))
    );
}

#[test]
fn decoder_sound_is_taken_while_the_sink_is_short() {
    let round = |main, paused, queued, frames| {
        DecoderPresenter::play_audio_task(&context(main), paused, queued, frames)
    };
    let take = |notify_decoder| PlayAction::TakeFrame { notify_decoder };
    assert_eq!(round(MainStream::Audio, false, 9, 5), take(false));
    assert_eq!(round(MainStream::Audio, false, 9, 4), take(true));
    assert_eq!(round(MainStream::Audio, false, 10, 4), PlayAction::Rest);
    assert_eq!(round(MainStream::Audio, true, 0, 4), PlayAction::Rest);
    assert_eq!(round(MainStream::Video, false, 0, 4), PlayAction::UpdateTimestamp);
}

#[test]
fn decoder_pictures_catch_the_sound() {
    let catch = DecoderPresenter::should_video_catch_audio;
    assert!(catch(&context(MainStream::Video), 0, 1000));
    assert!(catch(&context(MainStream::Audio), 0, 26));
    assert!(!catch(&context(MainStream::Audio), 0, 25));
    let take = |notify_decoder| PlayAction::TakeFrame { notify_decoder };
    let round = DecoderPresenter::play_video_task;
    assert_eq!(round(&context(MainStream::Audio), false, 10, 100, 0, false), (take(false), false));
    assert_eq!(round(&context(MainStream::Video), false, 9, 0, 0, false), (PlayAction::Rest, true));
    assert_eq!(round(&context(MainStream::Video), true, 9, 0, 0, true), (PlayAction::Rest, false));
    let paused = round(&context(MainStream::Audio), true, 9, i64::MAX, i64::MIN, true);
    assert_eq!(paused, (PlayAction::Rest, false));
}

#[test]
fn decoder_pictures_and_clocks() {
    let used = DecoderPresenter::use_picture(&context(MainStream::Video), Some(Some(12)), 10);
    assert_eq!(used.due, DueChange::Advance { millis: 80 });
    let used = DecoderPresenter::use_picture(&context(MainStream::Audio), Some(None), 10);
    assert_eq!(used, PictureUse { render: true, timestamp: None, due: DueChange::Keep });
    let update = DecoderPresenter::update_current_timestamp;
    assert_eq!(update(5, Some(7), MainStream::Audio, 9), 7);
    assert_eq!(update(5, None, MainStream::Audio, 9), 5);
    assert_eq!(update(5, Some(7), MainStream::Video, 9), 9);
}
