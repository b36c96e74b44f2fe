use tiny_player::decode::{
    choose_streams, find_hw_config, get_format_callback, AvSampleFormat, DecodeError, DecodeEvent,
    DecodePhase, DecoderChoiceError, DemuxAction, DemuxContext, FlushedDecoders, FrameSource,
    HwDeviceType, MainStream, MediaType, PacketRead, PacketUse, PixelFormat, QueueLens, Rational,
    ResamplerOptions, Sample, SampleLayout, SeekRequest, StoppedTasks, StreamInfo, TinyDecoder,
    ATTACHED_PIC, NO_STREAM, NO_TIMESTAMP, SEEK_FLAG_ANY,
};

fn stream(index: usize, medium: MediaType, disposition: i32, denominator: i32) -> StreamInfo {
    StreamInfo { index, medium, disposition, time_base: Rational { numerator: 1, denominator } }
}

fn film() -> Vec<StreamInfo> {
    vec![
        stream(0, MediaType::Video, 0, 90000),
        stream(1, MediaType::Audio, 0, 48000),
        stream(2, MediaType::Audio, 0, 44100),
        stream(3, MediaType::Video, ATTACHED_PIC, 90000),
        stream(4, MediaType::Subtitle, 0, 1000),
    ]
}

fn is_fresh(decoder: &TinyDecoder) -> bool {
    decoder.video_stream_index == NO_STREAM
        && decoder.audio_stream_index == NO_STREAM
        && decoder.cover_stream_index == NO_STREAM
        && decoder.main_stream == MainStream::Audio
        && decoder.video_time_base == Rational { numerator: 1, denominator: 1 }
        && decoder.audio_time_base == Rational { numerator: 1, denominator: 1 }
        && decoder.video_frame_rect == (0, 0)
        && decoder.format_duration == 0
        && decoder.end_timestamp == 0
        && decoder.end_time_formatted_string.is_empty()
        && !decoder.has_input
        && !decoder.has_video_decoder
        && !decoder.has_audio_decoder
        && !decoder.has_resampler
        && !decoder.demux_exit_flag
        && !decoder.decode_exit_flag
        && !decoder.has_demux_task
        && !decoder.has_video_decode_task
        && !decoder.has_audio_decode_task
        && !decoder.hardware_config_flag
        && decoder.cover_pic_data.is_none()
        && !decoder.media_source_flag
        && decoder.waiting
            == QueueLens { audio_packets: 0, video_packets: 0, audio_frames: 0, video_frames: 0 }
}

#[test]
fn streams_are_chosen_by_their_kind() {
    let found = choose_streams(&film());
    assert_eq!(found.video.map(|s| s.index), Some(0));
    assert_eq!(found.audio.map(|s| s.index), Some(1));
    assert_eq!(found.cover.map(|s| s.index), Some(3));
}

#[test]
fn the_last_video_and_the_last_cover_win() {
    let streams = vec![
        stream(0, MediaType::Video, 0, 25),
        stream(1, MediaType::Video, 0, 30),
        stream(2, MediaType::Video, ATTACHED_PIC, 25),
        stream(3, MediaType::Attachment, 0, 25),
    ];
    let found = choose_streams(&streams);
    assert_eq!(found.video.map(|s| s.index), Some(1));
    assert_eq!(found.cover.map(|s| s.index), Some(3));
    assert_eq!(found.audio, None);
}

#[test]
fn a_cover_with_other_dispositions_is_a_video() {
    let found = choose_streams(&vec![stream(0, MediaType::Video, ATTACHED_PIC + 1, 25)]);
    assert!(found.cover.is_none());
    assert!(found.video.is_some());
}

#[test]
fn a_film_follows_its_sound() {
    let mut decoder = TinyDecoder::new(false, 0, false, 0, 0);
    assert!(decoder.can_reset_input(&film(), 125_500_000));
    decoder.reset_input(&film(), 125_500_000);
    assert_eq!(decoder.main_stream, MainStream::Audio);
    assert_eq!(decoder.format_duration, 125_500_000);
    assert_eq!(decoder.end_timestamp, 125_500 * 48);
    assert_eq!(decoder.end_time_formatted_string, "00:02:05");
    assert_eq!(decoder.audio_time_base.denominator, 48000);
    assert_eq!(decoder.video_time_base.denominator, 90000);
}

#[test]
fn a_silent_film_follows_its_pictures() {
    let mut decoder = TinyDecoder::new(false, 0, false, 0, 0);
    let silent = vec![stream(5, MediaType::Video, 0, 25)];
    decoder.reset_input(&silent, 3_600_000_000);
    assert_eq!(decoder.main_stream, MainStream::Video);
    assert_eq!(decoder.end_timestamp, 90000);
    assert_eq!(decoder.end_time_formatted_string, "01:00:00");
    assert_eq!(decoder.main_time_base().denominator, 25);
}

#[test]
fn a_source_without_duration_ends_at_zero() {
    let mut decoder = TinyDecoder::new(false, 7, false, 0, 0);
    decoder.reset_input(&film(), NO_TIMESTAMP);
    assert_eq!(decoder.format_duration, 0);
    assert_eq!(decoder.end_timestamp, 0);
    assert_eq!(decoder.end_time_formatted_string, "00:00:00");
}

#[test]
fn durations_that_cannot_be_told_are_refused() {
    let decoder = TinyDecoder::new(false, 0, false, 0, 0);
    assert!(!decoder.can_reset_input(&film(), i64::MAX));
    let broken = vec![StreamInfo {
        time_base: Rational { numerator: 0, denominator: 1 },
        ..stream(0, MediaType::Audio, 0, 1)
    }];
    assert!(!decoder.can_reset_input(&broken, 1));
    assert!(decoder.can_reset_input(&film(), NO_TIMESTAMP));
}

#[test]
fn an_end_that_is_no_time_of_day_is_not_shown() {
    let mut decoder = TinyDecoder::new(false, 0, false, 0, 0);
    decoder.reset_input(&film(), 90_000 * 1_000_000);
    assert_eq!(decoder.end_time_formatted_string, "");
    decoder.compute_end_time_str(48000 * 59);
    assert_eq!(decoder.end_time_formatted_string, "00:00:59");
}

#[test]
fn leaving_a_source_resets_every_field() {
    let mut decoder = TinyDecoder::new(false, 0, false, 0, 0);
    assert!(is_fresh(&decoder));
    assert_eq!(decoder.leave_source(), None);
    decoder.reset_input(&film(), 10_000_000);
    decoder.take_audio_decoder();
    decoder.take_video_decoder(640, 480);
    decoder.cover_pic_data = Some(vec![1]);
    let context = decoder.start_process_input();
    assert_eq!(
        context,
        DemuxContext { audio_stream_index: 1, video_stream_index: 0, cover_stream_index: 3 }
    );
    assert!(decoder.has_input && decoder.media_source_flag && decoder.has_demux_task);
    assert_eq!(decoder.video_frame_rect, (640, 480));
    assert!(!is_fresh(&decoder));
    let all = StoppedTasks { demux: true, video_decode: true, audio_decode: true };
    assert_eq!(decoder.leave_source(), Some(all));
    assert!(is_fresh(&decoder));
}

#[test]
fn stopping_sets_both_exit_flags() {
    let mut decoder = TinyDecoder::new(true, 3, true, 0, 0);
    let none = StoppedTasks { demux: false, video_decode: false, audio_decode: false };
    assert_eq!(decoder.stop_background_tasks(), none);
    assert!(decoder.demux_exit_flag && decoder.decode_exit_flag);
    assert!(decoder.media_source_flag && decoder.hardware_config_flag);
    assert_eq!(decoder.end_timestamp, 3);
}

#[test]
fn closing_waits_for_the_tasks() {
    let mut decoder = TinyDecoder::new(false, 0, false, 0, 0);
    decoder.take_audio_decoder();
    decoder.start_process_input();
    let all = StoppedTasks { demux: true, video_decode: true, audio_decode: true };
    assert_eq!(decoder.close(), all);
    assert!(!decoder.has_demux_task && !decoder.has_resampler && decoder.demux_exit_flag);
}

#[test]
fn seeking_goes_to_any_frame_before_the_time() {
    let mut decoder = TinyDecoder::new(false, 0, false, 0, 0);
    assert_eq!(decoder.seek_timestamp_to_decode(5), None);
    decoder.reset_input(&film(), 10_000_000);
    decoder.start_process_input();
    assert_eq!(
        decoder.seek_timestamp_to_decode(4800).map(|plan| plan.request),
        Some(SeekRequest {
            stream_index: 1,
            min_ts: i64::MIN,
            ts: 4800,
            max_ts: 4800,
            flags: SEEK_FLAG_ANY
        })
    );
}

#[test]
fn seeking_empties_the_queues_and_flushes_the_decoders() {
    let none = QueueLens { audio_packets: 0, video_packets: 0, audio_frames: 0, video_frames: 0 };
    let some = QueueLens { audio_packets: 4, video_packets: 3, audio_frames: 2, video_frames: 1 };
    let mut decoder = TinyDecoder::new(false, 0, false, 8, 9);
    assert_eq!((decoder.waiting.audio_frames, decoder.waiting.video_frames), (8, 9));
    assert_eq!(decoder.seek_timestamp_to_decode(5), None);
    assert_eq!(decoder.waiting, none);
    decoder.reset_input(&film(), 10_000_000);
    decoder.take_audio_decoder();
    decoder.start_process_input();
    decoder.note_queues(some);
    assert_eq!(decoder.waiting, some);
    let flushed = decoder.seek_timestamp_to_decode(5).map(|plan| plan.flush);
    assert_eq!(flushed, Some(FlushedDecoders { audio: true, video: false }));
    assert_eq!(decoder.waiting, none);
    decoder.note_queues(some);
    decoder.reset_states();
    assert_eq!(decoder.waiting, none);
}

#[test]
fn seeking_without_a_main_stream_moves_the_whole_source() {
    let mut decoder = TinyDecoder::new(false, 0, false, 0, 0);
    decoder.start_process_input();
    assert_eq!(decoder.seek_timestamp_to_decode(0).map(|plan| plan.request.stream_index), Some(-1));
}

#[test]
fn the_demuxer_reads_while_one_kind_is_short() {
    assert_eq!(TinyDecoder::packet_demux_process(true, 0, 0), DemuxAction::Exit);
    assert_eq!(TinyDecoder::packet_demux_process(false, 499, 512), DemuxAction::ReadPacket);
    assert_eq!(TinyDecoder::packet_demux_process(false, 500, 499), DemuxAction::ReadPacket);
    assert_eq!(TinyDecoder::packet_demux_process(false, 500, 500), DemuxAction::WaitForNotice);
}

#[test]
fn packets_go_where_their_stream_goes() {
    let context =
        DemuxContext { audio_stream_index: 1, video_stream_index: 0, cover_stream_index: 3 };
    let packet = |stream_index, has_data| PacketRead::Packet { stream_index, has_data };
    assert_eq!(context.route_packet(packet(1, true)), PacketUse::SendToAudio);
    assert_eq!(context.route_packet(packet(0, false)), PacketUse::SendToVideo);
    assert_eq!(context.route_packet(packet(3, true)), PacketUse::KeepAsCover);
    assert_eq!(context.route_packet(packet(3, false)), PacketUse::Drop);
    assert_eq!(context.route_packet(packet(2, true)), PacketUse::Drop);
    assert_eq!(context.route_packet(PacketRead::Eof), PacketUse::RetryAfter { millis: 10 });
    assert_eq!(context.route_packet(PacketRead::Ended), PacketUse::RetryAfter { millis: 0 });
    assert_eq!(context.route_packet(PacketRead::Failed), PacketUse::RetryAfter { millis: 0 });
    assert_eq!(context.route_packet(PacketRead::NoInput), PacketUse::RetryAfter { millis: 0 });
}

#[test]
fn pictures_are_decoded_packet_by_packet() {
    let events = [
        DecodeEvent::Checked { exit: false, queued_frames: 14 },
        DecodeEvent::PacketCame { packets_left: 199, has_decoder: true },
        DecodeEvent::PacketTaken { accepted: true, has_resampler: false },
        DecodeEvent::FrameCame { given: true },
        DecodeEvent::Converted { status: -1 },
        DecodeEvent::FrameSent,
        DecodeEvent::FrameCame { given: false },
        DecodeEvent::Checked { exit: true, queued_frames: 0 },
    ];
    let phases = [
        (DecodePhase::ReceivePacket, false),
        (DecodePhase::FeedDecoder, true),
        (DecodePhase::TakeFrame, false),
        (DecodePhase::ConvertFrame, false),
        (DecodePhase::SendFrame, false),
        (DecodePhase::TakeFrame, false),
        (DecodePhase::Check, false),
        (DecodePhase::Ended(None), false),
    ];
    let mut phase = DecodePhase::Check;
    for (event, expected) in events.iter().zip(phases.iter()) {
        let next = TinyDecoder::video_frame_decode_process(phase, *event);
        assert_eq!(next, *expected);
        phase = next.0;
    }
    let after = TinyDecoder::video_frame_decode_process(phase, DecodeEvent::Noticed);
    assert_eq!(after, (DecodePhase::Ended(None), false));
}

#[test]
fn a_full_queue_makes_decoding_wait() {
    let full = DecodeEvent::Checked { exit: false, queued_frames: 15 };
    assert_eq!(
        TinyDecoder::video_frame_decode_process(DecodePhase::Check, full).0,
        DecodePhase::WaitForRoom
    );
    assert_eq!(
        TinyDecoder::audio_frame_decode_process(DecodePhase::Check, full).0,
        DecodePhase::ReceivePacket
    );
    let fuller = DecodeEvent::Checked { exit: false, queued_frames: 30 };
    assert_eq!(
        TinyDecoder::audio_frame_decode_process(DecodePhase::Check, fuller).0,
        DecodePhase::WaitForRoom
    );
    assert_eq!(
        TinyDecoder::audio_frame_decode_process(DecodePhase::WaitForRoom, DecodeEvent::Noticed).0,
        DecodePhase::Check
    );
}

#[test]
fn sound_needs_a_resampler() {
    let taken = DecodeEvent::PacketTaken { accepted: true, has_resampler: false };
    assert_eq!(
        TinyDecoder::audio_frame_decode_process(DecodePhase::FeedDecoder, taken).0,
        DecodePhase::Ended(Some(DecodeError::NoResampler))
    );
    let refused = DecodeEvent::PacketTaken { accepted: false, has_resampler: false };
    assert_eq!(
        TinyDecoder::audio_frame_decode_process(DecodePhase::FeedDecoder, refused).0,
        DecodePhase::Check
    );
}

#[test]
fn sound_that_cannot_be_converted_ends_decoding() {
    let failed = DecodeEvent::Converted { status: 1 };
    assert_eq!(
        TinyDecoder::audio_frame_decode_process(DecodePhase::ConvertFrame, failed).0,
        DecodePhase::Ended(Some(DecodeError::ConvertFailed))
    );
}

#[test]
fn packets_without_a_decoder_are_passed_over() {
    let came = DecodeEvent::PacketCame { packets_left: 200, has_decoder: false };
    assert_eq!(
        TinyDecoder::audio_frame_decode_process(DecodePhase::ReceivePacket, came),
        (DecodePhase::Check, false)
    );
    assert_eq!(
        TinyDecoder::audio_frame_decode_process(DecodePhase::ReceivePacket, DecodeEvent::NoPacket),
        (DecodePhase::Check, false)
    );
}

#[test]
fn pictures_from_a_device_are_copied() {
    assert_eq!(
        TinyDecoder::convert_hardware_frame(true, Some(9)),
        FrameSource::FromDevice { pts: Some(9), format: PixelFormat::Yuv420p }
    );
    assert_eq!(TinyDecoder::convert_hardware_frame(false, Some(9)), FrameSource::AsDecoded);
}

#[test]
fn only_decoders_that_exist_are_flushed() {
    let mut decoder = TinyDecoder::new(false, 0, false, 0, 0);
    assert_eq!(decoder.flush_decoders(), FlushedDecoders { audio: false, video: false });
    decoder.take_video_decoder(2, 2);
    assert_eq!(decoder.flush_decoders(), FlushedDecoders { audio: false, video: true });
}

#[test]
fn samples_are_named_by_kind_and_layout() {
    let cases = [
        (Sample::NoFormat, AvSampleFormat::NoFormat),
        (Sample::U8(SampleLayout::Packed), AvSampleFormat::U8),
        (Sample::U8(SampleLayout::Planar), AvSampleFormat::U8p),
        (Sample::I16(SampleLayout::Packed), AvSampleFormat::S16),
        (Sample::I16(SampleLayout::Planar), AvSampleFormat::S16p),
        (Sample::I32(SampleLayout::Packed), AvSampleFormat::S32),
        (Sample::I32(SampleLayout::Planar), AvSampleFormat::S32p),
        (Sample::I64(SampleLayout::Packed), AvSampleFormat::S64),
        (Sample::I64(SampleLayout::Planar), AvSampleFormat::S64p),
        (Sample::F32(SampleLayout::Packed), AvSampleFormat::Flt),
        (Sample::F32(SampleLayout::Planar), AvSampleFormat::Fltp),
        (Sample::F64(SampleLayout::Packed), AvSampleFormat::Dbl),
        (Sample::F64(SampleLayout::Planar), AvSampleFormat::Dblp),
    ];
    for (sample, name) in cases {
        assert_eq!(
            TinyDecoder::alloc_swr_ctx(sample, 44100),
            ResamplerOptions {
                out_channels: 2,
                out_format: AvSampleFormat::Flt,
                out_rate: 48000,
                in_format: name,
                in_rate: 44100
            }
        );
    }
}

#[test]
fn the_first_suitable_device_is_found() {
    let configs = vec![HwDeviceType::Vulkan, HwDeviceType::D3d12va, HwDeviceType::D3d12va];
    assert_eq!(find_hw_config(&configs), Some(1));
    assert_eq!(find_hw_config(&vec![HwDeviceType::Other]), None);
}

#[test]
fn devices_are_used_where_they_can_be_opened() {
    let configs = Some(vec![HwDeviceType::D3d12va]);
    let mut decoder = TinyDecoder::new(false, 0, false, 0, 0);
    assert_eq!(decoder.choose_decoder_with_hardware_prefer(&configs, -5), Ok(false));
    assert!(!decoder.hardware_config_flag);
    assert_eq!(decoder.choose_decoder_with_hardware_prefer(&Some(vec![]), 0), Ok(false));
    assert_eq!(decoder.choose_decoder_with_hardware_prefer(&configs, 0), Ok(true));
    assert!(decoder.hardware_config_flag);
}

#[test]
fn a_decoder_without_codec_is_an_error() {
    let mut decoder = TinyDecoder::new(false, 0, false, 0, 0);
    assert_eq!(
        decoder.choose_decoder_with_hardware_prefer(&None, 0),
        Err(DecoderChoiceError::NoCodec)
    );
}

#[test]
fn the_format_of_the_device_is_picked_if_offered() {
    let offered = vec![PixelFormat::Nv12, PixelFormat::D3d12, PixelFormat::NoFormat];
    assert_eq!(get_format_callback(&offered), PixelFormat::D3d12);
    let other = vec![PixelFormat::Yuv420p, PixelFormat::NoFormat, PixelFormat::D3d12];
    assert_eq!(get_format_callback(&other), PixelFormat::Yuv420p);
    assert_eq!(get_format_callback(&vec![PixelFormat::NoFormat]), PixelFormat::NoFormat);
}
