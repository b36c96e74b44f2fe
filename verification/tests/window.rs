use tiny_player::appui::{
    AppParts, AppUI, KeepAwakeAction, OpenError, PictureTooLarge, PresentationTexture, ResetError,
    ResetStage, SourceChoice, GARBAGE_LIMIT, ONE_BITS,
};
use tiny_player::async_clean::AsyncCleaner;
use tiny_player::audio_play::{samples_buffer, AudioPlayer, PlayError, FULL_VOLUME};
use tiny_player::body_ui::{BodyUI, ButtonImage, PlayPauseAction};
use tiny_player::caption_ui::CaptionUI;
use tiny_player::clock::{ClockTime, DateTime};
use tiny_player::controlbar_ui::{ControlbarUI, SliderRange, SliderStep};
use tiny_player::decode::{MediaType, PixelFormat, Rational, StreamInfo, TinyDecoder, ATTACHED_PIC};
use tiny_player::gpu_post_process::{
    has_ten_bits, Binding, ColorSpaceConverter, NoRenderState, Pipeline, Space, TextureFormat,
};
use tiny_player::headbar_ui::HeadbarUI;
use tiny_player::internet_resource_ui::{
    LanguageCategory, MediaResource, SelectableArea, SingleResourcePane, CHINESE_PLAYLIST_URL,
    ENGLISH_PLAYLIST_URL,
};
use tiny_player::pictures::{
    can_fit_picture, copy_picture, fit_picture, load_background, load_picture, premultiply, Picture,
};
use tiny_player::playlist_ui::{CoverError, DesList, MediaDesPane, PlayListControlbar};
use tiny_player::samples::frame_byte_len;
use tiny_player::whispercpp_transcriber::UsedModel;

fn plain_picture(width: u32, height: u32, pixel: [u8; 4]) -> Picture {
    let mut rgba = Vec::new();
    for _ in 0..width * height {
        rgba.extend_from_slice(&pixel);
    }
    Picture { width, height, rgba }
}

/// A picture of two by one pixels, red and blue, as an uncompressed file.
fn small_bmp() -> Vec<u8> {
    let mut bytes = vec![0x42, 0x4d];
    bytes.extend_from_slice(&62_u32.to_le_bytes());
    bytes.extend_from_slice(&[0; 4]);
    bytes.extend_from_slice(&54_u32.to_le_bytes());
    bytes.extend_from_slice(&40_u32.to_le_bytes());
    bytes.extend_from_slice(&2_i32.to_le_bytes());
    bytes.extend_from_slice(&1_i32.to_le_bytes());
    bytes.extend_from_slice(&1_u16.to_le_bytes());
    bytes.extend_from_slice(&24_u16.to_le_bytes());
    bytes.extend_from_slice(&[0; 4]);
    bytes.extend_from_slice(&8_u32.to_le_bytes());
    bytes.extend_from_slice(&[0; 16]);
    bytes.extend_from_slice(&[0, 0, 255, 255, 0, 0, 0, 0]);
    bytes
}

const ALL_PARTS: AppParts = AppParts {
    runtime: true,
    media_engine: true,
    render_state: true,
    transcoder: true,
    audio_player: true,
    transcriber: true,
};

fn window() -> AppUI {
    match AppUI::new(ALL_PARTS, &small_bmp()) {
        Ok(app) => app,
        Err(e) => panic!("the window opens: {:?}", e),
    }
}

#[test]
fn a_window_opens_with_nothing_to_play() {
    let app = window();
    assert_eq!((app.current_main_stream_timestamp, app.current_video_timestamp), (0, 0));
    assert_eq!(app.used_model, UsedModel::NoModel);
    assert_eq!((app.path.as_str(), app.tip_window_msg.as_str()), ("", "empty msg"));
    assert!(!app.ui_flags.pause_flag && !app.ui_flags.tip_window_flag && !app.ui_flags.live_mode);
    assert!(!app.is_kept_awake);
    assert_eq!((app.background.width, app.background.height), (2, 1));
    assert_eq!(app.background.rgba, vec![255, 0, 0, 255, 0, 0, 255, 255]);
}

#[test]
fn a_window_needs_all_of_its_parts() {
    let cases = [
        (AppParts { runtime: false, ..ALL_PARTS }, OpenError::Runtime),
        (AppParts { media_engine: false, ..ALL_PARTS }, OpenError::MediaEngine),
        (AppParts { render_state: false, transcoder: false, ..ALL_PARTS }, OpenError::RenderState),
        (AppParts { transcoder: false, ..ALL_PARTS }, OpenError::Transcoder),
        (AppParts { audio_player: false, ..ALL_PARTS }, OpenError::AudioPlayer),
        (AppParts { transcriber: false, ..ALL_PARTS }, OpenError::Transcriber),
    ];
    for (parts, expected) in cases {
        assert_eq!(AppUI::new(parts, &small_bmp()).map(|_| ()), Err(expected));
    }
    let half = AppParts { media_engine: false, ..ALL_PARTS };
    assert_eq!(AppUI::new(half, &[1, 2]).map(|_| ()), Err(OpenError::Background));
    assert_eq!(AppUI::open(ALL_PARTS, None).map(|_| ()), Err(OpenError::Background));
}

#[test]
fn a_background_is_decoded() {
    match load_background(&small_bmp()) {
        Some(picture) => {
            assert_eq!((picture.width, picture.height), (2, 1));
            assert_eq!(picture.rgba, vec![255, 0, 0, 255, 0, 0, 255, 255]);
        }
        None => panic!("the background can be decoded"),
    }
    assert!(load_background(b"no picture").is_none());
}

#[test]
fn icons_can_be_loaded() {
    let red = image::Rgba([255_u8, 0, 0, 255]);
    let picture = image::DynamicImage::ImageRgba8(image::ImageBuffer::from_pixel(2, 2, red));
    let mut file = std::io::Cursor::new(Vec::new());
    assert!(picture.write_to(&mut file, image::ImageFormat::Ico).is_ok());
    match load_picture(&file.into_inner()) {
        Some(icon) => {
            assert_eq!((icon.width, icon.height), (2, 2));
            assert_eq!(icon.rgba, picture.to_rgba8().into_raw());
        }
        None => panic!("the icon can be decoded"),
    }
}

#[test]
fn colours_are_multiplied_by_how_opaque_they_are() {
    let half = premultiply(plain_picture(1, 2, [255, 255, 255, 128]));
    assert_eq!(half.rgba, vec![128; 8]);
    let clear = premultiply(plain_picture(1, 1, [9, 200, 255, 0]));
    assert_eq!(clear.rgba, vec![0; 4]);
    let solid = premultiply(plain_picture(1, 1, [9, 200, 255, 255]));
    assert_eq!(solid.rgba, vec![9, 200, 255, 255]);
    for colour in 0..=255_u8 {
        for alpha in 0..=255_u8 {
            let shown = premultiply(plain_picture(1, 1, [colour, 0, 0, alpha]));
            let exact = f64::from(colour) * f64::from(alpha) / 255.0;
            assert_eq!(f64::from(shown.rgba[0]), exact.round());
        }
    }
    let background = plain_picture(4, 4, [255, 100, 0, 51]);
    let shown = AppUI::reset_main_colorimg_to_bg(&background, (4, 4));
    assert_eq!(shown.rgba[..4], [51, 20, 0, 51]);
    match AppUI::fit_cover(Some(plain_picture(1, 1, [255, 255, 255, 128])), (0, 0)) {
        Ok(Some(cover)) => assert_eq!(cover.rgba, vec![128; 4]),
        _ => panic!("the cover can be fitted"),
    }
    let listed = PlayListControlbar::load_cover_texture(plain_picture(1, 1, [255, 0, 255, 128]));
    assert_eq!(listed.rgba, vec![128, 0, 128, 128]);
}

#[test]
fn a_window_opens_without_a_theme() {
    let mut app = window();
    assert_eq!(app.visible_num, 1);
    assert!(app.take_theme());
    assert!(!app.take_theme());
}

#[test]
fn the_screen_is_kept_on_while_playing() {
    let mut app = window();
    assert_eq!(app.manage_keepawake(), KeepAwakeAction::Create);
    app.note_keepawake(true);
    assert_eq!(app.manage_keepawake(), KeepAwakeAction::Leave);
    app.ui_flags.pause_flag = true;
    assert_eq!(app.manage_keepawake(), KeepAwakeAction::Release);
    app.note_keepawake(false);
    assert_eq!(app.manage_keepawake(), KeepAwakeAction::Leave);
}

#[test]
fn controls_do_not_fade_while_paused() {
    let mut app = window();
    app.apply_visiable_animation(17);
    assert_eq!(app.visible_num, 17);
    app.ui_flags.pause_flag = true;
    app.apply_visiable_animation(17);
    assert_eq!(app.visible_num, ONE_BITS);
    assert_eq!(f32::from_bits(ONE_BITS), 1.0);
}

#[test]
fn a_moving_pointer_shows_the_controls() {
    let mut app = window();
    assert!(!app.detect_pointer_moving(false));
    assert!(!app.ui_flags.visible_flag);
    assert!(app.detect_pointer_moving(true));
    assert!(app.ui_flags.visible_flag);
    app.clear_visible_flag();
    assert!(!app.ui_flags.visible_flag);
}

#[test]
fn the_first_dropped_file_is_played() {
    let mut app = window();
    app.ui_flags.live_mode = true;
    assert_eq!(app.detect_file_drag(&vec![]), None);
    assert_eq!(app.detect_file_drag(&vec![None, Some("b".to_string())]), None);
    assert!(app.ui_flags.live_mode);
    let dropped = vec![Some("a".to_string()), Some("b".to_string())];
    assert_eq!(app.detect_file_drag(&dropped), Some("a".to_string()));
    assert!(!app.ui_flags.live_mode);
}

#[test]
fn a_tip_is_shown_until_it_is_closed() {
    let mut app = window();
    assert!(!app.paint_tip_window(true));
    app.ui_flags.tip_window_flag = true;
    assert!(app.paint_tip_window(false));
    assert!(app.paint_tip_window(true));
    assert!(!app.ui_flags.tip_window_flag);
}

#[test]
fn a_change_of_source_goes_through_its_stages() {
    let mut app = window();
    app.current_main_stream_timestamp = 8;
    app.current_video_timestamp = 9;
    let mut stage = app.reset_media_input(true);
    assert!(app.ui_flags.pause_flag);
    assert_eq!((app.current_main_stream_timestamp, app.current_video_timestamp), (0, 0));
    let stages = [
        ResetStage::StopPresentTasks,
        ResetStage::ResetInput,
        ResetStage::ReadInfo,
        ResetStage::ShowPicture,
        ResetStage::UpdateVideoTexture,
        ResetStage::SpawnPresentTasks,
        ResetStage::Done,
        ResetStage::Done,
    ];
    for expected in stages {
        assert_eq!(stage, expected);
        stage = app.finish_reset_stage(stage, true, "unused");
    }
    assert!(!app.ui_flags.tip_window_flag);
    assert_eq!(app.tip_window_msg, "empty msg");
    assert_eq!(app.reset_media_input(false), ResetStage::ResetInput);
}

#[test]
fn a_failed_change_of_source_is_shown() {
    let cases = [
        (ResetStage::StopPresentTasks, true, "stop_present_tasks error:no task"),
        (ResetStage::ResetInput, true, "reset_input error:no task"),
        (ResetStage::ReadInfo, false, "empty msg"),
        (ResetStage::ShowPicture, false, "empty msg"),
        (ResetStage::UpdateVideoTexture, true, "update_video_texture error:no task"),
    ];
    for (stage, shown, message) in cases {
        let mut app = window();
        app.reset_media_input(true);
        let next = app.finish_reset_stage(stage, false, "no task");
        assert_eq!(next, AppUI::next_reset_stage(stage, false));
        assert_eq!((app.ui_flags.tip_window_flag, app.tip_window_msg.as_str()), (shown, message));
        let later = app.finish_reset_stage(next, shown, "later");
        assert_eq!(later, AppUI::next_reset_stage(next, shown));
        assert!(app.ui_flags.pause_flag);
    }
    let mut app = window();
    app.show_reset_error(ResetError::ResetInput, "x");
    assert!(app.ui_flags.tip_window_flag);
    let failed = ResetStage::Failed(ResetError::ResetInput);
    assert_eq!(app.finish_reset_stage(failed, false, "y"), failed);
    assert_eq!(app.tip_window_msg, "reset_input error:x");
}

#[test]
fn failures_end_a_change_of_source() {
    let cases = [
        (ResetStage::StopPresentTasks, ResetStage::Failed(ResetError::StopPresentTasks)),
        (ResetStage::ResetInput, ResetStage::Failed(ResetError::ResetInput)),
        (ResetStage::ReadInfo, ResetStage::Abandoned),
        (ResetStage::UpdateVideoTexture, ResetStage::Failed(ResetError::UpdateVideoTexture)),
    ];
    for (stage, expected) in cases {
        let next = AppUI::next_reset_stage(stage, false);
        assert_eq!(next, expected);
        assert_eq!(AppUI::next_reset_stage(next, true), expected);
    }
    assert_eq!(
        AppUI::next_reset_stage(ResetStage::ShowPicture, false),
        ResetStage::UpdateVideoTexture
    );
}

#[test]
fn tips_say_what_went_wrong() {
    assert_eq!(
        AppUI::tip_message(ResetError::StopPresentTasks, "no task"),
        "stop_present_tasks error:no task"
    );
    assert_eq!(AppUI::tip_message(ResetError::ResetInput, "x"), "reset_input error:x");
    assert_eq!(
        AppUI::tip_message(ResetError::UpdateVideoTexture, ""),
        "update_video_texture error:"
    );
}

#[test]
fn pictures_keep_their_proportions() {
    let picture = plain_picture(8, 4, [10, 20, 30, 255]);
    assert!(can_fit_picture(8, 4, (4, 4)));
    let small = fit_picture(copy_picture(&picture), (4, 4));
    assert_eq!((small.width, small.height), (4, 2));
    assert_eq!(small.rgba, plain_picture(4, 2, [10, 20, 30, 255]).rgba);
    let same = fit_picture(copy_picture(&picture), (8, 4));
    assert_eq!(same.rgba, picture.rgba);
    let untouched = fit_picture(copy_picture(&picture), (0, 9));
    assert_eq!((untouched.width, untouched.height), (8, 4));
}

#[test]
fn pictures_without_pixels_keep_a_size_they_have() {
    let line = || Picture { width: 5, height: 0, rgba: Vec::new() };
    let same = fit_picture(line(), (5, 0));
    assert_eq!((same.width, same.height, same.rgba.len()), (5, 0, 0));
    let other = fit_picture(line(), (5, 3));
    assert!(other.width >= 1 && other.width <= 5);
    assert!(other.height >= 1 && other.height <= 3);
    assert_eq!(other.rgba.len(), (4 * other.width * other.height) as usize);
    let flat = fit_picture(plain_picture(8, 4, [1, 2, 3, 255]), (4, 0));
    assert_eq!((flat.width, flat.height), (1, 1));
}

#[test]
fn pictures_that_no_memory_can_hold_are_not_made() {
    assert!(!can_fit_picture(u32::MAX, 1, (u32::MAX - 1, u32::MAX)));
    assert!(can_fit_picture(u32::MAX, 1, (0, u32::MAX)));
    assert!(can_fit_picture(u32::MAX, 1, (u32::MAX, 1)));
}

#[test]
fn pictures_with_too_long_sides_are_not_fitted() {
    let (fine, half) = (1 << 22, 1 << 23);
    assert!(can_fit_picture(fine, 1, (u32::MAX, u32::MAX)));
    assert!(can_fit_picture(1, fine, (u32::MAX, u32::MAX)));
    assert!(can_fit_picture(u32::MAX, 1, (half, 2)));
    assert!(can_fit_picture(1, u32::MAX, (2, half)));
    assert!(!can_fit_picture(fine + 1, 1, (half + 1, half + 1)));
    assert!(!can_fit_picture(1, fine + 1, (half + 1, half + 1)));
    assert!(!can_fit_picture(half + 2, 1, (half + 2, 2)));
    assert!(!can_fit_picture(16_777_218, 1, (33_554_436, 2)));
}

#[test]
fn pictures_with_long_sides_are_fitted() {
    let grey = |byte: &u8| *byte == 7 || *byte == 255;
    let long = (1 << 22) + 5;
    let shorter = fit_picture(plain_picture(long, 1, [7, 7, 7, 255]), (long - 3, 2));
    assert_eq!((shorter.width, shorter.height), (long - 3, 1));
    assert!(shorter.rgba.iter().all(grey));
    let small = fit_picture(plain_picture(10_000_001, 1, [7, 7, 7, 255]), (640, 480));
    assert_eq!((small.width, small.height), (640, 1));
    assert!(small.rgba.iter().all(grey));
    let high = fit_picture(plain_picture(1, 10_000_001, [7, 7, 7, 255]), (640, 480));
    assert_eq!((high.width, high.height), (1, 480));
    assert!(high.rgba.iter().all(grey));
}

#[test]
fn wide_pictures_fit_into_high_videos() {
    assert!(can_fit_picture(20_000, 100, (640, 8192)));
    let small = fit_picture(plain_picture(20_000, 100, [1, 2, 3, 255]), (640, 8192));
    assert_eq!((small.width, small.height), (640, 3));
}

#[test]
fn the_background_fits_the_video() {
    let background = plain_picture(6, 6, [1, 2, 3, 255]);
    let shown = AppUI::reset_main_colorimg_to_bg(&background, (3, 9));
    assert_eq!((shown.width, shown.height), (3, 3));
    assert_eq!(shown.rgba.len(), 36);
}

#[test]
fn covers_are_decoded_and_fitted() {
    let cover = Some(small_bmp());
    match AppUI::reset_main_colorimg_to_cover(&cover, (0, 0)) {
        Ok(Some(shown)) => {
            assert_eq!((shown.width, shown.height), (2, 1));
            assert_eq!(shown.rgba, vec![255, 0, 0, 255, 0, 0, 255, 255]);
        }
        _ => panic!("the cover can be decoded"),
    }
    match AppUI::reset_main_colorimg_to_cover(&cover, (4, 4)) {
        Ok(Some(shown)) => assert_eq!((shown.width, shown.height), (4, 2)),
        _ => panic!("the cover can be decoded"),
    }
    let broken = AppUI::reset_main_colorimg_to_cover(&Some(vec![1, 2, 3]), (0, 0));
    assert!(matches!(broken, Ok(None)));
    assert!(matches!(AppUI::reset_main_colorimg_to_cover(&None, (0, 0)), Ok(None)));
}

#[test]
fn the_first_picture_is_the_cover_or_the_background() {
    let background = plain_picture(6, 6, [1, 2, 3, 255]);
    let shown = AppUI::first_picture(&background, &Some(small_bmp()), (0, 0));
    let rgba = vec![255, 0, 0, 255, 0, 0, 255, 255];
    assert_eq!(shown.map(|picture| picture.rgba), Ok(rgba));
    let shown = AppUI::first_picture(&background, &Some(vec![]), (0, 0));
    assert_eq!(shown.map(|picture| picture.rgba), Ok(background.rgba));
}

/// A picture of two by one pixels with sixteen bits for each colour, as a file.
fn deep_png() -> Vec<u8> {
    let dark = image::Rgb([0_u16, 0, 65535]);
    let pale = image::Rgb([200_u16, 0, 65535]);
    let mut picture = image::ImageBuffer::from_pixel(2, 1, dark);
    picture.put_pixel(1, 0, pale);
    let mut file = std::io::Cursor::new(Vec::new());
    match image::DynamicImage::ImageRgb16(picture).write_to(&mut file, image::ImageFormat::Png) {
        Ok(()) => file.into_inner(),
        Err(e) => panic!("{}", e),
    }
}

#[test]
fn deep_covers_are_fitted_before_they_become_bytes() {
    let cover = Some(deep_png());
    let cover_in = |rect| match AppUI::reset_main_colorimg_to_cover(&cover, rect) {
        Ok(shown) => shown,
        Err(_) => panic!("the cover can be fitted"),
    };
    let whole = cover_in((0, 0));
    let rgba = vec![0, 0, 255, 255, 1, 0, 255, 255];
    assert_eq!(whole.map(|picture| picture.rgba), Some(rgba.clone()));
    let same = cover_in((2, 1));
    assert_eq!(same.map(|picture| picture.rgba), Some(rgba.clone()));
    let small = cover_in((1, 1));
    assert_eq!(small.map(|picture| picture.rgba), Some(vec![0, 0, 255, 255]));
    let shallow = fit_picture(Picture { width: 2, height: 1, rgba }, (1, 1));
    assert_eq!(shallow.rgba, vec![1, 0, 255, 255]);
    let wide = cover_in((u32::MAX, 1));
    assert_eq!(wide.map(|picture| (picture.width, picture.height)), Some((2, 1)));
}

#[test]
fn a_cover_that_does_not_fit_is_left_out() {
    assert!(matches!(AppUI::fit_cover(None, (2, 2)), Ok(None)));
    let wide = Picture { width: u32::MAX, height: 0, rgba: vec![] };
    let fitted = AppUI::fit_cover(Some(wide), (u32::MAX - 1, u32::MAX));
    assert!(matches!(fitted, Err(PictureTooLarge)));
}

#[test]
fn old_textures_are_released_in_order() {
    let mut texture = PresentationTexture::new(1, plain_picture(1, 1, [1; 4]));
    assert_eq!(texture.main_color_image.rgba, vec![1; 4]);
    assert_eq!(texture.format, TextureFormat::Rgba8Unorm);
    assert_eq!(texture.release_garbage_texture(), None);
    assert!(texture.update_video_texture(2, plain_picture(1, 1, [2; 4])).is_ok());
    assert!(texture.update_video_texture(3, plain_picture(2, 1, [3; 4])).is_ok());
    assert_eq!(texture.id, 3);
    assert_eq!((texture.main_color_image.width, texture.main_color_image.height), (2, 1));
    assert_eq!(texture.main_color_image.rgba, vec![3; 8]);
    assert_eq!(texture.format, TextureFormat::Rgba8Unorm);
    assert_eq!(texture.release_garbage_texture(), Some(1));
    assert_eq!(texture.release_garbage_texture(), Some(2));
    assert_eq!(texture.release_garbage_texture(), None);
}

#[test]
fn only_so_many_textures_can_wait() {
    let mut texture = PresentationTexture::new(0, plain_picture(1, 1, [0; 4]));
    for id in 1..=GARBAGE_LIMIT as u64 {
        assert!(texture.update_video_texture(id, plain_picture(1, 1, [0; 4])).is_ok());
    }
    match texture.update_video_texture(99, plain_picture(1, 1, [9; 4])) {
        Err(picture) => assert_eq!(picture.rgba, vec![9; 4]),
        Ok(()) => panic!("there is no room"),
    }
    assert_eq!(texture.id, GARBAGE_LIMIT as u64);
    assert_eq!(texture.main_color_image.rgba, vec![0; 4]);
}

#[test]
fn textures_hold_the_pixels_of_their_picture() {
    let picture = plain_picture(3, 2, [1, 2, 3, 4]);
    let upload = PresentationTexture::upload(&picture);
    assert_eq!((upload.width, upload.height, upload.bytes_per_row), (3, 2, 12));
    assert_eq!(upload.format, TextureFormat::Rgba8Unorm);
    assert_eq!(upload.pixels, picture.rgba);
}

#[test]
fn cleaning_tells_what_is_to_be_done() {
    let mut cleaner: AsyncCleaner<u8, u16> = AsyncCleaner::new();
    assert_eq!(cleaner.start_clean(), (None, None));
    cleaner.add_transcriber_resources(3, 4);
    assert_eq!(cleaner.start_clean(), (Some(&3), Some(&4)));
}

#[test]
fn sound_needs_channels_and_a_rate() {
    assert!(matches!(samples_buffer(vec![1], 0, 5), Err(PlayError::NoChannels)));
    assert!(matches!(samples_buffer(vec![1], 65536, 0), Err(PlayError::NoChannels)));
    assert!(matches!(samples_buffer(vec![1], 2, 0), Err(PlayError::NoRate)));
    match samples_buffer(vec![7, 8], 2, 48000) {
        Ok(buffer) => {
            assert_eq!((buffer.channels, buffer.sample_rate), (2, 48000));
            assert_eq!(buffer.samples, vec![7, 8]);
        }
        Err(_) => panic!("the sound can be played"),
    }
}

#[test]
fn frames_become_pieces_of_sound() {
    assert_eq!(frame_byte_len(3, 2), 24);
    let values = [1_u32, 500, 70000, 9];
    let bytes: &[u8] = bytemuck::cast_slice(&values);
    match AudioPlayer::play_raw_data_from_audio_frame(bytes, 1, 2, 44100) {
        Ok(buffer) => {
            assert_eq!(buffer.samples, vec![1, 500]);
            assert_eq!((buffer.channels, buffer.sample_rate), (2, 44100));
        }
        Err(_) => panic!("the bytes lie where words can lie"),
    }
    assert!(matches!(
        AudioPlayer::play_raw_data_from_audio_frame(bytes, 1, 2, 0),
        Err(PlayError::NoRate)
    ));
    assert!(matches!(
        AudioPlayer::play_raw_data_from_audio_frame(&bytes[1..], 1, 2, 44100),
        Err(PlayError::Misaligned)
    ));
}

#[test]
fn the_volume_is_kept() {
    let mut player = AudioPlayer::new();
    assert_eq!(player.current_volumn(), FULL_VOLUME);
    assert_eq!(f32::from_bits(player.current_volumn()), 1.0);
    player.change_volumn(1.5_f32.to_bits());
    assert_eq!(f32::from_bits(player.current_volumn()), 1.5);
}

#[test]
fn the_button_plays_and_pauses() {
    let mut body = BodyUI { pause_flag: false };
    assert_eq!(body.button_image(false), None);
    assert_eq!(body.button_image(true), Some(ButtonImage::Pause));
    assert_eq!(body.paint_playpause_btn(false, true, true), PlayPauseAction::Leave);
    assert_eq!(body.paint_playpause_btn(true, false, false), PlayPauseAction::Leave);
    assert_eq!(body.paint_playpause_btn(true, true, false), PlayPauseAction::Pause);
    assert_eq!(body.button_image(true), Some(ButtonImage::Play));
    assert_eq!(body.paint_playpause_btn(true, false, true), PlayPauseAction::Play);
    assert!(!body.pause_flag);
}

#[test]
fn bars_are_shown_for_sound_alone() {
    assert!(BodyUI::paint_mel_bars(Some((true, false))));
    assert!(!BodyUI::paint_mel_bars(Some((true, true))));
    assert!(!BodyUI::paint_mel_bars(Some((false, false))));
    assert!(!BodyUI::paint_mel_bars(None));
}

#[test]
fn subtitles_come_and_go() {
    let mut caption = CaptionUI::new();
    assert!(!caption.receive(None));
    assert!(caption.receive(Some("hi".to_string())));
    caption.paint_subtitle(false);
    assert_eq!(caption.subtitle_str.as_deref(), Some("hi"));
    assert!(!caption.receive(None));
    assert_eq!(caption.subtitle_str.as_deref(), Some("hi"));
    caption.paint_subtitle(true);
    assert_eq!(caption.subtitle_str, None);
}

fn playing_decoder() -> TinyDecoder {
    let mut decoder = TinyDecoder::new(false, 0, false, 0, 0);
    let streams = vec![StreamInfo {
        index: 0,
        medium: MediaType::Audio,
        disposition: 0,
        time_base: Rational { numerator: 1, denominator: 48000 },
    }];
    decoder.reset_input(&streams, 3_725_000_000);
    decoder
}

#[test]
fn the_bar_shows_the_time_and_the_end() {
    let decoder = playing_decoder();
    let mut bar = ControlbarUI::new();
    assert!(ControlbarUI::can_update_time(&decoder, 48000 * 61, true, false));
    assert!(bar.update_time(&decoder, 48000 * 61, true, false));
    assert_eq!(bar.play_time, ClockTime { hour: 0, minute: 1, second: 1 });
    bar.update_time_text(Some(&decoder.end_time_formatted_string));
    assert_eq!(bar.time_text, "00:01:01|01:02:05");
    bar.update_time_text(None);
    assert_eq!(bar.time_text, "00:01:01");
    bar.set_time_text("x".to_string());
    assert_eq!(bar.time_text, "x");
}

#[test]
fn the_clock_stands_still_for_live_sources() {
    let decoder = playing_decoder();
    let mut bar = ControlbarUI::new();
    assert!(bar.update_time(&decoder, 48000 * 61, true, true));
    assert!(bar.update_time(&decoder, 48000 * 61, false, false));
    assert_eq!(bar.play_time, ClockTime { hour: 0, minute: 0, second: 0 });
    assert!(!bar.update_time(&decoder, -48000, true, false));
    assert_eq!(bar.play_time, ClockTime { hour: 0, minute: 0, second: 0 });
    assert_eq!(
        ControlbarUI::slider_range(4, 9, false),
        SliderRange { first: 0, shown: 4, last: 9 }
    );
    assert_eq!(
        ControlbarUI::slider_range(4, 9, true),
        SliderRange { first: 0, shown: 0, last: 0 }
    );
}

#[test]
fn the_buttons_of_the_bar_toggle() {
    let mut bar = ControlbarUI::new();
    bar.click_caption_button();
    bar.click_volume_button();
    assert!(bar.show_subtitle_options_flag && bar.show_volume_slider_flag);
    assert!(bar.click_fullscreen_button());
    assert!(!bar.click_fullscreen_button());
    assert!(ControlbarUI::choose_model(UsedModel::English));
    assert!(!ControlbarUI::choose_model(UsedModel::NoModel));
}

#[test]
fn frames_a_second_are_shown_once_a_second() {
    let mut bar = HeadbarUI::new();
    assert!(!bar.update_fps(Some(0), 60));
    assert!(!bar.update_fps(None, 60));
    assert_eq!(bar.fps_text_str, "");
    assert!(bar.update_fps(Some(1), 60));
    assert_eq!(bar.fps_text_str, "fps:60");
    assert!(bar.update_fps(Some(1), -1204));
    assert_eq!(bar.fps_text_str, "fps:-1204");
    for fps in [0, 9, 10, 100, i32::MAX, i32::MIN, -7] {
        assert!(bar.update_fps(Some(1), fps));
        assert_eq!(bar.fps_text_str, format!("fps:{}", fps));
    }
}

#[test]
fn the_date_is_shown_if_it_is_known() {
    assert_eq!(HeadbarUI::paint_frame_info_text(None), "date-time：");
    let time = ClockTime { hour: 5, minute: 6, second: 7 };
    let now = DateTime { year: 2026, month: 3, day: 4, time };
    assert_eq!(HeadbarUI::paint_frame_info_text(Some(now)), "date-time：2026-03-04 05:06:07");
}

#[test]
fn lists_open_and_close() {
    let mut bar = HeadbarUI::new();
    assert!(!bar.paint_playlist_button(false));
    assert!(bar.paint_playlist_button(true));
    assert!(bar.paint_playlist_button(false));
    assert!(!bar.paint_playlist_button(true));
    assert!(bar.paint_internet_list_button(true));
    assert!(!bar.playlist_window_flag);
}

#[test]
fn a_chosen_file_is_not_live() {
    let choice = HeadbarUI::paint_file_btn(Some("a.mp4"), true, true);
    assert_eq!(choice, SourceChoice { path: Some("a.mp4"), live_mode: false });
    let choice = HeadbarUI::paint_file_btn(Some("a.mp4"), false, true);
    assert_eq!(choice, SourceChoice { path: Some("a.mp4"), live_mode: true });
    let choice = HeadbarUI::paint_file_btn(None::<&str>, true, true);
    assert_eq!(choice, SourceChoice { path: None, live_mode: true });
}

#[test]
fn a_listed_file_is_played_when_it_is_clicked() {
    let pane = MediaDesPane { name: "film".to_string(), path: 7_u8 };
    assert_eq!(pane.ui(true, true), SourceChoice { path: Some(&7), live_mode: false });
    assert_eq!(pane.ui(false, true), SourceChoice { path: None, live_mode: true });
    assert_eq!(pane.ui(false, false), SourceChoice { path: None, live_mode: false });
}

#[test]
fn a_listed_resource_is_a_live_source() {
    let pane = SingleResourcePane::new(MediaResource { name: "http://a".to_string() });
    let played = SourceChoice { path: Some("http://a".to_string()), live_mode: true };
    assert_eq!(pane.ui(true, true, false), played);
    assert_eq!(pane.ui(true, false, false), SourceChoice { path: None, live_mode: false });
    assert_eq!(pane.ui(false, true, true), SourceChoice { path: None, live_mode: true });
}

#[test]
fn a_dragged_slider_moves_the_source() {
    assert_eq!(
        ControlbarUI::paint_progress_slider(Some(480)),
        vec![SliderStep::Seek { ts: 480 }, SliderStep::ClearSourceQueue, SliderStep::Play]
    );
    assert_eq!(ControlbarUI::paint_progress_slider(None), vec![]);
}

fn converter() -> ColorSpaceConverter {
    match ColorSpaceConverter::new(true) {
        Ok(converter) => converter,
        Err(_) => panic!("the window is drawn by the graphics card"),
    }
}

#[test]
fn a_converter_needs_the_graphics_card() {
    assert_eq!(ColorSpaceConverter::new(false).map(|_| ()), Err(NoRenderState));
}

#[test]
fn colours_depend_on_the_space() {
    let mut converter = converter();
    assert_eq!(converter.uniform, ColorSpaceConverter::get_bt709_params());
    let spaces = [
        (Space::Bt709, ColorSpaceConverter::get_bt709_params()),
        (Space::Smpte170m, ColorSpaceConverter::get_bt601_params()),
        (Space::Bt470bg, ColorSpaceConverter::get_bt601_params()),
        (Space::Bt2020ncl, ColorSpaceConverter::get_bt2020_params()),
        (Space::Bt2020cl, ColorSpaceConverter::get_bt2020_params()),
        (Space::Other, ColorSpaceConverter::get_bt709_params()),
    ];
    for (space, expected) in spaces {
        converter.set_params_for_space(space, PixelFormat::Nv12, 4, 2, true);
        assert_eq!(converter.uniform, expected);
    }
    let uniform = ColorSpaceConverter::get_bt601_params();
    assert_eq!((uniform.luma.red, uniform.luma_offset, uniform.chroma_offset), (1164, -16, -128));
    assert_eq!((uniform.chroma_blue.green, uniform.chroma_blue.blue), (-391, 2018));
    assert_eq!((uniform.chroma_red.red, uniform.chroma_red.green), (1596, -813));
}

#[test]
fn pictures_from_a_device_have_two_planes() {
    let mut converter = converter();
    converter.set_params_for_space(Space::Bt709, PixelFormat::P010le, 640, 480, true);
    let plan = converter.render_video(true);
    assert!(plan.make_view);
    assert_eq!(plan.pipeline, Pipeline::Main);
    assert_eq!(plan.plane_0.map(|p| (p.width, p.height)), Some((640, 480)));
    assert_eq!(plan.plane_0.map(|p| p.format), Some(TextureFormat::R16Unorm));
    assert_eq!(plan.plane_1.map(|p| p.format), Some(TextureFormat::Rg16Unorm));
    assert_eq!(plan.plane_1.map(|p| (p.width, p.height)), Some((320, 240)));
    assert_eq!(plan.plane_2, None);
    assert!(!converter.render_video(true).make_view);
    converter.set_params_for_space(Space::Bt709, PixelFormat::Nv12, 640, 480, true);
    assert!(converter.render_video(true).make_view);
}

#[test]
fn pictures_of_the_processor_have_three_planes() {
    let mut converter = converter();
    converter.set_params_for_space(Space::Bt709, PixelFormat::Yuv420p, 5, 3, false);
    let plan = converter.render_video(false);
    assert_eq!(plan.pipeline, Pipeline::Fallback);
    assert_eq!(plan.plane_1.map(|p| (p.width, p.height)), Some((2, 1)));
    assert_eq!(plan.plane_2.map(|p| p.format), Some(TextureFormat::R8Unorm));
    assert!(converter.fallback_bind_group.is_some() && converter.bind_group.is_none());
    assert!(has_ten_bits(PixelFormat::Yuv420p10) && !has_ten_bits(PixelFormat::Other(3)));
}

#[test]
fn pipelines_are_given_planes_and_a_sampler() {
    assert_eq!(
        Pipeline::Main.bind_group_layout(),
        vec![Binding::Texture, Binding::Texture, Binding::Sampler]
    );
    assert_eq!(Pipeline::Fallback.bind_group_layout().len(), 4);
    assert_eq!(Pipeline::uniform_layout(), vec![Binding::UniformBuffer]);
}

#[test]
fn a_language_is_asked_for_once() {
    let mut area = SelectableArea::new();
    assert_eq!(area.take_request(true), None);
    assert!(!area.select(LanguageCategory::English));
    assert_eq!(area.take_request(false), None);
    assert_eq!(area.take_request(true), Some(LanguageCategory::English));
    assert_eq!(area.take_request(true), None);
    assert!(area.select(LanguageCategory::NoCategory));
    assert_eq!(area.take_request(true), None);
}

#[test]
fn playlists_have_addresses() {
    assert_eq!(SelectableArea::playlist_url(LanguageCategory::English), Ok(ENGLISH_PLAYLIST_URL));
    assert_eq!(SelectableArea::playlist_url(LanguageCategory::Chinese), Ok(CHINESE_PLAYLIST_URL));
    assert!(SelectableArea::playlist_url(LanguageCategory::NoCategory).is_err());
}

fn listed(bytes: &[u8]) -> Vec<String> {
    SelectableArea::request_playlist(bytes).into_iter().map(|pane| pane.resource.name).collect()
}

#[test]
fn playlists_list_their_addresses() {
    let playlist = b"#EXTM3U\n#EXTINF:-1,News\nhttp://a/1.m3u8\r\n\n# a comment\n#EXT-X-ODD\nb";
    assert_eq!(listed(playlist), vec!["http://a/1.m3u8".to_string(), "b".to_string()]);
    assert_eq!(listed(b""), Vec::<String>::new());
    assert_eq!(listed(b"\n\r\n"), Vec::<String>::new());
    assert_eq!(listed(b"x\r"), vec!["x\r".to_string()]);
    assert_eq!(listed("é\n".as_bytes()), vec!["é".to_string()]);
}

#[test]
fn playlists_end_at_a_line_that_cannot_be_read() {
    assert_eq!(listed(b"a\n\xff\nb"), vec!["a".to_string()]);
    assert_eq!(listed(b"a\n#EXT\nb"), vec!["a".to_string()]);
    assert_eq!(listed(b"a\n#EXT\r\nb"), vec!["a".to_string()]);
    assert_eq!(listed(b"a\n#\xff\nb"), vec!["a".to_string()]);
    assert_eq!(listed(b"a\n#EXT\xff\nb"), vec!["a".to_string()]);
    assert_eq!(listed(b"a\n#EXTX:\xff\nb"), vec!["a".to_string(), "b".to_string()]);
    assert_eq!(listed(b"a\n#EXT:\nb"), vec!["a".to_string(), "b".to_string()]);
    assert_eq!(listed(b"a\n#EXTINF:x\nb"), vec!["a".to_string(), "b".to_string()]);
}

#[test]
fn a_row_shows_its_resource() {
    let pane = SingleResourcePane::new(MediaResource { name: "n".to_string() });
    assert_eq!(pane.resource.name, "n");
}

fn media_stream(index: usize, medium: MediaType, disposition: i32) -> StreamInfo {
    let time_base = Rational { numerator: 1, denominator: 1 };
    StreamInfo { index, medium, disposition, time_base }
}

#[test]
fn short_files_are_not_listed() {
    let streams = vec![media_stream(4, MediaType::Video, ATTACHED_PIC)];
    let find = PlayListControlbar::find_cover_stream;
    assert_eq!(find(None, &streams), Err(CoverError::NotMedia));
    assert_eq!(find(Some(4_999_999), &streams), Err(CoverError::NotMedia));
    assert_eq!(find(Some(5_000_000), &streams), Ok(Some(4)));
}

#[test]
fn the_first_attached_picture_is_the_cover() {
    let streams = vec![
        media_stream(0, MediaType::Video, 0),
        media_stream(1, MediaType::Attachment, ATTACHED_PIC),
        media_stream(2, MediaType::Video, ATTACHED_PIC),
        media_stream(3, MediaType::Video, ATTACHED_PIC),
    ];
    assert_eq!(PlayListControlbar::find_cover_stream(Some(9_000_000), &streams), Ok(Some(2)));
    assert_eq!(
        PlayListControlbar::find_cover_stream(Some(9_000_000), &streams[..2].to_vec()),
        Ok(None)
    );
}

#[test]
fn covers_are_taken_out_of_their_packets() {
    let bytes = small_bmp();
    let cover = PlayListControlbar::cover_of_packet;
    assert!(cover(1, 2, Some(&bytes)).is_none());
    assert!(cover(2, 2, None).is_none());
    assert!(cover(2, 2, Some(&bytes[..9])).is_none());
    assert_eq!(cover(2, 2, Some(&bytes)).map(|p| (p.width, p.height)), Some((2, 1)));
}

#[test]
fn missing_covers_are_replaced() {
    let found = plain_picture(3, 3, [0; 4]);
    match PlayListControlbar::load_file_cover(Some(found), &[]) {
        Ok(picture) => assert_eq!(picture.width, 3),
        Err(_) => panic!("a cover was found"),
    }
    match PlayListControlbar::load_file_cover(None, &small_bmp()) {
        Ok(picture) => assert_eq!(picture.rgba.len(), 8),
        Err(_) => panic!("the default can be decoded"),
    }
    assert!(matches!(
        PlayListControlbar::load_file_cover(None, &[1]),
        Err(CoverError::NoDefault)
    ));
}

#[test]
fn folders_list_files_with_covers() {
    let scan = PlayListControlbar::scan_video_folder;
    let name = || Some("a".to_string());
    assert!(scan(true, name(), Ok(plain_picture(1, 1, [0; 4]))).is_some());
    assert!(scan(false, name(), Ok(plain_picture(1, 1, [0; 4]))).is_none());
    assert!(scan(true, None, Ok(plain_picture(1, 1, [0; 4]))).is_none());
    assert!(scan(true, name(), Err(CoverError::NotMedia)).is_none());
    assert_eq!((DesList::column_of(4), DesList::column_of(5)), (0, 1));
}
