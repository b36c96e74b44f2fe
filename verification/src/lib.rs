//! The logic of a small media player.
pub mod ai_sub_title2;
pub mod appui;
pub mod arith;
pub mod async_clean;
pub mod audio_play;
pub mod body_ui;
pub mod caption_ui;
pub mod clock;
pub mod controlbar_ui;
pub mod decode;
pub mod gpu_post_process;
pub mod headbar_ui;
pub mod internet_resource_ui;
pub mod moonshine_asr;
pub mod pictures;
pub mod playlist_ui;
pub mod present_data_manage;
pub mod presentation;
pub mod samples;
pub mod whisper_burn;
pub mod whispercpp_transcriber;
