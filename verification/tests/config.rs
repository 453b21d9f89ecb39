use master_duel_bgms::cli::{Cli, EncoderChoice, Seconds};
use master_duel_bgms::config::{default_fft_size, ConfigError, RenderConfig};

fn cli() -> Cli {
    Cli::default()
}

fn fault(change: fn(&mut Cli)) -> ConfigError {
    let mut args = cli();
    change(&mut args);
    RenderConfig::try_from(&args).unwrap_err()
}

#[test]
fn default_profile_targets_2k60() {
    let config = RenderConfig::try_from(&cli()).unwrap();
    assert_eq!((config.width, config.height, config.fps), (2560, 1440, 60));
    assert_eq!((config.visual_fps, config.bars), (24, 72));
    assert_eq!(config.fft_size, 2_048);
    assert_eq!(cli().jobs, 2);
}

#[test]
fn default_paths_are_those_of_the_project() {
    assert_eq!(cli().input, "AudioClip");
    assert_eq!(cli().output_dir, "outputs");
    assert_eq!(cli().summary, "render-summary.json");
}

#[test]
fn rejects_odd_dimensions() {
    let mut args = cli();
    args.width = 2559;
    assert!(RenderConfig::try_from(&args).is_err());
}

#[test]
fn rejects_odd_bar_counts() {
    let mut args = cli();
    args.bars = 49;
    assert!(RenderConfig::try_from(&args).is_err());
}

#[test]
fn every_fault_is_told() {
    assert_eq!(fault(|args| args.width = 638), ConfigError::SmallDimensions);
    assert_eq!(fault(|args| args.height = 358), ConfigError::SmallDimensions);
    assert_eq!(fault(|args| args.height = 721), ConfigError::OddDimensions);
    assert_eq!(fault(|args| args.visual_fps = 61), ConfigError::VisualFps);
    assert_eq!(fault(|args| args.visual_fps = 0), ConfigError::VisualFps);
    assert_eq!(fault(|args| args.fps = 0), ConfigError::VisualFps);
    assert_eq!(fault(|args| args.bars = 22), ConfigError::Bars);
    assert_eq!(fault(|args| args.bars = 258), ConfigError::Bars);
    assert_eq!(fault(|args| args.analysis_sample_rate = 3_999), ConfigError::SampleRate);
    assert_eq!(fault(|args| args.analysis_sample_rate = 96_001), ConfigError::SampleRate);
    assert_eq!(fault(|args| args.fft_size = 128), ConfigError::FftSize);
    assert_eq!(fault(|args| args.fft_size = 1_000), ConfigError::FftSize);
    assert_eq!(fault(|args| args.fft_size = 16_384), ConfigError::FftSize);
    assert_eq!(fault(|args| args.quality = 52), ConfigError::Quality);
    assert_eq!(fault(|args| args.jobs = 0), ConfigError::Jobs);
    assert_eq!(fault(|args| args.limit = Some(0)), ConfigError::Limit);
    let never = |args: &mut Cli| args.max_duration = Some(Seconds { positive: false, millis: 0 });
    assert_eq!(fault(never), ConfigError::MaxDuration);
}

#[test]
fn the_first_fault_is_told() {
    let change = |args: &mut Cli| {
        args.width = 3;
        args.quality = 99;
    };
    assert_eq!(fault(change), ConfigError::SmallDimensions);
    assert_eq!(fault(change).message(), "video dimensions must be at least 640x360");
    assert_eq!(fault(|args| args.jobs = 0).message(), "jobs must be positive");
}

#[test]
fn limits_are_allowed() {
    let mut args = cli();
    args.width = 640;
    args.height = 360;
    args.visual_fps = 60;
    args.bars = 256;
    args.analysis_sample_rate = 96_000;
    args.fft_size = 8_192;
    args.quality = 51;
    args.limit = Some(1);
    args.max_duration = Some(Seconds { positive: true, millis: 0 });
    args.no_title = true;
    args.preset = Some("slow".to_string());
    args.encoder = EncoderChoice::H264Vaapi;
    let config = RenderConfig::try_from(&args).unwrap();
    assert_eq!(config.encoder, "h264_vaapi");
    assert_eq!(config.preset.as_deref(), Some("slow"));
    assert_eq!(config.audio_bitrate, "320k");
    assert!(!config.show_title);
    assert_eq!((config.bars, config.quality), (256, 51));
}

#[test]
fn encoders_have_their_names() {
    assert_eq!(EncoderChoice::Auto.ffmpeg_name(), "auto");
    assert_eq!(EncoderChoice::H264Nvenc.ffmpeg_name(), "h264_nvenc");
    assert_eq!(EncoderChoice::H264Qsv.ffmpeg_name(), "h264_qsv");
    assert_eq!(EncoderChoice::H264Amf.ffmpeg_name(), "h264_amf");
    assert_eq!(EncoderChoice::Libx264.ffmpeg_name(), "libx264");
    assert_eq!(EncoderChoice::Libopenh264.ffmpeg_name(), "libopenh264");
}

#[test]
fn settings_without_a_size_have_the_default_one() {
    assert_eq!(default_fft_size(), 2_048);
}
