use master_duel_bgms::arguments::Argument;
use master_duel_bgms::config::RenderConfig;
use master_duel_bgms::encoder::{
    encode_arguments, first_render_node, openh264_bitrate, probe_arguments, resolve_encoder,
    temporary_video_name, EncoderError,
};

fn config(encoder: &str, preset: Option<&str>) -> RenderConfig {
    RenderConfig {
        width: 1920,
        height: 1080,
        fps: 60,
        visual_fps: 24,
        bars: 72,
        analysis_sample_rate: 12_000,
        fft_size: 2_048,
        encoder: encoder.to_string(),
        quality: 18,
        preset: preset.map(str::to_string),
        audio_bitrate: "320k".to_string(),
        show_title: true,
    }
}

fn words(arguments: Vec<Argument>) -> Vec<String> {
    arguments
        .into_iter()
        .map(|argument| match argument {
            Argument::Text(text) => text,
            Argument::Device => "<device>".to_string(),
            Argument::Source => "<source>".to_string(),
            Argument::Output => "<output>".to_string(),
        })
        .collect()
}

fn line(arguments: Vec<Argument>) -> String {
    words(arguments).join(" ")
}

fn bitrate(width: u32, height: u32, fps: u32, quality: u8) -> u64 {
    openh264_bitrate(width, height, fps, quality, |pixel_rate: u64, quality: u8| {
        let resolution_scale = pixel_rate as f64 / (2_560_u64 * 1_440 * 60) as f64;
        let quality_scale = 2.0_f64.powf((18.0 - f64::from(quality)) / 6.0);
        (18_000_000.0 * resolution_scale * quality_scale).round() as u64
    })
}

fn held(wanted: u64) -> u64 {
    openh264_bitrate(1, 1, 1, 0, |_: u64, _: u8| wanted)
}

#[test]
fn openh264_quality_scales_reference_bitrate() {
    let default = bitrate(2_560, 1_440, 60, 18);

    assert_eq!(default, 18_000_000);
    assert!(bitrate(2_560, 1_440, 60, 12) > default);
    assert!(bitrate(2_560, 1_440, 60, 24) < default);
}

#[test]
fn openh264_bitrates_are_bounded() {
    assert_eq!(held(0), 2_000_000);
    assert_eq!(held(2_000_001), 2_000_001);
    assert_eq!(held(u64::MAX), 80_000_000);
    let wanted = [0, 1_999_999, 2_000_000, 18_000_000, 80_000_000, 80_000_001];
    for pair in wanted.windows(2) {
        assert!(held(pair[0]) <= held(pair[1]));
    }
    let scale = |pixel_rate: u64, quality: u8| pixel_rate * 100 + u64::from(quality);
    assert_eq!(openh264_bitrate(200, 100, 30, 7, scale), 60_000_007);
    assert_eq!(bitrate(640, 360, 24, 51), 2_000_000);
    assert_eq!(bitrate(7_680, 4_320, 60, 0), 80_000_000);
    assert!(bitrate(1_920, 1_080, 30, 20) <= bitrate(1_920, 1_080, 60, 20));
    assert!(bitrate(1_920, 1_080, 60, 20) <= bitrate(2_560, 1_440, 60, 18));
}

#[test]
fn a_requested_encoder_is_used_if_it_works() {
    let works = resolve_encoder("libx264", |name: &str| name == "libx264");
    assert_eq!(works, Ok("libx264".to_string()));
    let broken = resolve_encoder("libx264", |_: &str| false);
    assert_eq!(broken, Err(EncoderError::Unavailable));
}

#[test]
fn auto_takes_the_first_encoder_that_works() {
    let all = resolve_encoder("auto", |_: &str| true);
    assert_eq!(all, Ok("h264_nvenc".to_string()));
    let some = resolve_encoder("auto", |name: &str| name == "libopenh264" || name == "h264_amf");
    assert_eq!(some, Ok("h264_amf".to_string()));
    let last = resolve_encoder("auto", |name: &str| name == "libopenh264");
    assert_eq!(last, Ok("libopenh264".to_string()));
    let none = resolve_encoder("auto", |_: &str| false);
    assert_eq!(none, Err(EncoderError::NoneAvailable));
}

#[test]
fn encoders_are_probed_with_one_frame() {
    assert_eq!(
        line(probe_arguments("libx264", false).unwrap()),
        "-hide_banner -loglevel error -f lavfi -i color=black:s=64x64:d=0.04 -frames:v 1 \
         -c:v libx264 -f null -"
    );
    assert_eq!(
        line(probe_arguments("h264_vaapi", true).unwrap()),
        "-hide_banner -loglevel error -vaapi_device <device> -f lavfi -i \
         color=black:s=64x64:d=0.04 -frames:v 1 -vf format=nv12,hwupload -c:v h264_vaapi -f null -"
    );
    assert!(probe_arguments("h264_vaapi", false).is_none());
}

#[test]
fn tracks_are_encoded_with_all_options() {
    assert_eq!(
        line(encode_arguments(&config("libx264", None), true, "12.500000", 7, 1)),
        "-hide_banner -loglevel error -y -f rawvideo -pixel_format rgba -video_size 1920x1080 \
         -framerate 24 -i pipe:0 -i <source> -map 0:v:0 -map 1:a:0 -t 12.500000 \
         -vf fps=60,format=yuv420p -c:v libx264 -preset veryfast -crf 18 -threads 7 \
         -c:a aac -b:a 320k -movflags +faststart -shortest <output>"
    );
}

#[test]
fn vaapi_gets_its_device_and_filter() {
    let with = line(encode_arguments(&config("h264_vaapi", None), true, "1.000000", 7, 1));
    assert!(with.starts_with("-vaapi_device <device> -hide_banner"));
    assert!(with.contains("-vf fps=60,format=nv12,hwupload -c:v h264_vaapi -qp 18 -c:a aac"));
    let without = line(encode_arguments(&config("h264_vaapi", None), false, "1.000000", 7, 1));
    assert!(without.starts_with("-hide_banner"));
}

#[test]
fn every_encoder_has_its_options() {
    let options = |encoder: &str, preset: Option<&str>| {
        let line = line(encode_arguments(&config(encoder, preset), false, "1", 3, 9_000_000));
        let start = line.find("-c:v ").unwrap();
        let end = line.find(" -c:a").unwrap();
        line[start..end].to_string()
    };
    assert_eq!(options("h264_nvenc", None), "-c:v h264_nvenc -preset p4 -rc vbr -cq 18");
    assert_eq!(options("h264_nvenc", Some("p7")), "-c:v h264_nvenc -preset p7 -rc vbr -cq 18");
    assert_eq!(options("h264_qsv", None), "-c:v h264_qsv -preset medium -global_quality 18");
    assert_eq!(options("h264_amf", None), "-c:v h264_amf -quality speed -q:v 18");
    assert_eq!(options("h264_amf", Some("quality")), "-c:v h264_amf -quality quality -q:v 18");
    assert_eq!(
        options("libopenh264", None),
        "-c:v libopenh264 -b:v 9000000 -profile:v high -coder cabac -rc_mode quality -g 12 -threads 3"
    );
    assert_eq!(options("other", None), "-c:v other");
}

#[test]
fn key_frames_are_at_least_one_frame_apart() {
    let mut slow = config("libopenh264", None);
    slow.fps = 4;
    assert!(line(encode_arguments(&slow, false, "1", 3, 1)).contains(" -g 1 "));
}

#[test]
fn the_first_render_node_is_taken() {
    let names = |list: &[&str]| list.iter().map(|name| name.to_string()).collect::<Vec<String>>();
    let listed = names(&["card0", "renderD129", "renderD128", "by-path"]);
    assert_eq!(first_render_node(&listed), Some(2));
    assert_eq!(first_render_node(&names(&["renderD"])), Some(0));
    assert_eq!(first_render_node(&names(&["card0", "render"])), None);
    assert_eq!(first_render_node(&names(&[])), None);
}

#[test]
fn videos_are_written_beside_themselves_first() {
    assert_eq!(temporary_video_name("duel climax 01.mp4"), "duel climax 01.part.mp4");
    assert_eq!(temporary_video_name("a.b.mp4"), "a.b.part.mp4");
}
