use master_duel_bgms::cli::Seconds;
use master_duel_bgms::config::RenderConfig;
use master_duel_bgms::profile::{current_visual_revision, RunProfile};
use serde_json::Value;

fn render() -> RenderConfig {
    RenderConfig {
        width: 2560,
        height: 1440,
        fps: 60,
        visual_fps: 24,
        bars: 48,
        analysis_sample_rate: 12_000,
        fft_size: 2_048,
        encoder: "libopenh264".into(),
        quality: 18,
        preset: None,
        audio_bitrate: "320k".into(),
        show_title: true,
    }
}

fn quoted(text: &str) -> String {
    Value::from(text).to_string()
}

fn encoded(profile: &RunProfile) -> String {
    let render = &profile.render;
    let preset = render.preset.as_deref().map_or("null".to_string(), quoted);
    let limit = profile.max_duration_millis.map_or("null".to_string(), |limit| limit.to_string());
    format!(
        "{{\"visual_revision\":{},\"render\":{{\"width\":{},\"height\":{},\"fps\":{},\
         \"visual_fps\":{},\"bars\":{},\"analysis_sample_rate\":{},\"fft_size\":{},\
         \"encoder\":{},\"quality\":{},\"preset\":{},\"audio_bitrate\":{},\
         \"show_title\":{}}},\"max_duration_millis\":{}}}",
        profile.visual_revision,
        render.width,
        render.height,
        render.fps,
        render.visual_fps,
        render.bars,
        render.analysis_sample_rate,
        render.fft_size,
        quoted(&render.encoder),
        render.quality,
        preset,
        quoted(&render.audio_bitrate),
        render.show_title,
        limit,
    )
}

fn id(profile: &RunProfile) -> String {
    RunProfile::id(encoded(profile).as_bytes())
}

#[test]
fn profile_id_changes_with_visual_settings() {
    let mut render = render();
    let first = id(&RunProfile::new(render.clone(), None));
    render.bars = 64;
    let second = id(&RunProfile::new(render, None));
    assert_ne!(first, second);
}

#[test]
fn profile_id_changes_with_visual_revision() {
    let current = RunProfile::new(render(), None);
    let mut previous = current.clone();
    previous.visual_revision -= 1;

    assert_ne!(id(&current), id(&previous));
}

#[test]
fn encoded_profiles_hold_their_fields_in_order() {
    assert_eq!(
        encoded(&RunProfile::new(render(), None)),
        "{\"visual_revision\":1,\"render\":{\"width\":2560,\"height\":1440,\"fps\":60,\
         \"visual_fps\":24,\"bars\":48,\"analysis_sample_rate\":12000,\"fft_size\":2048,\
         \"encoder\":\"libopenh264\",\"quality\":18,\"preset\":null,\
         \"audio_bitrate\":\"320k\",\"show_title\":true},\"max_duration_millis\":null}"
    );
}

#[test]
fn profiles_hold_the_current_revision_and_the_limit() {
    let seconds = Seconds { positive: true, millis: 2_500 };
    let profile = RunProfile::new(render(), Some(seconds));
    assert_eq!(profile.visual_revision, current_visual_revision());
    assert_eq!(profile.visual_revision, 1);
    assert_eq!(profile.max_duration_millis, Some(2_500));
    assert_eq!(profile.render, render());
    assert_ne!(id(&profile), id(&RunProfile::new(render(), None)));
}

#[test]
fn identifiers_are_hashes_in_hexadecimal() {
    assert_eq!(RunProfile::id(b""), "cbf29ce484222325");
    assert_eq!(RunProfile::id(b"a"), "af63dc4c8601ec8c");
    assert_eq!(RunProfile::id(b"foobar"), "85944171f73967e8");
}

#[test]
fn identifiers_change_with_one_byte() {
    for (one, other) in [("abc", "abd"), ("abc", "bbc"), ("\u{0}", "\u{1}")] {
        assert_ne!(RunProfile::id(one.as_bytes()), RunProfile::id(other.as_bytes()));
        assert_eq!(RunProfile::id(one.as_bytes()).len(), 16);
    }
}
