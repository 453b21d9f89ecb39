use std::path::Path;

use master_duel_bgms::batch::RenderOutcome;
use master_duel_bgms::config::RenderConfig;
use master_duel_bgms::encoder::RenderStats;
use master_duel_bgms::manifest::{
    portable_name, portable_path, source_fingerprint, temporary_summary_name, Fingerprint, ObservedTrack,
    RecordError, StoredSeconds, Summary, TrackStatus, TrackSummary, UnreadableSource, UnsupportedSchema,
    SCHEMA_VERSION,
};
use master_duel_bgms::paths::below_root;
use master_duel_bgms::profile::RunProfile;

const ENCODED: &[u8] = b"{}";

fn profile() -> RunProfile {
    let render = RenderConfig {
        width: 2560,
        height: 1440,
        fps: 60,
        visual_fps: 24,
        bars: 48,
        analysis_sample_rate: 12_000,
        fft_size: 2_048,
        encoder: "libopenh264".into(),
        quality: 18,
        preset: None,
        audio_bitrate: "320k".into(),
        show_title: true,
    };
    RunProfile { visual_revision: 1, render, max_duration_millis: Some(60_000) }
}

fn observed(source: &str) -> ObservedTrack {
    ObservedTrack {
        source: source.to_string(),
        output: format!("outputs/{source}.mp4"),
        title: source.to_uppercase(),
        fingerprint: Some(Fingerprint { bytes: 10, modified_ns: 20 }),
        duration_millis: Some(90_500),
        output_is_file: true,
        output_bytes: Some(77),
    }
}

fn rendered(source: &str, output_bytes: Option<u64>) -> (RenderOutcome, Option<u64>) {
    let stats = RenderStats { duration_millis: 60_000, elapsed_millis: 1_234 };
    (RenderOutcome { source: source.to_string(), result: Ok(stats) }, output_bytes)
}

fn failed(source: &str) -> RenderOutcome {
    RenderOutcome { source: source.to_string(), result: Err("broken".to_string()) }
}

fn prepare(summary: &mut Summary, tracks: &[&str], overwrite: bool, prune: bool) -> Vec<usize> {
    let selected: Vec<ObservedTrack> = tracks.iter().map(|source| observed(source)).collect();
    summary.prepare(&selected, profile(), ENCODED, overwrite, prune).unwrap()
}

fn sources(summary: &Summary) -> Vec<&str> {
    summary.tracks.iter().map(|entry| entry.source.as_str()).collect()
}

fn entry<'a>(summary: &'a Summary, source: &str) -> &'a TrackSummary {
    summary.tracks.iter().find(|entry| entry.source == source).unwrap()
}

#[test]
fn summary_status_uses_stable_names() {
    assert_eq!(
        serde_json::to_string(TrackStatus::Unchanged.name()).unwrap(),
        "\"unchanged\""
    );
}

#[test]
fn statuses_are_found_by_their_names() {
    let statuses =
        [TrackStatus::Pending, TrackStatus::Rendered, TrackStatus::Unchanged, TrackStatus::Failed];
    for status in statuses {
        assert_eq!(TrackStatus::from_name(status.name()), Some(status));
    }
    assert_eq!(TrackStatus::Pending.name(), "pending");
    assert_eq!(TrackStatus::Rendered.name(), "rendered");
    assert_eq!(TrackStatus::Failed.name(), "failed");
    assert_eq!(TrackStatus::from_name("Pending"), None);
    assert_eq!(TrackStatus::from_name(""), None);
}

#[test]
fn nothing_stored_is_an_empty_summary() {
    let summary = Summary::load(None).unwrap();
    assert_eq!(summary.schema, SCHEMA_VERSION);
    assert!(summary.profile.is_none());
    assert!(summary.tracks.is_empty());
}

#[test]
fn other_versions_are_not_loaded() {
    let stored = Summary { schema: 2, profile: None, tracks: Vec::new() };
    assert_eq!(Summary::load(Some(stored)).unwrap_err(), UnsupportedSchema { schema: 2 });
    let stored = Summary { schema: 1, profile: Some(profile()), tracks: Vec::new() };
    assert_eq!(Summary::load(Some(stored)).unwrap().profile, Some(profile()));
}

#[test]
fn new_tracks_are_pending_and_queued() {
    let mut summary = Summary::default();
    assert_eq!(prepare(&mut summary, &["b", "a"], false, true), [0, 1]);
    assert_eq!(sources(&summary), ["a", "b"]);
    assert_eq!(summary.profile, Some(profile()));
    let entry = entry(&summary, "a");
    assert_eq!(entry.title, "A");
    assert_eq!(entry.output, "outputs/a.mp4");
    assert_eq!((entry.source_bytes, entry.source_modified_ns), (10, 20));
    assert_eq!(entry.profile_id, RunProfile::id(ENCODED));
    assert_eq!(entry.status, TrackStatus::Pending);
    assert_eq!(entry.duration_seconds, Some(StoredSeconds::Millis(60_000)));
    assert_eq!((entry.elapsed_seconds, entry.output_bytes), (None, None));
    assert_eq!(entry.error, None);
}

#[test]
fn rendered_tracks_are_left_out_of_later_runs() {
    let mut summary = Summary::default();
    prepare(&mut summary, &["a", "b"], false, true);
    let (outcome, bytes) = rendered("a", Some(500));
    assert_eq!(summary.record(&outcome, bytes), Ok(()));
    assert_eq!(entry(&summary, "a").status, TrackStatus::Rendered);
    assert_eq!(entry(&summary, "a").output_bytes, Some(500));
    assert_eq!(prepare(&mut summary, &["a", "b"], false, true), [1]);
    let kept = entry(&summary, "a");
    assert_eq!(kept.status, TrackStatus::Unchanged);
    assert_eq!(kept.output_bytes, Some(77));
    assert_eq!(kept.duration_seconds, Some(StoredSeconds::Millis(60_000)));
    assert_eq!(kept.elapsed_seconds, Some(StoredSeconds::Millis(1_234)));
    assert_eq!(prepare(&mut summary, &["a", "b"], false, true), [1]);
}

#[test]
fn nothing_is_left_to_render_in_whatever_order_tracks_ended() {
    for ended in [["a", "b", "c"], ["c", "a", "b"], ["b", "c", "a"]] {
        let mut summary = Summary::default();
        prepare(&mut summary, &["a", "b", "c"], false, true);
        for source in ended {
            let (outcome, bytes) = rendered(source, Some(500));
            summary.record(&outcome, bytes).unwrap();
        }
        assert!(prepare(&mut summary, &["a", "b", "c"], false, true).is_empty());
    }
}

#[test]
fn changed_tracks_are_rendered_again() {
    let changes: [fn(&mut ObservedTrack); 3] = [
        |track| track.fingerprint = Some(Fingerprint { bytes: 11, modified_ns: 20 }),
        |track| track.fingerprint = Some(Fingerprint { bytes: 10, modified_ns: 21 }),
        |track| track.output_is_file = false,
    ];
    for change in changes {
        let mut summary = Summary::default();
        prepare(&mut summary, &["a"], false, true);
        let (outcome, bytes) = rendered("a", Some(500));
        summary.record(&outcome, bytes).unwrap();
        let mut track = observed("a");
        change(&mut track);
        assert_eq!(summary.prepare(&vec![track], profile(), ENCODED, false, true), Ok(vec![0]));
        assert_eq!(entry(&summary, "a").status, TrackStatus::Pending);
    }
    let mut summary = Summary::default();
    prepare(&mut summary, &["a"], false, true);
    let (outcome, bytes) = rendered("a", Some(500));
    summary.record(&outcome, bytes).unwrap();
    let queue = summary.prepare(&vec![observed("a")], profile(), b"[]", false, true);
    assert_eq!(queue, Ok(vec![0]));
}

#[test]
fn stored_seconds_of_current_tracks_are_kept() {
    let mut summary = Summary::default();
    prepare(&mut summary, &["a"], false, true);
    let (outcome, bytes) = rendered("a", Some(500));
    summary.record(&outcome, bytes).unwrap();
    let fine = StoredSeconds::Bits(12.345_678_f64.to_bits());
    summary.tracks[0].duration_seconds = Some(fine);
    assert!(prepare(&mut summary, &["a"], false, true).is_empty());
    assert_eq!(entry(&summary, "a").duration_seconds, Some(fine));
    assert_eq!(prepare(&mut summary, &["a"], true, true), [0]);
    let limited = StoredSeconds::Millis(60_000);
    assert_eq!(entry(&summary, "a").duration_seconds, Some(limited));
}

#[test]
fn overwriting_renders_current_tracks() {
    let mut summary = Summary::default();
    prepare(&mut summary, &["a", "b"], false, true);
    for source in ["a", "b"] {
        let (outcome, bytes) = rendered(source, Some(1));
        summary.record(&outcome, bytes).unwrap();
    }
    assert!(prepare(&mut summary, &["a", "b"], false, true).is_empty());
    assert_eq!(prepare(&mut summary, &["a", "b"], true, true), [0, 1]);
}

#[test]
fn failed_tracks_are_rendered_again() {
    let mut summary = Summary::default();
    prepare(&mut summary, &["a"], false, true);
    assert_eq!(summary.record(&failed("a"), None), Ok(()));
    assert_eq!(entry(&summary, "a").status, TrackStatus::Failed);
    assert_eq!(entry(&summary, "a").error.as_deref(), Some("broken"));
    assert_eq!(prepare(&mut summary, &["a"], false, true), [0]);
    assert_eq!(entry(&summary, "a").error, None);
}

#[test]
fn other_tracks_are_kept_or_pruned() {
    let mut summary = Summary::default();
    prepare(&mut summary, &["a", "b", "c"], false, true);
    assert_eq!(prepare(&mut summary, &["b"], false, false), [0]);
    assert_eq!(sources(&summary), ["a", "b", "c"]);
    assert_eq!(prepare(&mut summary, &["d", "b"], false, true), [0, 1]);
    assert_eq!(sources(&summary), ["b", "d"]);
}

#[test]
fn of_entries_with_the_same_source_the_last_counts() {
    let mut summary = Summary::default();
    prepare(&mut summary, &["a"], false, true);
    let mut twice = Summary::default();
    prepare(&mut twice, &["a"], false, true);
    let (outcome, bytes) = rendered("a", Some(1));
    twice.record(&outcome, bytes).unwrap();
    summary.tracks.append(&mut twice.tracks);
    assert_eq!(summary.tracks.len(), 2);
    assert!(prepare(&mut summary, &["a"], false, false).is_empty());
    assert_eq!(sources(&summary), ["a"]);
}

#[test]
fn a_source_that_cannot_be_inspected_stops_the_run() {
    let mut summary = Summary::default();
    prepare(&mut summary, &["a", "b"], false, true);
    let mut unreadable = observed("b");
    unreadable.fingerprint = None;
    let selected = vec![observed("a"), unreadable];
    let result = summary.prepare(&selected, profile(), ENCODED, false, true);
    assert_eq!(result, Err(UnreadableSource { position: 1 }));
    assert!(summary.tracks.is_empty());
}

#[test]
fn outcomes_of_unknown_tracks_are_not_recorded() {
    let mut summary = Summary::default();
    prepare(&mut summary, &["a"], false, true);
    assert_eq!(summary.record(&failed("b"), None), Err(RecordError::MissingEntry));
    assert_eq!(entry(&summary, "a").status, TrackStatus::Pending);
}

#[test]
fn a_video_that_cannot_be_inspected_is_an_error() {
    let mut summary = Summary::default();
    prepare(&mut summary, &["a"], false, true);
    let (outcome, bytes) = rendered("a", None);
    assert_eq!(summary.record(&outcome, bytes), Err(RecordError::UnreadableOutput));
    assert_eq!(entry(&summary, "a").status, TrackStatus::Rendered);
    assert_eq!(entry(&summary, "a").output_bytes, None);
}

#[test]
fn recording_leaves_other_entries_alone() {
    let mut summary = Summary::default();
    prepare(&mut summary, &["a", "b", "c"], false, true);
    summary.record(&failed("b"), None).unwrap();
    assert_eq!(sources(&summary), ["a", "b", "c"]);
    let statuses: Vec<TrackStatus> = summary.tracks.iter().map(|entry| entry.status).collect();
    assert_eq!(statuses, [TrackStatus::Pending, TrackStatus::Failed, TrackStatus::Pending]);
}

#[test]
fn entries_are_ordered_by_code_points() {
    let mut summary = Summary::default();
    prepare(&mut summary, &["b", "B", "ä", "a/b", "a-b", "a"], false, true);
    assert_eq!(sources(&summary), ["B", "a", "a-b", "a/b", "b", "ä"]);
}

#[test]
fn fingerprints_hold_size_and_age() {
    assert_eq!(source_fingerprint(5, Some(7)), Fingerprint { bytes: 5, modified_ns: 7 });
    assert_eq!(source_fingerprint(5, None), Fingerprint { bytes: 5, modified_ns: 0 });
    let late = source_fingerprint(5, Some(u128::MAX));
    assert_eq!(late, Fingerprint { bytes: 5, modified_ns: u64::MAX });
}

#[test]
fn paths_are_named_below_the_project() {
    assert_eq!(portable_path("/p/music\\a.wav", "/p"), "music/a.wav");
    assert_eq!(portable_path("/p/music/a.wav", "/p/"), "music/a.wav");
    assert_eq!(portable_path("/q\\a.wav", "/p"), "/q/a.wav");
    assert_eq!(portable_path("/project/a.wav", "/pro"), "/project/a.wav");
    assert_eq!(portable_name("music\\a.wav"), "music/a.wav");
}

#[test]
fn parts_below_a_directory_are_found_by_components() {
    for (path, root) in [
        ("/p/music/a.wav", "/p"),
        ("/p/music/a.wav", "/p/"),
        ("/p/music/a.wav", "/p/music/a.wav"),
        ("/p/music/a.wav", "/pro"),
        ("/project/a.wav", "/pro"),
        ("/p", "/p/music"),
        ("/p/./music//b/../a.wav/.", "//p/."),
        ("/p//./.hidden/", "/p"),
        ("/p", "/"),
        ("/", "/"),
        ("/", ""),
        ("//a/./", ""),
        ("p/a", "/p"),
        ("p/a/", "p"),
        ("p/a", ""),
        ("p/a/.", ""),
        ("./p/a", "p"),
        ("p/a", "./p"),
        ("./p/a/", "."),
        ("./p/a/./", ""),
        (".", "."),
        (".//", ""),
        ("..", "."),
        ("../p/a", ".."),
        (".a/b", "."),
        ("", ""),
        ("", "."),
        ("p\\a", "p"),
        ("\u{e9}/\u{4e16}", "\u{e9}"),
    ] {
        let expected = Path::new(path)
            .strip_prefix(root)
            .ok()
            .map(|part| part.to_str().unwrap().to_string());
        assert_eq!(below_root(path, root), expected, "{path:?} below {root:?}");
    }
    assert_eq!(below_root("/p/./music//a.wav/", "/p").unwrap(), "music//a.wav");
    assert_eq!(below_root("/q/a.wav", "/p"), None);
}

#[test]
fn summaries_are_written_beside_themselves_first() {
    assert_eq!(temporary_summary_name("render-summary.json"), "render-summary.json.tmp");
    assert_eq!(temporary_summary_name(""), ".tmp");
    assert_eq!(Summary::document(b"{}".to_vec()), b"{}\n");
}
