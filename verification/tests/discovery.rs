use master_duel_bgms::discovery::{discover_tracks, DiscoveryError, ScannedInput, SourceFile, Track};
use master_duel_bgms::paths::{is_audio, is_wav};

fn file(path: &str) -> SourceFile {
    SourceFile { path: path.to_string(), bytes: path.as_bytes().to_vec(), readable: true }
}

fn directory(paths: &[&str]) -> ScannedInput {
    ScannedInput::Directory(paths.iter().map(|path| file(path)).collect())
}

fn tracks(input: &ScannedInput) -> Vec<Track> {
    match discover_tracks(input.clone()) {
        Ok(tracks) => tracks,
        Err(_) => panic!("tracks were expected"),
    }
}

fn outputs(input: &ScannedInput) -> Vec<String> {
    tracks(input).into_iter().map(|track| track.output).collect()
}

#[test]
fn audio_files_are_known_by_extension() {
    assert!(is_audio("music/SONG.WAV"));
    assert!(is_audio("a.b.OpUs"));
    for name in ["x.aac", "x.aif", "x.aiff", "x.flac", "x.m4a", "x.mp3", "x.ogg", "x.opus", "x.wav", "x.wma"] {
        assert!(is_audio(name), "{name}");
    }
    for name in ["music/song", "x.txt", ".wav", "x.wav.txt", "x.", "", "wav"] {
        assert!(!is_audio(name), "{name}");
    }
}

#[test]
fn wav_files_are_known_by_extension() {
    assert!(is_wav("x.WAV"));
    assert!(!is_wav("x.mp3"));
    assert!(!is_wav(".wav"));
}

#[test]
fn tracks_are_ordered_by_name_without_regard_to_case() {
    let input = directory(&["/m/b.wav", "/m/notes.txt", "/m/sub/A.mp3", "/m/C.ogg"]);
    let found = tracks(&input);
    let sources: Vec<usize> = found.iter().map(|track| track.source).collect();
    assert_eq!(sources, [2, 0, 3]);
    assert_eq!(found[0].title, "a");
    assert_eq!(outputs(&input), ["a.mp4", "b.mp4", "c.mp4"]);
}

#[test]
fn equal_names_are_ordered_by_path() {
    let input = directory(&["/m/z/song.wav", "/m/a/song.wav", "/m/a-b/song.wav"]);
    let sources: Vec<usize> = tracks(&input).iter().map(|track| track.source).collect();
    assert_eq!(sources, [1, 2, 0]);
    assert_eq!(outputs(&input), ["song.mp4", "song 2.mp4", "song 3.mp4"]);
}

#[test]
fn the_order_of_the_scan_does_not_matter() {
    let one = directory(&["/m/x.wav", "/m/y/x.wav", "/m/BGM_X.mp3"]);
    let other = directory(&["/m/BGM_X.mp3", "/m/y/x.wav", "/m/x.wav"]);
    assert_eq!(outputs(&one), outputs(&other));
    assert_eq!(outputs(&one), ["x.mp4", "x 2.mp4", "x 3.mp4"]);
    let first: Vec<usize> = tracks(&one).iter().map(|track| track.source).collect();
    let second: Vec<usize> = tracks(&other).iter().map(|track| track.source).collect();
    assert_eq!(first, [2, 0, 1]);
    assert_eq!(second, [0, 2, 1]);
}

#[test]
fn a_number_that_is_taken_is_passed_over() {
    let input = directory(&["/m/1/song 2.wav", "/m/1/song.wav", "/m/2/song.wav"]);
    assert_eq!(outputs(&input), ["song 2.mp4", "song.mp4", "song 3.mp4"]);
}

#[test]
fn names_are_told_apart_without_regard_to_case() {
    let input = directory(&["/m/ÄRA.wav", "/m/ära.mp3"]);
    assert_eq!(outputs(&input), ["ära.mp4", "ära 2.mp4"]);
}

#[test]
fn one_file_is_one_track() {
    let found = tracks(&ScannedInput::File(file("/m/BGM_MENU_01.wav")));
    assert_eq!(found.len(), 1);
    assert_eq!(found[0].source, 0);
    assert_eq!(found[0].title, "menu 01");
    assert_eq!(found[0].output, "menu 01.mp4");
}

#[test]
fn input_that_cannot_be_rendered_is_refused() {
    let text = discover_tracks(ScannedInput::File(file("/m/notes.txt")));
    assert!(matches!(text, Err(DiscoveryError::UnsupportedExtension)));
    let missing = discover_tracks(ScannedInput::Missing);
    assert!(matches!(missing, Err(DiscoveryError::MissingInput)));
    let empty = discover_tracks(directory(&["/m/notes.txt"]));
    assert!(matches!(empty, Ok(tracks) if tracks.is_empty()));
}

fn unreadable(bytes: &[u8]) -> SourceFile {
    let path = String::from_utf8_lossy(bytes).into_owned();
    SourceFile { path, bytes: bytes.to_vec(), readable: false }
}

#[test]
fn names_that_are_not_unicode_come_first_and_untitled() {
    let input = ScannedInput::Directory(vec![file("/m/a.wav"), unreadable(b"/m/\xff.wav")]);
    let found = tracks(&input);
    assert_eq!(found[0].source, 1);
    assert_eq!(found[0].title, "");
    assert_eq!(found[0].output, "untitled.mp4");
    assert_eq!(found[1].output, "a.mp4");
}

#[test]
fn names_that_are_not_unicode_are_ordered_by_their_bytes() {
    let listed = [&b"/m/\xff.wav"[..], &b"/m/\xfe.wav"[..], &b"/m/\xc3/\xff.wav"[..]];
    let input = ScannedInput::Directory(listed.into_iter().map(unreadable).collect());
    let sources: Vec<usize> = tracks(&input).iter().map(|track| track.source).collect();
    assert_eq!(sources, [2, 1, 0]);
    assert_eq!(outputs(&input), ["untitled.mp4", "untitled 2.mp4", "untitled 3.mp4"]);
}

#[test]
fn directories_that_are_not_unicode_are_ordered_by_their_bytes() {
    let named = |bytes: &[u8]| SourceFile { readable: true, ..unreadable(bytes) };
    let input = ScannedInput::Directory(vec![named(b"/\xff/x.wav"), named(b"/\xfe/x.wav")]);
    let sources: Vec<usize> = tracks(&input).iter().map(|track| track.source).collect();
    assert_eq!(sources, [1, 0]);
}
