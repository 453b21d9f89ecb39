use master_duel_bgms::batch::truncate_title;
use master_duel_bgms::number::{decimal_text, hex_text, two_digit_text};
use master_duel_bgms::renderer::{title_case, title_from_raised, word_starts};
use master_duel_bgms::text::{is_control, is_whitespace, to_ascii_lower};
use master_duel_bgms::titles::{safe_video_stem, sort_name, title_from_lowered, title_from_path};

#[test]
fn truncates_titles_on_character_boundaries() {
    assert_eq!(truncate_title("abcdefgh", 5), "abcd…");
    assert_eq!(truncate_title("测试标题", 3), "测试…");
}

#[test]
fn short_titles_are_not_truncated() {
    assert_eq!(truncate_title("abcde", 5), "abcde");
    assert_eq!(truncate_title("", 5), "");
    assert_eq!(truncate_title("ab", 1), "…");
    assert_eq!(truncate_title("ab", 0), "…");
    assert_eq!(truncate_title("", 0), "");
}

#[test]
fn display_titles_use_mixed_case() {
    assert_eq!(title_case("duel climax 01"), "Duel Climax 01");
    assert_eq!(title_case("dicerally"), "Dicerally");
}

#[test]
fn upper_case_may_take_more_characters() {
    assert_eq!(title_case("  straße\u{3000}ßa  "), "Straße SSa");
    assert_eq!(title_case("élan über"), "Élan Über");
    assert_eq!(title_case(" \t "), "");
}

#[test]
fn raised_letters_take_the_place_of_first_letters() {
    assert_eq!(word_starts("  duel\tclimax 01 "), ['d', 'c', '0']);
    assert!(word_starts(" \t ").is_empty());
    let raised = ["DU".to_string(), String::new(), "9".to_string()];
    assert_eq!(title_from_raised("  duel\tclimax 01 ", &raised.to_vec()), "DUuel limax 91");
    assert_eq!(title_from_raised(" \t ", &Vec::new()), "");
}

#[test]
fn lowered_names_become_titles() {
    assert_eq!(title_from_lowered("duel__climax_01", "bgm_duel__climax_01"), "duel climax 01");
    assert_eq!(title_from_lowered("KEPT_as_it_is", "other"), "KEPT as it is");
    assert_eq!(title_from_lowered("___", "bgm____"), "bgm____");
    assert_eq!(title_from_lowered("", "bgm"), "bgm");
}

#[test]
fn preserves_python_title_rules() {
    assert_eq!(title_from_path("BGM_DUEL_CLIMAX_01.wav"), "duel climax 01");
    assert_eq!(title_from_path("bgm-menu__retro.wav"), "menu retro");
    assert_eq!(title_from_path("SONG.WAV"), "song");
}

#[test]
fn titles_that_would_be_empty_keep_the_name() {
    assert_eq!(title_from_path("BGM_.wav"), "bgm_");
    assert_eq!(title_from_path("BGM.wav"), "bgm");
    assert_eq!(title_from_path("music/___.mp3"), "___");
    assert_eq!(title_from_path(""), "");
}

#[test]
fn titles_come_from_the_last_component() {
    assert_eq!(title_from_path("/a/b.c/Bgm Ünïcode__X.tar.gz"), "ünïcode x.tar");
    assert_eq!(title_from_path("bgmé.wav"), "é");
    assert_eq!(title_from_path("bg.wav"), "bg");
    assert_eq!(title_from_path(".wav"), ".wav");
}

#[test]
fn sort_names_are_in_lower_case() {
    assert_eq!(sort_name("/m/ÀB.WAV"), "àb.wav");
    assert_eq!(sort_name("ΟΔΟΣ"), "οδος");
    assert_eq!(sort_name("/m/.."), "");
}

#[test]
fn sanitizes_video_stems() {
    assert_eq!(safe_video_stem("a:  b?/c"), "a bc");
    assert_eq!(safe_video_stem("..."), "untitled");
}

#[test]
fn video_stems_lose_what_files_cannot_be_called() {
    assert_eq!(safe_video_stem("<a>|\"b\"*\\"), "ab");
    assert_eq!(safe_video_stem(" .a.b. "), "a.b");
    assert_eq!(safe_video_stem("a\u{0}\u{7f}\u{85}b"), "ab");
    assert_eq!(safe_video_stem(""), "untitled");
    assert_eq!(safe_video_stem(". ."), "untitled");
}

#[test]
fn video_stems_stay_as_they_are() {
    for title in ["a:  b?/c", "...", "duel climax 01", " .x. y. ", "a\u{3000}b"] {
        let once = safe_video_stem(title);
        assert_eq!(safe_video_stem(&once), once);
    }
}

#[test]
fn character_classes_are_those_of_unicode() {
    for code in 0..=0x10ffff_u32 {
        if let Some(c) = char::from_u32(code) {
            assert_eq!(is_whitespace(c), c.is_whitespace(), "{code:x}");
            assert_eq!(is_control(c), c.is_control(), "{code:x}");
            assert_eq!(to_ascii_lower(c), c.to_ascii_lowercase(), "{code:x}");
        }
    }
}

#[test]
fn numbers_are_written_out() {
    assert_eq!(decimal_text(0), "0");
    assert_eq!(decimal_text(1_234_567_890), "1234567890");
    assert_eq!(decimal_text(u64::MAX), "18446744073709551615");
    assert_eq!(two_digit_text(7), "07");
    assert_eq!(two_digit_text(10), "10");
    assert_eq!(two_digit_text(123), "123");
    assert_eq!(hex_text(0xcbf2_9ce4_8422_2325, 16), "cbf29ce484222325");
    assert_eq!(hex_text(0x1b3, 6), "0001b3");
    assert_eq!(hex_text(0x1b3, 2), "b3");
}
