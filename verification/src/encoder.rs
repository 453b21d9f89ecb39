//! Encoding a track: the choice of encoder and the arguments of `ffmpeg`.
use vstd::prelude::*;

use crate::arguments;
use crate::arguments::{Argument, Word};
use crate::config::RenderConfig;
use crate::number;
use crate::order;
use crate::paths;
use crate::text;

verus! {

/// What a finished rendering took.
#[derive(Clone, Copy, Debug, PartialEq, Eq, Structural)]
pub struct RenderStats {
    /// The length of the video in milliseconds, rounded.
    pub duration_millis: u64,
    /// The time that the rendering took in milliseconds, rounded.
    pub elapsed_millis: u64,
}

// ---------------------------------------------------------------------------
// The choice of encoder
// ---------------------------------------------------------------------------

/// Why there is no encoder.
#[derive(Clone, Copy, Debug, PartialEq, Eq, Structural)]
pub enum EncoderError {
    /// The encoder that was asked for does not work.
    Unavailable,
    /// None of the supported encoders works.
    NoneAvailable,
}

/// The supported encoders, the preferred ones first.
pub open spec fn preference() -> Seq<Seq<char>> {
    seq![
        "h264_nvenc"@,
        "h264_qsv"@,
        "h264_vaapi"@,
        "h264_amf"@,
        "libx264"@,
        "libopenh264"@,
    ]
}

/// Whether a probe of an encoder can give the answer.
pub open spec fn answers<F: Fn(&str) -> bool>(probe: F, encoder: Seq<char>, answer: bool) -> bool {
    exists|name: &str| #[trigger] name@ == encoder && call_ensures(probe, (name,), answer)
}

/// Whether the probe found the encoder at a position of the preference to be the
/// first that works.
pub open spec fn first_working<F: Fn(&str) -> bool>(probe: F, position: int) -> bool {
    &&& 0 <= position < preference().len()
    &&& answers(probe, preference()[position], true)
    &&& forall|i: int| 0 <= i < position ==> answers(probe, #[trigger] preference()[i], false)
}

/// The encoder to use: the one that is asked for, or for `auto` the first of the
/// preference, that works when it is probed.
pub fn resolve_encoder<F: Fn(&str) -> bool>(requested: &str, probe: F) -> (r: Result<
    String,
    EncoderError,
>)
    requires
        forall|name: &str| call_requires(probe, (name,)),
    ensures
        match r {
            Ok(encoder) => if requested@ != "auto"@ {
                encoder@ == requested@ && answers(probe, requested@, true)
            } else {
                exists|position: int|
                    #![trigger preference()[position]]
                    first_working(probe, position) && encoder@ == preference()[position]
            },
            Err(EncoderError::Unavailable) => requested@ != "auto"@ && answers(
                probe,
                requested@,
                false,
            ),
            Err(EncoderError::NoneAvailable) => requested@ == "auto"@ && forall|i: int|
                0 <= i < preference().len() ==> answers(probe, #[trigger] preference()[i], false),
        },
{
    if !text::same_text(requested, "auto") {
        if probe(requested) {
            return Ok(requested.to_owned());
        }
        return Err(EncoderError::Unavailable);
    }
    let encoders: Vec<&str> = vec![
        "h264_nvenc",
        "h264_qsv",
        "h264_vaapi",
        "h264_amf",
        "libx264",
        "libopenh264",
    ];
    for i in 0..encoders.len()
        invariant
            forall|name: &str| call_requires(probe, (name,)),
            encoders@.len() == preference().len(),
            forall|k: int| 0 <= k < encoders@.len() ==> encoders@[k]@ == #[trigger] preference()[k],
            forall|k: int| 0 <= k < i ==> answers(probe, #[trigger] preference()[k], false),
            requested@ == "auto"@,
    {
        let encoder = encoders[i];
        if probe(encoder) {
            proof {
                assert(answers(probe, preference()[i as int], true));
                assert(first_working(probe, i as int));
            }
            return Ok(encoder.to_owned());
        }
        proof {
            assert(answers(probe, preference()[i as int], false));
        }
    }
    Err(EncoderError::NoneAvailable)
}

/// Whether an encoder runs on a graphics card.
pub open spec fn on_hardware(encoder: Seq<char>) -> bool {
    ||| encoder == "h264_nvenc"@
    ||| encoder == "h264_qsv"@
    ||| encoder == "h264_vaapi"@
    ||| encoder == "h264_amf"@
}

/// For `auto` an encoder that does not run on a graphics card is used only where
/// none works that does.
pub proof fn law_auto_prefers_hardware<F: Fn(&str) -> bool>(probe: F, position: int, i: int)
    requires
        first_working(probe, position),
        !on_hardware(preference()[position]),
        0 <= i < preference().len(),
        on_hardware(preference()[i]),
    ensures
        answers(probe, preference()[i], false),
{
    reveal_strlit("h264_nvenc");
    reveal_strlit("h264_qsv");
    reveal_strlit("h264_vaapi");
    reveal_strlit("h264_amf");
    reveal_strlit("libx264");
    reveal_strlit("libopenh264");
    assert("libx264"@[0] == 'l' && "libopenh264"@[0] == 'l');
    assert("h264_nvenc"@[0] == 'h' && "h264_qsv"@[0] == 'h');
    assert("h264_vaapi"@[0] == 'h' && "h264_amf"@[0] == 'h');
    assert(preference()[i][0] == 'h');
    assert(i < 4 <= position);
}

// ---------------------------------------------------------------------------
// Arguments
// ---------------------------------------------------------------------------

/// What `ffmpeg` is run with to try an encoder.
pub open spec fn probe_words(encoder: Seq<char>) -> Seq<Word> {
    let on_device = encoder == "h264_vaapi"@;
    arguments::texts(seq!["-hide_banner"@, "-loglevel"@, "error"@]) + (if on_device {
        seq![Word::Text("-vaapi_device"@), Word::Device]
    } else {
        Seq::empty()
    }) + arguments::texts(
        seq!["-f"@, "lavfi"@, "-i"@, "color=black:s=64x64:d=0.04"@, "-frames:v"@, "1"@],
    ) + (if on_device {
        arguments::texts(seq!["-vf"@, "format=nv12,hwupload"@])
    } else {
        Seq::empty()
    }) + arguments::texts(seq!["-c:v"@, encoder, "-f"@, "null"@, "-"@])
}

/// What `ffmpeg` is run with to try an encoder. An encoder that needs a VA-API
/// device cannot be tried without one.
pub fn probe_arguments(encoder: &str, has_device: bool) -> (r: Option<Vec<Argument>>)
    ensures
        match r {
            Some(list) => arguments::words_of(list@) == probe_words(encoder@) && (encoder@
                == "h264_vaapi"@ ==> has_device),
            None => encoder@ == "h264_vaapi"@ && !has_device,
        },
{
    let on_device = text::same_text(encoder, "h264_vaapi");
    if on_device && !has_device {
        return None;
    }
    let mut r = arguments::no_arguments();
    arguments::add_texts(&mut r, vec!["-hide_banner", "-loglevel", "error"]);
    if on_device {
        arguments::add_text(&mut r, "-vaapi_device");
        arguments::add_word(&mut r, Argument::Device);
    }
    arguments::add_texts(
        &mut r,
        vec!["-f", "lavfi", "-i", "color=black:s=64x64:d=0.04", "-frames:v", "1"],
    );
    if on_device {
        arguments::add_texts(&mut r, vec!["-vf", "format=nv12,hwupload"]);
    }
    arguments::add_texts(&mut r, vec!["-c:v", encoder, "-f", "null", "-"]);
    proof {
        assert(arguments::words_of(r@) =~= probe_words(encoder@));
    }
    Some(r)
}

/// The least bitrate that OpenH264 is run with.
pub const MINIMUM_BITRATE: u64 = 2_000_000;

/// The greatest bitrate that OpenH264 is run with.
pub const MAXIMUM_BITRATE: u64 = 80_000_000;

/// The bitrate for OpenH264, given the one that is wanted: that one, held between
/// the bounds.
pub open spec fn held_bitrate(wanted: u64) -> u64 {
    if wanted < MINIMUM_BITRATE {
        MINIMUM_BITRATE
    } else if wanted > MAXIMUM_BITRATE {
        MAXIMUM_BITRATE
    } else {
        wanted
    }
}

/// How many pixels there are in a second.
pub open spec fn pixel_rate(width: u32, height: u32, fps: u32) -> int {
    width * height * fps
}

/// Whether a bitrate is the one that `scale` gives for a number of pixels in a
/// second and a quality, held between the bounds.
pub open spec fn scaled_bitrate<S: Fn(u64, u8) -> u64>(
    scale: S,
    rate: u64,
    quality: u8,
    bitrate: u64,
) -> bool {
    exists|wanted: u64| #[trigger]
        call_ensures(scale, (rate, quality), wanted) && bitrate == held_bitrate(wanted)
}

/// The bitrate for OpenH264 of videos of a size, a frame rate and a quality. What
/// `scale` gives for the number of pixels in a second and the quality is held
/// between the bounds.
pub fn openh264_bitrate<S: Fn(u64, u8) -> u64>(
    width: u32,
    height: u32,
    fps: u32,
    quality: u8,
    scale: S,
) -> (r: u64)
    requires
        pixel_rate(width, height, fps) <= u64::MAX,
        call_requires(scale, (pixel_rate(width, height, fps) as u64, quality)),
    ensures
        scaled_bitrate(scale, pixel_rate(width, height, fps) as u64, quality, r),
{
    proof {
        lemma_pixels_of_a_frame(width, height);
    }
    let frame: u64 = width as u64 * height as u64;
    let rate: u64 = frame * fps as u64;
    let wanted: u64 = scale(rate, quality);
    if wanted < MINIMUM_BITRATE {
        MINIMUM_BITRATE
    } else if wanted > MAXIMUM_BITRATE {
        MAXIMUM_BITRATE
    } else {
        wanted
    }
}

/// The pixels of a frame can be counted.
proof fn lemma_pixels_of_a_frame(width: u32, height: u32)
    ensures
        0 <= width * height <= u64::MAX,
{
    assert(0 <= width * height <= 0xffff_ffff * 0xffff_ffff) by (nonlinear_arith)
        requires
            0 <= width <= 0xffff_ffff,
            0 <= height <= 0xffff_ffff,
    ;
}

/// Where `scale` never asks for less for more pixels in a second or for a lower
/// number of the quality, these never give a smaller bitrate. Every bitrate is
/// between two and eighty million.
pub proof fn law_bitrates_keep_their_order<S: Fn(u64, u8) -> u64>(
    scale: S,
    width: u32,
    height: u32,
    fps: u32,
    quality: u8,
    bitrate: u64,
    more_width: u32,
    more_height: u32,
    more_fps: u32,
    better_quality: u8,
    more_bitrate: u64,
)
    requires
        forall|rate: u64, number: u8, wanted: u64, more: u64, better: u8, more_wanted: u64|
            rate <= more && better <= number && #[trigger] call_ensures(
                scale,
                (rate, number),
                wanted,
            ) && #[trigger] call_ensures(scale, (more, better), more_wanted) ==> wanted
                <= more_wanted,
        width <= more_width,
        height <= more_height,
        fps <= more_fps,
        better_quality <= quality,
        pixel_rate(more_width, more_height, more_fps) <= u64::MAX,
        scaled_bitrate(scale, pixel_rate(width, height, fps) as u64, quality, bitrate),
        scaled_bitrate(
            scale,
            pixel_rate(more_width, more_height, more_fps) as u64,
            better_quality,
            more_bitrate,
        ),
    ensures
        2_000_000 <= bitrate <= more_bitrate <= 80_000_000,
{
    let (frame, more_frame) = (width * height, more_width * more_height);
    assert(0 <= frame <= more_frame) by (nonlinear_arith)
        requires
            0 <= width <= more_width,
            0 <= height <= more_height,
            frame == width * height,
            more_frame == more_width * more_height,
    ;
    assert(0 <= frame * fps <= more_frame * more_fps) by (nonlinear_arith)
        requires
            0 <= frame <= more_frame,
            0 <= fps <= more_fps,
    ;
}

/// The distance between key frames for OpenH264: a fifth of a second, at least
/// one frame.
pub open spec fn key_frame_distance(fps: u32) -> nat {
    if fps / 5 > 1 {
        (fps / 5) as nat
    } else {
        1
    }
}

/// The preset that was asked for, or the one that is used otherwise.
pub open spec fn preset_or(config: RenderConfig, otherwise: Seq<char>) -> Seq<char> {
    match config.preset {
        Some(preset) => preset@,
        None => otherwise,
    }
}

/// The options of the encoder, given the number of its threads and the bitrate
/// that OpenH264 is run with.
pub open spec fn encoder_words(config: RenderConfig, threads: nat, bitrate: nat) -> Seq<Word> {
    let quality = number::decimal(config.quality as nat);
    arguments::texts(
        if config.encoder@ == "h264_nvenc"@ {
            seq!["-preset"@, preset_or(config, "p4"@), "-rc"@, "vbr"@, "-cq"@, quality]
        } else if config.encoder@ == "h264_qsv"@ {
            seq!["-preset"@, preset_or(config, "medium"@), "-global_quality"@, quality]
        } else if config.encoder@ == "h264_amf"@ {
            seq!["-quality"@, preset_or(config, "speed"@), "-q:v"@, quality]
        } else if config.encoder@ == "h264_vaapi"@ {
            seq!["-qp"@, quality]
        } else if config.encoder@ == "libx264"@ {
            seq![
                "-preset"@,
                preset_or(config, "veryfast"@),
                "-crf"@,
                quality,
                "-threads"@,
                number::decimal(threads),
            ]
        } else if config.encoder@ == "libopenh264"@ {
            seq![
                "-b:v"@,
                number::decimal(bitrate),
                "-profile:v"@,
                "high"@,
                "-coder"@,
                "cabac"@,
                "-rc_mode"@,
                "quality"@,
                "-g"@,
                number::decimal(key_frame_distance(config.fps)),
                "-threads"@,
                number::decimal(threads),
            ]
        } else {
            Seq::empty()
        },
    )
}

/// The preset that was asked for, or the one that is used otherwise.
fn preset_text(config: &RenderConfig, otherwise: &str) -> (r: String)
    ensures
        r@ == preset_or(*config, otherwise@),
{
    match &config.preset {
        Some(preset) => preset.clone(),
        None => otherwise.to_owned(),
    }
}

/// Adds the options of the encoder, given the number of its threads and the
/// bitrate that OpenH264 is run with.
fn add_encoder_options(
    arguments: &mut Vec<Argument>,
    config: &RenderConfig,
    threads: usize,
    bitrate: u64,
)
    ensures
        arguments::words_of(final(arguments)@) == arguments::words_of(old(arguments)@)
            + encoder_words(*config, threads as nat, bitrate as nat),
{
    let encoder = config.encoder.as_str();
    let quality = number::decimal_text(config.quality as u64);
    let thread_count = number::decimal_text(threads as u64);
    let ghost before = arguments::words_of(arguments@);
    if text::same_text(encoder, "h264_nvenc") {
        let preset = preset_text(config, "p4");
        arguments::add_texts(
            arguments,
            vec!["-preset", preset.as_str(), "-rc", "vbr", "-cq", quality.as_str()],
        );
    } else if text::same_text(encoder, "h264_qsv") {
        let preset = preset_text(config, "medium");
        arguments::add_texts(
            arguments,
            vec!["-preset", preset.as_str(), "-global_quality", quality.as_str()],
        );
    } else if text::same_text(encoder, "h264_amf") {
        let preset = preset_text(config, "speed");
        arguments::add_texts(
            arguments,
            vec!["-quality", preset.as_str(), "-q:v", quality.as_str()],
        );
    } else if text::same_text(encoder, "h264_vaapi") {
        arguments::add_texts(arguments, vec!["-qp", quality.as_str()]);
    } else if text::same_text(encoder, "libx264") {
        let preset = preset_text(config, "veryfast");
        arguments::add_texts(
            arguments,
            vec![
                "-preset",
                preset.as_str(),
                "-crf",
                quality.as_str(),
                "-threads",
                thread_count.as_str(),
            ],
        );
    } else if text::same_text(encoder, "libopenh264") {
        let rate = number::decimal_text(bitrate);
        let distance: u32 = if config.fps / 5 > 1 {
            config.fps / 5
        } else {
            1
        };
        let distance_text = number::decimal_text(distance as u64);
        arguments::add_texts(
            arguments,
            vec![
                "-b:v",
                rate.as_str(),
                "-profile:v",
                "high",
                "-coder",
                "cabac",
                "-rc_mode",
                "quality",
                "-g",
                distance_text.as_str(),
                "-threads",
                thread_count.as_str(),
            ],
        );
    }
    proof {
        assert(arguments::words_of(arguments@) =~= before + encoder_words(
            *config,
            threads as nat,
            bitrate as nat,
        ));
    }
}

/// What the frames go through on their way to the encoder.
pub open spec fn video_filter(config: RenderConfig) -> Seq<char> {
    "fps="@ + number::decimal(config.fps as nat) + (if config.encoder@ == "h264_vaapi"@ {
        ",format=nv12,hwupload"@
    } else {
        ",format=yuv420p"@
    })
}

/// What `ffmpeg` is run with to encode a track, given the length of the video in
/// seconds as text.
pub open spec fn encode_words(
    config: RenderConfig,
    has_device: bool,
    duration: Seq<char>,
    threads: nat,
    bitrate: nat,
) -> Seq<Word> {
    (if config.encoder@ == "h264_vaapi"@ && has_device {
        seq![Word::Text("-vaapi_device"@), Word::Device]
    } else {
        Seq::empty()
    }) + arguments::texts(
        seq![
            "-hide_banner"@,
            "-loglevel"@,
            "error"@,
            "-y"@,
            "-f"@,
            "rawvideo"@,
            "-pixel_format"@,
            "rgba"@,
            "-video_size"@,
            number::decimal(config.width as nat) + "x"@ + number::decimal(config.height as nat),
            "-framerate"@,
            number::decimal(config.visual_fps as nat),
            "-i"@,
            "pipe:0"@,
            "-i"@,
        ],
    ) + seq![Word::Source] + arguments::texts(
        seq![
            "-map"@,
            "0:v:0"@,
            "-map"@,
            "1:a:0"@,
            "-t"@,
            duration,
            "-vf"@,
            video_filter(config),
            "-c:v"@,
            config.encoder@,
        ],
    ) + encoder_words(config, threads, bitrate) + arguments::texts(
        seq![
            "-c:a"@,
            "aac"@,
            "-b:a"@,
            config.audio_bitrate@,
            "-movflags"@,
            "+faststart"@,
            "-shortest"@,
        ],
    ) + seq![Word::Output]
}

/// What `ffmpeg` is run with to encode a track, given the length of the video in
/// seconds as text, the number of the encoder's threads and the bitrate that
/// OpenH264 is run with.
pub fn encode_arguments(
    config: &RenderConfig,
    has_device: bool,
    duration: &str,
    threads: usize,
    bitrate: u64,
) -> (r: Vec<Argument>)
    ensures
        arguments::words_of(r@) == encode_words(
            *config,
            has_device,
            duration@,
            threads as nat,
            bitrate as nat,
        ),
{
    let on_device = text::same_text(config.encoder.as_str(), "h264_vaapi");
    let mut filter = "fps=".to_owned();
    filter.append(number::decimal_text(config.fps as u64).as_str());
    if on_device {
        filter.append(",format=nv12,hwupload");
    } else {
        filter.append(",format=yuv420p");
    }
    let mut size = number::decimal_text(config.width as u64);
    size.append("x");
    size.append(number::decimal_text(config.height as u64).as_str());
    let visual_fps = number::decimal_text(config.visual_fps as u64);
    let mut r = arguments::no_arguments();
    if on_device && has_device {
        arguments::add_text(&mut r, "-vaapi_device");
        arguments::add_word(&mut r, Argument::Device);
    }
    arguments::add_texts(
        &mut r,
        vec![
            "-hide_banner",
            "-loglevel",
            "error",
            "-y",
            "-f",
            "rawvideo",
            "-pixel_format",
            "rgba",
            "-video_size",
            size.as_str(),
            "-framerate",
            visual_fps.as_str(),
            "-i",
            "pipe:0",
            "-i",
        ],
    );
    arguments::add_word(&mut r, Argument::Source);
    arguments::add_texts(
        &mut r,
        vec![
            "-map",
            "0:v:0",
            "-map",
            "1:a:0",
            "-t",
            duration,
            "-vf",
            filter.as_str(),
            "-c:v",
            config.encoder.as_str(),
        ],
    );
    add_encoder_options(&mut r, config, threads, bitrate);
    arguments::add_texts(
        &mut r,
        vec![
            "-c:a",
            "aac",
            "-b:a",
            config.audio_bitrate.as_str(),
            "-movflags",
            "+faststart",
            "-shortest",
        ],
    );
    arguments::add_word(&mut r, Argument::Output);
    proof {
        assert(filter@ =~= video_filter(*config));
        assert(arguments::words_of(r@) =~= encode_words(
            *config,
            has_device,
            duration@,
            threads as nat,
            bitrate as nat,
        ));
    }
    r
}

// ---------------------------------------------------------------------------
// Files
// ---------------------------------------------------------------------------

/// Whether a file name is that of a render device.
pub open spec fn render_node(name: Seq<char>) -> bool {
    "renderD"@.is_prefix_of(name)
}

/// Whether no file name is that of a render device.
pub open spec fn no_render_node(names: Seq<String>) -> bool {
    forall|i: int| 0 <= i < names.len() ==> !render_node((#[trigger] names[i])@)
}

/// Whether the text starts with another.
fn starts_with(name: &Vec<char>, start: &Vec<char>) -> (r: bool)
    ensures
        r == start@.is_prefix_of(name@),
{
    if name.len() < start.len() {
        return false;
    }
    let head = text::slice_of(name, 0, start.len());
    text::same_characters(&head, start)
}

/// The position of the first render device by name, given the names of the
/// files among the devices.
pub fn first_render_node(names: &Vec<String>) -> (r: Option<usize>)
    ensures
        match r {
            Some(position) => {
                &&& position < names@.len()
                &&& render_node(names@[position as int]@)
                &&& forall|i: int|
                    0 <= i < names@.len() && render_node((#[trigger] names@[i])@)
                        ==> !order::text_before(names@[i]@, names@[position as int]@)
            },
            None => no_render_node(names@),
        },
{
    let start = text::characters("renderD");
    let mut first: Option<usize> = None;
    for i in 0..names.len()
        invariant
            start@ == "renderD"@,
            match first {
                Some(position) => {
                    &&& position < i
                    &&& render_node(names@[position as int]@)
                    &&& forall|k: int|
                        0 <= k < i && render_node((#[trigger] names@[k])@)
                            ==> !order::text_before(names@[k]@, names@[position as int]@)
                },
                None => forall|k: int| 0 <= k < i ==> !render_node((#[trigger] names@[k])@),
            },
    {
        let name = text::characters(names[i].as_str());
        if starts_with(&name, &start) {
            let points = order::to_code_points(&name);
            first = match first {
                Some(position) => {
                    let best = order::to_code_points(
                        &text::characters(names[position].as_str()),
                    );
                    let ghost ahead = points@;
                    if order::is_before(&points, &best) {
                        proof {
                            assert forall|k: int|
                                0 <= k < i + 1 && render_node(
                                    (#[trigger] names@[k])@,
                                ) implies !order::text_before(names@[k]@, names@[i as int]@) by {
                                if k < i {
                                    if order::text_before(names@[k]@, names@[i as int]@) {
                                        order::lemma_before_transitive(
                                            order::code_points(names@[k]@),
                                            ahead,
                                            best@,
                                        );
                                    }
                                } else {
                                    order::lemma_before_irreflexive(ahead);
                                }
                            }
                        }
                        Some(i)
                    } else {
                        Some(position)
                    }
                },
                None => {
                    proof {
                        order::lemma_before_irreflexive(points@);
                    }
                    Some(i)
                },
            };
        }
    }
    first
}

/// The name of the file that a video is written to before it is complete.
pub open spec fn part_name(name: Seq<char>) -> Seq<char> {
    paths::file_stem(name) + ".part.mp4"@
}

/// An incomplete video is never written to the place of the video.
pub proof fn law_part_is_another_file(name: Seq<char>)
    ensures
        part_name(name) != name,
{
    reveal_strlit(".part.mp4");
    let stem = paths::file_stem(name);
    if part_name(name) == name {
        assert(name[stem.len() as int + 5] == '.');
        paths::lemma_last_dot(name, stem.len() as int + 5);
    }
}

/// The name of the file that a video is written to before it is complete, given
/// the name of the video.
pub fn temporary_video_name(name: &str) -> (r: String)
    ensures
        r@ == part_name(name@),
{
    let mut r = text::from_characters(&paths::stem_of(&text::characters(name)));
    r.append(".part.mp4");
    r
}

// ---------------------------------------------------------------------------
// Laws
// ---------------------------------------------------------------------------

/// The names of the encoders differ.
proof fn lemma_names_apart()
    ensures
        "h264_nvenc"@ != "h264_qsv"@ && "h264_nvenc"@ != "h264_vaapi"@ && "h264_nvenc"@
            != "h264_amf"@ && "h264_nvenc"@ != "libx264"@ && "h264_nvenc"@ != "libopenh264"@,
        "h264_qsv"@ != "h264_vaapi"@ && "h264_qsv"@ != "h264_amf"@ && "h264_qsv"@ != "libx264"@
            && "h264_qsv"@ != "libopenh264"@,
        "h264_vaapi"@ != "h264_amf"@ && "h264_vaapi"@ != "libx264"@ && "h264_vaapi"@
            != "libopenh264"@,
        "h264_amf"@ != "libx264"@ && "h264_amf"@ != "libopenh264"@,
        "libx264"@ != "libopenh264"@,
{
    reveal_strlit("h264_nvenc");
    reveal_strlit("h264_qsv");
    reveal_strlit("h264_vaapi");
    reveal_strlit("h264_amf");
    reveal_strlit("libx264");
    reveal_strlit("libopenh264");
    assert("h264_nvenc"@[5] == 'n' && "h264_vaapi"@[5] == 'v');
    assert("h264_qsv"@[5] == 'q' && "h264_amf"@[5] == 'a');
    assert("h264_nvenc"@.len() == 10 && "h264_vaapi"@.len() == 10);
    assert("h264_qsv"@.len() == 8 && "h264_amf"@.len() == 8);
    assert("libx264"@.len() == 7 && "libopenh264"@.len() == 11);
}

/// An encoder that is asked for by its name is used exactly where it works. For
/// `auto` the first that works is used of NVENC, Quick Sync, VA-API, AMF, x264 and
/// OpenH264.
pub proof fn law_first_working_encoder_is_used<F: Fn(&str) -> bool>(
    requested: &str,
    probe: F,
    r: Result<String, EncoderError>,
)
    requires
        call_ensures(resolve_encoder::<F>, (requested, probe), r),
    ensures
        requested@ != "auto"@ ==> {
            &&& r matches Ok(encoder) ==> encoder@ == requested@ && answers(probe, requested@, true)
            &&& r is Err ==> r == Err::<String, _>(EncoderError::Unavailable) && answers(
                probe,
                requested@,
                false,
            )
        },
        requested@ == "auto"@ ==> {
            let order = seq![
                "h264_nvenc"@,
                "h264_qsv"@,
                "h264_vaapi"@,
                "h264_amf"@,
                "libx264"@,
                "libopenh264"@,
            ];
            &&& r matches Ok(encoder) ==> {
                &&& order.contains(encoder@)
                &&& answers(probe, encoder@, true)
                &&& forall|i: int|
                    0 <= i < order.index_of(encoder@) ==> answers(probe, #[trigger] order[i], false)
            }
            &&& r is Err ==> r == Err::<String, _>(EncoderError::NoneAvailable) && forall|i: int|
                0 <= i < 6 ==> answers(probe, #[trigger] order[i], false)
        },
{
    let order = seq![
        "h264_nvenc"@,
        "h264_qsv"@,
        "h264_vaapi"@,
        "h264_amf"@,
        "libx264"@,
        "libopenh264"@,
    ];
    assert(preference() =~= order);
    lemma_names_apart();
    if requested@ == "auto"@ && r is Ok {
        let encoder = r->Ok_0@;
        let position = choose|position: int|
            #![trigger preference()[position]]
            first_working(probe, position) && encoder == preference()[position];
        assert(order[position] == encoder);
        assert(order.contains(encoder));
        assert(order[order.index_of(encoder)] == encoder);
        assert(order.index_of(encoder) == position);
        assert forall|i: int| 0 <= i < order.index_of(encoder) implies answers(
            probe,
            #[trigger] order[i],
            false,
        ) by {
            assert(answers(probe, preference()[i], false));
        }
    }
    if requested@ == "auto"@ && r is Err {
        assert forall|i: int| 0 <= i < 6 implies answers(probe, #[trigger] order[i], false) by {
            assert(answers(probe, preference()[i], false));
        }
    }
}

/// An encoder is tried by encoding one frame with it to nowhere. Only VA-API needs a
/// device for that, and is not tried without one.
pub proof fn law_encoder_is_tried(encoder: &str, has_device: bool, r: Option<Vec<Argument>>)
    requires
        call_ensures(probe_arguments, (encoder, has_device), r),
    ensures
        r is None <==> encoder@ == "h264_vaapi"@ && !has_device,
        r matches Some(list) ==> {
            let words = arguments::words_of(list@);
            &&& arguments::behind(words, "-c:v"@, encoder@)
            &&& arguments::behind(words, "-frames:v"@, "1"@)
            &&& words.last() == Word::Text("-"@)
            &&& encoder@ == "h264_vaapi"@ ==> arguments::word_behind(
                words,
                "-vaapi_device"@,
                Word::Device,
            ) && arguments::behind(words, "-vf"@, "format=nv12,hwupload"@) && words.len() == 18
            &&& encoder@ != "h264_vaapi"@ ==> words.len() == 14 && forall|i: int|
                0 <= i < words.len() ==> #[trigger] words[i] is Text
        },
{
    if r is Some {
        let words = arguments::words_of(r->0@);
        if encoder@ == "h264_vaapi"@ {
            assert(words[3] == Word::Text("-vaapi_device"@));
            assert(words[9] == Word::Text("-frames:v"@));
            assert(words[11] == Word::Text("-vf"@));
            assert(words[13] == Word::Text("-c:v"@));
        } else {
            assert(words[7] == Word::Text("-frames:v"@));
            assert(words[9] == Word::Text("-c:v"@));
        }
    }
}

/// The bitrate that is asked for is kept where it is between the bounds, and is
/// asked for all the pixels in a second: width by height by frame rate.
pub proof fn law_bitrate_is_the_one_asked_for<S: Fn(u64, u8) -> u64>(
    width: u32,
    height: u32,
    fps: u32,
    quality: u8,
    scale: S,
    bitrate: u64,
)
    requires
        call_ensures(openh264_bitrate::<S>, (width, height, fps, quality, scale), bitrate),
        width * height * fps <= u64::MAX,
    ensures
        exists|wanted: u64|
            {
                &&& #[trigger] call_ensures(
                    scale,
                    ((width * height * fps) as u64, quality),
                    wanted,
                )
                &&& 2_000_000 <= wanted <= 80_000_000 ==> bitrate == wanted
                &&& wanted < 2_000_000 ==> bitrate == 2_000_000
                &&& wanted > 80_000_000 ==> bitrate == 80_000_000
            },
{
}

/// How many words stand before the options of the encoder.
spec fn options_start(config: RenderConfig, has_device: bool) -> int {
    26 + if config.encoder@ == "h264_vaapi"@ && has_device {
        2int
    } else {
        0int
    }
}

/// Where the words of an encoding stand.
proof fn lemma_encode_places(
    config: &RenderConfig,
    has_device: bool,
    duration: &str,
    threads: usize,
    bitrate: u64,
    r: Vec<Argument>,
)
    requires
        call_ensures(encode_arguments, (config, has_device, duration, threads, bitrate), r),
    ensures
        ({
            let words = arguments::words_of(r@);
            let start = options_start(*config, has_device);
            let options = encoder_words(*config, threads as nat, bitrate as nat);
            let end = start + options.len();
            &&& words.len() == end + 8
            &&& words[start - 18] == Word::Text("-video_size"@)
            &&& words[start - 17] == Word::Text(
                number::decimal(config.width as nat) + "x"@ + number::decimal(
                    config.height as nat,
                ),
            )
            &&& words[start - 16] == Word::Text("-framerate"@)
            &&& words[start - 15] == Word::Text(number::decimal(config.visual_fps as nat))
            &&& words[start - 14] == Word::Text("-i"@)
            &&& words[start - 13] == Word::Text("pipe:0"@)
            &&& words[start - 12] == Word::Text("-i"@)
            &&& words[start - 11] == Word::Source
            &&& words[start - 6] == Word::Text("-t"@)
            &&& words[start - 5] == Word::Text(duration@)
            &&& words[start - 4] == Word::Text("-vf"@)
            &&& words[start - 3] == Word::Text(video_filter(*config))
            &&& words[start - 2] == Word::Text("-c:v"@)
            &&& words[start - 1] == Word::Text(config.encoder@)
            &&& words.subrange(start, end) == options
            &&& words[end] == Word::Text("-c:a"@)
            &&& words[end + 1] == Word::Text("aac"@)
            &&& words[end + 2] == Word::Text("-b:a"@)
            &&& words[end + 3] == Word::Text(config.audio_bitrate@)
            &&& words[end + 7] == Word::Output
            &&& forall|i: int| 0 <= i < options.len() ==> #[trigger] words[start + i] == options[i]
        }),
{
    let words = arguments::words_of(r@);
    let start = options_start(*config, has_device);
    let options = encoder_words(*config, threads as nat, bitrate as nat);
    assert(words.subrange(start, start + options.len()) =~= options);
}

/// An encoding reads frames of the given size and rate and the sound of the source,
/// lasts as long as it should, uses the encoder and the bitrate of the sound that
/// were asked for, and writes the video.
pub proof fn law_encoding_is_as_asked(
    config: &RenderConfig,
    has_device: bool,
    duration: &str,
    threads: usize,
    bitrate: u64,
    r: Vec<Argument>,
)
    requires
        call_ensures(encode_arguments, (config, has_device, duration, threads, bitrate), r),
    ensures
        ({
            let words = arguments::words_of(r@);
            let fps = number::decimal(config.fps as nat);
            let size = number::decimal(config.width as nat) + "x"@ + number::decimal(
                config.height as nat,
            );
            &&& arguments::behind(words, "-video_size"@, size)
            &&& arguments::behind(words, "-framerate"@, number::decimal(config.visual_fps as nat))
            &&& arguments::behind(words, "-i"@, "pipe:0"@)
            &&& arguments::word_behind(words, "-i"@, Word::Source)
            &&& arguments::behind(words, "-t"@, duration@)
            &&& arguments::behind(words, "-c:v"@, config.encoder@)
            &&& arguments::behind(words, "-c:a"@, "aac"@)
            &&& arguments::behind(words, "-b:a"@, config.audio_bitrate@)
            &&& words.last() == Word::Output
            &&& config.encoder@ == "h264_vaapi"@ ==> arguments::behind(
                words,
                "-vf"@,
                "fps="@ + fps + ",format=nv12,hwupload"@,
            )
            &&& config.encoder@ != "h264_vaapi"@ ==> arguments::behind(
                words,
                "-vf"@,
                "fps="@ + fps + ",format=yuv420p"@,
            )
            &&& config.encoder@ == "h264_vaapi"@ && has_device ==> words[0] == Word::Text(
                "-vaapi_device"@,
            ) && words[1] == Word::Device
            &&& !(config.encoder@ == "h264_vaapi"@ && has_device) ==> words[0] == Word::Text(
                "-hide_banner"@,
            )
        }),
{
    let words = arguments::words_of(r@);
    let start = options_start(*config, has_device);
    let end = start + encoder_words(*config, threads as nat, bitrate as nat).len();
    lemma_encode_places(config, has_device, duration, threads, bitrate, r);
    assert(words[start - 18] == Word::Text("-video_size"@));
    assert(words[start - 16] == Word::Text("-framerate"@));
    assert(words[start - 14] == Word::Text("-i"@));
    assert(words[start - 12] == Word::Text("-i"@));
    assert(words[start - 6] == Word::Text("-t"@));
    assert(words[start - 4] == Word::Text("-vf"@));
    assert(words[start - 2] == Word::Text("-c:v"@));
    assert(words[end] == Word::Text("-c:a"@));
    assert(words[end + 2] == Word::Text("-b:a"@));
}

/// The word behind an encoder's option for the quality is the quality that was asked
/// for, whatever it is.
pub proof fn law_quality_is_passed_on(
    config: &RenderConfig,
    has_device: bool,
    duration: &str,
    threads: usize,
    bitrate: u64,
    r: Vec<Argument>,
)
    requires
        call_ensures(encode_arguments, (config, has_device, duration, threads, bitrate), r),
    ensures
        ({
            let words = arguments::words_of(r@);
            let quality = number::decimal(config.quality as nat);
            &&& config.encoder@ == "h264_nvenc"@ ==> arguments::behind(words, "-cq"@, quality)
            &&& config.encoder@ == "h264_qsv"@ ==> arguments::behind(
                words,
                "-global_quality"@,
                quality,
            )
            &&& config.encoder@ == "h264_amf"@ ==> arguments::behind(words, "-q:v"@, quality)
            &&& config.encoder@ == "h264_vaapi"@ ==> arguments::behind(words, "-qp"@, quality)
            &&& config.encoder@ == "libx264"@ ==> arguments::behind(words, "-crf"@, quality)
        }),
{
    let words = arguments::words_of(r@);
    let start = options_start(*config, has_device);
    let options = encoder_words(*config, threads as nat, bitrate as nat);
    lemma_names_apart();
    lemma_encode_places(config, has_device, duration, threads, bitrate, r);
    if config.encoder@ == "h264_nvenc"@ {
        assert(words[start + 4] == options[4] && words[start + 5] == options[5]);
    } else if config.encoder@ == "h264_qsv"@ || config.encoder@ == "h264_amf"@
        || config.encoder@ == "libx264"@ {
        assert(words[start + 2] == options[2] && words[start + 3] == options[3]);
    } else if config.encoder@ == "h264_vaapi"@ {
        assert(words[start + 0] == options[0] && words[start + 1] == options[1]);
    }
}

/// A preset that was asked for is passed on to the encoders that know presets. Each
/// of them has one of its own for where none was asked for.
pub proof fn law_preset_is_passed_on(
    config: &RenderConfig,
    has_device: bool,
    duration: &str,
    threads: usize,
    bitrate: u64,
    r: Vec<Argument>,
)
    requires
        call_ensures(encode_arguments, (config, has_device, duration, threads, bitrate), r),
    ensures
        ({
            let words = arguments::words_of(r@);
            let encoder = config.encoder@;
            &&& config.preset matches Some(preset) ==> {
                &&& encoder == "h264_nvenc"@ || encoder == "h264_qsv"@ || encoder == "libx264"@
                    ==> arguments::behind(words, "-preset"@, preset@)
                &&& encoder == "h264_amf"@ ==> arguments::behind(words, "-quality"@, preset@)
            }
            &&& config.preset is None ==> {
                &&& encoder == "h264_nvenc"@ ==> arguments::behind(words, "-preset"@, "p4"@)
                &&& encoder == "h264_qsv"@ ==> arguments::behind(words, "-preset"@, "medium"@)
                &&& encoder == "libx264"@ ==> arguments::behind(words, "-preset"@, "veryfast"@)
                &&& encoder == "h264_amf"@ ==> arguments::behind(words, "-quality"@, "speed"@)
            }
        }),
{
    let words = arguments::words_of(r@);
    let start = options_start(*config, has_device);
    let options = encoder_words(*config, threads as nat, bitrate as nat);
    lemma_names_apart();
    lemma_encode_places(config, has_device, duration, threads, bitrate, r);
    if config.encoder@ == "h264_nvenc"@ || config.encoder@ == "h264_qsv"@ || config.encoder@
        == "h264_amf"@ || config.encoder@ == "libx264"@ {
        assert(words[start + 0] == options[0] && words[start + 1] == options[1]);
    }
}

/// The encoders that run on the processor are given their threads, and OpenH264 its
/// bitrate and a distance between key frames: how often five goes into the frame
/// rate, but at least one.
pub proof fn law_threads_and_bitrate_are_passed_on(
    config: &RenderConfig,
    has_device: bool,
    duration: &str,
    threads: usize,
    bitrate: u64,
    r: Vec<Argument>,
)
    requires
        call_ensures(encode_arguments, (config, has_device, duration, threads, bitrate), r),
    ensures
        ({
            let words = arguments::words_of(r@);
            &&& config.encoder@ == "libx264"@ || config.encoder@ == "libopenh264"@
                ==> arguments::behind(words, "-threads"@, number::decimal(threads as nat))
            &&& config.encoder@ == "libopenh264"@ ==> {
                &&& arguments::behind(words, "-b:v"@, number::decimal(bitrate as nat))
                &&& exists|distance: nat|
                    {
                        &&& arguments::behind(words, "-g"@, #[trigger] number::decimal(distance))
                        &&& config.fps < 5 ==> distance == 1
                        &&& config.fps >= 5 ==> 5 * distance <= config.fps < 5 * distance + 5
                    }
            }
        }),
{
    let words = arguments::words_of(r@);
    let start = options_start(*config, has_device);
    let options = encoder_words(*config, threads as nat, bitrate as nat);
    lemma_names_apart();
    lemma_encode_places(config, has_device, duration, threads, bitrate, r);
    if config.encoder@ == "libx264"@ {
        assert(words[start + 4] == options[4] && words[start + 5] == options[5]);
    } else if config.encoder@ == "libopenh264"@ {
        assert(words[start + 10] == options[10] && words[start + 11] == options[11]);
        assert(words[start + 0] == options[0] && words[start + 1] == options[1]);
        assert(words[start + 8] == options[8] && words[start + 9] == options[9]);
        assert(arguments::behind(
            words,
            "-g"@,
            number::decimal(key_frame_distance(config.fps)),
        ));
    }
}

/// Two encodings with the same encoder that are run with the same arguments agree in
/// all that was asked for: settings that differ in the quality, in the size, in a
/// frame rate, in the preset or in the bitrate of the sound never give the same
/// arguments, nor do different durations, threads and bitrates.
pub proof fn law_encodings_differ(
    config: &RenderConfig,
    has_device: bool,
    duration: &str,
    threads: usize,
    bitrate: u64,
    r: Vec<Argument>,
    other: &RenderConfig,
    other_duration: &str,
    other_threads: usize,
    other_bitrate: u64,
    other_r: Vec<Argument>,
)
    requires
        call_ensures(encode_arguments, (config, has_device, duration, threads, bitrate), r),
        call_ensures(
            encode_arguments,
            (other, has_device, other_duration, other_threads, other_bitrate),
            other_r,
        ),
        config.encoder@ == other.encoder@,
        arguments::words_of(r@) == arguments::words_of(other_r@),
    ensures
        config.width == other.width && config.height == other.height,
        config.fps == other.fps && config.visual_fps == other.visual_fps,
        config.audio_bitrate@ == other.audio_bitrate@,
        duration@ == other_duration@,
        config.encoder@ == "h264_nvenc"@ || config.encoder@ == "h264_qsv"@ || config.encoder@
            == "h264_amf"@ || config.encoder@ == "h264_vaapi"@ || config.encoder@ == "libx264"@
            ==> config.quality == other.quality,
        config.encoder@ == "h264_nvenc"@ || config.encoder@ == "h264_qsv"@ || config.encoder@
            == "h264_amf"@ || config.encoder@ == "libx264"@ ==> (config.preset matches Some(
            preset,
        ) ==> other.preset matches Some(other_preset) ==> preset@ == other_preset@),
        config.encoder@ == "libx264"@ || config.encoder@ == "libopenh264"@ ==> threads
            == other_threads,
        config.encoder@ == "libopenh264"@ ==> bitrate == other_bitrate,
{
    let (a, b) = (
        encoder_words(*config, threads as nat, bitrate as nat),
        encoder_words(*other, other_threads as nat, other_bitrate as nat),
    );
    lemma_encode_places(config, has_device, duration, threads, bitrate, r);
    lemma_encode_places(
        other,
        has_device,
        other_duration,
        other_threads,
        other_bitrate,
        other_r,
    );
    assert(a.len() == b.len());
    lemma_sizes_differ(config.width, config.height, other.width, other.height);
    lemma_filters_differ(*config, *other);
    number::law_decimal_tells_numbers_apart(config.visual_fps as nat, other.visual_fps as nat);
    lemma_options_differ(*config, threads, bitrate, *other, other_threads, other_bitrate);
}

/// Options that are written alike are equal.
proof fn lemma_options_differ(
    config: RenderConfig,
    threads: usize,
    bitrate: u64,
    other: RenderConfig,
    other_threads: usize,
    other_bitrate: u64,
)
    requires
        config.encoder@ == other.encoder@,
        encoder_words(config, threads as nat, bitrate as nat) == encoder_words(
            other,
            other_threads as nat,
            other_bitrate as nat,
        ),
    ensures
        config.encoder@ == "h264_nvenc"@ || config.encoder@ == "h264_qsv"@ || config.encoder@
            == "h264_amf"@ || config.encoder@ == "h264_vaapi"@ || config.encoder@ == "libx264"@
            ==> config.quality == other.quality,
        config.encoder@ == "h264_nvenc"@ || config.encoder@ == "h264_qsv"@ || config.encoder@
            == "h264_amf"@ || config.encoder@ == "libx264"@ ==> (config.preset matches Some(
            preset,
        ) ==> other.preset matches Some(other_preset) ==> preset@ == other_preset@),
        config.encoder@ == "libx264"@ || config.encoder@ == "libopenh264"@ ==> threads
            == other_threads,
        config.encoder@ == "libopenh264"@ ==> bitrate == other_bitrate,
{
    let a = encoder_words(config, threads as nat, bitrate as nat);
    let b = encoder_words(other, other_threads as nat, other_bitrate as nat);
    lemma_names_apart();
    number::law_decimal_tells_numbers_apart(config.quality as nat, other.quality as nat);
    number::law_decimal_tells_numbers_apart(threads as nat, other_threads as nat);
    number::law_decimal_tells_numbers_apart(bitrate as nat, other_bitrate as nat);
    if config.encoder@ == "h264_nvenc"@ {
        assert(a[5] == b[5] && a[1] == b[1]);
    } else if config.encoder@ == "h264_qsv"@ || config.encoder@ == "h264_amf"@ {
        assert(a[3] == b[3] && a[1] == b[1]);
    } else if config.encoder@ == "h264_vaapi"@ {
        assert(a[1] == b[1]);
    } else if config.encoder@ == "libx264"@ {
        assert(a[3] == b[3] && a[1] == b[1] && a[5] == b[5]);
    } else if config.encoder@ == "libopenh264"@ {
        assert(a[1] == b[1] && a[11] == b[11]);
    }
}

/// Sizes that are written alike are equal.
proof fn lemma_sizes_differ(width: u32, height: u32, other_width: u32, other_height: u32)
    requires
        number::decimal(width as nat) + "x"@ + number::decimal(height as nat) == number::decimal(
            other_width as nat,
        ) + "x"@ + number::decimal(other_height as nat),
    ensures
        width == other_width,
        height == other_height,
{
    reveal_strlit("x");
    let (w, h) = (number::decimal(width as nat), number::decimal(height as nat));
    let (v, g) = (number::decimal(other_width as nat), number::decimal(other_height as nat));
    let (a, b) = (w + "x"@ + h, v + "x"@ + g);
    number::law_decimal_is_read_back(width as nat);
    number::law_decimal_is_read_back(height as nat);
    number::law_decimal_is_read_back(other_width as nat);
    number::law_decimal_is_read_back(other_height as nat);
    assert(a[w.len() as int] == 'x');
    assert(b[v.len() as int] == 'x');
    if w.len() < v.len() {
        assert(b[w.len() as int] == v[w.len() as int]);
    }
    if v.len() < w.len() {
        assert(a[v.len() as int] == w[v.len() as int]);
    }
    assert(w =~= a.take(w.len() as int));
    assert(v =~= b.take(w.len() as int));
    assert(h =~= a.skip(w.len() as int + 1));
    assert(g =~= b.skip(w.len() as int + 1));
}

/// Frames of different rates go through different filters.
proof fn lemma_filters_differ(config: RenderConfig, other: RenderConfig)
    requires
        config.encoder@ == other.encoder@,
        video_filter(config) == video_filter(other),
    ensures
        config.fps == other.fps,
{
    let ending = if config.encoder@ == "h264_vaapi"@ {
        ",format=nv12,hwupload"@
    } else {
        ",format=yuv420p"@
    };
    let start = "fps="@;
    let (a, b) = (number::decimal(config.fps as nat), number::decimal(other.fps as nat));
    let whole = video_filter(config);
    assert(whole.len() == start.len() + a.len() + ending.len());
    assert(video_filter(other).len() == start.len() + b.len() + ending.len());
    assert(a =~= whole.subrange(start.len() as int, start.len() as int + a.len()));
    assert(b =~= video_filter(other).subrange(start.len() as int, start.len() as int + a.len()));
    number::law_decimal_tells_numbers_apart(config.fps as nat, other.fps as nat);
}

/// Whether the first seven characters of a name are `renderD`.
pub open spec fn named_as_device(name: Seq<char>) -> bool {
    name.len() >= 7 && name.take(7) == "renderD"@
}

/// The render device that is used is the first by name, in the dictionary order of
/// code points, of those whose names start with `renderD`. There is none only where no
/// name does.
pub proof fn law_first_device_is_used(names: &Vec<String>, r: Option<usize>)
    requires
        call_ensures(first_render_node, (names,), r),
    ensures
        r is None <==> forall|i: int|
            0 <= i < names@.len() ==> !named_as_device((#[trigger] names@[i])@),
        r matches Some(position) ==> {
            &&& position < names@.len()
            &&& named_as_device(names@[position as int]@)
            &&& forall|i: int, k: int|
                0 <= i < names@.len() && named_as_device(names@[i]@)
                    ==> !#[trigger] order::texts_decided_at(
                    names@[i]@,
                    names@[position as int]@,
                    k,
                )
        },
{
    reveal_strlit("renderD");
    assert forall|name: Seq<char>| named_as_device(name) == #[trigger] render_node(name) by {
        if render_node(name) {
            assert(name.take(7) =~= "renderD"@);
        }
        if named_as_device(name) {
            assert forall|i: int| 0 <= i < 7 implies "renderD"@[i] == name[i] by {
                assert(name.take(7)[i] == name[i]);
            }
        }
    }
    if r is Some {
        let position = r->0 as int;
        assert(render_node(names@[position]@));
        assert forall|i: int, k: int|
            0 <= i < names@.len() && named_as_device(
                names@[i]@,
            ) implies !#[trigger] order::texts_decided_at(names@[i]@, names@[position]@, k) by {
            assert(render_node(names@[i]@));
            order::law_texts_are_in_dictionary_order(names@[i]@, names@[position]@);
        }
    } else {
        assert(no_render_node(names@));
    }
}

/// The incomplete video of a file with an extension has `.part.mp4` in the place of
/// that.
pub proof fn law_part_is_beside_the_video(
    stem: Seq<char>,
    extension: Seq<char>,
    name: &str,
    r: String,
)
    requires
        call_ensures(temporary_video_name, (name,), r),
        name@ == stem.push('.') + extension,
        stem.len() > 0,
        !extension.contains('.'),
    ensures
        r@ == stem + ".part.mp4"@,
{
    paths::law_name_is_stem_and_extension(stem, extension);
}

/// Whatever the settings, an encoding says nothing but errors, overwrites what is
/// there, takes raw pixels of four bytes, the frames from its own input and the first
/// sound of the source, and writes a file that can be played while it loads and ends
/// with the shorter of the two. It is given nothing else but the options of the
/// encoder.
#[verifier::rlimit(40)]
pub proof fn law_other_words_are_always_the_same(
    config: &RenderConfig,
    has_device: bool,
    duration: &str,
    threads: usize,
    bitrate: u64,
    r: Vec<Argument>,
    first: int,
    last: int,
)
    requires
        call_ensures(encode_arguments, (config, has_device, duration, threads, bitrate), r),
        config.encoder@ == "h264_vaapi"@ && has_device ==> first == 2,
        !(config.encoder@ == "h264_vaapi"@ && has_device) ==> first == 0,
        last == arguments::words_of(r@).len() - 1,
    ensures
        ({
            let words = arguments::words_of(r@);
            &&& words[first] == Word::Text("-hide_banner"@)
            &&& words[first + 1] == Word::Text("-loglevel"@)
            &&& words[first + 2] == Word::Text("error"@)
            &&& words[first + 3] == Word::Text("-y"@)
            &&& words[first + 4] == Word::Text("-f"@)
            &&& words[first + 5] == Word::Text("rawvideo"@)
            &&& words[first + 6] == Word::Text("-pixel_format"@)
            &&& words[first + 7] == Word::Text("rgba"@)
            &&& words[first + 16] == Word::Text("-map"@)
            &&& words[first + 17] == Word::Text("0:v:0"@)
            &&& words[first + 18] == Word::Text("-map"@)
            &&& words[first + 19] == Word::Text("1:a:0"@)
            &&& words[last - 3] == Word::Text("-movflags"@)
            &&& words[last - 2] == Word::Text("+faststart"@)
            &&& words[last - 1] == Word::Text("-shortest"@)
            &&& last - first == 33 + if config.encoder@ == "h264_nvenc"@ || config.encoder@
                == "libx264"@ {
                6int
            } else if config.encoder@ == "h264_qsv"@ || config.encoder@ == "h264_amf"@ {
                4
            } else if config.encoder@ == "h264_vaapi"@ {
                2
            } else if config.encoder@ == "libopenh264"@ {
                12
            } else {
                0
            }
        }),
{
    let words = arguments::words_of(r@);
    let options = encoder_words(*config, threads as nat, bitrate as nat);
    lemma_names_apart();
    assert(words.len() == first + 26 + options.len() + 8);
    assert(options.len() == if config.encoder@ == "h264_nvenc"@ || config.encoder@ == "libx264"@ {
        6int
    } else if config.encoder@ == "h264_qsv"@ || config.encoder@ == "h264_amf"@ {
        4
    } else if config.encoder@ == "h264_vaapi"@ {
        2
    } else if config.encoder@ == "libopenh264"@ {
        12
    } else {
        0
    });
}

/// NVENC varies its bitrate, and OpenH264 aims at a quality, in the high profile and with
/// arithmetic coding.
pub proof fn law_encoders_have_their_own_modes(
    config: &RenderConfig,
    has_device: bool,
    duration: &str,
    threads: usize,
    bitrate: u64,
    r: Vec<Argument>,
)
    requires
        call_ensures(encode_arguments, (config, has_device, duration, threads, bitrate), r),
    ensures
        ({
            let words = arguments::words_of(r@);
            &&& config.encoder@ == "h264_nvenc"@ ==> arguments::behind(words, "-rc"@, "vbr"@)
            &&& config.encoder@ == "libopenh264"@ ==> {
                &&& arguments::behind(words, "-profile:v"@, "high"@)
                &&& arguments::behind(words, "-coder"@, "cabac"@)
                &&& arguments::behind(words, "-rc_mode"@, "quality"@)
            }
        }),
{
    let words = arguments::words_of(r@);
    let start = options_start(*config, has_device);
    let options = encoder_words(*config, threads as nat, bitrate as nat);
    lemma_names_apart();
    lemma_encode_places(config, has_device, duration, threads, bitrate, r);
    if config.encoder@ == "h264_nvenc"@ {
        assert(words[start + 2] == options[2] && words[start + 3] == options[3]);
    } else if config.encoder@ == "libopenh264"@ {
        assert(words[start + 2] == options[2] && words[start + 3] == options[3]);
        assert(words[start + 4] == options[4] && words[start + 5] == options[5]);
        assert(words[start + 6] == options[6] && words[start + 7] == options[7]);
    }
}

/// An encoder is tried on one frame of black that goes nowhere.
pub proof fn law_one_black_frame_is_tried(encoder: &str, has_device: bool, r: Vec<Argument>)
    requires
        call_ensures(probe_arguments, (encoder, has_device), Some(r)),
    ensures
        ({
            let words = arguments::words_of(r@);
            let last = words.len() - 1;
            &&& words[0] == Word::Text("-hide_banner"@)
            &&& words[1] == Word::Text("-loglevel"@)
            &&& words[2] == Word::Text("error"@)
            &&& arguments::behind(words, "-f"@, "lavfi"@)
            &&& arguments::behind(words, "-i"@, "color=black:s=64x64:d=0.04"@)
            &&& arguments::behind(words, "-frames:v"@, "1"@)
            &&& words[last - 4] == Word::Text("-c:v"@)
            &&& words[last - 3] == Word::Text(encoder@)
            &&& words[last - 2] == Word::Text("-f"@)
            &&& words[last - 1] == Word::Text("null"@)
            &&& words[last] == Word::Text("-"@)
            &&& last == if encoder@ == "h264_vaapi"@ {
                17int
            } else {
                13int
            }
        }),
{
    let words = arguments::words_of(r@);
    let start = if encoder@ == "h264_vaapi"@ {
        5int
    } else {
        3int
    };
    assert(words[start] == Word::Text("-f"@) && words[start + 1] == Word::Text("lavfi"@));
    assert(words[start + 2] == Word::Text("-i"@));
    assert(words[start + 4] == Word::Text("-frames:v"@));
}

} // verus!
