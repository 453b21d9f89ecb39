//! Decoding a track and reading its analysis.
use vstd::prelude::*;
use vstd::slice::slice_subrange;

use crate::arguments;
use crate::arguments::{Argument, Word};
use crate::number;

verus! {

// ---------------------------------------------------------------------------
// Arguments
// ---------------------------------------------------------------------------

/// What `ffprobe` is run with to learn the length of a source.
pub open spec fn duration_words() -> Seq<Word> {
    arguments::texts(
        seq![
            "-v"@,
            "error"@,
            "-show_entries"@,
            "format=duration"@,
            "-of"@,
            "default=noprint_wrappers=1:nokey=1"@,
        ],
    ).push(Word::Source)
}

/// What `ffprobe` is run with to learn the length of a source.
pub fn duration_arguments() -> (r: Vec<Argument>)
    ensures
        arguments::words_of(r@) == duration_words(),
{
    let mut r = arguments::no_arguments();
    arguments::add_texts(
        &mut r,
        vec![
            "-v",
            "error",
            "-show_entries",
            "format=duration",
            "-of",
            "default=noprint_wrappers=1:nokey=1",
        ],
    );
    arguments::add_word(&mut r, Argument::Source);
    proof {
        assert(arguments::words_of(r@) =~= duration_words());
    }
    r
}

/// What `ffmpeg` is run with to decode a source to samples, given how much of it
/// is decoded at most, in seconds as text.
pub open spec fn decode_words(sample_rate: u32, limit: Option<Seq<char>>) -> Seq<Word> {
    arguments::texts(seq!["-hide_banner"@, "-loglevel"@, "error"@, "-i"@]) + seq![Word::Source]
        + arguments::texts(
        seq![
            "-map"@,
            "0:a:0"@,
            "-vn"@,
            "-ac"@,
            "1"@,
            "-ar"@,
            number::decimal(sample_rate as nat),
        ],
    ) + (match limit {
        Some(seconds) => arguments::texts(seq!["-t"@, seconds]),
        None => Seq::empty(),
    }) + arguments::texts(seq!["-f"@, "s16le"@, "pipe:1"@])
}

/// What `ffmpeg` is run with to decode a source to samples, given how much of it
/// is decoded at most, in seconds as text.
pub fn decode_arguments(sample_rate: u32, limit: Option<&str>) -> (r: Vec<Argument>)
    ensures
        arguments::words_of(r@) == decode_words(
            sample_rate,
            match limit {
                Some(seconds) => Some(seconds@),
                None => None,
            },
        ),
{
    let rate = number::decimal_text(sample_rate as u64);
    let mut r = arguments::no_arguments();
    arguments::add_texts(&mut r, vec!["-hide_banner", "-loglevel", "error", "-i"]);
    arguments::add_word(&mut r, Argument::Source);
    arguments::add_texts(&mut r, vec!["-map", "0:a:0", "-vn", "-ac", "1", "-ar", rate.as_str()]);
    if let Some(seconds) = limit {
        arguments::add_texts(&mut r, vec!["-t", seconds]);
    }
    arguments::add_texts(&mut r, vec!["-f", "s16le", "pipe:1"]);
    proof {
        assert(arguments::words_of(r@) =~= decode_words(
            sample_rate,
            match limit {
                Some(seconds) => Some(seconds@),
                None => None,
            },
        ));
    }
    r
}

// ---------------------------------------------------------------------------
// Samples
// ---------------------------------------------------------------------------

/// Why a source could not be decoded.
#[derive(Clone, Copy, Debug, PartialEq, Eq, Structural)]
pub enum DecodeError {
    /// The decoder failed.
    Failed,
    /// There is no sound.
    Empty,
}

/// The sample that two bytes hold, the less significant first.
pub open spec fn sample(low: u8, high: u8) -> i16 {
    if high < 128 {
        (low + 0x100 * high) as i16
    } else {
        (low + 0x100 * high - 0x1_0000) as i16
    }
}

/// The samples that bytes hold, two bytes each. A last odd byte holds none.
pub open spec fn samples_of(bytes: Seq<u8>) -> Seq<i16> {
    Seq::new(bytes.len() / 2, |i: int| sample(bytes[2 * i], bytes[2 * i + 1]))
}

/// The samples that a decoder printed, where it succeeded and printed any.
pub fn decode_samples(success: bool, bytes: &[u8]) -> (r: Result<Vec<i16>, DecodeError>)
    ensures
        match r {
            Ok(samples) => success && bytes@.len() >= 2 && samples@ == samples_of(bytes@),
            Err(DecodeError::Failed) => !success,
            Err(DecodeError::Empty) => success && bytes@.len() < 2,
        },
{
    if !success {
        return Err(DecodeError::Failed);
    }
    let length: usize = bytes.len();
    if length < 2 {
        return Err(DecodeError::Empty);
    }
    let count: usize = length / 2;
    let mut samples: Vec<i16> = Vec::new();
    for i in 0..count
        invariant
            count == length / 2,
            length == bytes@.len(),
            samples@ == samples_of(bytes@).take(i as int),
    {
        let low: i32 = bytes[2 * i] as i32;
        let high: i32 = bytes[2 * i + 1] as i32;
        let value: i32 = if high < 128 {
            low + 0x100 * high
        } else {
            low + 0x100 * high - 0x1_0000
        };
        samples.push(value as i16);
        proof {
            assert(samples_of(bytes@)[i as int] == value as i16);
            assert(samples_of(bytes@).take(i + 1) =~= samples_of(bytes@).take(i as int).push(
                value as i16,
            ));
        }
    }
    proof {
        assert(samples_of(bytes@).take(count as int) =~= samples_of(bytes@));
    }
    Ok(samples)
}

/// The two bytes that hold a sample, the less significant first.
pub open spec fn sample_bytes(value: i16) -> (u8, u8) {
    let number = if value >= 0 {
        value as int
    } else {
        value + 0x1_0000
    };
    ((number % 0x100) as u8, (number / 0x100) as u8)
}

/// Every sample is read back from its two bytes.
pub proof fn law_sample_is_read_back(value: i16)
    ensures
        sample(sample_bytes(value).0, sample_bytes(value).1) == value,
{
}

// ---------------------------------------------------------------------------
// Reading the analysis
// ---------------------------------------------------------------------------

/// The analysis of a track: a row of bars and a loudness for each frame.
#[derive(Debug)]
pub struct AudioAnalysis<T> {
    /// The levels of the bars, row by row.
    pub spectrum: Vec<T>,
    /// The loudness of the frames.
    pub energy: Vec<T>,
    /// The number of bars in a row.
    pub bars: usize,
}

/// The first place of the row for a frame: behind the last frame the last row
/// is kept.
pub open spec fn row_start(length: int, bars: int, frame: int) -> int {
    let frames = length / bars;
    if frame < frames {
        frame * bars
    } else if frames > 0 {
        (frames - 1) * bars
    } else {
        0
    }
}

impl<T: Copy> AudioAnalysis<T> {
    /// The bars of a frame.
    pub fn spectrum_at(&self, frame: usize) -> (r: &[T])
        requires
            0 < self.bars <= self.spectrum@.len(),
        ensures
            r@.len() == self.bars,
            ({
                let start = row_start(
                    self.spectrum@.len() as int,
                    self.bars as int,
                    frame as int,
                );
                r@ == self.spectrum@.subrange(start, start + self.bars)
            }),
    {
        let frames: usize = self.spectrum.len() / self.bars;
        let ghost length = self.spectrum@.len() as int;
        let ghost bars = self.bars as int;
        proof {
            assert(frames >= 1 && frames * bars <= length) by (nonlinear_arith)
                requires
                    frames == length / bars,
                    0 < bars <= length,
            ;
        }
        let kept: usize = if frame < frames {
            frame
        } else {
            frames - 1
        };
        proof {
            assert(0 <= kept * bars && kept * bars + bars <= frames * bars) by (nonlinear_arith)
                requires
                    0 <= kept < frames,
                    0 < bars,
            ;
        }
        let start: usize = kept * self.bars;
        slice_subrange(self.spectrum.as_slice(), start, start + self.bars)
    }

    /// The loudness of a frame and that of the next one, or of the frame again
    /// where it is the last. There is none behind the last frame.
    pub fn energy_at(&self, frame: usize) -> (r: Option<(T, T)>)
        ensures
            r == (if frame < self.energy@.len() {
                Some(
                    (
                        self.energy@[frame as int],
                        self.energy@[if frame + 1 < self.energy@.len() {
                            frame + 1
                        } else {
                            frame as int
                        }],
                    ),
                )
            } else {
                None
            }),
    {
        if frame >= self.energy.len() {
            return None;
        }
        let next: usize = if frame + 1 < self.energy.len() {
            frame + 1
        } else {
            frame
        };
        Some((self.energy[frame], self.energy[next]))
    }
}

// ---------------------------------------------------------------------------
// Laws
// ---------------------------------------------------------------------------

/// What decodes a source reads it and nothing else, asks for the wanted sample rate,
/// and stops after the given time exactly where one is given.
pub proof fn law_decoding_is_as_asked(sample_rate: u32, limit: Option<&str>, r: Vec<Argument>)
    requires
        call_ensures(decode_arguments, (sample_rate, limit), r),
    ensures
        ({
            let words = arguments::words_of(r@);
            &&& arguments::word_behind(words, "-i"@, Word::Source)
            &&& arguments::behind(words, "-ar"@, number::decimal(sample_rate as nat))
            &&& arguments::behind(words, "-ac"@, "1"@)
            &&& arguments::behind(words, "-f"@, "s16le"@)
            &&& words.last() == Word::Text("pipe:1"@)
            &&& limit matches Some(seconds) ==> arguments::behind(words, "-t"@, seconds@)
            &&& words.len() == if limit is Some {
                17int
            } else {
                15int
            }
        }),
{
    let words = arguments::words_of(r@);
    assert(words[3] == Word::Text("-i"@) && words[4] == Word::Source);
    assert(words[10] == Word::Text("-ar"@));
    assert(words[8] == Word::Text("-ac"@));
    if limit is Some {
        assert(words[12] == Word::Text("-t"@));
        assert(words[14] == Word::Text("-f"@));
    } else {
        assert(words[12] == Word::Text("-f"@));
    }
}

/// Different sample rates, and different limits, are asked for differently.
pub proof fn law_decodings_differ(
    sample_rate: u32,
    limit: Option<&str>,
    r: Vec<Argument>,
    other_rate: u32,
    other_limit: Option<&str>,
    other: Vec<Argument>,
)
    requires
        call_ensures(decode_arguments, (sample_rate, limit), r),
        call_ensures(decode_arguments, (other_rate, other_limit), other),
        arguments::words_of(r@) == arguments::words_of(other@),
    ensures
        sample_rate == other_rate,
        limit is Some == other_limit is Some,
        limit matches Some(seconds) ==> other_limit matches Some(others) && seconds@ == others@,
{
    let (a, b) = (arguments::words_of(r@), arguments::words_of(other@));
    law_decoding_is_as_asked(sample_rate, limit, r);
    law_decoding_is_as_asked(other_rate, other_limit, other);
    assert(a[11] == Word::Text(number::decimal(sample_rate as nat)));
    assert(b[11] == Word::Text(number::decimal(other_rate as nat)));
    number::law_decimal_tells_numbers_apart(sample_rate as nat, other_rate as nat);
    if limit is Some {
        assert(a[13] == Word::Text(limit->0@));
        assert(b[13] == Word::Text(other_limit->0@));
    }
}

/// Sound is decoded exactly where the decoder succeeded and printed a sample. There
/// are as many samples as pairs of bytes, and each gives its two bytes back: the rest
/// by 256 first, then how often 256 goes into it, both of the sample as an unsigned
/// number.
pub proof fn law_samples_hold_the_bytes(
    success: bool,
    bytes: &[u8],
    r: Result<Vec<i16>, DecodeError>,
)
    requires
        call_ensures(decode_samples, (success, bytes), r),
    ensures
        r is Ok <==> success && bytes@.len() >= 2,
        r == Err::<Vec<i16>, _>(DecodeError::Failed) <==> !success,
        r matches Ok(samples) ==> {
            &&& 2 * samples@.len() <= bytes@.len() < 2 * samples@.len() + 2
            &&& forall|i: int|
                0 <= i < samples@.len() ==> {
                    let unsigned = (#[trigger] samples@[i]) + if samples@[i] < 0 {
                        0x1_0000int
                    } else {
                        0int
                    };
                    bytes@[2 * i] == unsigned % 256 && bytes@[2 * i + 1] == unsigned / 256
                }
        },
{
    if r is Ok {
        let samples = r->Ok_0@;
        assert forall|i: int| 0 <= i < samples.len() implies {
            let unsigned = (#[trigger] samples[i]) + if samples[i] < 0 {
                0x1_0000int
            } else {
                0int
            };
            bytes@[2 * i] == unsigned % 256 && bytes@[2 * i + 1] == unsigned / 256
        } by {
            assert(samples[i] == sample(bytes@[2 * i], bytes@[2 * i + 1]));
        }
    }
}

/// As long as the spectrum has a row for a frame, the bars of the frame are exactly
/// those of that row.
pub proof fn law_frame_shows_its_row<T: Copy>(
    analysis: &AudioAnalysis<T>,
    frame: usize,
    row: &[T],
)
    requires
        analysis.bars > 0,
        frame * analysis.bars + analysis.bars <= analysis.spectrum@.len(),
        call_ensures(AudioAnalysis::<T>::spectrum_at, (analysis, frame), row),
    ensures
        row@ == analysis.spectrum@.subrange(
            frame * analysis.bars,
            frame * analysis.bars + analysis.bars,
        ),
        row@.len() == analysis.bars,
        forall|bar: int|
            0 <= bar < analysis.bars ==> #[trigger] row@[bar] == analysis.spectrum@[frame
                * analysis.bars + bar],
{
    lemma_row_start(analysis.spectrum@.len() as int, analysis.bars as int, frame as int);
}

/// Frames behind the last row show the last row.
pub proof fn law_last_row_is_kept<T: Copy>(
    analysis: &AudioAnalysis<T>,
    last: usize,
    frame: usize,
    row: &[T],
)
    requires
        analysis.bars > 0,
        last * analysis.bars + analysis.bars <= analysis.spectrum@.len(),
        analysis.spectrum@.len() < last * analysis.bars + 2 * analysis.bars,
        last <= frame,
        call_ensures(AudioAnalysis::<T>::spectrum_at, (analysis, frame), row),
    ensures
        row@ == analysis.spectrum@.subrange(
            last * analysis.bars,
            last * analysis.bars + analysis.bars,
        ),
{
    lemma_row_start(analysis.spectrum@.len() as int, analysis.bars as int, frame as int);
    let (length, bars, frames) = (
        analysis.spectrum@.len() as int,
        analysis.bars as int,
        analysis.spectrum@.len() as int / analysis.bars as int,
    );
    assert(frames == last + 1) by (nonlinear_arith)
        requires
            frames == length / bars,
            last * bars + bars <= length < last * bars + 2 * bars,
            bars > 0,
    ;
}

/// The rows of two frames, one after the other, are what the spectrum holds there:
/// put together, the rows of all frames give the spectrum back.
pub proof fn law_rows_give_the_spectrum_back<T: Copy>(
    analysis: &AudioAnalysis<T>,
    frame: usize,
    next: usize,
    row: &[T],
    next_row: &[T],
)
    requires
        analysis.bars > 0,
        next == frame + 1,
        next * analysis.bars + analysis.bars <= analysis.spectrum@.len(),
        call_ensures(AudioAnalysis::<T>::spectrum_at, (analysis, frame), row),
        call_ensures(AudioAnalysis::<T>::spectrum_at, (analysis, next), next_row),
    ensures
        row@ + next_row@ == analysis.spectrum@.subrange(
            frame * analysis.bars,
            frame * analysis.bars + 2 * analysis.bars,
        ),
{
    let bars = analysis.bars as int;
    assert(next * bars == frame * bars + bars) by (nonlinear_arith)
        requires
            next == frame + 1,
    ;
    assert(0 <= frame * bars) by (nonlinear_arith)
        requires
            0 <= frame,
            0 < bars,
    ;
    law_frame_shows_its_row(analysis, frame, row);
    law_frame_shows_its_row(analysis, next, next_row);
    assert(row@ + next_row@ =~= analysis.spectrum@.subrange(
        frame * bars,
        frame * bars + 2 * bars,
    ));
}

/// Where the row of a frame starts.
proof fn lemma_row_start(length: int, bars: int, frame: int)
    requires
        0 < bars,
        0 <= frame,
    ensures
        frame * bars + bars <= length ==> row_start(length, bars, frame) == frame * bars && 0
            <= frame * bars,
{
    let frames = length / bars;
    if frame * bars + bars <= length {
        assert(frame < frames && 0 <= frame * bars) by (nonlinear_arith)
            requires
                frames == length / bars,
                frame * bars + bars <= length,
                0 < bars,
                0 <= frame,
        ;
    }
}

/// A frame that was measured has its own loudness and that of the next frame, which
/// that frame has for its own; the last one has its own twice. Frames that were not
/// measured have none.
pub proof fn law_loudness_is_that_of_the_frame<T: Copy>(
    analysis: &AudioAnalysis<T>,
    frame: usize,
    r: Option<(T, T)>,
    next: usize,
    next_r: Option<(T, T)>,
)
    requires
        call_ensures(AudioAnalysis::<T>::energy_at, (analysis, frame), r),
        call_ensures(AudioAnalysis::<T>::energy_at, (analysis, next), next_r),
        next == frame + 1,
    ensures
        r is Some <==> frame < analysis.energy@.len(),
        r matches Some((own, following)) ==> {
            &&& own == analysis.energy@[frame as int]
            &&& next_r matches Some((next_own, _)) ==> following == next_own
            &&& next_r is None ==> following == own
        },
{
}

/// The length of a source is asked for with nothing but the number in the answer; the
/// source comes last.
pub proof fn law_length_of_the_source_is_asked_for(r: Vec<Argument>)
    requires
        call_ensures(duration_arguments, (), r),
    ensures
        ({
            let words = arguments::words_of(r@);
            &&& words.len() == 7
            &&& words[6] == Word::Source
            &&& arguments::behind(words, "-v"@, "error"@)
            &&& arguments::behind(words, "-show_entries"@, "format=duration"@)
            &&& arguments::behind(words, "-of"@, "default=noprint_wrappers=1:nokey=1"@)
        }),
{
    let words = arguments::words_of(r@);
    assert(words[0] == Word::Text("-v"@) && words[1] == Word::Text("error"@));
    assert(words[2] == Word::Text("-show_entries"@) && words[3] == Word::Text("format=duration"@));
    assert(words[4] == Word::Text("-of"@) && words[5] == Word::Text(
        "default=noprint_wrappers=1:nokey=1"@,
    ));
}

/// Whatever is asked for, decoding says nothing but errors and takes the first sound of
/// the source without its pictures.
pub proof fn law_first_sound_is_decoded(sample_rate: u32, limit: Option<&str>, r: Vec<Argument>)
    requires
        call_ensures(decode_arguments, (sample_rate, limit), r),
    ensures
        ({
            let words = arguments::words_of(r@);
            &&& words[0] == Word::Text("-hide_banner"@)
            &&& words[1] == Word::Text("-loglevel"@)
            &&& words[2] == Word::Text("error"@)
            &&& words[5] == Word::Text("-map"@)
            &&& words[6] == Word::Text("0:a:0"@)
            &&& words[7] == Word::Text("-vn"@)
        }),
{
}

} // verus!
