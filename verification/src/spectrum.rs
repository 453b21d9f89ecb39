//! The spectrum of a track, apart from the arithmetic on samples and levels:
//! which samples, bins, bands and bars belong together.
use vstd::prelude::*;
use vstd::slice::slice_subrange;

use crate::number;

verus! {

// ---------------------------------------------------------------------------
// Bands of frequencies
// ---------------------------------------------------------------------------

/// A range of bins or samples, the end not in it.
#[derive(Clone, Copy, Debug, PartialEq, Eq, Structural)]
pub struct IndexRange {
    pub start: usize,
    pub end: usize,
}

/// The bin that a band starts with, the bands before it ending where the given
/// bins say. All bands stay below half the size of the transform.
pub open spec fn band_start(first: int, ends: Seq<usize>, half: int, band: int) -> int
    decreases band, 0int,
{
    if band <= 0 {
        number::held(first, 1, half - 1)
    } else {
        number::held(band_end(first, ends, half, band - 1), 0, half - 1)
    }
}

/// The bin that a band ends before: the given one where the band holds at least
/// one bin and no more than there are.
pub open spec fn band_end(first: int, ends: Seq<usize>, half: int, band: int) -> int
    decreases band, 1int,
{
    number::held(ends[band] as int, band_start(first, ends, half, band) + 1, half)
}

/// Whether ranges are those of the bands.
pub open spec fn bands_placed(
    first: int,
    ends: Seq<usize>,
    half: int,
    ranges: Seq<IndexRange>,
) -> bool {
    &&& ranges.len() == ends.len()
    &&& forall|band: int|
        0 <= band < ranges.len() ==> (#[trigger] ranges[band]).start == band_start(
            first,
            ends,
            half,
            band,
        ) && ranges[band].end == band_end(first, ends, half, band)
}

/// The ranges of the bands, given the bin that the first should start with, the
/// bins that they should end before, and the size of the transform.
pub fn logarithmic_band_ranges(first: usize, ends: &Vec<usize>, fft_size: usize) -> (r: Vec<
    IndexRange,
>)
    requires
        fft_size >= 4,
    ensures
        r@.len() == ends@.len(),
        bands_placed(first as int, ends@, fft_size as int / 2, r@),
{
    let half: usize = fft_size / 2;
    let mut ranges: Vec<IndexRange> = Vec::new();
    let mut start: usize = if first < 1 {
        1
    } else if first > half - 1 {
        half - 1
    } else {
        first
    };
    for band in 0..ends.len()
        invariant
            fft_size >= 4,
            half == fft_size / 2,
            1 <= start <= half - 1,
            start == band_start(first as int, ends@, half as int, band as int),
            ranges@.len() == band,
            forall|k: int|
                0 <= k < band ==> (#[trigger] ranges@[k]).start == band_start(
                    first as int,
                    ends@,
                    half as int,
                    k,
                ) && ranges@[k].end == band_end(first as int, ends@, half as int, k),
    {
        let wanted: usize = ends[band];
        let end: usize = if wanted < start + 1 {
            start + 1
        } else if wanted > half {
            half
        } else {
            wanted
        };
        ranges.push(IndexRange { start, end });
        proof {
            assert(end == band_end(first as int, ends@, half as int, band as int));
        }
        start = if end > half - 1 {
            half - 1
        } else {
            end
        };
    }
    ranges
}

/// Every band holds a bin, never the first one, and stays below half the size
/// of the transform. A band starts where the one before it ends, or at the last
/// bin where that one has reached the end.
pub proof fn law_bands_are_in_place(first: int, ends: Seq<usize>, half: int, band: int)
    requires
        half >= 2,
        0 <= band < ends.len(),
    ensures
        1 <= band_start(first, ends, half, band) < band_end(first, ends, half, band) <= half,
        band > 0 ==> band_start(first, ends, half, band) == band_end(
            first,
            ends,
            half,
            band - 1,
        ) || (band_end(first, ends, half, band - 1) == half && band_start(first, ends, half, band)
            == half - 1),
        band > 0 ==> band_start(first, ends, half, band - 1) <= band_start(
            first,
            ends,
            half,
            band,
        ),
    decreases band,
{
    if band > 0 {
        law_bands_are_in_place(first, ends, half, band - 1);
    }
}

/// Where the wanted bins ascend within bounds, the bands are as wanted.
pub proof fn law_ascending_bands_are_kept(first: int, ends: Seq<usize>, half: int, band: int)
    requires
        1 <= first < half - 1,
        0 <= band < ends.len(),
        first < ends[0] < half,
        forall|i: int, j: int| 0 <= i < j <= band ==> (#[trigger] ends[i]) < (#[trigger] ends[j])
            < half,
    ensures
        band_start(first, ends, half, band) == if band == 0 {
            first
        } else {
            ends[band - 1] as int
        },
        band_end(first, ends, half, band) == ends[band],
    decreases band,
{
    if band > 0 {
        law_ascending_bands_are_kept(first, ends, half, band - 1);
        assert(ends[band - 1] < ends[band]);
    }
}

// ---------------------------------------------------------------------------
// Windows
// ---------------------------------------------------------------------------

/// Which samples go into a transform, and where.
#[derive(Clone, Copy, Debug, PartialEq, Eq, Structural)]
pub struct WindowPlan {
    /// The first sample.
    pub source_start: usize,
    /// The place of the first sample in the window.
    pub window_start: usize,
    /// How many samples there are.
    pub length: usize,
}

/// The sample that a place of a window around a centre is over. It may lie
/// before the first or behind the last sample.
pub open spec fn sample_under(center: usize, fft_size: usize, place: int) -> int {
    center - fft_size as int / 2 + place
}

/// Whether a place of a window is over a sample.
pub open spec fn over_sample(center: usize, fft_size: usize, samples: usize, place: int) -> bool {
    0 <= place < fft_size && 0 <= sample_under(center, fft_size, place) < samples
}

/// Whether a plan takes the samples that a window around a centre is over, each to
/// its place.
pub open spec fn plan_of(center: usize, fft_size: usize, samples: usize, plan: WindowPlan) -> bool {
    &&& plan.length > 0
    &&& plan.source_start == sample_under(center, fft_size, plan.window_start as int)
    &&& plan.source_start + plan.length <= samples
    &&& plan.window_start + plan.length <= fft_size
    &&& forall|place: int| #[trigger]
        over_sample(center, fft_size, samples, place) <==> plan.window_start <= place
            < plan.window_start + plan.length
}

/// Whether a window around a centre is over no sample.
pub open spec fn over_nothing(center: usize, fft_size: usize, samples: usize) -> bool {
    forall|place: int| !#[trigger] over_sample(center, fft_size, samples, place)
}

/// Which samples go into the transform around a centre: those that its window
/// is over, where it is over any.
pub fn window_plan(center: usize, fft_size: usize, samples: usize) -> (r: Option<WindowPlan>)
    ensures
        match r {
            Some(plan) => plan_of(center, fft_size, samples, plan),
            None => over_nothing(center, fft_size, samples),
        },
{
    let half: usize = fft_size / 2;
    let source_start: usize = if center > half {
        center - half
    } else {
        0
    };
    let window_start: usize = if center > half {
        0
    } else {
        half - center
    };
    if source_start < samples && window_start < fft_size {
        let available: usize = samples - source_start;
        let room: usize = fft_size - window_start;
        let length: usize = if available < room {
            available
        } else {
            room
        };
        Some(WindowPlan { source_start, window_start, length })
    } else {
        None
    }
}

// ---------------------------------------------------------------------------
// Transforms
// ---------------------------------------------------------------------------
/// Whether a place of a window holds the weighed sample that it is over, or
/// nothing where it is over none.
pub open spec fn weighed<T, W: Fn(T, usize) -> T>(
    weigh: W,
    samples: Seq<T>,
    zero: T,
    center: usize,
    buffer: Seq<T>,
    place: int,
) -> bool {
    let fft_size = buffer.len() as usize;
    if over_sample(center, fft_size, samples.len() as usize, place) {
        call_ensures(
            weigh,
            (samples[sample_under(center, fft_size, place)], place as usize),
            buffer[place],
        )
    } else {
        buffer[place] == zero
    }
}

/// Whether every place of a window holds the weighed sample that it is over, or
/// nothing where it is over none.
pub open spec fn each_weighed<T, W: Fn(T, usize) -> T>(
    weigh: W,
    samples: Seq<T>,
    zero: T,
    center: usize,
    buffer: Seq<T>,
) -> bool {
    forall|place: int|
        0 <= place < buffer.len() ==> #[trigger] weighed(
            weigh,
            samples,
            zero,
            center,
            buffer,
            place,
        )
}

/// The window around a centre: the samples that it is over, each weighed by its
/// place.
pub fn windowed<T: Copy, W: Fn(T, usize) -> T>(
    samples: &Vec<T>,
    center: usize,
    fft_size: usize,
    zero: T,
    weigh: &W,
) -> (r: Vec<T>)
    requires
        forall|sample: T, place: usize|
            place < fft_size ==> #[trigger] call_requires(*weigh, (sample, place)),
    ensures
        r@.len() == fft_size,
        each_weighed(*weigh, samples@, zero, center, r@),
{
    let count: usize = samples.len();
    let plan = match window_plan(center, fft_size, count) {
        Some(plan) => plan,
        None => WindowPlan { source_start: 0, window_start: 0, length: 0 },
    };
    let mut buffer: Vec<T> = Vec::new();
    for place in 0..fft_size
        invariant
            forall|sample: T, place: usize|
                place < fft_size ==> #[trigger] call_requires(*weigh, (sample, place)),
            count == samples@.len(),
            buffer@.len() == place,
            plan.length > 0 ==> {
                &&& plan.source_start == sample_under(center, fft_size, plan.window_start as int)
                &&& plan.source_start + plan.length <= count
            },
            forall|k: int| #[trigger]
                over_sample(center, fft_size, count, k) <==> plan.length > 0 && plan.window_start
                    <= k < plan.window_start + plan.length,
            forall|k: int|
                0 <= k < place ==> if over_sample(center, fft_size, count, k) {
                    call_ensures(
                        *weigh,
                        (samples@[sample_under(center, fft_size, k)], k as usize),
                        #[trigger] buffer@[k],
                    )
                } else {
                    buffer@[k] == zero
                },
    {
        if place >= plan.window_start && place - plan.window_start < plan.length {
            proof {
                assert(over_sample(center, fft_size, count, place as int));
            }
            let sample: T = samples[plan.source_start + (place - plan.window_start)];
            buffer.push(weigh(sample, place));
        } else {
            proof {
                assert(!over_sample(center, fft_size, count, place as int));
            }
            buffer.push(zero);
        }
    }
    proof {
        assert forall|place: int| 0 <= place < fft_size implies #[trigger] weighed(
            *weigh,
            samples@,
            zero,
            center,
            buffer@,
            place,
        ) by {
            assert(buffer@[place] == buffer@[place]);
        }
    }
    buffer
}

/// Whether the level of a band around a centre is what `measure` gives for the
/// bins of the band, which `transform` gives for the window around the centre.
pub open spec fn measured<
    T,
    B,
    W: Fn(T, usize) -> T,
    X: Fn(Vec<T>) -> Vec<B>,
    M: Fn(usize, &[B]) -> T,
>(
    weigh: W,
    transform: X,
    measure: M,
    samples: Seq<T>,
    zero: T,
    center: usize,
    fft_size: usize,
    band: int,
    range: IndexRange,
    level: T,
) -> bool {
    exists|buffer: Vec<T>, bins: Vec<B>, part: &[B]|
        {
            &&& buffer@.len() == fft_size
            &&& each_weighed(weigh, samples, zero, center, buffer@)
            &&& #[trigger] call_ensures(transform, (buffer,), bins)
            &&& part@ == bins@.subrange(range.start as int, range.end as int)
            &&& #[trigger] call_ensures(measure, (band as usize, part), level)
        }
}

/// Whether every level of the rows of bands is that of its band around its centre.
pub open spec fn each_measured<
    T,
    B,
    W: Fn(T, usize) -> T,
    X: Fn(Vec<T>) -> Vec<B>,
    M: Fn(usize, &[B]) -> T,
>(
    weigh: W,
    transform: X,
    measure: M,
    samples: Seq<T>,
    zero: T,
    centers: Seq<usize>,
    fft_size: usize,
    ranges: Seq<IndexRange>,
    levels: Seq<T>,
) -> bool {
    forall|frame: int, band: int|
        0 <= frame < centers.len() && 0 <= band < ranges.len() ==> #[trigger] measured(
            weigh,
            transform,
            measure,
            samples,
            zero,
            centers[frame],
            fft_size,
            band,
            ranges[band],
            levels[frame * ranges.len() + band],
        )
}

/// The levels of the bands around each centre, one row of bands for each.
pub fn frequency_bands<
    T: Copy,
    B,
    W: Fn(T, usize) -> T,
    X: Fn(Vec<T>) -> Vec<B>,
    M: Fn(usize, &[B]) -> T,
>(
    samples: &Vec<T>,
    centers: &Vec<usize>,
    fft_size: usize,
    ranges: &Vec<IndexRange>,
    zero: T,
    weigh: W,
    transform: X,
    measure: M,
) -> (r: Vec<T>)
    requires
        forall|sample: T, place: usize|
            place < fft_size ==> #[trigger] call_requires(weigh, (sample, place)),
        forall|buffer: Vec<T>|
            buffer@.len() == fft_size ==> #[trigger] call_requires(transform, (buffer,)),
        forall|buffer: Vec<T>, bins: Vec<B>| #[trigger]
            call_ensures(transform, (buffer,), bins) ==> bins@.len() == fft_size,
        forall|band: usize, part: &[B]|
            band < ranges@.len() ==> #[trigger] call_requires(measure, (band, part)),
        forall|band: int|
            0 <= band < ranges@.len() ==> (#[trigger] ranges@[band]).start <= ranges@[band].end
                <= fft_size,
    ensures
        r@.len() == centers@.len() * ranges@.len(),
        each_measured(
            weigh,
            transform,
            measure,
            samples@,
            zero,
            centers@,
            fft_size,
            ranges@,
            r@,
        ),
{
    let mut bands: Vec<T> = Vec::new();
    let ghost n = ranges@.len() as int;
    proof {
        assert(0 * n == 0) by (nonlinear_arith);
    }
    for frame in 0..centers.len()
        invariant
            n == ranges@.len(),
            forall|sample: T, place: usize|
                place < fft_size ==> #[trigger] call_requires(weigh, (sample, place)),
            forall|buffer: Vec<T>|
                buffer@.len() == fft_size ==> #[trigger] call_requires(transform, (buffer,)),
            forall|buffer: Vec<T>, bins: Vec<B>| #[trigger]
                call_ensures(transform, (buffer,), bins) ==> bins@.len() == fft_size,
            forall|band: usize, part: &[B]|
                band < ranges@.len() ==> #[trigger] call_requires(measure, (band, part)),
            forall|band: int|
                0 <= band < ranges@.len() ==> (#[trigger] ranges@[band]).start <= ranges@[band].end
                    <= fft_size,
            bands@.len() == frame * n,
            forall|f: int, band: int|
                0 <= f < frame && 0 <= band < n ==> #[trigger] measured(
                    weigh,
                    transform,
                    measure,
                    samples@,
                    zero,
                    centers@[f],
                    fft_size,
                    band,
                    ranges@[band],
                    bands@[f * n + band],
                ),
    {
        let ghost rows = bands@;
        let buffer = windowed(samples, centers[frame], fft_size, zero, &weigh);
        let ghost window = buffer;
        let bins = transform(buffer);
        for band in 0..ranges.len()
            invariant
                n == ranges@.len(),
                frame < centers@.len(),
                bins@.len() == fft_size,
                window@.len() == fft_size,
                forall|place: int|
                    0 <= place < fft_size ==> #[trigger] weighed(
                        weigh,
                        samples@,
                        zero,
                        centers@[frame as int],
                        window@,
                        place,
                    ),
                call_ensures(transform, (window,), bins),
                forall|band: usize, part: &[B]|
                    band < ranges@.len() ==> #[trigger] call_requires(measure, (band, part)),
                forall|band: int|
                    0 <= band < ranges@.len() ==> (#[trigger] ranges@[band]).start
                        <= ranges@[band].end <= fft_size,
                rows.len() == frame * n,
                bands@.len() == frame * n + band,
                forall|i: int| 0 <= i < rows.len() ==> #[trigger] bands@[i] == rows[i],
                forall|k: int|
                    0 <= k < band ==> #[trigger] measured(
                        weigh,
                        transform,
                        measure,
                        samples@,
                        zero,
                        centers@[frame as int],
                        fft_size,
                        k,
                        ranges@[k],
                        bands@[frame * n + k],
                    ),
        {
            let part = slice_subrange(bins.as_slice(), ranges[band].start, ranges[band].end);
            let level: T = measure(band, part);
            let ghost before = bands@;
            bands.push(level);
            proof {
                assert(measured(
                    weigh,
                    transform,
                    measure,
                    samples@,
                    zero,
                    centers@[frame as int],
                    fft_size,
                    band as int,
                    ranges@[band as int],
                    level,
                ));
                assert forall|k: int| 0 <= k < band + 1 implies #[trigger] measured(
                    weigh,
                    transform,
                    measure,
                    samples@,
                    zero,
                    centers@[frame as int],
                    fft_size,
                    k,
                    ranges@[k],
                    bands@[frame * n + k],
                ) by {
                    if k < band {
                        assert(bands@[frame * n + k] == before[frame * n + k]);
                    }
                }
            }
        }
        proof {
            assert(frame * n + n == (frame + 1) * n) by (nonlinear_arith);
            assert forall|f: int, band: int|
                0 <= f < frame + 1 && 0 <= band < n implies #[trigger] measured(
                weigh,
                transform,
                measure,
                samples@,
                zero,
                centers@[f],
                fft_size,
                band,
                ranges@[band],
                bands@[f * n + band],
            ) by {
                if f < frame {
                    lemma_rows_apart(f, frame as int, n);
                    assert(bands@[f * n + band] == rows[f * n + band]);
                }
            }
        }
    }
    bands
}

// ---------------------------------------------------------------------------
// Levels
// ---------------------------------------------------------------------------

/// A band's neighbour on the left, or the band itself where it is the first.
pub open spec fn left_of(band: int) -> int {
    if band > 0 {
        band - 1
    } else {
        0
    }
}

/// A band's neighbour on the right, or the band itself where it is the last.
pub open spec fn right_of(band: int, band_count: int) -> int {
    if band + 1 < band_count {
        band + 1
    } else {
        band_count - 1
    }
}

/// Where the level of a band stands in the row of a frame, on the right half.
pub open spec fn level_place(frame: int, band: int, band_count: int, bars: int) -> int {
    frame * bars + band_count + band
}

/// Where the level of a band stands in the row of a frame, on the left half.
pub open spec fn mirror_place(frame: int, band: int, band_count: int, bars: int) -> int {
    frame * bars + band_count - 1 - band
}

/// The level that a band had in the frame before.
pub open spec fn level_before<T>(
    output: Seq<T>,
    zero: T,
    frame: int,
    band: int,
    band_count: int,
    bars: int,
) -> T {
    if frame == 0 {
        zero
    } else {
        output[level_place(frame - 1, band, band_count, bars)]
    }
}

/// Whether the level of a band in a frame is what `level` gives for the frame,
/// the level before, and the band's input between those of its neighbours; and
/// whether it stands in both halves of the row.
pub open spec fn smoothed<T, F: Fn(usize, T, T, T, T) -> T>(
    level: F,
    input: Seq<T>,
    output: Seq<T>,
    zero: T,
    frame: int,
    band: int,
    band_count: int,
    bars: int,
) -> bool {
    let first = frame * band_count;
    let here = output[level_place(frame, band, band_count, bars)];
    &&& call_ensures(
        level,
        (
            frame as usize,
            level_before(output, zero, frame, band, band_count, bars),
            input[first + left_of(band)],
            input[first + band],
            input[first + right_of(band, band_count)],
        ),
        here,
    )
    &&& output[mirror_place(frame, band, band_count, bars)] == here
}

/// Whether a bar that shows no band is empty.
pub open spec fn spare_bar_empty<T>(
    output: Seq<T>,
    zero: T,
    frame: int,
    bar: int,
    bars: int,
) -> bool {
    output[frame * bars + bar] == zero
}

/// Whether the levels of all bands in all frames are smoothed and mirrored.
pub open spec fn each_smoothed<T, F: Fn(usize, T, T, T, T) -> T>(
    level: F,
    input: Seq<T>,
    output: Seq<T>,
    zero: T,
    frame_count: int,
    band_count: int,
    bars: int,
) -> bool {
    forall|frame: int, band: int|
        0 <= frame < frame_count && 0 <= band < band_count ==> #[trigger] smoothed(
            level,
            input,
            output,
            zero,
            frame,
            band,
            band_count,
            bars,
        )
}

/// Whether the bars that show no band are empty in all frames.
pub open spec fn spare_bars_empty<T>(
    output: Seq<T>,
    zero: T,
    frame_count: int,
    band_count: int,
    bars: int,
) -> bool {
    forall|frame: int, bar: int|
        0 <= frame < frame_count && 2 * band_count <= bar < bars ==> #[trigger] spare_bar_empty(
            output,
            zero,
            frame,
            bar,
            bars,
        )
}

/// The row of a frame: the levels from the last band to the first, then from the
/// first to the last.
spec fn row<T>(levels: Seq<T>, bars: int, zero: T) -> Seq<T> {
    Seq::new(
        bars as nat,
        |i: int|
            if i < levels.len() {
                levels[levels.len() - 1 - i]
            } else if i < 2 * levels.len() {
                levels[i - levels.len()]
            } else {
                zero
            },
    )
}

/// Adds the row of a frame.
fn add_row<T: Copy>(output: &mut Vec<T>, levels: &Vec<T>, bars: usize, zero: T)
    requires
        2 * levels@.len() <= bars,
    ensures
        final(output)@ == old(output)@ + row(levels@, bars as int, zero),
{
    let ghost before = output@;
    let ghost wanted = row(levels@, bars as int, zero);
    let count: usize = levels.len();
    proof {
        assert(before =~= before + wanted.take(0));
    }
    for i in 0..bars
        invariant
            count == levels@.len(),
            2 * count <= bars,
            wanted == row(levels@, bars as int, zero),
            output@ == before + wanted.take(i as int),
    {
        let value: T = if i < count {
            levels[count - 1 - i]
        } else if i < 2 * count {
            levels[i - count]
        } else {
            zero
        };
        output.push(value);
        proof {
            assert(wanted[i as int] == value);
            assert(output@ =~= before + wanted.take(i + 1));
        }
    }
    proof {
        assert(wanted.take(bars as int) =~= wanted);
    }
}

/// Rows that end before a frame lie before its row.
proof fn lemma_rows_apart(earlier: int, frame: int, bars: int)
    requires
        0 <= earlier < frame,
        0 <= bars,
    ensures
        0 <= earlier * bars,
        earlier * bars + bars <= frame * bars,
{
    assert(0 <= earlier * bars) by (nonlinear_arith)
        requires
            0 <= earlier,
            0 <= bars,
    ;
    assert(earlier * bars + bars <= frame * bars) by (nonlinear_arith)
        requires
            earlier + 1 <= frame,
            0 <= bars,
    ;
}

/// The levels of all bands in all frames, one row of bars for each frame. The
/// level of a band is what `level` gives for the frame, the level before, and the
/// band's input between those of its neighbours; it stands in both halves of the
/// row, so that the row is symmetric.
pub fn smooth_and_mirror_spectrum<T: Copy, F: Fn(usize, T, T, T, T) -> T>(
    input: &Vec<T>,
    frame_count: usize,
    band_count: usize,
    bars: usize,
    zero: T,
    level: F,
) -> (r: Vec<T>)
    requires
        frame_count * band_count <= input@.len(),
        2 * band_count <= bars,
        forall|frame: usize, previous: T, left: T, here: T, right: T|
            frame < frame_count ==> #[trigger] call_requires(
                level,
                (frame, previous, left, here, right),
            ),
    ensures
        r@.len() == frame_count * bars,
        each_smoothed(
            level,
            input@,
            r@,
            zero,
            frame_count as int,
            band_count as int,
            bars as int,
        ),
        spare_bars_empty(r@, zero, frame_count as int, band_count as int, bars as int),
{
    let ghost n = band_count as int;
    let ghost m = bars as int;
    let length: usize = input.len();
    let mut output: Vec<T> = Vec::new();
    let mut levels: Vec<T> = Vec::new();
    for band in 0..band_count
        invariant
            levels@.len() == band,
            forall|k: int| 0 <= k < band ==> #[trigger] levels@[k] == zero,
    {
        levels.push(zero);
    }
    proof {
        assert(0 * m == 0) by (nonlinear_arith);
    }
    for frame in 0..frame_count
        invariant
            n == band_count,
            m == bars,
            length == input@.len(),
            frame_count * band_count <= length,
            2 * band_count <= bars,
            forall|frame: usize, previous: T, left: T, here: T, right: T|
                frame < frame_count ==> #[trigger] call_requires(
                    level,
                    (frame, previous, left, here, right),
                ),
            levels@.len() == n,
            output@.len() == frame * m,
            forall|band: int|
                0 <= band < n ==> #[trigger] levels@[band] == level_before(
                    output@,
                    zero,
                    frame as int,
                    band,
                    n,
                    m,
                ),
            forall|f: int, band: int|
                0 <= f < frame && 0 <= band < n ==> #[trigger] smoothed(
                    level,
                    input@,
                    output@,
                    zero,
                    f,
                    band,
                    n,
                    m,
                ),
            forall|f: int, bar: int|
                0 <= f < frame && 2 * n <= bar < m ==> #[trigger] spare_bar_empty(
                    output@,
                    zero,
                    f,
                    bar,
                    m,
                ),
    {
        let ghost before = levels@;
        let ghost rows = output@;
        proof {
            lemma_rows_apart(frame as int, frame_count as int, n);
        }
        let first: usize = frame * band_count;
        for band in 0..band_count
            invariant
                n == band_count,
                frame < frame_count,
                length == input@.len(),
                first == frame * band_count,
                first + band_count <= length,
                forall|frame: usize, previous: T, left: T, here: T, right: T|
                    frame < frame_count ==> #[trigger] call_requires(
                        level,
                        (frame, previous, left, here, right),
                    ),
                before.len() == n,
                levels@.len() == n,
                forall|k: int| band <= k < n ==> #[trigger] levels@[k] == before[k],
                forall|k: int|
                    0 <= k < band ==> call_ensures(
                        level,
                        (
                            frame,
                            before[k],
                            input@[first + left_of(k)],
                            input@[first + k],
                            input@[first + right_of(k, n)],
                        ),
                        #[trigger] levels@[k],
                    ),
        {
            let left: usize = if band > 0 {
                band - 1
            } else {
                0
            };
            let right: usize = if band + 1 < band_count {
                band + 1
            } else {
                band_count - 1
            };
            let value: T = level(
                frame,
                levels[band],
                input[first + left],
                input[first + band],
                input[first + right],
            );
            levels.set(band, value);
        }
        add_row(&mut output, &levels, bars, zero);
        proof {
            assert(frame * m + m == (frame + 1) * m) by (nonlinear_arith);
            assert(0 <= frame * m) by (nonlinear_arith)
                requires
                    0 <= m,
            ;
            lemma_row_added(rows, output@, levels@, zero, frame as int, m);
            assert forall|f: int, band: int|
                0 <= f < frame + 1 && 0 <= band < n implies #[trigger] smoothed(
                level,
                input@,
                output@,
                zero,
                f,
                band,
                n,
                m,
            ) by {
                if f < frame {
                    assert(smoothed(level, input@, rows, zero, f, band, n, m));
                    lemma_rows_apart(f, frame as int, m);
                    if f > 0 {
                        lemma_rows_apart(f - 1, frame as int, m);
                    }
                } else {
                    if frame > 0 {
                        lemma_rows_apart(frame - 1, frame as int, m);
                    }
                    assert(before[band] == level_before(rows, zero, frame as int, band, n, m));
                    assert(output@[frame * m + (n + band)] == row(levels@, m, zero)[n + band]);
                    assert(output@[frame * m + (n - 1 - band)] == row(levels@, m, zero)[n - 1
                        - band]);
                }
            }
            assert forall|f: int, bar: int|
                0 <= f < frame + 1 && 2 * n <= bar < m implies #[trigger] spare_bar_empty(
                output@,
                zero,
                f,
                bar,
                m,
            ) by {
                if f < frame {
                    assert(spare_bar_empty(rows, zero, f, bar, m));
                    lemma_rows_apart(f, frame as int, m);
                } else {
                    assert(output@[frame * m + bar] == row(levels@, m, zero)[bar]);
                }
            }
            assert forall|band: int| 0 <= band < n implies #[trigger] levels@[band]
                == level_before(output@, zero, frame + 1, band, n, m) by {
                assert(output@[frame * m + (n + band)] == row(levels@, m, zero)[n + band]);
            }
        }
    }
    output
}

/// A row that was added stands behind the others.
proof fn lemma_row_added<T>(
    rows: Seq<T>,
    output: Seq<T>,
    levels: Seq<T>,
    zero: T,
    frame: int,
    bars: int,
)
    requires
        rows.len() == frame * bars,
        0 <= bars,
        output == rows + row(levels, bars, zero),
    ensures
        forall|i: int| 0 <= i < rows.len() ==> #[trigger] output[i] == rows[i],
        forall|i: int|
            0 <= i < bars ==> #[trigger] output[frame * bars + i] == row(levels, bars, zero)[i],
{
}

/// Every row is symmetric: the bars of both halves stand at the same levels,
/// counted from the middle.
pub proof fn law_rows_are_symmetric<T, F: Fn(usize, T, T, T, T) -> T>(
    level: F,
    input: Seq<T>,
    output: Seq<T>,
    zero: T,
    frame: int,
    band_count: int,
    bar: int,
)
    requires
        0 <= bar < band_count,
        forall|band: int|
            0 <= band < band_count ==> #[trigger] smoothed(
                level,
                input,
                output,
                zero,
                frame,
                band,
                band_count,
                2 * band_count,
            ),
    ensures
        output[frame * (2 * band_count) + bar] == output[frame * (2 * band_count) + (2 * band_count
            - 1 - bar)],
{
    assert(smoothed(
        level,
        input,
        output,
        zero,
        frame,
        band_count - 1 - bar,
        band_count,
        2 * band_count,
    ));
}

// ---------------------------------------------------------------------------
// Laws of places
// ---------------------------------------------------------------------------

/// The first band starts with the wanted bin, or the nearest from the second to the
/// last; any other starts where the one before it ends, or with the last bin where that
/// is the end of all. A band ends where it should, or as near to that as lets it hold a
/// bin and stay within half the size of the transform.
pub proof fn law_bands_end_where_they_should(
    first: usize,
    ends: &Vec<usize>,
    fft_size: usize,
    r: Vec<IndexRange>,
    half: int,
    band: int,
)
    requires
        fft_size == 2 * half || fft_size == 2 * half + 1,
        half >= 2,
        call_ensures(logarithmic_band_ranges, (first, ends, fft_size), r),
        0 <= band < ends@.len(),
    ensures
        r@.len() == ends@.len(),
        band == 0 ==> {
            &&& first == 0 ==> r@[band].start == 1
            &&& 1 <= first <= half - 1 ==> r@[band].start == first
            &&& first >= half ==> r@[band].start == half - 1
        },
        band > 0 ==> {
            &&& r@[band - 1].end < half ==> r@[band].start == r@[band - 1].end
            &&& r@[band - 1].end >= half ==> r@[band].start == half - 1
        },
        r@[band].start < r@[band].end <= half,
        r@[band].start < ends@[band] <= half ==> r@[band].end == ends@[band],
        ends@[band] <= r@[band].start ==> r@[band].end == r@[band].start + 1,
        ends@[band] > half ==> r@[band].end == half,
{
    assert(fft_size as int / 2 == half);
    law_bands_are_in_place(first as int, ends@, half, band);
    if band > 0 {
        law_bands_are_in_place(first as int, ends@, half, band - 1);
        assert(r@[band - 1].end == band_end(first as int, ends@, half, band - 1));
    }
}

/// The middle of a window is over its centre: of a place and a sample that are as far
/// from these, the plan takes the sample to the place, where there is such a place and
/// such a sample, and nothing else.
pub proof fn law_window_is_over_its_centre(
    center: usize,
    fft_size: usize,
    samples: usize,
    r: Option<WindowPlan>,
    half: int,
    place: int,
    sample: int,
)
    requires
        fft_size == 2 * half || fft_size == 2 * half + 1,
        sample - center == place - half,
        call_ensures(window_plan, (center, fft_size, samples), r),
    ensures
        0 <= place < fft_size && 0 <= sample < samples ==> r is Some && r->0.window_start <= place
            < r->0.window_start + r->0.length && sample == r->0.source_start + (place
            - r->0.window_start),
        !(0 <= place < fft_size && 0 <= sample < samples) ==> r is None || !(r->0.window_start
            <= place < r->0.window_start + r->0.length),
{
    assert(fft_size as int / 2 == half);
    assert(sample == sample_under(center, fft_size, place));
    assert(over_sample(center, fft_size, samples, place) <==> 0 <= place < fft_size && 0 <= sample
        < samples);
}

/// The place of a window that is as far from its middle as a sample from the centre
/// holds that sample, weighed by the place, or nothing where there is no such sample.
pub proof fn law_window_holds_the_samples_around_its_centre<T: Copy, W: Fn(T, usize) -> T>(
    samples: &Vec<T>,
    center: usize,
    fft_size: usize,
    zero: T,
    weigh: &W,
    r: Vec<T>,
    half: int,
    place: usize,
    sample: int,
)
    requires
        fft_size == 2 * half || fft_size == 2 * half + 1,
        sample - center == place - half,
        place < fft_size,
        call_ensures(windowed::<T, W>, (samples, center, fft_size, zero, weigh), r),
    ensures
        r@.len() == fft_size,
        0 <= sample < samples@.len() ==> call_ensures(
            *weigh,
            (samples@[sample], place),
            r@[place as int],
        ),
        !(0 <= sample < samples@.len()) ==> r@[place as int] == zero,
{
    assert(fft_size as int / 2 == half);
    assert(samples.len() == samples@.len());
    assert(each_weighed(*weigh, samples@, zero, center, r@));
    assert(weighed(*weigh, samples@, zero, center, r@, place as int));
}

/// Whether a window holds the weighed samples around a centre.
pub open spec fn holds_around<T, W: Fn(T, usize) -> T>(
    weigh: W,
    samples: Seq<T>,
    zero: T,
    center: int,
    half: int,
    window: Seq<T>,
) -> bool {
    forall|place: usize|
        place < window.len() ==> if 0 <= center - half + place < samples.len() {
            call_ensures(
                weigh,
                (samples[center - half + place], place),
                #[trigger] window[place as int],
            )
        } else {
            window[place as int] == zero
        }
}

/// The level of a band in a frame is measured over the bins of that band alone, which
/// the transform gives for the samples around the centre of that frame.
pub proof fn law_band_is_measured_in_its_frame<
    T: Copy,
    B,
    W: Fn(T, usize) -> T,
    X: Fn(Vec<T>) -> Vec<B>,
    M: Fn(usize, &[B]) -> T,
>(
    samples: &Vec<T>,
    centers: &Vec<usize>,
    fft_size: usize,
    ranges: &Vec<IndexRange>,
    zero: T,
    weigh: W,
    transform: X,
    measure: M,
    r: Vec<T>,
    half: int,
    frame: int,
    band: usize,
)
    requires
        fft_size == 2 * half || fft_size == 2 * half + 1,
        0 <= frame < centers@.len(),
        band < ranges@.len(),
        call_ensures(
            frequency_bands::<T, B, W, X, M>,
            (samples, centers, fft_size, ranges, zero, weigh, transform, measure),
            r,
        ),
    ensures
        r@.len() == centers@.len() * ranges@.len(),
        exists|window: Vec<T>, bins: Vec<B>, part: &[B]|
            {
                &&& window@.len() == fft_size
                &&& holds_around(
                    weigh,
                    samples@,
                    zero,
                    centers@[frame] as int,
                    half,
                    window@,
                )
                &&& #[trigger] call_ensures(transform, (window,), bins)
                &&& part@ == bins@.subrange(
                    ranges@[band as int].start as int,
                    ranges@[band as int].end as int,
                )
                &&& #[trigger] call_ensures(
                    measure,
                    (band, part),
                    r@[frame * ranges@.len() + band],
                )
            },
{
    let (center, range) = (centers@[frame], ranges@[band as int]);
    let level = r@[frame * ranges@.len() + band];
    assert(fft_size as int / 2 == half);
    assert(samples.len() == samples@.len());
    assert(each_measured(
        weigh,
        transform,
        measure,
        samples@,
        zero,
        centers@,
        fft_size,
        ranges@,
        r@,
    ));
    assert(measured(
        weigh,
        transform,
        measure,
        samples@,
        zero,
        center,
        fft_size,
        band as int,
        range,
        level,
    ));
    let (window, bins, part) = choose|buffer: Vec<T>, bins: Vec<B>, part: &[B]|
        {
            &&& buffer@.len() == fft_size
            &&& each_weighed(weigh, samples@, zero, center, buffer@)
            &&& #[trigger] call_ensures(transform, (buffer,), bins)
            &&& part@ == bins@.subrange(range.start as int, range.end as int)
            &&& #[trigger] call_ensures(measure, ((band as int) as usize, part), level)
        };
    assert forall|place: usize| place < window@.len() implies if 0 <= center - half + place
        < samples@.len() {
        call_ensures(
            weigh,
            (samples@[center - half + place], place),
            #[trigger] window@[place as int],
        )
    } else {
        window@[place as int] == zero
    } by {
        assert(weighed(weigh, samples@, zero, center, window@, place as int));
    }
    assert(holds_around(weigh, samples@, zero, center as int, half, window@));
    assert(call_ensures(measure, (band, part), level));
}

/// The level of a band in a frame is made of the level that the band had in the frame
/// before, of its own input in that frame and of those of the bands beside it. The
/// first and the last band stand for the neighbour that they lack. It stands as far to
/// the right of the middle as to the left, and the bars that are left over are empty.
pub proof fn law_level_follows_from_its_neighbours<T: Copy, F: Fn(usize, T, T, T, T) -> T>(
    input: &Vec<T>,
    frame_count: usize,
    band_count: usize,
    bars: usize,
    zero: T,
    level: F,
    r: Vec<T>,
    frame: usize,
    band: int,
    left: int,
    right: int,
    before: T,
)
    requires
        call_ensures(
            smooth_and_mirror_spectrum::<T, F>,
            (input, frame_count, band_count, bars, zero, level),
            r,
        ),
        frame < frame_count,
        0 <= band < band_count,
        left == band - 1 || left == 0 && band == 0,
        left >= 0,
        right == band + 1 || right == band && band == band_count - 1,
        right < band_count,
        frame == 0 ==> before == zero,
        frame > 0 ==> before == r@[(frame - 1) * bars + band_count + band],
    ensures
        r@.len() == frame_count * bars,
        call_ensures(
            level,
            (
                frame,
                before,
                input@[frame * band_count + left],
                input@[frame * band_count + band],
                input@[frame * band_count + right],
            ),
            r@[frame * bars + band_count + band],
        ),
        r@[frame * bars + band_count - 1 - band] == r@[frame * bars + band_count + band],
        forall|bar: int|
            2 * band_count <= bar < bars ==> #[trigger] r@[frame * bars + bar] == zero,
{
    assert(each_smoothed(
        level,
        input@,
        r@,
        zero,
        frame_count as int,
        band_count as int,
        bars as int,
    ));
    assert(smoothed(
        level,
        input@,
        r@,
        zero,
        frame as int,
        band,
        band_count as int,
        bars as int,
    ));
    assert(spare_bars_empty(r@, zero, frame_count as int, band_count as int, bars as int));
    assert forall|bar: int| 2 * band_count <= bar < bars implies #[trigger] r@[frame * bars + bar]
        == zero by {
        assert(spare_bar_empty(r@, zero, frame as int, bar, bars as int));
    }
}

} // verus!
