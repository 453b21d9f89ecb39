//! The loudness of a track, apart from the arithmetic on samples: which samples
//! are averaged, and which of many levels has a given rank.
use vstd::prelude::*;

use crate::number;
use crate::spectrum::IndexRange;

verus! {

// ---------------------------------------------------------------------------
// Rolling windows
// ---------------------------------------------------------------------------
/// The samples from which the loudness of a frame is taken.
#[derive(Clone, Copy, Debug, PartialEq, Eq, Structural)]
pub struct RollingWindow {
    /// The first sample.
    pub start: usize,
    /// The sample behind the last.
    pub end: usize,
}

/// How a rolling window goes on.
#[derive(Clone, Copy, Debug, PartialEq, Eq, Structural)]
pub struct RollingStep {
    /// The samples that are added.
    pub added: IndexRange,
    /// The samples that are dropped.
    pub dropped: IndexRange,
    /// How many samples are averaged, at least one.
    pub length: usize,
}

/// The first sample that is at most `half` before a centre.
pub open spec fn window_start(center: usize, half: usize, samples: usize) -> int {
    number::held(center - half, 0, samples as int)
}

/// The sample behind the last that is less than `half` behind a centre.
pub open spec fn window_end(center: usize, half: usize, samples: usize) -> int {
    number::held(center + half, 0, samples as int)
}

impl RollingWindow {
    /// A window before any sample.
    pub fn new() -> (r: RollingWindow)
        ensures
            r == (RollingWindow { start: 0, end: 0 }),
    {
        RollingWindow { start: 0, end: 0 }
    }

    /// Moves the window on to a centre. It never moves back.
    pub fn advance(&mut self, center: usize, half: usize, samples: usize) -> (r: RollingStep)
        ensures
            ({
                let start = window_start(center, half, samples);
                let end = window_end(center, half, samples);
                &&& final(self).start == if start > old(self).start {
                    start
                } else {
                    old(self).start as int
                }
                &&& final(self).end == if end > old(self).end {
                    end
                } else {
                    old(self).end as int
                }
                &&& r.added == (IndexRange { start: old(self).end, end: final(self).end })
                &&& r.dropped == (IndexRange { start: old(self).start, end: final(self).start })
                &&& r.length == if end > start {
                    end - start
                } else {
                    1
                }
            }),
    {
        let before: usize = if center > half {
            center - half
        } else {
            0
        };
        let start: usize = if before < samples {
            before
        } else {
            samples
        };
        let end: usize = if center < samples && half < samples - center {
            center + half
        } else {
            samples
        };
        let old_start: usize = self.start;
        let old_end: usize = self.end;
        if end > self.end {
            self.end = end;
        }
        if start > self.start {
            self.start = start;
        }
        RollingStep {
            added: IndexRange { start: old_end, end: self.end },
            dropped: IndexRange { start: old_start, end: self.start },
            length: if end > start {
                end - start
            } else {
                1
            },
        }
    }
}

/// A window after centres.
pub open spec fn rolled(centers: Seq<usize>, half: usize, samples: usize) -> (int, int)
    decreases centers.len(),
{
    if centers.len() == 0 {
        (0, 0)
    } else {
        let before = rolled(centers.drop_last(), half, samples);
        let start = window_start(centers.last(), half, samples);
        let end = window_end(centers.last(), half, samples);
        (
            if start > before.0 {
                start
            } else {
                before.0
            },
            if end > before.1 {
                end
            } else {
                before.1
            },
        )
    }
}

/// Over centres that do not go back, the window is after each the one around
/// that centre: what has been added and not dropped are exactly the samples
/// around it.
pub proof fn law_window_is_around_its_centre(centers: Seq<usize>, half: usize, samples: usize)
    requires
        centers.len() > 0,
        forall|i: int, j: int| 0 <= i < j < centers.len() ==> centers[i] <= centers[j],
    ensures
        rolled(centers, half, samples) == (
            window_start(centers.last(), half, samples),
            window_end(centers.last(), half, samples),
        ),
        window_start(centers.last(), half, samples) <= window_end(centers.last(), half, samples),
    decreases centers.len(),
{
    let earlier = centers.drop_last();
    if earlier.len() > 0 {
        assert forall|i: int, j: int| 0 <= i < j < earlier.len() implies earlier[i]
            <= earlier[j] by {
            assert(centers[i] <= centers[j]);
        }
        law_window_is_around_its_centre(earlier, half, samples);
        assert(centers[earlier.len() - 1] <= centers[earlier.len() as int]);
    } else {
        assert(rolled(earlier, half, samples) == (0int, 0int));
    }
}

/// Whether a sum can become another when the samples of a range are worked into
/// it one by one.
pub open spec fn gathered<T, S, A: Fn(S, T) -> S>(
    work: A,
    samples: Seq<T>,
    start: int,
    end: int,
    before: S,
    after: S,
) -> bool
    decreases end - start,
{
    if end <= start {
        before == after
    } else {
        exists|sum: S|
            gathered(work, samples, start, end - 1, before, sum) && #[trigger] call_ensures(
                work,
                (sum, samples[end - 1]),
                after,
            )
    }
}

/// Whether a sum can be the one over the window after centres: from each centre
/// to the next the samples that come in are added, and then those that fall out
/// are dropped.
pub open spec fn summed<T, S, A: Fn(S, T) -> S, D: Fn(S, T) -> S>(
    add: A,
    drop: D,
    samples: Seq<T>,
    centers: Seq<usize>,
    half: usize,
    zero: S,
    sum: S,
) -> bool
    decreases centers.len(),
{
    if centers.len() == 0 {
        sum == zero
    } else {
        let earlier = centers.drop_last();
        let from = rolled(earlier, half, samples.len() as usize);
        let to = rolled(centers, half, samples.len() as usize);
        exists|before: S, between: S|
            summed(add, drop, samples, earlier, half, zero, before) && #[trigger] gathered(
                add,
                samples,
                from.1,
                to.1,
                before,
                between,
            ) && gathered(drop, samples, from.0, to.0, between, sum)
    }
}

/// Whether a level is what `mean` gives for the sum over the window after
/// centres and the number of samples in it.
pub open spec fn averaged<T, S, L, A: Fn(S, T) -> S, D: Fn(S, T) -> S, M: Fn(S, usize) -> L>(
    add: A,
    drop: D,
    mean: M,
    samples: Seq<T>,
    centers: Seq<usize>,
    half: usize,
    zero: S,
    level: L,
) -> bool {
    let start = window_start(centers.last(), half, samples.len() as usize);
    let end = window_end(centers.last(), half, samples.len() as usize);
    let length = if end > start {
        end - start
    } else {
        1
    };
    exists|sum: S| #[trigger]
        summed(add, drop, samples, centers, half, zero, sum) && call_ensures(
            mean,
            (sum, length as usize),
            level,
        )
}

/// Whether each level is that of the window after the centres up to its own.
pub open spec fn each_averaged<T, S, L, A: Fn(S, T) -> S, D: Fn(S, T) -> S, M: Fn(S, usize) -> L>(
    add: A,
    drop: D,
    mean: M,
    samples: Seq<T>,
    centers: Seq<usize>,
    half: usize,
    zero: S,
    levels: Seq<L>,
) -> bool {
    forall|frame: int|
        0 <= frame < centers.len() ==> #[trigger] averaged(
            add,
            drop,
            mean,
            samples,
            centers.take(frame + 1),
            half,
            zero,
            levels[frame],
        )
}

/// Works the samples of a range into a sum.
fn gather<T: Copy, S: Copy, A: Fn(S, T) -> S>(
    work: &A,
    samples: &Vec<T>,
    range: IndexRange,
    before: S,
) -> (r: S)
    requires
        range.start <= range.end <= samples@.len(),
        forall|sum: S, sample: T| call_requires(*work, (sum, sample)),
    ensures
        gathered(*work, samples@, range.start as int, range.end as int, before, r),
{
    let mut sum: S = before;
    for i in range.start..range.end
        invariant
            range.end <= samples@.len(),
            range.start <= i,
            forall|sum: S, sample: T| call_requires(*work, (sum, sample)),
            gathered(*work, samples@, range.start as int, i as int, before, sum),
    {
        let ghost earlier = sum;
        sum = work(sum, samples[i]);
        proof {
            assert(gathered(*work, samples@, range.start as int, (i + 1) - 1, before, earlier));
        }
    }
    sum
}

/// The levels around centres: what `mean` gives for the sum over the samples
/// around each. The sum is kept from one centre to the next; only what comes in
/// is added to it, and what falls out is dropped.
pub fn rolling_levels<
    T: Copy,
    S: Copy,
    L,
    A: Fn(S, T) -> S,
    D: Fn(S, T) -> S,
    M: Fn(S, usize) -> L,
>(
    samples: &Vec<T>,
    centers: &Vec<usize>,
    half: usize,
    zero: S,
    add: A,
    drop: D,
    mean: M,
) -> (r: Vec<L>)
    requires
        forall|sum: S, sample: T| call_requires(add, (sum, sample)),
        forall|sum: S, sample: T| call_requires(drop, (sum, sample)),
        forall|sum: S, length: usize| call_requires(mean, (sum, length)),
    ensures
        r@.len() == centers@.len(),
        each_averaged(add, drop, mean, samples@, centers@, half, zero, r@),
{
    let count: usize = samples.len();
    let mut levels: Vec<L> = Vec::new();
    let mut window = RollingWindow::new();
    let mut sum: S = zero;
    proof {
        assert(centers@.take(0) =~= Seq::empty());
    }
    for frame in 0..centers.len()
        invariant
            forall|sum: S, sample: T| call_requires(add, (sum, sample)),
            forall|sum: S, sample: T| call_requires(drop, (sum, sample)),
            forall|sum: S, length: usize| call_requires(mean, (sum, length)),
            count == samples@.len(),
            levels@.len() == frame,
            window.start <= count,
            window.end <= count,
            (window.start as int, window.end as int) == rolled(
                centers@.take(frame as int),
                half,
                count,
            ),
            summed(add, drop, samples@, centers@.take(frame as int), half, zero, sum),
            forall|f: int|
                0 <= f < frame ==> #[trigger] averaged(
                    add,
                    drop,
                    mean,
                    samples@,
                    centers@.take(f + 1),
                    half,
                    zero,
                    levels@[f],
                ),
    {
        let ghost earlier = centers@.take(frame as int);
        let ghost met = centers@.take(frame + 1);
        proof {
            assert(met.drop_last() =~= earlier);
            assert(met.last() == centers@[frame as int]);
        }
        let ghost before = sum;
        let step = window.advance(centers[frame], half, count);
        let between = gather(&add, samples, step.added, sum);
        sum = gather(&drop, samples, step.dropped, between);
        proof {
            let (from, to) = (rolled(earlier, half, count), rolled(met, half, count));
            assert(summed(add, drop, samples@, met.drop_last(), half, zero, before));
            assert(gathered(add, samples@, from.1, to.1, before, between));
            assert(gathered(drop, samples@, from.0, to.0, between, sum));
            assert(summed(add, drop, samples@, met, half, zero, sum));
        }
        let level = mean(sum, step.length);
        levels.push(level);
        proof {
            assert(averaged(add, drop, mean, samples@, met, half, zero, level));
        }
    }
    levels
}

/// The sum of what the samples of a range weigh.
pub open spec fn weight_of<T>(
    weight: spec_fn(T) -> int,
    samples: Seq<T>,
    start: int,
    end: int,
) -> int
    decreases end - start,
{
    if end <= start {
        0
    } else {
        weight_of(weight, samples, start, end - 1) + weight(samples[end - 1])
    }
}

/// Weights of ranges that meet add up.
proof fn lemma_weights_meet<T>(
    weight: spec_fn(T) -> int,
    samples: Seq<T>,
    start: int,
    middle: int,
    end: int,
)
    requires
        start <= middle <= end,
    ensures
        weight_of(weight, samples, start, end) == weight_of(weight, samples, start, middle)
            + weight_of(weight, samples, middle, end),
    decreases end - middle,
{
    if middle < end {
        lemma_weights_meet(weight, samples, start, middle, end - 1);
    }
}

/// What a range adds to a sum that counts weights, or takes from it.
proof fn lemma_gathered_weight<T, S, A: Fn(S, T) -> S>(
    work: A,
    samples: Seq<T>,
    start: int,
    end: int,
    before: S,
    after: S,
    worth: spec_fn(S) -> int,
    weight: spec_fn(T) -> int,
    sign: int,
)
    requires
        gathered(work, samples, start, end, before, after),
        forall|sum: S, sample: T, result: S| #[trigger]
            call_ensures(work, (sum, sample), result) ==> worth(result) == worth(sum) + sign
                * weight(sample),
    ensures
        worth(after) == worth(before) + sign * weight_of(weight, samples, start, end),
    decreases end - start,
{
    let whole = weight_of(weight, samples, start, end);
    if end > start {
        let sum = choose|sum: S|
            gathered(work, samples, start, end - 1, before, sum) && #[trigger] call_ensures(
                work,
                (sum, samples[end - 1]),
                after,
            );
        lemma_gathered_weight(
            work,
            samples,
            start,
            end - 1,
            before,
            sum,
            worth,
            weight,
            sign,
        );
        let part = weight_of(weight, samples, start, end - 1);
        let last = weight(samples[end - 1]);
        assert(sign * (part + last) == sign * part + sign * last) by (nonlinear_arith);
    } else {
        assert(sign * 0 == 0) by (nonlinear_arith);
    }
}

/// Where sums are exact, the sum that is kept over ascending centres is the sum
/// over the samples around the last centre, as if it were taken afresh.
pub proof fn law_rolling_sum_is_exact<T, S, A: Fn(S, T) -> S, D: Fn(S, T) -> S>(
    add: A,
    drop: D,
    samples: Seq<T>,
    centers: Seq<usize>,
    half: usize,
    zero: S,
    sum: S,
    worth: spec_fn(S) -> int,
    weight: spec_fn(T) -> int,
)
    requires
        samples.len() <= usize::MAX,
        centers.len() > 0,
        forall|i: int, j: int| 0 <= i < j < centers.len() ==> centers[i] <= centers[j],
        worth(zero) == 0,
        forall|sum: S, sample: T, result: S| #[trigger]
            call_ensures(add, (sum, sample), result) ==> worth(result) == worth(sum) + weight(
                sample,
            ),
        forall|sum: S, sample: T, result: S| #[trigger]
            call_ensures(drop, (sum, sample), result) ==> worth(result) == worth(sum) - weight(
                sample,
            ),
        summed(add, drop, samples, centers, half, zero, sum),
    ensures
        worth(sum) == weight_of(
            weight,
            samples,
            window_start(centers.last(), half, samples.len() as usize),
            window_end(centers.last(), half, samples.len() as usize),
        ),
    decreases centers.len(),
{
    let count = samples.len() as usize;
    let earlier = centers.drop_last();
    let from = rolled(earlier, half, count);
    let to = rolled(centers, half, count);
    let (before, between) = choose|before: S, between: S|
        summed(add, drop, samples, earlier, half, zero, before) && #[trigger] gathered(
            add,
            samples,
            from.1,
            to.1,
            before,
            between,
        ) && gathered(drop, samples, from.0, to.0, between, sum);
    law_window_is_around_its_centre(centers, half, count);
    if earlier.len() > 0 {
        assert forall|i: int, j: int| 0 <= i < j < earlier.len() implies earlier[i]
            <= earlier[j] by {
            assert(centers[i] <= centers[j]);
        }
        assert(centers[earlier.len() - 1] <= centers[earlier.len() as int]);
        law_rolling_sum_is_exact(
            add,
            drop,
            samples,
            earlier,
            half,
            zero,
            before,
            worth,
            weight,
        );
        law_window_is_around_its_centre(earlier, half, count);
    } else {
        assert(summed(add, drop, samples, earlier, half, zero, before) ==> before == zero);
        assert(from == (0int, 0int));
    }
    assert(worth(before) == weight_of(weight, samples, from.0, from.1));
    lemma_gathered_weight(add, samples, from.1, to.1, before, between, worth, weight, 1);
    lemma_gathered_weight(drop, samples, from.0, to.0, between, sum, worth, weight, -1);
    lemma_weights_meet(weight, samples, from.0, from.1, to.1);
    lemma_weights_meet(weight, samples, from.0, to.0, to.1);
}

// ---------------------------------------------------------------------------
// Ranks
// ---------------------------------------------------------------------------

/// How many bins a histogram of levels has.
pub const PEAK_HISTOGRAM_BINS: usize = 8_192;

/// The bin that a level is counted in: the last one where it lies behind that.
pub open spec fn counted_bin(bin: usize) -> usize {
    if bin < PEAK_HISTOGRAM_BINS {
        bin
    } else {
        (PEAK_HISTOGRAM_BINS - 1) as usize
    }
}

/// How many levels are counted in the bins up to one.
pub open spec fn counted_up_to(bins: Seq<usize>, bin: int) -> nat
    decreases bins.len(),
{
    if bins.len() == 0 {
        0
    } else {
        counted_up_to(bins.drop_last(), bin) + if counted_bin(bins.last()) <= bin {
            1nat
        } else {
            0nat
        }
    }
}

/// How many levels are counted in a bin.
spec fn counted_in(bins: Seq<usize>, bin: int) -> int {
    counted_up_to(bins, bin) - counted_up_to(bins, bin - 1)
}

/// The levels up to a bin are those before it and those in it.
proof fn lemma_counted(bins: Seq<usize>, bin: int)
    ensures
        counted_up_to(bins, bin) <= bins.len(),
        0 <= counted_in(bins, bin) <= bins.len(),
        bin < 0 ==> counted_up_to(bins, bin) == 0,
        bin >= PEAK_HISTOGRAM_BINS - 1 ==> counted_up_to(bins, bin) == bins.len(),
    decreases bins.len(),
{
    if bins.len() > 0 {
        lemma_counted(bins.drop_last(), bin);
    }
}

/// Whether a bin is the one in which the level with the given rank is counted:
/// more levels are counted up to it, and not more before it.
pub open spec fn ranked_bin(bins: Seq<usize>, rank: nat, bin: int) -> bool {
    0 <= bin < PEAK_HISTOGRAM_BINS && counted_up_to(bins, bin) > rank && counted_up_to(
        bins,
        bin - 1,
    ) <= rank
}

/// The bin behind the one in which the level with the given rank is counted, or
/// the last one. There is none where there are no more levels than the rank.
pub fn absolute_percentile_bin(bins: &Vec<usize>, rank: usize) -> (r: Option<usize>)
    ensures
        match r {
            Some(bin) => exists|counted: int|
                #![trigger ranked_bin(bins@, rank as nat, counted)]
                ranked_bin(bins@, rank as nat, counted) && bin == if counted + 1
                    < PEAK_HISTOGRAM_BINS {
                    counted + 1
                } else {
                    PEAK_HISTOGRAM_BINS - 1
                },
            None => rank >= bins@.len(),
        },
{
    let mut histogram: Vec<usize> = Vec::new();
    for bin in 0..PEAK_HISTOGRAM_BINS
        invariant
            histogram@.len() == bin,
            forall|k: int| 0 <= k < bin ==> #[trigger] histogram@[k] == 0,
    {
        histogram.push(0);
    }
    let count: usize = bins.len();
    for i in 0..count
        invariant
            count == bins@.len(),
            histogram@.len() == PEAK_HISTOGRAM_BINS,
            forall|k: int|
                0 <= k < PEAK_HISTOGRAM_BINS ==> #[trigger] histogram@[k] == counted_in(
                    bins@.take(i as int),
                    k,
                ),
    {
        let bin: usize = if bins[i] < PEAK_HISTOGRAM_BINS {
            bins[i]
        } else {
            PEAK_HISTOGRAM_BINS - 1
        };
        proof {
            assert(bins@.take(i + 1).drop_last() =~= bins@.take(i as int));
            assert(bins@.take(i + 1).last() == bins@[i as int]);
            lemma_counted(bins@.take(i as int), bin as int);
            assert(histogram@[bin as int] <= i);
        }
        histogram[bin] = histogram[bin] + 1;
    }
    proof {
        assert(bins@.take(count as int) =~= bins@);
        lemma_counted(bins@, -1);
        lemma_counted(bins@, PEAK_HISTOGRAM_BINS - 1);
    }
    let mut seen: usize = 0;
    for bin in 0..PEAK_HISTOGRAM_BINS
        invariant
            count == bins@.len(),
            histogram@.len() == PEAK_HISTOGRAM_BINS,
            forall|k: int|
                0 <= k < PEAK_HISTOGRAM_BINS ==> #[trigger] histogram@[k] == counted_in(bins@, k),
            seen == counted_up_to(bins@, bin - 1),
            seen <= rank,
    {
        proof {
            lemma_counted(bins@, bin as int);
            assert(histogram@[bin as int] == counted_in(bins@, bin as int));
        }
        seen = seen + histogram[bin];
        if seen > rank {
            proof {
                assert(ranked_bin(bins@, rank as nat, bin as int));
            }
            return Some(
                if bin + 1 < PEAK_HISTOGRAM_BINS {
                    bin + 1
                } else {
                    PEAK_HISTOGRAM_BINS - 1
                },
            );
        }
    }
    None
}

/// The bin of a rank is determined.
pub proof fn law_ranked_bin_is_determined(bins: Seq<usize>, rank: nat, a: int, b: int)
    requires
        ranked_bin(bins, rank, a),
        ranked_bin(bins, rank, b),
    ensures
        a == b,
{
    if a < b {
        lemma_counted_ascends(bins, a, b - 1);
    }
    if b < a {
        lemma_counted_ascends(bins, b, a - 1);
    }
}

/// Up to a later bin no fewer levels are counted.
proof fn lemma_counted_ascends(bins: Seq<usize>, a: int, b: int)
    requires
        a <= b,
    ensures
        counted_up_to(bins, a) <= counted_up_to(bins, b),
    decreases bins.len(),
{
    if bins.len() > 0 {
        lemma_counted_ascends(bins.drop_last(), a, b);
    }
}

/// The place of a single-precision number, given by its bits, in the total
/// order of such numbers: the bit of the sign first, then the others, which
/// count the other way where the sign is negative.
pub open spec fn total_place(bits: u32) -> int {
    if bits < 0x8000_0000 {
        bits as int
    } else {
        0x7fff_ffff - bits
    }
}

/// How many numbers have places up to one.
pub open spec fn placed_up_to(values: Seq<u32>, place: int) -> nat
    decreases values.len(),
{
    if values.len() == 0 {
        0
    } else {
        placed_up_to(values.drop_last(), place) + if total_place(values.last()) <= place {
            1nat
        } else {
            0nat
        }
    }
}

/// Whether a number is the one at a position once the numbers are in order.
pub open spec fn ranked(values: Seq<u32>, position: nat, value: u32) -> bool {
    &&& values.contains(value)
    &&& placed_up_to(values, total_place(value) - 1) <= position
    &&& position < placed_up_to(values, total_place(value))
}

/// No fewer numbers have places up to a later one, and more only where a number
/// has a place between.
proof fn lemma_placed(values: Seq<u32>, place: int, later: int)
    requires
        place <= later,
    ensures
        placed_up_to(values, place) <= placed_up_to(values, later) <= values.len(),
        placed_up_to(values, place) < placed_up_to(values, later) ==> exists|i: int|
            0 <= i < values.len() && place < total_place(#[trigger] values[i]) <= later,
        place < -0x8000_0000 ==> placed_up_to(values, place) == 0,
        later >= 0x7fff_ffff ==> placed_up_to(values, later) == values.len(),
    decreases values.len(),
{
    if values.len() > 0 {
        let rest = values.drop_last();
        lemma_placed(rest, place, later);
        if placed_up_to(rest, place) < placed_up_to(rest, later) {
            let i = choose|i: int|
                0 <= i < rest.len() && place < total_place(#[trigger] rest[i]) <= later;
            assert(values[i] == rest[i]);
        } else {
            assert(values[values.len() - 1] == values.last());
        }
    }
}

/// The number with a place.
fn number_at(place: i64) -> (r: u32)
    requires
        -0x8000_0000 <= place <= 0x7fff_ffff,
    ensures
        total_place(r) == place,
        forall|bits: u32| #[trigger] total_place(bits) == place ==> bits == r,
{
    if place >= 0 {
        place as u32
    } else {
        (0x7fff_ffff - place) as u32
    }
}

/// How many numbers have places up to one.
fn count_up_to(values: &Vec<u32>, place: i64) -> (r: usize)
    ensures
        r == placed_up_to(values@, place as int),
{
    let length: usize = values.len();
    let mut count: usize = 0;
    for i in 0..length
        invariant
            length == values@.len(),
            count <= i,
            count == placed_up_to(values@.take(i as int), place as int),
    {
        proof {
            assert(values@.take(i + 1).drop_last() =~= values@.take(i as int));
        }
        let bits: u32 = values[i];
        let here: i64 = if bits < 0x8000_0000 {
            bits as i64
        } else {
            0x7fff_ffff - bits as i64
        };
        if here <= place {
            count = count + 1;
        }
    }
    proof {
        assert(values@.take(length as int) =~= values@);
    }
    count
}

/// The number at a position once the numbers, given by their bits, are in total
/// order. There is none among no numbers.
pub fn percentile(values: &Vec<u32>, position: usize) -> (r: Option<u32>)
    requires
        values@.len() > 0 ==> position < values@.len(),
    ensures
        match r {
            Some(value) => ranked(values@, position as nat, value),
            None => values@.len() == 0,
        },
{
    if values.len() == 0 {
        return None;
    }
    let mut low: i64 = -0x8000_0000;
    let mut high: i64 = 0x7fff_ffff;
    proof {
        lemma_placed(values@, low - 1, high as int);
    }
    while low < high
        invariant
            -0x8000_0000 <= low <= high <= 0x7fff_ffff,
            placed_up_to(values@, low - 1) <= position,
            position < placed_up_to(values@, high as int),
        decreases high - low,
    {
        let middle: i64 = low + (high - low) / 2;
        if count_up_to(values, middle) > position {
            high = middle;
        } else {
            low = middle + 1;
        }
    }
    let value: u32 = number_at(low);
    proof {
        lemma_placed(values@, low - 1, low as int);
        let i = choose|i: int|
            0 <= i < values@.len() && low - 1 < total_place(#[trigger] values@[i]) <= low;
        assert(values@[i] == value);
    }
    Some(value)
}

/// The number at a position is determined.
pub proof fn law_percentile_is_determined(values: Seq<u32>, position: nat, a: u32, b: u32)
    requires
        ranked(values, position, a),
        ranked(values, position, b),
    ensures
        a == b,
{
    if total_place(a) < total_place(b) {
        lemma_placed(values, total_place(a), total_place(b) - 1);
    }
    if total_place(b) < total_place(a) {
        lemma_placed(values, total_place(b), total_place(a) - 1);
    }
}

/// Of the numbers above zero and zero itself, the larger one, by its bits, has
/// the later place, and every number with a negative sign comes before them.
pub proof fn law_places_follow_the_sign(a: u32, b: u32)
    ensures
        a < b < 0x8000_0000 ==> total_place(a) < total_place(b),
        0x8000_0000 <= a < b ==> total_place(b) < total_place(a),
        a < 0x8000_0000 <= b ==> total_place(b) < total_place(a),
{
}

// ---------------------------------------------------------------------------
// Laws of windows and ranks
// ---------------------------------------------------------------------------

/// Whether the places from `start` to `end` are those of the samples that are at most
/// `half` before a centre, or less than `half` behind it.
pub open spec fn around(start: int, end: int, center: int, half: int, samples: int) -> bool {
    &&& 0 <= start <= end <= samples
    &&& forall|i: int|
        0 <= i < samples ==> (#[trigger] is_place(i) && start <= i < end <==> center - half <= i
            < center + half)
}

/// A number that can be a place.
pub open spec fn is_place(i: int) -> bool {
    0 <= i
}

/// The ends of a window hold the samples around its centre.
proof fn lemma_around(center: usize, half: usize, samples: usize)
    ensures
        around(
            window_start(center, half, samples),
            window_end(center, half, samples),
            center as int,
            half as int,
            samples as int,
        ),
{
}

/// A window that has not gone too far goes on to the samples around the next centre.
/// What it adds follows what it had, and what it drops is what it had first. The length
/// is the number of samples in it, or one where there are none.
pub proof fn law_window_goes_on_to_its_centre(
    window: &mut RollingWindow,
    center: usize,
    half: usize,
    samples: usize,
    r: RollingStep,
)
    requires
        old(window).start <= old(window).end <= samples,
        old(window).start == 0 || old(window).start + half <= center,
        old(window).end <= center + half,
        call_ensures(RollingWindow::advance, (window, center, half, samples), r),
    ensures
        final(window).start <= samples ==> around(
            final(window).start as int,
            final(window).end as int,
            center as int,
            half as int,
            samples as int,
        ),
        final(window).start <= samples,
        r.added.start == old(window).end,
        r.added.end == final(window).end,
        r.dropped.start == old(window).start,
        r.dropped.end == final(window).start,
        final(window).start < final(window).end ==> r.length == final(window).end
            - final(window).start,
        final(window).start == final(window).end ==> r.length == 1,
{
    lemma_around(center, half, samples);
}

/// A new window holds nothing.
pub proof fn law_new_window_holds_nothing(window: RollingWindow)
    requires
        call_ensures(RollingWindow::new, (), window),
    ensures
        window.start == 0,
        window.end == 0,
{
}

/// Where sums are exact and the centres ascend, the level of each frame is the mean of
/// the samples around its centre, and of no others.
pub proof fn law_level_is_the_mean_around_its_centre<
    T: Copy,
    S: Copy,
    L,
    A: Fn(S, T) -> S,
    D: Fn(S, T) -> S,
    M: Fn(S, usize) -> L,
>(
    samples: &Vec<T>,
    centers: &Vec<usize>,
    half: usize,
    zero: S,
    add: A,
    drop: D,
    mean: M,
    worth: spec_fn(S) -> int,
    weight: spec_fn(T) -> int,
    r: Vec<L>,
    frame: int,
    start: int,
    end: int,
    length: usize,
)
    requires
        call_ensures(
            rolling_levels::<T, S, L, A, D, M>,
            (samples, centers, half, zero, add, drop, mean),
            r,
        ),
        0 <= frame < centers@.len(),
        forall|i: int, j: int| 0 <= i < j < centers@.len() ==> centers@[i] <= centers@[j],
        worth(zero) == 0,
        forall|sum: S, sample: T, result: S| #[trigger]
            call_ensures(add, (sum, sample), result) ==> worth(result) == worth(sum) + weight(
                sample,
            ),
        forall|sum: S, sample: T, result: S| #[trigger]
            call_ensures(drop, (sum, sample), result) ==> worth(result) == worth(sum) - weight(
                sample,
            ),
        around(start, end, centers@[frame] as int, half as int, samples@.len() as int),
        start < end ==> length == end - start,
        start == end ==> length == 1,
    ensures
        r@.len() == centers@.len(),
        exists|sum: S|
            {
                &&& worth(sum) == weight_of(weight, samples@, start, end)
                &&& #[trigger] call_ensures(mean, (sum, length), r@[frame])
            },
{
    let met = centers@.take(frame + 1);
    let count = samples@.len() as usize;
    assert(samples.len() == count);
    assert(each_averaged(add, drop, mean, samples@, centers@, half, zero, r@));
    assert(averaged(add, drop, mean, samples@, met, half, zero, r@[frame]));
    assert(met.last() == centers@[frame]);
    let (first, behind) = (
        window_start(met.last(), half, count),
        window_end(met.last(), half, count),
    );
    lemma_around(met.last(), half, count);
    let width = if behind > first {
        behind - first
    } else {
        1
    };
    let sum = choose|sum: S| #[trigger]
        summed(add, drop, samples@, met, half, zero, sum) && call_ensures(
            mean,
            (sum, width as usize),
            r@[frame],
        );
    assert forall|i: int, j: int| 0 <= i < j < met.len() implies met[i] <= met[j] by {
        assert(centers@[i] <= centers@[j]);
    }
    law_rolling_sum_is_exact(add, drop, samples@, met, half, zero, sum, worth, weight);
    if start < end {
        assert(is_place(start) && is_place(end - 1));
        assert(first <= start < behind && first <= end - 1 < behind);
        assert(is_place(first) && is_place(behind - 1));
        assert(first == start && behind == end);
    } else if first < behind {
        assert(is_place(first));
    }
}

/// How many values have places up to one.
spec fn number_up_to<T>(values: Seq<T>, place: spec_fn(T) -> int, last: int) -> nat
    decreases values.len(),
{
    if values.len() == 0 {
        0
    } else {
        number_up_to(values.drop_last(), place, last) + if place(values.last()) <= last {
            1nat
        } else {
            0nat
        }
    }
}

/// Without one value there is one less, or as many where its place is later.
proof fn lemma_number_without<T>(values: Seq<T>, place: spec_fn(T) -> int, last: int, k: int)
    requires
        0 <= k < values.len(),
    ensures
        number_up_to(values, place, last) == number_up_to(values.remove(k), place, last) + if place(
            values[k],
        ) <= last {
            1nat
        } else {
            0nat
        },
    decreases values.len(),
{
    if k == values.len() - 1 {
        assert(values.remove(k) =~= values.drop_last());
    } else {
        lemma_number_without(values.drop_last(), place, last, k);
        assert(values.remove(k).drop_last() =~= values.drop_last().remove(k));
        assert(values.remove(k).last() == values.last());
    }
}

/// In what order values come does not change how many have places up to one.
proof fn lemma_number_of_arranged<T>(
    a: Seq<T>,
    b: Seq<T>,
    place: spec_fn(T) -> int,
    last: int,
)
    requires
        a.to_multiset() == b.to_multiset(),
    ensures
        a.len() == b.len(),
        number_up_to(a, place, last) == number_up_to(b, place, last),
    decreases a.len(),
{
    broadcast use vstd::seq_lib::group_to_multiset_ensures;

    if a.len() > 0 {
        let x = a.last();
        assert(a.contains(x)) by {
            assert(a[a.len() - 1] == x);
        }
        assert(a.to_multiset().count(x) > 0);
        assert(b.contains(x));
        let k = choose|k: int| 0 <= k < b.len() && b[k] == x;
        assert(a.remove(a.len() - 1) =~= a.drop_last());
        assert(a.drop_last().to_multiset() =~= b.remove(k).to_multiset());
        lemma_number_of_arranged(a.drop_last(), b.remove(k), place, last);
        lemma_number_without(b, place, last, k);
    } else {
        assert(b.len() == b.to_multiset().len());
    }
}

/// Where the first values have places up to one, there are so many; where the others
/// have later places, there are no more.
proof fn lemma_number_of_first<T>(values: Seq<T>, place: spec_fn(T) -> int, last: int, count: int)
    requires
        0 <= count <= values.len(),
    ensures
        (forall|i: int| 0 <= i < count ==> place(#[trigger] values[i]) <= last) ==> number_up_to(
            values,
            place,
            last,
        ) >= count,
        (forall|i: int| count <= i < values.len() ==> place(#[trigger] values[i]) > last)
            ==> number_up_to(values, place, last) <= count,
    decreases values.len(),
{
    if values.len() > 0 {
        let rest = values.drop_last();
        let fewer = if count == values.len() {
            count - 1
        } else {
            count
        };
        lemma_number_of_first(rest, place, last, fewer);
        if forall|i: int| 0 <= i < count ==> place(#[trigger] values[i]) <= last {
            assert forall|i: int| 0 <= i < fewer implies place(#[trigger] rest[i]) <= last by {
                assert(values[i] == rest[i]);
            }
            if count == values.len() {
                assert(place(values[count - 1]) <= last);
            }
        }
        if forall|i: int| count <= i < values.len() ==> place(#[trigger] values[i]) > last {
            assert forall|i: int| fewer <= i < rest.len() implies place(#[trigger] rest[i])
                > last by {
                assert(values[i] == rest[i]);
            }
            if count < values.len() {
                assert(place(values[values.len() - 1]) > last);
            }
        }
    }
}

/// Numbers are counted by their places.
proof fn lemma_numbers_counted(values: Seq<u32>, last: int)
    ensures
        placed_up_to(values, last) == number_up_to(values, |bits: u32| total_place(bits), last),
    decreases values.len(),
{
    if values.len() > 0 {
        lemma_numbers_counted(values.drop_last(), last);
    }
}

/// Levels are counted by their bins.
proof fn lemma_levels_counted(bins: Seq<usize>, last: int)
    ensures
        counted_up_to(bins, last) == number_up_to(bins, |bin: usize| counted_bin(bin) as int, last),
    decreases bins.len(),
{
    if bins.len() > 0 {
        lemma_levels_counted(bins.drop_last(), last);
    }
}

/// Whether a single-precision number, given by its bits, is not above another in their
/// total order: one with a negative sign is below one without, of two without the
/// smaller bits are below, and of two with it the larger.
pub open spec fn not_above(a: u32, b: u32) -> bool {
    if a >= 0x8000_0000 && b >= 0x8000_0000 {
        a >= b
    } else if a < 0x8000_0000 && b < 0x8000_0000 {
        a <= b
    } else {
        a >= 0x8000_0000
    }
}

/// The number at a position is the one that stands there when the numbers are sorted.
pub proof fn law_percentile_stands_there_when_sorted(
    values: &Vec<u32>,
    position: usize,
    sorted: Seq<u32>,
    r: Option<u32>,
)
    requires
        sorted.to_multiset() == values@.to_multiset(),
        forall|i: int, j: int| 0 <= i < j < sorted.len() ==> not_above(sorted[i], sorted[j]),
        position < sorted.len(),
        call_ensures(percentile, (values, position), r),
    ensures
        r == Some(sorted[position as int]),
{
    broadcast use vstd::seq_lib::group_to_multiset_ensures;

    let place = |bits: u32| total_place(bits);
    let value = sorted[position as int];
    let last = total_place(value);
    assert(sorted.contains(value));
    assert(sorted.to_multiset().count(value) > 0);
    assert(values@.contains(value));
    lemma_numbers_counted(values@, last);
    lemma_numbers_counted(values@, last - 1);
    lemma_number_of_arranged(sorted, values@, place, last);
    lemma_number_of_arranged(sorted, values@, place, last - 1);
    assert forall|i: int| 0 <= i < position + 1 implies place(#[trigger] sorted[i]) <= last by {
        if i < position {
            assert(not_above(sorted[i], sorted[position as int]));
        }
    }
    assert forall|i: int| position <= i < sorted.len() implies place(#[trigger] sorted[i]) > last
        - 1 by {
        if i > position {
            assert(not_above(sorted[position as int], sorted[i]));
        }
    }
    lemma_number_of_first(sorted, place, last, position + 1);
    lemma_number_of_first(sorted, place, last - 1, position as int);
    assert(ranked(values@, position as nat, value));
    law_percentile_is_determined(values@, position as nat, value, r->0);
}

/// The bin of a rank is the one behind that of the level that stands there when the
/// levels are sorted, and the last one at most.
pub proof fn law_percentile_bin_is_behind_the_level(
    bins: &Vec<usize>,
    rank: usize,
    sorted: Seq<usize>,
    r: Option<usize>,
)
    requires
        sorted.to_multiset() == bins@.to_multiset(),
        forall|i: int, j: int| 0 <= i < j < sorted.len() ==> sorted[i] <= sorted[j],
        call_ensures(absolute_percentile_bin, (bins, rank), r),
    ensures
        rank < sorted.len() && sorted[rank as int] < 8_191 ==> r == Some(
            (sorted[rank as int] + 1) as usize,
        ),
        rank < sorted.len() && sorted[rank as int] >= 8_191 ==> r == Some(8_191usize),
        rank >= sorted.len() ==> r is None,
{
    broadcast use vstd::seq_lib::group_to_multiset_ensures;

    let place = |bin: usize| counted_bin(bin) as int;
    assert(sorted.len() == bins@.len()) by {
        lemma_number_of_arranged(sorted, bins@, place, 0);
    }
    if rank < sorted.len() {
        let bin = counted_bin(sorted[rank as int]) as int;
        lemma_levels_counted(bins@, bin);
        lemma_levels_counted(bins@, bin - 1);
        lemma_number_of_arranged(sorted, bins@, place, bin);
        lemma_number_of_arranged(sorted, bins@, place, bin - 1);
        assert forall|i: int| 0 <= i < rank + 1 implies place(#[trigger] sorted[i]) <= bin by {
            if i < rank {
                assert(sorted[i] <= sorted[rank as int]);
            }
        }
        assert forall|i: int| rank <= i < sorted.len() implies place(#[trigger] sorted[i]) > bin
            - 1 by {
            if i > rank {
                assert(sorted[rank as int] <= sorted[i]);
            }
        }
        lemma_number_of_first(sorted, place, bin, rank + 1);
        lemma_number_of_first(sorted, place, bin - 1, rank as int);
        assert(ranked_bin(bins@, rank as nat, bin));
        assert forall|counted: int| #[trigger]
            ranked_bin(bins@, rank as nat, counted) implies counted == bin by {
            law_ranked_bin_is_determined(bins@, rank as nat, counted, bin);
        }
    } else if r is Some {
        let counted = choose|counted: int| #[trigger] ranked_bin(bins@, rank as nat, counted);
        lemma_counted(bins@, counted);
    }
}

} // verus!
