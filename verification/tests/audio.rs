use master_duel_bgms::arguments::Argument;
use master_duel_bgms::audio::{
    decode_arguments, decode_samples, duration_arguments, AudioAnalysis, DecodeError,
};
use master_duel_bgms::loudness::{absolute_percentile_bin, percentile, rolling_levels, RollingWindow};
use master_duel_bgms::spectrum::{
    frequency_bands, logarithmic_band_ranges, smooth_and_mirror_spectrum, window_plan, windowed,
    IndexRange, WindowPlan,
};
use rustfft::num_complex::Complex32;
use rustfft::FftPlanner;

fn line(arguments: Vec<Argument>) -> String {
    let words: Vec<String> = arguments
        .into_iter()
        .map(|argument| match argument {
            Argument::Text(text) => text,
            Argument::Source => "<source>".to_string(),
            _ => panic!("neither device nor output"),
        })
        .collect();
    words.join(" ")
}

fn ranked(values: &[f32], rank: f32) -> f32 {
    let bits: Vec<u32> = values.iter().map(|value| value.to_bits()).collect();
    if bits.is_empty() {
        return 0.0;
    }
    let position = ((bits.len() - 1) as f32 * rank.clamp(0.0, 1.0)).round() as usize;
    percentile(&bits, position).map_or(0.0, f32::from_bits)
}

fn frame_count(samples: usize, sample_rate: u32, frame_rate: f32) -> usize {
    ((samples as f64 / f64::from(sample_rate)) * f64::from(frame_rate)).ceil() as usize + 2
}

fn centers(frames: usize, sample_rate: u32, frame_rate: f32) -> Vec<usize> {
    (0..frames)
        .map(|frame| (frame as f32 * sample_rate as f32 / frame_rate).round() as usize)
        .collect()
}

fn rms_envelope(
    samples: &Vec<f32>,
    sample_rate: u32,
    frame_rate: f32,
    half_window_seconds: f32,
    rank: f32,
) -> Vec<f32> {
    let frames = frame_count(samples.len(), sample_rate, frame_rate);
    let half = ((sample_rate as f32 * half_window_seconds).round() as usize).max(1);
    let mut levels = rolling_levels(
        samples,
        &centers(frames, sample_rate, frame_rate),
        half,
        0.0_f64,
        |sum: f64, sample: f32| sum + f64::from(sample).powi(2),
        |sum: f64, sample: f32| sum - f64::from(sample).powi(2),
        |sum: f64, length: usize| (sum.max(0.0) / length as f64).sqrt() as f32,
    );
    let scale = ranked(&levels, rank);
    if scale > 1.0e-8 {
        for level in &mut levels {
            *level = (*level / scale).clamp(0.0, 1.0);
        }
    }
    levels
}

fn smooth_level(previous: f32, target: f32) -> f32 {
    let alpha = if target >= previous { 0.58 } else { 0.55 };
    previous + (target - previous) * alpha
}

fn normalize(levels: &mut [f32]) {
    let scale = ranked(levels, 0.985);
    if scale > 1.0e-8 {
        for level in levels {
            let above = (*level / scale - 0.025).max(0.0) / 0.975;
            *level = above.clamp(0.0, 1.0).powf(0.68);
        }
    }
}

fn spectrum_of(
    samples: &Vec<f32>,
    sample_rate: u32,
    frame_rate: f32,
    bars: usize,
    fft_size: usize,
    energy: &[f32],
) -> Vec<f32> {
    let frames = frame_count(samples.len(), sample_rate, frame_rate);
    let bands = bars / 2;
    let bin = |frequency: f32| frequency * fft_size as f32 / sample_rate as f32;
    let ratio = (sample_rate as f32 * 0.5 * 0.92 / 40.0).powf(1.0 / bands as f32);
    let ends: Vec<usize> =
        (0..bands).map(|band| bin(40.0 * ratio.powi(band as i32 + 1)).ceil() as usize).collect();
    let ranges = logarithmic_band_ranges(bin(40.0).floor() as usize, &ends, fft_size);
    let weights: Vec<f32> = ranges
        .iter()
        .map(|range| {
            let middle = (range.start + range.end) as f32 * 0.5;
            (middle * sample_rate as f32 / fft_size as f32 / 80.0).max(1.0).powf(0.34)
        })
        .collect();
    let fft = FftPlanner::<f32>::new().plan_fft_forward(fft_size);
    let mut levels = frequency_bands(
        samples,
        &centers(frames, sample_rate, frame_rate),
        fft_size,
        &ranges,
        0.0_f32,
        |sample: f32, place: usize| {
            let turn = std::f32::consts::TAU * place as f32 / (fft_size - 1) as f32;
            sample * (0.5 - 0.5 * turn.cos())
        },
        |window: Vec<f32>| {
            let mut buffer: Vec<Complex32> =
                window.into_iter().map(|value| Complex32::new(value, 0.0)).collect();
            fft.process(&mut buffer);
            buffer
        },
        |band: usize, bins: &[Complex32]| {
            let power: f32 = bins.iter().map(Complex32::norm_sqr).sum();
            (power / bins.len() as f32).sqrt() * weights[band]
        },
    );
    normalize(&mut levels);
    smooth_and_mirror_spectrum(
        &levels,
        frames,
        bands,
        bars,
        0.0_f32,
        |frame: usize, previous: f32, left: f32, here: f32, right: f32| {
            let loudness = 0.34 + energy.get(frame).copied().unwrap_or_default().sqrt() * 0.66;
            smooth_level(previous, (here * 0.72 + (left + right) * 0.14) * loudness)
        },
    )
}

#[test]
fn envelope_tracks_louder_samples() {
    let mut samples = vec![0.01; 4_000];
    samples.extend(vec![0.8; 4_000]);
    let envelope = rms_envelope(&samples, 8_000, 20.0, 0.02, 0.95);
    assert!(envelope[15] > envelope[2] * 10.0);
}

#[test]
fn rolling_envelope_matches_prefix_reference() {
    let samples: Vec<f32> = (0..2_000)
        .map(|index| ((index % 37) as f32 - 18.0) / 18.0)
        .collect();
    let actual = rms_envelope(&samples, 1_000, 10.0, 0.02, 0.95);
    let mut prefix = vec![0.0_f64];
    for sample in &samples {
        prefix.push(prefix.last().copied().unwrap() + f64::from(*sample).powi(2));
    }
    let mut expected: Vec<f32> = (0..actual.len())
        .map(|frame| {
            let center = frame * 100;
            let start = center.saturating_sub(20).min(samples.len());
            let end = center.saturating_add(20).min(samples.len());
            ((prefix[end] - prefix[start]) / end.saturating_sub(start).max(1) as f64).sqrt() as f32
        })
        .collect();
    let scale = ranked(&expected, 0.95);
    for value in &mut expected {
        *value = (*value / scale).clamp(0.0, 1.0);
    }

    for (actual, expected) in actual.iter().zip(expected) {
        assert!((actual - expected).abs() < 1.0e-5);
    }
}

#[test]
fn spectrum_places_high_tones_above_low_tones() {
    let sample_rate = 12_000;
    let frame_rate = 24.0;
    let fft_size = 2_048;
    let bars = 48;
    let make_tone = |frequency: f32| {
        (0..sample_rate)
            .map(|index| {
                (std::f32::consts::TAU * frequency * index as f32 / sample_rate as f32).sin()
            })
            .collect::<Vec<_>>()
    };
    let energy = vec![1.0; frame_rate as usize + 2];
    let low =
        spectrum_of(&make_tone(100.0), sample_rate, frame_rate, bars, fft_size, &energy);
    let high =
        spectrum_of(&make_tone(3_000.0), sample_rate, frame_rate, bars, fft_size, &energy);
    let frame = 12;
    let half = bars / 2;
    let dominant = |spectrum: &[f32]| {
        spectrum[frame * bars..frame * bars + half]
            .iter()
            .enumerate()
            .max_by(|left, right| left.1.total_cmp(right.1))
            .unwrap()
            .0
    };

    assert!(dominant(&low) > dominant(&high) + 8);
}

#[test]
fn spectrum_releases_old_peaks_quickly() {
    let silence = vec![0.0_f32; 4];
    let level = |_: usize, previous: f32, _: f32, here: f32, _: f32| smooth_level(previous, here);
    let levels = smooth_and_mirror_spectrum(&silence, 4, 1, 2, 1.0, level);

    assert!(levels[7] < 0.05);
}

#[test]
fn percentile_is_deterministic() {
    let values = vec![9.0, 1.0, 5.0, 3.0];
    assert_eq!(ranked(&values, 0.5), 5.0);
}

#[test]
fn numbers_are_ranked_in_total_order() {
    let values = [f32::NAN, -0.0, 0.0, f32::NEG_INFINITY, 1.0, -1.0, 2.0, -f32::NAN];
    let bits: Vec<u32> = values.iter().map(|value| value.to_bits()).collect();
    let mut sorted = values;
    sorted.sort_by(|left, right| left.total_cmp(right));
    for (position, value) in sorted.iter().enumerate() {
        assert_eq!(percentile(&bits, position), Some(value.to_bits()));
    }
    assert_eq!(percentile(&Vec::new(), 0), None);
    assert_eq!(percentile(&vec![7, 7, 3], 1), Some(7));
}

#[test]
fn levels_are_ranked_by_bins() {
    let bins = vec![5, 1, 9_999, 5, 2];
    assert_eq!(absolute_percentile_bin(&bins, 0), Some(2));
    assert_eq!(absolute_percentile_bin(&bins, 1), Some(3));
    assert_eq!(absolute_percentile_bin(&bins, 3), Some(6));
    assert_eq!(absolute_percentile_bin(&bins, 4), Some(8_191));
    assert_eq!(absolute_percentile_bin(&bins, 5), None);
    assert_eq!(absolute_percentile_bin(&Vec::new(), 0), None);
}

#[test]
fn sources_are_probed_and_decoded() {
    assert_eq!(
        line(duration_arguments()),
        "-v error -show_entries format=duration -of default=noprint_wrappers=1:nokey=1 <source>"
    );
    assert_eq!(
        line(decode_arguments(12_000, None)),
        "-hide_banner -loglevel error -i <source> -map 0:a:0 -vn -ac 1 -ar 12000 -f s16le pipe:1"
    );
    assert_eq!(
        line(decode_arguments(8_000, Some("2.500000"))),
        "-hide_banner -loglevel error -i <source> -map 0:a:0 -vn -ac 1 -ar 8000 -t 2.500000 \
         -f s16le pipe:1"
    );
}

#[test]
fn samples_are_pairs_of_bytes() {
    let bytes = [0x01, 0x00, 0xff, 0xff, 0x00, 0x80, 0xff, 0x7f, 0x55];
    assert_eq!(decode_samples(true, &bytes), Ok(vec![1, -1, -32_768, 32_767]));
    for value in i16::MIN..=i16::MAX {
        assert_eq!(decode_samples(true, &value.to_le_bytes()), Ok(vec![value]));
    }
}

#[test]
fn sources_without_sound_are_refused() {
    assert_eq!(decode_samples(false, &[1, 2, 3, 4]), Err(DecodeError::Failed));
    assert_eq!(decode_samples(true, &[1]), Err(DecodeError::Empty));
    assert_eq!(decode_samples(true, &[]), Err(DecodeError::Empty));
}

#[test]
fn bands_hold_at_least_one_bin() {
    let range = |start: usize, end: usize| IndexRange { start, end };
    let wanted = vec![5, 9, 100];
    assert_eq!(
        logarithmic_band_ranges(2, &wanted, 64),
        [range(2, 5), range(5, 9), range(9, 32)]
    );
    let crowded = vec![0, 0, 0];
    assert_eq!(
        logarithmic_band_ranges(0, &crowded, 64),
        [range(1, 2), range(2, 3), range(3, 4)]
    );
    let full = vec![99, 99];
    assert_eq!(logarithmic_band_ranges(99, &full, 8), [range(3, 4), range(3, 4)]);
    assert!(logarithmic_band_ranges(1, &Vec::new(), 4).is_empty());
}

#[test]
fn windows_are_filled_where_there_are_samples() {
    let plan = |source_start: usize, window_start: usize, length: usize| {
        Some(WindowPlan { source_start, window_start, length })
    };
    assert_eq!(window_plan(0, 8, 100), plan(0, 4, 4));
    assert_eq!(window_plan(50, 8, 100), plan(46, 0, 8));
    assert_eq!(window_plan(99, 8, 100), plan(95, 0, 5));
    assert_eq!(window_plan(0, 8, 2), plan(0, 4, 2));
    assert_eq!(window_plan(200, 8, 100), None);
    assert_eq!(window_plan(0, 8, 0), None);
    let samples = vec![10, 20, 30];
    let weigh = |sample: i32, place: usize| sample + place as i32;
    assert_eq!(windowed(&samples, 1, 6, 0, &weigh), [0, 0, 12, 23, 34, 0]);
}

#[test]
fn bands_are_measured_frame_by_frame() {
    let samples = vec![1, 2, 3, 4];
    let ranges = vec![IndexRange { start: 0, end: 1 }, IndexRange { start: 1, end: 4 }];
    let rows = frequency_bands(
        &samples,
        &vec![0, 2],
        4,
        &ranges,
        0,
        |sample: i32, _: usize| sample * 10,
        |window: Vec<i32>| window,
        |band: usize, bins: &[i32]| bins.iter().sum::<i32>() + band as i32,
    );
    assert_eq!(rows, [0, 31, 10, 91]);
}

#[test]
fn rows_are_symmetric() {
    let input = vec![1, 2, 3, 10, 20, 30];
    let level = |frame: usize, previous: i32, left: i32, here: i32, right: i32| {
        previous + 100 * left + 10 * here + right + frame as i32
    };
    let rows = smooth_and_mirror_spectrum(&input, 2, 3, 7, 0, level);
    assert_eq!(rows.len(), 14);
    let (first, second) = ([112, 123, 233], [112 + 1_121, 123 + 1_231, 233 + 2_331]);
    assert_eq!(rows[..7], [first[2], first[1], first[0], first[0], first[1], first[2], 0]);
    assert_eq!(
        rows[7..],
        [second[2], second[1], second[0], second[0], second[1], second[2], 0]
    );
}

#[test]
fn rolling_windows_follow_their_centres() {
    let mut window = RollingWindow::new();
    let first = window.advance(0, 2, 10);
    assert_eq!((first.added, first.length), (IndexRange { start: 0, end: 2 }, 2));
    let second = window.advance(5, 2, 10);
    assert_eq!(second.added, IndexRange { start: 2, end: 7 });
    assert_eq!(second.dropped, IndexRange { start: 0, end: 3 });
    let behind = window.advance(20, 2, 10);
    assert_eq!(behind.length, 1);
    assert_eq!((window.start, window.end), (10, 10));
    let last = window.advance(usize::MAX, usize::MAX, 10);
    assert_eq!(last.length, 10);
}

#[test]
fn rolling_sums_are_those_of_the_windows() {
    let samples: Vec<i64> = (1..=9).collect();
    let sums = rolling_levels(
        &samples,
        &vec![0, 1, 4, 4, 8, 30],
        2,
        0_i64,
        |sum: i64, sample: i64| sum + sample,
        |sum: i64, sample: i64| sum - sample,
        |sum: i64, length: usize| (sum, length),
    );
    assert_eq!(sums, [(3, 2), (6, 3), (18, 4), (18, 4), (24, 3), (0, 1)]);
}

#[test]
fn an_analysis_is_read_by_frame() {
    let analysis = AudioAnalysis { spectrum: vec![1, 2, 3, 4, 5], energy: vec![7, 8], bars: 2 };
    assert_eq!(analysis.spectrum_at(0), [1, 2]);
    assert_eq!(analysis.spectrum_at(1), [3, 4]);
    assert_eq!(analysis.spectrum_at(9), [3, 4]);
    assert_eq!(analysis.energy_at(0), Some((7, 8)));
    assert_eq!(analysis.energy_at(1), Some((8, 8)));
    assert_eq!(analysis.energy_at(2), None);
}
