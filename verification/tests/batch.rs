use master_duel_bgms::batch::{
    eta_text, format_duration, known_duration, worker_count, Batch, BatchQueue, Ended, Span,
    SummaryFailed, WorkPool,
};
use master_duel_bgms::config::RenderConfig;
use master_duel_bgms::display::BatchDisplay;

fn span(seconds: f64) -> Span {
    if !seconds.is_finite() || seconds < 0.0 {
        Span::Invalid
    } else if seconds > 0.0 && seconds < 1.0 {
        Span::Tenths(format!("{seconds:.1}").replace('.', "").parse().unwrap())
    } else {
        Span::Seconds(seconds.round() as u64)
    }
}

fn config() -> RenderConfig {
    RenderConfig {
        width: 2560,
        height: 1440,
        fps: 60,
        visual_fps: 24,
        bars: 72,
        analysis_sample_rate: 12_000,
        fft_size: 2_048,
        encoder: "libx264".to_string(),
        quality: 18,
        preset: None,
        audio_bitrate: "320k".to_string(),
        show_title: true,
    }
}

fn display(quiet: bool, terminal: bool) -> BatchDisplay<u32> {
    let titles = vec!["first".to_string(), "second".to_string(), "a".repeat(30)];
    BatchDisplay::new(titles, quiet, terminal)
}

#[test]
fn formats_human_readable_durations() {
    assert_eq!(format_duration(span(8.4)), "8s");
    assert_eq!(format_duration(span(0.24)), "0.2s");
    assert_eq!(format_duration(span(125.0)), "2m 05s");
    assert_eq!(format_duration(span(7_325.0)), "2h 02m");
}

#[test]
fn formats_durations_at_the_edges() {
    assert_eq!(format_duration(span(0.0)), "0s");
    assert_eq!(format_duration(span(0.96)), "1.0s");
    assert_eq!(format_duration(span(0.04)), "0.0s");
    assert_eq!(format_duration(span(59.4)), "59s");
    assert_eq!(format_duration(span(59.5)), "1m 00s");
    assert_eq!(format_duration(span(3_600.0)), "1h 00m");
    assert_eq!(format_duration(span(86_399.0)), "23h 59m");
    assert_eq!(format_duration(span(86_400.0)), "1d 00h");
    assert_eq!(format_duration(span(1_000_000.0)), "11d 13h");
    assert_eq!(format_duration(span(-1.0)), "--");
    assert_eq!(format_duration(span(f64::NAN)), "--");
    assert_eq!(format_duration(Span::Seconds(u64::MAX)), "213503982334601d 07h");
}

#[test]
fn unknown_durations_are_said_to_be_so() {
    assert_eq!(known_duration(None), "unknown");
    assert_eq!(known_duration(Some(Span::Seconds(61))), "1m 01s");
}

#[test]
fn the_time_left_is_told_when_it_can_be() {
    let left = Span::Seconds(90);
    assert_eq!(eta_text(true, true, false, left), "0s");
    assert_eq!(eta_text(true, false, false, left), "calculating");
    assert_eq!(eta_text(false, true, true, left), "calculating");
    assert_eq!(eta_text(true, false, true, left), "1m 30s");
}

#[test]
fn there_is_at_least_one_worker_and_no_more_than_tracks() {
    assert_eq!(worker_count(2, 5), 2);
    assert_eq!(worker_count(8, 5), 5);
    assert_eq!(worker_count(8, 0), 1);
    assert_eq!(worker_count(0, 5), 1);
}

#[test]
fn every_track_is_taken_once() {
    let mut queue = BatchQueue::new(3);
    let taken: Vec<Option<usize>> = (0..5).map(|_| queue.take()).collect();
    assert_eq!(taken, [Some(0), Some(1), Some(2), None, None]);
    assert_eq!(BatchQueue::new(0).take(), None);
}

#[test]
fn workers_take_a_track_at_a_time() {
    let mut pool = WorkPool::new(worker_count(2, 3), 3);
    assert_eq!(pool.current, [None, None]);
    assert_eq!(pool.take(1), Some(0));
    assert_eq!(pool.take(0), Some(1));
    assert_eq!(pool.current, [Some(1), Some(0)]);
    pool.ended(1);
    assert_eq!(pool.current, [Some(1), None]);
    assert_eq!(pool.take(1), Some(2));
    pool.ended(0);
    assert_eq!(pool.take(0), None);
    assert_eq!(pool.current, [None, Some(2)]);
    pool.ended(1);
    assert_eq!(pool.take(1), None);
    assert_eq!(pool.current, [None, None]);
}

#[test]
fn outcomes_are_handed_on_once_each() {
    let titles: Vec<String> = (0..4).map(|n| n.to_string()).collect();
    let mut batch = Batch::new(titles, true, false);
    let (mut handed, mut failed) = (Vec::new(), 0);
    for index in [2, 0, 3, 1] {
        batch.display.started(index, 0, None);
        failed += usize::from(index % 2 == 1);
        if batch.finished(index, index % 2 == 1).record {
            handed.push(index);
            batch.recorded(true);
        }
    }
    assert_eq!(handed, [2, 0, 3, 1]);
    assert_eq!(batch.result(), Ok(failed));
    assert_eq!(batch.display.first_active(), None);
}

#[test]
fn progress_and_records_in_between_change_nothing_else() {
    let titles: Vec<String> = (0..3).map(|n| n.to_string()).collect();
    let mut batch = Batch::new(titles, true, false);
    let mut pool = WorkPool::new(2, 3);
    for worker in [0, 1] {
        let index = pool.take(worker).unwrap();
        batch.display.started(index, 0, None);
        batch.display.progress(index, 1);
    }
    batch.display.progress(0, 2);
    pool.ended(1);
    batch.finished(1, false);
    batch.display.progress(0, 3);
    batch.recorded(true);
    let index = pool.take(1).unwrap();
    batch.display.started(index, 0, None);
    batch.display.progress(0, 4);
    let active: Vec<usize> = batch.display.active.keys().copied().collect();
    let rendered: Vec<usize> = pool.current.iter().flatten().copied().collect();
    assert_eq!((active, rendered), (vec![0, 2], vec![0, 2]));
    assert_eq!((batch.display.completed, batch.result()), (1, Ok(0)));
}

#[test]
fn failures_are_counted_and_recording_stops_at_a_fault() {
    let titles = vec!["a".to_string(), "b".to_string(), "c".to_string()];
    let mut batch: Batch<u32> = Batch::new(titles, true, false);
    assert_eq!(batch.finished(1, true), Ended { clear: false, record: true });
    batch.recorded(true);
    assert!(batch.finished(0, false).record);
    assert_eq!(batch.result(), Ok(1));
    batch.recorded(false);
    batch.recorded(true);
    assert!(!batch.finished(2, true).record);
    assert_eq!((batch.display.completed, batch.display.failures), (3, 2));
    assert_eq!(batch.result(), Err(SummaryFailed));
}

#[test]
fn a_batch_is_complete_when_all_tracks_have_ended() {
    let titles = vec!["a".to_string(), "b".to_string()];
    let mut batch = Batch::new(titles, false, true);
    batch.display.started(0, 0, None);
    batch.display.started(1, 0, None);
    batch.display.progress(0, 5);
    batch.finished(0, false);
    assert_eq!(batch.display.first_active(), Some(1));
    batch.display.draw("1", "b 1%", Span::Seconds(1), None, Span::Seconds(1), "0s", "1.00");
    assert!(batch.finished(1, false).clear);
    assert_eq!(batch.display.first_active(), None);
    assert_eq!(batch.display.completed, 2);
}

#[test]
fn plans_are_shown() {
    assert_eq!(
        display(false, true).plan_line(Span::Seconds(3_725), 2, 7, &config()).unwrap(),
        "render plan: 3 track(s) | media 1h 02m | jobs 2 x 7 threads | 2560x1440@60 | libx264"
    );
    assert_eq!(display(true, true).plan_line(Span::Seconds(1), 2, 7, &config()), None);
}

#[test]
fn starts_are_shown_without_a_terminal() {
    let mut log = display(false, false);
    let line = log.started(1, 0, Some(Span::Seconds(61)));
    assert_eq!(line.unwrap(), "[2/3] start: second (1m 01s)");
    assert_eq!(log.started(0, 0, None).unwrap(), "[1/3] start: first (unknown)");
    assert_eq!(display(false, true).started(1, 0, None), None);
    assert_eq!(display(true, false).started(1, 0, None), None);
}

#[test]
fn ends_are_shown() {
    let mut shown = display(false, true);
    shown.started(0, 0, None);
    shown.started(1, 0, None);
    assert!(!shown.finished(0, false));
    assert_eq!(
        shown.done_line("first", Span::Seconds(90), Span::Tenths(5), "2.00", "0s").unwrap(),
        "[1/3] done: first | media 1m 30s | took 0.5s | 2.00x | ETA 0s"
    );
    shown.finished(1, true);
    assert_eq!(shown.failed_line("second", "broken"), "[2/3] failed: second: broken");
    assert_eq!(
        shown.closing_line(Span::Seconds(3), Span::Seconds(90), "30.00").unwrap(),
        "finished: 2 track(s), 1 failed | elapsed 3s | media 1m 30s | average 30.00x realtime"
    );
    let quiet = display(true, true);
    assert_eq!(quiet.done_line("first", Span::Seconds(1), Span::Seconds(1), "1.00", "0s"), None);
    assert_eq!(quiet.closing_line(Span::Seconds(1), Span::Seconds(1), "1.00"), None);
    assert_eq!(quiet.failed_line("first", "broken"), "[0/3] failed: first: broken");
}

#[test]
fn the_progress_line_is_drawn_on_terminals() {
    let mut shown = display(false, true);
    assert!(shown.draws(true, 0));
    assert!(shown.draws(false, 200));
    assert!(!shown.draws(false, 199));
    assert!(!display(true, true).draws(true, 1_000));
    assert!(!display(false, false).draws(true, 1_000));
    let line = shown.draw(
        " 12.5",
        "first 25%",
        Span::Seconds(10),
        Some(Span::Seconds(80)),
        Span::Seconds(5),
        "35s",
        "2.00",
    );
    assert_eq!(
        line,
        "[ 12.5% | 0/3] first 25% | media 10s/1m 20s | elapsed 5s | ETA 35s | 2.00x"
    );
    assert!(shown.line_visible);
    assert!(shown.clear_line());
    assert!(!shown.clear_line());
}

#[test]
fn the_first_active_track_is_named() {
    let mut shown = display(false, true);
    assert_eq!(shown.active_text("0"), "finalizing");
    assert_eq!(shown.first_active(), None);
    shown.started(2, 0, None);
    assert_eq!(shown.active_text("7"), format!("{}… 7%", "a".repeat(25)));
    shown.started(1, 0, None);
    shown.progress(1, 5);
    assert_eq!(shown.first_active(), Some(1));
    assert_eq!(shown.active[&1], 5);
    assert_eq!(shown.active_text("50"), "second 50% (+1)");
    shown.finished(1, false);
    assert_eq!(shown.first_active(), Some(2));
    assert_eq!((shown.completed, shown.failures), (1, 0));
}
