use master_duel_bgms::cli::Cli;
use master_duel_bgms::run::{
    encoder_threads, failures_message, indexed_line, listing_line, prunes_missing, unchanged_line,
    up_to_date_line, updated_line, Run, RunEvent, RunFailure, RunStage,
};

fn stages(cli: &Cli, events: &[RunEvent]) -> Vec<RunStage> {
    let mut run = Run::new();
    let mut met = vec![run.stage];
    for event in events {
        run.advance(*event, cli);
        met.push(run.stage);
    }
    met
}

fn last(cli: &Cli, events: &[RunEvent]) -> RunStage {
    stages(cli, events)[events.len()]
}

fn prepared(queued: usize) -> Vec<RunEvent> {
    vec![
        RunEvent::Succeeded,
        RunEvent::Discovered(5),
        RunEvent::Succeeded,
        RunEvent::Succeeded,
        RunEvent::Succeeded,
        RunEvent::Prepared(queued),
        RunEvent::Succeeded,
    ]
}

#[test]
fn a_run_goes_through_its_stages() {
    let mut events = prepared(5);
    events.extend_from_slice(&[RunEvent::Rendered(0), RunEvent::Succeeded]);
    assert_eq!(
        stages(&Cli::default(), &events),
        [
            RunStage::Checking,
            RunStage::Discovering,
            RunStage::Resolving,
            RunStage::MakingDirectory,
            RunStage::Loading,
            RunStage::Preparing { prune_missing: true },
            RunStage::Saving,
            RunStage::Rendering(2),
            RunStage::SayingUpdated,
            RunStage::Done,
        ]
    );
}

#[test]
fn a_dry_run_only_lists() {
    let mut cli = Cli::default();
    cli.dry_run = true;
    cli.limit = Some(3);
    let events = [RunEvent::Succeeded, RunEvent::Discovered(5), RunEvent::Succeeded];
    assert_eq!(
        stages(&cli, &events),
        [RunStage::Checking, RunStage::Discovering, RunStage::Listing, RunStage::Done]
    );
    let mut run = Run::new();
    run.advance(RunEvent::Succeeded, &cli);
    run.advance(RunEvent::Discovered(5), &cli);
    assert_eq!(run.selected, 3);
}

#[test]
fn only_a_run_without_a_limit_prunes() {
    let mut cli = Cli::default();
    assert!(prunes_missing(&cli));
    cli.limit = Some(3);
    assert!(!prunes_missing(&cli));
    let events = &prepared(1)[..5];
    assert_eq!(last(&cli, events), RunStage::Preparing { prune_missing: false });
}

#[test]
fn a_run_for_the_summary_renders_nothing() {
    let mut cli = Cli::default();
    cli.summary_only = true;
    assert_eq!(last(&cli, &prepared(5)), RunStage::SayingIndexed);
    assert_eq!(last(&cli, &prepared(0)), RunStage::SayingIndexed);
}

#[test]
fn a_run_without_work_says_so() {
    assert_eq!(last(&Cli::default(), &prepared(0)), RunStage::SayingUpToDate);
    assert_eq!(last(&Cli::default(), &prepared(1)), RunStage::Rendering(1));
}

#[test]
fn failed_tracks_fail_a_run() {
    let mut events = prepared(5);
    events.extend_from_slice(&[RunEvent::Rendered(2), RunEvent::Succeeded]);
    assert_eq!(last(&Cli::default(), &events), RunStage::Failed(RunFailure::Tracks(2)));
    assert_eq!(
        failures_message(2, "/p/summary.json"),
        "2 track(s) failed; details were saved to /p/summary.json"
    );
}

#[test]
fn every_step_of_a_run_can_fail() {
    let cli = Cli::default();
    let failures = [
        RunFailure::Options,
        RunFailure::Discovery,
        RunFailure::Encoder,
        RunFailure::Directory,
        RunFailure::Load,
        RunFailure::Prepare,
        RunFailure::Save,
        RunFailure::Record,
    ];
    for (count, failure) in failures.into_iter().enumerate() {
        let mut events = prepared(5)[..count].to_vec();
        events.push(RunEvent::Failed);
        assert_eq!(last(&cli, &events), RunStage::Failed(failure));
    }
    let none = [RunEvent::Succeeded, RunEvent::Discovered(0)];
    assert_eq!(last(&cli, &none), RunStage::Failed(RunFailure::NoTracks));
}

#[test]
fn threads_are_shared_out() {
    assert_eq!(encoder_threads(Some(16), 2), 7);
    assert_eq!(encoder_threads(Some(16), 3), 5);
    assert_eq!(encoder_threads(Some(8), 8), 1);
    assert_eq!(encoder_threads(Some(1), 2), 1);
    assert_eq!(encoder_threads(None, 1), 1);
    assert_eq!(encoder_threads(Some(usize::MAX), 1), usize::MAX - 1);
}

#[test]
fn what_a_run_says() {
    let mut cli = Cli::default();
    let mut run = Run::new();
    run.selected = 5;
    run.queued = 2;
    assert_eq!(
        listing_line(0, 5, "/m/a.wav", "/o/a.mp4", "a"),
        "[1/5] /m/a.wav -> /o/a.mp4 (a)"
    );
    assert_eq!(
        indexed_line(&run, "/p/s.json", &cli).unwrap(),
        "indexed 5 track(s) in /p/s.json without rendering"
    );
    assert_eq!(unchanged_line(&run, &cli).unwrap(), "unchanged: 3");
    assert_eq!(up_to_date_line(&cli).unwrap(), "all outputs are up to date");
    assert_eq!(updated_line("/p/s.json", &cli).unwrap(), "summary updated: /p/s.json");
    run.queued = 5;
    assert_eq!(unchanged_line(&run, &cli), None);
    cli.quiet = true;
    run.queued = 2;
    assert_eq!(indexed_line(&run, "/p/s.json", &cli), None);
    assert_eq!(unchanged_line(&run, &cli), None);
    assert_eq!(up_to_date_line(&cli), None);
    assert_eq!(updated_line("/p/s.json", &cli), None);
}
