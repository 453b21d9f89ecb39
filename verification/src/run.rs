//! The course of a run: what it does with the tracks that were found, and what
//! it says.
use vstd::arithmetic::div_mod;
use vstd::prelude::*;

use crate::batch;
use crate::cli::Cli;
use crate::display;
use crate::manifest;
use crate::manifest::{Entry, Observation, Terms};
use crate::number;

verus! {

// ---------------------------------------------------------------------------
// The course of a run
// ---------------------------------------------------------------------------

/// Why a run failed.
#[derive(Clone, Copy, Debug, PartialEq, Eq, Structural)]
pub enum RunFailure {
    /// The options have a fault.
    Options,
    /// The tracks could not be found.
    Discovery,
    /// There are no tracks.
    NoTracks,
    /// There is no encoder.
    Encoder,
    /// The directory of the videos could not be created.
    Directory,
    /// The summary could not be loaded.
    Load,
    /// A source could not be inspected.
    Prepare,
    /// The summary could not be saved.
    Save,
    /// The outcome of a track could not be recorded.
    Record,
    /// So many tracks failed.
    Tracks(usize),
}

/// What a run is to do next.
#[derive(Clone, Copy, Debug, PartialEq, Eq, Structural)]
pub enum RunStage {
    /// Check the options.
    Checking,
    /// Find the tracks.
    Discovering,
    /// List the selected tracks.
    Listing,
    /// Choose an encoder.
    Resolving,
    /// Create the directory of the videos.
    MakingDirectory,
    /// Load the summary.
    Loading,
    /// Settle the selected tracks in the summary.
    Preparing {
        /// Whether the entries of other tracks are dropped.
        prune_missing: bool,
    },
    /// Save the summary.
    Saving,
    /// Say that the summary was updated and nothing rendered.
    SayingIndexed,
    /// Say that there is nothing to render.
    SayingUpToDate,
    /// Render the tracks that are not current, this many at a time, and record
    /// and save every outcome.
    Rendering(usize),
    /// Say that the summary was updated.
    SayingUpdated,
    /// Nothing: the run is complete.
    Done,
    /// Nothing: the run failed.
    Failed(RunFailure),
}

/// How what was to be done went.
#[derive(Clone, Copy, Debug, PartialEq, Eq, Structural)]
pub enum RunEvent {
    /// It worked.
    Succeeded,
    /// It did not work.
    Failed,
    /// So many tracks were found.
    Discovered(usize),
    /// So many tracks are to be rendered.
    Prepared(usize),
    /// All outcomes were recorded; so many tracks failed.
    Rendered(usize),
}

/// The course of one run.
#[derive(Clone, Copy, Debug, PartialEq, Eq, Structural)]
pub struct Run {
    /// What is to be done next.
    pub stage: RunStage,
    /// How many tracks are selected.
    pub selected: usize,
    /// How many tracks are to be rendered.
    pub queued: usize,
    /// How many tracks failed.
    pub failures: usize,
}

/// What the course of a run depends on.
pub struct RunOptions {
    pub limit: Option<usize>,
    pub dry_run: bool,
    pub summary_only: bool,
    pub jobs: usize,
}

/// What the course of a run depends on among its options.
pub open spec fn options_of(cli: Cli) -> RunOptions {
    RunOptions {
        limit: cli.limit,
        dry_run: cli.dry_run,
        summary_only: cli.summary_only,
        jobs: cli.jobs,
    }
}

/// How many of the tracks that were found are selected.
pub open spec fn selected(found: usize, limit: Option<usize>) -> usize {
    match limit {
        Some(limit) => if limit < found {
            limit
        } else {
            found
        },
        None => found,
    }
}

/// A run at a stage.
pub open spec fn at_stage(run: Run, stage: RunStage) -> Run {
    Run { stage, ..run }
}

/// A run at a stage if what was to be done worked, else failed.
pub open spec fn on_success(
    run: Run,
    event: RunEvent,
    stage: RunStage,
    failure: RunFailure,
) -> Run {
    match event {
        RunEvent::Succeeded => at_stage(run, stage),
        RunEvent::Failed => at_stage(run, RunStage::Failed(failure)),
        _ => run,
    }
}

/// A run after an event. An event that does not answer the stage changes
/// nothing.
pub open spec fn run_next(run: Run, event: RunEvent, options: RunOptions) -> Run {
    match run.stage {
        RunStage::Checking => on_success(run, event, RunStage::Discovering, RunFailure::Options),
        RunStage::Discovering => match event {
            RunEvent::Discovered(found) => if found == 0 {
                at_stage(run, RunStage::Failed(RunFailure::NoTracks))
            } else {
                Run {
                    stage: if options.dry_run {
                        RunStage::Listing
                    } else {
                        RunStage::Resolving
                    },
                    selected: selected(found, options.limit),
                    ..run
                }
            },
            RunEvent::Failed => at_stage(run, RunStage::Failed(RunFailure::Discovery)),
            _ => run,
        },
        RunStage::Listing => match event {
            RunEvent::Succeeded => at_stage(run, RunStage::Done),
            _ => run,
        },
        RunStage::Resolving => on_success(
            run,
            event,
            RunStage::MakingDirectory,
            RunFailure::Encoder,
        ),
        RunStage::MakingDirectory => on_success(
            run,
            event,
            RunStage::Loading,
            RunFailure::Directory,
        ),
        RunStage::Loading => on_success(
            run,
            event,
            RunStage::Preparing { prune_missing: options.limit is None },
            RunFailure::Load,
        ),
        RunStage::Preparing { prune_missing } => match event {
            RunEvent::Prepared(queued) => Run { stage: RunStage::Saving, queued, ..run },
            RunEvent::Failed => at_stage(run, RunStage::Failed(RunFailure::Prepare)),
            _ => run,
        },
        RunStage::Saving => on_success(
            run,
            event,
            if options.summary_only {
                RunStage::SayingIndexed
            } else if run.queued == 0 {
                RunStage::SayingUpToDate
            } else {
                RunStage::Rendering(
                    batch::workers(options.jobs as nat, run.queued as nat) as usize,
                )
            },
            RunFailure::Save,
        ),
        RunStage::SayingIndexed => match event {
            RunEvent::Succeeded => at_stage(run, RunStage::Done),
            _ => run,
        },
        RunStage::SayingUpToDate => match event {
            RunEvent::Succeeded => at_stage(run, RunStage::Done),
            _ => run,
        },
        RunStage::Rendering(workers) => match event {
            RunEvent::Rendered(failures) => Run { stage: RunStage::SayingUpdated, failures, ..run },
            RunEvent::Failed => at_stage(run, RunStage::Failed(RunFailure::Record)),
            _ => run,
        },
        RunStage::SayingUpdated => match event {
            RunEvent::Succeeded => at_stage(
                run,
                if run.failures > 0 {
                    RunStage::Failed(RunFailure::Tracks(run.failures))
                } else {
                    RunStage::Done
                },
            ),
            _ => run,
        },
        RunStage::Done => run,
        RunStage::Failed(failure) => run,
    }
}

/// Whether a run drops the entries of tracks that it did not select: only where
/// it selects all.
pub fn prunes_missing(cli: &Cli) -> (r: bool)
    ensures
        r == (cli.limit is None),
{
    cli.limit.is_none()
}

/// A run that has not begun.
pub open spec fn new_run() -> Run {
    Run { stage: RunStage::Checking, selected: 0, queued: 0, failures: 0 }
}

impl Run {
    /// A run that has not begun.
    pub fn new() -> (r: Run)
        ensures
            r == new_run(),
    {
        Run { stage: RunStage::Checking, selected: 0, queued: 0, failures: 0 }
    }

    /// Goes to the stage if what was to be done worked, else fails.
    fn go(&mut self, event: RunEvent, stage: RunStage, failure: RunFailure)
        ensures
            *final(self) == on_success(*old(self), event, stage, failure),
    {
        match event {
            RunEvent::Succeeded => {
                self.stage = stage;
            },
            RunEvent::Failed => {
                self.stage = RunStage::Failed(failure);
            },
            _ => {},
        }
    }

    /// Takes how what was to be done went. An event that does not answer the
    /// stage changes nothing.
    pub fn advance(&mut self, event: RunEvent, cli: &Cli)
        ensures
            *final(self) == run_next(*old(self), event, options_of(*cli)),
    {
        match self.stage {
            RunStage::Checking => {
                self.go(event, RunStage::Discovering, RunFailure::Options);
            },
            RunStage::Discovering => match event {
                RunEvent::Discovered(found) => {
                    if found == 0 {
                        self.stage = RunStage::Failed(RunFailure::NoTracks);
                    } else {
                        self.stage = if cli.dry_run {
                            RunStage::Listing
                        } else {
                            RunStage::Resolving
                        };
                        self.selected = match cli.limit {
                            Some(limit) => if limit < found {
                                limit
                            } else {
                                found
                            },
                            None => found,
                        };
                    }
                },
                RunEvent::Failed => {
                    self.stage = RunStage::Failed(RunFailure::Discovery);
                },
                _ => {},
            },
            RunStage::Listing => {
                if event == RunEvent::Succeeded {
                    self.stage = RunStage::Done;
                }
            },
            RunStage::Resolving => {
                self.go(event, RunStage::MakingDirectory, RunFailure::Encoder);
            },
            RunStage::MakingDirectory => {
                self.go(event, RunStage::Loading, RunFailure::Directory);
            },
            RunStage::Loading => {
                let prune_missing: bool = prunes_missing(cli);
                self.go(event, RunStage::Preparing { prune_missing }, RunFailure::Load);
            },
            RunStage::Preparing { prune_missing } => match event {
                RunEvent::Prepared(queued) => {
                    self.stage = RunStage::Saving;
                    self.queued = queued;
                },
                RunEvent::Failed => {
                    self.stage = RunStage::Failed(RunFailure::Prepare);
                },
                _ => {},
            },
            RunStage::Saving => {
                let stage = if cli.summary_only {
                    RunStage::SayingIndexed
                } else if self.queued == 0 {
                    RunStage::SayingUpToDate
                } else {
                    RunStage::Rendering(batch::worker_count(cli.jobs, self.queued))
                };
                self.go(event, stage, RunFailure::Save);
            },
            RunStage::SayingIndexed => {
                if event == RunEvent::Succeeded {
                    self.stage = RunStage::Done;
                }
            },
            RunStage::SayingUpToDate => {
                if event == RunEvent::Succeeded {
                    self.stage = RunStage::Done;
                }
            },
            RunStage::Rendering(workers) => match event {
                RunEvent::Rendered(failures) => {
                    self.stage = RunStage::SayingUpdated;
                    self.failures = failures;
                },
                RunEvent::Failed => {
                    self.stage = RunStage::Failed(RunFailure::Record);
                },
                _ => {},
            },
            RunStage::SayingUpdated => {
                if event == RunEvent::Succeeded {
                    self.stage = if self.failures > 0 {
                        RunStage::Failed(RunFailure::Tracks(self.failures))
                    } else {
                        RunStage::Done
                    };
                }
            },
            RunStage::Done => {},
            RunStage::Failed(failure) => {},
        }
    }
}

// ---------------------------------------------------------------------------
// Laws of the course
// ---------------------------------------------------------------------------

/// A run after events.
pub open spec fn run_after(events: Seq<RunEvent>, options: RunOptions) -> Run
    decreases events.len(),
{
    if events.len() == 0 {
        new_run()
    } else {
        run_next(run_after(events.drop_last(), options), events.last(), options)
    }
}

/// Whether something is written to disk at a stage.
pub open spec fn writes(stage: RunStage) -> bool {
    stage is MakingDirectory || stage is Saving || stage is Rendering
}

/// A dry run checks the options, finds the tracks and lists them, and no more: no
/// encoder is probed, no summary is loaded, and nothing is written.
pub proof fn law_dry_run_only_lists(events: Seq<RunEvent>, options: RunOptions)
    requires
        options.dry_run,
    ensures
        ({
            let stage = run_after(events, options).stage;
            ||| stage is Checking
            ||| stage is Discovering
            ||| stage is Listing
            ||| stage is Done
            ||| stage is Failed
        }),
        run_after(events, options).stage !is Resolving,
        run_after(events, options).stage !is Loading,
        !writes(run_after(events, options).stage),
    decreases events.len(),
{
    if events.len() > 0 {
        law_dry_run_only_lists(events.drop_last(), options);
    }
}

/// Entries of other tracks are dropped exactly in runs without a limit.
pub proof fn law_only_runs_without_limit_prune(events: Seq<RunEvent>, options: RunOptions)
    ensures
        run_after(events, options).stage matches RunStage::Preparing { prune_missing }
            ==> prune_missing == (options.limit is None),
    decreases events.len(),
{
    if events.len() > 0 {
        law_only_runs_without_limit_prune(events.drop_last(), options);
    }
}

/// A run with a limit keeps every entry of a track that it did not select.
pub proof fn law_limited_run_keeps_other_entries(
    events: Seq<RunEvent>,
    options: RunOptions,
    known: Map<Seq<char>, Entry>,
    seen: Seq<Observation>,
    terms: Terms,
    source: Seq<char>,
)
    requires
        options.limit is Some,
        run_after(events, options).stage is Preparing,
        !manifest::observed(seen, source),
    ensures
        ({
            let prune_missing = run_after(events, options).stage->prune_missing;
            let after = manifest::prepared(known, seen, terms, prune_missing);
            &&& after.contains_key(source) == known.contains_key(source)
            &&& known.contains_key(source) ==> after[source] == known[source]
        }),
{
    law_only_runs_without_limit_prune(events, options);
    manifest::law_other_tracks_are_kept(known, seen, terms, source);
}

/// A run that only updates the summary renders nothing.
pub proof fn law_summary_only_renders_nothing(events: Seq<RunEvent>, options: RunOptions)
    requires
        options.summary_only,
    ensures
        run_after(events, options).stage !is Rendering,
    decreases events.len(),
{
    if events.len() > 0 {
        law_summary_only_renders_nothing(events.drop_last(), options);
    }
}

/// Whether a run stood at a stage and went on from it when the event at a
/// position came.
pub open spec fn passed(
    events: Seq<RunEvent>,
    options: RunOptions,
    position: int,
    stage: RunStage,
) -> bool {
    &&& 0 <= position < events.len()
    &&& run_after(events.take(position), options).stage == stage
    &&& run_after(events.take(position + 1), options).stage != stage
}

/// Before anything is rendered, the summary is saved with the tracks pending;
/// and rendering starts only where there is something to render.
pub proof fn law_summary_is_saved_before_rendering(events: Seq<RunEvent>, options: RunOptions)
    requires
        run_after(events, options).stage is Rendering,
    ensures
        run_after(events, options).queued > 0,
        exists|position: int| #[trigger] passed(events, options, position, RunStage::Saving),
    decreases events.len(),
{
    let earlier = events.drop_last();
    assert(events.take(events.len() - 1) =~= earlier);
    assert(events.take(events.len() as int) =~= events);
    if run_after(earlier, options).stage is Rendering {
        law_summary_is_saved_before_rendering(earlier, options);
        let position = choose|position: int| #[trigger]
            passed(earlier, options, position, RunStage::Saving);
        assert(earlier.take(position) =~= events.take(position));
        assert(earlier.take(position + 1) =~= events.take(position + 1));
        assert(passed(events, options, position, RunStage::Saving));
    } else {
        assert(passed(events, options, events.len() - 1, RunStage::Saving));
    }
}

/// A run in which tracks failed does not succeed.
pub proof fn law_failed_tracks_fail_the_run(events: Seq<RunEvent>, options: RunOptions)
    ensures
        run_after(events, options).stage is Done ==> run_after(events, options).failures == 0,
    decreases events.len(),
{
    lemma_failures(events, options);
}

/// Failures are known only once the tracks were rendered.
proof fn lemma_failures(events: Seq<RunEvent>, options: RunOptions)
    ensures
        ({
            let run = run_after(events, options);
            run.failures > 0 ==> run.stage is SayingUpdated || run.stage == RunStage::Failed(
                RunFailure::Tracks(run.failures),
            )
        }),
    decreases events.len(),
{
    if events.len() > 0 {
        lemma_failures(events.drop_last(), options);
    }
}

/// No more tracks are selected than the limit says, and none are left out
/// without one.
pub proof fn law_limit_is_kept(found: usize, limit: Option<usize>)
    ensures
        selected(found, limit) <= found,
        limit matches Some(limit) ==> selected(found, Some(limit)) <= limit,
        limit is None ==> selected(found, limit) == found,
{
}

// ---------------------------------------------------------------------------
// Threads
// ---------------------------------------------------------------------------

/// The number of threads of each encoder, where `jobs` run at a time on a
/// machine that runs `parallelism` threads at a time: what is left beside one
/// thread for each job, shared out and rounded up, and at least one.
pub open spec fn threads_each(parallelism: int, jobs: int) -> int {
    if parallelism <= jobs {
        1
    } else {
        (parallelism - jobs + jobs - 1) / jobs
    }
}

/// The number of threads of each encoder, given how many threads the machine
/// runs at a time, where that is known.
pub fn encoder_threads(parallelism: Option<usize>, jobs: usize) -> (r: usize)
    requires
        jobs > 0,
    ensures
        r == threads_each(
            match parallelism {
                Some(parallelism) => parallelism as int,
                None => 2,
            },
            jobs as int,
        ),
{
    let available: usize = match parallelism {
        Some(parallelism) => parallelism,
        None => 2,
    };
    if available <= jobs {
        return 1;
    }
    let rest: usize = available - jobs;
    proof {
        assert((available - jobs + jobs - 1) / (jobs as int) == (rest - 1) / (jobs as int) + 1)
            by {
            div_mod::lemma_div_plus_one((rest - 1) as int, jobs as int);
        }
        assert((rest - 1) / (jobs as int) <= rest - 1) by {
            div_mod::lemma_div_is_ordered_by_denominator((rest - 1) as int, 1, jobs as int);
        }
    }
    (rest - 1) / jobs + 1
}

/// The encoders together leave room: their threads are fewer than the machine
/// runs at a time, as long as there are fewer jobs than that.
pub proof fn law_threads_fit(parallelism: int, jobs: int)
    requires
        0 < jobs < parallelism,
    ensures
        jobs * threads_each(parallelism, jobs) < parallelism,
        parallelism <= jobs * threads_each(parallelism, jobs) + jobs,
{
    let sum = parallelism - 1;
    assert(threads_each(parallelism, jobs) == sum / jobs);
    div_mod::lemma_fundamental_div_mod(sum, jobs);
    div_mod::lemma_mod_bound(sum, jobs);
}

/// Every encoder has a thread.
pub proof fn law_every_encoder_has_a_thread(parallelism: int, jobs: int)
    requires
        0 < jobs,
    ensures
        threads_each(parallelism, jobs) >= 1,
{
    if parallelism > jobs {
        div_mod::lemma_div_is_ordered(jobs, parallelism - 1, jobs);
        div_mod::lemma_div_by_self(jobs);
    }
}

// ---------------------------------------------------------------------------
// What a run says
// ---------------------------------------------------------------------------

/// The line that lists a track.
pub open spec fn listing(
    position: nat,
    count: nat,
    source: Seq<char>,
    output: Seq<char>,
    title: Seq<char>,
) -> Seq<char> {
    display::fraction(position + 1, count) + source + " -> "@ + output + " ("@ + title + ")"@
}

/// The line that lists the track at a position.
pub fn listing_line(position: usize, count: usize, source: &str, output: &str, title: &str) -> (r:
    String)
    requires
        position < count,
    ensures
        r@ == listing(position as nat, count as nat, source@, output@, title@),
{
    let mut r = display::fraction_text(position + 1, count);
    r.append(source);
    r.append(" -> ");
    r.append(output);
    r.append(" (");
    r.append(title);
    r.append(")");
    r
}

/// The line of a run that only updates the summary, where it is shown.
pub fn indexed_line(run: &Run, summary: &str, cli: &Cli) -> (r: Option<String>)
    ensures
        match r {
            Some(line) => !cli.quiet && line@ == "indexed "@ + number::decimal(
                run.selected as nat,
            ) + " track(s) in "@ + summary@ + " without rendering"@,
            None => cli.quiet,
        },
{
    if cli.quiet {
        return None;
    }
    let mut line = "indexed ".to_owned();
    line.append(number::decimal_text(run.selected as u64).as_str());
    line.append(" track(s) in ");
    line.append(summary);
    line.append(" without rendering");
    Some(line)
}

/// The line that says how many of the selected tracks are current, where there
/// are any and it is shown.
pub fn unchanged_line(run: &Run, cli: &Cli) -> (r: Option<String>)
    requires
        run.queued <= run.selected,
    ensures
        match r {
            Some(line) => !cli.quiet && run.queued < run.selected && line@ == "unchanged: "@
                + number::decimal((run.selected - run.queued) as nat),
            None => cli.quiet || run.queued == run.selected,
        },
{
    let unchanged: usize = run.selected - run.queued;
    if unchanged == 0 || cli.quiet {
        return None;
    }
    let mut line = "unchanged: ".to_owned();
    line.append(number::decimal_text(unchanged as u64).as_str());
    Some(line)
}

/// The line that says that there is nothing to render, where it is shown.
pub fn up_to_date_line(cli: &Cli) -> (r: Option<String>)
    ensures
        match r {
            Some(line) => !cli.quiet && line@ == "all outputs are up to date"@,
            None => cli.quiet,
        },
{
    if cli.quiet {
        return None;
    }
    Some("all outputs are up to date".to_owned())
}

/// The line that ends a run that rendered, where it is shown.
pub fn updated_line(summary: &str, cli: &Cli) -> (r: Option<String>)
    ensures
        match r {
            Some(line) => !cli.quiet && line@ == "summary updated: "@ + summary@,
            None => cli.quiet,
        },
{
    if cli.quiet {
        return None;
    }
    let mut line = "summary updated: ".to_owned();
    line.append(summary);
    Some(line)
}

/// What a run fails with where tracks failed.
pub fn failures_message(failures: usize, summary: &str) -> (r: String)
    ensures
        r@ == number::decimal(failures as nat) + " track(s) failed; details were saved to "@
            + summary@,
{
    let mut message = number::decimal_text(failures as u64);
    message.append(" track(s) failed; details were saved to ");
    message.append(summary);
    message
}

// ---------------------------------------------------------------------------
// Laws of the steps, the threads and the lines
// ---------------------------------------------------------------------------

/// A new run has its options to check, and nothing is selected, queued or failed.
pub proof fn law_new_run_checks_its_options(run: Run)
    requires
        call_ensures(Run::new, (), run),
    ensures
        run.stage is Checking,
        run.selected == 0,
        run.queued == 0,
        run.failures == 0,
{
}

/// Where all goes well, a run checks, finds tracks, and then either lists them and is
/// done, or goes on to choose an encoder, to make the directory, to load, to prepare
/// and to save the summary.
pub proof fn law_run_goes_on_where_all_is_well(run: &mut Run, event: RunEvent, cli: &Cli, r: ())
    requires
        call_ensures(Run::advance, (run, event, cli), r),
    ensures
        event == RunEvent::Succeeded ==> {
            &&& old(run).stage is Checking ==> final(run).stage is Discovering
            &&& old(run).stage is Listing ==> final(run).stage is Done
            &&& old(run).stage is Resolving ==> final(run).stage is MakingDirectory
            &&& old(run).stage is MakingDirectory ==> final(run).stage is Loading
            &&& old(run).stage is Loading ==> final(run).stage is Preparing
            &&& old(run).stage is SayingIndexed ==> final(run).stage is Done
            &&& old(run).stage is SayingUpToDate ==> final(run).stage is Done
        },
        old(run).stage is Discovering && event is Discovered && event->Discovered_0 > 0 ==> {
            &&& cli.dry_run ==> final(run).stage is Listing
            &&& !cli.dry_run ==> final(run).stage is Resolving
        },
        old(run).stage is Preparing && event is Prepared ==> final(run).stage is Saving
            && final(run).queued == event->Prepared_0,
{
}

/// As many tracks are selected as were found, or as the limit says where that is less.
pub proof fn law_tracks_are_selected_up_to_the_limit(
    run: &mut Run,
    found: usize,
    cli: &Cli,
    r: (),
)
    requires
        old(run).stage is Discovering,
        found > 0,
        call_ensures(Run::advance, (run, RunEvent::Discovered(found), cli), r),
    ensures
        final(run).selected <= found,
        cli.limit is None ==> final(run).selected == found,
        cli.limit matches Some(limit) ==> {
            &&& final(run).selected <= limit
            &&& final(run).selected == limit || final(run).selected == found
        },
        final(run).queued == old(run).queued,
        final(run).failures == old(run).failures,
{
}

/// Entries of other tracks are dropped exactly where there is no limit.
pub proof fn law_limit_decides_what_is_dropped(run: &mut Run, cli: &Cli, r: (), prunes: bool)
    requires
        old(run).stage is Loading,
        call_ensures(Run::advance, (run, RunEvent::Succeeded, cli), r),
        call_ensures(prunes_missing, (cli,), prunes),
    ensures
        final(run).stage == (RunStage::Preparing { prune_missing: prunes }),
        prunes <==> cli.limit is None,
{
}

/// Once the summary is saved, a run that only updates it says so. Another one renders
/// what is queued, with as many workers as can be, or says that nothing is.
pub proof fn law_queued_tracks_are_rendered(run: &mut Run, cli: &Cli, r: (), workers: usize)
    requires
        old(run).stage is Saving,
        call_ensures(Run::advance, (run, RunEvent::Succeeded, cli), r),
        call_ensures(batch::worker_count, (cli.jobs, old(run).queued), workers),
    ensures
        cli.summary_only ==> final(run).stage is SayingIndexed,
        !cli.summary_only && old(run).queued == 0 ==> final(run).stage is SayingUpToDate,
        !cli.summary_only && old(run).queued > 0 ==> final(run).stage == RunStage::Rendering(
            workers,
        ),
        final(run).selected == old(run).selected,
        final(run).queued == old(run).queued,
{
}

/// After rendering, the failures are taken over and the summary is said to be updated;
/// then the run is done where none failed, and has failed with their number else.
pub proof fn law_failed_tracks_are_reported(run: &mut Run, event: RunEvent, cli: &Cli, r: ())
    requires
        call_ensures(Run::advance, (run, event, cli), r),
    ensures
        old(run).stage is Rendering && event is Rendered ==> final(run).stage is SayingUpdated
            && final(run).failures == event->Rendered_0,
        old(run).stage is SayingUpdated && event is Succeeded && old(run).failures == 0 ==> final(run).stage is Done,
        old(run).stage is SayingUpdated && event is Succeeded && old(run).failures > 0 ==> final(run).stage == RunStage::Failed(RunFailure::Tracks(old(run).failures)),
{
}

/// What does not work fails a run, each stage in its own way; so does finding no
/// tracks.
pub proof fn law_each_stage_fails_in_its_own_way(run: &mut Run, event: RunEvent, cli: &Cli, r: ())
    requires
        call_ensures(Run::advance, (run, event, cli), r),
    ensures
        event is Failed ==> final(run).stage == match old(run).stage {
            RunStage::Checking => RunStage::Failed(RunFailure::Options),
            RunStage::Discovering => RunStage::Failed(RunFailure::Discovery),
            RunStage::Resolving => RunStage::Failed(RunFailure::Encoder),
            RunStage::MakingDirectory => RunStage::Failed(RunFailure::Directory),
            RunStage::Loading => RunStage::Failed(RunFailure::Load),
            RunStage::Preparing { prune_missing } => RunStage::Failed(RunFailure::Prepare),
            RunStage::Saving => RunStage::Failed(RunFailure::Save),
            RunStage::Rendering(workers) => RunStage::Failed(RunFailure::Record),
            stage => stage,
        },
        old(run).stage is Discovering && event == RunEvent::Discovered(0) ==> final(run).stage
            == RunStage::Failed(RunFailure::NoTracks),
        final(run).stage is Failed && old(run).stage !is Failed ==> event is Failed || event
            == RunEvent::Discovered(0) || old(run).failures > 0,
{
}

/// A run that is done or has failed stays so. An answer to another stage changes
/// nothing.
pub proof fn law_other_answers_change_nothing(run: &mut Run, event: RunEvent, cli: &Cli, r: ())
    requires
        call_ensures(Run::advance, (run, event, cli), r),
    ensures
        old(run).stage is Done || old(run).stage is Failed ==> *final(run) == *old(run),
        event is Discovered && old(run).stage !is Discovering ==> *final(run) == *old(run),
        event is Prepared && old(run).stage !is Preparing ==> *final(run) == *old(run),
        event is Rendered && old(run).stage !is Rendering ==> *final(run) == *old(run),
        event is Succeeded && (old(run).stage is Discovering || old(run).stage is Preparing || old(run).stage is Rendering) ==> *final(run) == *old(run),
        event !is Prepared ==> final(run).queued == old(run).queued,
        event !is Rendered ==> final(run).failures == old(run).failures,
        event !is Discovered ==> final(run).selected == old(run).selected,
{
}

/// An encoder has one thread where there are no more threads than jobs. Otherwise the
/// encoders have as many threads as leaves at least one thread over, and at most as
/// many as there are jobs. Where the machine does not tell, it is taken to run two
/// threads at a time.
pub proof fn law_threads_are_shared_out(
    parallelism: usize,
    jobs: usize,
    r: usize,
    unknown: usize,
    two: usize,
)
    requires
        jobs > 0,
        call_ensures(encoder_threads, (Some(parallelism), jobs), r),
        call_ensures(encoder_threads, (None, jobs), unknown),
        call_ensures(encoder_threads, (Some(2usize), jobs), two),
    ensures
        parallelism <= jobs ==> r == 1,
        parallelism > jobs ==> jobs * r < parallelism <= jobs * r + jobs,
        r >= 1,
        unknown == two,
{
    law_every_encoder_has_a_thread(parallelism as int, jobs as int);
    if parallelism > jobs {
        law_threads_fit(parallelism as int, jobs as int);
    }
}

/// A track is listed with its place, counted from one, how many there are, its file,
/// its video and its title.
pub proof fn law_tracks_are_listed(
    position: usize,
    count: usize,
    source: &str,
    output: &str,
    title: &str,
    r: String,
)
    requires
        position < count,
        call_ensures(listing_line, (position, count, source, output, title), r),
    ensures
        r@ == "["@ + number::decimal((position + 1) as nat) + "/"@ + number::decimal(count as nat)
            + "] "@ + source@ + " -> "@ + output@ + " ("@ + title@ + ")"@,
{
}

/// Unless it is quiet, a run tells how many tracks it indexed, that all is up to date,
/// or that the summary was updated.
pub proof fn law_runs_tell_what_they_did(
    run: &Run,
    summary: &str,
    cli: &Cli,
    indexed: Option<String>,
    current: Option<String>,
    updated: Option<String>,
)
    requires
        call_ensures(indexed_line, (run, summary, cli), indexed),
        call_ensures(up_to_date_line, (cli,), current),
        call_ensures(updated_line, (summary, cli), updated),
    ensures
        cli.quiet ==> indexed is None && current is None && updated is None,
        !cli.quiet ==> indexed is Some && current is Some && updated is Some,
        indexed matches Some(line) ==> line@ == "indexed "@ + number::decimal(run.selected as nat)
            + " track(s) in "@ + summary@ + " without rendering"@,
        current matches Some(line) ==> line@ == "all outputs are up to date"@,
        updated matches Some(line) ==> line@ == "summary updated: "@ + summary@,
{
}

/// The tracks that are not queued are told as unchanged, where there are any: they and
/// those that are queued are the selected ones.
pub proof fn law_unchanged_tracks_are_told(run: &Run, cli: &Cli, unchanged: nat, r: Option<String>)
    requires
        run.queued + unchanged == run.selected,
        call_ensures(unchanged_line, (run, cli), r),
    ensures
        r is Some <==> !cli.quiet && unchanged > 0,
        r matches Some(line) ==> line@ == "unchanged: "@ + number::decimal(unchanged),
{
}

/// A run with failed tracks tells how many there are and where the details are.
pub proof fn law_failures_are_told(failures: usize, summary: &str, r: String)
    requires
        call_ensures(failures_message, (failures, summary), r),
    ensures
        r@ == number::decimal(failures as nat) + " track(s) failed; details were saved to "@
            + summary@,
{
}

} // verus!
