//! Rendering many tracks: the queue, what is shown of its progress, and the
//! texts of durations and titles.
use vstd::prelude::*;

use crate::display;
use crate::display::{BatchDisplay, Shown, TrackEvent};
use crate::encoder::RenderStats;
use crate::number;
use crate::text;

verus! {

/// How the rendering of a track ended.
pub struct RenderOutcome {
    /// The track's source, as the summary names it.
    pub source: String,
    /// What the rendering took, or why it failed.
    pub result: Result<RenderStats, String>,
}

/// A title cut down to at most `max_characters` characters, the last of which is
/// an ellipsis where characters were left out.
pub open spec fn shortened(title: Seq<char>, max_characters: nat) -> Seq<char> {
    if title.len() <= max_characters {
        title
    } else {
        title.take(
            if max_characters > 0 {
                max_characters - 1
            } else {
                0
            },
        ).push('\u{2026}')
    }
}

/// A title cut down to at most `max_characters` characters. An ellipsis marks
/// where characters were left out.
pub fn truncate_title(title: &str, max_characters: usize) -> (r: String)
    ensures
        r@ == shortened(title@, max_characters as nat),
{
    let characters = text::characters(title);
    if characters.len() <= max_characters {
        return title.to_owned();
    }
    let kept: usize = if max_characters > 0 {
        max_characters - 1
    } else {
        0
    };
    let mut r = text::from_characters(&text::slice_of(&characters, 0, kept));
    r.push('\u{2026}');
    proof {
        assert(characters@.subrange(0, kept as int) =~= characters@.take(kept as int));
    }
    r
}

/// A title that was cut down has at most the wanted number of characters, and a
/// title that has no more is kept.
pub proof fn law_shortened_title_fits(title: Seq<char>, max_characters: nat)
    ensures
        max_characters > 0 ==> shortened(title, max_characters).len() <= max_characters,
        title.len() <= max_characters ==> shortened(title, max_characters) == title,
        title.len() > max_characters ==> shortened(title, max_characters).last() == '\u{2026}',
{
}

// ---------------------------------------------------------------------------
// Durations
// ---------------------------------------------------------------------------

/// What is shown of a number of seconds.
#[derive(Clone, Copy, Debug, PartialEq, Eq, Structural)]
pub enum Span {
    /// It is not finite, or below zero.
    Invalid,
    /// It is between zero and one: so many tenths of a second, rounded.
    Tenths(u8),
    /// So many seconds, rounded.
    Seconds(u64),
}

/// The text of a duration, in the two largest units that it fills.
pub open spec fn duration_text(span: Span) -> Seq<char> {
    match span {
        Span::Invalid => "--"@,
        Span::Tenths(tenths) => number::decimal((tenths / 10) as nat) + "."@ + number::decimal(
            (tenths % 10) as nat,
        ) + "s"@,
        Span::Seconds(total) => {
            let days = (total / 86_400) as nat;
            let hours = (total % 86_400 / 3_600) as nat;
            let minutes = (total % 3_600 / 60) as nat;
            let seconds = (total % 60) as nat;
            if days > 0 {
                number::decimal(days) + "d "@ + number::two_digits(hours) + "h"@
            } else if hours > 0 {
                number::decimal(hours) + "h "@ + number::two_digits(minutes) + "m"@
            } else if minutes > 0 {
                number::decimal(minutes) + "m "@ + number::two_digits(seconds) + "s"@
            } else {
                number::decimal(seconds) + "s"@
            }
        },
    }
}

/// The text of a duration, in the two largest units that it fills.
pub fn format_duration(span: Span) -> (r: String)
    ensures
        r@ == duration_text(span),
{
    match span {
        Span::Invalid => "--".to_owned(),
        Span::Tenths(tenths) => {
            let mut r = number::decimal_text((tenths / 10) as u64);
            r.append(".");
            r.append(number::decimal_text((tenths % 10) as u64).as_str());
            r.append("s");
            r
        },
        Span::Seconds(total) => {
            let days: u64 = total / 86_400;
            let hours: u64 = total % 86_400 / 3_600;
            let minutes: u64 = total % 3_600 / 60;
            let seconds: u64 = total % 60;
            if days > 0 {
                two_units(days, "d ", hours, "h")
            } else if hours > 0 {
                two_units(hours, "h ", minutes, "m")
            } else if minutes > 0 {
                two_units(minutes, "m ", seconds, "s")
            } else {
                let mut r = number::decimal_text(seconds);
                r.append("s");
                r
            }
        },
    }
}

/// Two numbers with their units.
fn two_units(large: u64, large_unit: &str, small: u64, small_unit: &str) -> (r: String)
    ensures
        r@ == number::decimal(large as nat) + large_unit@ + number::two_digits(small as nat)
            + small_unit@,
{
    let mut r = number::decimal_text(large);
    r.append(large_unit);
    r.append(number::two_digit_text(small).as_str());
    r.append(small_unit);
    r
}

/// The text of a duration that is known where it is above zero.
pub open spec fn known_text(span: Option<Span>) -> Seq<char> {
    match span {
        Some(span) => duration_text(span),
        None => "unknown"@,
    }
}

/// The text of a duration, given where it is above zero.
pub fn known_duration(span: Option<Span>) -> (r: String)
    ensures
        r@ == known_text(span),
{
    match span {
        Some(span) => format_duration(span),
        None => "unknown".to_owned(),
    }
}

/// The text of the time that is left.
pub open spec fn remaining_text(
    total_known: bool,
    nothing_left: bool,
    begun: bool,
    remaining: Span,
) -> Seq<char> {
    if total_known && nothing_left {
        "0s"@
    } else if !begun || !total_known {
        "calculating"@
    } else {
        duration_text(remaining)
    }
}

/// The text of the time that is left, given whether the length of all tracks is
/// known, whether nothing of it is left, whether enough was done to tell, and
/// how long the rest takes at the speed so far.
pub fn eta_text(total_known: bool, nothing_left: bool, begun: bool, remaining: Span) -> (r: String)
    ensures
        r@ == remaining_text(total_known, nothing_left, begun, remaining),
{
    if total_known && nothing_left {
        "0s".to_owned()
    } else if !begun || !total_known {
        "calculating".to_owned()
    } else {
        format_duration(remaining)
    }
}

// ---------------------------------------------------------------------------
// The queue
// ---------------------------------------------------------------------------

/// The number of tracks that are rendered at a time.
pub open spec fn workers(jobs: nat, total: nat) -> nat {
    if total == 0 {
        1
    } else if jobs < total {
        if jobs == 0 {
            1
        } else {
            jobs
        }
    } else {
        total
    }
}

/// The number of tracks that are rendered at a time, given how many may be and
/// how many there are: at least one.
pub fn worker_count(jobs: usize, total: usize) -> (r: usize)
    ensures
        r == workers(jobs as nat, total as nat),
{
    let smaller: usize = if jobs < total {
        jobs
    } else {
        total
    };
    if smaller > 1 {
        smaller
    } else {
        1
    }
}

/// The tracks that wait to be rendered: all from one on, in order.
#[derive(Clone, Copy, Debug, PartialEq, Eq, Structural)]
pub struct BatchQueue {
    /// The index of the next track.
    pub next: usize,
    /// How many tracks there are.
    pub total: usize,
}

/// The track at the front of a queue.
pub open spec fn front(queue: BatchQueue) -> Option<usize> {
    if queue.next < queue.total {
        Some(queue.next)
    } else {
        None
    }
}

/// A queue without the track at its front.
pub open spec fn without_front(queue: BatchQueue) -> BatchQueue {
    if queue.next < queue.total {
        BatchQueue { next: (queue.next + 1) as usize, total: queue.total }
    } else {
        queue
    }
}

impl BatchQueue {
    /// The queue of a batch.
    pub fn new(total: usize) -> (r: BatchQueue)
        ensures
            r == (BatchQueue { next: 0, total }),
    {
        BatchQueue { next: 0, total }
    }

    /// Takes the index of the track at the front, where there is one.
    pub fn take(&mut self) -> (r: Option<usize>)
        ensures
            r == front(*old(self)),
            *final(self) == without_front(*old(self)),
    {
        if self.next < self.total {
            let index: usize = self.next;
            self.next = index + 1;
            Some(index)
        } else {
            None
        }
    }
}

/// A queue after tracks were taken.
pub open spec fn after_taking(queue: BatchQueue, count: nat) -> BatchQueue
    decreases count,
{
    if count == 0 {
        queue
    } else {
        without_front(after_taking(queue, (count - 1) as nat))
    }
}

/// Every track is taken once, in order, and then there is none.
pub proof fn law_each_track_is_taken_once(total: usize, count: nat)
    ensures
        front(after_taking(BatchQueue { next: 0, total }, count)) == if count < total {
            Some(count as usize)
        } else {
            None
        },
    decreases count,
{
    lemma_after_taking(total, count);
}

/// Where a queue stands after tracks were taken.
proof fn lemma_after_taking(total: usize, count: nat)
    ensures
        after_taking(BatchQueue { next: 0, total }, count) == (BatchQueue {
            next: if count < total {
                count as usize
            } else {
                total
            },
            total,
        }),
    decreases count,
{
    if count > 0 {
        lemma_after_taking(total, (count - 1) as nat);
    }
}

/// The tracks that wait to be rendered, and what each worker renders.
pub struct WorkPool {
    /// The tracks that wait.
    pub queue: BatchQueue,
    /// The track that each worker renders, where it renders one.
    pub current: Vec<Option<usize>>,
}

/// Where the work on a batch stands: the tracks that wait, and the track that
/// each worker renders, where it renders one.
#[verifier::ext_equal]
pub struct Work {
    /// The tracks that wait.
    pub queue: BatchQueue,
    /// The track that each worker renders.
    pub current: Seq<Option<usize>>,
}

/// What a worker does.
pub enum WorkStep {
    /// It takes the next track.
    Takes(nat),
    /// It has rendered its track.
    Ends(nat),
}

/// Whether a worker may do something: it takes a track only after its last one
/// ended, and it ends only what it renders.
pub open spec fn may_step(work: Work, step: WorkStep) -> bool {
    match step {
        WorkStep::Takes(worker) => worker < work.current.len() && work.current[worker as int]
            is None,
        WorkStep::Ends(worker) => worker < work.current.len() && work.current[worker as int]
            is Some,
    }
}

/// Where the work stands after a worker did something.
pub open spec fn work_after(work: Work, step: WorkStep) -> Work {
    match step {
        WorkStep::Takes(worker) => Work {
            queue: without_front(work.queue),
            current: work.current.update(worker as int, front(work.queue)),
        },
        WorkStep::Ends(worker) => Work {
            queue: work.queue,
            current: work.current.update(worker as int, None),
        },
    }
}

/// The work on a batch of which nothing was taken.
pub open spec fn fresh_work(workers: nat, total: usize) -> Work {
    Work {
        queue: BatchQueue { next: 0, total },
        current: Seq::new(workers, |i: int| None::<usize>),
    }
}

impl WorkPool {
    /// Where the work stands.
    pub open spec fn work(self) -> Work {
        Work { queue: self.queue, current: self.current@ }
    }

    /// The work on a batch of so many tracks by so many workers.
    pub fn new(workers: usize, total: usize) -> (r: WorkPool)
        ensures
            r.work() == fresh_work(workers as nat, total),
    {
        let mut current: Vec<Option<usize>> = Vec::new();
        for i in 0..workers
            invariant
                current@ == Seq::new(i as nat, |k: int| None::<usize>),
        {
            current.push(None);
        }
        WorkPool { queue: BatchQueue::new(total), current }
    }

    /// A worker takes the track at the front, where there is one.
    pub fn take(&mut self, worker: usize) -> (r: Option<usize>)
        requires
            may_step(old(self).work(), WorkStep::Takes(worker as nat)),
        ensures
            r == front(old(self).queue),
            final(self).work() == work_after(old(self).work(), WorkStep::Takes(worker as nat)),
    {
        let task = self.queue.take();
        self.current[worker] = task;
        task
    }

    /// A worker has rendered its track.
    pub fn ended(&mut self, worker: usize)
        requires
            may_step(old(self).work(), WorkStep::Ends(worker as nat)),
        ensures
            final(self).work() == work_after(old(self).work(), WorkStep::Ends(worker as nat)),
    {
        self.current[worker] = None;
    }
}

/// Where the work on a batch stands after the workers did what is given.
pub open spec fn work_done(workers: nat, total: usize, steps: Seq<WorkStep>) -> Work
    decreases steps.len(),
{
    if steps.len() == 0 {
        fresh_work(workers, total)
    } else {
        work_after(work_done(workers, total, steps.drop_last()), steps.last())
    }
}

/// Whether each worker did only what it may.
pub open spec fn possible(workers: nat, total: usize, steps: Seq<WorkStep>) -> bool
    decreases steps.len(),
{
    steps.len() > 0 ==> possible(workers, total, steps.drop_last()) && may_step(
        work_done(workers, total, steps.drop_last()),
        steps.last(),
    )
}

/// The tracks that were taken, in the order in which they were.
pub open spec fn taken_tracks(workers: nat, total: usize, steps: Seq<WorkStep>) -> Seq<usize>
    decreases steps.len(),
{
    if steps.len() == 0 {
        Seq::empty()
    } else {
        let earlier = steps.drop_last();
        let before = taken_tracks(workers, total, earlier);
        match (steps.last(), front(work_done(workers, total, earlier).queue)) {
            (WorkStep::Takes(worker), Some(index)) => before.push(index),
            _ => before,
        }
    }
}

/// The tracks that are being rendered.
pub open spec fn in_work(current: Seq<Option<usize>>) -> Set<usize>
    decreases current.len(),
{
    if current.len() == 0 {
        Set::empty()
    } else {
        match current.last() {
            Some(index) => in_work(current.drop_last()).insert(index),
            None => in_work(current.drop_last()),
        }
    }
}

/// No track is taken twice: they are taken from the first on, in order, and none
/// that the batch does not have.
pub proof fn law_no_track_is_taken_twice(workers: nat, total: usize, steps: Seq<WorkStep>)
    ensures
        taken_tracks(workers, total, steps).len() <= total,
        forall|k: int|
            0 <= k < taken_tracks(workers, total, steps).len() ==> #[trigger] taken_tracks(
                workers,
                total,
                steps,
            )[k] == k,
        taken_tracks(workers, total, steps).no_duplicates(),
        work_done(workers, total, steps).queue == (BatchQueue {
            next: taken_tracks(workers, total, steps).len() as usize,
            total,
        }),
    decreases steps.len(),
{
    if steps.len() > 0 {
        law_no_track_is_taken_twice(workers, total, steps.drop_last());
    }
}

/// At most as many tracks are rendered at a time as there are workers, which is
/// as many as jobs are wanted, as there are tracks to render, and at least one.
/// No two workers render the same track, and each renders one that was taken.
pub proof fn law_only_so_many_tracks_are_rendered_at_a_time(
    jobs: nat,
    total: usize,
    steps: Seq<WorkStep>,
)
    requires
        possible(workers(jobs, total as nat), total, steps),
    ensures
        ({
            let current = work_done(workers(jobs, total as nat), total, steps).current;
            let taken = taken_tracks(workers(jobs, total as nat), total, steps);
            &&& in_work(current).finite()
            &&& in_work(current).len() <= workers(jobs, total as nat)
            &&& forall|i: int, j: int|
                #![trigger current[i], current[j]]
                0 <= i < current.len() && 0 <= j < current.len() && i != j && current[i]
                    is Some ==> current[i] != current[j]
            &&& forall|i: int|
                0 <= i < current.len() && (#[trigger] current[i]) is Some ==> taken.contains(
                    current[i]->0,
                )
        }),
{
    let count = workers(jobs, total as nat);
    lemma_work(count, total, steps);
    let work = work_done(count, total, steps);
    let taken = taken_tracks(count, total, steps);
    law_no_track_is_taken_twice(count, total, steps);
    lemma_in_work(work.current);
    assert forall|i: int|
        0 <= i < work.current.len() && (#[trigger] work.current[i]) is Some implies taken.contains(
        work.current[i]->0,
    ) by {
        assert(taken[work.current[i]->0 as int] == work.current[i]->0);
    }
}

/// How many tracks at most are being rendered by so many workers.
proof fn lemma_in_work(current: Seq<Option<usize>>)
    ensures
        in_work(current).finite(),
        in_work(current).len() <= current.len(),
    decreases current.len(),
{
    if current.len() > 0 {
        lemma_in_work(current.drop_last());
    }
}

/// Workers render different tracks, from before the front of the queue.
proof fn lemma_work(workers: nat, total: usize, steps: Seq<WorkStep>)
    requires
        possible(workers, total, steps),
    ensures
        ({
            let work = work_done(workers, total, steps);
            &&& work.current.len() == workers
            &&& forall|i: int|
                0 <= i < work.current.len() && (#[trigger] work.current[i]) is Some
                    ==> work.current[i]->0 < work.queue.next
            &&& forall|i: int, j: int|
                #![trigger work.current[i], work.current[j]]
                0 <= i < work.current.len() && 0 <= j < work.current.len() && i != j
                    && work.current[i] is Some ==> work.current[i] != work.current[j]
        }),
    decreases steps.len(),
{
    if steps.len() > 0 {
        lemma_work(workers, total, steps.drop_last());
    }
}

// ---------------------------------------------------------------------------
// The course of a batch
// ---------------------------------------------------------------------------

/// The summary could not be updated.
#[derive(Clone, Copy, Debug, PartialEq, Eq, Structural)]
pub struct SummaryFailed;

/// What is to be done when the rendering of a track has ended.
#[derive(Clone, Copy, Debug, PartialEq, Eq, Structural)]
pub struct Ended {
    /// Whether the progress line is to be cleared.
    pub clear: bool,
    /// Whether the outcome is to be recorded.
    pub record: bool,
}

/// A batch that is being rendered. `P` is what is known of the progress of one
/// track.
pub struct Batch<P> {
    /// What is shown of it.
    pub display: BatchDisplay<P>,
    /// Whether an outcome could not be recorded.
    pub broken: bool,
}

/// Where a batch stands.
#[verifier::ext_equal]
pub struct BatchState {
    /// What is known of its tracks.
    pub shown: Shown,
    /// Whether an outcome could not be recorded.
    pub broken: bool,
}

/// What happens in a batch.
pub enum BatchEvent {
    /// Something happens to a track.
    Track(TrackEvent),
    /// An outcome was handed on, and whether it could be recorded.
    Recorded(bool),
}

/// Where a batch stands after something happened.
pub open spec fn batch_after(state: BatchState, event: BatchEvent) -> BatchState {
    match event {
        BatchEvent::Track(event) => BatchState {
            shown: display::shown_after(state.shown, event),
            ..state
        },
        BatchEvent::Recorded(worked) => BatchState { broken: state.broken || !worked, ..state },
    }
}

/// A batch in which nothing has happened.
pub open spec fn fresh_batch() -> BatchState {
    BatchState {
        shown: Shown { active: Set::empty(), completed: 0, failures: 0 },
        broken: false,
    }
}

/// How a batch ended: how many tracks failed, where every outcome could be
/// recorded.
pub open spec fn batch_result(state: BatchState) -> Result<nat, SummaryFailed> {
    if state.broken {
        Err(SummaryFailed)
    } else {
        Ok(state.shown.failures)
    }
}

impl<P> Batch<P> {
    /// Where it stands.
    pub open spec fn state(self) -> BatchState {
        BatchState { shown: self.display.shown(), broken: self.broken }
    }

    /// A batch with the given titles, of which nothing has been rendered.
    pub fn new(titles: Vec<String>, quiet: bool, terminal: bool) -> (r: Batch<P>)
        ensures
            r.display.sound(),
            r.display.quiet == quiet,
            r.display.terminal == terminal,
            !r.display.line_visible,
            r.display.titles == titles,
            r.display.active@ == Map::<usize, P>::empty(),
            r.state() == fresh_batch(),
    {
        Batch { display: BatchDisplay::new(titles, quiet, terminal), broken: false }
    }

    /// The rendering of a track has ended: it is no longer shown as active, and
    /// it is counted. Its outcome is to be recorded as long as all could be.
    pub fn finished(&mut self, index: usize, failed: bool) -> (r: Ended)
        requires
            old(self).display.sound(),
            old(self).display.completed < usize::MAX,
        ensures
            final(self).display.sound(),
            final(self).state() == batch_after(
                old(self).state(),
                BatchEvent::Track(TrackEvent::Finished(index, failed)),
            ),
            final(self).display.quiet == old(self).display.quiet,
            final(self).display.terminal == old(self).display.terminal,
            final(self).display.titles == old(self).display.titles,
            final(self).display.line_visible == (old(self).display.line_visible
                && !old(self).display.terminal),
            final(self).display.active@ == old(self).display.active@.remove(index),
            r.clear == (old(self).display.terminal && old(self).display.line_visible),
            r.record == !old(self).broken,
    {
        let clear = self.display.finished(index, failed);
        Ended { clear, record: !self.broken }
    }

    /// Takes whether an outcome could be recorded.
    pub fn recorded(&mut self, worked: bool)
        ensures
            final(self).display == old(self).display,
            final(self).state() == batch_after(old(self).state(), BatchEvent::Recorded(worked)),
    {
        if !worked {
            self.broken = true;
        }
    }

    /// How many tracks failed, where every outcome could be recorded.
    pub fn result(&self) -> (r: Result<usize, SummaryFailed>)
        ensures
            match r {
                Ok(failures) => batch_result(self.state()) == Ok::<nat, SummaryFailed>(
                    failures as nat,
                ),
                Err(failed) => batch_result(self.state()) == Err::<nat, SummaryFailed>(failed),
            },
    {
        if self.broken {
            Err(SummaryFailed)
        } else {
            Ok(self.display.failures)
        }
    }
}

/// Where a batch stands after all that happened in it.
pub open spec fn batch_state(happened: Seq<BatchEvent>) -> BatchState
    decreases happened.len(),
{
    if happened.len() == 0 {
        fresh_batch()
    } else {
        batch_after(batch_state(happened.drop_last()), happened.last())
    }
}

/// The tracks whose rendering has started.
pub open spec fn started_tracks(happened: Seq<BatchEvent>) -> Set<usize>
    decreases happened.len(),
{
    if happened.len() == 0 {
        Set::empty()
    } else {
        let before = started_tracks(happened.drop_last());
        match happened.last() {
            BatchEvent::Track(TrackEvent::Started(index)) => before.insert(index),
            _ => before,
        }
    }
}

/// The tracks whose rendering has ended, in the order in which they have.
pub open spec fn ended_tracks(happened: Seq<BatchEvent>) -> Seq<usize>
    decreases happened.len(),
{
    if happened.len() == 0 {
        Seq::empty()
    } else {
        let before = ended_tracks(happened.drop_last());
        match happened.last() {
            BatchEvent::Track(TrackEvent::Finished(index, failed)) => before.push(index),
            _ => before,
        }
    }
}

/// The tracks whose rendering has failed.
pub open spec fn failed_tracks(happened: Seq<BatchEvent>) -> Set<usize>
    decreases happened.len(),
{
    if happened.len() == 0 {
        Set::empty()
    } else {
        let before = failed_tracks(happened.drop_last());
        match happened.last() {
            BatchEvent::Track(TrackEvent::Finished(index, failed)) => if failed {
                before.insert(index)
            } else {
                before
            },
            _ => before,
        }
    }
}

/// The tracks whose outcome was handed on to be recorded, in the order in which
/// they were: those that ended while every outcome could be.
pub open spec fn handed_on(happened: Seq<BatchEvent>) -> Seq<usize>
    decreases happened.len(),
{
    if happened.len() == 0 {
        Seq::empty()
    } else {
        let earlier = happened.drop_last();
        let before = handed_on(earlier);
        match happened.last() {
            BatchEvent::Track(TrackEvent::Finished(index, failed)) => if batch_state(
                earlier,
            ).broken {
                before
            } else {
                before.push(index)
            },
            _ => before,
        }
    }
}

/// Whether an outcome could not be recorded.
pub open spec fn has_fault(happened: Seq<BatchEvent>) -> bool {
    exists|k: int|
        0 <= k < happened.len() && #[trigger] happened[k] == BatchEvent::Recorded(false)
}

/// Whether every track starts at most once, and comes further and ends only
/// while it is being rendered.
pub open spec fn orderly(happened: Seq<BatchEvent>, total: nat) -> bool
    decreases happened.len(),
{
    if happened.len() == 0 {
        true
    } else {
        let earlier = happened.drop_last();
        let started = started_tracks(earlier);
        let ended = ended_tracks(earlier);
        orderly(earlier, total) && match happened.last() {
            BatchEvent::Track(TrackEvent::Started(index)) => index < total && !started.contains(
                index,
            ),
            BatchEvent::Track(TrackEvent::Progressed(index)) => started.contains(index)
                && !ended.contains(index),
            BatchEvent::Track(TrackEvent::Finished(index, failed)) => started.contains(index)
                && !ended.contains(index),
            BatchEvent::Recorded(worked) => true,
        }
    }
}

/// In an orderly batch exactly those tracks are shown as active that have
/// started and not ended, no track ends twice, as many are counted as have ended,
/// and as many are counted as failed as have failed.
pub proof fn law_active_tracks_are_those_not_ended(happened: Seq<BatchEvent>, total: nat)
    requires
        orderly(happened, total),
    ensures
        batch_state(happened).shown.active == started_tracks(happened).difference(
            ended_tracks(happened).to_set(),
        ),
        forall|index: usize| #[trigger]
            started_tracks(happened).contains(index) ==> index < total,
        forall|index: usize| #[trigger]
            ended_tracks(happened).contains(index) ==> started_tracks(happened).contains(index),
        ended_tracks(happened).no_duplicates(),
        batch_state(happened).shown.completed == ended_tracks(happened).len(),
        failed_tracks(happened).finite(),
        forall|index: usize| #[trigger]
            failed_tracks(happened).contains(index) ==> ended_tracks(happened).contains(index),
        batch_state(happened).shown.failures == failed_tracks(happened).len(),
    decreases happened.len(),
{
    if happened.len() > 0 {
        let earlier = happened.drop_last();
        law_active_tracks_are_those_not_ended(earlier, total);
        assert forall|index: usize|
            ended_tracks(happened).contains(index) == (ended_tracks(earlier).contains(index)
                || match happened.last() {
                BatchEvent::Track(TrackEvent::Finished(ended, failed)) => ended == index,
                _ => false,
            }) by {
            lemma_push_contains(ended_tracks(earlier), index, happened.last());
        }
    }
    assert(batch_state(happened).shown.active =~= started_tracks(happened).difference(
        ended_tracks(happened).to_set(),
    ));
}

/// What a list holds once an ended track was added to it.
proof fn lemma_push_contains(list: Seq<usize>, index: usize, event: BatchEvent)
    ensures
        event matches BatchEvent::Track(TrackEvent::Finished(ended, failed)) ==> list.push(
            ended,
        ).contains(index) == (list.contains(index) || ended == index),
{
    if let BatchEvent::Track(TrackEvent::Finished(ended, failed)) = event {
        let longer = list.push(ended);
        assert(longer[list.len() as int] == ended);
        if list.contains(index) {
            let k = choose|k: int| 0 <= k < list.len() && list[k] == index;
            assert(longer[k] == index);
        }
    }
}

/// Once every track of an orderly batch has ended, none is shown as active, all
/// are counted, and the outcome of each was handed on once where every outcome
/// could be recorded.
pub proof fn law_batch_is_complete(happened: Seq<BatchEvent>, total: usize)
    requires
        orderly(happened, total as nat),
        forall|index: usize| index < total ==> #[trigger] ended_tracks(happened).contains(index),
    ensures
        batch_state(happened).shown.active == Set::<usize>::empty(),
        batch_state(happened).shown.completed == total,
        !batch_state(happened).broken ==> handed_on(happened).no_duplicates() && handed_on(
            happened,
        ).to_set() == Set::<usize>::new(|index: usize| index < total),
{
    law_active_tracks_are_those_not_ended(happened, total as nat);
    law_each_outcome_is_handed_on_once(happened, total as nat);
    let ended = ended_tracks(happened);
    assert(batch_state(happened).shown.active =~= Set::empty());
    let all = Set::<usize>::new(|index: usize| index < total);
    assert(ended.to_set() =~= all);
    ended.unique_seq_to_set();
    lemma_number_of_tracks(total);
}

/// In an orderly batch every outcome is handed on once, in the order in which the
/// tracks end, as long as every outcome could be recorded: none is handed on twice,
/// and after one that could not be recorded none is.
pub proof fn law_each_outcome_is_handed_on_once(happened: Seq<BatchEvent>, total: nat)
    requires
        orderly(happened, total),
    ensures
        handed_on(happened).no_duplicates(),
        handed_on(happened).len() <= ended_tracks(happened).len(),
        handed_on(happened) == ended_tracks(happened).take(handed_on(happened).len() as int),
        !batch_state(happened).broken ==> handed_on(happened) == ended_tracks(happened),
        happened.len() > 0 && batch_state(happened.drop_last()).broken ==> batch_state(
            happened,
        ).broken && handed_on(happened) == handed_on(happened.drop_last()),
    decreases happened.len(),
{
    law_active_tracks_are_those_not_ended(happened, total);
    if happened.len() > 0 {
        law_each_outcome_is_handed_on_once(happened.drop_last(), total);
    }
    assert(handed_on(happened) =~= ended_tracks(happened).take(handed_on(happened).len() as int));
}

/// An orderly batch ends well exactly where every outcome that was handed on could
/// be recorded. Then every outcome was handed on, and the result tells how many
/// tracks failed.
pub proof fn law_result_counts_failed_tracks(happened: Seq<BatchEvent>, total: nat)
    requires
        orderly(happened, total),
    ensures
        match batch_result(batch_state(happened)) {
            Ok(failures) => !has_fault(happened) && failures == failed_tracks(happened).len()
                && handed_on(happened) == ended_tracks(happened),
            Err(failed) => has_fault(happened),
        },
{
    law_active_tracks_are_those_not_ended(happened, total);
    law_each_outcome_is_handed_on_once(happened, total);
    lemma_broken(happened);
}

/// A batch is broken where an outcome could not be recorded.
proof fn lemma_broken(happened: Seq<BatchEvent>)
    ensures
        batch_state(happened).broken == has_fault(happened),
    decreases happened.len(),
{
    if happened.len() > 0 {
        let earlier = happened.drop_last();
        lemma_broken(earlier);
        let last = happened.len() - 1;
        assert(happened[last] == happened.last());
        if batch_state(earlier).broken {
            let k = choose|k: int|
                0 <= k < earlier.len() && #[trigger] earlier[k] == BatchEvent::Recorded(false);
            assert(happened[k] == BatchEvent::Recorded(false));
        } else {
            assert forall|k: int| 0 <= k < last implies #[trigger] happened[k]
                != BatchEvent::Recorded(false) by {
                assert(earlier[k] == happened[k]);
            }
        }
    }
}

/// In an orderly batch nothing is lost when a track that is shown as active comes
/// further, or an outcome is recorded, at any time in between: the batch stays
/// orderly, the same tracks start, end and fail, and the same is shown in the end.
pub proof fn law_progress_and_records_keep_a_batch_orderly(
    before: Seq<BatchEvent>,
    event: BatchEvent,
    after: Seq<BatchEvent>,
    total: nat,
)
    requires
        orderly(before + after, total),
        match event {
            BatchEvent::Track(TrackEvent::Progressed(index)) => batch_state(
                before,
            ).shown.active.contains(index),
            BatchEvent::Track(other) => false,
            BatchEvent::Recorded(worked) => true,
        },
    ensures
        orderly(before.push(event) + after, total),
        started_tracks(before.push(event) + after) == started_tracks(before + after),
        ended_tracks(before.push(event) + after) == ended_tracks(before + after),
        failed_tracks(before.push(event) + after) == failed_tracks(before + after),
        batch_state(before.push(event) + after).shown == batch_state(before + after).shown,
    decreases after.len(),
{
    let longer = before.push(event);
    if after.len() == 0 {
        assert(before + after =~= before);
        assert(longer + after =~= longer);
        assert(longer.drop_last() =~= before);
        law_active_tracks_are_those_not_ended(before, total);
        if let BatchEvent::Track(TrackEvent::Progressed(index)) = event {
            assert(ended_tracks(before).to_set().contains(index) == ended_tracks(before).contains(
                index,
            ));
        }
        assert(batch_state(longer).shown =~= batch_state(before).shown);
    } else {
        assert((before + after).drop_last() =~= before + after.drop_last());
        assert((longer + after).drop_last() =~= longer + after.drop_last());
        assert((before + after).last() == after.last());
        assert((longer + after).last() == after.last());
        law_progress_and_records_keep_a_batch_orderly(before, event, after.drop_last(), total);
    }
}

/// What happens while a batch is rendered.
pub enum CourseStep {
    /// A worker does something.
    Work(WorkStep),
    /// A worker has come further with its track.
    Progresses(nat),
    /// An outcome was handed on, and whether it could be recorded.
    Records(bool),
}

/// What the workers do in the course of a batch.
pub open spec fn work_steps(course: Seq<CourseStep>) -> Seq<WorkStep>
    decreases course.len(),
{
    if course.len() == 0 {
        Seq::empty()
    } else {
        let before = work_steps(course.drop_last());
        match course.last() {
            CourseStep::Work(step) => before.push(step),
            _ => before,
        }
    }
}

/// Where the work stands in the course of a batch.
pub open spec fn work_at(workers: nat, total: usize, course: Seq<CourseStep>) -> Work {
    work_done(workers, total, work_steps(course))
}

/// Whether each worker did only what it may, and came further only with a track
/// that it rendered.
pub open spec fn possible_course(workers: nat, total: usize, course: Seq<CourseStep>) -> bool
    decreases course.len(),
{
    if course.len() == 0 {
        true
    } else {
        let earlier = course.drop_last();
        let work = work_at(workers, total, earlier);
        possible_course(workers, total, earlier) && match course.last() {
            CourseStep::Work(step) => may_step(work, step),
            CourseStep::Progresses(worker) => worker < work.current.len()
                && work.current[worker as int] is Some,
            CourseStep::Records(worked) => true,
        }
    }
}

/// What is told in the course of a batch, given which tracks fail: that a track
/// was taken, has come further or has ended, and whether an outcome could be
/// recorded.
pub open spec fn told(
    workers: nat,
    total: usize,
    course: Seq<CourseStep>,
    failing: Set<usize>,
) -> Seq<BatchEvent>
    decreases course.len(),
{
    if course.len() == 0 {
        Seq::empty()
    } else {
        let earlier = course.drop_last();
        let work = work_at(workers, total, earlier);
        let before = told(workers, total, earlier, failing);
        match course.last() {
            CourseStep::Work(WorkStep::Takes(worker)) => match front(work.queue) {
                Some(index) => before.push(BatchEvent::Track(TrackEvent::Started(index))),
                None => before,
            },
            CourseStep::Work(WorkStep::Ends(worker)) => match work.current[worker as int] {
                Some(index) => before.push(
                    BatchEvent::Track(TrackEvent::Finished(index, failing.contains(index))),
                ),
                None => before,
            },
            CourseStep::Progresses(worker) => match work.current[worker as int] {
                Some(index) => before.push(BatchEvent::Track(TrackEvent::Progressed(index))),
                None => before,
            },
            CourseStep::Records(worked) => before.push(BatchEvent::Recorded(worked)),
        }
    }
}

/// What is told in the course of a batch is orderly, with all that workers tell of
/// their progress and with all that is recorded in between. The tracks that are
/// shown as active are those that are being rendered, at most as many as there are
/// workers, and the tracks that have started are those that were taken.
pub proof fn law_workers_make_an_orderly_batch(
    workers: nat,
    total: usize,
    course: Seq<CourseStep>,
    failing: Set<usize>,
)
    requires
        possible_course(workers, total, course),
    ensures
        possible(workers, total, work_steps(course)),
        orderly(told(workers, total, course, failing), total as nat),
        batch_state(told(workers, total, course, failing)).shown.active == in_work(
            work_at(workers, total, course).current,
        ),
        in_work(work_at(workers, total, course).current).len() <= workers,
        started_tracks(told(workers, total, course, failing)) == taken_tracks(
            workers,
            total,
            work_steps(course),
        ).to_set(),
{
    let events = told(workers, total, course, failing);
    let steps = work_steps(course);
    let work = work_at(workers, total, course);
    let taken = taken_tracks(workers, total, steps);
    lemma_told(workers, total, course, failing);
    lemma_work(workers, total, steps);
    lemma_in_work(work.current);
    law_no_track_is_taken_twice(workers, total, steps);
    law_active_tracks_are_those_not_ended(events, total as nat);
    assert forall|index: usize|
        batch_state(events).shown.active.contains(index) == in_work(work.current).contains(
            index,
        ) by {
        lemma_in_work_contains(work.current, index);
        assert(ended_tracks(events).to_set().contains(index) == ended_tracks(events).contains(
            index,
        ));
    }
    assert(batch_state(events).shown.active =~= in_work(work.current));
    assert forall|index: usize|
        started_tracks(events).contains(index) == taken.to_set().contains(index) by {
        if index < taken.len() {
            assert(taken[index as int] == index);
        }
    }
    assert(started_tracks(events) =~= taken.to_set());
}

/// Whether a worker renders a track.
spec fn renders(current: Seq<Option<usize>>, index: usize) -> bool {
    exists|i: int| 0 <= i < current.len() && #[trigger] current[i] == Some(index)
}

/// The tracks that are being rendered are those that a worker renders.
proof fn lemma_in_work_contains(current: Seq<Option<usize>>, index: usize)
    ensures
        in_work(current).contains(index) == renders(current, index),
    decreases current.len(),
{
    if current.len() > 0 {
        let front = current.drop_last();
        lemma_in_work_contains(front, index);
        let last = current.len() - 1;
        if renders(front, index) {
            let i = choose|i: int| 0 <= i < front.len() && #[trigger] front[i] == Some(index);
            assert(current[i] == Some(index));
        } else if current.last() == Some(index) {
            assert(current[last] == Some(index));
        } else {
            assert forall|i: int| 0 <= i < current.len() implies #[trigger] current[i] != Some(
                index,
            ) by {
                if i < last {
                    assert(front[i] == current[i]);
                }
            }
        }
    }
}

/// What is told in the course of a batch is orderly, and tells which tracks have
/// started and ended.
proof fn lemma_told(workers: nat, total: usize, course: Seq<CourseStep>, failing: Set<usize>)
    requires
        possible_course(workers, total, course),
    ensures
        ({
            let events = told(workers, total, course, failing);
            let work = work_at(workers, total, course);
            &&& possible(workers, total, work_steps(course))
            &&& orderly(events, total as nat)
            &&& forall|index: usize| #[trigger]
                started_tracks(events).contains(index) == (index < work.queue.next)
            &&& forall|index: usize| #[trigger]
                ended_tracks(events).contains(index) == (index < work.queue.next && !renders(
                    work.current,
                    index,
                ))
        }),
    decreases course.len(),
{
    let events = told(workers, total, course, failing);
    if course.len() == 0 {
        assert(orderly(events, total as nat));
        assert(ended_tracks(events) =~= Seq::empty());
    } else {
        let earlier = course.drop_last();
        let past = told(workers, total, earlier, failing);
        let before = work_at(workers, total, earlier);
        let steps = work_steps(earlier);
        lemma_told(workers, total, earlier, failing);
        lemma_work(workers, total, steps);
        law_no_track_is_taken_twice(workers, total, steps);
        if events.len() > past.len() {
            assert(events.drop_last() =~= past);
        }
        match course.last() {
            CourseStep::Work(step) => {
                assert(work_steps(course).drop_last() =~= steps);
                assert(work_at(workers, total, course) == work_after(before, step));
                lemma_told_step(before, step, past, events, total, failing);
            },
            CourseStep::Progresses(worker) => {
                assert(renders(before.current, before.current[worker as int]->0));
                assert(orderly(events, total as nat));
            },
            CourseStep::Records(worked) => {
                assert(orderly(events, total as nat));
            },
        }
    }
}

/// What is told stays orderly when a worker takes or ends a track.
proof fn lemma_told_step(
    before: Work,
    step: WorkStep,
    past: Seq<BatchEvent>,
    events: Seq<BatchEvent>,
    total: usize,
    failing: Set<usize>,
)
    requires
        may_step(before, step),
        before.queue.total == total,
        forall|i: int|
            0 <= i < before.current.len() && (#[trigger] before.current[i]) is Some
                ==> before.current[i]->0 < before.queue.next,
        forall|i: int, j: int|
            #![trigger before.current[i], before.current[j]]
            0 <= i < before.current.len() && 0 <= j < before.current.len() && i != j
                && before.current[i] is Some ==> before.current[i] != before.current[j],
        orderly(past, total as nat),
        forall|index: usize| #[trigger]
            started_tracks(past).contains(index) == (index < before.queue.next),
        forall|index: usize| #[trigger]
            ended_tracks(past).contains(index) == (index < before.queue.next && !renders(
                before.current,
                index,
            )),
        events == match step {
            WorkStep::Takes(worker) => match front(before.queue) {
                Some(index) => past.push(BatchEvent::Track(TrackEvent::Started(index))),
                None => past,
            },
            WorkStep::Ends(worker) => past.push(
                BatchEvent::Track(
                    TrackEvent::Finished(
                        before.current[worker as int]->0,
                        failing.contains(before.current[worker as int]->0),
                    ),
                ),
            ),
        },
    ensures
        orderly(events, total as nat),
        forall|index: usize| #[trigger]
            started_tracks(events).contains(index) == (index < work_after(before, step).queue.next),
        forall|index: usize| #[trigger]
            ended_tracks(events).contains(index) == (index < work_after(before, step).queue.next
                && !renders(work_after(before, step).current, index)),
{
    let work = work_after(before, step);
    if events.len() > past.len() {
        assert(events.drop_last() =~= past);
    }
    match step {
        WorkStep::Takes(worker) => {
            assert forall|index: usize| #[trigger]
                renders(work.current, index) == (renders(before.current, index) || front(
                    before.queue,
                ) == Some(index)) by {
                lemma_update_renders(before.current, worker as int, front(before.queue), index);
            }
            assert(ended_tracks(events) == ended_tracks(past));
            assert(orderly(events, total as nat));
        },
        WorkStep::Ends(worker) => {
            let done = before.current[worker as int]->0;
            assert(renders(before.current, done));
            assert forall|index: usize| #[trigger]
                renders(work.current, index) == (renders(before.current, index) && index
                    != done) by {
                lemma_update_renders(before.current, worker as int, None, index);
            }
            assert forall|index: usize| #[trigger]
                ended_tracks(events).contains(index) == (ended_tracks(past).contains(index)
                    || index == done) by {
                lemma_push_contains(ended_tracks(past), index, events.last());
            }
            assert(orderly(events, total as nat));
        },
    }
}

/// Which tracks workers render once one of them turned to another or to none.
proof fn lemma_update_renders(
    current: Seq<Option<usize>>,
    worker: int,
    next: Option<usize>,
    index: usize,
)
    requires
        0 <= worker < current.len(),
        forall|i: int, j: int|
            #![trigger current[i], current[j]]
            0 <= i < current.len() && 0 <= j < current.len() && i != j && current[i]
                is Some ==> current[i] != current[j],
    ensures
        renders(current.update(worker, next), index) == (renders(current, index)
            && current[worker] != Some(index) || next == Some(index)),
{
    let after = current.update(worker, next);
    assert(after[worker] == next);
    if renders(current, index) {
        let i = choose|i: int| 0 <= i < current.len() && #[trigger] current[i] == Some(index);
        assert(i != worker ==> after[i] == Some(index));
    }
    if renders(after, index) {
        let i = choose|i: int| 0 <= i < after.len() && #[trigger] after[i] == Some(index);
        assert(i != worker ==> current[i] == Some(index));
    }
}

/// There are as many tracks as the batch has.
proof fn lemma_number_of_tracks(total: usize)
    ensures
        Set::<usize>::new(|index: usize| index < total).finite(),
        Set::<usize>::new(|index: usize| index < total).len() == total,
    decreases total,
{
    let all = Set::<usize>::new(|index: usize| index < total);
    if total == 0 {
        assert(all =~= Set::empty());
    } else {
        let last = (total - 1) as usize;
        lemma_number_of_tracks(last);
        let rest = Set::<usize>::new(|index: usize| index < last);
        assert(all =~= rest.insert(last));
    }
}

// ---------------------------------------------------------------------------
// Laws of what is shown
// ---------------------------------------------------------------------------

/// A title that is too long loses characters at its end only, and as few as there can
/// be: it is as long as wanted, and its last character is an ellipsis.
pub proof fn law_title_is_cut_at_its_end(title: &str, max_characters: usize, r: String)
    requires
        call_ensures(truncate_title, (title, max_characters), r),
    ensures
        title@.len() <= max_characters ==> r@ == title@,
        title@.len() > max_characters ==> {
            &&& r@.len() == if max_characters == 0 {
                1
            } else {
                max_characters as int
            }
            &&& r@.last() as int == 0x2026
            &&& forall|i: int| 0 <= i < r@.len() - 1 ==> #[trigger] r@[i] == title@[i]
        },
{
}

/// A duration is told as a number of days and hours, of hours and minutes, of minutes
/// and seconds, or of seconds, which make it up but for less than the smaller unit.
pub proof fn law_duration_is_told_in_two_units(total: u64, r: String)
    requires
        call_ensures(format_duration, (Span::Seconds(total),), r),
    ensures
        total < 60 ==> r@ == number::decimal(total as nat) + "s"@,
        60 <= total < 3_600 ==> exists|m: nat, s: nat|
            total == 60 * m + s && s < 60 && r@ == #[trigger] number::decimal(m) + "m "@
                + #[trigger] number::two_digits(s) + "s"@,
        3_600 <= total < 86_400 ==> exists|h: nat, m: nat|
            3_600 * h + 60 * m <= total < 3_600 * h + 60 * m + 60 && m < 60 && r@
                == #[trigger] number::decimal(h) + "h "@ + #[trigger] number::two_digits(m) + "m"@,
        total >= 86_400 ==> exists|d: nat, h: nat|
            86_400 * d + 3_600 * h <= total < 86_400 * d + 3_600 * h + 3_600 && h < 24 && r@
                == #[trigger] number::decimal(d) + "d "@ + #[trigger] number::two_digits(h) + "h"@,
{
    let d = (total / 86_400) as nat;
    let h = (total % 86_400 / 3_600) as nat;
    let m = (total % 3_600 / 60) as nat;
    let s = (total % 60) as nat;
    assert(total % 86_400 % 3_600 == total % 3_600);
    assert(total % 3_600 % 60 == total % 60);
    if total >= 86_400 {
        assert(86_400 * d + 3_600 * h <= total < 86_400 * d + 3_600 * h + 3_600);
        assert(r@ == number::decimal(d) + "d "@ + number::two_digits(h) + "h"@);
    } else if total >= 3_600 {
        assert(3_600 * h + 60 * m <= total < 3_600 * h + 60 * m + 60);
        assert(r@ == number::decimal(h) + "h "@ + number::two_digits(m) + "m"@);
    } else if total >= 60 {
        assert(total == 60 * m + s);
        assert(r@ == number::decimal(m) + "m "@ + number::two_digits(s) + "s"@);
    }
}

/// Less than a second is told with one digit behind the point, and what is no duration
/// with two hyphens.
pub proof fn law_tenths_are_told_behind_a_point(whole: u8, digit: u8, tenths: u8, r: String, s: String)
    requires
        tenths == 10 * whole + digit,
        digit < 10,
        call_ensures(format_duration, (Span::Tenths(tenths),), r),
        call_ensures(format_duration, (Span::Invalid,), s),
    ensures
        r@ == number::decimal(whole as nat) + "."@ + number::decimal(digit as nat) + "s"@,
        s@ == "--"@,
{
    assert(tenths / 10 == whole);
    assert(tenths % 10 == digit);
}

/// A duration that is known is told as any duration, and one that is not is said to be
/// unknown.
pub proof fn law_known_durations_are_told(span: Span, r: String, s: String, t: String)
    requires
        call_ensures(known_duration, (Some(span),), r),
        call_ensures(format_duration, (span,), s),
        call_ensures(known_duration, (None,), t),
    ensures
        r@ == s@,
        t@ == "unknown"@,
{
}

/// The time that is left is told once something was done, where the length of all
/// tracks is known; before, it is said to be calculated. Where nothing is left, it is
/// no time.
pub proof fn law_time_left_is_told_when_it_is_known(
    total_known: bool,
    nothing_left: bool,
    begun: bool,
    remaining: Span,
    r: String,
    s: String,
    none: String,
)
    requires
        call_ensures(eta_text, (total_known, nothing_left, begun, remaining), r),
        call_ensures(format_duration, (remaining,), s),
        call_ensures(format_duration, (Span::Seconds(0),), none),
    ensures
        !total_known ==> r@ == "calculating"@,
        total_known && nothing_left ==> r@ == none@,
        total_known && !nothing_left && !begun ==> r@ == "calculating"@,
        total_known && !nothing_left && begun ==> r@ == s@,
{
    reveal_strlit("0s");
    reveal_strlit("s");
    number::law_decimal_is_read_back(0);
    let zero = number::decimal(0);
    assert(zero =~= seq!['0']) by {
        let digit = zero[0];
        assert('0' <= digit <= '9');
        if zero.len() > 1 {
            lemma_above_zero(zero);
        }
        assert(zero.drop_last() =~= Seq::empty());
        assert(number::read_decimal(zero.drop_last()) == 0);
    }
    assert(none@ =~= "0s"@);
}

/// A number of more than one digit that does not start with a zero is above zero.
proof fn lemma_above_zero(text: Seq<char>)
    requires
        text.len() > 0,
        forall|i: int| 0 <= i < text.len() ==> '0' <= #[trigger] text[i] <= '9',
        text[0] != '0',
    ensures
        number::read_decimal(text) > 0,
    decreases text.len(),
{
    assert('0' <= text[text.len() - 1] <= '9');
    if text.len() > 1 {
        lemma_above_zero(text.drop_last());
    } else {
        assert(text.drop_last() =~= Seq::empty());
        assert('0' <= text[0] <= '9');
        assert(number::read_decimal(text.drop_last()) == 0);
    }
}

/// As many tracks are rendered at a time as are wanted and there are, and at least one.
pub proof fn law_workers_are_as_many_as_can_be(jobs: usize, total: usize, r: usize)
    requires
        call_ensures(worker_count, (jobs, total), r),
    ensures
        r >= 1,
        jobs >= 1 ==> r <= jobs,
        total >= 1 ==> r <= total,
        jobs >= 1 && total >= 1 ==> r == jobs || r == total,
        jobs == 0 || total == 0 ==> r == 1,
{
}

/// The tracks of a new queue are taken from the first to the last.
pub proof fn law_queue_gives_the_tracks_in_order(total: usize, queue: BatchQueue, count: nat)
    requires
        call_ensures(BatchQueue::new, (total,), queue),
    ensures
        front(after_taking(queue, count)) == if count < total {
            Some(count as usize)
        } else {
            None
        },
{
    law_each_track_is_taken_once(total, count);
}

/// Taking a track gives the next one and moves on by one, as long as there is one;
/// then nothing is given and nothing changes.
pub proof fn law_taking_moves_on_by_one(queue: &mut BatchQueue, r: Option<usize>)
    requires
        call_ensures(BatchQueue::take, (queue,), r),
    ensures
        final(queue).total == old(queue).total,
        old(queue).next < old(queue).total ==> r == Some(old(queue).next) && final(queue).next
            == old(queue).next + 1,
        old(queue).next >= old(queue).total ==> r is None && final(queue).next == old(queue).next,
{
}

/// A new pool has the workers that are wanted, none of which renders anything, and all
/// tracks wait.
pub proof fn law_new_pool_waits(workers: usize, total: usize, pool: WorkPool)
    requires
        call_ensures(WorkPool::new, (workers, total), pool),
    ensures
        pool.current@.len() == workers,
        forall|i: int| 0 <= i < workers ==> (#[trigger] pool.current@[i]) is None,
        pool.queue.next == 0,
        pool.queue.total == total,
{
}

/// A worker that takes a track renders the one it was given, and the others go on with
/// theirs.
pub proof fn law_worker_renders_what_it_takes(pool: &mut WorkPool, worker: usize, r: Option<usize>)
    requires
        call_ensures(WorkPool::take, (pool, worker), r),
        worker < old(pool).current@.len(),
    ensures
        final(pool).current@ == old(pool).current@.update(worker as int, r),
        r == if old(pool).queue.next < old(pool).queue.total {
            Some(old(pool).queue.next)
        } else {
            None
        },
        r is Some ==> final(pool).queue.next == old(pool).queue.next + 1,
        r is None ==> final(pool).queue.next == old(pool).queue.next,
        final(pool).queue.total == old(pool).queue.total,
{
    assert(final(pool).work().current == final(pool).current@);
}

/// A worker whose track has ended renders nothing, the others go on with theirs, and
/// the same tracks wait.
pub proof fn law_worker_is_free_after_its_track(pool: &mut WorkPool, worker: usize, r: ())
    requires
        call_ensures(WorkPool::ended, (pool, worker), r),
        worker < old(pool).current@.len(),
    ensures
        final(pool).current@ == old(pool).current@.update(worker as int, None),
        final(pool).queue == old(pool).queue,
{
    assert(final(pool).work().current == final(pool).current@);
    assert(final(pool).work().queue == final(pool).queue);
}

/// A new batch has no active tracks, none that ended and none that failed, and its
/// outcomes could be recorded so far.
pub proof fn law_new_batch_has_done_nothing<P>(
    titles: Vec<String>,
    quiet: bool,
    terminal: bool,
    batch: Batch<P>,
    r: Result<usize, SummaryFailed>,
)
    requires
        call_ensures(Batch::<P>::new, (titles, quiet, terminal), batch),
        call_ensures(Batch::<P>::result, (&batch,), r),
    ensures
        batch.display.titles == titles,
        batch.display.quiet == quiet,
        batch.display.terminal == terminal,
        !batch.display.line_visible,
        batch.display.completed == 0,
        batch.display.active@ == Map::<usize, P>::empty(),
        r == Ok::<usize, SummaryFailed>(0),
{
    assert(batch.state().shown.completed == batch.display.completed);
    assert(batch.state().shown.failures == batch.display.failures);
    assert(batch.state().broken == batch.broken);
}

/// A track that ends is one more that has ended, one more that failed where it failed,
/// and no longer active. Its outcome is to be recorded unless one could not be.
pub proof fn law_ended_track_is_counted<P>(
    batch: &mut Batch<P>,
    index: usize,
    failed: bool,
    r: Ended,
)
    requires
        call_ensures(Batch::<P>::finished, (batch, index, failed), r),
    ensures
        final(batch).display.completed == old(batch).display.completed + 1,
        final(batch).display.failures == old(batch).display.failures + if failed {
            1int
        } else {
            0int
        },
        final(batch).display.active@ == old(batch).display.active@.remove(index),
        final(batch).display.titles == old(batch).display.titles,
        final(batch).broken == old(batch).broken,
        r.record == !old(batch).broken,
        r.clear == (old(batch).display.terminal && old(batch).display.line_visible),
{
    assert(final(batch).state().shown.completed == final(batch).display.completed);
    assert(final(batch).state().shown.failures == final(batch).display.failures);
    assert(final(batch).state().broken == final(batch).broken);
}

/// One outcome that could not be recorded breaks a batch for good, and nothing else
/// does. A broken batch fails; one that is not broken tells how many tracks failed.
pub proof fn law_fault_breaks_a_batch<P>(
    batch: &mut Batch<P>,
    worked: bool,
    r: (),
    other: &Batch<P>,
    result: Result<usize, SummaryFailed>,
)
    requires
        call_ensures(Batch::<P>::recorded, (batch, worked), r),
        call_ensures(Batch::<P>::result, (other,), result),
    ensures
        final(batch).broken == (old(batch).broken || !worked),
        final(batch).display == old(batch).display,
        result is Err <==> other.broken,
        !other.broken ==> result == Ok::<usize, SummaryFailed>(other.display.failures),
{
    assert(final(batch).state().broken == final(batch).broken);
    assert(other.state().broken == other.broken);
    assert(other.state().shown.failures == other.display.failures);
}

} // verus!
