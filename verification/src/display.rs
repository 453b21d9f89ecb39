//! What is shown while a batch is rendered.
use std::collections::BTreeMap;

use vstd::prelude::*;

use crate::batch;
use crate::batch::Span;
use crate::config::RenderConfig;
use crate::number;

verus! {

/// How many characters of a title stand in the progress line at most.
pub const TITLE_WIDTH: usize = 26;

/// How long the progress line stays as it is at least, in milliseconds.
pub const DRAW_MILLIS: u64 = 200;

/// What is shown while a batch is rendered. `P` is what is known of the progress
/// of one track.
pub struct BatchDisplay<P> {
    /// Whether only failures are shown.
    pub quiet: bool,
    /// Whether there is a terminal, on which a line can be redrawn.
    pub terminal: bool,
    /// Whether the progress line is on the screen.
    pub line_visible: bool,
    /// How many tracks have ended.
    pub completed: usize,
    /// How many of them failed.
    pub failures: usize,
    /// The titles of all tracks.
    pub titles: Vec<String>,
    /// The progress of the tracks that are being rendered.
    pub active: BTreeMap<usize, P>,
}

/// The position and the number of things, as in `3/7`.
pub open spec fn fraction(part: nat, whole: nat) -> Seq<char> {
    "["@ + number::decimal(part) + "/"@ + number::decimal(whole) + "] "@
}

/// The position and the number of things, as in `3/7`.
pub fn fraction_text(part: usize, whole: usize) -> (r: String)
    ensures
        r@ == fraction(part as nat, whole as nat),
{
    let mut r = "[".to_owned();
    r.append(number::decimal_text(part as u64).as_str());
    r.append("/");
    r.append(number::decimal_text(whole as u64).as_str());
    r.append("] ");
    r
}

/// Whether a number is the smallest of a set.
pub open spec fn least(numbers: Set<usize>, n: usize) -> bool {
    numbers.contains(n) && forall|m: usize| #[trigger] numbers.contains(m) ==> n <= m
}

/// What is shown of the tracks that are being rendered: the title of the first,
/// how much of it is done in percent, and how many others there are.
pub open spec fn active_words(
    titles: Seq<String>,
    active: Set<usize>,
    percent: Seq<char>,
) -> Seq<char> {
    if active.len() == 0 {
        "finalizing"@
    } else {
        let first = choose|n: usize| least(active, n);
        batch::shortened(titles[first as int]@, TITLE_WIDTH as nat) + " "@ + percent + "%"@ + (
        if active.len() == 1 {
            Seq::empty()
        } else {
            " (+"@ + number::decimal((active.len() - 1) as nat) + ")"@
        })
    }
}

/// What is known of the tracks of a batch.
#[verifier::ext_equal]
pub struct Shown {
    /// The tracks that are being rendered.
    pub active: Set<usize>,
    /// How many tracks have ended.
    pub completed: nat,
    /// How many of them failed.
    pub failures: nat,
}

/// What happens to a track of a batch.
pub enum TrackEvent {
    /// Its rendering has started.
    Started(usize),
    /// It has come further.
    Progressed(usize),
    /// Its rendering has ended, and whether it failed.
    Finished(usize, bool),
}

/// What is known of the tracks after something happened to one of them.
pub open spec fn shown_after(shown: Shown, event: TrackEvent) -> Shown {
    match event {
        TrackEvent::Started(index) => Shown { active: shown.active.insert(index), ..shown },
        TrackEvent::Progressed(index) => Shown { active: shown.active.insert(index), ..shown },
        TrackEvent::Finished(index, failed) => Shown {
            active: shown.active.remove(index),
            completed: shown.completed + 1,
            failures: if failed {
                shown.failures + 1
            } else {
                shown.failures
            },
        },
    }
}

impl<P> BatchDisplay<P> {
    /// What is known of the tracks.
    pub open spec fn shown(self) -> Shown {
        Shown {
            active: self.active@.dom(),
            completed: self.completed as nat,
            failures: self.failures as nat,
        }
    }

    /// Whether the tracks that are being rendered are tracks of the batch, and
    /// no more have failed than have ended.
    pub open spec fn sound(self) -> bool {
        &&& self.failures <= self.completed
        &&& forall|index: usize| #[trigger]
            self.active@.contains_key(index) ==> index < self.titles@.len()
    }

    /// What is shown of a batch with the given titles.
    pub fn new(titles: Vec<String>, quiet: bool, terminal: bool) -> (r: BatchDisplay<P>)
        ensures
            r.sound(),
            r.quiet == quiet,
            r.terminal == terminal,
            !r.line_visible,
            r.completed == 0,
            r.failures == 0,
            r.titles == titles,
            r.active@ == Map::<usize, P>::empty(),
    {
        BatchDisplay {
            quiet,
            terminal,
            line_visible: false,
            completed: 0,
            failures: 0,
            titles,
            active: BTreeMap::new(),
        }
    }

    /// The line that says what will be done, where it is shown.
    pub fn plan_line(
        &self,
        media: Span,
        workers: usize,
        threads: usize,
        config: &RenderConfig,
    ) -> (r: Option<String>)
        ensures
            match r {
                Some(line) => !self.quiet && line@ == "render plan: "@ + number::decimal(
                    self.titles@.len(),
                ) + " track(s) | media "@ + batch::duration_text(media) + " | jobs "@
                    + number::decimal(workers as nat) + " x "@ + number::decimal(threads as nat)
                    + " threads | "@ + number::decimal(config.width as nat) + "x"@
                    + number::decimal(config.height as nat) + "@"@ + number::decimal(
                    config.fps as nat,
                ) + " | "@ + config.encoder@,
                None => self.quiet,
            },
    {
        if self.quiet {
            return None;
        }
        let mut r = "render plan: ".to_owned();
        r.append(number::decimal_text(self.titles.len() as u64).as_str());
        r.append(" track(s) | media ");
        r.append(batch::format_duration(media).as_str());
        r.append(" | jobs ");
        r.append(number::decimal_text(workers as u64).as_str());
        r.append(" x ");
        r.append(number::decimal_text(threads as u64).as_str());
        r.append(" threads | ");
        r.append(number::decimal_text(config.width as u64).as_str());
        r.append("x");
        r.append(number::decimal_text(config.height as u64).as_str());
        r.append("@");
        r.append(number::decimal_text(config.fps as u64).as_str());
        r.append(" | ");
        r.append(config.encoder.as_str());
        Some(r)
    }

    /// A track is being rendered from now on. Returns the line that says so,
    /// where it is shown: without a terminal only.
    pub fn started(&mut self, index: usize, progress: P, expected: Option<Span>) -> (r: Option<
        String,
    >)
        requires
            old(self).sound(),
            index < old(self).titles@.len(),
        ensures
            final(self).sound(),
            *final(self) == (BatchDisplay { active: final(self).active, ..*old(self) }),
            final(self).active@ == old(self).active@.insert(index, progress),
            final(self).shown() == shown_after(old(self).shown(), TrackEvent::Started(index)),
            match r {
                Some(line) => !old(self).quiet && !old(self).terminal && line@ == fraction(
                    (index + 1) as nat,
                    old(self).titles@.len(),
                ) + "start: "@ + old(self).titles@[index as int]@ + " ("@ + batch::known_text(
                    expected,
                ) + ")"@,
                None => old(self).quiet || old(self).terminal,
            },
    {
        self.active.insert(index, progress);
        if self.quiet || self.terminal {
            return None;
        }
        let total: usize = self.titles.len();
        let mut r = fraction_text(index + 1, total);
        r.append("start: ");
        r.append(self.titles[index].as_str());
        r.append(" (");
        r.append(batch::known_duration(expected).as_str());
        r.append(")");
        Some(r)
    }

    /// A track has come further.
    pub fn progress(&mut self, index: usize, progress: P)
        requires
            old(self).sound(),
            index < old(self).titles@.len(),
        ensures
            final(self).sound(),
            *final(self) == (BatchDisplay { active: final(self).active, ..*old(self) }),
            final(self).active@ == old(self).active@.insert(index, progress),
            final(self).shown() == shown_after(old(self).shown(), TrackEvent::Progressed(index)),
    {
        self.active.insert(index, progress);
    }

    /// The rendering of a track has ended. Returns whether the progress line is
    /// to be cleared.
    pub fn finished(&mut self, index: usize, failed: bool) -> (r: bool)
        requires
            old(self).sound(),
            old(self).completed < usize::MAX,
        ensures
            final(self).sound(),
            r == (old(self).terminal && old(self).line_visible),
            *final(self) == (BatchDisplay {
                line_visible: old(self).line_visible && !old(self).terminal,
                completed: (old(self).completed + 1) as usize,
                failures: (old(self).failures + if failed {
                    1int
                } else {
                    0int
                }) as usize,
                active: final(self).active,
                ..*old(self)
            }),
            final(self).active@ == old(self).active@.remove(index),
            final(self).shown() == shown_after(
                old(self).shown(),
                TrackEvent::Finished(index, failed),
            ),
    {
        let clear = self.clear_line();
        self.active.remove(&index);
        self.completed = self.completed + 1;
        if failed {
            self.failures = self.failures + 1;
        }
        clear
    }

    /// The line that says that a track was rendered, where it is shown. The
    /// speed is given as text.
    pub fn done_line(&self, title: &str, media: Span, took: Span, speed: &str, eta: &str) -> (r:
        Option<String>)
        ensures
            match r {
                Some(line) => !self.quiet && line@ == fraction(
                    self.completed as nat,
                    self.titles@.len(),
                ) + "done: "@ + title@ + " | media "@ + batch::duration_text(media) + " | took "@
                    + batch::duration_text(took) + " | "@ + speed@ + "x | ETA "@ + eta@,
                None => self.quiet,
            },
    {
        if self.quiet {
            return None;
        }
        let mut r = fraction_text(self.completed, self.titles.len());
        r.append("done: ");
        r.append(title);
        r.append(" | media ");
        r.append(batch::format_duration(media).as_str());
        r.append(" | took ");
        r.append(batch::format_duration(took).as_str());
        r.append(" | ");
        r.append(speed);
        r.append("x | ETA ");
        r.append(eta);
        Some(r)
    }

    /// The line that says that a track failed. It is always shown.
    pub fn failed_line(&self, title: &str, error: &str) -> (r: String)
        ensures
            r@ == fraction(self.completed as nat, self.titles@.len()) + "failed: "@ + title@ + ": "@
                + error@,
    {
        let mut r = fraction_text(self.completed, self.titles.len());
        r.append("failed: ");
        r.append(title);
        r.append(": ");
        r.append(error);
        r
    }

    /// The line that ends a batch, where it is shown. The average speed is given
    /// as text.
    pub fn closing_line(&self, elapsed: Span, media: Span, average: &str) -> (r: Option<String>)
        ensures
            match r {
                Some(line) => !self.quiet && line@ == "finished: "@ + number::decimal(
                    self.completed as nat,
                ) + " track(s), "@ + number::decimal(self.failures as nat) + " failed | elapsed "@
                    + batch::duration_text(elapsed) + " | media "@ + batch::duration_text(media)
                    + " | average "@ + average@ + "x realtime"@,
                None => self.quiet,
            },
    {
        if self.quiet {
            return None;
        }
        let mut r = "finished: ".to_owned();
        r.append(number::decimal_text(self.completed as u64).as_str());
        r.append(" track(s), ");
        r.append(number::decimal_text(self.failures as u64).as_str());
        r.append(" failed | elapsed ");
        r.append(batch::format_duration(elapsed).as_str());
        r.append(" | media ");
        r.append(batch::format_duration(media).as_str());
        r.append(" | average ");
        r.append(average);
        r.append("x realtime");
        Some(r)
    }

    /// Whether the progress line is to be drawn, given how long ago it was drawn
    /// last.
    pub fn draws(&self, force: bool, since_draw: u64) -> (r: bool)
        ensures
            r == (!self.quiet && self.terminal && (force || since_draw >= DRAW_MILLIS)),
    {
        !self.quiet && self.terminal && (force || since_draw >= DRAW_MILLIS)
    }

    /// The progress line. The share that is done, in percent, and the speed are
    /// given as texts. From now on the line is on the screen.
    pub fn draw(
        &mut self,
        percent: &str,
        active: &str,
        processed: Span,
        total: Option<Span>,
        elapsed: Span,
        eta: &str,
        speed: &str,
    ) -> (r: String)
        ensures
            *final(self) == (BatchDisplay { line_visible: true, ..*old(self) }),
            r@ == "["@ + percent@ + "% | "@ + number::decimal(old(self).completed as nat) + "/"@
                + number::decimal(old(self).titles@.len()) + "] "@ + active@ + " | media "@
                + batch::duration_text(processed) + "/"@ + batch::known_text(total)
                + " | elapsed "@ + batch::duration_text(elapsed) + " | ETA "@ + eta@ + " | "@
                + speed@ + "x"@,
    {
        let mut r = "[".to_owned();
        r.append(percent);
        r.append("% | ");
        r.append(number::decimal_text(self.completed as u64).as_str());
        r.append("/");
        r.append(number::decimal_text(self.titles.len() as u64).as_str());
        r.append("] ");
        r.append(active);
        r.append(" | media ");
        r.append(batch::format_duration(processed).as_str());
        r.append("/");
        r.append(batch::known_duration(total).as_str());
        r.append(" | elapsed ");
        r.append(batch::format_duration(elapsed).as_str());
        r.append(" | ETA ");
        r.append(eta);
        r.append(" | ");
        r.append(speed);
        r.append("x");
        self.line_visible = true;
        r
    }

    /// Whether the progress line is to be cleared. From now on it is not on the
    /// screen of a terminal.
    pub fn clear_line(&mut self) -> (r: bool)
        ensures
            r == (old(self).terminal && old(self).line_visible),
            *final(self) == (BatchDisplay {
                line_visible: old(self).line_visible && !old(self).terminal,
                ..*old(self)
            }),
    {
        if self.terminal && self.line_visible {
            self.line_visible = false;
            true
        } else {
            false
        }
    }

    /// The first of the tracks that are being rendered.
    pub fn first_active(&self) -> (r: Option<usize>)
        ensures
            match r {
                Some(index) => least(self.active@.dom(), index),
                None => self.active@.dom().len() == 0,
            },
    {
        let mut first: Option<usize> = None;
        for key in it: self.active.keys()
            invariant
                it.seq().unref().to_set() == self.active@.dom(),
                match first {
                    Some(index) => self.active@.contains_key(index) && forall|k: int|
                        0 <= k < it.index() ==> index <= *(#[trigger] it.seq()[k]),
                    None => it.index() == 0,
                },
        {
            proof {
                assert(it.seq().unref()[it.index()] == *key);
                assert(it.seq().unref().to_set().contains(*key));
            }
            first = match first {
                Some(index) => if *key < index {
                    Some(*key)
                } else {
                    Some(index)
                },
                None => Some(*key),
            };
        }
        first
    }

    /// What is shown of the tracks that are being rendered, given how much of
    /// the first is done in percent.
    pub fn active_text(&self, percent: &str) -> (r: String)
        requires
            self.sound(),
        ensures
            r@ == active_words(self.titles@, self.active@.dom(), percent@),
    {
        let index: usize = match self.first_active() {
            Some(index) => index,
            None => {
                return "finalizing".to_owned();
            },
        };
        let mut r = batch::truncate_title(self.titles[index].as_str(), TITLE_WIDTH);
        r.append(" ");
        r.append(percent);
        r.append("%");
        let others: usize = self.active.len() - 1;
        if others > 0 {
            r.append(" (+");
            r.append(number::decimal_text(others as u64).as_str());
            r.append(")");
        }
        r
    }
}

// ---------------------------------------------------------------------------
// Laws
// ---------------------------------------------------------------------------

/// A track that starts is active with its progress; those that are active stay so, and
/// nothing is counted.
pub proof fn law_started_track_is_active<P>(
    display: &mut BatchDisplay<P>,
    index: usize,
    progress: P,
    expected: Option<Span>,
    r: Option<String>,
)
    requires
        call_ensures(BatchDisplay::<P>::started, (display, index, progress, expected), r),
    ensures
        final(display).active@.contains_key(index),
        final(display).active@[index] == progress,
        forall|other: usize|
            other != index ==> (#[trigger] final(display).active@.contains_key(other)
                == old(display).active@.contains_key(other)),
        final(display).completed == old(display).completed,
        final(display).failures == old(display).failures,
        final(display).titles == old(display).titles,
{
}

/// Where there is neither quiet nor a terminal, the start of a track is told with its
/// place, counted from one, the number of tracks, its title and how long it is.
pub proof fn law_start_is_told_without_a_terminal<P>(
    display: &mut BatchDisplay<P>,
    index: usize,
    progress: P,
    expected: Option<Span>,
    r: Option<String>,
    duration: String,
)
    requires
        index < old(display).titles@.len(),
        call_ensures(BatchDisplay::<P>::started, (display, index, progress, expected), r),
        call_ensures(batch::known_duration, (expected,), duration),
    ensures
        r is None <==> old(display).quiet || old(display).terminal,
        r matches Some(line) ==> line@ == "["@ + number::decimal((index + 1) as nat) + "/"@
            + number::decimal(old(display).titles@.len()) + "] "@ + "start: "@ + old(display).titles@[index as int]@ + " ("@ + duration@ + ")"@,
{
}

/// The progress of a track is kept for that track only.
pub proof fn law_progress_is_that_of_the_track<P>(
    display: &mut BatchDisplay<P>,
    index: usize,
    progress: P,
    r: (),
)
    requires
        call_ensures(BatchDisplay::<P>::progress, (display, index, progress), r),
    ensures
        final(display).active@.contains_key(index),
        final(display).active@[index] == progress,
        forall|other: usize|
            other != index ==> (#[trigger] final(display).active@.contains_key(other)
                == old(display).active@.contains_key(other)),
        forall|other: usize|
            other != index && old(display).active@.contains_key(other) ==> (
            #[trigger] final(display).active@[other]) == old(display).active@[other],
        final(display).completed == old(display).completed,
        final(display).failures == old(display).failures,
        final(display).titles == old(display).titles,
        final(display).line_visible == old(display).line_visible,
{
}

/// A track that ends is no longer active; it is one more that has ended, and one more
/// that failed where it failed.
pub proof fn law_finished_track_is_counted<P>(
    display: &mut BatchDisplay<P>,
    index: usize,
    failed: bool,
    r: bool,
)
    requires
        old(display).sound(),
        old(display).completed < usize::MAX,
        call_ensures(BatchDisplay::<P>::finished, (display, index, failed), r),
    ensures
        !final(display).active@.contains_key(index),
        forall|other: usize|
            other != index ==> (#[trigger] final(display).active@.contains_key(other)
                == old(display).active@.contains_key(other)),
        final(display).completed == old(display).completed + 1,
        final(display).failures - old(display).failures == if failed {
            1int
        } else {
            0int
        },
        final(display).titles == old(display).titles,
        r <==> old(display).terminal && old(display).line_visible,
        old(display).terminal ==> !final(display).line_visible,
{
}

/// The line is drawn on a terminal that is not quiet, at once where it has to be and
/// else five times a second at most. It is cleared only where it was drawn.
pub proof fn law_line_is_drawn_on_terminals<P>(
    display: &BatchDisplay<P>,
    force: bool,
    since_draw: u64,
    r: bool,
)
    requires
        call_ensures(BatchDisplay::<P>::draws, (display, force, since_draw), r),
    ensures
        r ==> display.terminal && !display.quiet,
        display.terminal && !display.quiet && force ==> r,
        display.terminal && !display.quiet && !force ==> (r <==> 5 * since_draw >= 1_000),
{
}

/// The line that was drawn is cleared once.
pub proof fn law_line_is_cleared_once<P>(display: &mut BatchDisplay<P>, r: bool)
    requires
        call_ensures(BatchDisplay::<P>::clear_line, (display,), r),
    ensures
        r <==> old(display).terminal && old(display).line_visible,
        r ==> !final(display).line_visible,
        !r ==> *final(display) == *old(display),
        final(display).completed == old(display).completed,
        final(display).active@ == old(display).active@,
{
}

/// A track that is active, and before which there is none, is the first. It is the one
/// whose title is shown, cut to twenty-six characters, with how many others there are.
pub proof fn law_first_active_track_is_named<P>(
    display: &BatchDisplay<P>,
    first: usize,
    percent: &str,
    title: &str,
    cut: String,
    index: Option<usize>,
    r: String,
)
    requires
        display.sound(),
        display.active@.dom().finite(),
        display.active@.contains_key(first),
        forall|other: usize| other < first ==> !#[trigger] display.active@.contains_key(other),
        title@ == display.titles@[first as int]@,
        call_ensures(batch::truncate_title, (title, 26), cut),
        call_ensures(BatchDisplay::<P>::first_active, (display,), index),
        call_ensures(BatchDisplay::<P>::active_text, (display, percent), r),
    ensures
        index == Some(first),
        display.active@.dom().len() == 1 ==> r@ == cut@ + " "@ + percent@ + "%"@,
        display.active@.dom().len() > 1 ==> r@ == cut@ + " "@ + percent@ + "%"@ + " (+"@
            + number::decimal((display.active@.dom().len() - 1) as nat) + ")"@,
{
    let active = display.active@.dom();
    assert(active.contains(first));
    if active.len() == 0 {
        active.lemma_len0_is_empty();
    }
    assert(least(active, first));
    let chosen = choose|n: usize| least(active, n);
    assert(chosen <= first && first <= chosen);
    let start = cut@ + " "@ + percent@ + "%"@;
    assert(start + Seq::empty() =~= start);
    assert(start + (" (+"@ + number::decimal((active.len() - 1) as nat) + ")"@) =~= start + " (+"@
        + number::decimal((active.len() - 1) as nat) + ")"@);
}

/// Where no track is active, none is first, and the batch is said to be finalizing.
pub proof fn law_no_active_track_is_named<P>(
    display: &BatchDisplay<P>,
    percent: &str,
    index: Option<usize>,
    r: String,
)
    requires
        display.active@ == Map::<usize, P>::empty(),
        call_ensures(BatchDisplay::<P>::first_active, (display,), index),
        call_ensures(BatchDisplay::<P>::active_text, (display, percent), r),
    ensures
        index is None,
        r@ == "finalizing"@,
{
    assert(display.active@.dom() =~= Set::empty());
    if index is Some {
        assert(least(display.active@.dom(), index->0));
    }
}

/// The plan tells how many tracks there are, how long they are, how they are rendered
/// and in what form, unless it is quiet.
pub proof fn law_plan_is_told<P>(
    display: &BatchDisplay<P>,
    media: Span,
    workers: usize,
    threads: usize,
    config: &RenderConfig,
    duration: String,
    r: Option<String>,
)
    requires
        call_ensures(batch::format_duration, (media,), duration),
        call_ensures(BatchDisplay::<P>::plan_line, (display, media, workers, threads, config), r),
    ensures
        r is None <==> display.quiet,
        r matches Some(line) ==> line@ == "render plan: "@ + number::decimal(display.titles@.len())
            + " track(s) | media "@ + duration@ + " | jobs "@ + number::decimal(workers as nat)
            + " x "@ + number::decimal(threads as nat) + " threads | "@ + number::decimal(
            config.width as nat,
        ) + "x"@ + number::decimal(config.height as nat) + "@"@ + number::decimal(config.fps as nat)
            + " | "@ + config.encoder@,
{
}

/// A track that was rendered is told with how many have ended so far, unless it is
/// quiet; one that failed is told always, with why.
pub proof fn law_ends_are_told<P>(
    display: &BatchDisplay<P>,
    title: &str,
    media: Span,
    took: Span,
    speed: &str,
    eta: &str,
    error: &str,
    length: String,
    time: String,
    r: Option<String>,
    s: String,
)
    requires
        call_ensures(batch::format_duration, (media,), length),
        call_ensures(batch::format_duration, (took,), time),
        call_ensures(BatchDisplay::<P>::done_line, (display, title, media, took, speed, eta), r),
        call_ensures(BatchDisplay::<P>::failed_line, (display, title, error), s),
    ensures
        r is None <==> display.quiet,
        r matches Some(line) ==> line@ == "["@ + number::decimal(display.completed as nat) + "/"@
            + number::decimal(display.titles@.len()) + "] "@ + "done: "@ + title@ + " | media "@
            + length@ + " | took "@ + time@ + " | "@ + speed@ + "x | ETA "@ + eta@,
        s@ == "["@ + number::decimal(display.completed as nat) + "/"@ + number::decimal(
            display.titles@.len(),
        ) + "] "@ + "failed: "@ + title@ + ": "@ + error@,
{
}

/// The end of a batch is told with how many tracks ended and how many of them failed,
/// unless it is quiet.
pub proof fn law_batch_end_is_told<P>(
    display: &BatchDisplay<P>,
    elapsed: Span,
    media: Span,
    average: &str,
    time: String,
    length: String,
    r: Option<String>,
)
    requires
        call_ensures(batch::format_duration, (elapsed,), time),
        call_ensures(batch::format_duration, (media,), length),
        call_ensures(BatchDisplay::<P>::closing_line, (display, elapsed, media, average), r),
    ensures
        r is None <==> display.quiet,
        r matches Some(line) ==> line@ == "finished: "@ + number::decimal(display.completed as nat)
            + " track(s), "@ + number::decimal(display.failures as nat) + " failed | elapsed "@
            + time@ + " | media "@ + length@ + " | average "@ + average@ + "x realtime"@,
{
}

/// The progress line tells how much is done, of how many tracks, and at what speed, and
/// is on the screen from then on.
pub proof fn law_progress_line_is_on_the_screen<P>(
    display: &mut BatchDisplay<P>,
    percent: &str,
    active: &str,
    processed: Span,
    total: Option<Span>,
    elapsed: Span,
    eta: &str,
    speed: &str,
    done: String,
    length: String,
    time: String,
    r: String,
)
    requires
        call_ensures(batch::format_duration, (processed,), done),
        call_ensures(batch::known_duration, (total,), length),
        call_ensures(batch::format_duration, (elapsed,), time),
        call_ensures(
            BatchDisplay::<P>::draw,
            (display, percent, active, processed, total, elapsed, eta, speed),
            r,
        ),
    ensures
        final(display).line_visible,
        final(display).completed == old(display).completed,
        final(display).failures == old(display).failures,
        final(display).active@ == old(display).active@,
        final(display).titles == old(display).titles,
        r@ == "["@ + percent@ + "% | "@ + number::decimal(old(display).completed as nat) + "/"@
            + number::decimal(old(display).titles@.len()) + "] "@ + active@ + " | media "@ + done@
            + "/"@ + length@ + " | elapsed "@ + time@ + " | ETA "@ + eta@ + " | "@ + speed@ + "x"@,
{
}

/// A place and a number stand in brackets with a stroke between them.
pub proof fn law_fraction_stands_in_brackets(part: usize, whole: usize, r: String)
    requires
        call_ensures(fraction_text, (part, whole), r),
    ensures
        r@ == "["@ + number::decimal(part as nat) + "/"@ + number::decimal(whole as nat) + "] "@,
{
}

} // verus!
