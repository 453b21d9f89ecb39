//! The course of one rendering.
use vstd::prelude::*;

verus! {

/// How long a rendering goes without a report, in milliseconds.
pub const REPORT_MILLIS: u64 = 400;

/// Why a rendering failed.
#[derive(Clone, Copy, Debug, PartialEq, Eq, Structural)]
pub enum JobFailure {
    /// The audio could not be decoded.
    Decode,
    /// The renderer could not be prepared.
    Prepare,
    /// The audio has no length.
    NoDuration,
    /// The directory of the video could not be created.
    Directory,
    /// The temporary file of an earlier run could not be removed.
    Temporary,
    /// The encoder could not be started.
    Start,
    /// The encoder has no input.
    Connect,
    /// The encoder took no more frames.
    Write,
    /// The encoder could not be waited for.
    Wait,
    /// The encoder failed.
    Encode,
    /// The video could not be moved to its place.
    Rename,
}

/// What is to be done next.
#[derive(Clone, Copy, Debug, PartialEq, Eq, Structural)]
pub enum JobStage {
    /// Decode and analyse the audio.
    Decoding,
    /// Prepare the renderer.
    Preparing,
    /// Report that nothing has been rendered yet.
    Announcing,
    /// Create the directory of the video.
    MakingDirectory,
    /// Look for a temporary file of an earlier run.
    LookingForTemporary,
    /// Remove the temporary file of an earlier run.
    ClearingTemporary,
    /// Start the encoder.
    Starting,
    /// Take hold of the encoder's input.
    Connecting,
    /// Render the next frame and write it to the encoder.
    Writing,
    /// Report how many frames have been written.
    Reporting,
    /// Close the encoder's input and wait for the encoder.
    Waiting,
    /// Remove the temporary file. Whether that works does not matter.
    Discarding(JobFailure),
    /// Move the temporary file to the place of the video.
    Renaming,
    /// Nothing: the video is there.
    Done,
    /// Nothing: there is no video.
    Failed(JobFailure),
}

/// How what was to be done went.
#[derive(Clone, Copy, Debug, PartialEq, Eq, Structural)]
pub enum JobEvent {
    /// It worked.
    Succeeded,
    /// It did not work.
    Failed,
    /// The audio was decoded.
    Decoded {
        /// Whether its length is above zero.
        positive: bool,
        /// How many frames show all of it.
        frames: usize,
    },
    /// Whether the file is there.
    Found(bool),
    /// A frame was written.
    Wrote {
        /// The milliseconds since the last report.
        since_report: u64,
    },
    /// The encoder ended.
    Exited {
        /// Whether it succeeded.
        success: bool,
    },
}

/// The course of one rendering.
#[derive(Clone, Copy, Debug, PartialEq, Eq, Structural)]
pub struct RenderJob {
    /// What is to be done next.
    pub stage: JobStage,
    /// Whether the audio has a length above zero.
    pub positive: bool,
    /// How many frames the video has.
    pub frames: usize,
    /// How many frames have been written.
    pub written: usize,
    /// Whether the encoder refused a frame.
    pub refused: bool,
}

/// A job at a stage.
pub open spec fn at_stage(job: RenderJob, stage: JobStage) -> RenderJob {
    RenderJob { stage, ..job }
}

/// A job at a stage if what was to be done worked, else failed.
pub open spec fn on_success(
    job: RenderJob,
    event: JobEvent,
    stage: JobStage,
    failure: JobFailure,
) -> RenderJob {
    match event {
        JobEvent::Succeeded => at_stage(job, stage),
        JobEvent::Failed => at_stage(job, JobStage::Failed(failure)),
        _ => job,
    }
}

/// Where a job goes to write frames: there may be none left.
pub open spec fn next_frame(job: RenderJob) -> JobStage {
    if job.written < job.frames {
        JobStage::Writing
    } else {
        JobStage::Waiting
    }
}

/// A job after an event. An event that does not answer the stage changes
/// nothing.
pub open spec fn job_next(job: RenderJob, event: JobEvent) -> RenderJob {
    match job.stage {
        JobStage::Decoding => match event {
            JobEvent::Decoded { positive, frames } => RenderJob {
                stage: JobStage::Preparing,
                positive,
                frames,
                ..job
            },
            JobEvent::Failed => at_stage(job, JobStage::Failed(JobFailure::Decode)),
            _ => job,
        },
        JobStage::Preparing => on_success(
            job,
            event,
            if job.positive {
                JobStage::Announcing
            } else {
                JobStage::Failed(JobFailure::NoDuration)
            },
            JobFailure::Prepare,
        ),
        JobStage::Announcing => match event {
            JobEvent::Succeeded => at_stage(job, JobStage::MakingDirectory),
            _ => job,
        },
        JobStage::MakingDirectory => on_success(
            job,
            event,
            JobStage::LookingForTemporary,
            JobFailure::Directory,
        ),
        JobStage::LookingForTemporary => match event {
            JobEvent::Found(true) => at_stage(job, JobStage::ClearingTemporary),
            JobEvent::Found(false) => at_stage(job, JobStage::Starting),
            _ => job,
        },
        JobStage::ClearingTemporary => on_success(
            job,
            event,
            JobStage::Starting,
            JobFailure::Temporary,
        ),
        JobStage::Starting => on_success(job, event, JobStage::Connecting, JobFailure::Start),
        JobStage::Connecting => on_success(job, event, next_frame(job), JobFailure::Connect),
        JobStage::Writing => match event {
            JobEvent::Wrote { since_report } => if job.written < job.frames {
                RenderJob {
                    stage: if since_report >= REPORT_MILLIS || job.written + 1 == job.frames {
                        JobStage::Reporting
                    } else {
                        JobStage::Writing
                    },
                    written: (job.written + 1) as usize,
                    ..job
                }
            } else {
                job
            },
            JobEvent::Failed => RenderJob { stage: JobStage::Waiting, refused: true, ..job },
            _ => job,
        },
        JobStage::Reporting => match event {
            JobEvent::Succeeded => at_stage(job, next_frame(job)),
            _ => job,
        },
        JobStage::Waiting => match event {
            JobEvent::Exited { success } => at_stage(
                job,
                if !success {
                    JobStage::Discarding(JobFailure::Encode)
                } else if job.refused {
                    JobStage::Discarding(JobFailure::Write)
                } else {
                    JobStage::Renaming
                },
            ),
            JobEvent::Failed => at_stage(job, JobStage::Failed(JobFailure::Wait)),
            _ => job,
        },
        JobStage::Discarding(failure) => match event {
            JobEvent::Succeeded => at_stage(job, JobStage::Failed(failure)),
            JobEvent::Failed => at_stage(job, JobStage::Failed(failure)),
            _ => job,
        },
        JobStage::Renaming => on_success(job, event, JobStage::Done, JobFailure::Rename),
        JobStage::Done => job,
        JobStage::Failed(failure) => job,
    }
}

/// A rendering that has not begun.
pub open spec fn new_job() -> RenderJob {
    RenderJob {
        stage: JobStage::Decoding,
        positive: false,
        frames: 0,
        written: 0,
        refused: false,
    }
}

impl RenderJob {
    /// A rendering that has not begun.
    pub fn new() -> (r: RenderJob)
        ensures
            r == new_job(),
    {
        RenderJob {
            stage: JobStage::Decoding,
            positive: false,
            frames: 0,
            written: 0,
            refused: false,
        }
    }

    /// Goes to the stage if what was to be done worked, else fails.
    fn go(&mut self, event: JobEvent, stage: JobStage, failure: JobFailure)
        ensures
            *final(self) == on_success(*old(self), event, stage, failure),
    {
        match event {
            JobEvent::Succeeded => {
                self.stage = stage;
            },
            JobEvent::Failed => {
                self.stage = JobStage::Failed(failure);
            },
            _ => {},
        }
    }

    /// Where the job goes to write frames: there may be none left.
    fn frame_stage(&self) -> (r: JobStage)
        ensures
            r == next_frame(*self),
    {
        if self.written < self.frames {
            JobStage::Writing
        } else {
            JobStage::Waiting
        }
    }

    /// Takes how what was to be done went. An event that does not answer the
    /// stage changes nothing.
    pub fn advance(&mut self, event: JobEvent)
        ensures
            *final(self) == job_next(*old(self), event),
    {
        match self.stage {
            JobStage::Decoding => match event {
                JobEvent::Decoded { positive, frames } => {
                    self.stage = JobStage::Preparing;
                    self.positive = positive;
                    self.frames = frames;
                },
                JobEvent::Failed => {
                    self.stage = JobStage::Failed(JobFailure::Decode);
                },
                _ => {},
            },
            JobStage::Preparing => {
                let stage = if self.positive {
                    JobStage::Announcing
                } else {
                    JobStage::Failed(JobFailure::NoDuration)
                };
                self.go(event, stage, JobFailure::Prepare);
            },
            JobStage::Announcing => {
                if event == JobEvent::Succeeded {
                    self.stage = JobStage::MakingDirectory;
                }
            },
            JobStage::MakingDirectory => {
                self.go(event, JobStage::LookingForTemporary, JobFailure::Directory);
            },
            JobStage::LookingForTemporary => {
                if let JobEvent::Found(found) = event {
                    self.stage = if found {
                        JobStage::ClearingTemporary
                    } else {
                        JobStage::Starting
                    };
                }
            },
            JobStage::ClearingTemporary => {
                self.go(event, JobStage::Starting, JobFailure::Temporary);
            },
            JobStage::Starting => {
                self.go(event, JobStage::Connecting, JobFailure::Start);
            },
            JobStage::Connecting => {
                let stage = self.frame_stage();
                self.go(event, stage, JobFailure::Connect);
            },
            JobStage::Writing => match event {
                JobEvent::Wrote { since_report } => {
                    if self.written < self.frames {
                        self.written = self.written + 1;
                        if since_report >= REPORT_MILLIS || self.written == self.frames {
                            self.stage = JobStage::Reporting;
                        }
                    }
                },
                JobEvent::Failed => {
                    self.stage = JobStage::Waiting;
                    self.refused = true;
                },
                _ => {},
            },
            JobStage::Reporting => {
                if event == JobEvent::Succeeded {
                    self.stage = self.frame_stage();
                }
            },
            JobStage::Waiting => match event {
                JobEvent::Exited { success } => {
                    self.stage = if !success {
                        JobStage::Discarding(JobFailure::Encode)
                    } else if self.refused {
                        JobStage::Discarding(JobFailure::Write)
                    } else {
                        JobStage::Renaming
                    };
                },
                JobEvent::Failed => {
                    self.stage = JobStage::Failed(JobFailure::Wait);
                },
                _ => {},
            },
            JobStage::Discarding(failure) => {
                self.go(event, JobStage::Failed(failure), failure);
            },
            JobStage::Renaming => {
                self.go(event, JobStage::Done, JobFailure::Rename);
            },
            JobStage::Done => {},
            JobStage::Failed(failure) => {},
        }
    }
}

// ---------------------------------------------------------------------------
// Laws
// ---------------------------------------------------------------------------

/// A job after events.
pub open spec fn job_after(events: Seq<JobEvent>) -> RenderJob
    decreases events.len(),
{
    if events.len() == 0 {
        new_job()
    } else {
        job_next(job_after(events.drop_last()), events.last())
    }
}

/// Whether a job stood at a stage when the event at a position came.
pub open spec fn met(events: Seq<JobEvent>, position: int, stage: JobStage) -> bool {
    0 <= position < events.len() && job_after(events.take(position)).stage == stage
}

/// What holds of a job at every time.
pub open spec fn sound(job: RenderJob) -> bool {
    &&& job.written <= job.frames
    &&& match job.stage {
        JobStage::Writing => job.positive && job.written < job.frames && !job.refused,
        JobStage::Reporting => job.positive && 0 < job.written && !job.refused,
        JobStage::Waiting => job.positive && (job.refused || job.written == job.frames),
        JobStage::Discarding(failure) => failure == JobFailure::Encode || (failure
            == JobFailure::Write && job.refused),
        JobStage::Renaming => job.positive && job.written == job.frames && !job.refused,
        JobStage::Done => job.positive && job.written == job.frames && !job.refused,
        JobStage::Failed(failure) => failure == JobFailure::Write ==> job.refused,
        JobStage::Decoding => job.written == 0 && !job.refused,
        JobStage::Preparing => job.written == 0 && !job.refused,
        _ => job.positive && job.written == 0 && !job.refused,
    }
}

/// What a job has written is never more than the video has, and it moves the
/// video to its place only when every frame was written.
pub proof fn law_job_is_sound(events: Seq<JobEvent>)
    ensures
        sound(job_after(events)),
    decreases events.len(),
{
    if events.len() > 0 {
        law_job_is_sound(events.drop_last());
    }
}

/// Events before the last one, counted from the front.
proof fn lemma_met_earlier(events: Seq<JobEvent>, position: int, stage: JobStage)
    requires
        events.len() > 0,
        met(events.drop_last(), position, stage),
    ensures
        met(events, position, stage),
        events[position] == events.drop_last()[position],
{
    assert(events.drop_last().take(position) =~= events.take(position));
}

/// The last event came when the job stood where the others had led.
proof fn lemma_met_last(events: Seq<JobEvent>)
    requires
        events.len() > 0,
    ensures
        met(events, events.len() - 1, job_after(events.drop_last()).stage),
        job_after(events.take(events.len() - 1)) == job_after(events.drop_last()),
{
    assert(events.take(events.len() - 1) =~= events.drop_last());
}

/// A video is moved to its place only after the encoder ended with success.
pub proof fn law_video_needs_success(events: Seq<JobEvent>)
    requires
        job_after(events).stage == JobStage::Renaming || job_after(events).stage == JobStage::Done,
    ensures
        exists|position: int| #[trigger]
            met(events, position, JobStage::Waiting) && events[position] == (JobEvent::Exited {
                success: true,
            }),
    decreases events.len(),
{
    let earlier = events.drop_last();
    let before = job_after(earlier);
    lemma_met_last(events);
    if before.stage == JobStage::Renaming || before.stage == JobStage::Done {
        law_video_needs_success(earlier);
        let position = choose|position: int| #[trigger]
            met(earlier, position, JobStage::Waiting) && earlier[position] == (JobEvent::Exited {
                success: true,
            });
        lemma_met_earlier(events, position, JobStage::Waiting);
    } else {
        assert(met(events, events.len() - 1, JobStage::Waiting));
    }
}

/// A job that fails because the encoder failed, or took no more frames, has
/// removed the temporary file.
pub proof fn law_failed_encoding_is_discarded(events: Seq<JobEvent>, failure: JobFailure)
    requires
        job_after(events).stage == JobStage::Failed(failure),
        failure == JobFailure::Encode || failure == JobFailure::Write,
    ensures
        exists|position: int| #[trigger] met(events, position, JobStage::Discarding(failure)),
    decreases events.len(),
{
    let earlier = events.drop_last();
    let before = job_after(earlier);
    lemma_met_last(events);
    if before.stage == JobStage::Failed(failure) {
        law_failed_encoding_is_discarded(earlier, failure);
        let position = choose|position: int| #[trigger]
            met(earlier, position, JobStage::Discarding(failure));
        lemma_met_earlier(events, position, JobStage::Discarding(failure));
    } else {
        assert(met(events, events.len() - 1, JobStage::Discarding(failure)));
    }
}

/// A finished video with frames was reported in full.
pub proof fn law_last_frame_is_reported(events: Seq<JobEvent>)
    requires
        ({
            let job = job_after(events);
            &&& job.frames > 0
            &&& job.written == job.frames
            &&& job.stage == JobStage::Waiting || job.stage == JobStage::Renaming || job.stage
                == JobStage::Done
        }),
    ensures
        exists|position: int|
            #![trigger met(events, position, JobStage::Reporting)]
            met(events, position, JobStage::Reporting) && job_after(events.take(position)).written
                == job_after(events).frames,
    decreases events.len(),
{
    let earlier = events.drop_last();
    let before = job_after(earlier);
    law_job_is_sound(earlier);
    law_job_is_sound(events);
    lemma_met_last(events);
    if before.stage == JobStage::Reporting {
        assert(met(events, events.len() - 1, JobStage::Reporting));
    } else {
        law_last_frame_is_reported(earlier);
        let position = choose|position: int|
            #![trigger met(earlier, position, JobStage::Reporting)]
            met(earlier, position, JobStage::Reporting) && job_after(
                earlier.take(position),
            ).written == before.frames;
        lemma_met_earlier(events, position, JobStage::Reporting);
        assert(earlier.take(position) =~= events.take(position));
    }
}

/// Whether an event answers a stage.
pub open spec fn answers(stage: JobStage, event: JobEvent) -> bool {
    match stage {
        JobStage::Decoding => event is Decoded || event is Failed,
        JobStage::Announcing => event is Succeeded,
        JobStage::LookingForTemporary => event is Found,
        JobStage::Writing => event is Wrote || event is Failed,
        JobStage::Reporting => event is Succeeded,
        JobStage::Waiting => event is Exited || event is Failed,
        JobStage::Done => false,
        JobStage::Failed(failure) => false,
        _ => event is Succeeded || event is Failed,
    }
}

/// How far a stage is from the end.
pub open spec fn distance(stage: JobStage) -> nat {
    match stage {
        JobStage::Decoding => 11,
        JobStage::Preparing => 10,
        JobStage::Announcing => 9,
        JobStage::MakingDirectory => 8,
        JobStage::LookingForTemporary => 7,
        JobStage::ClearingTemporary => 6,
        JobStage::Starting => 5,
        JobStage::Connecting => 4,
        JobStage::Writing => 3,
        JobStage::Reporting => 3,
        JobStage::Waiting => 2,
        JobStage::Discarding(failure) => 1,
        JobStage::Renaming => 1,
        JobStage::Done => 0,
        JobStage::Failed(failure) => 0,
    }
}

/// How many frames and reports a job has before it at most.
pub open spec fn left(job: RenderJob) -> int {
    2 * (job.frames - job.written) + if job.stage == JobStage::Reporting {
        1int
    } else {
        0int
    }
}

/// A job comes closer to its end with every event that answers its stage.
pub proof fn law_job_ends(events: Seq<JobEvent>, event: JobEvent)
    requires
        answers(job_after(events).stage, event),
    ensures
        ({
            let before = job_after(events);
            let after = job_after(events.push(event));
            ||| distance(after.stage) < distance(before.stage)
            ||| distance(after.stage) == distance(before.stage) && 0 <= left(after) < left(before)
        }),
{
    law_job_is_sound(events);
    law_job_is_sound(events.push(event));
    assert(events.push(event).drop_last() =~= events);
}

// ---------------------------------------------------------------------------
// Laws of the steps
// ---------------------------------------------------------------------------

/// A new job has its audio to decode, and nothing has been written.
pub proof fn law_new_job_decodes(job: RenderJob)
    requires
        call_ensures(RenderJob::new, (), job),
    ensures
        job.stage is Decoding,
        job.written == 0,
        job.frames == 0,
        !job.positive,
        !job.refused,
{
}

/// What the decoded audio gives is kept: how many frames there are, and whether there
/// is any length, without which the job fails once the renderer is prepared.
pub proof fn law_audio_gives_the_frames(
    job: &mut RenderJob,
    positive: bool,
    frames: usize,
    r: (),
)
    requires
        old(job).stage is Decoding,
        call_ensures(RenderJob::advance, (job, JobEvent::Decoded { positive, frames }), r),
    ensures
        final(job).stage is Preparing,
        final(job).frames == frames,
        final(job).positive == positive,
        final(job).written == old(job).written,
        final(job).refused == old(job).refused,
{
}

/// Where all goes well, a job prepares the renderer, says that nothing is rendered yet,
/// makes the directory, sees to an earlier temporary file, starts the encoder and takes
/// hold of its input; at the end it moves the video to its place.
pub proof fn law_job_goes_on_where_all_is_well(job: &mut RenderJob, r: ())
    requires
        call_ensures(RenderJob::advance, (job, JobEvent::Succeeded), r),
    ensures
        old(job).stage is Preparing && old(job).positive ==> final(job).stage is Announcing,
        old(job).stage is Preparing && !old(job).positive ==> final(job).stage
            == JobStage::Failed(JobFailure::NoDuration),
        old(job).stage is Announcing ==> final(job).stage is MakingDirectory,
        old(job).stage is MakingDirectory ==> final(job).stage is LookingForTemporary,
        old(job).stage is ClearingTemporary ==> final(job).stage is Starting,
        old(job).stage is Starting ==> final(job).stage is Connecting,
        old(job).stage is Renaming ==> final(job).stage is Done,
        old(job).stage is Connecting || old(job).stage is Reporting ==> {
            &&& old(job).written < old(job).frames ==> final(job).stage is Writing
            &&& old(job).written >= old(job).frames ==> final(job).stage is Waiting
        },
        final(job).written == old(job).written,
        final(job).frames == old(job).frames,
        final(job).positive == old(job).positive,
        final(job).refused == old(job).refused,
{
}

/// A temporary file of an earlier run is removed before the encoder starts.
pub proof fn law_earlier_file_is_removed(job: &mut RenderJob, found: bool, r: ())
    requires
        old(job).stage is LookingForTemporary,
        call_ensures(RenderJob::advance, (job, JobEvent::Found(found)), r),
    ensures
        found ==> final(job).stage is ClearingTemporary,
        !found ==> final(job).stage is Starting,
        final(job).written == old(job).written,
{
}

/// Each frame counts once. It is reported where the last report is two fifths of a
/// second ago or more, or where it is the last; else the next one follows.
pub proof fn law_each_frame_counts_once(job: &mut RenderJob, since_report: u64, r: ())
    requires
        old(job).stage is Writing,
        old(job).written < old(job).frames,
        call_ensures(RenderJob::advance, (job, JobEvent::Wrote { since_report }), r),
    ensures
        final(job).written == old(job).written + 1,
        final(job).frames == old(job).frames,
        final(job).refused == old(job).refused,
        final(job).stage is Reporting || final(job).stage is Writing,
        final(job).stage is Reporting <==> 5 * since_report >= 2_000 || final(job).written
            == final(job).frames,
{
}

/// An encoder that takes no more frames is waited for. Once it has ended, the video is
/// moved to its place only where the encoder succeeded and took every frame; otherwise
/// the temporary file is discarded, and the encoder's own failure is the one that
/// counts.
pub proof fn law_video_is_kept_or_discarded(job: &mut RenderJob, event: JobEvent, r: ())
    requires
        call_ensures(RenderJob::advance, (job, event), r),
    ensures
        old(job).stage is Writing && event is Failed ==> final(job).stage is Waiting
            && final(job).refused,
        old(job).stage is Waiting && event is Exited ==> {
            &&& event->success && !old(job).refused ==> final(job).stage is Renaming
            &&& event->success && old(job).refused ==> final(job).stage == JobStage::Discarding(
                JobFailure::Write,
            )
            &&& !event->success ==> final(job).stage == JobStage::Discarding(JobFailure::Encode)
        },
        old(job).stage is Discarding && (event is Succeeded || event is Failed) ==> final(
            job).stage == JobStage::Failed(old(job).stage->Discarding_0),
{
}

/// What does not work fails a job, each stage in its own way.
pub proof fn law_each_stage_fails_in_its_own_way(job: &mut RenderJob, r: ())
    requires
        call_ensures(RenderJob::advance, (job, JobEvent::Failed), r),
    ensures
        final(job).stage == match old(job).stage {
            JobStage::Decoding => JobStage::Failed(JobFailure::Decode),
            JobStage::Preparing => JobStage::Failed(JobFailure::Prepare),
            JobStage::MakingDirectory => JobStage::Failed(JobFailure::Directory),
            JobStage::ClearingTemporary => JobStage::Failed(JobFailure::Temporary),
            JobStage::Starting => JobStage::Failed(JobFailure::Start),
            JobStage::Connecting => JobStage::Failed(JobFailure::Connect),
            JobStage::Writing => JobStage::Waiting,
            JobStage::Waiting => JobStage::Failed(JobFailure::Wait),
            JobStage::Discarding(failure) => JobStage::Failed(failure),
            JobStage::Renaming => JobStage::Failed(JobFailure::Rename),
            stage => stage,
        },
        final(job).written == old(job).written,
        final(job).frames == old(job).frames,
        final(job).refused == (old(job).refused || old(job).stage is Writing),
{
}

/// A job whose event does not answer its stage stays as it is, and so does one that has
/// ended.
pub proof fn law_other_answers_change_nothing(job: &mut RenderJob, event: JobEvent, r: ())
    requires
        call_ensures(RenderJob::advance, (job, event), r),
    ensures
        old(job).stage is Done || old(job).stage is Failed ==> *final(job) == *old(job),
        event is Decoded && old(job).stage !is Decoding ==> *final(job) == *old(job),
        event is Found && old(job).stage !is LookingForTemporary ==> *final(job) == *old(job),
        event is Wrote && old(job).stage !is Writing ==> *final(job) == *old(job),
        event is Exited && old(job).stage !is Waiting ==> *final(job) == *old(job),
        event is Succeeded && (old(job).stage is Decoding || old(job).stage is LookingForTemporary
            || old(job).stage is Writing || old(job).stage is Waiting) ==> *final(job) == *old(job),
{
}

} // verus!
