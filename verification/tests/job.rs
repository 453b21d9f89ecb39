use master_duel_bgms::job::{JobEvent, JobFailure, JobStage, RenderJob};

const WROTE: JobEvent = JobEvent::Wrote { since_report: 0 };

fn decoded(frames: usize) -> JobEvent {
    JobEvent::Decoded { positive: true, frames }
}

fn stages(events: &[JobEvent]) -> Vec<JobStage> {
    let mut job = RenderJob::new();
    let mut met = vec![job.stage];
    for event in events {
        job.advance(*event);
        met.push(job.stage);
    }
    met
}

fn last(events: &[JobEvent]) -> JobStage {
    stages(events)[events.len()]
}

fn started(frames: usize) -> Vec<JobEvent> {
    vec![
        decoded(frames),
        JobEvent::Succeeded,
        JobEvent::Succeeded,
        JobEvent::Succeeded,
        JobEvent::Found(false),
        JobEvent::Succeeded,
        JobEvent::Succeeded,
    ]
}

fn with(mut events: Vec<JobEvent>, more: &[JobEvent]) -> Vec<JobEvent> {
    events.extend_from_slice(more);
    events
}

#[test]
fn a_rendering_goes_through_its_stages() {
    let events = with(
        started(2),
        &[
            WROTE,
            WROTE,
            JobEvent::Succeeded,
            JobEvent::Exited { success: true },
            JobEvent::Succeeded,
        ],
    );
    assert_eq!(
        stages(&events),
        [
            JobStage::Decoding,
            JobStage::Preparing,
            JobStage::Announcing,
            JobStage::MakingDirectory,
            JobStage::LookingForTemporary,
            JobStage::Starting,
            JobStage::Connecting,
            JobStage::Writing,
            JobStage::Writing,
            JobStage::Reporting,
            JobStage::Waiting,
            JobStage::Renaming,
            JobStage::Done,
        ]
    );
}

#[test]
fn a_temporary_file_of_an_earlier_run_is_removed() {
    let found = [
        decoded(1),
        JobEvent::Succeeded,
        JobEvent::Succeeded,
        JobEvent::Succeeded,
        JobEvent::Found(true),
    ];
    assert_eq!(last(&found), JobStage::ClearingTemporary);
    assert_eq!(last(&with(found.to_vec(), &[JobEvent::Succeeded])), JobStage::Starting);
    let stuck = with(found.to_vec(), &[JobEvent::Failed]);
    assert_eq!(last(&stuck), JobStage::Failed(JobFailure::Temporary));
}

#[test]
fn reports_come_when_time_has_passed_and_at_the_end() {
    let mut job = RenderJob::new();
    for event in started(3) {
        job.advance(event);
    }
    job.advance(JobEvent::Wrote { since_report: 399 });
    assert_eq!((job.stage, job.written), (JobStage::Writing, 1));
    job.advance(JobEvent::Wrote { since_report: 400 });
    assert_eq!((job.stage, job.written), (JobStage::Reporting, 2));
    job.advance(JobEvent::Succeeded);
    assert_eq!((job.stage, job.written), (JobStage::Writing, 2));
    job.advance(JobEvent::Wrote { since_report: 0 });
    assert_eq!((job.stage, job.written), (JobStage::Reporting, 3));
    job.advance(JobEvent::Succeeded);
    assert_eq!(job.stage, JobStage::Waiting);
}

#[test]
fn every_step_can_fail() {
    let failures = [
        JobFailure::Decode,
        JobFailure::Prepare,
        JobFailure::Directory,
        JobFailure::Start,
        JobFailure::Connect,
    ];
    let events = started(1);
    for (count, failure) in [0, 1, 3, 5, 6].into_iter().zip(failures) {
        let failed = with(events[..count].to_vec(), &[JobEvent::Failed]);
        assert_eq!(last(&failed), JobStage::Failed(failure));
    }
    let waited = with(started(0), &[JobEvent::Failed]);
    assert_eq!(last(&waited), JobStage::Failed(JobFailure::Wait));
    let moved = with(started(0), &[JobEvent::Exited { success: true }, JobEvent::Failed]);
    assert_eq!(last(&moved), JobStage::Failed(JobFailure::Rename));
}

#[test]
fn audio_without_length_is_not_rendered() {
    let events = [JobEvent::Decoded { positive: false, frames: 0 }, JobEvent::Succeeded];
    assert_eq!(last(&events), JobStage::Failed(JobFailure::NoDuration));
}

#[test]
fn what_failed_to_encode_is_removed() {
    let failed = with(started(1), &[WROTE, JobEvent::Succeeded, JobEvent::Exited { success: false }]);
    assert_eq!(last(&failed), JobStage::Discarding(JobFailure::Encode));
    for removed in [JobEvent::Succeeded, JobEvent::Failed] {
        let ended = with(failed.clone(), &[removed]);
        assert_eq!(last(&ended), JobStage::Failed(JobFailure::Encode));
    }
    let refused = with(started(2), &[WROTE, JobEvent::Failed, JobEvent::Exited { success: true }]);
    assert_eq!(last(&refused), JobStage::Discarding(JobFailure::Write));
    let both = with(started(2), &[WROTE, JobEvent::Failed, JobEvent::Exited { success: false }]);
    assert_eq!(last(&both), JobStage::Discarding(JobFailure::Encode));
}

#[test]
fn events_that_do_not_answer_change_nothing() {
    let mut job = RenderJob::new();
    job.advance(JobEvent::Succeeded);
    job.advance(WROTE);
    job.advance(JobEvent::Found(true));
    assert_eq!(job, RenderJob::new());
    let done = with(started(0), &[JobEvent::Exited { success: true }, JobEvent::Succeeded]);
    assert_eq!(last(&with(done, &[JobEvent::Failed])), JobStage::Done);
}
