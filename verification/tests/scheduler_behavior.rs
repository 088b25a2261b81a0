use whisper_job_manager::command::CommandSpec;
use whisper_job_manager::job_metadata::JobMetadata;
use whisper_job_manager::job_status::JobStatus;
use whisper_job_manager::scheduler::{CancelError, CancelOutcome, ExitPoll, Scheduler};

fn command(name: &str) -> CommandSpec {
    let mut cmd = CommandSpec::new(String::from("whisper"));
    cmd.arg(String::from(name));
    cmd
}

fn metadata(name: &str, now: i64) -> JobMetadata {
    JobMetadata::init_for_queued_job_at(String::from(name), now)
}

fn submit_job(sch: &mut Scheduler, id: u128, name: &str, now: i64) {
    sch.queue_new_job((id, command(name)), metadata(name, now));
}

fn no_polls() -> Vec<(u128, ExitPoll)> {
    Vec::new()
}

#[test]
fn unknown_ids_report_not_found() {
    let mut sch = Scheduler::default();
    assert_eq!(sch.get_job_status(42), None);
    assert_eq!(sch.get_job_metadata(42), None);
    assert_eq!(sch.cancel_job(42, 5), Err(CancelError::NotFound));
    // Still unknown after other jobs were submitted and ticked.
    submit_job(&mut sch, 1, "a.mp4", 10);
    let _ = sch.run(&no_polls(), 11);
    assert_eq!(sch.get_job_status(42), None);
    assert_eq!(sch.get_job_metadata(42), None);
    assert_eq!(sch.cancel_job(42, 12), Err(CancelError::NotFound));
}

#[test]
fn submitted_job_is_queued_with_fresh_metadata() {
    let mut sch = Scheduler::default();
    submit_job(&mut sch, 7, "clip.mp4", 100);
    assert_eq!(sch.get_job_status(7), Some(JobStatus::Queued));
    let meta = sch.get_job_metadata(7).unwrap();
    assert_eq!(meta.filename, "clip.mp4");
    assert_eq!(meta.created_at, meta.updated_at);
    assert_eq!(meta.created_at, 100);
}

#[test]
fn init_for_queued_job_uses_one_clock_reading() {
    let meta = JobMetadata::init_for_queued_job(String::from("film.mkv"));
    assert_eq!(meta.filename, "film.mkv");
    assert_eq!(meta.created_at, meta.updated_at);
}

#[test]
fn submit_generates_fresh_id() {
    let mut sch = Scheduler::default();
    let id = sch
        .submit(command("x"), metadata("x.mp4", 3))
        .expect("a random 128-bit id collided");
    assert_eq!(sch.get_job_status(id), Some(JobStatus::Queued));
    let id2 = sch
        .submit(command("y"), metadata("y.mp4", 4))
        .expect("a random 128-bit id collided");
    assert_ne!(id, id2);
}

#[test]
fn capacity_two_bounds_admission() {
    // With 0 running, a tick admits at most 2.
    let mut sch = Scheduler::default();
    for id in 1..=3u128 {
        submit_job(&mut sch, id, "f.mp4", 10);
    }
    let (reaped, admitted) = sch.run(&no_polls(), 11);
    assert_eq!(reaped, 0);
    assert_eq!(admitted.len(), 2);
    // With 2 running, a tick admits 0.
    let (_, admitted2) = sch.run(&no_polls(), 12);
    assert_eq!(admitted2.len(), 0);
    // With 1 running (one process exited), a tick admits at most 1.
    submit_job(&mut sch, 4, "g.mp4", 13);
    let polls = vec![(1u128, ExitPoll::Exited { code: Some(0) })];
    let (reaped3, admitted3) = sch.run(&polls, 14);
    assert_eq!(reaped3, 1);
    assert_eq!(admitted3.len(), 1);
}

#[test]
fn admission_follows_arrival_order() {
    let mut sch = Scheduler::default();
    for id in [11u128, 22, 33, 44] {
        submit_job(&mut sch, id, "f.mp4", 10);
    }
    let admitted = sch.run_queued_jobs(11);
    let ids: Vec<u128> = admitted.iter().map(|j| j.0).collect();
    assert_eq!(ids, vec![11, 22]);
    let polls = vec![
        (11u128, ExitPoll::Exited { code: Some(0) }),
        (22u128, ExitPoll::Exited { code: Some(0) }),
    ];
    let (_, admitted2) = sch.run(&polls, 12);
    let ids2: Vec<u128> = admitted2.iter().map(|j| j.0).collect();
    assert_eq!(ids2, vec![33, 44]);
}

#[test]
fn cancel_queued_job_is_never_admitted() {
    let mut sch = Scheduler::default();
    for id in [1u128, 2, 3] {
        submit_job(&mut sch, id, "f.mp4", 10);
    }
    assert_eq!(sch.cancel_job(2, 11), Ok(CancelOutcome::CanceledQueued));
    assert_eq!(sch.get_job_status(2), Some(JobStatus::Canceled));
    let admitted = sch.run_queued_jobs(12);
    let ids: Vec<u128> = admitted.iter().map(|j| j.0).collect();
    assert_eq!(ids, vec![1, 3]);
    assert_eq!(sch.get_job_status(2), Some(JobStatus::Canceled));
}

#[test]
fn cancel_running_job_marks_canceled() {
    let mut sch = Scheduler::default();
    submit_job(&mut sch, 5, "f.mp4", 10);
    let admitted = sch.run_queued_jobs(11);
    assert_eq!(admitted.len(), 1);
    assert_eq!(sch.get_job_status(5), Some(JobStatus::Running));
    // The CanceledRunning outcome tells the caller to kill the process it
    // owns; the scheduler itself marks the job canceled at once.
    assert_eq!(sch.cancel_job(5, 12), Ok(CancelOutcome::CanceledRunning));
    assert_eq!(sch.get_job_status(5), Some(JobStatus::Canceled));
    // The job no longer occupies a running slot.
    submit_job(&mut sch, 6, "g.mp4", 13);
    submit_job(&mut sch, 7, "h.mp4", 13);
    let admitted2 = sch.run_queued_jobs(14);
    assert_eq!(admitted2.len(), 2);
}

#[test]
fn cancel_finished_job_changes_nothing() {
    let mut sch = Scheduler::default();
    submit_job(&mut sch, 5, "f.mp4", 10);
    let _ = sch.run_queued_jobs(11);
    let polls = vec![(5u128, ExitPoll::Exited { code: Some(0) })];
    let _ = sch.remove_finished_jobs(&polls, 12);
    assert_eq!(sch.get_job_status(5), Some(JobStatus::Succeeded));
    let meta_before = sch.get_job_metadata(5).unwrap();
    assert_eq!(sch.cancel_job(5, 99), Ok(CancelOutcome::AlreadyFinished));
    assert_eq!(sch.get_job_status(5), Some(JobStatus::Succeeded));
    let meta_after = sch.get_job_metadata(5).unwrap();
    assert_eq!(meta_before, meta_after);
}

#[test]
fn exit_codes_classify_success_and_failure() {
    let mut sch = Scheduler::default();
    for id in [1u128, 2] {
        submit_job(&mut sch, id, "f.mp4", 10);
    }
    let _ = sch.run_queued_jobs(11);
    let polls = vec![
        (1u128, ExitPoll::Exited { code: Some(0) }),
        (2u128, ExitPoll::Exited { code: Some(3) }),
    ];
    let reaped = sch.remove_finished_jobs(&polls, 12);
    assert_eq!(reaped, 2);
    assert_eq!(sch.get_job_status(1), Some(JobStatus::Succeeded));
    assert_eq!(
        sch.get_job_status(2),
        Some(JobStatus::Failed { reason: Some(String::from("Reported exit code 3")) })
    );
    // The transition advanced updated_at.
    let meta = sch.get_job_metadata(2).unwrap();
    assert_eq!(meta.created_at, 10);
    assert_eq!(meta.updated_at, 12);
}

#[test]
fn undeterminable_exit_marks_failed() {
    let mut sch = Scheduler::default();
    submit_job(&mut sch, 1, "f.mp4", 10);
    let _ = sch.run_queued_jobs(11);
    let polls = vec![(1u128, ExitPoll::Unknown)];
    let reaped = sch.remove_finished_jobs(&polls, 12);
    assert_eq!(reaped, 1);
    assert_eq!(
        sch.get_job_status(1),
        Some(JobStatus::Failed { reason: Some(String::from("exit status unknown")) })
    );
}

#[test]
fn spawn_failure_marks_failed() {
    let mut sch = Scheduler::default();
    submit_job(&mut sch, 1, "f.mp4", 10);
    let admitted = sch.run_queued_jobs(11);
    assert_eq!(admitted.len(), 1);
    assert!(sch.report_spawn_failure(1, 12));
    assert_eq!(
        sch.get_job_status(1),
        Some(JobStatus::Failed { reason: Some(String::from("spawn error")) })
    );
    // Reporting an id that is not running does nothing.
    assert!(!sch.report_spawn_failure(1, 13));
    assert!(!sch.report_spawn_failure(999, 13));
}

#[test]
fn second_tick_without_changes_is_idempotent() {
    let mut sch = Scheduler::default();
    for id in [1u128, 2, 3] {
        submit_job(&mut sch, id, "f.mp4", 10);
    }
    let _ = sch.run(&no_polls(), 11);
    let statuses_before = sch.get_all_job_statuses();
    let polls = vec![
        (1u128, ExitPoll::StillRunning),
        (2u128, ExitPoll::StillRunning),
    ];
    let (reaped, admitted) = sch.run(&polls, 12);
    assert_eq!(reaped, 0);
    assert_eq!(admitted.len(), 0);
    assert_eq!(sch.get_all_job_statuses(), statuses_before);
}

#[test]
fn all_statuses_lists_every_job() {
    let mut sch = Scheduler::default();
    for id in [1u128, 2, 3] {
        submit_job(&mut sch, id, "f.mp4", 10);
    }
    let _ = sch.run_queued_jobs(11);
    let all = sch.get_all_job_statuses();
    assert_eq!(all.len(), 3);
    assert_eq!(all[0], (1, JobStatus::Running));
    assert_eq!(all[1], (2, JobStatus::Running));
    assert_eq!(all[2], (3, JobStatus::Queued));
}
