use whisper_job_manager::command::{base_transcribe_command, CommandSpec};
use whisper_job_manager::job_metadata::JobMetadata;
use whisper_job_manager::job_status::JobStatus;
use whisper_job_manager::scheduler::{ExitPoll, Scheduler};
use whisper_job_manager::strategy::{SchedulerStrategy, SimpleSchedulerStrategy};

fn base_command() -> CommandSpec {
    base_transcribe_command(String::from("/tmp/out"), String::from("/videos/a.mp4"))
}

fn submit_job(sch: &mut Scheduler, id: u128, now: i64) {
    sch.queue_new_job(
        (id, base_command()),
        JobMetadata::init_for_queued_job_at(String::from("a.mp4"), now),
    );
}

fn has_fallback_flag(cmd: &CommandSpec) -> bool {
    cmd.args.windows(2).any(|w| w[0] == "--device" && w[1] == "cpu")
}

fn has_model_flag(cmd: &CommandSpec) -> bool {
    cmd.args.windows(2).any(|w| w[0] == "--model" && w[1] == "large")
}

#[test]
fn base_command_arguments() {
    let cmd = base_command();
    assert_eq!(cmd.program, "whisper");
    assert_eq!(
        cmd.args,
        vec![
            String::from("--output_dir"),
            String::from("/tmp/out"),
            String::from("--output_format"),
            String::from("srt"),
            String::from("--language"),
            String::from("fr"),
            String::from("/videos/a.mp4"),
        ]
    );
}

#[test]
fn strategy_selects_at_most_spare_capacity() {
    let mut strategy = SimpleSchedulerStrategy::default();
    let mut queue = vec![(1u128, base_command()), (2, base_command()), (3, base_command())];
    let running: Vec<u128> = Vec::new();
    let selected = strategy.select_queued_jobs_to_run(&mut queue, &running);
    assert_eq!(selected.len(), 2);
    assert_eq!(queue.len(), 1);
    assert_eq!(queue[0].0, 3);

    let mut strategy = SimpleSchedulerStrategy::default();
    let mut queue = vec![(1u128, base_command()), (2, base_command())];
    let running = vec![9u128];
    let selected = strategy.select_queued_jobs_to_run(&mut queue, &running);
    assert_eq!(selected.len(), 1);

    let mut strategy = SimpleSchedulerStrategy::default();
    let mut queue = vec![(1u128, base_command())];
    let running = vec![8u128, 9];
    let selected = strategy.select_queued_jobs_to_run(&mut queue, &running);
    assert_eq!(selected.len(), 0);
    assert_eq!(queue.len(), 1);
}

#[test]
fn one_job_per_round_gets_the_preferred_slot() {
    let mut strategy = SimpleSchedulerStrategy::default();
    let mut queue = vec![(1u128, base_command()), (2, base_command())];
    let running: Vec<u128> = Vec::new();
    let selected = strategy.select_queued_jobs_to_run(&mut queue, &running);
    assert_eq!(selected.len(), 2);
    assert!(!has_fallback_flag(&selected[0].1));
    assert!(has_fallback_flag(&selected[1].1));
    assert!(has_model_flag(&selected[0].1));
    assert!(has_model_flag(&selected[1].1));
    assert_eq!(strategy.job_using_gpu, Some(1));
}

#[test]
fn slot_is_freed_when_holder_stops_running() {
    let mut strategy = SimpleSchedulerStrategy::default();
    let mut queue = vec![(1u128, base_command())];
    let running: Vec<u128> = Vec::new();
    let _ = strategy.select_queued_jobs_to_run(&mut queue, &running);
    assert_eq!(strategy.job_using_gpu, Some(1));
    // Job 1 no longer runs: the slot is free for the next selected job.
    let mut queue = vec![(2u128, base_command())];
    let running = vec![3u128];
    let selected = strategy.select_queued_jobs_to_run(&mut queue, &running);
    assert_eq!(selected.len(), 1);
    assert!(!has_fallback_flag(&selected[0].1));
    assert_eq!(strategy.job_using_gpu, Some(2));
}

#[test]
fn scenario_three_jobs_two_slots() {
    // Submit A, B, C with capacity 2 and a free slot.
    let mut sch = Scheduler::default();
    let (a, b, c) = (0xau128, 0xbu128, 0xcu128);
    submit_job(&mut sch, a, 1);
    submit_job(&mut sch, b, 1);
    submit_job(&mut sch, c, 1);

    // Tick 1 admits A without the resource flag and B with the fallback
    // flag, both tagged with the large model; C stays queued.
    let (reaped, admitted) = sch.run(&Vec::new(), 2);
    assert_eq!(reaped, 0);
    assert_eq!(admitted.len(), 2);
    assert_eq!(admitted[0].0, a);
    assert!(!has_fallback_flag(&admitted[0].1));
    assert!(has_model_flag(&admitted[0].1));
    assert_eq!(admitted[1].0, b);
    assert!(has_fallback_flag(&admitted[1].1));
    assert!(has_model_flag(&admitted[1].1));
    assert_eq!(sch.get_job_status(c), Some(JobStatus::Queued));

    // Tick 2: A and B still running, nothing admitted.
    let polls = vec![(a, ExitPoll::StillRunning), (b, ExitPoll::StillRunning)];
    let (reaped, admitted) = sch.run(&polls, 3);
    assert_eq!(reaped, 0);
    assert_eq!(admitted.len(), 0);

    // A's process exits with code 0; tick 3 reaps A as Succeeded and admits
    // C, which takes the freed slot and gets no resource flag.
    let polls = vec![(a, ExitPoll::Exited { code: Some(0) }), (b, ExitPoll::StillRunning)];
    let (reaped, admitted) = sch.run(&polls, 4);
    assert_eq!(reaped, 1);
    assert_eq!(sch.get_job_status(a), Some(JobStatus::Succeeded));
    assert_eq!(admitted.len(), 1);
    assert_eq!(admitted[0].0, c);
    assert!(!has_fallback_flag(&admitted[0].1));
    assert!(has_model_flag(&admitted[0].1));
    assert_eq!(sch.get_job_status(c), Some(JobStatus::Running));
    assert_eq!(sch.get_job_status(b), Some(JobStatus::Running));
}
