use whisper_job_manager::command::CommandSpec;
use whisper_job_manager::job_metadata::JobMetadata;
use whisper_job_manager::job_status::JobStatus;
use whisper_job_manager::paths::path_is_within;
use whisper_job_manager::render::exit_code_reason;

#[test]
fn exit_code_reason_renders_decimals() {
    assert_eq!(exit_code_reason(Some(0)), "Reported exit code 0");
    assert_eq!(exit_code_reason(Some(3)), "Reported exit code 3");
    assert_eq!(exit_code_reason(Some(10)), "Reported exit code 10");
    assert_eq!(exit_code_reason(Some(12345)), "Reported exit code 12345");
    assert_eq!(exit_code_reason(Some(-7)), "Reported exit code -7");
    assert_eq!(
        exit_code_reason(Some(i32::MAX)),
        "Reported exit code 2147483647"
    );
    assert_eq!(
        exit_code_reason(Some(i32::MIN)),
        "Reported exit code -2147483648"
    );
    assert_eq!(exit_code_reason(None), "Reported exit code unknown");
}

#[test]
fn is_finished_on_every_variant() {
    assert!(!JobStatus::Queued.is_finished());
    assert!(!JobStatus::Running.is_finished());
    assert!(JobStatus::Succeeded.is_finished());
    assert!(JobStatus::Canceled.is_finished());
    assert!(JobStatus::Failed { reason: None }.is_finished());
    assert!(JobStatus::Failed { reason: Some(String::from("x")) }.is_finished());
}

#[test]
fn metadata_touch_never_moves_backwards() {
    let mut meta = JobMetadata::init_for_queued_job_at(String::from("a.mp4"), 100);
    meta.touch(150);
    assert_eq!(meta.updated_at, 150);
    assert_eq!(meta.created_at, 100);
    meta.touch(120);
    assert_eq!(meta.updated_at, 150);
}

#[test]
fn command_spec_builds_argument_lists() {
    let mut cmd = CommandSpec::new(String::from("prog"));
    assert!(cmd.args.is_empty());
    cmd.arg(String::from("--x"));
    cmd.arg(String::from("1"));
    assert_eq!(cmd.args, vec![String::from("--x"), String::from("1")]);
    let copy = cmd.duplicate();
    assert_eq!(copy, cmd);
}

#[test]
fn status_duplicate_preserves_value() {
    let st = JobStatus::Failed { reason: Some(String::from("boom")) };
    assert_eq!(st.duplicate(), st);
    assert_eq!(JobStatus::Queued.duplicate(), JobStatus::Queued);
}

#[test]
fn path_containment_is_a_prefix_check() {
    let base = vec![String::from("/"), String::from("videos")];
    let inside = vec![
        String::from("/"),
        String::from("videos"),
        String::from("a.mp4"),
    ];
    let outside = vec![String::from("/"), String::from("etc"), String::from("passwd")];
    let sibling = vec![String::from("/"), String::from("videos2"), String::from("a.mp4")];
    assert!(path_is_within(&base, &inside));
    assert!(path_is_within(&base, &base));
    assert!(!path_is_within(&base, &outside));
    assert!(!path_is_within(&base, &sibling));
    assert!(!path_is_within(&inside, &base));
}
