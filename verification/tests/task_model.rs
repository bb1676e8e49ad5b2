use p2p_desktop::identity::NodeId;
use p2p_desktop::task_model::{
    LocalPath, LocalTaskPath, ManifestIdentity, PeerId, TaskDiagnostic, TaskDirection,
    TaskErrorCode, TaskId, TaskModelError, TaskState,
};
use p2p_desktop::task_record::{unix_ms, TaskDetails, TaskRecord};
use p2p_desktop::task_store::TaskStoreError;

fn manifest() -> ManifestIdentity {
    ManifestIdentity::blake3([7; 32], 10, 4).unwrap()
}

fn peer() -> PeerId {
    PeerId::from_node_id(NodeId { value: 7 })
}

fn test_path(relative: &str) -> LocalPath {
    LocalPath::new(&format!("/{relative}"))
}

#[test]
fn task_id_is_stable_canonical_and_random() {
    let first = TaskId::generate();
    let second = TaskId::generate();
    assert_ne!(first, second);
    assert_eq!(TaskId::parse(first.as_str()).unwrap(), first);
    assert!(TaskId::parse("ABCDEF00000000000000000000000000").is_err());
    assert!(TaskId::parse("not-a-task-id").is_err());
}

#[test]
fn sender_and_receiver_bind_only_the_correct_local_path_kind() {
    let source = test_path("local/source.bin");
    let sender = TaskRecord::new_sender(peer(), source.duplicate(), manifest()).unwrap();
    assert_eq!(sender.direction(), TaskDirection::Send);
    assert_eq!(sender.state(), TaskState::Scanning);
    assert!(sender.local_path().same_place(&source));

    let receive_root = test_path("local/Downloads");
    let receiver =
        TaskRecord::new_receiver(peer(), receive_root.duplicate(), manifest()).unwrap();
    assert_eq!(receiver.direction(), TaskDirection::Receive);
    assert!(receiver.local_path().same_place(&receive_root));
    assert!(TaskRecord::new_sender(peer(), LocalPath::new("relative"), manifest()).is_err());
}

#[test]
fn transition_table_rejects_skips_and_terminal_revival() {
    let mut task =
        TaskRecord::new_sender(peer(), test_path("local/source.bin"), manifest()).unwrap();
    assert!(task.transition_to(TaskState::Transferring, None, 1).is_err());
    assert_eq!(task.state(), TaskState::Scanning);
    task.transition_to(TaskState::Queued, None, 2).unwrap();
    task.transition_to(TaskState::Connecting, None, 3).unwrap();
    task.transition_to(TaskState::Negotiating, None, 4).unwrap();
    task.transition_to(TaskState::Transferring, None, 5).unwrap();
    task.transition_to(TaskState::Finalizing, None, 6).unwrap();
    task.transition_to(TaskState::Completed, None, 7).unwrap();
    assert!(task.transition_to(TaskState::Queued, None, 8).is_err());
}

#[test]
fn only_explicitly_retryable_failures_can_be_queued_again() {
    let mut task =
        TaskRecord::new_sender(peer(), test_path("local/source.bin"), manifest()).unwrap();
    task.transition_to(
        TaskState::Failed,
        Some(TaskDiagnostic::new(TaskErrorCode::NetworkInterrupted, true)),
        1,
    )
    .unwrap();
    task.transition_to(TaskState::Queued, None, 2).unwrap();
    assert!(task.diagnostic().is_none());

    task.transition_to(
        TaskState::Failed,
        Some(TaskDiagnostic::new(TaskErrorCode::IntegrityMismatch, false)),
        3,
    )
    .unwrap();
    assert!(task.transition_to(TaskState::Queued, None, 4).is_err());
}

#[test]
fn diagnostics_have_fixed_safe_messages_not_raw_error_strings() {
    let diagnostic = TaskDiagnostic::new(TaskErrorCode::SourceUnavailable, true);
    assert_eq!(diagnostic.safe_message(), "本机源文件不可用");
}

#[test]
fn immutable_task_binding_rejects_path_replacement() {
    let original =
        TaskRecord::new_sender(peer(), test_path("local/source.bin"), manifest()).unwrap();
    let rebound = TaskRecord::from_parts(
        original.schema_version(),
        original.task_id().clone(),
        peer(),
        original.direction(),
        LocalTaskPath::source(test_path("local/other.bin")).unwrap(),
        manifest(),
        original.state(),
        original.created_at_unix_ms(),
        original.updated_at_unix_ms(),
        original.diagnostic(),
        original.progress_hint(),
        TaskDetails::Content,
        None,
    );
    assert_eq!(
        rebound.validate_binding_unchanged(&original),
        Err(TaskModelError::ImmutableBinding)
    );
    assert!(original.validate_binding_unchanged(&original.duplicate()).is_ok());
}

#[test]
fn updates_never_move_time_backwards() {
    let mut task = TaskRecord::new(
        TaskId::generate(),
        peer(),
        TaskDirection::Send,
        LocalTaskPath::source(test_path("a")).unwrap(),
        manifest(),
        1000,
    )
    .unwrap();
    task.transition_to(TaskState::Queued, None, 5).unwrap();
    assert_eq!(task.updated_at_unix_ms(), 1000);
    task.transition_to(TaskState::Connecting, None, 2000).unwrap();
    assert_eq!(task.updated_at_unix_ms(), 2000);
}

#[test]
fn clock_readings_outside_the_range_are_refused() {
    assert_eq!(unix_ms(Some(5)), Ok(5));
    assert_eq!(unix_ms(None), Err(TaskModelError::ClockOutOfRange));
    assert_eq!(unix_ms(Some(1 << 63)), Err(TaskModelError::ClockOutOfRange));
}

#[test]
fn peers_are_named_by_their_identity() {
    let node = NodeId::from_hex("00112233445566778899aabbccddeeff").unwrap();
    let peer = PeerId::from_node_id(node);
    assert_eq!(peer.as_str(), "00112233445566778899aabbccddeeff");
    assert!(PeerId::parse(peer.as_str()).unwrap().same(&peer));
    assert!(PeerId::parse("00112233").is_err());
    assert_eq!(node.short(), "00112233");
}

#[test]
fn errors_name_what_they_are_about() {
    let error = TaskModelError::InvalidTransition {
        from: TaskState::Scanning,
        to: TaskState::Transferring,
    };
    assert_eq!(
        error.message(),
        "task state transition is not allowed: Scanning -> Transferring"
    );
    assert_eq!(
        TaskModelError::UnsupportedSchemaVersion(7).message(),
        "task record has an unsupported schema version: 7"
    );
    assert_eq!(
        TaskStoreError::UnsupportedVersion(2).message(),
        "任务存储版本 2 不受支持；原文件已保留"
    );
    assert_eq!(TaskStoreError::TaskNotFound.message(), "任务记录不存在");
}
