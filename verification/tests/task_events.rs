use p2p_desktop::activity::Activity;
use p2p_desktop::identity::NodeId;
use p2p_desktop::task_events::{TaskEventBuffer, TaskEventKind, MAX_PENDING_EVENTS};
use p2p_desktop::task_model::{TaskId, TaskState};

#[test]
fn event_buffer_is_bounded_and_contains_only_safe_domain_fields() {
    let mut buffer = TaskEventBuffer::default();
    let oldest = TaskId::generate();
    buffer.record(oldest.clone(), 1, TaskEventKind::Created);
    for at_unix_ms in 2..=MAX_PENDING_EVENTS as i64 + 1 {
        buffer.record(
            TaskId::generate(),
            at_unix_ms,
            TaskEventKind::StateChanged { from: TaskState::Queued, to: TaskState::Connecting },
        );
    }

    let events = buffer.drain();
    assert_eq!(events.len(), MAX_PENDING_EVENTS);
    assert_ne!(events[0].task_id(), &oldest);
    assert_eq!(events[0].at_unix_ms(), 2);
    assert_eq!(
        events[0].kind(),
        TaskEventKind::StateChanged { from: TaskState::Queued, to: TaskState::Connecting }
    );
    assert!(buffer.drain().is_empty());
}

#[test]
fn progress_is_coalesced_and_cannot_evict_a_terminal_event() {
    let mut buffer = TaskEventBuffer::default();
    let id = TaskId::generate();
    for time in 0..10000 {
        buffer.record(id.clone(), time, TaskEventKind::ProgressHintChanged);
    }
    assert_eq!(buffer.len(), 1);
    let kept = buffer.drain();
    assert_eq!(kept[0].at_unix_ms(), 9999);
    buffer.record(id, 9999, TaskEventKind::ProgressHintChanged);
    let terminal = TaskId::generate();
    buffer.record(
        terminal.clone(),
        10001,
        TaskEventKind::StateChanged { from: TaskState::Finalizing, to: TaskState::Completed },
    );
    for time in 0..10000 {
        buffer.record(TaskId::generate(), time, TaskEventKind::ProgressHintChanged);
    }
    assert_eq!(buffer.len(), MAX_PENDING_EVENTS);
    assert!(buffer.drain().iter().any(|event| event.task_id() == &terminal));
    assert!(!buffer.take_resync_required());
}

#[test]
fn lifecycle_overflow_requires_snapshot_even_after_events_are_drained() {
    let mut buffer = TaskEventBuffer::default();
    for time in 0..MAX_PENDING_EVENTS + 10 {
        buffer.record(
            TaskId::generate(),
            time as i64,
            TaskEventKind::StateChanged { from: TaskState::Finalizing, to: TaskState::Completed },
        );
    }
    assert_eq!(buffer.drain().len(), MAX_PENDING_EVENTS);
    assert!(buffer.take_resync_required());
    assert!(!buffer.take_resync_required());
}

#[test]
fn file_and_speed_admission_is_atomic_per_peer_and_cleanup_releases_it() {
    let mut activity = Activity::new();
    let a = NodeId { value: 1 };
    let b = NodeId { value: 2 };
    let file = activity.file(a).unwrap();
    assert!(activity.speed(a, TaskId::generate()).is_err());
    let speed = activity.speed(b, TaskId::generate()).unwrap();
    assert!(activity.file(b).is_err());
    assert!(activity.speed(b, TaskId::generate()).is_err());
    activity.release_file(file);
    activity.release_speed(speed);
    let speed = activity.speed(a, TaskId::generate()).unwrap();
    let file = activity.file(b).unwrap();
    activity.release_speed(speed);
    activity.release_file(file);
    assert!(activity.state.is_empty());
}
