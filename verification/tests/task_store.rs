use p2p_desktop::error::IoErrorKind;
use p2p_desktop::identity::NodeId;
use p2p_desktop::task_events::TaskEventKind;
use p2p_desktop::task_model::{
    LocalPath, LocalTaskPath, ManifestIdentity, PeerId, ProgressHint, TaskDiagnostic, TaskDirection,
    TaskErrorCode, TaskId, TaskModelError, TaskState,
};
use p2p_desktop::task_record::{TaskDetails, TaskRecord};
use p2p_desktop::task_recovery::recover_startup;
use p2p_desktop::task_store::{
    check_snapshot_file, receiver_recovery, sender_recovery, PendingCommit, StoreSnapshot,
    TaskStore, TaskStoreError, WriteOutcome, MAX_STORE_BYTES,
};

/// A disk that holds the last snapshot.
struct Disk {
    snapshot: Option<(u64, Vec<TaskRecord>)>,
}

impl Disk {
    fn write(&mut self, generation: u64, tasks: &[TaskRecord]) {
        self.snapshot = Some((generation, tasks.iter().map(|task| task.duplicate()).collect()));
    }

    fn open(&mut self) -> (TaskStore, Vec<TaskId>) {
        let stored = self.snapshot.as_ref().map(|(generation, tasks)| StoreSnapshot {
            format_version: 1,
            generation: *generation,
            tasks: tasks.iter().map(|task| task.duplicate()).collect(),
        });
        let (mut store, report, write) = TaskStore::open(stored, 50).unwrap();
        if write {
            let plan = store.plan_flush().unwrap();
            self.commit(&mut store, plan);
        }
        let ids = report.interrupted_task_ids().clone();
        (store, ids)
    }

    fn commit(&mut self, store: &mut TaskStore, plan: PendingCommit) {
        self.write(plan.generation(), plan.tasks());
        store.finish(plan, WriteOutcome::Written).unwrap();
    }

    fn create(&mut self, store: &mut TaskStore, task: TaskRecord) -> TaskId {
        let id = task.task_id().clone();
        let plan = store.plan_create(task).unwrap();
        self.commit(store, plan);
        id
    }

    fn transition(
        &mut self,
        store: &mut TaskStore,
        id: &TaskId,
        next: TaskState,
        diagnostic: Option<TaskDiagnostic>,
        now: i64,
    ) {
        let plan = store.plan_transition(id, next, diagnostic, now).unwrap();
        self.commit(store, plan);
    }
}

fn new_disk() -> Disk {
    Disk { snapshot: None }
}

fn peer() -> PeerId {
    PeerId::from_node_id(NodeId { value: 77 })
}

fn task() -> TaskRecord {
    TaskRecord::new_sender(
        peer(),
        LocalPath::new("/local/sensitive-source.bin"),
        ManifestIdentity::blake3([9; 32], 12, 4).unwrap(),
    )
    .unwrap()
}

fn receiver_task() -> TaskRecord {
    TaskRecord::new_receiver(
        peer(),
        LocalPath::new("/Users/user/Downloads"),
        ManifestIdentity::blake3([7; 32], 12, 4).unwrap(),
    )
    .unwrap()
}

fn task_for_direction(direction: TaskDirection) -> TaskRecord {
    match direction {
        TaskDirection::Send => task(),
        TaskDirection::Receive => receiver_task(),
    }
}

/// Everything that a record holds.
fn content(record: &TaskRecord) -> String {
    format!("{record:?}")
}

fn transition_to_state(
    disk: &mut Disk,
    store: &mut TaskStore,
    task_id: &TaskId,
    target: TaskState,
    retryable_failure: bool,
) {
    let path: &[TaskState] = match target {
        TaskState::Scanning => &[],
        TaskState::Queued => &[TaskState::Queued],
        TaskState::Connecting => &[TaskState::Queued, TaskState::Connecting],
        TaskState::Negotiating => {
            &[TaskState::Queued, TaskState::Connecting, TaskState::Negotiating]
        }
        TaskState::Transferring => &[
            TaskState::Queued,
            TaskState::Connecting,
            TaskState::Negotiating,
            TaskState::Transferring,
        ],
        TaskState::Pausing => &[TaskState::Queued, TaskState::Pausing],
        TaskState::Paused => &[TaskState::Queued, TaskState::Pausing, TaskState::Paused],
        TaskState::Finalizing => &[
            TaskState::Queued,
            TaskState::Connecting,
            TaskState::Negotiating,
            TaskState::Transferring,
            TaskState::Finalizing,
        ],
        TaskState::Completed => &[
            TaskState::Queued,
            TaskState::Connecting,
            TaskState::Negotiating,
            TaskState::Transferring,
            TaskState::Finalizing,
            TaskState::Completed,
        ],
        TaskState::Interrupted => &[TaskState::Interrupted],
        TaskState::Failed => &[TaskState::Failed],
    };

    for (index, next) in path.iter().copied().enumerate() {
        let diagnostic = if next == TaskState::Failed {
            Some(TaskDiagnostic::new(TaskErrorCode::NetworkInterrupted, retryable_failure))
        } else {
            None
        };
        disk.transition(store, task_id, next, diagnostic, 100 + index as i64);
    }
    assert_eq!(store.task(task_id).unwrap().state(), target);
}

#[test]
fn new_tasks_are_durable_before_the_store_exposes_them() {
    let mut disk = new_disk();
    let (mut store, _) = disk.open();
    let task = task();
    let task_id = task.task_id().clone();
    let plan = store.plan_create(task).unwrap();
    assert_eq!(store.list().len(), 0);
    disk.commit(&mut store, plan);
    assert_eq!(store.list().len(), 1);
    assert!(disk.snapshot.is_some());

    let mut already_queued = self::task();
    already_queued.transition_to(TaskState::Queued, None, 10).unwrap();
    assert!(matches!(
        store.plan_create(already_queued),
        Err(TaskStoreError::Model(TaskModelError::NewTaskMustStartScanning))
    ));
    assert_eq!(store.list().len(), 1);

    let (reopened, _) = disk.open();
    let interrupted = reopened.task(&task_id).unwrap();
    assert_eq!(interrupted.state(), TaskState::Interrupted);
    assert_eq!(
        interrupted.diagnostic().unwrap().code(),
        TaskErrorCode::ApplicationRestarted
    );
    let (second_reopen, report) = disk.open();
    assert!(report.is_empty());
    assert_eq!(second_reopen.task(&task_id).unwrap().state(), TaskState::Interrupted);
}

#[test]
fn failed_commit_does_not_expose_candidate_or_destroy_previous_snapshot() {
    let mut disk = new_disk();
    let (mut store, _) = disk.open();
    let previous_task_id = disk.create(&mut store, task());
    let before = content(&store.task(&previous_task_id).unwrap());
    let candidate = task();
    let candidate_id = candidate.task_id().clone();
    let plan = store.plan_create(candidate).unwrap();
    assert_eq!(
        store.finish(plan, WriteOutcome::NotReplaced(IoErrorKind::StorageFull)),
        Err(TaskStoreError::Io(IoErrorKind::StorageFull))
    );
    assert_eq!(store.list().len(), 1);
    assert_eq!(store.list()[0].task_id(), &previous_task_id);
    assert!(matches!(store.task(&candidate_id), Err(TaskStoreError::TaskNotFound)));
    assert_eq!(content(&store.task(&previous_task_id).unwrap()), before);
    let (reopened, _) = disk.open();
    assert_eq!(reopened.list().len(), 1);
    assert_eq!(reopened.list()[0].task_id(), &previous_task_id);

    let plan = store.plan_create(task()).unwrap();
    assert_eq!(
        store.finish(plan, WriteOutcome::Uncertain),
        Err(TaskStoreError::CommitUncertain)
    );
    assert!(matches!(store.plan_create(task()), Err(TaskStoreError::CommitUncertain)));
}

#[test]
fn progress_hints_remain_volatile_until_an_explicit_coalesced_flush() {
    let mut disk = new_disk();
    let (mut store, _) = disk.open();
    let task_id = disk.create(&mut store, task());
    store.set_progress_hint(&task_id, ProgressHint::new(4, 100)).unwrap();
    assert_eq!(
        store.task(&task_id).unwrap().progress_hint().unwrap().verified_bytes(),
        4
    );

    let (reopened, _) = disk.open();
    assert!(reopened.task(&task_id).unwrap().progress_hint().is_none());
}

#[test]
fn recovery_lookup_uses_task_id_and_existing_local_binding_only() {
    let mut disk = new_disk();
    let (mut store, _) = disk.open();
    let task_id = disk.create(&mut store, task());
    let recovery = sender_recovery(&store, &task_id).unwrap_err();
    assert!(matches!(recovery, TaskStoreError::Model(TaskModelError::NotRecoverable)));
    transition_to_state(&mut disk, &mut store, &task_id, TaskState::Paused, false);
    let stored = store.task(&task_id).unwrap();
    let recovery = sender_recovery(&store, &task_id).unwrap();
    assert_eq!(recovery.task_id(), &task_id);
    assert_eq!(recovery.peer_id(), stored.peer_id());
    assert!(recovery.source_path().same_place(stored.local_path()));
    assert!(recovery.manifest_identity().same(stored.manifest_identity()));
    assert_eq!(recovery.state(), TaskState::Paused);
    assert_eq!(content(&store.task(&task_id).unwrap()), content(&stored));
    assert!(matches!(
        receiver_recovery(&store, &task_id),
        Err(TaskStoreError::Model(TaskModelError::WrongDirection))
    ));
}

#[test]
fn sender_recovery_rejects_queued_without_mutating_the_task() {
    let mut disk = new_disk();
    let (mut store, _) = disk.open();
    let task_id = disk.create(&mut store, task());
    transition_to_state(&mut disk, &mut store, &task_id, TaskState::Queued, false);
    let before = content(&store.task(&task_id).unwrap());

    assert!(matches!(
        sender_recovery(&store, &task_id),
        Err(TaskStoreError::Model(TaskModelError::NotRecoverable))
    ));
    assert_eq!(content(&store.task(&task_id).unwrap()), before);
}

#[test]
fn receiver_recovery_rejects_queued_without_mutating_the_task() {
    let mut disk = new_disk();
    let (mut store, _) = disk.open();
    let task_id = disk.create(&mut store, receiver_task());
    transition_to_state(&mut disk, &mut store, &task_id, TaskState::Queued, false);
    let before = content(&store.task(&task_id).unwrap());

    assert!(matches!(
        receiver_recovery(&store, &task_id),
        Err(TaskStoreError::Model(TaskModelError::NotRecoverable))
    ));
    assert_eq!(content(&store.task(&task_id).unwrap()), before);
}

#[test]
fn recovery_state_matrix_allows_only_explicit_recovery_sources_read_only() {
    let mut disk = new_disk();
    let (mut store, _) = disk.open();
    let cases = [
        (TaskState::Scanning, false, false),
        (TaskState::Queued, false, false),
        (TaskState::Connecting, false, false),
        (TaskState::Negotiating, false, false),
        (TaskState::Transferring, false, false),
        (TaskState::Pausing, false, false),
        (TaskState::Paused, false, true),
        (TaskState::Finalizing, false, false),
        (TaskState::Completed, false, false),
        (TaskState::Interrupted, false, true),
        (TaskState::Failed, false, false),
        (TaskState::Failed, true, true),
    ];

    for (state, retryable_failure, should_recover) in cases {
        for direction in [TaskDirection::Send, TaskDirection::Receive] {
            let task_id = disk.create(&mut store, task_for_direction(direction));
            transition_to_state(&mut disk, &mut store, &task_id, state, retryable_failure);
            let before = store.task(&task_id).unwrap();
            let result = match direction {
                TaskDirection::Send => sender_recovery(&store, &task_id).map(|recovery| {
                    assert_eq!(recovery.task_id(), &task_id);
                    assert_eq!(recovery.peer_id(), before.peer_id());
                    assert!(recovery.source_path().same_place(before.local_path()));
                    assert!(recovery.manifest_identity().same(before.manifest_identity()));
                    assert_eq!(recovery.state(), before.state());
                }),
                TaskDirection::Receive => receiver_recovery(&store, &task_id).map(|recovery| {
                    assert_eq!(recovery.task_id(), &task_id);
                    assert_eq!(recovery.peer_id(), before.peer_id());
                    assert!(recovery.receive_root().same_place(before.local_path()));
                    assert!(recovery.manifest_identity().same(before.manifest_identity()));
                    assert_eq!(recovery.state(), before.state());
                }),
            };

            if should_recover {
                assert!(result.is_ok(), "{direction:?} recovery for {state:?}");
            } else {
                assert!(
                    matches!(result, Err(TaskStoreError::Model(TaskModelError::NotRecoverable))),
                    "{direction:?} recovery for {state:?}"
                );
            }
            assert_eq!(content(&store.task(&task_id).unwrap()), content(&before));

            let wrong_direction = match direction {
                TaskDirection::Send => receiver_recovery(&store, &task_id).map(|_| ()),
                TaskDirection::Receive => sender_recovery(&store, &task_id).map(|_| ()),
            };
            assert!(matches!(
                wrong_direction,
                Err(TaskStoreError::Model(TaskModelError::WrongDirection))
            ));
            assert_eq!(content(&store.task(&task_id).unwrap()), content(&before));
        }
    }
}

#[test]
fn paused_restart_roundtrip_preserves_identity_binding_manifest_state_and_diagnostic() {
    let mut disk = new_disk();
    let (mut store, _) = disk.open();
    let task_id = disk.create(&mut store, task());
    let interrupted = Some(TaskDiagnostic::new(TaskErrorCode::NetworkInterrupted, true));
    for (state, diagnostic, now) in [
        (TaskState::Queued, None, 10),
        (TaskState::Connecting, None, 11),
        (TaskState::Negotiating, None, 12),
        (TaskState::Transferring, None, 13),
        (TaskState::Failed, interrupted, 14),
        (TaskState::Queued, None, 15),
        (TaskState::Connecting, None, 16),
        (TaskState::Negotiating, None, 17),
        (TaskState::Transferring, None, 18),
        (TaskState::Pausing, None, 19),
        (TaskState::Paused, interrupted, 20),
    ] {
        disk.transition(&mut store, &task_id, state, diagnostic, now);
    }
    let record = store.task(&task_id).unwrap();
    let peer_id = record.peer_id().clone();
    let local_path = record.local_path().duplicate();
    let manifest = record.manifest_identity().clone();
    store.set_progress_hint(&task_id, ProgressHint::new(8, 21)).unwrap();
    let plan = store.plan_flush().unwrap();
    disk.commit(&mut store, plan);

    let (reopened, report) = disk.open();
    let restored = reopened.task(&task_id).unwrap();
    assert!(report.is_empty());
    assert_eq!(restored.task_id(), &task_id);
    assert_eq!(restored.peer_id(), &peer_id);
    assert!(restored.local_path().same_place(&local_path));
    assert!(restored.manifest_identity().same(&manifest));
    assert_eq!(restored.state(), TaskState::Paused);
    assert_eq!(
        restored.diagnostic().unwrap().code(),
        TaskErrorCode::NetworkInterrupted
    );
    assert_eq!(restored.progress_hint().unwrap().verified_bytes(), 8);
}

#[test]
fn receiver_recovery_uses_only_the_stored_local_receive_root() {
    let mut disk = new_disk();
    let (mut store, _) = disk.open();
    let peer_id = peer();
    let receive_root = LocalPath::new("/Users/user/Downloads");
    let record = TaskRecord::new_receiver(
        peer_id.clone(),
        receive_root.duplicate(),
        ManifestIdentity::blake3([5; 32], 8, 4).unwrap(),
    )
    .unwrap();
    let task_id = disk.create(&mut store, record);
    transition_to_state(&mut disk, &mut store, &task_id, TaskState::Paused, false);
    let stored = store.task(&task_id).unwrap();
    let recovery = receiver_recovery(&store, &task_id).unwrap();
    assert_eq!(recovery.task_id(), &task_id);
    assert_eq!(recovery.peer_id(), &peer_id);
    assert!(recovery.receive_root().same_place(&receive_root));
    assert!(recovery.receive_root().same_place(stored.local_path()));
    assert_eq!(recovery.state(), TaskState::Paused);
    assert_eq!(content(&store.task(&task_id).unwrap()), content(&stored));
    assert!(matches!(
        sender_recovery(&store, &task_id),
        Err(TaskStoreError::Model(TaskModelError::WrongDirection))
    ));
}

#[test]
fn startup_interrupts_active_states_but_preserves_paused_and_terminal_states() {
    let active = task();
    let id = active.task_id_owned();
    let mut tasks = vec![active];
    let report = recover_startup(&mut tasks, 9).unwrap();
    assert_eq!(tasks[0].state(), TaskState::Interrupted);
    assert_eq!(
        tasks[0].diagnostic().unwrap().code(),
        TaskErrorCode::ApplicationRestarted
    );
    assert_eq!(report.interrupted_task_ids(), &vec![id]);

    let mut paused = task();
    paused.transition_to(TaskState::Queued, None, 2).unwrap();
    paused.transition_to(TaskState::Connecting, None, 3).unwrap();
    paused.transition_to(TaskState::Pausing, None, 4).unwrap();
    paused.transition_to(TaskState::Paused, None, 5).unwrap();
    let mut completed = task();
    completed.transition_to(TaskState::Queued, None, 2).unwrap();
    completed.transition_to(TaskState::Connecting, None, 3).unwrap();
    completed.transition_to(TaskState::Negotiating, None, 4).unwrap();
    completed.transition_to(TaskState::Transferring, None, 5).unwrap();
    completed.transition_to(TaskState::Finalizing, None, 6).unwrap();
    completed.transition_to(TaskState::Completed, None, 7).unwrap();
    let mut failed = task();
    failed
        .transition_to(
            TaskState::Failed,
            Some(TaskDiagnostic::new(TaskErrorCode::SourceUnavailable, false)),
            8,
        )
        .unwrap();

    let mut tasks = vec![paused, completed, failed];
    let report = recover_startup(&mut tasks, 9).unwrap();
    assert!(report.interrupted_task_ids().is_empty());
}

#[test]
fn truncated_and_unknown_version_stores_are_rejected_without_replacement() {
    let unknown = StoreSnapshot { format_version: 77, generation: 0, tasks: Vec::new() };
    assert!(matches!(
        TaskStore::open(Some(unknown), 1),
        Err(TaskStoreError::UnsupportedVersion(77))
    ));
    let future_record = TaskRecord::from_parts(
        2,
        TaskId::generate(),
        peer(),
        TaskDirection::Send,
        LocalTaskPath::Source(LocalPath::new("/local/sensitive-source.bin")),
        ManifestIdentity::blake3([9; 32], 12, 4).unwrap(),
        TaskState::Scanning,
        1,
        1,
        None,
        None,
        TaskDetails::Content,
        None,
    );
    let future = StoreSnapshot { format_version: 1, generation: 0, tasks: vec![future_record] };
    assert!(matches!(
        TaskStore::open(Some(future), 1),
        Err(TaskStoreError::Model(TaskModelError::UnsupportedSchemaVersion(2)))
    ));
    let record = task();
    let twice = StoreSnapshot {
        format_version: 1,
        generation: 1,
        tasks: vec![record.duplicate(), record],
    };
    assert!(matches!(TaskStore::open(Some(twice), 1), Err(TaskStoreError::Corrupt)));
    assert!(check_snapshot_file(true, MAX_STORE_BYTES, true).is_ok());
    assert!(check_snapshot_file(true, MAX_STORE_BYTES + 1, true).is_err());
    assert!(check_snapshot_file(false, 10, true).is_err());
    assert!(check_snapshot_file(true, 10, false).is_err());
}

#[test]
fn selections_are_created_together_or_not_at_all() {
    let mut disk = new_disk();
    let (mut store, _) = disk.open();
    let first = task();
    let mut second = task();
    let plan = store.plan_create_selection(&vec![first.duplicate(), second.duplicate()]).unwrap();
    assert_eq!(plan.tasks().len(), 2);
    disk.commit(&mut store, plan);
    assert_eq!(store.list().len(), 2);
    let kinds: Vec<_> = store.drain_events().iter().map(|event| event.kind()).collect();
    assert_eq!(kinds, vec![TaskEventKind::Created, TaskEventKind::Created]);
    second.transition_to(TaskState::Queued, None, 5).unwrap();
    assert!(store.plan_create_selection(&vec![task(), second]).is_err());
    assert!(store.plan_create_selection(&vec![task(), first]).is_err());
    assert_eq!(store.list().len(), 2);
}
