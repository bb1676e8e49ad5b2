//! Startup interruption and explicit recovery by task ID alone.
//!
//! Recovery hands out only the stored local binding. It accepts no remote path
//! and never queues a task by itself.

use vstd::prelude::*;

use crate::task_model::{
    IdentityView, LocalPath, ManifestIdentity, PathView, PeerId, TaskDiagnostic, TaskDirection,
    TaskErrorCode, TaskId, TaskModelError, TaskState,
};
use crate::task_record::{TaskRecord, TaskView};

verus! {

/// The views of some records.
pub open spec fn task_views(tasks: Seq<TaskRecord>) -> Seq<TaskView> {
    tasks.map_values(|task: TaskRecord| task@)
}

/// The views of some identifiers.
pub open spec fn id_views(ids: Seq<TaskId>) -> Seq<Seq<char>> {
    ids.map_values(|id: TaskId| id@)
}

/// Which tasks were interrupted when the application ended.
#[derive(Debug)]
pub struct StartupRecoveryReport {
    interrupted_task_ids: Vec<TaskId>,
}

impl View for StartupRecoveryReport {
    type V = Seq<Seq<char>>;

    closed spec fn view(&self) -> Seq<Seq<char>> {
        id_views(self.interrupted_task_ids@)
    }
}

impl StartupRecoveryReport {
    /// The interrupted tasks, in store order.
    pub fn interrupted_task_ids(&self) -> (ids: &Vec<TaskId>)
        ensures
            id_views(ids@) == self@,
    {
        &self.interrupted_task_ids
    }
}

/// The diagnostic of a task that was under way when the application ended.
pub open spec fn restart_diagnostic() -> TaskDiagnostic {
    TaskDiagnostic { code: TaskErrorCode::ApplicationRestarted, retryable: false }
}

/// A task as it is after a restart: work that was under way is interrupted, all
/// else stays.
pub open spec fn recovered(task: TaskView, now: i64) -> TaskView {
    if task.state.active() {
        task.moved(TaskState::Interrupted, Some(restart_diagnostic()), now)
    } else {
        task
    }
}

/// Why a task cannot be recovered at startup, if it cannot.
pub open spec fn recovery_refusal(task: TaskView, now: i64) -> Option<TaskModelError> {
    if task.state.active() {
        task.transition_refusal(TaskState::Interrupted, Some(restart_diagnostic()), now)
    } else {
        None
    }
}

/// The tasks that were under way, in order.
pub open spec fn active_ids(tasks: Seq<TaskView>) -> Seq<Seq<char>>
    decreases tasks.len(),
{
    if tasks.len() == 0 {
        Seq::empty()
    } else if tasks.last().state.active() {
        active_ids(tasks.drop_last()).push(tasks.last().task_id)
    } else {
        active_ids(tasks.drop_last())
    }
}

/// Interrupts every task that was under way. It stops at the first task that cannot
/// be interrupted; the tasks before it are recovered, the others stay.
pub fn recover_startup(tasks: &mut Vec<TaskRecord>, now: i64) -> (result: Result<
    StartupRecoveryReport,
    TaskModelError,
>)
    ensures
        final(tasks)@.len() == old(tasks)@.len(),
        match result {
            Ok(report) => {
                &&& report@ == active_ids(task_views(old(tasks)@))
                &&& forall|i: int|
                    0 <= i < old(tasks)@.len() ==> recovery_refusal(
                        (#[trigger] old(tasks)@[i])@,
                        now,
                    ) is None && final(tasks)@[i]@ == recovered(old(tasks)@[i]@, now)
            },
            Err(error) => exists|at: int|
                {
                    &&& 0 <= at < old(tasks)@.len()
                    &&& recovery_refusal((#[trigger] old(tasks)@[at])@, now) == Some(error)
                    &&& forall|i: int|
                        0 <= i < old(tasks)@.len() ==> (#[trigger] final(tasks)@[i])@ == if i < at {
                            recovered(old(tasks)@[i]@, now)
                        } else {
                            old(tasks)@[i]@
                        }
                    &&& forall|i: int|
                        0 <= i < at ==> recovery_refusal((#[trigger] old(tasks)@[i])@, now) is None
                },
        },
{
    let ghost before = tasks@;
    let mut interrupted: Vec<TaskId> = Vec::new();
    let mut i: usize = 0;
    assert(task_views(before).take(0) =~= Seq::<TaskView>::empty());
    assert(id_views(interrupted@) =~= Seq::<Seq<char>>::empty());
    while i < tasks.len()
        invariant
            i <= tasks@.len(),
            before == old(tasks)@,
            tasks@.len() == before.len(),
            forall|k: int|
                0 <= k < i ==> recovery_refusal((#[trigger] before[k])@, now) is None,
            forall|k: int|
                0 <= k < before.len() ==> (#[trigger] tasks@[k])@ == if k < i {
                    recovered(before[k]@, now)
                } else {
                    before[k]@
                },
            id_views(interrupted@) == active_ids(task_views(before).take(i as int)),
        decreases tasks@.len() - i,
    {
        assert(task_views(before).take(i + 1).drop_last() =~= task_views(before).take(i as int));
        assert(task_views(before)[i as int] == before[i as int]@);
        assert(tasks@[i as int]@ == before[i as int]@);
        let ghost earlier = tasks@;
        if tasks[i].state().needs_startup_recovery() {
            let mut task = tasks[i].duplicate();
            match task.transition_to(
                TaskState::Interrupted,
                Some(TaskDiagnostic::new(TaskErrorCode::ApplicationRestarted, false)),
                now,
            ) {
                Ok(()) => {},
                Err(error) => {
                    assert(recovery_refusal(before[i as int]@, now) == Some(error));
                    return Err(error);
                },
            }
            let id = task.task_id_owned();
            let ghost listed = id_views(interrupted@);
            tasks.set(i, task);
            interrupted.push(id);
            assert(id_views(interrupted@) =~= listed.push(before[i as int]@.task_id));
        }
        i = i + 1;
        assert forall|k: int| 0 <= k < before.len() implies (#[trigger] tasks@[k])@ == if k < i {
            recovered(before[k]@, now)
        } else {
            before[k]@
        } by {
            assert(earlier[k]@ == if k < i - 1 {
                recovered(before[k]@, now)
            } else {
                before[k]@
            });
        }
    }
    assert(task_views(before).take(i as int) =~= task_views(before));
    Ok(StartupRecoveryReport { interrupted_task_ids: interrupted })
}

/// Startup recovery of sound tasks always succeeds, keeps them sound and bound as
/// before, and a second one finds nothing more to do.
pub proof fn startup_recovery_is_total_and_idempotent(task: TaskView, now: i64, later: i64)
    requires
        task.valid(),
    ensures
        recovery_refusal(task, now) is None,
        recovered(task, now).valid(),
        recovered(task, now).same_binding(task),
        !recovered(task, now).state.active(),
        recovered(recovered(task, now), later) == recovered(task, now),
        !task.state.active() ==> recovered(task, now) == task,
{
}

/// The stored binding of a task that sends, as mathematical values.
pub struct SenderRecoveryView {
    pub task_id: Seq<char>,
    pub peer_id: Seq<char>,
    pub source_path: PathView,
    pub manifest_identity: IdentityView,
    pub state: TaskState,
}

/// The stored binding of a task that sends.
#[derive(Debug)]
pub struct SenderRecovery {
    task_id: TaskId,
    peer_id: PeerId,
    source_path: LocalPath,
    manifest_identity: ManifestIdentity,
    state: TaskState,
}

impl View for SenderRecovery {
    type V = SenderRecoveryView;

    closed spec fn view(&self) -> SenderRecoveryView {
        SenderRecoveryView {
            task_id: self.task_id@,
            peer_id: self.peer_id@,
            source_path: self.source_path@,
            manifest_identity: self.manifest_identity@,
            state: self.state,
        }
    }
}

impl SenderRecovery {
    /// The task.
    pub fn task_id(&self) -> (id: &TaskId)
        ensures
            id@ == self@.task_id,
    {
        &self.task_id
    }

    /// The peer that the task is bound to.
    pub fn peer_id(&self) -> (peer: &PeerId)
        ensures
            peer@ == self@.peer_id,
    {
        &self.peer_id
    }

    /// The stored source.
    pub fn source_path(&self) -> (path: &LocalPath)
        ensures
            path@ == self@.source_path,
    {
        &self.source_path
    }

    /// What the content is.
    pub fn manifest_identity(&self) -> (identity: &ManifestIdentity)
        ensures
            identity@ == self@.manifest_identity,
    {
        &self.manifest_identity
    }

    /// Where the task is in its life.
    pub fn state(&self) -> (state: TaskState)
        ensures
            state == self@.state,
    {
        self.state
    }
}

/// The stored binding of a task that receives, as mathematical values.
pub struct ReceiverRecoveryView {
    pub task_id: Seq<char>,
    pub peer_id: Seq<char>,
    pub receive_root: PathView,
    pub manifest_identity: IdentityView,
    pub state: TaskState,
}

/// The stored binding of a task that receives.
#[derive(Debug)]
pub struct ReceiverRecovery {
    task_id: TaskId,
    peer_id: PeerId,
    receive_root: LocalPath,
    manifest_identity: ManifestIdentity,
    state: TaskState,
}

impl View for ReceiverRecovery {
    type V = ReceiverRecoveryView;

    closed spec fn view(&self) -> ReceiverRecoveryView {
        ReceiverRecoveryView {
            task_id: self.task_id@,
            peer_id: self.peer_id@,
            receive_root: self.receive_root@,
            manifest_identity: self.manifest_identity@,
            state: self.state,
        }
    }
}

impl ReceiverRecovery {
    /// The task.
    pub fn task_id(&self) -> (id: &TaskId)
        ensures
            id@ == self@.task_id,
    {
        &self.task_id
    }

    /// The peer that the task is bound to.
    pub fn peer_id(&self) -> (peer: &PeerId)
        ensures
            peer@ == self@.peer_id,
    {
        &self.peer_id
    }

    /// The stored receive root.
    pub fn receive_root(&self) -> (path: &LocalPath)
        ensures
            path@ == self@.receive_root,
    {
        &self.receive_root
    }

    /// What the content is.
    pub fn manifest_identity(&self) -> (identity: &ManifestIdentity)
        ensures
            identity@ == self@.manifest_identity,
    {
        &self.manifest_identity
    }

    /// Where the task is in its life.
    pub fn state(&self) -> (state: TaskState)
        ensures
            state == self@.state,
    {
        self.state
    }
}

/// Only a paused, interrupted or retryably failed task can be recovered.
pub fn ensure_explicitly_recoverable(task: &TaskRecord) -> (result: Result<(), TaskModelError>)
    ensures
        result is Ok <==> task@.continuable(),
        result matches Err(error) ==> error == TaskModelError::NotRecoverable,
{
    if task.can_continue() {
        Ok(())
    } else {
        Err(TaskModelError::NotRecoverable)
    }
}

/// The stored source of a task that sends and may be continued.
pub fn sender_recovery_of(task: &TaskRecord) -> (result: Result<SenderRecovery, TaskModelError>)
    ensures
        match result {
            Ok(recovery) => task@.direction == TaskDirection::Send && task@.continuable()
                && recovery@ == sender_view_of(task@),
            Err(error) => if task@.direction != TaskDirection::Send {
                error == TaskModelError::WrongDirection
            } else {
                !task@.continuable() && error == TaskModelError::NotRecoverable
            },
        },
{
    if task.direction() != TaskDirection::Send {
        return Err(TaskModelError::WrongDirection);
    }
    match ensure_explicitly_recoverable(task) {
        Ok(()) => {},
        Err(error) => {
            return Err(error);
        },
    }
    Ok(
        SenderRecovery {
            task_id: task.task_id_owned(),
            peer_id: task.peer_id().clone(),
            source_path: task.local_path().duplicate(),
            manifest_identity: task.manifest_identity().clone(),
            state: task.state(),
        },
    )
}

/// The stored receive root of a task that receives and may be continued.
pub fn receiver_recovery_of(task: &TaskRecord) -> (result: Result<
    ReceiverRecovery,
    TaskModelError,
>)
    ensures
        match result {
            Ok(recovery) => task@.direction == TaskDirection::Receive && task@.continuable()
                && recovery@ == receiver_view_of(task@),
            Err(error) => if task@.direction != TaskDirection::Receive {
                error == TaskModelError::WrongDirection
            } else {
                !task@.continuable() && error == TaskModelError::NotRecoverable
            },
        },
{
    if task.direction() != TaskDirection::Receive {
        return Err(TaskModelError::WrongDirection);
    }
    match ensure_explicitly_recoverable(task) {
        Ok(()) => {},
        Err(error) => {
            return Err(error);
        },
    }
    Ok(
        ReceiverRecovery {
            task_id: task.task_id_owned(),
            peer_id: task.peer_id().clone(),
            receive_root: task.local_path().duplicate(),
            manifest_identity: task.manifest_identity().clone(),
            state: task.state(),
        },
    )
}

/// Work that was under way is interrupted by a restart, for that reason, and no sooner
/// than the restart; the user may continue it.
pub proof fn restarts_interrupt_what_ran(task: TaskView, now: i64)
    requires
        task.state.active(),
    ensures
        ({
            let after = recovered(task, now);
            &&& after.state == TaskState::Interrupted
            &&& after.diagnostic matches Some(diagnostic) && diagnostic.code
                == TaskErrorCode::ApplicationRestarted
            &&& after.updated_at >= now
            &&& after.continuable()
            &&& after.progress_hint == task.progress_hint
            &&& after.details == task.details
        }),
{
}

/// Exactly the tasks that were under way are reported after a restart.
pub proof fn reports_name_what_ran(tasks: Seq<TaskView>, id: Seq<char>)
    ensures
        active_ids(tasks).contains(id) <==> exists|k: int|
            0 <= k < tasks.len() && (#[trigger] tasks[k]).task_id == id && tasks[k].state.active(),
    decreases tasks.len(),
{
    if tasks.len() > 0 {
        let front = tasks.drop_last();
        reports_name_what_ran(front, id);
        let before = active_ids(front);
        let all = active_ids(tasks);
        if before.contains(id) {
            let j = choose|j: int| 0 <= j < before.len() && before[j] == id;
            assert(all[j] == id);
            let k = choose|k: int|
                0 <= k < front.len() && (#[trigger] front[k]).task_id == id
                    && front[k].state.active();
            assert(tasks[k] == front[k]);
        }
        if tasks.last().state.active() && tasks.last().task_id == id {
            assert(all[all.len() - 1] == id);
            assert(tasks[tasks.len() - 1].task_id == id);
        }
        if all.contains(id) && !before.contains(id) {
            let j = choose|j: int| 0 <= j < all.len() && all[j] == id;
            if j < before.len() {
                assert(before[j] == id);
            }
        }
        if exists|k: int|
            0 <= k < tasks.len() && (#[trigger] tasks[k]).task_id == id && tasks[k].state.active() {
            let k = choose|k: int|
                0 <= k < tasks.len() && (#[trigger] tasks[k]).task_id == id
                    && tasks[k].state.active();
            if k < front.len() {
                assert(front[k] == tasks[k]);
            }
        }
    }
}

/// What the sending end needs to go on with a task.
pub open spec fn sender_view_of(task: TaskView) -> SenderRecoveryView {
    SenderRecoveryView {
        task_id: task.task_id,
        peer_id: task.peer_id,
        source_path: task.local_path.path(),
        manifest_identity: task.manifest_identity,
        state: task.state,
    }
}

/// What the receiving end needs to go on with a task.
pub open spec fn receiver_view_of(task: TaskView) -> ReceiverRecoveryView {
    ReceiverRecoveryView {
        task_id: task.task_id,
        peer_id: task.peer_id,
        receive_root: task.local_path.path(),
        manifest_identity: task.manifest_identity,
        state: task.state,
    }
}

/// Going on with a task is going on with this very task: the same peer, place and content.
pub proof fn recoveries_name_their_task(task: TaskView)
    ensures
        sender_view_of(task).task_id == task.task_id,
        sender_view_of(task).peer_id == task.peer_id,
        sender_view_of(task).source_path == task.local_path.path(),
        sender_view_of(task).manifest_identity == task.manifest_identity,
        sender_view_of(task).state == task.state,
        receiver_view_of(task).task_id == task.task_id,
        receiver_view_of(task).peer_id == task.peer_id,
        receiver_view_of(task).receive_root == task.local_path.path(),
        receiver_view_of(task).manifest_identity == task.manifest_identity,
        receiver_view_of(task).state == task.state,
{
}

} // verus!
