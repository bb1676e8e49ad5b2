//! Versioned, single-writer task snapshots.
//!
//! A change is planned on the side, written by the caller, and only then becomes
//! visible: `plan_*` hands out the snapshot to write, `finish` takes what became
//! of the write.

use vstd::prelude::*;

use crate::error::IoErrorKind;
use crate::lists::{distinct, first_index, lemma_first_index, lemma_is_first_index};
use crate::task_events::{
    event_views, EventView, EventsView, TaskEvent, TaskEventBuffer, TaskEventKind,
};
use crate::task_model::{ProgressHint, TaskDiagnostic, TaskId, TaskModelError, TaskState};
use crate::task_record::{hint_fits, TaskRecord, TaskView};
use crate::task_recovery::{
    active_ids, id_views, receiver_recovery_of, recover_startup, recovered, recovery_refusal,
    sender_recovery_of, task_views, ReceiverRecovery, ReceiverRecoveryView, SenderRecovery,
    SenderRecoveryView, StartupRecoveryReport,
};
use crate::text::{
    decimal, decimal_text, join_text, lemma_text_less_irreflexive, lemma_text_less_total,
    lemma_text_less_transitive, text_before, text_less,
};

verus! {

/// The snapshot layout that this version writes and reads.
pub const STORE_FORMAT_VERSION: u32 = 1;

/// The largest snapshot, in bytes.
pub const MAX_STORE_BYTES: u64 = 16777216;

/// Why the store refuses.
#[derive(Clone, Copy, Debug, PartialEq, Eq, Structural)]
pub enum TaskStoreError {
    Io(IoErrorKind),
    Corrupt,
    UnsupportedVersion(u32),
    Model(TaskModelError),
    TaskNotFound,
    AlreadyRunning,
    CommitUncertain,
    GenerationExhausted,
}

impl TaskStoreError {
    /// The message shown for this error.
    pub open spec fn text(self) -> Seq<char> {
        match self {
            TaskStoreError::Io(_) => "任务存储暂时不可用"@,
            TaskStoreError::Corrupt => "任务存储格式损坏；原文件已保留"@,
            TaskStoreError::UnsupportedVersion(version) => "任务存储版本 "@ + decimal(
                version as nat,
            ) + " 不受支持；原文件已保留"@,
            TaskStoreError::Model(error) => error.text(),
            TaskStoreError::TaskNotFound => "任务记录不存在"@,
            TaskStoreError::AlreadyRunning => "任务目录已由另一个写入者使用"@,
            TaskStoreError::CommitUncertain => "任务存储提交状态不确定；请重启应用后重试"@,
            TaskStoreError::GenerationExhausted => "任务存储代数已耗尽"@,
        }
    }

    /// The message shown for this error.
    pub fn message(&self) -> (text: String)
        ensures
            text@ == self.text(),
    {
        let fixed = match self {
            TaskStoreError::Io(_) => "任务存储暂时不可用",
            TaskStoreError::Corrupt => "任务存储格式损坏；原文件已保留",
            TaskStoreError::UnsupportedVersion(version) => {
                let front = join_text("任务存储版本 ", &decimal_text(*version as u64));
                return join_text(&front, " 不受支持；原文件已保留");
            },
            TaskStoreError::Model(error) => {
                return error.message();
            },
            TaskStoreError::TaskNotFound => "任务记录不存在",
            TaskStoreError::AlreadyRunning => "任务目录已由另一个写入者使用",
            TaskStoreError::CommitUncertain => "任务存储提交状态不确定；请重启应用后重试",
            TaskStoreError::GenerationExhausted => "任务存储代数已耗尽",
        };
        fixed.to_owned()
    }
}

/// Inserts a task behind every task with a smaller or equal identifier.
pub open spec fn insert_ordered(tasks: Seq<TaskView>, task: TaskView) -> Seq<TaskView>
    decreases tasks.len(),
{
    if tasks.len() == 0 || !text_less(task.task_id, tasks.last().task_id) {
        tasks.push(task)
    } else {
        insert_ordered(tasks.drop_last(), task).push(tasks.last())
    }
}

/// Tasks in the order of their identifiers; equal ones keep their order.
pub open spec fn ordered(tasks: Seq<TaskView>) -> Seq<TaskView>
    decreases tasks.len(),
{
    if tasks.len() == 0 {
        tasks
    } else {
        insert_ordered(ordered(tasks.drop_last()), tasks.last())
    }
}

/// Whether tasks stand in the order of their identifiers.
pub open spec fn is_ordered(tasks: Seq<TaskView>) -> bool {
    forall|i: int, j: int|
        0 <= i < j < tasks.len() ==> !text_less(
            (#[trigger] tasks[j]).task_id,
            (#[trigger] tasks[i]).task_id,
        )
}

/// What is wrong with the first unsound task, if one is unsound.
pub open spec fn tasks_refusal(tasks: Seq<TaskView>) -> Option<TaskModelError>
    decreases tasks.len(),
{
    if tasks.len() == 0 {
        None
    } else if tasks_refusal(tasks.drop_last()) is Some {
        tasks_refusal(tasks.drop_last())
    } else {
        tasks.last().refusal()
    }
}

/// Whether no two tasks have the same identifier.
pub open spec fn unique_ids(tasks: Seq<TaskView>) -> bool {
    distinct(tasks, |task: TaskView| task.task_id)
}

/// Finds a task by its identifier.
pub open spec fn with_id(id: Seq<char>) -> spec_fn(TaskView) -> bool {
    |task: TaskView| task.task_id == id
}

/// The store, as mathematical values.
pub struct StoreView {
    pub tasks: Seq<TaskView>,
    pub generation: u64,
    pub events: EventsView,
    pub poisoned: bool,
}

/// A planned change, as mathematical values.
pub struct CommitView {
    pub base: Seq<TaskView>,
    pub tasks: Seq<TaskView>,
    pub generation: u64,
    pub events: Seq<EventView>,
}

/// The events of a buffer after some more, in order.
pub open spec fn push_all(buffer: EventsView, events: Seq<EventView>) -> EventsView
    decreases events.len(),
{
    if events.len() == 0 {
        buffer
    } else {
        push_all(buffer, events.drop_last()).pushed(events.last())
    }
}

impl StoreView {
    /// Every task is sound, identifiers are unique and in order, events are bounded.
    pub open spec fn valid(self) -> bool {
        &&& tasks_refusal(self.tasks) is None
        &&& unique_ids(self.tasks)
        &&& is_ordered(self.tasks)
        &&& self.events.bounded()
    }

    /// Where a task stands; the length where it is not there.
    pub open spec fn position(self, id: Seq<char>) -> int {
        first_index(self.tasks, with_id(id))
    }

    /// Whether a task is there.
    pub open spec fn has(self, id: Seq<char>) -> bool {
        self.position(id) < self.tasks.len()
    }

    /// The task with this identifier.
    pub open spec fn task(self, id: Seq<char>) -> TaskView {
        self.tasks[self.position(id)]
    }

    /// The tasks with one of them replaced.
    pub open spec fn replaced(self, id: Seq<char>, task: TaskView) -> Seq<TaskView> {
        self.tasks.update(self.position(id), task)
    }

    /// Why these tasks cannot be committed, if they cannot.
    pub open spec fn commit_refusal(self, candidate: Seq<TaskView>) -> Option<TaskStoreError> {
        if self.poisoned {
            Some(TaskStoreError::CommitUncertain)
        } else if tasks_refusal(ordered(candidate)) is Some {
            Some(TaskStoreError::Model(tasks_refusal(ordered(candidate))->0))
        } else if !unique_ids(ordered(candidate)) {
            Some(TaskStoreError::Corrupt)
        } else if self.generation == u64::MAX {
            Some(TaskStoreError::GenerationExhausted)
        } else {
            None
        }
    }

    /// The commit of these tasks with these events.
    pub open spec fn commit(self, candidate: Seq<TaskView>, events: Seq<EventView>) -> CommitView {
        CommitView {
            base: self.tasks,
            tasks: ordered(candidate),
            generation: (self.generation + 1) as u64,
            events,
        }
    }

    /// The store once a commit has been written.
    pub open spec fn written(self, commit: CommitView) -> StoreView {
        StoreView {
            tasks: commit.tasks,
            generation: commit.generation,
            events: push_all(self.events, commit.events),
            poisoned: self.poisoned,
        }
    }

    /// What is told when a task changes its state.
    pub open spec fn change_events(self, id: Seq<char>, at: i64, next: TaskState) -> Seq<EventView> {
        seq![
            EventView {
                task_id: id,
                at,
                kind: TaskEventKind::StateChanged { from: self.task(id).state, to: next },
            },
        ]
    }

    /// The store with another progress of a task, which is told but not written.
    pub open spec fn progressed(self, id: Seq<char>, hint: ProgressHint) -> StoreView {
        StoreView {
            tasks: self.replaced(
                id,
                TaskView { progress_hint: Some(hint), ..self.task(id) },
            ),
            events: self.events.pushed(
                EventView {
                    task_id: id,
                    at: hint.sampled_at_unix_ms,
                    kind: TaskEventKind::ProgressHintChanged,
                },
            ),
            ..self
        }
    }

    /// What planning a change to these tasks gives, once the change itself is allowed.
    pub open spec fn planned(
        self,
        result: Result<PendingCommit, TaskStoreError>,
        refusal: Option<TaskStoreError>,
        candidate: Seq<TaskView>,
        events: Seq<EventView>,
    ) -> bool {
        match result {
            Ok(commit) => !self.poisoned && refusal is None && self.commit_refusal(candidate)
                is None && commit@ == self.commit(candidate, events),
            Err(error) => if self.poisoned {
                error == TaskStoreError::CommitUncertain
            } else if refusal is Some {
                error == refusal->0
            } else {
                self.commit_refusal(candidate) == Some(error)
            },
        }
    }

    /// Why a new task is refused, if it is.
    pub open spec fn create_refusal(self, task: TaskView) -> Option<TaskStoreError> {
        if task.refusal() is Some {
            Some(TaskStoreError::Model(task.refusal()->0))
        } else if task.state != TaskState::Scanning {
            Some(TaskStoreError::Model(TaskModelError::NewTaskMustStartScanning))
        } else if self.has(task.task_id) {
            Some(TaskStoreError::Corrupt)
        } else {
            None
        }
    }

    /// Why a transition is refused, if it is.
    pub open spec fn transition_refusal(
        self,
        id: Seq<char>,
        next: TaskState,
        diagnostic: Option<TaskDiagnostic>,
        now: i64,
    ) -> Option<TaskStoreError> {
        if !self.has(id) {
            Some(TaskStoreError::TaskNotFound)
        } else if self.task(id).transition_refusal(next, diagnostic, now) is Some {
            Some(TaskStoreError::Model(self.task(id).transition_refusal(next, diagnostic, now)->0))
        } else {
            None
        }
    }

    /// Why publication is refused, if it is.
    pub open spec fn publication_refusal(self, id: Seq<char>) -> Option<TaskStoreError> {
        if !self.has(id) {
            Some(TaskStoreError::TaskNotFound)
        } else if !self.task(id).publishable() {
            Some(
                TaskStoreError::Model(
                    TaskModelError::InvalidTransition {
                        from: self.task(id).state,
                        to: TaskState::Finalizing,
                    },
                ),
            )
        } else {
            None
        }
    }

    /// Why a receipt is refused, if it is.
    pub open spec fn receipt_refusal(self, id: Seq<char>, now: i64) -> Option<TaskStoreError> {
        if !self.has(id) {
            Some(TaskStoreError::TaskNotFound)
        } else if self.task(id).receipt_refusal(now) is Some {
            Some(TaskStoreError::Model(self.task(id).receipt_refusal(now)->0))
        } else {
            None
        }
    }
}

/// A change that is ready to be written, of the tasks as they were when it was planned.
pub struct PendingCommit {
    base: Ghost<Seq<TaskView>>,
    tasks: Vec<TaskRecord>,
    generation: u64,
    events: Vec<TaskEvent>,
}

impl View for PendingCommit {
    type V = CommitView;

    closed spec fn view(&self) -> CommitView {
        CommitView {
            base: self.base@,
            tasks: task_views(self.tasks@),
            generation: self.generation,
            events: event_views(self.events@),
        }
    }
}

impl PendingCommit {
    /// The tasks to write, in order.
    pub fn tasks(&self) -> (tasks: &Vec<TaskRecord>)
        ensures
            task_views(tasks@) == self@.tasks,
    {
        &self.tasks
    }

    /// The generation to write.
    pub fn generation(&self) -> (generation: u64)
        ensures
            generation == self@.generation,
    {
        self.generation
    }
}

/// What became of writing a snapshot.
#[derive(Clone, Copy, Debug, PartialEq, Eq, Structural)]
pub enum WriteOutcome {
    /// The new snapshot is durable.
    Written,
    /// The old snapshot is still in place.
    NotReplaced(IoErrorKind),
    /// The new snapshot is in place, but it may not be durable.
    Uncertain,
}

/// A stored snapshot, as read.
#[derive(Debug)]
pub struct StoreSnapshot {
    pub format_version: u32,
    pub generation: u64,
    pub tasks: Vec<TaskRecord>,
}

/// Why a snapshot is refused, if it is.
pub open spec fn snapshot_refusal(version: u32, tasks: Seq<TaskView>) -> Option<TaskStoreError> {
    if version != STORE_FORMAT_VERSION {
        Some(TaskStoreError::UnsupportedVersion(version))
    } else if tasks_refusal(tasks) is Some {
        Some(TaskStoreError::Model(tasks_refusal(tasks)->0))
    } else if !unique_ids(tasks) {
        Some(TaskStoreError::Corrupt)
    } else {
        None
    }
}

fn duplicate_tasks(tasks: &Vec<TaskRecord>) -> (copy: Vec<TaskRecord>)
    ensures
        task_views(copy@) == task_views(tasks@),
        copy@.len() == tasks@.len(),
{
    let mut copy: Vec<TaskRecord> = Vec::new();
    let mut i: usize = 0;
    while i < tasks.len()
        invariant
            i <= tasks@.len(),
            copy@.len() == i,
            forall|k: int| 0 <= k < i ==> (#[trigger] copy@[k])@ == tasks@[k]@,
        decreases tasks@.len() - i,
    {
        copy.push(tasks[i].duplicate());
        i = i + 1;
    }
    assert(task_views(copy@) =~= task_views(tasks@));
    copy
}

/// Puts tasks in the order of their identifiers.
pub fn sort_tasks(tasks: &Vec<TaskRecord>) -> (sorted: Vec<TaskRecord>)
    ensures
        task_views(sorted@) == ordered(task_views(tasks@)),
{
    let mut sorted: Vec<TaskRecord> = Vec::new();
    let mut i: usize = 0;
    assert(task_views(tasks@).take(0) =~= Seq::<TaskView>::empty());
    assert(task_views(sorted@) =~= Seq::<TaskView>::empty());
    while i < tasks.len()
        invariant
            i <= tasks@.len(),
            task_views(sorted@) == ordered(task_views(tasks@).take(i as int)),
        decreases tasks@.len() - i,
    {
        assert(task_views(tasks@).take(i + 1).drop_last() =~= task_views(tasks@).take(i as int));
        insert_task(&mut sorted, tasks[i].duplicate());
        i = i + 1;
    }
    assert(task_views(tasks@).take(i as int) =~= task_views(tasks@));
    sorted
}

fn insert_task(sorted: &mut Vec<TaskRecord>, task: TaskRecord)
    ensures
        task_views(final(sorted)@) == insert_ordered(task_views(old(sorted)@), task@),
{
    let ghost before = task_views(sorted@);
    let ghost added = task@;
    let mut at: usize = sorted.len();
    proof {
        assert(before.take(at as int) =~= before);
        assert(before.skip(at as int) =~= Seq::<TaskView>::empty());
        assert(insert_ordered(before, added) =~= insert_ordered(before.take(at as int), added)
            + before.skip(at as int));
    }
    while at > 0 && text_before(task.task_id().as_str(), sorted[at - 1].task_id().as_str())
        invariant
            at <= sorted@.len(),
            before == task_views(sorted@),
            added == task@,
            insert_ordered(before, added) == insert_ordered(before.take(at as int), added)
                + before.skip(at as int),
        decreases at,
    {
        proof {
            let front = before.take(at as int);
            assert(front.last() == before[at - 1]);
            assert(front.drop_last() =~= before.take(at - 1));
            assert(insert_ordered(front, added) == insert_ordered(
                before.take(at - 1),
                added,
            ).push(before[at - 1]));
            assert(insert_ordered(before.take(at - 1), added).push(before[at - 1]) + before.skip(
                at as int,
            ) =~= insert_ordered(before.take(at - 1), added) + before.skip(at - 1));
        }
        at = at - 1;
    }
    proof {
        let front = before.take(at as int);
        if at > 0 {
            assert(front.last() == before[at - 1]);
        }
        assert(insert_ordered(front, added) == front.push(added));
        assert(front.push(added) + before.skip(at as int) =~= before.insert(at as int, added));
    }
    sorted.insert(at, task);
    assert(task_views(sorted@) =~= before.insert(at as int, added));
}

/// Refuses the first unsound task.
pub fn validate_tasks(tasks: &Vec<TaskRecord>) -> (result: Result<(), TaskModelError>)
    ensures
        match result {
            Ok(()) => tasks_refusal(task_views(tasks@)) is None,
            Err(error) => tasks_refusal(task_views(tasks@)) == Some(error),
        },
{
    let ghost all = task_views(tasks@);
    let mut i: usize = 0;
    assert(all.take(0) =~= Seq::<TaskView>::empty());
    while i < tasks.len()
        invariant
            i <= tasks@.len(),
            all == task_views(tasks@),
            tasks_refusal(all.take(i as int)) is None,
        decreases tasks@.len() - i,
    {
        assert(all.take(i + 1).drop_last() =~= all.take(i as int));
        assert(all.take(i + 1).last() == tasks@[i as int]@);
        match tasks[i].validate() {
            Ok(()) => {},
            Err(error) => {
                proof {
                    lemma_first_unsound(all, i + 1);
                }
                return Err(error);
            },
        }
        i = i + 1;
    }
    assert(all.take(i as int) =~= all);
    Ok(())
}

proof fn lemma_first_unsound(tasks: Seq<TaskView>, count: int)
    requires
        0 <= count <= tasks.len(),
        tasks_refusal(tasks.take(count)) is Some,
    ensures
        tasks_refusal(tasks) == tasks_refusal(tasks.take(count)),
    decreases tasks.len(),
{
    if count == tasks.len() {
        assert(tasks.take(count) =~= tasks);
    } else {
        assert(tasks.drop_last().take(count) =~= tasks.take(count));
        lemma_first_unsound(tasks.drop_last(), count);
    }
}

/// Where no task is refused, each one is sound.
pub proof fn lemma_each_task_sound(tasks: Seq<TaskView>, index: int)
    requires
        tasks_refusal(tasks) is None,
        0 <= index < tasks.len(),
    ensures
        tasks[index].valid(),
    decreases tasks.len(),
{
    if index < tasks.len() - 1 {
        lemma_each_task_sound(tasks.drop_last(), index);
    }
}

/// Where each task is sound, none is refused.
pub proof fn lemma_all_tasks_sound(tasks: Seq<TaskView>)
    requires
        forall|i: int| 0 <= i < tasks.len() ==> (#[trigger] tasks[i]).valid(),
    ensures
        tasks_refusal(tasks) is None,
    decreases tasks.len(),
{
    if tasks.len() > 0 {
        assert forall|i: int| 0 <= i < tasks.drop_last().len() implies (
        #[trigger] tasks.drop_last()[i]).valid() by {
            assert(tasks[i].valid());
        }
        lemma_all_tasks_sound(tasks.drop_last());
    }
}

/// Refuses a repeated identifier.
pub fn validate_unique_ids(tasks: &Vec<TaskRecord>) -> (result: Result<(), TaskStoreError>)
    ensures
        result is Ok <==> unique_ids(task_views(tasks@)),
        result matches Err(error) ==> error == TaskStoreError::Corrupt,
{
    let ghost all = task_views(tasks@);
    let mut i: usize = 0;
    while i < tasks.len()
        invariant
            i <= tasks@.len(),
            all == task_views(tasks@),
            forall|a: int, b: int|
                0 <= a < b < i ==> (#[trigger] all[a]).task_id != (#[trigger] all[b]).task_id,
        decreases tasks@.len() - i,
    {
        let mut k: usize = 0;
        while k < i
            invariant
                k <= i < tasks@.len(),
                all == task_views(tasks@),
                forall|a: int| 0 <= a < k ==> (#[trigger] all[a]).task_id != all[i as int].task_id,
            decreases i - k,
        {
            if tasks[k].task_id().same(tasks[i].task_id()) {
                proof {
                    assert(all[k as int].task_id == all[i as int].task_id);
                    assert(!unique_ids(all)) by {
                        let key = |task: TaskView| task.task_id;
                        if unique_ids(all) {
                            assert(key(all[k as int]) != key(all[i as int]));
                        }
                    }
                }
                return Err(TaskStoreError::Corrupt);
            }
            k = k + 1;
        }
        i = i + 1;
    }
    Ok(())
}

/// Refuses a snapshot of another version, with an unsound task or a repeated one.
pub fn validate_snapshot(snapshot: &StoreSnapshot) -> (result: Result<(), TaskStoreError>)
    ensures
        match result {
            Ok(()) => snapshot_refusal(snapshot.format_version, task_views(snapshot.tasks@))
                is None,
            Err(error) => snapshot_refusal(snapshot.format_version, task_views(snapshot.tasks@))
                == Some(error),
        },
{
    if snapshot.format_version != STORE_FORMAT_VERSION {
        return Err(TaskStoreError::UnsupportedVersion(snapshot.format_version));
    }
    match validate_tasks(&snapshot.tasks) {
        Ok(()) => {},
        Err(error) => {
            return Err(TaskStoreError::Model(error));
        },
    }
    validate_unique_ids(&snapshot.tasks)
}

/// Refuses a snapshot file that is no regular file, too long or readable by others.
pub fn check_snapshot_file(regular: bool, length: u64, private: bool) -> (result: Result<
    (),
    TaskStoreError,
>)
    ensures
        match result {
            Ok(()) => regular && length <= MAX_STORE_BYTES && private,
            Err(error) => if !regular || length > MAX_STORE_BYTES {
                error == TaskStoreError::Corrupt
            } else {
                !private && error == TaskStoreError::Io(IoErrorKind::PermissionDenied)
            },
        },
{
    if !regular || length > MAX_STORE_BYTES {
        return Err(TaskStoreError::Corrupt);
    }
    if !private {
        return Err(TaskStoreError::Io(IoErrorKind::PermissionDenied));
    }
    Ok(())
}

/// Inserting keeps every task and adds one.
pub proof fn lemma_insert_keeps(tasks: Seq<TaskView>, task: TaskView)
    ensures
        insert_ordered(tasks, task).to_multiset() == tasks.to_multiset().insert(task),
        insert_ordered(tasks, task).len() == tasks.len() + 1,
    decreases tasks.len(),
{
    broadcast use vstd::seq_lib::group_to_multiset_ensures;

    if tasks.len() == 0 || !text_less(task.task_id, tasks.last().task_id) {
    } else {
        lemma_insert_keeps(tasks.drop_last(), task);
        assert(tasks =~= tasks.drop_last().push(tasks.last()));
    }
}

/// Ordering keeps exactly the same tasks.
pub proof fn ordering_keeps_tasks(tasks: Seq<TaskView>)
    ensures
        ordered(tasks).to_multiset() == tasks.to_multiset(),
        ordered(tasks).len() == tasks.len(),
    decreases tasks.len(),
{
    broadcast use vstd::seq_lib::group_to_multiset_ensures;

    if tasks.len() > 0 {
        ordering_keeps_tasks(tasks.drop_last());
        lemma_insert_keeps(ordered(tasks.drop_last()), tasks.last());
        assert(tasks =~= tasks.drop_last().push(tasks.last()));
    }
}

proof fn lemma_insert_orders(tasks: Seq<TaskView>, task: TaskView)
    requires
        is_ordered(tasks),
    ensures
        is_ordered(insert_ordered(tasks, task)),
        forall|i: int|
            0 <= i < insert_ordered(tasks, task).len() ==> #[trigger] insert_ordered(tasks, task)[i]
                == task || tasks.contains(insert_ordered(tasks, task)[i]),
    decreases tasks.len(),
{
    let result = insert_ordered(tasks, task);
    if tasks.len() == 0 {
    } else if !text_less(task.task_id, tasks.last().task_id) {
        assert forall|i: int, j: int| 0 <= i < j < result.len() implies !text_less(
            (#[trigger] result[j]).task_id,
            (#[trigger] result[i]).task_id,
        ) by {
            if j == tasks.len() && text_less(task.task_id, tasks[i].task_id) {
                let last = tasks.last().task_id;
                lemma_text_less_total(tasks[i].task_id, last);
                if text_less(tasks[i].task_id, last) {
                    lemma_text_less_transitive(task.task_id, tasks[i].task_id, last);
                } else if i < tasks.len() - 1 {
                    assert(!text_less(tasks[tasks.len() - 1].task_id, tasks[i].task_id));
                }
            }
        }
        assert forall|i: int| 0 <= i < result.len() implies #[trigger] result[i] == task
            || tasks.contains(result[i]) by {
            if i < tasks.len() {
                assert(tasks[i] == result[i]);
            }
        }
    } else {
        let front = tasks.drop_last();
        assert(is_ordered(front));
        lemma_insert_orders(front, task);
        lemma_insert_keeps(front, task);
        let inserted = insert_ordered(front, task);
        assert forall|i: int, j: int| 0 <= i < j < result.len() implies !text_less(
            (#[trigger] result[j]).task_id,
            (#[trigger] result[i]).task_id,
        ) by {
            if j == inserted.len() {
                if inserted[i] == task {
                    if text_less(tasks.last().task_id, task.task_id) {
                        lemma_text_less_transitive(
                            task.task_id,
                            tasks.last().task_id,
                            task.task_id,
                        );
                        lemma_text_less_irreflexive(task.task_id);
                    }
                } else {
                    let k = choose|k: int| 0 <= k < front.len() && front[k] == inserted[i];
                    assert(tasks[k] == inserted[i]);
                    assert(!text_less(tasks[tasks.len() - 1].task_id, tasks[k].task_id));
                }
            }
        }
        assert forall|i: int| 0 <= i < result.len() implies #[trigger] result[i] == task
            || tasks.contains(result[i]) by {
            if i < inserted.len() {
                if inserted[i] != task {
                    let k = choose|k: int| 0 <= k < front.len() && front[k] == inserted[i];
                    assert(tasks[k] == inserted[i]);
                }
            } else {
                assert(tasks[tasks.len() - 1] == result[i]);
            }
        }
    }
}

/// Ordering puts the identifiers in order.
pub proof fn ordering_orders(tasks: Seq<TaskView>)
    ensures
        is_ordered(ordered(tasks)),
    decreases tasks.len(),
{
    if tasks.len() > 0 {
        ordering_orders(tasks.drop_last());
        lemma_insert_orders(ordered(tasks.drop_last()), tasks.last());
    }
}

/// Tasks that are in order stay as they are.
pub proof fn ordering_is_stable(tasks: Seq<TaskView>)
    requires
        is_ordered(tasks),
    ensures
        ordered(tasks) == tasks,
    decreases tasks.len(),
{
    if tasks.len() > 0 {
        ordering_is_stable(tasks.drop_last());
        let front = tasks.drop_last();
        if front.len() > 0 {
            assert(!text_less(
                tasks[tasks.len() - 1].task_id,
                tasks[tasks.len() - 2].task_id,
            ));
            assert(front.last() == tasks[tasks.len() - 2]);
        }
        assert(front.push(tasks.last()) =~= tasks);
    }
}

/// Why a selection of new tasks is refused, if it is: the first bad one decides.
pub open spec fn selection_refusal(
    existing: Seq<TaskView>,
    records: Seq<TaskView>,
) -> Option<TaskStoreError>
    decreases records.len(),
{
    if records.len() == 0 {
        None
    } else {
        let earlier = records.drop_last();
        let last = records.last();
        if selection_refusal(existing, earlier) is Some {
            selection_refusal(existing, earlier)
        } else if last.refusal() is Some {
            Some(TaskStoreError::Model(last.refusal()->0))
        } else if last.state != TaskState::Scanning || first_index(
            existing + earlier,
            with_id(last.task_id),
        ) < existing.len() + earlier.len() {
            Some(TaskStoreError::Corrupt)
        } else {
            None
        }
    }
}

/// The events of newly created tasks.
pub open spec fn created_events(records: Seq<TaskView>) -> Seq<EventView> {
    records.map_values(
        |task: TaskView|
            EventView {
                task_id: task.task_id,
                at: task.created_at,
                kind: TaskEventKind::Created,
            },
    )
}

/// The durable tasks of this installation.
#[derive(Debug)]
pub struct TaskStore {
    tasks: Vec<TaskRecord>,
    generation: u64,
    events: TaskEventBuffer,
    poisoned: bool,
}

impl View for TaskStore {
    type V = StoreView;

    closed spec fn view(&self) -> StoreView {
        StoreView {
            tasks: task_views(self.tasks@),
            generation: self.generation,
            events: self.events@,
            poisoned: self.poisoned,
        }
    }
}

fn find_task(tasks: &Vec<TaskRecord>, id: &TaskId) -> (at: usize)
    ensures
        at == first_index(task_views(tasks@), with_id(id@)),
        at <= tasks@.len(),
{
    let ghost all = task_views(tasks@);
    let mut i: usize = 0;
    while i < tasks.len()
        invariant
            i <= tasks@.len(),
            all == task_views(tasks@),
            forall|k: int| 0 <= k < i ==> !with_id(id@)(#[trigger] all[k]),
        decreases tasks@.len() - i,
    {
        if tasks[i].task_id().same(id) {
            proof {
                assert(with_id(id@)(all[i as int]));
                lemma_is_first_index(all, with_id(id@), i as int);
            }
            return i;
        }
        assert(!with_id(id@)(all[i as int]));
        i = i + 1;
    }
    proof {
        lemma_is_first_index(all, with_id(id@), i as int);
    }
    i
}

/// The events of the tasks that a restart interrupted.
pub open spec fn restart_events(ids: Seq<Seq<char>>, tasks: Seq<TaskView>) -> Seq<EventView> {
    ids.map_values(
        |id: Seq<char>|
            EventView {
                task_id: id,
                at: tasks[first_index(tasks, with_id(id))].updated_at,
                kind: TaskEventKind::RecoveredAfterRestart,
            },
    )
}

/// The store as it is after a start with these tasks.
pub open spec fn opened(tasks: Seq<TaskView>, generation: u64, now: i64) -> StoreView {
    let after = tasks.map_values(|task: TaskView| recovered(task, now));
    StoreView {
        tasks: after,
        generation,
        events: push_all(EventsView::empty(), restart_events(active_ids(tasks), after)),
        poisoned: false,
    }
}

proof fn lemma_active_ids_present(tasks: Seq<TaskView>, index: int)
    requires
        0 <= index < active_ids(tasks).len(),
    ensures
        exists|k: int|
            0 <= k < tasks.len() && (#[trigger] tasks[k]).task_id == active_ids(tasks)[index],
    decreases tasks.len(),
{
    let front = tasks.drop_last();
    if index < active_ids(front).len() {
        lemma_active_ids_present(front, index);
        let k = choose|k: int|
            0 <= k < front.len() && (#[trigger] front[k]).task_id == active_ids(front)[index];
        assert(tasks[k].task_id == active_ids(tasks)[index]);
    } else {
        assert(tasks[tasks.len() - 1].task_id == active_ids(tasks)[index]);
    }
}

proof fn lemma_push_all_bounded(buffer: EventsView, events: Seq<EventView>)
    requires
        buffer.bounded(),
    ensures
        push_all(buffer, events).bounded(),
    decreases events.len(),
{
    if events.len() > 0 {
        lemma_push_all_bounded(buffer, events.drop_last());
        let before = push_all(buffer, events.drop_last());
        lemma_first_index(before.events, crate::task_events::any_progress());
        lemma_first_index(
            before.events,
            crate::task_events::progress_of(events.last().task_id),
        );
    }
}

impl TaskStore {
    /// Starts from a stored snapshot, or from nothing. Work that was under way is
    /// interrupted; the result says which tasks, and whether the store must be
    /// written before it is used.
    pub fn open(snapshot: Option<StoreSnapshot>, now: i64) -> (result: Result<
        (TaskStore, StartupRecoveryReport, bool),
        TaskStoreError,
    >)
        ensures
            snapshot is None ==> (result matches Ok((store, report, write)) && store@ == opened(
                Seq::empty(),
                0,
                now,
            ) && report@ == Seq::<Seq<char>>::empty() && write),
            snapshot matches Some(stored) ==> {
                let tasks = task_views(stored.tasks@);
                match result {
                    Ok((store, report, write)) => {
                        &&& snapshot_refusal(stored.format_version, tasks) is None
                        &&& store@ == opened(tasks, stored.generation, now)
                        &&& report@ == active_ids(tasks)
                        &&& write == (active_ids(tasks).len() > 0)
                    },
                    Err(error) => snapshot_refusal(stored.format_version, tasks) == Some(error),
                }
            },
            result matches Ok((store, _, _)) ==> store@.events.bounded(),
    {
        let ghost given = snapshot;
        let mut tasks: Vec<TaskRecord> = Vec::new();
        let mut generation: u64 = 0;
        let mut write: bool = true;
        match snapshot {
            Some(stored) => {
                match validate_snapshot(&stored) {
                    Ok(()) => {},
                    Err(error) => {
                        return Err(error);
                    },
                }
                tasks = stored.tasks;
                generation = stored.generation;
                write = false;
            },
            None => {
                assert(task_views(tasks@) =~= Seq::<TaskView>::empty());
            },
        }
        let ghost before = task_views(tasks@);
        let ghost original = tasks@;
        proof {
            assert(tasks_refusal(before) is None);
            assert forall|i: int| 0 <= i < original.len() implies recovery_refusal(
                (#[trigger] original[i])@,
                now,
            ) is None by {
                lemma_each_task_sound(before, i);
                assert(before[i] == original[i]@);
                crate::task_recovery::startup_recovery_is_total_and_idempotent(before[i], now, now);
            }
        }
        let report = match recover_startup(&mut tasks, now) {
            Ok(report) => report,
            Err(error) => {
                return Err(TaskStoreError::Model(error));
            },
        };
        let ghost after = task_views(tasks@);
        proof {
            assert(after =~= before.map_values(|task: TaskView| recovered(task, now)));
        }
        let mut events = TaskEventBuffer::default();
        let ids = report.interrupted_task_ids();
        let ghost named = id_views(ids@);
        let ghost wanted = restart_events(named, after);
        let mut i: usize = 0;
        assert(wanted.take(0) =~= Seq::<EventView>::empty());
        while i < ids.len()
            invariant
                i <= ids@.len(),
                named == id_views(ids@),
                named == active_ids(before),
                after == task_views(tasks@),
                after.len() == before.len(),
                forall|k: int|
                    0 <= k < before.len() ==> (#[trigger] after[k]).task_id == before[k].task_id,
                wanted == restart_events(named, after),
                events@ == push_all(EventsView::empty(), wanted.take(i as int)),
                events@.bounded(),
            decreases ids@.len() - i,
        {
            let at: usize = find_task(&tasks, &ids[i]);
            proof {
                lemma_active_ids_present(before, i as int);
                let k = choose|k: int|
                    0 <= k < before.len() && (#[trigger] before[k]).task_id == named[i as int];
                assert(after[k].task_id == named[i as int]);
                lemma_first_index(after, with_id(named[i as int]));
                assert(with_id(named[i as int])(after[k]));
                assert(named[i as int] == ids@[i as int]@);
                assert(wanted.take(i + 1).drop_last() =~= wanted.take(i as int));
                assert(after[at as int] == tasks@[at as int]@);
            }
            events.record(
                ids[i].clone(),
                tasks[at].updated_at_unix_ms(),
                TaskEventKind::RecoveredAfterRestart,
            );
            i = i + 1;
        }
        assert(wanted.take(i as int) =~= wanted);
        if ids.len() > 0 {
            write = true;
        }
        let store = TaskStore { tasks, generation, events, poisoned: false };
        Ok((store, report, write))
    }

    /// The tasks, in the order of their identifiers.
    pub fn list(&self) -> (tasks: &Vec<TaskRecord>)
        ensures
            task_views(tasks@) == self@.tasks,
    {
        &self.tasks
    }

    /// The number of commits so far.
    pub fn generation(&self) -> (generation: u64)
        ensures
            generation == self@.generation,
    {
        self.generation
    }

    /// A copy of the task with this identifier.
    pub fn task(&self, task_id: &TaskId) -> (result: Result<TaskRecord, TaskStoreError>)
        ensures
            match result {
                Ok(task) => self@.has(task_id@) && task@ == self@.task(task_id@),
                Err(error) => !self@.has(task_id@) && error == TaskStoreError::TaskNotFound,
            },
    {
        let at: usize = find_task(&self.tasks, task_id);
        if at < self.tasks.len() {
            assert(self@.tasks[at as int] == self.tasks@[at as int]@);
            Ok(self.tasks[at].duplicate())
        } else {
            Err(TaskStoreError::TaskNotFound)
        }
    }

    fn ensure_healthy(&self) -> (result: Result<(), TaskStoreError>)
        ensures
            result is Ok <==> !self@.poisoned,
            result matches Err(error) ==> error == TaskStoreError::CommitUncertain,
    {
        if self.poisoned {
            Err(TaskStoreError::CommitUncertain)
        } else {
            Ok(())
        }
    }

    fn stage(&self, candidate: &Vec<TaskRecord>, events: Vec<TaskEvent>) -> (result: Result<
        PendingCommit,
        TaskStoreError,
    >)
        ensures
            self@.planned(result, None, task_views(candidate@), event_views(events@)),
    {
        match self.ensure_healthy() {
            Ok(()) => {},
            Err(error) => {
                return Err(error);
            },
        }
        let sorted = sort_tasks(candidate);
        match validate_tasks(&sorted) {
            Ok(()) => {},
            Err(error) => {
                return Err(TaskStoreError::Model(error));
            },
        }
        match validate_unique_ids(&sorted) {
            Ok(()) => {},
            Err(error) => {
                return Err(error);
            },
        }
        if self.generation == u64::MAX {
            return Err(TaskStoreError::GenerationExhausted);
        }
        Ok(
            PendingCommit {
                base: Ghost(self@.tasks),
                tasks: sorted,
                generation: self.generation + 1,
                events,
            },
        )
    }

    /// Plans to make a task visible, which it becomes only once it is durable.
    pub fn plan_create(&self, task: TaskRecord) -> (result: Result<PendingCommit, TaskStoreError>)
        ensures
            self@.planned(
                result,
                self@.create_refusal(task@),
                self@.tasks.push(task@),
                created_events(seq![task@]),
            ),
    {
        match self.ensure_healthy() {
            Ok(()) => {},
            Err(error) => {
                return Err(error);
            },
        }
        match task.validate() {
            Ok(()) => {},
            Err(error) => {
                return Err(TaskStoreError::Model(error));
            },
        }
        if task.state() != TaskState::Scanning {
            return Err(TaskStoreError::Model(TaskModelError::NewTaskMustStartScanning));
        }
        let at: usize = find_task(&self.tasks, task.task_id());
        if at < self.tasks.len() {
            return Err(TaskStoreError::Corrupt);
        }
        let mut events: Vec<TaskEvent> = Vec::new();
        events.push(
            TaskEvent::new(task.task_id_owned(), task.created_at_unix_ms(), TaskEventKind::Created),
        );
        assert(event_views(events@) =~= created_events(seq![task@]));
        let mut candidate = duplicate_tasks(&self.tasks);
        let ghost added = task@;
        candidate.push(task);
        assert(task_views(candidate@) =~= self@.tasks.push(added));
        self.stage(&candidate, events)
    }

    /// Plans to make all scanned entries visible together.
    pub fn plan_create_selection(&self, records: &Vec<TaskRecord>) -> (result: Result<
        PendingCommit,
        TaskStoreError,
    >)
        ensures
            self@.planned(
                result,
                selection_refusal(self@.tasks, task_views(records@)),
                self@.tasks + task_views(records@),
                created_events(task_views(records@)),
            ),
    {
        match self.ensure_healthy() {
            Ok(()) => {},
            Err(error) => {
                return Err(error);
            },
        }
        let ghost added = task_views(records@);
        let mut candidate = duplicate_tasks(&self.tasks);
        let mut events: Vec<TaskEvent> = Vec::new();
        let mut i: usize = 0;
        proof {
            assert(added.take(0) =~= Seq::<TaskView>::empty());
            assert(self@.tasks + added.take(0) =~= self@.tasks);
            assert(event_views(events@) =~= created_events(added.take(0)));
        }
        while i < records.len()
            invariant
                i <= records@.len(),
                !self@.poisoned,
                added == task_views(records@),
                task_views(candidate@) == self@.tasks + added.take(i as int),
                event_views(events@) == created_events(added.take(i as int)),
                selection_refusal(self@.tasks, added.take(i as int)) is None,
            decreases records@.len() - i,
        {
            let ghost earlier = added.take(i as int);
            proof {
                assert(added.take(i + 1).drop_last() =~= earlier);
                assert(added.take(i + 1).last() == records@[i as int]@);
                assert(task_views(candidate@).len() == self@.tasks.len() + earlier.len());
            }
            match records[i].validate() {
                Ok(()) => {},
                Err(error) => {
                    proof {
                        lemma_first_selection_refusal(self@.tasks, added, i + 1);
                    }
                    return Err(TaskStoreError::Model(error));
                },
            }
            let at: usize = find_task(&candidate, records[i].task_id());
            if records[i].state() != TaskState::Scanning || at < candidate.len() {
                proof {
                    lemma_first_selection_refusal(self@.tasks, added, i + 1);
                }
                return Err(TaskStoreError::Corrupt);
            }
            let ghost listed = event_views(events@);
            events.push(
                TaskEvent::new(
                    records[i].task_id_owned(),
                    records[i].created_at_unix_ms(),
                    TaskEventKind::Created,
                ),
            );
            let ghost have = task_views(candidate@);
            candidate.push(records[i].duplicate());
            i = i + 1;
            proof {
                assert(added.take(i as int) =~= earlier.push(records@[i - 1]@));
                assert(task_views(candidate@) =~= have.push(records@[i - 1]@));
                assert(task_views(candidate@) =~= self@.tasks + added.take(i as int));
                assert(event_views(events@) =~= listed.push(events@[i - 1]@));
                assert(created_events(added.take(i as int)) =~= created_events(earlier).push(
                    events@[i - 1]@,
                ));
            }
        }
        assert(added.take(i as int) =~= added);
        self.stage(&candidate, events)
    }

    fn with_replaced(&self, at: usize, task: TaskRecord) -> (candidate: Vec<TaskRecord>)
        requires
            at < self@.tasks.len(),
        ensures
            task_views(candidate@) == self@.tasks.update(at as int, task@),
    {
        let mut candidate = duplicate_tasks(&self.tasks);
        let ghost added = task@;
        candidate.set(at, task);
        assert(task_views(candidate@) =~= self@.tasks.update(at as int, added));
        candidate
    }

    /// Plans to move a task to another state.
    pub fn plan_transition(
        &self,
        task_id: &TaskId,
        next: TaskState,
        diagnostic: Option<TaskDiagnostic>,
        now_unix_ms: i64,
    ) -> (result: Result<PendingCommit, TaskStoreError>)
        ensures
            ({
                let after = self@.task(task_id@).moved(next, diagnostic, now_unix_ms);
                self@.planned(
                    result,
                    self@.transition_refusal(task_id@, next, diagnostic, now_unix_ms),
                    self@.replaced(task_id@, after),
                    self@.change_events(task_id@, after.updated_at, next),
                )
            }),
    {
        match self.ensure_healthy() {
            Ok(()) => {},
            Err(error) => {
                return Err(error);
            },
        }
        let at: usize = find_task(&self.tasks, task_id);
        if at >= self.tasks.len() {
            return Err(TaskStoreError::TaskNotFound);
        }
        assert(self@.tasks[at as int] == self.tasks@[at as int]@);
        let mut task = self.tasks[at].duplicate();
        let previous = task.state();
        match task.transition_to(next, diagnostic, now_unix_ms) {
            Ok(()) => {},
            Err(error) => {
                return Err(TaskStoreError::Model(error));
            },
        }
        match task.validate_binding_unchanged(&self.tasks[at]) {
            Ok(()) => {},
            Err(error) => {
                return Err(TaskStoreError::Model(error));
            },
        }
        let mut events: Vec<TaskEvent> = Vec::new();
        events.push(
            TaskEvent::new(
                task_id.clone(),
                task.updated_at_unix_ms(),
                TaskEventKind::StateChanged { from: previous, to: next },
            ),
        );
        let ghost after = task@;
        assert(event_views(events@) =~= seq![
            EventView {
                task_id: task_id@,
                at: after.updated_at,
                kind: TaskEventKind::StateChanged { from: previous, to: next },
            },
        ]);
        let candidate = self.with_replaced(at, task);
        self.stage(&candidate, events)
    }

    /// Plans a durable fence before a task's content is published.
    pub fn plan_prepare_publication(&self, id: &TaskId) -> (result: Result<
        PendingCommit,
        TaskStoreError,
    >)
        ensures
            self@.planned(
                result,
                self@.publication_refusal(id@),
                self@.tasks,
                Seq::<EventView>::empty(),
            ),
    {
        match self.ensure_healthy() {
            Ok(()) => {},
            Err(error) => {
                return Err(error);
            },
        }
        let at: usize = find_task(&self.tasks, id);
        if at >= self.tasks.len() {
            return Err(TaskStoreError::TaskNotFound);
        }
        assert(self@.tasks[at as int] == self.tasks@[at as int]@);
        match self.tasks[at].prepare_publication() {
            Ok(()) => {},
            Err(error) => {
                return Err(TaskStoreError::Model(error));
            },
        }
        let events: Vec<TaskEvent> = Vec::new();
        assert(event_views(events@) =~= Seq::<EventView>::empty());
        self.stage(&self.tasks, events)
    }

    /// Plans to complete a task together with its receipt.
    pub fn plan_commit_receipt(&self, id: &TaskId, now: i64) -> (result: Result<
        PendingCommit,
        TaskStoreError,
    >)
        ensures
            self@.planned(
                result,
                self@.receipt_refusal(id@, now),
                self@.replaced(id@, self@.task(id@).received(now)),
                self@.change_events(id@, now, TaskState::Completed),
            ),
    {
        match self.ensure_healthy() {
            Ok(()) => {},
            Err(error) => {
                return Err(error);
            },
        }
        let at: usize = find_task(&self.tasks, id);
        if at >= self.tasks.len() {
            return Err(TaskStoreError::TaskNotFound);
        }
        assert(self@.tasks[at as int] == self.tasks@[at as int]@);
        let mut task = self.tasks[at].duplicate();
        let from = task.state();
        match task.commit_receipt(now) {
            Ok(()) => {},
            Err(error) => {
                return Err(TaskStoreError::Model(error));
            },
        }
        let mut events: Vec<TaskEvent> = Vec::new();
        events.push(
            TaskEvent::new(
                id.clone(),
                now,
                TaskEventKind::StateChanged { from, to: TaskState::Completed },
            ),
        );
        assert(event_views(events@) =~= seq![
            EventView {
                task_id: id@,
                at: now,
                kind: TaskEventKind::StateChanged { from, to: TaskState::Completed },
            },
        ]);
        let candidate = self.with_replaced(at, task);
        self.stage(&candidate, events)
    }

    /// Keeps a progress sample in memory; it becomes durable with the next commit.
    /// A refused one changes nothing.
    pub fn set_progress_hint(&mut self, task_id: &TaskId, hint: ProgressHint) -> (result: Result<
        (),
        TaskStoreError,
    >)
        requires
            old(self)@.events.bounded(),
        ensures
            match result {
                Ok(()) => {
                    &&& !old(self)@.poisoned
                    &&& old(self)@.has(task_id@)
                    &&& hint_fits(hint, old(self)@.task(task_id@).manifest_identity)
                    &&& final(self)@ == old(self)@.progressed(task_id@, hint)
                },
                Err(error) => final(self)@ == old(self)@ && if old(self)@.poisoned {
                    error == TaskStoreError::CommitUncertain
                } else if !old(self)@.has(task_id@) {
                    error == TaskStoreError::TaskNotFound
                } else {
                    !hint_fits(hint, old(self)@.task(task_id@).manifest_identity) && error
                        == TaskStoreError::Model(TaskModelError::InvalidProgressHint)
                },
            },
            final(self)@.events.bounded(),
    {
        match self.ensure_healthy() {
            Ok(()) => {},
            Err(error) => {
                return Err(error);
            },
        }
        let at: usize = find_task(&self.tasks, task_id);
        if at >= self.tasks.len() {
            return Err(TaskStoreError::TaskNotFound);
        }
        assert(self@.tasks[at as int] == self.tasks@[at as int]@);
        let mut task = self.tasks[at].duplicate();
        match task.set_progress_hint(hint) {
            Ok(()) => {},
            Err(error) => {
                return Err(TaskStoreError::Model(error));
            },
        }
        let ghost before = self@;
        let ghost after = task@;
        self.tasks.set(at, task);
        assert(self@.tasks =~= before.tasks.update(at as int, after));
        self.events.record(
            task_id.clone(),
            hint.sampled_at_unix_ms(),
            TaskEventKind::ProgressHintChanged,
        );
        Ok(())
    }

    /// Plans to make the current tasks durable as they are.
    pub fn plan_flush(&self) -> (result: Result<PendingCommit, TaskStoreError>)
        ensures
            self@.planned(result, None, self@.tasks, Seq::<EventView>::empty()),
    {
        let events: Vec<TaskEvent> = Vec::new();
        assert(event_views(events@) =~= Seq::<EventView>::empty());
        self.stage(&self.tasks, events)
    }

    /// Takes what became of writing a planned change. Only a durable change becomes
    /// visible; after an uncertain one the store refuses every further change.
    pub fn finish(&mut self, commit: PendingCommit, outcome: WriteOutcome) -> (result: Result<
        (),
        TaskStoreError,
    >)
        requires
            old(self)@.events.bounded(),
            commit@.base == old(self)@.tasks,
            commit@.generation == old(self)@.generation + 1,
        ensures
            match outcome {
                WriteOutcome::Written => result is Ok && final(self)@ == old(self)@.written(
                    commit@,
                ),
                WriteOutcome::NotReplaced(kind) => result == Err::<(), _>(TaskStoreError::Io(kind))
                    && final(self)@ == old(self)@,
                WriteOutcome::Uncertain => result == Err::<(), _>(TaskStoreError::CommitUncertain)
                    && final(self)@ == (StoreView { poisoned: true, ..old(self)@ }),
            },
            final(self)@.events.bounded(),
    {
        match outcome {
            WriteOutcome::NotReplaced(kind) => Err(TaskStoreError::Io(kind)),
            WriteOutcome::Uncertain => {
                self.poisoned = true;
                Err(TaskStoreError::CommitUncertain)
            },
            WriteOutcome::Written => {
                let ghost listed = commit@.events;
                let ghost start = self.events@;
                let mut added: Vec<TaskEvent> = commit.events;
                self.tasks = commit.tasks;
                self.generation = commit.generation;
                let mut i: usize = 0;
                assert(listed.take(0) =~= Seq::<EventView>::empty());
                while i < added.len()
                    invariant
                        i <= added@.len(),
                        listed == event_views(added@),
                        self.tasks == commit.tasks,
                        self.generation == commit.generation,
                        self.poisoned == old(self).poisoned,
                        self.events@ == push_all(start, listed.take(i as int)),
                        self.events@.bounded(),
                    decreases added@.len() - i,
                {
                    assert(listed.take(i + 1).drop_last() =~= listed.take(i as int));
                    assert(listed[i as int] == added@[i as int]@);
                    self.events.record(
                        added[i].task_id().clone(),
                        added[i].at_unix_ms(),
                        added[i].kind(),
                    );
                    i = i + 1;
                }
                assert(listed.take(i as int) =~= listed);
                Ok(())
            },
        }
    }

    /// Hands out all waiting events, oldest first.
    pub fn drain_events(&mut self) -> (events: Vec<TaskEvent>)
        ensures
            event_views(events@) == old(self)@.events.events,
            final(self)@ == (StoreView {
                events: EventsView { events: Seq::empty(), ..old(self)@.events },
                ..old(self)@
            }),
    {
        self.events.drain()
    }

    /// Whether events were lost since the last call.
    pub fn take_resync_required(&mut self) -> (required: bool)
        ensures
            required == old(self)@.events.resync_required,
            final(self)@ == (StoreView {
                events: EventsView { resync_required: false, ..old(self)@.events },
                ..old(self)@
            }),
    {
        self.events.take_resync_required()
    }
}

proof fn lemma_first_selection_refusal(
    existing: Seq<TaskView>,
    records: Seq<TaskView>,
    count: int,
)
    requires
        0 <= count <= records.len(),
        selection_refusal(existing, records.take(count)) is Some,
    ensures
        selection_refusal(existing, records) == selection_refusal(existing, records.take(count)),
    decreases records.len(),
{
    if count == records.len() {
        assert(records.take(count) =~= records);
    } else {
        assert(records.drop_last().take(count) =~= records.take(count));
        lemma_first_selection_refusal(existing, records.drop_last(), count);
    }
}

/// The stored source of a task that sends and may be continued.
pub fn sender_recovery(store: &TaskStore, task_id: &TaskId) -> (result: Result<
    SenderRecovery,
    TaskStoreError,
>)
    ensures
        ({
            let task = store@.task(task_id@);
            match result {
                Ok(recovery) => store@.has(task_id@) && task.direction
                    == crate::task_model::TaskDirection::Send && task.continuable() && recovery@
                    == (SenderRecoveryView {
                    task_id: task.task_id,
                    peer_id: task.peer_id,
                    source_path: task.local_path.path(),
                    manifest_identity: task.manifest_identity,
                    state: task.state,
                }),
                Err(error) => if !store@.has(task_id@) {
                    error == TaskStoreError::TaskNotFound
                } else if task.direction != crate::task_model::TaskDirection::Send {
                    error == TaskStoreError::Model(TaskModelError::WrongDirection)
                } else {
                    !task.continuable() && error == TaskStoreError::Model(
                        TaskModelError::NotRecoverable,
                    )
                },
            }
        }),
{
    match store.task(task_id) {
        Ok(task) => match sender_recovery_of(&task) {
            Ok(recovery) => Ok(recovery),
            Err(error) => Err(TaskStoreError::Model(error)),
        },
        Err(error) => Err(error),
    }
}

/// The stored receive root of a task that receives and may be continued.
pub fn receiver_recovery(store: &TaskStore, task_id: &TaskId) -> (result: Result<
    ReceiverRecovery,
    TaskStoreError,
>)
    ensures
        ({
            let task = store@.task(task_id@);
            match result {
                Ok(recovery) => store@.has(task_id@) && task.direction
                    == crate::task_model::TaskDirection::Receive && task.continuable() && recovery@
                    == (ReceiverRecoveryView {
                    task_id: task.task_id,
                    peer_id: task.peer_id,
                    receive_root: task.local_path.path(),
                    manifest_identity: task.manifest_identity,
                    state: task.state,
                }),
                Err(error) => if !store@.has(task_id@) {
                    error == TaskStoreError::TaskNotFound
                } else if task.direction != crate::task_model::TaskDirection::Receive {
                    error == TaskStoreError::Model(TaskModelError::WrongDirection)
                } else {
                    !task.continuable() && error == TaskStoreError::Model(
                        TaskModelError::NotRecoverable,
                    )
                },
            }
        }),
{
    match store.task(task_id) {
        Ok(task) => match receiver_recovery_of(&task) {
            Ok(recovery) => Ok(recovery),
            Err(error) => Err(TaskStoreError::Model(error)),
        },
        Err(error) => Err(error),
    }
}

/// A written commit of a valid store leaves it valid, one generation further.
pub proof fn commits_keep_the_store_valid(
    store: StoreView,
    candidate: Seq<TaskView>,
    events: Seq<EventView>,
    after: StoreView,
)
    requires
        store.valid(),
        store.commit_refusal(candidate) is None,
        after == (StoreView {
            tasks: store.commit(candidate, events).tasks,
            generation: store.commit(candidate, events).generation,
            events: push_all(store.events, events),
            poisoned: store.poisoned,
        }),
    ensures
        after.valid(),
        after.generation == store.generation + 1,
        after.tasks.to_multiset() == candidate.to_multiset(),
{
    ordering_orders(candidate);
    ordering_keeps_tasks(candidate);
    lemma_push_all_bounded(store.events, events);
}

/// Replacing a task of a valid store by a sound one with the same identifier is
/// always committable, and every other task stays where it is.
pub proof fn replacing_touches_one_task(store: StoreView, id: Seq<char>, task: TaskView, index: int)
    requires
        store.valid(),
        store.has(id),
        task.valid(),
        task.task_id == id,
        0 <= index < store.tasks.len(),
        index != store.position(id),
    ensures
        ordered(store.replaced(id, task)) == store.replaced(id, task),
        tasks_refusal(store.replaced(id, task)) is None,
        unique_ids(store.replaced(id, task)),
        store.replaced(id, task)[index] == store.tasks[index],
        store.replaced(id, task)[store.position(id)] == task,
{
    let at = store.position(id);
    let after = store.replaced(id, task);
    lemma_first_index(store.tasks, with_id(id));
    assert(store.tasks[at].task_id == id);
    assert forall|i: int| 0 <= i < after.len() implies (#[trigger] after[i]).task_id
        == store.tasks[i].task_id by {}
    assert(is_ordered(after));
    ordering_is_stable(after);
    assert forall|i: int| 0 <= i < after.len() implies (#[trigger] after[i]).valid() by {
        if i != at {
            lemma_each_task_sound(store.tasks, i);
        }
    }
    lemma_all_tasks_sound(after);
    let key = |view: TaskView| view.task_id;
    assert forall|i: int, j: int| 0 <= i < j < after.len() implies key(#[trigger] after[i]) != key(
        #[trigger] after[j],
    ) by {
        assert(key(store.tasks[i]) != key(store.tasks[j]));
    }
}

/// A transition that the record allows is refused by a healthy, valid store only
/// where its generations are used up; it changes that task alone and keeps its
/// identifier.
pub proof fn allowed_transitions_are_committable(
    store: StoreView,
    id: Seq<char>,
    next: TaskState,
    diagnostic: Option<TaskDiagnostic>,
    now: i64,
)
    requires
        store.valid(),
        !store.poisoned,
        store.transition_refusal(id, next, diagnostic, now) is None,
        store.generation < u64::MAX,
    ensures
        store.commit_refusal(
            store.replaced(id, store.task(id).moved(next, diagnostic, now)),
        ) is None,
        store.task(id).moved(next, diagnostic, now).task_id == id,
{
    lemma_first_index(store.tasks, with_id(id));
    let task = store.task(id).moved(next, diagnostic, now);
    let at = store.position(id);
    lemma_each_task_sound(store.tasks, at);
    crate::task_record::transitions_follow_the_table(store.task(id), next, diagnostic, now);
    let after = store.replaced(id, task);
    if store.tasks.len() > 1 {
        let other = if at == 0 {
            1int
        } else {
            0int
        };
        replacing_touches_one_task(store, id, task, other);
    } else {
        assert(after =~= seq![task]);
        assert(is_ordered(after));
        ordering_is_stable(after);
        lemma_all_tasks_sound(after);
        assert(unique_ids(after));
    }
}

/// A start from a valid snapshot in order gives a valid store with nothing under way.
pub proof fn opening_gives_a_valid_idle_store(tasks: Seq<TaskView>, generation: u64, now: i64)
    requires
        snapshot_refusal(STORE_FORMAT_VERSION, tasks) is None,
        is_ordered(tasks),
    ensures
        opened(tasks, generation, now).valid(),
        forall|i: int|
            0 <= i < tasks.len() ==> !(#[trigger] opened(
                tasks,
                generation,
                now,
            ).tasks[i]).state.active(),
{
    let after = opened(tasks, generation, now).tasks;
    assert forall|i: int| 0 <= i < after.len() implies (#[trigger] after[i]).valid() && after[i]
        == recovered(tasks[i], now) && after[i].task_id == tasks[i].task_id
        && !after[i].state.active() by {
        lemma_each_task_sound(tasks, i);
        crate::task_recovery::startup_recovery_is_total_and_idempotent(tasks[i], now, now);
    }
    lemma_all_tasks_sound(after);
    let key = |view: TaskView| view.task_id;
    assert forall|i: int, j: int| 0 <= i < j < after.len() implies key(#[trigger] after[i]) != key(
        #[trigger] after[j],
    ) by {
        assert(key(tasks[i]) != key(tasks[j]));
    }
    lemma_push_all_bounded(EventsView::empty(), restart_events(active_ids(tasks), after));
}

/// Once a commit is uncertain, no change can be planned any more.
pub proof fn uncertain_stores_refuse_everything(
    store: StoreView,
    result: Result<PendingCommit, TaskStoreError>,
    refusal: Option<TaskStoreError>,
    candidate: Seq<TaskView>,
    events: Seq<EventView>,
)
    requires
        store.poisoned,
        store.planned(result, refusal, candidate, events),
    ensures
        result == Err::<PendingCommit, _>(TaskStoreError::CommitUncertain),
{
}

proof fn lemma_found_at(store: StoreView, at: int)
    requires
        unique_ids(store.tasks),
        0 <= at < store.tasks.len(),
    ensures
        store.has(store.tasks[at].task_id),
        store.position(store.tasks[at].task_id) == at,
        store.task(store.tasks[at].task_id) == store.tasks[at],
{
    let key = |view: TaskView| view.task_id;
    let wanted = with_id(store.tasks[at].task_id);
    assert(wanted(store.tasks[at]));
    assert forall|j: int| 0 <= j < at implies !wanted(#[trigger] store.tasks[j]) by {
        assert(key(store.tasks[j]) != key(store.tasks[at]));
    }
    crate::lists::lemma_is_first_index(store.tasks, wanted, at);
}

proof fn lemma_push_all_one(buffer: EventsView, event: EventView)
    ensures
        push_all(buffer, seq![event]) == buffer.pushed(event),
{
    reveal_with_fuel(push_all, 2);
    assert(seq![event].drop_last() =~= Seq::<EventView>::empty());
}

/// A task that is allowed to change its state has the new one once the change is written,
/// and what it was and has become is told. Every other task stays as it is.
pub proof fn transitions_are_made_durable(
    store: StoreView,
    id: Seq<char>,
    next: TaskState,
    diagnostic: Option<TaskDiagnostic>,
    now: i64,
    other: Seq<char>,
)
    requires
        store.valid(),
        !store.poisoned,
        store.transition_refusal(id, next, diagnostic, now) is None,
        store.generation < u64::MAX,
        other != id,
    ensures
        ({
            let task = store.task(id).moved(next, diagnostic, now);
            let events = store.change_events(id, task.updated_at, next);
            let after = store.written(store.commit(store.replaced(id, task), events));
            &&& store.commit_refusal(store.replaced(id, task)) is None
            &&& after.has(id)
            &&& after.task(id) == task
            &&& after.task(id).state == next
            &&& after.generation == store.generation + 1
            &&& after.has(other) == store.has(other)
            &&& store.has(other) ==> after.task(other) == store.task(other)
            &&& events.len() == 1
            &&& events[0].task_id == id
            &&& events[0].at == task.updated_at
            &&& events[0].kind == TaskEventKind::StateChanged {
                from: store.task(id).state,
                to: after.task(id).state,
            }
            &&& after.events == store.events.pushed(events[0])
        }),
{
    let task = store.task(id).moved(next, diagnostic, now);
    let events = store.change_events(id, task.updated_at, next);
    allowed_transitions_are_committable(store, id, next, diagnostic, now);
    lemma_replacement_written(store, id, task, events, other);
    lemma_push_all_one(store.events, events[0]);
}

proof fn lemma_replacement_written(
    store: StoreView,
    id: Seq<char>,
    task: TaskView,
    events: Seq<EventView>,
    other: Seq<char>,
)
    requires
        store.valid(),
        store.has(id),
        task.valid(),
        task.task_id == id,
        other != id,
    ensures
        ({
            let after = store.written(store.commit(store.replaced(id, task), events));
            &&& after.tasks == store.replaced(id, task)
            &&& after.has(id)
            &&& after.task(id) == task
            &&& after.has(other) == store.has(other)
            &&& store.has(other) ==> after.task(other) == store.task(other)
        }),
{
    let after = store.written(store.commit(store.replaced(id, task), events));
    let at = store.position(id);
    let replaced = store.replaced(id, task);
    lemma_first_index(store.tasks, with_id(id));
    assert(with_id(id)(store.tasks[at]));
    if store.tasks.len() > 1 {
        let index = if at == 0 {
            1int
        } else {
            0int
        };
        replacing_touches_one_task(store, id, task, index);
    } else {
        assert(replaced =~= seq![task]);
        assert(is_ordered(replaced));
        ordering_is_stable(replaced);
        assert(unique_ids(replaced));
    }
    assert(after.tasks == replaced);
    lemma_found_at(after, at);
    lemma_first_index(store.tasks, with_id(other));
    let place = store.position(other);
    assert forall|k: int| 0 <= k < place implies !with_id(other)(#[trigger] after.tasks[k]) by {
        assert(!with_id(other)(store.tasks[k]));
    }
    if store.has(other) {
        assert(with_id(other)(store.tasks[place]));
        assert(after.tasks[place] == store.tasks[place]);
    }
    crate::lists::lemma_is_first_index(after.tasks, with_id(other), place);
}

/// A receipt completes its task durably, and the completion is told. Every other task
/// stays as it is.
pub proof fn receipts_are_made_durable(
    store: StoreView,
    id: Seq<char>,
    now: i64,
    other: Seq<char>,
)
    requires
        store.valid(),
        !store.poisoned,
        store.has(id),
        store.task(id).publishable(),
        store.generation < u64::MAX,
        other != id,
    ensures
        ({
            let task = store.task(id).received(now);
            let events = store.change_events(id, now, TaskState::Completed);
            let after = store.written(store.commit(store.replaced(id, task), events));
            &&& store.receipt_refusal(id, now) is None
            &&& store.commit_refusal(store.replaced(id, task)) is None
            &&& after.has(id)
            &&& after.task(id).state == TaskState::Completed
            &&& after.task(id).details.receipt()
            &&& after.has(other) == store.has(other)
            &&& store.has(other) ==> after.task(other) == store.task(other)
            &&& events.len() == 1
            &&& events[0].task_id == id
            &&& events[0].kind == TaskEventKind::StateChanged {
                from: TaskState::Finalizing,
                to: TaskState::Completed,
            }
        }),
{
    let task = store.task(id).received(now);
    let at = store.position(id);
    lemma_first_index(store.tasks, with_id(id));
    assert(with_id(id)(store.tasks[at]));
    lemma_each_task_sound(store.tasks, at);
    crate::task_record::receipts_are_final(store.task(id), now, TaskState::Completed, now);
    lemma_replacement_written(
        store,
        id,
        task,
        store.change_events(id, now, TaskState::Completed),
        other,
    );
    let replaced = store.replaced(id, task);
    if store.tasks.len() > 1 {
        let index = if at == 0 {
            1int
        } else {
            0int
        };
        replacing_touches_one_task(store, id, task, index);
    } else {
        assert(replaced =~= seq![task]);
        assert(is_ordered(replaced));
        ordering_is_stable(replaced);
        lemma_all_tasks_sound(replaced);
        assert(unique_ids(replaced));
    }
}

/// A sound new task is there once it is written, as it was given, and its creation is
/// told; the tasks that were there stay as they are.
pub proof fn created_tasks_are_there(store: StoreView, task: TaskView, other: Seq<char>)
    requires
        store.valid(),
        !store.poisoned,
        store.generation < u64::MAX,
        store.create_refusal(task) is None,
        other != task.task_id,
    ensures
        ({
            let events = created_events(seq![task]);
            let after = store.written(store.commit(store.tasks.push(task), events));
            &&& store.commit_refusal(store.tasks.push(task)) is None
            &&& after.valid()
            &&& after.has(task.task_id)
            &&& after.task(task.task_id) == task
            &&& after.has(other) == store.has(other)
            &&& store.has(other) ==> after.task(other) == store.task(other)
            &&& events.len() == 1
            &&& events[0].task_id == task.task_id
            &&& events[0].kind == TaskEventKind::Created
        }),
{
    let candidate = store.tasks.push(task);
    let key = |view: TaskView| view.task_id;
    lemma_first_index(store.tasks, with_id(task.task_id));
    assert(unique_ids(candidate)) by {
        assert forall|i: int, j: int| 0 <= i < j < candidate.len() implies key(
            #[trigger] candidate[i],
        ) != key(#[trigger] candidate[j]) by {
            if j == store.tasks.len() {
                assert(!with_id(task.task_id)(store.tasks[i]));
            } else {
                assert(key(store.tasks[i]) != key(store.tasks[j]));
            }
        }
    }
    assert forall|i: int| 0 <= i < candidate.len() implies (#[trigger] candidate[i]).valid() by {
        if i < store.tasks.len() {
            lemma_each_task_sound(store.tasks, i);
        }
    }
    lemma_all_tasks_sound(candidate);
    lemma_ordering_committable(store, candidate);
    let events = created_events(seq![task]);
    let after = store.written(store.commit(candidate, events));
    commits_keep_the_store_valid(store, candidate, events, after);
    assert(candidate[store.tasks.len() as int] == task);
    lemma_committed_task(store, candidate, events, store.tasks.len() as int);
    if store.has(other) {
        lemma_first_index(store.tasks, with_id(other));
        let place = store.position(other);
        assert(with_id(other)(store.tasks[place]));
        assert(candidate[place] == store.tasks[place]);
        lemma_committed_task(store, candidate, events, place);
    } else {
        if after.has(other) {
            lemma_first_index(after.tasks, with_id(other));
            let found = after.position(other);
            assert(with_id(other)(after.tasks[found]));
            lemma_committed_from(store, candidate, events, found);
            let k = choose|k: int|
                0 <= k < candidate.len() && #[trigger] candidate[k] == after.tasks[found];
            assert(k < store.tasks.len());
            lemma_first_index(store.tasks, with_id(other));
            assert(!with_id(other)(store.tasks[k]));
        }
    }
}

proof fn lemma_ordering_committable(store: StoreView, candidate: Seq<TaskView>)
    requires
        !store.poisoned,
        store.generation < u64::MAX,
        unique_ids(candidate),
        tasks_refusal(candidate) is None,
    ensures
        store.commit_refusal(candidate) is None,
{
    let sorted = ordered(candidate);
    ordering_keeps_tasks(candidate);
    assert forall|i: int| 0 <= i < sorted.len() implies (#[trigger] sorted[i]).valid() by {
        let k = lemma_multiset_index(sorted, candidate, i);
        lemma_each_task_sound(candidate, k);
    }
    lemma_all_tasks_sound(sorted);
    let key = |view: TaskView| view.task_id;
    assert(candidate.no_duplicates()) by {
        assert forall|i: int, j: int|
            0 <= i < candidate.len() && 0 <= j < candidate.len() && i != j implies candidate[i]
            != candidate[j] by {
            if i < j {
                assert(key(candidate[i]) != key(candidate[j]));
            } else {
                assert(key(candidate[j]) != key(candidate[i]));
            }
        }
    }
    candidate.lemma_multiset_has_no_duplicates();
    assert forall|x: TaskView| sorted.to_multiset().contains(x) implies #[trigger]
    sorted.to_multiset().count(x) == 1 by {
        assert(candidate.to_multiset().contains(x));
        assert(candidate.to_multiset().count(x) == 1);
    }
    sorted.lemma_multiset_has_no_duplicates_conv();
    assert forall|i: int, j: int| 0 <= i < j < sorted.len() implies key(#[trigger] sorted[i]) != key(
        #[trigger] sorted[j],
    ) by {
        let a = lemma_multiset_index(sorted, candidate, i);
        let b = lemma_multiset_index(sorted, candidate, j);
        assert(sorted[i] != sorted[j]);
        if a < b {
            assert(key(candidate[a]) != key(candidate[b]));
        } else {
            assert(key(candidate[b]) != key(candidate[a]));
        }
    }
}

proof fn lemma_multiset_index(left: Seq<TaskView>, right: Seq<TaskView>, at: int) -> (found: int)
    requires
        left.to_multiset() == right.to_multiset(),
        0 <= at < left.len(),
    ensures
        0 <= found < right.len(),
        right[found] == left[at],
{
    broadcast use vstd::seq_lib::group_to_multiset_ensures;

    assert(left.to_multiset().count(left[at]) > 0);
    assert(right.contains(left[at]));
    choose|found: int| 0 <= found < right.len() && right[found] == left[at]
}

proof fn lemma_committed_task(
    store: StoreView,
    candidate: Seq<TaskView>,
    events: Seq<EventView>,
    at: int,
)
    requires
        store.commit_refusal(candidate) is None,
        0 <= at < candidate.len(),
    ensures
        ({
            let after = store.written(store.commit(candidate, events));
            after.has(candidate[at].task_id) && after.task(candidate[at].task_id) == candidate[at]
        }),
{
    let after = store.written(store.commit(candidate, events));
    ordering_keeps_tasks(candidate);
    let k = lemma_multiset_index(candidate, after.tasks, at);
    lemma_found_at(after, k);
}

proof fn lemma_committed_from(
    store: StoreView,
    candidate: Seq<TaskView>,
    events: Seq<EventView>,
    at: int,
)
    requires
        0 <= at < store.written(store.commit(candidate, events)).tasks.len(),
    ensures
        exists|k: int|
            0 <= k < candidate.len() && #[trigger] candidate[k] == store.written(
                store.commit(candidate, events),
            ).tasks[at],
{
    let after = store.written(store.commit(candidate, events));
    ordering_keeps_tasks(candidate);
    let k = lemma_multiset_index(after.tasks, candidate, at);
    assert(candidate[k] == after.tasks[at]);
}

/// All entries of a selection are there once it is written, each as it was given and told
/// of as created, and so are the tasks that were there before.
pub proof fn selections_are_there_together(
    store: StoreView,
    records: Seq<TaskView>,
    at: int,
    other: Seq<char>,
)
    requires
        !store.poisoned,
        store.commit_refusal(store.tasks + records) is None,
        0 <= at < records.len(),
    ensures
        ({
            let events = created_events(records);
            let after = store.written(store.commit(store.tasks + records, events));
            &&& after.has(records[at].task_id)
            &&& after.task(records[at].task_id) == records[at]
            &&& store.has(other) ==> after.has(other) && after.task(other) == store.task(other)
            &&& events.len() == records.len()
            &&& events[at].task_id == records[at].task_id
            &&& events[at].kind == TaskEventKind::Created
        }),
{
    let candidate = store.tasks + records;
    let events = created_events(records);
    assert(candidate[store.tasks.len() + at] == records[at]);
    lemma_committed_task(store, candidate, events, store.tasks.len() + at);
    if store.has(other) {
        lemma_first_index(store.tasks, with_id(other));
        let place = store.position(other);
        assert(with_id(other)(store.tasks[place]));
        assert(candidate[place] == store.tasks[place]);
        lemma_committed_task(store, candidate, events, place);
    }
}

/// Progress changes nothing but the progress of its task, is told, and is not written: no
/// generation passes.
pub proof fn progress_is_not_written(
    store: StoreView,
    id: Seq<char>,
    hint: ProgressHint,
    other: Seq<char>,
)
    requires
        store.valid(),
        store.has(id),
        other != id,
    ensures
        ({
            let after = store.progressed(id, hint);
            &&& after.generation == store.generation
            &&& after.poisoned == store.poisoned
            &&& after.has(id)
            &&& after.task(id).progress_hint == Some(hint)
            &&& after.task(id).state == store.task(id).state
            &&& after.task(id).same_binding(store.task(id))
            &&& after.has(other) == store.has(other)
            &&& store.has(other) ==> after.task(other) == store.task(other)
            &&& after.events == store.events.pushed(
                EventView {
                    task_id: id,
                    at: hint.sampled_at_unix_ms,
                    kind: TaskEventKind::ProgressHintChanged,
                },
            )
        }),
{
    let after = store.progressed(id, hint);
    let at = store.position(id);
    let place = store.position(other);
    lemma_first_index(store.tasks, with_id(id));
    lemma_first_index(store.tasks, with_id(other));
    assert(with_id(id)(store.tasks[at]));
    assert(with_id(id)(after.tasks[at]));
    assert forall|k: int| 0 <= k < at implies !with_id(id)(#[trigger] after.tasks[k]) by {
        assert(!with_id(id)(store.tasks[k]));
    }
    crate::lists::lemma_is_first_index(after.tasks, with_id(id), at);
    assert forall|k: int| 0 <= k < place implies !with_id(other)(#[trigger] after.tasks[k]) by {
        assert(!with_id(other)(store.tasks[k]));
    }
    if store.has(other) {
        assert(with_id(other)(store.tasks[place]));
        assert(after.tasks[place] == store.tasks[place]);
    }
    crate::lists::lemma_is_first_index(after.tasks, with_id(other), place);
}

/// New tasks are scanning, sound, and of an identifier that is not in use.
pub proof fn new_tasks_are_scanning(store: StoreView, task: TaskView)
    ensures
        store.create_refusal(task) is None <==> task.valid() && task.state == TaskState::Scanning
            && !store.has(task.task_id),
{
}

/// A stored snapshot is accepted if it has this version, its tasks are sound, and no two
/// of them have one identifier.
pub proof fn snapshots_are_judged(version: u32, tasks: Seq<TaskView>)
    ensures
        snapshot_refusal(version, tasks) is None <==> version == 1 && unique_ids(tasks) && forall|
            i: int,
        |
            0 <= i < tasks.len() ==> (#[trigger] tasks[i]).valid(),
{
    if tasks_refusal(tasks) is None {
        assert forall|i: int| 0 <= i < tasks.len() implies (#[trigger] tasks[i]).valid() by {
            lemma_each_task_sound(tasks, i);
        }
    } else if forall|i: int| 0 <= i < tasks.len() ==> (#[trigger] tasks[i]).valid() {
        lemma_all_tasks_sound(tasks);
    }
}

/// A store that was opened holds every stored task, can be written, and tells of the tasks
/// that were running.
pub proof fn opened_stores_can_be_used(tasks: Seq<TaskView>, generation: u64, now: i64, at: int)
    requires
        0 <= at < tasks.len(),
    ensures
        ({
            let store = opened(tasks, generation, now);
            &&& !store.poisoned
            &&& store.generation == generation
            &&& store.tasks.len() == tasks.len()
            &&& store.tasks[at].task_id == tasks[at].task_id
            &&& store.tasks[at].details == tasks[at].details
            &&& !tasks[at].state.active() ==> store.tasks[at] == tasks[at]
            &&& tasks[at].state.active() ==> store.tasks[at].state == TaskState::Interrupted
        }),
{
}

/// A file is published exactly if its task is there and has come that far.
pub proof fn publications_need_their_task(store: StoreView, id: Seq<char>)
    ensures
        store.publication_refusal(id) is None <==> store.has(id) && store.task(id).publishable(),
        !store.has(id) ==> store.publication_refusal(id) == Some(TaskStoreError::TaskNotFound),
{
}

/// A selection is refused as soon as one of its tasks cannot be added: it is unsound, was
/// worked on already, or has the name of another.
pub proof fn selections_are_refused_together(
    existing: Seq<TaskView>,
    records: Seq<TaskView>,
    at: int,
)
    requires
        selection_refusal(existing, records) is None,
        0 <= at < records.len(),
    ensures
        records[at].valid(),
        records[at].state == TaskState::Scanning,
        forall|k: int|
            0 <= k < existing.len() ==> (#[trigger] existing[k]).task_id != records[at].task_id,
        forall|k: int|
            0 <= k < at ==> (#[trigger] records[k]).task_id != records[at].task_id,
    decreases records.len(),
{
    let earlier = records.drop_last();
    if at < earlier.len() {
        selections_are_refused_together(existing, earlier, at);
        assert(earlier[at] == records[at]);
        assert forall|k: int| 0 <= k < at implies (#[trigger] records[k]).task_id
            != records[at].task_id by {
            assert(earlier[k] == records[k]);
        }
    } else {
        let all = existing + earlier;
        let wanted = with_id(records[at].task_id);
        lemma_first_index(all, wanted);
        assert forall|k: int| 0 <= k < existing.len() implies (#[trigger] existing[k]).task_id
            != records[at].task_id by {
            assert(!wanted(all[k]));
        }
        assert forall|k: int| 0 <= k < at implies (#[trigger] records[k]).task_id
            != records[at].task_id by {
            assert(all[existing.len() + k] == records[k]);
            assert(!wanted(all[existing.len() + k]));
        }
    }
}

} // verus!
