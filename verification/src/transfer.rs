//! Which transfers may run, what their failures mean, and how one is continued.

use vstd::prelude::*;

use crate::error::{decided, failure, Error, IoErrorKind, Result};
use crate::identity::NodeId;
use crate::lists::{distinct, first_index, lemma_is_first_index};
use crate::protocol::{
    Actor, Entry, ErrorCode, Frame, Message, TaskProtocol, RECEIPT_VERSION,
};
use crate::task_model::{TaskDiagnostic, TaskDirection, TaskErrorCode, TaskId, TaskState};
use crate::task_record::{TaskDetails, TaskRecord, TaskView};
use crate::task_recovery::{id_views, task_views};
use crate::task_store::TaskStore;
use crate::text::{contains_text, occurs};

verus! {

/// How long a transfer may be silent, in milliseconds.
pub const IDLE_TIMEOUT_MS: u64 = 30000;

/// How long a pause may wait for its acknowledgement, in milliseconds.
pub const PAUSE_TIMEOUT_MS: u64 = 5000;

/// How often progress is noted, in milliseconds.
pub const PROGRESS_INTERVAL_MS: u64 = 250;

/// How many chunks may be on their way.
pub const WINDOW: usize = 4;

/// How many transfers may run at once.
pub const MAX_ACTIVE: usize = 3;

/// How many streams of a peer are served at once.
pub const MAX_STREAMS: usize = 8;

/// Whether a failure is one of the connection.
pub open spec fn is_connection_kind(kind: IoErrorKind) -> bool {
    ||| kind == IoErrorKind::BrokenPipe
    ||| kind == IoErrorKind::UnexpectedEof
    ||| kind == IoErrorKind::ConnectionAborted
    ||| kind == IoErrorKind::ConnectionReset
    ||| kind == IoErrorKind::NotConnected
    ||| kind == IoErrorKind::TimedOut
}

/// Whether a failure is one of the disk.
pub open spec fn storage_failed(error: Error) -> bool {
    match error {
        Error::Io { kind, .. } => !is_connection_kind(kind),
        Error::Protocol(text) => occurs(text@, "存储"@) || occurs(text@, "发布"@) || occurs(
            text@,
            "接收目标已存在"@,
        ) || occurs(text@, "接收根目录"@),
    }
}

/// Whether a failure is one of the disk.
pub fn is_storage_error(error: &Error) -> (storage: bool)
    ensures
        storage == storage_failed(*error),
{
    match error {
        Error::Io { kind, .. } => !matches!(
            kind,
            IoErrorKind::BrokenPipe | IoErrorKind::UnexpectedEof | IoErrorKind::ConnectionAborted
                | IoErrorKind::ConnectionReset | IoErrorKind::NotConnected | IoErrorKind::TimedOut
        ),
        Error::Protocol(text) => contains_text(text, "存储") || contains_text(text, "发布")
            || contains_text(text, "接收目标已存在") || contains_text(text, "接收根目录"),
    }
}

/// What a failure is called towards the peer.
pub open spec fn code_of(error: Error) -> ErrorCode {
    if occurs(error.message(), "源文件内容已变化"@) {
        ErrorCode::SourceChanged
    } else if occurs(error.message(), "源文件不可用"@) {
        ErrorCode::SourceMissing
    } else if storage_failed(error) {
        ErrorCode::Storage
    } else {
        ErrorCode::Interrupted
    }
}

/// What a failure is called towards the peer.
pub fn error_code(error: &Error) -> (code: ErrorCode)
    ensures
        code == code_of(*error),
{
    if contains_text(error.text(), "源文件内容已变化") {
        ErrorCode::SourceChanged
    } else if contains_text(error.text(), "源文件不可用") {
        ErrorCode::SourceMissing
    } else if is_storage_error(error) {
        ErrorCode::Storage
    } else {
        ErrorCode::Interrupted
    }
}

/// What a failure that the peer names means here.
pub open spec fn remote_text(code: ErrorCode) -> Seq<char> {
    match code {
        ErrorCode::SourceChanged => "源文件内容已变化"@,
        ErrorCode::SourceMissing => "源文件不可用"@,
        ErrorCode::Storage => "对端存储不可用"@,
        _ => "对端传输中断"@,
    }
}

/// What a failure that the peer names means here.
pub fn remote_error(code: ErrorCode) -> (error: Error)
    ensures
        error.refuses(remote_text(code)),
{
    failure(
        match code {
            ErrorCode::SourceChanged => "源文件内容已变化",
            ErrorCode::SourceMissing => "源文件不可用",
            ErrorCode::Storage => "对端存储不可用",
            _ => "对端传输中断",
        },
    )
}

proof fn lemma_occurs_in_itself(text: Seq<char>)
    ensures
        occurs(text, text),
{
    assert(crate::text::occurs_at(text, text, 0)) by {
        assert(text.subrange(0, text.len() as int) =~= text);
    }
}

proof fn lemma_absent(text: Seq<char>, needle: Seq<char>)
    requires
        0 < needle.len(),
        forall|at: int|
            0 <= at && at + needle.len() <= text.len() ==> #[trigger] text[at] != needle[0],
    ensures
        !occurs(text, needle),
{
    if occurs(text, needle) {
        let at = choose|at: int| #[trigger] crate::text::occurs_at(text, needle, at);
        assert(text.subrange(at, at + needle.len())[0] == text[at]);
    }
}

/// A failure keeps its meaning on the way to the peer: what the peer is told has the
/// code of the failure itself.
pub proof fn failures_keep_their_meaning(error: Error, answer: Error)
    requires
        answer.refuses(remote_text(code_of(error))),
    ensures
        code_of(answer) == code_of(error),
{
    reveal_strlit("源文件内容已变化");
    reveal_strlit("源文件不可用");
    reveal_strlit("对端存储不可用");
    reveal_strlit("对端传输中断");
    reveal_strlit("存储");
    reveal_strlit("发布");
    reveal_strlit("接收目标已存在");
    reveal_strlit("接收根目录");
    let text = answer.message();
    match code_of(error) {
        ErrorCode::SourceChanged => {
            lemma_occurs_in_itself(text);
        },
        ErrorCode::SourceMissing => {
            lemma_occurs_in_itself(text);
            lemma_absent(text, "源文件内容已变化"@);
        },
        ErrorCode::Storage => {
            lemma_absent(text, "源文件内容已变化"@);
            lemma_absent(text, "源文件不可用"@);
            assert(text.subrange(2, 4) =~= "存储"@);
            assert(crate::text::occurs_at(text, "存储"@, 2));
        },
        _ => {
            lemma_absent(text, "源文件内容已变化"@);
            lemma_absent(text, "源文件不可用"@);
            lemma_absent(text, "存储"@);
            lemma_absent(text, "发布"@);
            lemma_absent(text, "接收目标已存在"@);
            lemma_absent(text, "接收根目录"@);
        },
    }
}

/// What becomes of a task whose transfer failed.
#[derive(Clone, Copy, Debug, PartialEq, Eq, Structural)]
pub struct FailureOutcome {
    pub state: TaskState,
    pub diagnostic: TaskDiagnostic,
}

/// What becomes of a task whose transfer failed.
pub open spec fn outcome_of(error: Error) -> FailureOutcome {
    let (state, code, retryable) = match code_of(error) {
        ErrorCode::SourceChanged => (TaskState::Failed, TaskErrorCode::SourceChanged, false),
        ErrorCode::SourceMissing => (TaskState::Failed, TaskErrorCode::SourceUnavailable, true),
        ErrorCode::Storage => (TaskState::Failed, TaskErrorCode::StorageUnavailable, true),
        _ => (TaskState::Interrupted, TaskErrorCode::NetworkInterrupted, false),
    };
    FailureOutcome { state, diagnostic: TaskDiagnostic { code, retryable } }
}

/// What becomes of a task whose transfer failed; nothing where it is over or
/// interrupted already.
pub fn finish_error(current: TaskState, error: &Error) -> (outcome: Option<FailureOutcome>)
    ensures
        outcome == if current.terminal() || current == TaskState::Interrupted {
            None
        } else {
            Some(outcome_of(*error))
        },
{
    if current.is_terminal() || current == TaskState::Interrupted {
        return None;
    }
    let (state, code, retryable) = match error_code(error) {
        ErrorCode::SourceChanged => (TaskState::Failed, TaskErrorCode::SourceChanged, false),
        ErrorCode::SourceMissing => (TaskState::Failed, TaskErrorCode::SourceUnavailable, true),
        ErrorCode::Storage => (TaskState::Failed, TaskErrorCode::StorageUnavailable, true),
        _ => (TaskState::Interrupted, TaskErrorCode::NetworkInterrupted, false),
    };
    Some(FailureOutcome { state, diagnostic: TaskDiagnostic { code, retryable } })
}

/// A failed transfer leaves a task that can be continued, unless its source changed.
pub proof fn failures_can_be_continued(error: Error)
    requires
        code_of(error) != ErrorCode::SourceChanged,
    ensures
        outcome_of(error).state == TaskState::Interrupted || outcome_of(error).diagnostic.retryable,
{
}

/// A transfer that runs, as mathematical values.
pub struct ActiveView {
    pub id: Seq<char>,
    pub peer: NodeId,
    pub pausing: bool,
}

/// A transfer that runs.
#[derive(Debug)]
pub struct Active {
    pub id: TaskId,
    pub peer: NodeId,
    pub pausing: bool,
}

impl View for Active {
    type V = ActiveView;

    open spec fn view(&self) -> ActiveView {
        ActiveView { id: self.id@, peer: self.peer, pausing: self.pausing }
    }
}

/// The transfers that run, and how often anything about them changed.
#[derive(Debug)]
pub struct ActiveTransfers {
    active: Vec<Active>,
    changed: u64,
}

/// The views of some transfers.
pub open spec fn active_views(active: Seq<Active>) -> Seq<ActiveView> {
    active.map_values(|entry: Active| entry@)
}

/// Finds a transfer.
pub open spec fn runs(id: Seq<char>) -> spec_fn(ActiveView) -> bool {
    |entry: ActiveView| entry.id == id
}

impl View for ActiveTransfers {
    type V = Seq<ActiveView>;

    closed spec fn view(&self) -> Seq<ActiveView> {
        active_views(self.active@)
    }
}

/// No more transfers than allowed, none twice, and one for each peer at most.
pub open spec fn admissible(active: Seq<ActiveView>) -> bool {
    &&& active.len() <= MAX_ACTIVE
    &&& distinct(active, |entry: ActiveView| entry.id)
    &&& distinct(active, |entry: ActiveView| entry.peer)
}

/// Why a transfer may not start now.
pub open spec fn claim_refusal(active: Seq<ActiveView>, peer: NodeId, id: Seq<char>) -> Option<
    Seq<char>,
> {
    if active.len() >= MAX_ACTIVE || exists|k: int|
        0 <= k < active.len() && ((#[trigger] active[k]).id == id || active[k].peer == peer) {
        Some("已有文件任务活动，请稍后继续"@)
    } else {
        None
    }
}

impl ActiveTransfers {
    /// How often anything changed.
    pub closed spec fn changes(self) -> u64 {
        self.changed
    }

    /// Nothing runs.
    pub fn new() -> (transfers: ActiveTransfers)
        ensures
            transfers@.len() == 0,
            admissible(transfers@),
            transfers.changes() == 0,
    {
        ActiveTransfers { active: Vec::new(), changed: 0 }
    }

    fn find(&self, id: &TaskId) -> (at: usize)
        ensures
            at == first_index(self@, runs(id@)),
            at <= self@.len(),
            self@.len() == self.active@.len(),
            at < self@.len() ==> self.active@[at as int].id@ == id@,
    {
        let mut i: usize = 0;
        while i < self.active.len()
            invariant
                i <= self.active@.len(),
                self@.len() == self.active@.len(),
                forall|k: int| 0 <= k < i ==> !runs(id@)(#[trigger] self@[k]),
            decreases self.active@.len() - i,
        {
            assert(self@[i as int] == self.active@[i as int]@);
            if self.active[i].id.same(id) {
                proof {
                    assert(runs(id@)(self@[i as int]));
                    lemma_is_first_index(self@, runs(id@), i as int);
                }
                return i;
            }
            i = i + 1;
        }
        proof {
            lemma_is_first_index(self@, runs(id@), i as int);
        }
        i
    }

    /// Whether a transfer runs.
    pub fn is_active(&self, id: &TaskId) -> (active: bool)
        ensures
            active == (first_index(self@, runs(id@)) < self@.len()),
    {
        self.find(id) < self.active.len()
    }

    /// Starts a transfer, unless too many run or the task or the peer is busy.
    pub fn claim(&mut self, peer: NodeId, id: &TaskId) -> (result: Result<()>)
        requires
            admissible(old(self)@),
        ensures
            decided(result, claim_refusal(old(self)@, peer, id@)),
            final(self)@ == if result is Ok {
                old(self)@.push(ActiveView { id: id@, peer, pausing: false })
            } else {
                old(self)@
            },
            admissible(final(self)@),
            final(self).changes() == old(self).changes(),
    {
        let ghost before = self@;
        if self.active.len() >= MAX_ACTIVE {
            return Err(failure("已有文件任务活动，请稍后继续"));
        }
        let mut i: usize = 0;
        while i < self.active.len()
            invariant
                i <= self.active@.len(),
                *self == *old(self),
                before == self@,
                admissible(before),
                before.len() == self.active@.len(),
                before == old(self)@,
                before.len() < MAX_ACTIVE,
                forall|k: int|
                    0 <= k < i ==> (#[trigger] before[k]).id != id@ && before[k].peer != peer,
            decreases self.active@.len() - i,
        {
            assert(before[i as int] == self.active@[i as int]@);
            if self.active[i].id.same(id) || self.active[i].peer == peer {
                assert(before[i as int].id == id@ || before[i as int].peer == peer);
                return Err(failure("已有文件任务活动，请稍后继续"));
            }
            i = i + 1;
        }
        let ghost held = self.active@;
        self.active.push(Active { id: id.clone(), peer, pausing: false });
        assert(active_views(self.active@) =~= active_views(held).push(
            ActiveView { id: id@, peer, pausing: false },
        ));
        Ok(())
    }

    /// Ends a transfer, whatever became of it.
    pub fn release(&mut self, id: &TaskId)
        requires
            admissible(old(self)@),
        ensures
            ({
                let at = first_index(old(self)@, runs(id@));
                final(self)@ == without_at(old(self)@, at)
            }),
            admissible(final(self)@),
            final(self).changes() == crate::activity::wrapped_next(old(self).changes()),
    {
        let at: usize = self.find(id);
        let ghost before = self@;
        if at < self.active.len() {
            let _ = self.active.remove(at);
            assert(self@ =~= before.remove(at as int));
            proof {
                let key = |entry: ActiveView| entry.id;
                let owner = |entry: ActiveView| entry.peer;
                assert forall|i: int, j: int| 0 <= i < j < self@.len() implies key(
                    #[trigger] self@[i],
                ) != key(#[trigger] self@[j]) && owner(self@[i]) != owner(self@[j]) by {
                    let a = if i < at {
                        i
                    } else {
                        i + 1
                    };
                    let b = if j < at {
                        j
                    } else {
                        j + 1
                    };
                    assert(key(before[a]) != key(before[b]));
                    assert(owner(before[a]) != owner(before[b]));
                }
                assert(distinct(self@, owner)) by {
                    assert forall|i: int, j: int| 0 <= i < j < self@.len() implies owner(
                        #[trigger] self@[i],
                    ) != owner(#[trigger] self@[j]) by {
                        assert(key(self@[i]) != key(self@[j]));
                    }
                }
            }
        }
        self.changed = if self.changed == u64::MAX {
            0
        } else {
            self.changed + 1
        };
    }

    /// Asks a transfer to pause. Says whether it has to be told; it is told once.
    pub fn pause(&mut self, id: &TaskId) -> (result: Result<bool>)
        requires
            admissible(old(self)@),
        ensures
            ({
                let at = first_index(old(self)@, runs(id@));
                match result {
                    Ok(told) => at < old(self)@.len() && told == !old(self)@[at].pausing
                        && final(self)@ == pausing_at(old(self)@, at),
                    Err(error) => at == old(self)@.len() && error.refuses("任务当前未传输"@)
                        && final(self)@ == old(self)@,
                }
            }),
            admissible(final(self)@),
            final(self).changes() == old(self).changes(),
    {
        let at: usize = self.find(id);
        let ghost before = self@;
        if at >= self.active.len() {
            return Err(failure("任务当前未传输"));
        }
        assert(before[at as int] == self.active@[at as int]@);
        let told = !self.active[at].pausing;
        let peer = self.active[at].peer;
        let entry = Active { id: id.clone(), peer, pausing: true };
        self.active.set(at, entry);
        assert(self@ =~= before.update(
            at as int,
            ActiveView { pausing: true, ..before[at as int] },
        ));
        proof {
            let key = |entry: ActiveView| entry.id;
            let owner = |entry: ActiveView| entry.peer;
            assert forall|i: int, j: int| 0 <= i < j < self@.len() implies key(
                #[trigger] self@[i],
            ) != key(#[trigger] self@[j]) by {
                assert(key(before[i]) != key(before[j]));
            }
            assert forall|i: int, j: int| 0 <= i < j < self@.len() implies owner(
                #[trigger] self@[i],
            ) != owner(#[trigger] self@[j]) by {
                assert(owner(before[i]) != owner(before[j]));
            }
        }
        Ok(told)
    }
}

/// Whether work on the store belongs to the session that is running.
pub fn check_epoch(started: u64, current: u64) -> (result: Result<()>)
    ensures
        decided(
            result,
            if started == current {
                None
            } else {
                Some("旧传输会话已取消"@)
            },
        ),
{
    if started != current {
        return Err(failure("旧传输会话已取消"));
    }
    Ok(())
}

/// The tasks that the end of a session interrupts, in order.
pub open spec fn running_ids(tasks: Seq<TaskView>) -> Seq<Seq<char>>
    decreases tasks.len(),
{
    if tasks.len() == 0 {
        Seq::empty()
    } else if tasks.last().state.active() {
        running_ids(tasks.drop_last()).push(tasks.last().task_id)
    } else {
        running_ids(tasks.drop_last())
    }
}

/// The tasks that the end of a session interrupts.
pub fn tasks_to_interrupt(store: &TaskStore) -> (ids: Vec<TaskId>)
    ensures
        id_views(ids@) == running_ids(store@.tasks),
{
    let tasks = store.list();
    let mut ids: Vec<TaskId> = Vec::new();
    let mut i: usize = 0;
    assert(store@.tasks.take(0) =~= Seq::<TaskView>::empty());
    assert(id_views(ids@) =~= running_ids(store@.tasks.take(0)));
    while i < tasks.len()
        invariant
            i <= tasks@.len(),
            task_views(tasks@) == store@.tasks,
            id_views(ids@) == running_ids(store@.tasks.take(i as int)),
        decreases tasks@.len() - i,
    {
        assert(store@.tasks[i as int] == tasks@[i as int]@);
        assert(store@.tasks.take(i + 1).drop_last() =~= store@.tasks.take(i as int));
        assert(store@.tasks.take(i + 1).last() == store@.tasks[i as int]);
        if tasks[i].state().needs_startup_recovery() {
            let ghost before = ids@;
            ids.push(tasks[i].task_id_owned());
            assert(id_views(ids@) =~= id_views(before).push(tasks@[i as int]@.task_id));
        }
        i = i + 1;
    }
    assert(store@.tasks.take(i as int) =~= store@.tasks);
    ids
}

/// Every task that runs may be interrupted.
pub proof fn running_tasks_can_be_interrupted(state: TaskState)
    requires
        state.active(),
    ensures
        state.may_become(TaskState::Interrupted, false),
{
}

/// How long to wait for the next input, in milliseconds. A pause that was not
/// acknowledged in time fails.
pub fn input_timeout(pausing_for_ms: Option<u64>) -> (result: Result<u64>)
    ensures
        match patience(pausing_for_ms) {
            None => result matches Err(error) && error.refuses("暂停确认超时"@),
            Some(limit) => result == Ok::<u64, Error>(limit),
        },
{
    match pausing_for_ms {
        None => Ok(IDLE_TIMEOUT_MS),
        Some(elapsed) => if elapsed >= PAUSE_TIMEOUT_MS {
            Err(failure("暂停确认超时"))
        } else {
            Ok(PAUSE_TIMEOUT_MS - elapsed)
        },
    }
}

/// Why a transfer ended that got no input in time.
pub fn silence_error(pausing: bool) -> (error: Error)
    ensures
        error.refuses(
            if pausing {
                "暂停确认超时"@
            } else {
                "文件传输超时"@
            },
        ),
{
    failure(
        if pausing {
            "暂停确认超时"
        } else {
            "文件传输超时"
        },
    )
}

/// The next frame of a task in this direction, noted as sent.
pub fn outgoing(
    gate: &mut TaskProtocol,
    peer: NodeId,
    id: &TaskId,
    message: Message,
) -> (result: Result<Frame>)
    requires
        old(gate)@.valid(),
    ensures
        final(gate)@.valid(),
        result matches Ok(frame) ==> {
            &&& frame.message == message
            &&& frame.request_id == if old(gate)@.knows(id@) {
                old(gate)@.binding(id@).sequence.of(Actor::Local) + 1
            } else {
                1
            }
            &&& old(gate)@.refusal(peer, Actor::Local, frame) is None
            &&& final(gate)@ == old(gate)@.after(Actor::Local, frame)
        },
        result matches Err(error) ==> final(gate)@ == old(gate)@ && if old(gate)@.knows(id@)
            && old(gate)@.binding(id@).sequence.of(Actor::Local) == u64::MAX {
            error.refuses("桌面请求编号已耗尽"@)
        } else {
            old(gate)@.refusal(
                peer,
                Actor::Local,
                (Frame {
                    request_id: if old(gate)@.knows(id@) {
                        (old(gate)@.binding(id@).sequence.of(Actor::Local) + 1) as u64
                    } else {
                        1
                    },
                    message,
                }),
            ) matches Some(reason) && error.refuses(reason)
        },
{
    let request_id: u64 = gate.next_request_id(id, Actor::Local)?;
    let frame = Frame { request_id, message };
    gate.observe(peer, Actor::Local, &frame)?;
    Ok(frame)
}

/// What the first frame of a stream asks for.
#[derive(Clone, Copy, Debug, PartialEq, Eq, Structural)]
pub enum StreamStart {
    Receive,
    Continue,
}

/// Reads the first frame of a stream that a peer opened.
pub fn stream_start(first: &Frame) -> (result: Result<StreamStart>)
    ensures
        match result {
            Ok(StreamStart::Receive) => first.message is Offer,
            Ok(StreamStart::Continue) => first.message is ResumeTask && first.request_id == 1,
            Err(error) => !(first.message is Offer) && !(first.message is ResumeTask
                && first.request_id == 1) && error.refuses(
                "桌面流入口仅接受任务 Offer 或 ID-only Continue"@,
            ),
        },
{
    match &first.message {
        Message::Offer { .. } => Ok(StreamStart::Receive),
        Message::ResumeTask { .. } => {
            if first.request_id == 1 {
                Ok(StreamStart::Continue)
            } else {
                Err(failure("桌面流入口仅接受任务 Offer 或 ID-only Continue"))
            }
        },
        _ => Err(failure("桌面流入口仅接受任务 Offer 或 ID-only Continue")),
    }
}

/// Whether one more stream of a peer is served.
pub fn may_serve(streams: usize) -> (allowed: bool)
    ensures
        allowed == (streams < MAX_STREAMS),
{
    streams < MAX_STREAMS
}

/// Why a task cannot be continued for a peer, as it is told; nothing where it can.
pub open spec fn continue_code(task: Option<TaskView>) -> Option<ErrorCode> {
    match task {
        None => Some(ErrorCode::UnknownTask),
        Some(found) => if found.direction != TaskDirection::Send {
            Some(ErrorCode::UnknownTask)
        } else if found.continuable() {
            None
        } else {
            match found.diagnostic {
                Some(diagnostic) => match diagnostic.code {
                    TaskErrorCode::SourceChanged => Some(ErrorCode::SourceChanged),
                    TaskErrorCode::SourceUnavailable => Some(ErrorCode::SourceMissing),
                    _ => Some(ErrorCode::InvalidState),
                },
                None => Some(ErrorCode::InvalidState),
            }
        },
    }
}

/// Why a task cannot be continued for a peer. The task is the one bound to the peer,
/// if there is one.
pub fn continue_refusal(task: Option<&TaskRecord>) -> (code: Option<ErrorCode>)
    ensures
        code == continue_code(
            match task {
                Some(record) => Some(record@),
                None => None,
            },
        ),
{
    let record = match task {
        Some(record) => record,
        None => {
            return Some(ErrorCode::UnknownTask);
        },
    };
    if record.direction() != TaskDirection::Send {
        return Some(ErrorCode::UnknownTask);
    }
    if record.can_continue() {
        return None;
    }
    match record.diagnostic() {
        Some(diagnostic) => match diagnostic.code {
            TaskErrorCode::SourceChanged => Some(ErrorCode::SourceChanged),
            TaskErrorCode::SourceUnavailable => Some(ErrorCode::SourceMissing),
            _ => Some(ErrorCode::InvalidState),
        },
        None => Some(ErrorCode::InvalidState),
    }
}

/// How a task is continued from this end.
#[derive(Clone, Copy, Debug, PartialEq, Eq, Structural)]
pub enum ResumePlan {
    SendAgain,
    AskSender,
}

/// How a task is continued: a sender sends again, a receiver asks the sender.
pub fn resume_plan(record: &TaskRecord) -> (result: Result<ResumePlan>)
    ensures
        match result {
            Ok(ResumePlan::SendAgain) => record@.direction == TaskDirection::Send,
            Ok(ResumePlan::AskSender) => record@.direction == TaskDirection::Receive
                && record@.continuable(),
            Err(error) => record@.direction == TaskDirection::Receive && !record@.continuable()
                && error.refuses("任务当前不能继续"@),
        },
{
    match record.direction() {
        TaskDirection::Send => Ok(ResumePlan::SendAgain),
        TaskDirection::Receive => {
            if record.can_continue() {
                Ok(ResumePlan::AskSender)
            } else {
                Err(failure("任务当前不能继续"))
            }
        },
    }
}

/// Reads the sender's answer to a request to continue.
pub fn check_continue_response(id: &TaskId, response: &Frame) -> (result: Result<()>)
    ensures
        decided(
            result,
            response_refusal(id@, *response),
        ),
{
    match &response.message {
        Message::ResumeTask { task_id } => {
            if task_id.same(id) && response.request_id == 1 {
                Ok(())
            } else {
                Err(failure("继续响应身份不符"))
            }
        },
        Message::Error { task_id, code } => {
            if task_id.same(id) {
                Err(remote_error(*code))
            } else {
                Err(failure("继续响应身份不符"))
            }
        },
        _ => Err(failure("继续响应身份不符")),
    }
}

/// Whether an offer is for one file on its own.
pub fn check_single_offer(first: &Frame) -> (result: Result<()>)
    ensures
        decided(
            result,
            if first.message matches Message::Offer { entry, group_id, .. } && entry is File
                && group_id is None {
                None
            } else {
                Some("本阶段仅接受单文件任务"@)
            },
        ),
{
    match &first.message {
        Message::Offer { entry, group_id, .. } => match entry {
            Entry::File(_) => {
                if group_id.is_none() {
                    Ok(())
                } else {
                    Err(failure("本阶段仅接受单文件任务"))
                }
            },
            Entry::Directory => Err(failure("本阶段仅接受单文件任务")),
        },
        _ => Err(failure("本阶段仅接受单文件任务")),
    }
}

/// Whether this end may send a task.
pub fn check_sendable(record: &TaskRecord) -> (result: Result<()>)
    ensures
        decided(
            result,
            if record@.direction == TaskDirection::Send {
                None
            } else {
                Some("只能发送本机已选择任务"@)
            },
        ),
{
    if record.direction() != TaskDirection::Send {
        return Err(failure("只能发送本机已选择任务"));
    }
    Ok(())
}

/// How the sending of a task begins.
#[derive(Debug)]
pub enum SendStart {
    /// Nothing is left to do.
    Complete,
    /// The file is offered on a stream of its own.
    Offer(Message),
}

/// Whether a message offers the file of a task by itself.
pub open spec fn offers(task: TaskView, message: Message) -> bool {
    match message {
        Message::Offer { task_id, group_id, relative_path, entry } => {
            &&& task_id@ == task.task_id
            &&& group_id is None
            &&& relative_path@ == task.details->File_0.relative_path
            &&& entry matches Entry::File(manifest)
            &&& manifest@ == task.details->File_0.manifest
        },
        _ => false,
    }
}

/// Whether a message confirms that the file of a task was received.
pub open spec fn confirms(task: TaskView, message: Message) -> bool {
    match message {
        Message::Completed { task_id, root_hash, receipt_version } => task_id@ == task.task_id
            && root_hash == task.details->File_0.manifest.root_hash && receipt_version
            == RECEIPT_VERSION,
        _ => false,
    }
}

/// Why the answer to a request to continue is no consent.
pub open spec fn response_refusal(id: Seq<char>, response: Frame) -> Option<Seq<char>> {
    match response.message {
        Message::ResumeTask { task_id } => if task_id@ == id && response.request_id == 1 {
            None
        } else {
            Some("继续响应身份不符"@)
        },
        Message::Error { task_id, code } => if task_id@ == id {
            Some(remote_text(code))
        } else {
            Some("继续响应身份不符"@)
        },
        _ => Some("继续响应身份不符"@),
    }
}

/// How long the next input is waited for, from how long a pause has been waited for; not at
/// all once that was long enough.
pub open spec fn patience(pausing_for_ms: Option<u64>) -> Option<u64> {
    match pausing_for_ms {
        None => Some(IDLE_TIMEOUT_MS),
        Some(elapsed) => if elapsed >= PAUSE_TIMEOUT_MS {
            None
        } else {
            Some((PAUSE_TIMEOUT_MS - elapsed) as u64)
        },
    }
}

/// The transfers with one of them asked to pause.
pub open spec fn pausing_at(active: Seq<ActiveView>, at: int) -> Seq<ActiveView> {
    active.update(at, ActiveView { pausing: true, ..active[at] })
}

/// The transfers without the one that stands there, if one does.
pub open spec fn without_at(active: Seq<ActiveView>, at: int) -> Seq<ActiveView> {
    if at < active.len() {
        active.remove(at)
    } else {
        active
    }
}

/// Why the sending of a task does not begin.
pub open spec fn send_refusal(task: TaskView) -> Option<Seq<char>> {
    if task.direction != TaskDirection::Send {
        Some("只能发送本机已选择任务"@)
    } else if task.state != TaskState::Completed && !(task.details is File) {
        Some("源文件不可用"@)
    } else {
        None
    }
}

/// How the sending of a task begins: one that is complete is not sent again.
pub fn send_start(record: &TaskRecord) -> (result: Result<SendStart>)
    ensures
        decided(result, send_refusal(record@)),
        result matches Ok(SendStart::Complete) ==> record@.state == TaskState::Completed,
        result matches Ok(SendStart::Offer(message)) ==> record@.state != TaskState::Completed
            && offers(record@, message),
{
    check_sendable(record)?;
    if record.state() == TaskState::Completed {
        return Ok(SendStart::Complete);
    }
    match record.details() {
        TaskDetails::File(file) => Ok(
            SendStart::Offer(
                Message::Offer {
                    task_id: record.task_id_owned(),
                    group_id: None,
                    relative_path: file.relative_path.clone(),
                    entry: Entry::File(file.manifest.duplicate()),
                },
            ),
        ),
        _ => Err(failure("源文件不可用")),
    }
}

/// How the receiving of an accepted file begins.
#[derive(Debug)]
pub enum ReceiveStart {
    /// The receipt is told again; nothing is received or published.
    Replay(Message),
    /// What is missing is received.
    Download,
}

/// How the receiving of an accepted file begins: a file with a durable receipt is not
/// received again.
pub fn receive_start(record: &TaskRecord) -> (result: Result<ReceiveStart>)
    ensures
        decided(
            result,
            if record@.details is File {
                None
            } else {
                Some("缺少文件任务绑定"@)
            },
        ),
        result matches Ok(start) ==> match start {
            ReceiveStart::Replay(message) => record@.details->File_0.receipt_committed
                && confirms(record@, message),
            ReceiveStart::Download => !record@.details->File_0.receipt_committed,
        },
{
    match record.details() {
        TaskDetails::File(file) => {
            if file.receipt_committed {
                return Ok(
                    ReceiveStart::Replay(
                        Message::Completed {
                            task_id: record.task_id_owned(),
                            root_hash: file.manifest.root_hash,
                            receipt_version: RECEIPT_VERSION,
                        },
                    ),
                );
            }
            Ok(ReceiveStart::Download)
        },
        _ => Err(failure("缺少文件任务绑定")),
    }
}

/// The frame that asks the sender to go on, and the one by which it agrees.
pub fn continue_frame(id: &TaskId) -> (frame: Frame)
    ensures
        frame.request_id == 1,
        frame.message matches Message::ResumeTask { task_id } && task_id@ == id@,
{
    Frame { request_id: 1, message: Message::ResumeTask { task_id: id.clone() } }
}

/// The frame by which a sender refuses to go on.
pub fn refusal_frame(id: &TaskId, code: ErrorCode) -> (frame: Frame)
    ensures
        frame.request_id == 1,
        frame.message matches Message::Error { task_id, code: told } && task_id@ == id@ && told
            == code,
{
    Frame { request_id: 1, message: Message::Error { task_id: id.clone(), code } }
}

/// A failure says by its words what it is: a source that changed, one that is gone, the
/// disk, or else the connection.
pub proof fn failures_are_told_apart(error: Error)
    ensures
        ({
            let text = error.message();
            let code = code_of(error);
            &&& occurs(text, "源文件内容已变化"@) <==> code == ErrorCode::SourceChanged
            &&& code == ErrorCode::SourceMissing <==> !occurs(text, "源文件内容已变化"@) && occurs(
                text,
                "源文件不可用"@,
            )
            &&& code == ErrorCode::SourceChanged || code == ErrorCode::SourceMissing || code
                == ErrorCode::Storage || code == ErrorCode::Interrupted
            &&& code == ErrorCode::Storage ==> storage_failed(error)
            &&& code == ErrorCode::Interrupted ==> !storage_failed(error)
        }),
{
}

/// A connection that breaks is no failure of the disk; every other failure of input and
/// output is.
pub proof fn broken_connections_are_no_disk_failures(error: Error)
    ensures
        error matches Error::Io { kind, .. } ==> (storage_failed(error) <==> !(kind
            == IoErrorKind::BrokenPipe || kind == IoErrorKind::UnexpectedEof || kind
            == IoErrorKind::ConnectionAborted || kind == IoErrorKind::ConnectionReset || kind
            == IoErrorKind::NotConnected || kind == IoErrorKind::TimedOut)),
{
}

/// What becomes of a task follows from its failure: a changed source fails it for good, a
/// missing one and the disk until it is tried again, and a broken connection only
/// interrupts it.
pub proof fn failures_decide_what_becomes_of_tasks(error: Error)
    ensures
        ({
            let outcome = outcome_of(error);
            match code_of(error) {
                ErrorCode::SourceChanged => outcome.state == TaskState::Failed
                    && outcome.diagnostic.code == TaskErrorCode::SourceChanged
                    && !outcome.diagnostic.retryable,
                ErrorCode::SourceMissing => outcome.state == TaskState::Failed
                    && outcome.diagnostic.code == TaskErrorCode::SourceUnavailable
                    && outcome.diagnostic.retryable,
                ErrorCode::Storage => outcome.state == TaskState::Failed && outcome.diagnostic.code
                    == TaskErrorCode::StorageUnavailable && outcome.diagnostic.retryable,
                _ => outcome.state == TaskState::Interrupted && outcome.diagnostic.code
                    == TaskErrorCode::NetworkInterrupted,
            }
        }),
{
}

/// One more transfer may start while fewer than three run, none of them for the same peer
/// or task.
pub proof fn transfers_keep_apart(active: Seq<ActiveView>, peer: NodeId, id: Seq<char>)
    ensures
        claim_refusal(active, peer, id) is None <==> active.len() < 3 && forall|k: int|
            0 <= k < active.len() ==> (#[trigger] active[k]).id != id && active[k].peer != peer,
{
}

/// A peer may continue what this end sends to it and what rests in a way that can go on;
/// else it is told what is wrong: the source where that is why, and nothing of tasks that
/// are not for it.
pub proof fn continuations_are_answered(task: TaskView)
    ensures
        continue_code(None) == Some(ErrorCode::UnknownTask),
        task.direction == TaskDirection::Receive ==> continue_code(Some(task)) == Some(
            ErrorCode::UnknownTask,
        ),
        continue_code(Some(task)) is None <==> task.direction == TaskDirection::Send
            && task.continuable(),
        task.direction == TaskDirection::Send && !task.continuable() ==> match task.diagnostic {
            Some(diagnostic) => if diagnostic.code == TaskErrorCode::SourceChanged {
                continue_code(Some(task)) == Some(ErrorCode::SourceChanged)
            } else if diagnostic.code == TaskErrorCode::SourceUnavailable {
                continue_code(Some(task)) == Some(ErrorCode::SourceMissing)
            } else {
                continue_code(Some(task)) == Some(ErrorCode::InvalidState)
            },
            None => continue_code(Some(task)) == Some(ErrorCode::InvalidState),
        },
{
}

/// Exactly the tasks that are under way are interrupted at the end of a session.
pub proof fn sessions_interrupt_what_runs(tasks: Seq<TaskView>, id: Seq<char>)
    ensures
        running_ids(tasks).contains(id) <==> exists|k: int|
            0 <= k < tasks.len() && (#[trigger] tasks[k]).task_id == id && tasks[k].state.active(),
    decreases tasks.len(),
{
    if tasks.len() > 0 {
        let front = tasks.drop_last();
        sessions_interrupt_what_runs(front, id);
        let before = running_ids(front);
        let all = running_ids(tasks);
        if before.contains(id) {
            let j = choose|j: int| 0 <= j < before.len() && before[j] == id;
            assert(all[j] == id);
            let k = choose|k: int|
                0 <= k < front.len() && (#[trigger] front[k]).task_id == id
                    && front[k].state.active();
            assert(tasks[k] == front[k]);
        }
        if tasks.last().state.active() && tasks.last().task_id == id {
            assert(all[all.len() - 1] == id);
            assert(tasks[tasks.len() - 1].task_id == id);
        }
        if all.contains(id) && !before.contains(id) {
            let j = choose|j: int| 0 <= j < all.len() && all[j] == id;
            if j < before.len() {
                assert(before[j] == id);
            }
        }
        if exists|k: int|
            0 <= k < tasks.len() && (#[trigger] tasks[k]).task_id == id && tasks[k].state.active() {
            let k = choose|k: int|
                0 <= k < tasks.len() && (#[trigger] tasks[k]).task_id == id
                    && tasks[k].state.active();
            if k < front.len() {
                assert(front[k] == tasks[k]);
            }
        }
    }
}

/// Three transfers at most run at once, each of another task and with another peer.
pub proof fn transfers_run_apart(active: Seq<ActiveView>, left: int, right: int)
    requires
        admissible(active),
        0 <= left < right < active.len(),
    ensures
        active.len() <= 3,
        active[left].id != active[right].id,
        active[left].peer != active[right].peer,
{
    let id = |entry: ActiveView| entry.id;
    let peer = |entry: ActiveView| entry.peer;
    assert(id(active[left]) != id(active[right]));
    assert(peer(active[left]) != peer(active[right]));
}

/// What this end sends is begun, unless it is neither complete nor a file.
pub proof fn own_files_can_be_sent(task: TaskView)
    ensures
        send_refusal(task) is None <==> task.direction == TaskDirection::Send && (task.state
            == TaskState::Completed || task.details is File),
{
}

/// A peer consents to continue a task by naming it in its first frame; what else it says of
/// that task is what went wrong there.
pub proof fn consents_name_the_task(id: Seq<char>, response: Frame)
    ensures
        response_refusal(id, response) is None <==> response.request_id == 1 && (
        response.message matches Message::ResumeTask { task_id } && task_id@ == id),
        (response.message matches Message::Error { task_id, .. } && task_id@ == id) ==> (
        response.message matches Message::Error { code, .. } && response_refusal(id, response)
            == Some(remote_text(code))),
{
}

/// A pause is waited for as long as it may take, counted from its beginning, however many
/// inputs come in between.
pub proof fn pauses_are_waited_for(elapsed: u64)
    ensures
        patience(None) == Some(30000u64),
        elapsed >= 5000 ==> patience(Some(elapsed)) is None,
        elapsed < 5000 ==> (patience(Some(elapsed)) matches Some(left) && left + elapsed == 5000),
{
}

/// A transfer that is asked to pause goes on running until it is released, and one that is
/// released makes room for its task and its peer.
pub proof fn released_transfers_make_room(active: Seq<ActiveView>, at: int)
    requires
        admissible(active),
        0 <= at < active.len(),
    ensures
        pausing_at(active, at).len() == active.len(),
        pausing_at(active, at)[at].pausing,
        pausing_at(active, at)[at].id == active[at].id,
        pausing_at(active, at)[at].peer == active[at].peer,
        claim_refusal(pausing_at(active, at), active[at].peer, active[at].id) is Some,
        without_at(active, at).len() == active.len() - 1,
        claim_refusal(without_at(active, at), active[at].peer, active[at].id) is None,
        without_at(active, active.len() as int) == active,
{
    let id = |entry: ActiveView| entry.id;
    let peer = |entry: ActiveView| entry.peer;
    let paused = pausing_at(active, at);
    assert(paused[at].id == active[at].id);
    let rest = without_at(active, at);
    assert forall|k: int| 0 <= k < rest.len() implies (#[trigger] rest[k]).id != active[at].id
        && rest[k].peer != active[at].peer by {
        if k < at {
            assert(id(active[k]) != id(active[at]) && peer(active[k]) != peer(active[at]));
        } else {
            assert(id(active[at]) != id(active[k + 1]) && peer(active[at]) != peer(active[k + 1]));
        }
    }
}

/// An offer names the task, its path and its whole manifest, and belongs to no selection; a
/// receipt that is sent again names the task and the content.
pub proof fn offers_and_receipts_name_the_content(task: TaskView, message: Message)
    ensures
        offers(task, message) ==> (message matches Message::Offer {
            task_id,
            group_id,
            relative_path,
            entry,
        } && task_id@ == task.task_id && group_id is None && relative_path@
            == task.details->File_0.relative_path && (entry matches Entry::File(manifest)
            && manifest@ == task.details->File_0.manifest)),
        confirms(task, message) ==> (message matches Message::Completed {
            task_id,
            root_hash,
            receipt_version,
        } && task_id@ == task.task_id && root_hash == task.details->File_0.manifest.root_hash
            && receipt_version == 1),
{
}

} // verus!
