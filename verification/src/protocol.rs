//! Versioned desktop protocol: messages, frames and the order in which a peer may
//! send them. No file system operations.

use vstd::prelude::*;
use vstd::utf8::encode_utf8;

use crate::error::{decided, failure, Result};
use crate::identity::NodeId;
use crate::lists::{distinct, first_index, lemma_first_index, lemma_is_first_index};
use crate::manifest::{
    bit_of, count_pieces, is_bitmap, pieces_cover_the_length, pieces_needed, ChunkHash,
    FileManifest,
};
use crate::paths::{path_refusal, validate_relative_path};
use crate::speed_control::SpeedControl;
use crate::task_model::TaskId;
use crate::task_record::{base_name, is_base_name};

verus! {

/// The protocol version that both ends must speak.
pub const VERSION: u16 = 1;

/// Tasks are announced, tracked and confirmed.
pub const CAP_TASK_PROTOCOL: u64 = 1;

/// Entries carry portable relative paths.
pub const CAP_RELATIVE_ENTRIES: u64 = 2;

/// Tasks can be paused and resumed.
pub const CAP_PAUSE_RESUME: u64 = 4;

/// Speed tests are leased by one coordinator.
pub const CAP_SPEED_OWNERSHIP: u64 = 8;

/// Everything that a peer must be able to do.
pub const REQUIRED_CAPABILITIES: u64 = 15;

/// The longest frame, in bytes.
pub const MAX_FRAME_BYTES: u32 = 4194304;

/// The most chunks in a manifest.
pub const MAX_CHUNKS: usize = 65536;

/// The longest file, in bytes.
pub const MAX_FILE_BYTES: u64 = 1099511627776;

/// The most tasks that one connection tracks.
pub const MAX_TASKS_PER_PEER: usize = 128;

/// The receipt layout that this version sends and accepts.
pub const RECEIPT_VERSION: u16 = 1;

/// How long both ends may take to agree, in milliseconds.
pub const NEGOTIATION_TIMEOUT_MS: u64 = 5000;

/// A protocol refusal with this message.
pub fn invalid(message: &str) -> (error: crate::error::Error)
    ensures
        error.refuses(message@),
{
    failure(message)
}

/// What is offered: a file with its manifest, or a directory.
#[derive(Debug, PartialEq, Eq)]
pub enum Entry {
    File(FileManifest),
    Directory,
}

impl Entry {
    /// Why an entry is refused under this path, if it is.
    pub open spec fn refusal(self, relative_path: Seq<char>) -> Option<Seq<char>> {
        if path_refusal(relative_path) is Some {
            path_refusal(relative_path)
        } else {
            match self {
                Entry::Directory => None,
                Entry::File(manifest) => if manifest@.refusal() is Some {
                    manifest@.refusal()
                } else if manifest@.chunks.len() > MAX_CHUNKS || manifest@.total_len
                    > MAX_FILE_BYTES || manifest@.file_name != base_name(relative_path) {
                    Some("桌面清单超限或文件名与相对路径不一致"@)
                } else {
                    None
                },
            }
        }
    }

    /// The content digest and the number of chunks that bind an entry.
    pub open spec fn content(self, path: Seq<char>) -> (ChunkHash, usize) {
        match self {
            Entry::File(manifest) => (manifest@.root_hash, manifest@.chunks.len() as usize),
            Entry::Directory => (ChunkHash::digest(encode_utf8(path)), 0),
        }
    }

    /// Checks an entry against its path.
    pub fn validate(&self, relative_path: &str) -> (result: Result<()>)
        ensures
            decided(result, self.refusal(relative_path@)),
    {
        match validate_relative_path(relative_path) {
            Ok(()) => {},
            Err(error) => {
                return Err(error);
            },
        }
        match self {
            Entry::Directory => Ok(()),
            Entry::File(manifest) => {
                match manifest.validate() {
                    Ok(()) => {},
                    Err(error) => {
                        return Err(error);
                    },
                }
                if manifest.chunks.len() > MAX_CHUNKS || manifest.total_len > MAX_FILE_BYTES
                    || !is_base_name(relative_path, &manifest.file_name) {
                    return Err(invalid("桌面清单超限或文件名与相对路径不一致"));
                }
                Ok(())
            },
        }
    }

    /// The content digest and the number of chunks that bind an entry.
    pub fn identity(&self, path: &str) -> (identity: (ChunkHash, usize))
        ensures
            identity == self.content(path@),
    {
        match self {
            Entry::File(manifest) => (manifest.root_hash, manifest.chunks.len()),
            Entry::Directory => (ChunkHash::of(path.as_bytes()), 0),
        }
    }
}

/// Fixed error codes prevent accidental disclosure of local source or receive paths.
#[derive(Clone, Copy, Debug, PartialEq, Eq, Structural)]
pub enum ErrorCode {
    UnsupportedVersion,
    UnsupportedCapability,
    UnknownTask,
    WrongPeer,
    InvalidState,
    InvalidPath,
    InvalidManifest,
    Busy,
    SourceChanged,
    SourceMissing,
    Storage,
    Interrupted,
}

/// One message. Append variants only; order and binding are checked by `TaskProtocol`.
#[derive(Debug, PartialEq, Eq)]
pub enum Message {
    Hello { version: u16, capabilities: u64 },
    Ready,
    Offer {
        task_id: TaskId,
        group_id: Option<TaskId>,
        relative_path: String,
        entry: Entry,
    },
    Resume { task_id: TaskId, root_hash: ChunkHash, have: Vec<u8> },
    Pause { task_id: TaskId },
    Paused { task_id: TaskId, pause_request_id: u64 },
    ResumeTask { task_id: TaskId },
    Completed { task_id: TaskId, root_hash: ChunkHash, receipt_version: u16 },
    Error { task_id: TaskId, code: ErrorCode },
    Speed(SpeedControl),
    RequestChunk { task_id: TaskId, index: u32 },
    Chunk { task_id: TaskId, index: u32, data: Vec<u8> },
    ChunkAck { task_id: TaskId, index: u32 },
}

impl Message {
    /// The task or test that a message belongs to.
    pub open spec fn subject(self) -> Option<Seq<char>> {
        match self {
            Message::Hello { .. } => None,
            Message::Ready => None,
            Message::Offer { task_id, .. } => Some(task_id@),
            Message::Resume { task_id, .. } => Some(task_id@),
            Message::Pause { task_id } => Some(task_id@),
            Message::Paused { task_id, .. } => Some(task_id@),
            Message::ResumeTask { task_id } => Some(task_id@),
            Message::Completed { task_id, .. } => Some(task_id@),
            Message::Error { task_id, .. } => Some(task_id@),
            Message::Speed(control) => Some(control.id()),
            Message::RequestChunk { task_id, .. } => Some(task_id@),
            Message::Chunk { task_id, .. } => Some(task_id@),
            Message::ChunkAck { task_id, .. } => Some(task_id@),
        }
    }

    /// Why a message is refused on its own, if it is.
    pub open spec fn refusal(self) -> Option<Seq<char>> {
        match self {
            Message::Offer { relative_path, entry, .. } => entry.refusal(relative_path@),
            Message::Speed(control) => control.refusal(),
            Message::Resume { have, .. } => if have@.len() > pieces_needed(MAX_CHUNKS as nat, 8) {
                Some("桌面恢复位图超限"@)
            } else {
                None
            },
            Message::Completed { receipt_version, .. } => if receipt_version != RECEIPT_VERSION {
                Some("不支持的完成回执版本"@)
            } else {
                None
            },
            _ => None,
        }
    }

    /// The task or test that a message belongs to.
    pub fn task_id(&self) -> (id: Option<&TaskId>)
        ensures
            id is Some <==> self.subject() is Some,
            id matches Some(found) ==> self.subject() == Some(found@),
    {
        match self {
            Message::Hello { .. } => None,
            Message::Ready => None,
            Message::Offer { task_id, .. } => Some(task_id),
            Message::Resume { task_id, .. } => Some(task_id),
            Message::Pause { task_id } => Some(task_id),
            Message::Paused { task_id, .. } => Some(task_id),
            Message::ResumeTask { task_id } => Some(task_id),
            Message::Completed { task_id, .. } => Some(task_id),
            Message::Error { task_id, .. } => Some(task_id),
            Message::Speed(control) => Some(control.test_id()),
            Message::RequestChunk { task_id, .. } => Some(task_id),
            Message::Chunk { task_id, .. } => Some(task_id),
            Message::ChunkAck { task_id, .. } => Some(task_id),
        }
    }

    /// Checks what can be checked of a message on its own.
    pub fn validate(&self) -> (result: Result<()>)
        ensures
            decided(result, self.refusal()),
    {
        match self {
            Message::Offer { relative_path, entry, .. } => entry.validate(relative_path),
            Message::Speed(control) => control.validate(),
            Message::Resume { have, .. } => {
                if have.len() as u64 > count_pieces(MAX_CHUNKS as u64, 8) {
                    Err(invalid("桌面恢复位图超限"))
                } else {
                    Ok(())
                }
            },
            Message::Completed { receipt_version, .. } => {
                if *receipt_version != RECEIPT_VERSION {
                    Err(invalid("不支持的完成回执版本"))
                } else {
                    Ok(())
                }
            },
            _ => Ok(()),
        }
    }
}

/// A numbered message.
#[derive(Debug, PartialEq, Eq)]
pub struct Frame {
    pub request_id: u64,
    pub message: Message,
}

impl Frame {
    /// Why a frame is refused, if it is: task messages are numbered from one, the
    /// others are not numbered.
    pub open spec fn refusal(self) -> Option<Seq<char>> {
        if (self.message.subject() is Some) != (self.request_id != 0) {
            Some("桌面请求编号非法"@)
        } else {
            self.message.refusal()
        }
    }

    /// Checks what can be checked of a frame on its own.
    pub fn validate(&self) -> (result: Result<()>)
        ensures
            decided(result, self.refusal()),
    {
        let task = self.message.task_id();
        if (task.is_some() && self.request_id == 0) || (task.is_none() && self.request_id != 0) {
            return Err(invalid("桌面请求编号非法"));
        }
        self.message.validate()
    }
}

/// The frame that opens a connection.
pub fn hello_frame() -> (frame: Frame)
    ensures
        frame.request_id == 0,
        frame.message == (Message::Hello {
            version: VERSION,
            capabilities: REQUIRED_CAPABILITIES,
        }),
        frame.refusal() is None,
{
    Frame {
        request_id: 0,
        message: Message::Hello { version: VERSION, capabilities: REQUIRED_CAPABILITIES },
    }
}

/// The frame that confirms agreement.
pub fn ready_frame() -> (frame: Frame)
    ensures
        frame.request_id == 0,
        frame.message == Message::Ready,
        frame.refusal() is None,
{
    Frame { request_id: 0, message: Message::Ready }
}

/// Whether a first message agrees on version and capabilities.
pub open spec fn compatible(message: Message) -> bool {
    message matches Message::Hello { version, capabilities } && version == VERSION && capabilities
        & REQUIRED_CAPABILITIES == REQUIRED_CAPABILITIES
}

/// Where a negotiation stands.
#[derive(Clone, Copy, Debug, PartialEq, Eq, Structural)]
pub enum Negotiation {
    AwaitHello,
    AwaitReady,
    Agreed,
}

impl Negotiation {
    /// What a received message means for a negotiation. A compatible hello is to be
    /// answered with a confirmation, and only a confirmation completes it.
    pub fn receive(self, message: &Message) -> (result: Result<Negotiation>)
        ensures
            match self {
                Negotiation::AwaitHello => decided(
                    result,
                    if compatible(*message) {
                        None
                    } else {
                        Some("桌面版本或能力不兼容"@)
                    },
                ) && (result is Ok ==> result->Ok_0 == Negotiation::AwaitReady),
                _ => decided(
                    result,
                    if self == Negotiation::AwaitReady && message is Ready {
                        None
                    } else {
                        Some("桌面能力确认顺序错误"@)
                    },
                ) && (result is Ok ==> result->Ok_0 == Negotiation::Agreed),
            },
    {
        match self {
            Negotiation::AwaitHello => match message {
                Message::Hello { version, capabilities } => {
                    if *version == VERSION && *capabilities & REQUIRED_CAPABILITIES
                        == REQUIRED_CAPABILITIES {
                        Ok(Negotiation::AwaitReady)
                    } else {
                        Err(invalid("桌面版本或能力不兼容"))
                    }
                },
                _ => Err(invalid("桌面版本或能力不兼容")),
            },
            Negotiation::AwaitReady => match message {
                Message::Ready => Ok(Negotiation::Agreed),
                _ => Err(invalid("桌面能力确认顺序错误")),
            },
            Negotiation::Agreed => Err(invalid("桌面能力确认顺序错误")),
        }
    }
}

/// Which end of the connection sends a message.
#[derive(Clone, Copy, Debug, PartialEq, Eq, Structural)]
pub enum Actor {
    Local,
    Remote,
}

impl Actor {
    /// The other end.
    pub open spec fn other(self) -> Actor {
        match self {
            Actor::Local => Actor::Remote,
            Actor::Remote => Actor::Local,
        }
    }

    /// The position of this end in a pair.
    pub fn index(self) -> (index: usize)
        ensures
            index == (if self == Actor::Local {
                0int
            } else {
                1int
            }),
    {
        match self {
            Actor::Local => 0,
            Actor::Remote => 1,
        }
    }

    /// The other end.
    pub fn opposite(self) -> (other: Actor)
        ensures
            other == self.other(),
    {
        match self {
            Actor::Local => Actor::Remote,
            Actor::Remote => Actor::Local,
        }
    }
}

/// Where a task stands on the wire.
#[derive(Clone, Copy, Debug, PartialEq, Eq, Structural)]
pub enum WireTaskState {
    Offered,
    Transferring,
    Pausing,
    Paused,
    Interrupted,
    ResumeRequested,
    Completed,
    Failed,
}

/// One value for each end.
#[derive(Clone, Copy, Debug, PartialEq, Eq, Structural)]
pub struct Both<T> {
    pub local: T,
    pub remote: T,
}

impl<T> Both<T> {
    /// The value of one end.
    pub open spec fn of(self, actor: Actor) -> T {
        match actor {
            Actor::Local => self.local,
            Actor::Remote => self.remote,
        }
    }

    /// The pair with the value of one end replaced.
    pub open spec fn with(self, actor: Actor, value: T) -> Both<T> {
        match actor {
            Actor::Local => Both { local: value, ..self },
            Actor::Remote => Both { remote: value, ..self },
        }
    }
}

impl<T: Copy> Both<T> {
    fn get(&self, actor: Actor) -> (value: T)
        ensures
            value == self.of(actor),
    {
        match actor {
            Actor::Local => self.local,
            Actor::Remote => self.remote,
        }
    }

    fn replaced(self, actor: Actor, value: T) -> (pair: Both<T>)
        ensures
            pair == self.with(actor, value),
    {
        match actor {
            Actor::Local => Both { local: value, remote: self.remote },
            Actor::Remote => Both { local: self.local, remote: value },
        }
    }
}

/// What a connection remembers of one task.
#[derive(Clone, Copy, Debug, PartialEq, Eq, Structural)]
pub struct Binding {
    pub sender: Actor,
    pub root: ChunkHash,
    pub chunks: usize,
    pub state: WireTaskState,
    pub sequence: Both<u64>,
    pub pauses: Both<Option<u64>>,
}

/// No pause is waiting for its acknowledgement.
pub open spec fn no_pauses() -> Both<Option<u64>> {
    Both { local: None, remote: None }
}

/// Whether a resume bitmap has exactly the bits of that many chunks.
pub open spec fn bitmap_fits(have: Seq<u8>, chunks: usize) -> bool {
    &&& have.len() == pieces_needed(chunks as nat, 8)
    &&& chunks % 8 == 0 || have.len() == 0 || have.last() >> (chunks % 8) == 0u8
}

/// Whether content may flow in this state.
pub open spec fn flowing(state: WireTaskState) -> bool {
    state == WireTaskState::Transferring || state == WireTaskState::Pausing
}

impl Binding {
    /// Why a message is refused for a task, if it is.
    pub open spec fn refusal(self, actor: Actor, message: Message) -> Option<Seq<char>> {
        match message {
            Message::Resume { root_hash, have, .. } => if actor != self.sender && root_hash
                == self.root && (self.state == WireTaskState::Offered || self.state
                == WireTaskState::ResumeRequested || self.state == WireTaskState::Interrupted)
                && bitmap_fits(have@, self.chunks) {
                None
            } else {
                Some("恢复位图、清单身份或任务状态不符"@)
            },
            Message::Pause { .. } => if flowing(self.state) && self.pauses.of(actor) is None {
                None
            } else {
                Some("暂停请求状态不符"@)
            },
            Message::Paused { pause_request_id, .. } => if self.state == WireTaskState::Pausing
                && self.pauses.of(actor.other()) == Some(pause_request_id) {
                None
            } else {
                Some("暂停确认未绑定对应请求"@)
            },
            Message::ResumeTask { .. } => if self.state == WireTaskState::Paused || self.state
                == WireTaskState::Interrupted {
                None
            } else {
                Some("只能继续已授权的暂停或中断任务"@)
            },
            Message::Completed { root_hash, .. } => if actor != self.sender && self.root
                == root_hash && flowing(self.state) {
                None
            } else {
                Some("完成回执身份、方向或任务状态不符"@)
            },
            Message::Error { .. } => if self.state == WireTaskState::Completed || self.state
                == WireTaskState::Failed {
                Some("终态任务不能重复失败"@)
            } else {
                None
            },
            Message::RequestChunk { index, .. } => if actor != self.sender && flowing(self.state)
                && index < self.chunks {
                None
            } else {
                Some("分片消息方向、索引或任务状态不符"@)
            },
            Message::ChunkAck { index, .. } => if actor != self.sender && flowing(self.state)
                && index < self.chunks {
                None
            } else {
                Some("分片消息方向、索引或任务状态不符"@)
            },
            Message::Chunk { index, .. } => if actor == self.sender && flowing(self.state) && index
                < self.chunks {
                None
            } else {
                Some("分片消息方向、索引或任务状态不符"@)
            },
            _ => Some("桌面消息顺序错误"@),
        }
    }

    /// The pauses that are still unanswered after a message.
    pub open spec fn pauses_after(
        self,
        actor: Actor,
        request_id: u64,
        message: Message,
    ) -> Both<Option<u64>> {
        match message {
            Message::Pause { .. } => self.pauses.with(actor, Some(request_id)),
            Message::Paused { .. } => self.pauses.with(actor.other(), None),
            Message::Completed { .. } => no_pauses(),
            _ => self.pauses,
        }
    }

    /// Where a task stands after a message.
    pub open spec fn state_after(
        self,
        actor: Actor,
        request_id: u64,
        message: Message,
    ) -> WireTaskState {
        match message {
            Message::Resume { .. } => WireTaskState::Transferring,
            Message::Pause { .. } => WireTaskState::Pausing,
            Message::Paused { .. } => if self.pauses_after(actor, request_id, message)
                == no_pauses() {
                WireTaskState::Paused
            } else {
                self.state
            },
            Message::ResumeTask { .. } => WireTaskState::ResumeRequested,
            Message::Completed { .. } => WireTaskState::Completed,
            Message::Error { .. } => WireTaskState::Failed,
            _ => self.state,
        }
    }

    /// What is remembered of a task after a message: only the state, the numbers and
    /// the pauses change, never what the task is bound to.
    pub open spec fn after(self, actor: Actor, request_id: u64, message: Message) -> Binding {
        Binding {
            state: self.state_after(actor, request_id, message),
            sequence: self.sequence.with(actor, request_id),
            pauses: self.pauses_after(actor, request_id, message),
            ..self
        }
    }

    fn step(&self, actor: Actor, request_id: u64, message: &Message) -> (result: Result<Binding>)
        ensures
            decided(result, self.refusal(actor, *message)),
            result matches Ok(next) ==> next == self.after(actor, request_id, *message),
    {
        let mut next = *self;
        match message {
            Message::Resume { root_hash, have, .. } => {
                let length: usize = have.len();
                let unused: usize = self.chunks % 8;
                if actor == self.sender || *root_hash != self.root || !matches!(
                    self.state,
                    WireTaskState::Offered | WireTaskState::ResumeRequested
                        | WireTaskState::Interrupted
                ) || length as u64 != count_pieces(self.chunks as u64, 8) || (unused != 0 && length
                    > 0 && have[length - 1] >> unused != 0) {
                    return Err(invalid("恢复位图、清单身份或任务状态不符"));
                }
                next.state = WireTaskState::Transferring;
            },
            Message::Pause { .. } => {
                if !matches!(self.state, WireTaskState::Transferring | WireTaskState::Pausing)
                    || self.pauses.get(actor).is_some() {
                    return Err(invalid("暂停请求状态不符"));
                }
                next.pauses = next.pauses.replaced(actor, Some(request_id));
                next.state = WireTaskState::Pausing;
            },
            Message::Paused { pause_request_id, .. } => {
                let waiting = self.pauses.get(actor.opposite());
                if self.state != WireTaskState::Pausing || waiting.is_none() || waiting.unwrap()
                    != *pause_request_id {
                    return Err(invalid("暂停确认未绑定对应请求"));
                }
                next.pauses = next.pauses.replaced(actor.opposite(), None);
                if next.pauses.local.is_none() && next.pauses.remote.is_none() {
                    next.state = WireTaskState::Paused;
                }
            },
            Message::ResumeTask { .. } => {
                if !matches!(self.state, WireTaskState::Paused | WireTaskState::Interrupted) {
                    return Err(invalid("只能继续已授权的暂停或中断任务"));
                }
                next.state = WireTaskState::ResumeRequested;
            },
            Message::Completed { root_hash, .. } => {
                if actor == self.sender || self.root != *root_hash || !matches!(
                    self.state,
                    WireTaskState::Transferring | WireTaskState::Pausing
                ) {
                    return Err(invalid("完成回执身份、方向或任务状态不符"));
                }
                next.state = WireTaskState::Completed;
                next.pauses = Both { local: None, remote: None };
            },
            Message::Error { .. } => {
                if matches!(self.state, WireTaskState::Completed | WireTaskState::Failed) {
                    return Err(invalid("终态任务不能重复失败"));
                }
                next.state = WireTaskState::Failed;
            },
            Message::RequestChunk { index, .. } => {
                if actor == self.sender || !matches!(
                    self.state,
                    WireTaskState::Transferring | WireTaskState::Pausing
                ) || *index as u64 >= self.chunks as u64 {
                    return Err(invalid("分片消息方向、索引或任务状态不符"));
                }
            },
            Message::ChunkAck { index, .. } => {
                if actor == self.sender || !matches!(
                    self.state,
                    WireTaskState::Transferring | WireTaskState::Pausing
                ) || *index as u64 >= self.chunks as u64 {
                    return Err(invalid("分片消息方向、索引或任务状态不符"));
                }
            },
            Message::Chunk { index, .. } => {
                if actor != self.sender || !matches!(
                    self.state,
                    WireTaskState::Transferring | WireTaskState::Pausing
                ) || *index as u64 >= self.chunks as u64 {
                    return Err(invalid("分片消息方向、索引或任务状态不符"));
                }
            },
            _ => {
                return Err(invalid("桌面消息顺序错误"));
            },
        }
        next.sequence = next.sequence.replaced(actor, request_id);
        Ok(next)
    }
}

/// The tasks of one connection, as mathematical values.
pub struct ProtocolView {
    pub peer: NodeId,
    pub tasks: Seq<(Seq<char>, Binding)>,
}

/// Finds a task by its identifier.
pub open spec fn bound_to(id: Seq<char>) -> spec_fn((Seq<char>, Binding)) -> bool {
    |task: (Seq<char>, Binding)| task.0 == id
}

impl ProtocolView {
    /// Why a task is not taken up again.
    pub open spec fn restore_refusal(self, id: Seq<char>, chunks: usize) -> Option<Seq<char>> {
        if self.tasks.len() >= MAX_TASKS_PER_PEER || self.knows(id) || chunks > MAX_CHUNKS {
            Some("已授权桌面任务恢复冲突或超限"@)
        } else {
            None
        }
    }

    /// The number of the next frame of a task.
    pub open spec fn next_number(self, id: Seq<char>, actor: Actor) -> int {
        if self.knows(id) {
            self.binding(id).sequence.of(actor) + 1
        } else {
            1
        }
    }

    /// No more tasks than allowed, and each identifier once.
    pub open spec fn valid(self) -> bool {
        &&& self.tasks.len() <= MAX_TASKS_PER_PEER
        &&& distinct(self.tasks, |task: (Seq<char>, Binding)| task.0)
    }

    /// Where a task stands in the list; the length where it is unknown.
    pub open spec fn position(self, id: Seq<char>) -> int {
        first_index(self.tasks, bound_to(id))
    }

    /// Whether a task is known.
    pub open spec fn knows(self, id: Seq<char>) -> bool {
        self.position(id) < self.tasks.len()
    }

    /// What is remembered of a known task.
    pub open spec fn binding(self, id: Seq<char>) -> Binding {
        self.tasks[self.position(id)].1
    }

    /// The binding of a newly offered task.
    pub open spec fn offered(actor: Actor, content: (ChunkHash, usize)) -> Binding {
        Binding {
            sender: actor,
            root: content.0,
            chunks: content.1,
            state: WireTaskState::Offered,
            sequence: Both { local: 0u64, remote: 0u64 }.with(actor, 1u64),
            pauses: no_pauses(),
        }
    }

    /// The binding of a task that the local store already authorized.
    pub open spec fn restored(sender: Actor, root: ChunkHash, chunks: usize, paused: bool) -> Binding {
        Binding {
            sender,
            root,
            chunks,
            state: if paused {
                WireTaskState::Paused
            } else {
                WireTaskState::Interrupted
            },
            sequence: Both { local: 0u64, remote: 0u64 },
            pauses: no_pauses(),
        }
    }

    /// Why a frame is refused, if it is.
    pub open spec fn refusal(
        self,
        authenticated_peer: NodeId,
        actor: Actor,
        frame: Frame,
    ) -> Option<Seq<char>> {
        if authenticated_peer != self.peer {
            Some("桌面任务对端身份不符"@)
        } else if frame.refusal() is Some {
            frame.refusal()
        } else if frame.message.subject() is None {
            Some("业务流不能重复协商能力"@)
        } else {
            let id = frame.message.subject()->0;
            if frame.message is Offer {
                if self.knows(id) || self.tasks.len() >= MAX_TASKS_PER_PEER || frame.request_id
                    != 1 {
                    Some("重复、乱序或超限的桌面 Offer"@)
                } else {
                    None
                }
            } else if !self.knows(id) {
                Some("未授权或未知的桌面任务"@)
            } else if frame.request_id != self.binding(id).sequence.of(actor) + 1 {
                Some("重复或乱序的桌面任务请求"@)
            } else {
                self.binding(id).refusal(actor, frame.message)
            }
        }
    }

    /// The tasks after an accepted frame.
    pub open spec fn after(self, actor: Actor, frame: Frame) -> ProtocolView {
        let id = frame.message.subject()->0;
        match frame.message {
            Message::Offer { relative_path, entry, .. } => ProtocolView {
                tasks: self.tasks.push(
                    (id, ProtocolView::offered(actor, entry.content(relative_path@))),
                ),
                ..self
            },
            _ => ProtocolView {
                tasks: self.tasks.update(
                    self.position(id),
                    (id, self.binding(id).after(actor, frame.request_id, frame.message)),
                ),
                ..self
            },
        }
    }
}

/// A connection's authenticated peer is fixed. There is no remote path lookup.
#[derive(Debug)]
pub struct TaskProtocol {
    peer: NodeId,
    tasks: Vec<(TaskId, Binding)>,
}

/// The view of a list of tasks.
pub open spec fn binding_views(tasks: Seq<(TaskId, Binding)>) -> Seq<(Seq<char>, Binding)> {
    tasks.map_values(|task: (TaskId, Binding)| (task.0@, task.1))
}

impl View for TaskProtocol {
    type V = ProtocolView;

    closed spec fn view(&self) -> ProtocolView {
        ProtocolView { peer: self.peer, tasks: binding_views(self.tasks@) }
    }
}

impl TaskProtocol {
    /// No task is known yet.
    pub fn new(authenticated_peer: NodeId) -> (protocol: TaskProtocol)
        ensures
            protocol@ == (ProtocolView { peer: authenticated_peer, tasks: Seq::empty() }),
            protocol@.valid(),
    {
        let protocol = TaskProtocol { peer: authenticated_peer, tasks: Vec::new() };
        assert(protocol@.tasks =~= Seq::<(Seq<char>, Binding)>::empty());
        protocol
    }

    fn find(&self, id: &TaskId) -> (at: usize)
        ensures
            at == self@.position(id@),
            at <= self.tasks@.len(),
            self@.tasks.len() == self.tasks@.len(),
    {
        let mut i: usize = 0;
        while i < self.tasks.len()
            invariant
                i <= self.tasks@.len(),
                forall|k: int| 0 <= k < i ==> !bound_to(id@)(#[trigger] self@.tasks[k]),
            decreases self.tasks@.len() - i,
        {
            if self.tasks[i].0.same(id) {
                proof {
                    assert(bound_to(id@)(self@.tasks[i as int]));
                    lemma_is_first_index(self@.tasks, bound_to(id@), i as int);
                }
                return i;
            }
            assert(!bound_to(id@)(self@.tasks[i as int]));
            i = i + 1;
        }
        proof {
            lemma_is_first_index(self@.tasks, bound_to(id@), i as int);
        }
        i
    }

    /// Where a task stands, if it is known.
    pub fn state(&self, task: &TaskId) -> (state: Option<WireTaskState>)
        ensures
            state == if self@.knows(task@) {
                Some(self@.binding(task@).state)
            } else {
                None
            },
    {
        let at: usize = self.find(task);
        if at < self.tasks.len() {
            assert(self@.tasks[at as int] == (self.tasks@[at as int].0@, self.tasks@[at as int].1));
            Some(self.tasks[at].1.state)
        } else {
            None
        }
    }

    /// The number of the next message of one end about a task.
    pub fn next_request_id(&self, task: &TaskId, actor: Actor) -> (result: Result<u64>)
        ensures
            match result {
                Ok(id) => id == self@.next_number(task@, actor),
                Err(error) => self@.knows(task@) && self@.binding(task@).sequence.of(actor)
                    == u64::MAX && error.refuses("桌面请求编号已耗尽"@),
            },
    {
        let at: usize = self.find(task);
        if at >= self.tasks.len() {
            return Ok(1);
        }
        assert(self@.tasks[at as int] == (self.tasks@[at as int].0@, self.tasks@[at as int].1));
        let last: u64 = self.tasks[at].1.sequence.get(actor);
        match last.checked_add(1) {
            Some(next) => Ok(next),
            None => Err(invalid("桌面请求编号已耗尽")),
        }
    }

    /// Restores a task that the local store already authorized. A refused one changes
    /// nothing.
    pub fn restore(
        &mut self,
        task: TaskId,
        sender: Actor,
        root: ChunkHash,
        chunks: usize,
        paused: bool,
    ) -> (result: Result<()>)
        requires
            old(self)@.valid(),
        ensures
            decided(
                result,
                old(self)@.restore_refusal(task@, chunks),
            ),
            final(self)@ == if result is Ok {
                ProtocolView {
                    tasks: old(self)@.tasks.push(
                        (task@, ProtocolView::restored(sender, root, chunks, paused)),
                    ),
                    ..old(self)@
                }
            } else {
                old(self)@
            },
            final(self)@.valid(),
    {
        let at: usize = self.find(&task);
        if self.tasks.len() >= MAX_TASKS_PER_PEER || at < self.tasks.len() || chunks > MAX_CHUNKS {
            return Err(invalid("已授权桌面任务恢复冲突或超限"));
        }
        let ghost before = self@;
        let ghost id = task@;
        let binding = Binding {
            sender,
            root,
            chunks,
            state: if paused {
                WireTaskState::Paused
            } else {
                WireTaskState::Interrupted
            },
            sequence: Both { local: 0, remote: 0 },
            pauses: Both { local: None, remote: None },
        };
        self.tasks.push((task, binding));
        proof {
            assert(self@.tasks =~= before.tasks.push((id, binding)));
            lemma_added_task(before, id, binding);
        }
        Ok(())
    }

    /// Checks a frame before anything is written or changed. Only an accepted frame
    /// changes what is remembered.
    pub fn observe(
        &mut self,
        authenticated_peer: NodeId,
        actor: Actor,
        frame: &Frame,
    ) -> (result: Result<()>)
        requires
            old(self)@.valid(),
        ensures
            decided(result, old(self)@.refusal(authenticated_peer, actor, *frame)),
            final(self)@ == if result is Ok {
                old(self)@.after(actor, *frame)
            } else {
                old(self)@
            },
            final(self)@.valid(),
    {
        if authenticated_peer != self.peer {
            return Err(invalid("桌面任务对端身份不符"));
        }
        match frame.validate() {
            Ok(()) => {},
            Err(error) => {
                return Err(error);
            },
        }
        let task = match frame.message.task_id() {
            Some(task) => task,
            None => {
                return Err(invalid("业务流不能重复协商能力"));
            },
        };
        let ghost before = self@;
        let ghost id = task@;
        let at: usize = self.find(task);
        match &frame.message {
            Message::Offer { relative_path, entry, .. } => {
                if at < self.tasks.len() || self.tasks.len() >= MAX_TASKS_PER_PEER
                    || frame.request_id != 1 {
                    return Err(invalid("重复、乱序或超限的桌面 Offer"));
                }
                let content = entry.identity(relative_path);
                let sequence = Both { local: 0u64, remote: 0u64 };
                let binding = Binding {
                    sender: actor,
                    root: content.0,
                    chunks: content.1,
                    state: WireTaskState::Offered,
                    sequence: sequence.replaced(actor, 1),
                    pauses: Both { local: None, remote: None },
                };
                self.tasks.push((task.clone(), binding));
                proof {
                    assert(self@.tasks =~= before.tasks.push((id, binding)));
                    lemma_added_task(before, id, binding);
                }
                return Ok(());
            },
            _ => {},
        }
        if at >= self.tasks.len() {
            return Err(invalid("未授权或未知的桌面任务"));
        }
        assert(self@.tasks[at as int] == (self.tasks@[at as int].0@, self.tasks@[at as int].1));
        let binding = self.tasks[at].1;
        let last: u64 = binding.sequence.get(actor);
        if last == u64::MAX || last + 1 != frame.request_id {
            return Err(invalid("重复或乱序的桌面任务请求"));
        }
        match binding.step(actor, frame.request_id, &frame.message) {
            Ok(next) => {
                self.tasks.set(at, (task.clone(), next));
                proof {
                    assert(self@.tasks =~= before.tasks.update(at as int, (id, next)));
                    lemma_updated_task(before, id, next);
                }
                Ok(())
            },
            Err(error) => Err(error),
        }
    }
}

proof fn lemma_added_task(protocol: ProtocolView, id: Seq<char>, binding: Binding)
    requires
        protocol.valid(),
        !protocol.knows(id),
        protocol.tasks.len() < MAX_TASKS_PER_PEER,
    ensures
        (ProtocolView { tasks: protocol.tasks.push((id, binding)), ..protocol }).valid(),
{
    let key = |task: (Seq<char>, Binding)| task.0;
    let after = protocol.tasks.push((id, binding));
    lemma_first_index(protocol.tasks, bound_to(id));
    assert forall|i: int, j: int| 0 <= i < j < after.len() implies key(#[trigger] after[i]) != key(
        #[trigger] after[j],
    ) by {
        if j == protocol.tasks.len() {
            assert(!bound_to(id)(protocol.tasks[i]));
        } else {
            assert(key(protocol.tasks[i]) != key(protocol.tasks[j]));
        }
    }
}

proof fn lemma_updated_task(protocol: ProtocolView, id: Seq<char>, binding: Binding)
    requires
        protocol.valid(),
        protocol.knows(id),
    ensures
        (ProtocolView {
            tasks: protocol.tasks.update(protocol.position(id), (id, binding)),
            ..protocol
        }).valid(),
{
    let key = |task: (Seq<char>, Binding)| task.0;
    let at = protocol.position(id);
    let after = protocol.tasks.update(at, (id, binding));
    lemma_first_index(protocol.tasks, bound_to(id));
    assert(bound_to(id)(protocol.tasks[at]));
    assert forall|i: int, j: int| 0 <= i < j < after.len() implies key(#[trigger] after[i]) != key(
        #[trigger] after[j],
    ) by {
        assert(key(protocol.tasks[i]) != key(protocol.tasks[j]));
    }
}

/// A frame about one task leaves every other task as it was.
pub proof fn frames_touch_one_task(
    protocol: ProtocolView,
    peer: NodeId,
    actor: Actor,
    frame: Frame,
    other: Seq<char>,
)
    requires
        protocol.valid(),
        protocol.refusal(peer, actor, frame) is None,
        frame.message.subject() != Some(other),
    ensures
        protocol.after(actor, frame).knows(other) == protocol.knows(other),
        protocol.knows(other) ==> protocol.after(actor, frame).binding(other) == protocol.binding(
            other,
        ),
{
    let after = protocol.after(actor, frame);
    let id = frame.message.subject()->0;
    lemma_first_index(protocol.tasks, bound_to(other));
    lemma_first_index(protocol.tasks, bound_to(id));
    let at = protocol.position(other);
    if protocol.knows(other) {
        assert(bound_to(other)(protocol.tasks[at]));
        assert(after.tasks[at] == protocol.tasks[at]);
        assert forall|k: int| 0 <= k < at implies !bound_to(other)(#[trigger] after.tasks[k]) by {
            assert(!bound_to(other)(protocol.tasks[k]));
        }
        lemma_is_first_index(after.tasks, bound_to(other), at);
    } else {
        assert forall|k: int| 0 <= k < after.tasks.len() implies !bound_to(other)(
            #[trigger] after.tasks[k],
        ) by {
            if k < protocol.tasks.len() {
                assert(!bound_to(other)(protocol.tasks[k]));
            }
        }
        lemma_is_first_index(after.tasks, bound_to(other), after.tasks.len() as int);
    }
}

/// Once a task is known, its sender, content and chunk count never change, the
/// numbers of the acting end grow by one and those of the other end stay.
pub proof fn known_tasks_keep_their_binding(
    protocol: ProtocolView,
    peer: NodeId,
    actor: Actor,
    frame: Frame,
)
    requires
        protocol.valid(),
        frame.message.subject() is Some,
        protocol.knows(frame.message.subject()->0),
        protocol.refusal(peer, actor, frame) is None,
    ensures
        ({
            let id = frame.message.subject()->0;
            let before = protocol.binding(id);
            let after = protocol.after(actor, frame).binding(id);
            &&& protocol.after(actor, frame).knows(id)
            &&& after.sender == before.sender
            &&& after.root == before.root
            &&& after.chunks == before.chunks
            &&& after.sequence.of(actor) == before.sequence.of(actor) + 1
            &&& after.sequence.of(actor.other()) == before.sequence.of(actor.other())
        }),
{
    let id = frame.message.subject()->0;
    let at = protocol.position(id);
    let after = protocol.after(actor, frame);
    lemma_first_index(protocol.tasks, bound_to(id));
    assert forall|k: int| 0 <= k < at implies !bound_to(id)(#[trigger] after.tasks[k]) by {
        assert(!bound_to(id)(protocol.tasks[k]));
    }
    lemma_is_first_index(after.tasks, bound_to(id), at);
}

/// The same frame is never accepted twice in a row.
pub proof fn frames_cannot_be_replayed(
    protocol: ProtocolView,
    peer: NodeId,
    actor: Actor,
    frame: Frame,
)
    requires
        protocol.valid(),
        protocol.refusal(peer, actor, frame) is None,
    ensures
        protocol.after(actor, frame).refusal(peer, actor, frame) is Some,
{
    let id = frame.message.subject()->0;
    let after = protocol.after(actor, frame);
    lemma_first_index(protocol.tasks, bound_to(id));
    if frame.message is Offer {
        assert(bound_to(id)(after.tasks[protocol.tasks.len() as int]));
        lemma_first_index(after.tasks, bound_to(id));
        if !after.knows(id) {
            assert(!bound_to(id)(after.tasks[protocol.tasks.len() as int]));
        }
    } else {
        known_tasks_keep_their_binding(protocol, peer, actor, frame);
    }
}

/// A task is paused only when every pause of either end has been acknowledged by
/// the other end under its own number, and then no pause is waiting.
pub proof fn pausing_needs_every_acknowledgement(
    binding: Binding,
    actor: Actor,
    request_id: u64,
    message: Message,
)
    requires
        binding.refusal(actor, message) is None,
        binding.state != WireTaskState::Paused,
        binding.after(actor, request_id, message).state == WireTaskState::Paused,
    ensures
        message is Paused,
        binding.state == WireTaskState::Pausing,
        binding.pauses.of(actor.other()) == Some(message->pause_request_id),
        binding.pauses.of(actor) is None,
        binding.after(actor, request_id, message).pauses == no_pauses(),
{
}

/// Only the receiver completes a task, with the digest that the task is bound to;
/// that ends it, drops every waiting pause, and nothing but a refusal follows.
pub proof fn completion_is_final(
    binding: Binding,
    actor: Actor,
    request_id: u64,
    message: Message,
    next_actor: Actor,
    next: Message,
)
    requires
        binding.refusal(actor, message) is None,
        message is Completed,
    ensures
        actor == binding.sender.other(),
        message->Completed_root_hash == binding.root,
        binding.state == WireTaskState::Transferring || binding.state == WireTaskState::Pausing,
        binding.after(actor, request_id, message).state == WireTaskState::Completed,
        binding.after(actor, request_id, message).pauses == no_pauses(),
        binding.after(actor, request_id, message).refusal(next_actor, next) is Some,
{
}

/// Content flows only between a resume and a pause, completion or failure: a chunk
/// is accepted from the sender alone, a request or an acknowledgement from the
/// receiver alone, each for a chunk that exists.
pub proof fn content_flows_one_way(binding: Binding, actor: Actor, message: Message)
    requires
        binding.refusal(actor, message) is None,
    ensures
        message is Chunk ==> actor == binding.sender && flowing(binding.state)
            && message->Chunk_index < binding.chunks,
        message is RequestChunk ==> actor != binding.sender && flowing(binding.state)
            && message->RequestChunk_index < binding.chunks,
        message is ChunkAck ==> actor != binding.sender && flowing(binding.state)
            && message->ChunkAck_index < binding.chunks,
{
}

/// What flows between a resume and the end of a task is accepted: chunks from the sender,
/// requests and acknowledgements from the receiver, each for a chunk that exists. It
/// changes nothing but the numbers.
pub proof fn running_tasks_accept_content(
    binding: Binding,
    actor: Actor,
    request_id: u64,
    message: Message,
)
    requires
        binding.state == WireTaskState::Transferring || binding.state == WireTaskState::Pausing,
        match message {
            Message::Chunk { index, .. } => actor == binding.sender && index < binding.chunks,
            Message::RequestChunk { index, .. } => actor == binding.sender.other() && index
                < binding.chunks,
            Message::ChunkAck { index, .. } => actor == binding.sender.other() && index
                < binding.chunks,
            _ => false,
        },
    ensures
        binding.refusal(actor, message) is None,
        binding.after(actor, request_id, message) == (Binding {
            sequence: binding.sequence.with(actor, request_id),
            ..binding
        }),
{
}

/// A receiver that has everything may say so while content flows, paused or not, and the
/// task is then completed.
pub proof fn running_tasks_can_be_completed(binding: Binding, request_id: u64, message: Message)
    requires
        binding.state == WireTaskState::Transferring || binding.state == WireTaskState::Pausing,
        message matches Message::Completed { root_hash, .. } && root_hash == binding.root,
    ensures
        binding.refusal(binding.sender.other(), message) is None,
        binding.after(binding.sender.other(), request_id, message).state
            == WireTaskState::Completed,
{
}

/// Either end may pause a running task once, and waits from then on for the
/// acknowledgement of its own number.
pub proof fn running_tasks_can_be_paused(
    binding: Binding,
    actor: Actor,
    request_id: u64,
    id: TaskId,
)
    requires
        binding.state == WireTaskState::Transferring || binding.state == WireTaskState::Pausing,
    ensures
        ({
            let pause = Message::Pause { task_id: id };
            let after = binding.after(actor, request_id, pause);
            &&& binding.refusal(actor, pause) is None <==> binding.pauses.of(actor) is None
            &&& after.state == WireTaskState::Pausing
            &&& after.pauses.of(actor) == Some(request_id)
            &&& after.pauses.of(actor.other()) == binding.pauses.of(actor.other())
            &&& after.refusal(actor, pause) is Some
        }),
{
}

/// A pause is acknowledged by the other end, under the number of the pause and no other.
/// The task is paused when no pause is left to acknowledge, and not before.
pub proof fn pauses_are_acknowledged(
    binding: Binding,
    actor: Actor,
    request_id: u64,
    id: TaskId,
    number: u64,
)
    requires
        binding.state == WireTaskState::Pausing,
    ensures
        ({
            let paused = Message::Paused { task_id: id, pause_request_id: number };
            let after = binding.after(actor, request_id, paused);
            &&& binding.refusal(actor, paused) is None <==> binding.pauses.of(actor.other())
                == Some(number)
            &&& after.pauses.of(actor.other()) is None
            &&& after.pauses.of(actor) == binding.pauses.of(actor)
            &&& binding.pauses.of(actor) is None ==> after.state == WireTaskState::Paused
            &&& binding.pauses.of(actor) is Some ==> after.state == WireTaskState::Pausing
        }),
{
}

/// A task that was offered, interrupted or asked to go on runs as soon as the receiver
/// says what it has of the right content: a bitmap with one bit for each chunk.
pub proof fn waiting_tasks_can_be_resumed(
    binding: Binding,
    request_id: u64,
    id: TaskId,
    have: Vec<u8>,
    flags: Seq<bool>,
)
    requires
        binding.state == WireTaskState::Offered || binding.state == WireTaskState::ResumeRequested
            || binding.state == WireTaskState::Interrupted,
        flags.len() == binding.chunks,
        is_bitmap(have@, flags),
    ensures
        ({
            let resume = Message::Resume { task_id: id, root_hash: binding.root, have };
            let receiver = binding.sender.other();
            &&& binding.refusal(receiver, resume) is None
            &&& binding.after(receiver, request_id, resume).state == WireTaskState::Transferring
            &&& binding.refusal(binding.sender, resume) is Some
        }),
{
    lemma_bitmap_fits(have@, flags);
    assert(bitmap_fits(have@, binding.chunks));
}

/// A resume for another content, or in a state in which content flows or has ended, is
/// refused.
pub proof fn resumes_keep_to_their_content(binding: Binding, actor: Actor, message: Message)
    requires
        message is Resume,
        binding.refusal(actor, message) is None,
    ensures
        actor == binding.sender.other(),
        message->Resume_root_hash == binding.root,
        binding.state == WireTaskState::Offered || binding.state == WireTaskState::ResumeRequested
            || binding.state == WireTaskState::Interrupted,
{
}

/// A paused or interrupted task, and no other, may be asked to go on by either end, and
/// then waits for the receiver.
pub proof fn stopped_tasks_can_go_on(
    binding: Binding,
    actor: Actor,
    request_id: u64,
    id: TaskId,
)
    ensures
        ({
            let resume = Message::ResumeTask { task_id: id };
            &&& binding.refusal(actor, resume) is None <==> (binding.state == WireTaskState::Paused
                || binding.state == WireTaskState::Interrupted)
            &&& binding.after(actor, request_id, resume).state == WireTaskState::ResumeRequested
        }),
{
}

/// Either end may give up a task that has not ended, whatever the reason; a task that has
/// ended accepts nothing any more.
pub proof fn unfinished_tasks_can_fail(
    binding: Binding,
    actor: Actor,
    request_id: u64,
    id: TaskId,
    code: ErrorCode,
    next_actor: Actor,
    next: Message,
)
    ensures
        ({
            let error = Message::Error { task_id: id, code };
            let ended = binding.state == WireTaskState::Completed || binding.state
                == WireTaskState::Failed;
            &&& binding.refusal(actor, error) is None <==> !ended
            &&& binding.after(actor, request_id, error).state == WireTaskState::Failed
            &&& ended ==> binding.refusal(next_actor, next) is Some
        }),
{
}

/// Agreement, offers and speed tests are no part of a known task.
pub proof fn tasks_accept_only_their_messages(binding: Binding, actor: Actor, message: Message)
    requires
        message is Hello || message is Ready || message is Offer || message is Speed,
    ensures
        binding.refusal(actor, message) is Some,
{
}

impl<T> Both<T> {
    /// The pair as the other end sees it.
    pub open spec fn swapped(self) -> Both<T> {
        Both { local: self.remote, remote: self.local }
    }
}

impl Binding {
    /// The same task as the other end remembers it.
    pub open spec fn mirrored(self) -> Binding {
        Binding {
            sender: self.sender.other(),
            sequence: self.sequence.swapped(),
            pauses: self.pauses.swapped(),
            ..self
        }
    }
}

/// Both ends of a connection judge every message alike and remember the same of it, each
/// from its own side.
pub proof fn both_ends_judge_alike(
    binding: Binding,
    actor: Actor,
    request_id: u64,
    message: Message,
)
    ensures
        binding.mirrored().refusal(actor.other(), message) == binding.refusal(actor, message),
        binding.mirrored().after(actor.other(), request_id, message) == binding.after(
            actor,
            request_id,
            message,
        ).mirrored(),
{
    assert(binding.mirrored().pauses_after(actor.other(), request_id, message)
        == binding.pauses_after(actor, request_id, message).swapped());
}

proof fn lemma_bitmap_fits(have: Seq<u8>, flags: Seq<bool>)
    requires
        is_bitmap(have, flags),
        flags.len() <= usize::MAX,
    ensures
        bitmap_fits(have, flags.len() as usize),
{
    let count = flags.len() as int;
    let used = count % 8;
    pieces_cover_the_length(flags.len(), 8);
    if used != 0 {
        let at = have.len() - 1;
        assert(8 * at < count <= 8 * (at + 1));
        assert(count == 8 * at + used);
        let byte = have[at];
        assert forall|j: int| used <= j < 8 implies !#[trigger] bit_of(byte, j) by {
            let i = 8 * at + j;
            assert(i / 8 == at && i % 8 == j);
            assert(bit_of(have[i / 8], i % 8) == (i < count && flags[i]));
        }
        let low = used as u8;
        assert(low <= 1 ==> !bit_of(byte, 1));
        assert(low <= 2 ==> !bit_of(byte, 2));
        assert(low <= 3 ==> !bit_of(byte, 3));
        assert(low <= 4 ==> !bit_of(byte, 4));
        assert(low <= 5 ==> !bit_of(byte, 5));
        assert(low <= 6 ==> !bit_of(byte, 6));
        assert(low <= 7 ==> !bit_of(byte, 7));
        assert(byte >> low == 0u8) by (bit_vector)
            requires
                1 <= low <= 7,
                low <= 1 ==> (byte >> 1u8) & 1u8 != 1u8,
                low <= 2 ==> (byte >> 2u8) & 1u8 != 1u8,
                low <= 3 ==> (byte >> 3u8) & 1u8 != 1u8,
                low <= 4 ==> (byte >> 4u8) & 1u8 != 1u8,
                low <= 5 ==> (byte >> 5u8) & 1u8 != 1u8,
                low <= 6 ==> (byte >> 6u8) & 1u8 != 1u8,
                low <= 7 ==> (byte >> 7u8) & 1u8 != 1u8,
        ;
    }
}

/// A task that is offered for the first time under its first number is known from then
/// on, by its sender and its content, as long as there is room.
pub proof fn offers_are_accepted(
    protocol: ProtocolView,
    actor: Actor,
    id: TaskId,
    group: Option<TaskId>,
    path: String,
    entry: Entry,
)
    requires
        protocol.valid(),
        entry.refusal(path@) is None,
    ensures
        ({
            let frame = Frame {
                request_id: 1,
                message: Message::Offer { task_id: id, group_id: group, relative_path: path, entry },
            };
            let after = protocol.after(actor, frame);
            &&& protocol.refusal(protocol.peer, actor, frame) is None <==> !protocol.knows(id@)
                && protocol.tasks.len() < MAX_TASKS_PER_PEER
            &&& protocol.refusal(protocol.peer, actor, frame) is None ==> {
                let binding = after.binding(id@);
                &&& after.knows(id@)
                &&& binding.sender == actor
                &&& binding.state == WireTaskState::Offered
                &&& binding.sequence.of(actor) == 1
                &&& binding.sequence.of(actor.other()) == 0
                &&& binding.pauses.local is None
                &&& binding.pauses.remote is None
                &&& match entry {
                    Entry::File(manifest) => binding.root == manifest.root_hash && binding.chunks
                        == manifest.chunks@.len(),
                    Entry::Directory => binding.root == ChunkHash::digest(encode_utf8(path@))
                        && binding.chunks == 0,
                }
            }
        }),
{
    let frame = Frame {
        request_id: 1,
        message: Message::Offer { task_id: id, group_id: group, relative_path: path, entry },
    };
    let after = protocol.after(actor, frame);
    if protocol.refusal(protocol.peer, actor, frame) is None {
        let at = protocol.tasks.len() as int;
        lemma_first_index(protocol.tasks, bound_to(id@));
        assert forall|k: int| 0 <= k < at implies !bound_to(id@)(#[trigger] after.tasks[k]) by {
            assert(!bound_to(id@)(protocol.tasks[k]));
        }
        assert(bound_to(id@)(after.tasks[at]));
        lemma_is_first_index(after.tasks, bound_to(id@), at);
    }
}

/// A sound message about a known task is judged by what is remembered of the task, if it
/// has the next number of its end, and refused under every other number.
pub proof fn next_numbers_are_accepted(
    protocol: ProtocolView,
    actor: Actor,
    frame: Frame,
)
    requires
        protocol.valid(),
        frame.message !is Offer,
        frame.message.refusal() is None,
        frame.message.subject() is Some,
        protocol.knows(frame.message.subject()->0),
    ensures
        ({
            let id = frame.message.subject()->0;
            let binding = protocol.binding(id);
            &&& frame.request_id == binding.sequence.of(actor) + 1 ==> protocol.refusal(
                protocol.peer,
                actor,
                frame,
            ) == binding.refusal(actor, frame.message) && protocol.after(actor, frame).binding(id)
                == binding.after(actor, frame.request_id, frame.message)
            &&& frame.request_id != binding.sequence.of(actor) + 1 ==> protocol.refusal(
                protocol.peer,
                actor,
                frame,
            ) is Some
        }),
{
    let id = frame.message.subject()->0;
    let at = protocol.position(id);
    let after = protocol.after(actor, frame);
    lemma_first_index(protocol.tasks, bound_to(id));
    assert forall|k: int| 0 <= k < at implies !bound_to(id)(#[trigger] after.tasks[k]) by {
        assert(!bound_to(id)(protocol.tasks[k]));
    }
    assert(bound_to(id)(after.tasks[at]));
    lemma_is_first_index(after.tasks, bound_to(id), at);
}

/// A task that the store authorized starts with its first numbers and no pause, and can be
/// asked to go on by either end, for the content that it had.
pub proof fn restored_tasks_can_go_on(
    sender: Actor,
    root: ChunkHash,
    chunks: usize,
    paused: bool,
    actor: Actor,
    id: TaskId,
)
    ensures
        ({
            let binding = ProtocolView::restored(sender, root, chunks, paused);
            &&& binding.sender == sender
            &&& binding.root == root
            &&& binding.chunks == chunks
            &&& binding.state == (if paused {
                WireTaskState::Paused
            } else {
                WireTaskState::Interrupted
            })
            &&& binding.sequence.local == 0
            &&& binding.sequence.remote == 0
            &&& binding.pauses.local is None
            &&& binding.pauses.remote is None
            &&& binding.refusal(actor, Message::ResumeTask { task_id: id }) is None
        }),
{
}

/// Whatever another peer sends is refused, and so is what is said of an unknown task.
pub proof fn strangers_are_refused(
    protocol: ProtocolView,
    peer: NodeId,
    actor: Actor,
    frame: Frame,
)
    requires
        peer != protocol.peer || (frame.message !is Offer && !(frame.message.subject() matches Some(
            id,
        ) && protocol.knows(id))),
    ensures
        protocol.refusal(peer, actor, frame) is Some,
{
}

/// Task messages are numbered from one, the others are not numbered; receipts have the
/// version of this program.
pub proof fn frames_are_numbered_by_kind(frame: Frame)
    requires
        frame.refusal() is None,
    ensures
        frame.message is Hello || frame.message is Ready <==> frame.request_id == 0,
        frame.message matches Message::Completed { receipt_version, .. } ==> receipt_version == 1,
        frame.message matches Message::Resume { have, .. } ==> have@.len() <= 8192,
{
}

/// A peer agrees if it speaks this version and can do at least what is required.
pub proof fn agreement_needs_every_capability(version: u16, capabilities: u64)
    ensures
        compatible(Message::Hello { version, capabilities }) <==> version == 1 && capabilities & 1
            == 1 && capabilities & 2 == 2 && capabilities & 4 == 4 && capabilities & 8 == 8,
{
    assert(capabilities & 15 == 15 <==> capabilities & 1 == 1 && capabilities & 2 == 2
        && capabilities & 4 == 4 && capabilities & 8 == 8) by (bit_vector);
}

/// What a resume says is present fits exactly if it speaks of each chunk and of nothing
/// beyond the last one.
pub proof fn bitmaps_speak_of_the_chunks(have: Seq<u8>, chunks: usize)
    ensures
        bitmap_fits(have, chunks) ==> 8 * have.len() >= chunks && 8 * have.len() < chunks + 8,
        8 * have.len() < chunks || 8 * have.len() >= chunks + 8 ==> !bitmap_fits(have, chunks),
        bitmap_fits(have, chunks) ==> forall|j: int|
            #![trigger bit_of(have[j / 8], j % 8)]
            chunks <= j < 8 * have.len() ==> !bit_of(have[j / 8], j % 8),
{
    pieces_cover_the_length(chunks as nat, 8);
    if bitmap_fits(have, chunks) {
        assert forall|j: int|
            #![trigger bit_of(have[j / 8], j % 8)]
            chunks <= j < 8 * have.len() implies !bit_of(have[j / 8], j % 8) by {
            let at = have.len() - 1;
            let used = chunks as int % 8;
            assert(j / 8 == at);
            assert(used != 0 && j % 8 >= used);
            let byte = have[at];
            let low = used as u8;
            let bit = (j % 8) as u8;
            assert(byte >> low == 0u8);
            assert((byte >> bit) & 1u8 != 1u8) by (bit_vector)
                requires
                    byte >> low == 0u8,
                    low <= bit <= 7,
            ;
        }
    }
}

/// The frames of a task are numbered from one on, each end counting its own.
pub proof fn numbers_count_up(protocol: ProtocolView, id: Seq<char>, actor: Actor)
    ensures
        !protocol.knows(id) ==> protocol.next_number(id, actor) == 1,
        protocol.knows(id) ==> protocol.next_number(id, actor) == 1 + match actor {
            Actor::Local => protocol.binding(id).sequence.local,
            Actor::Remote => protocol.binding(id).sequence.remote,
        },
{
}

/// A task is taken up again exactly if it is not known yet and fits.
pub proof fn unknown_tasks_are_restored(protocol: ProtocolView, id: Seq<char>, chunks: usize)
    ensures
        protocol.restore_refusal(id, chunks) is None <==> protocol.tasks.len() < 128
            && !protocol.knows(id) && chunks <= 65536,
{
}

} // verus!
