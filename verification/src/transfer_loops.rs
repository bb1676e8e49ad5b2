//! The two ends of one transfer, as machines: each input gives the steps to be done.

use vstd::prelude::*;

use crate::error::{decided, failure, Result};
use crate::manifest::{
    bytes_before, chunk_extent, chunks_tile_the_file, is_bitmap, positions, ChunkBitmap, ChunkHash,
    FileManifest, ManifestView,
};
use crate::protocol::{Frame, Message, WireTaskState, RECEIPT_VERSION};
use crate::task_model::{TaskId, TaskState};
use crate::transfer::{remote_error, remote_text, WINDOW};

verus! {

/// A step of a transfer. Steps are done in order; the first failure ends the transfer.
#[derive(Debug)]
pub enum TransferAction {
    SetState(TaskState),
    Send(Message),
    SendChunk(u32),
    WriteChunk(u32, Vec<u8>),
    Checkpoint,
    NoteProgress(u64),
    Publish,
    CommitReceipt,
    Finish,
}

/// The bytes of the chunks among the first ones that are marked.
pub open spec fn marked_before(manifest: ManifestView, flags: Seq<bool>, count: nat) -> nat
    decreases count,
{
    if count == 0 {
        0
    } else {
        marked_before(manifest, flags, (count - 1) as nat) + if flags[count - 1] {
            chunk_extent(
                manifest.total_len as nat,
                manifest.chunk_size as nat,
                (count - 1) as nat,
            ).1
        } else {
            0
        }
    }
}

/// The bytes of the chunks that are marked.
pub open spec fn marked_bytes(manifest: ManifestView, flags: Seq<bool>) -> nat {
    marked_before(manifest, flags, flags.len())
}

proof fn lemma_marked_bounded(manifest: ManifestView, flags: Seq<bool>, count: nat)
    requires
        count <= flags.len(),
    ensures
        marked_before(manifest, flags, count) <= bytes_before(
            manifest.total_len as nat,
            manifest.chunk_size as nat,
            count,
        ),
        (forall|i: int| 0 <= i < count ==> flags[i]) ==> marked_before(manifest, flags, count)
            == bytes_before(manifest.total_len as nat, manifest.chunk_size as nat, count),
    decreases count,
{
    if count > 0 {
        lemma_marked_bounded(manifest, flags, (count - 1) as nat);
    }
}

proof fn lemma_marked_one_more(manifest: ManifestView, flags: Seq<bool>, at: int, count: nat)
    requires
        0 <= at < flags.len(),
        !flags[at],
        count <= flags.len(),
    ensures
        marked_before(manifest, flags.update(at, true), count) == marked_before(
            manifest,
            flags,
            count,
        ) + if at < count {
            chunk_extent(
                manifest.total_len as nat,
                manifest.chunk_size as nat,
                at as nat,
            ).1
        } else {
            0
        },
    decreases count,
{
    if count > 0 {
        lemma_marked_one_more(manifest, flags, at, (count - 1) as nat);
    }
}

proof fn lemma_marked_within(manifest: ManifestView, flags: Seq<bool>)
    requires
        manifest.shaped(),
        flags.len() == manifest.chunks.len(),
    ensures
        marked_bytes(manifest, flags) <= manifest.total_len,
        (forall|i: int| 0 <= i < flags.len() ==> flags[i]) ==> marked_bytes(manifest, flags)
            == manifest.total_len,
{
    lemma_marked_bounded(manifest, flags, flags.len());
    chunks_tile_the_file(manifest, flags.len());
}

proof fn lemma_nothing_marked(manifest: ManifestView, flags: Seq<bool>, count: nat)
    requires
        count <= flags.len(),
        forall|i: int| 0 <= i < count ==> !flags[i],
    ensures
        marked_before(manifest, flags, count) == 0,
    decreases count,
{
    if count > 0 {
        lemma_nothing_marked(manifest, flags, (count - 1) as nat);
    }
}

/// The bytes of the chunks that are marked.
pub fn bytes_for(manifest: &FileManifest, present: &ChunkBitmap) -> (bytes: u64)
    requires
        manifest@.shaped(),
        present@.len() == manifest@.chunks.len(),
        present@.len() <= u32::MAX,
    ensures
        bytes == marked_bytes(manifest@, present@),
        bytes <= manifest@.total_len,
{
    let count: usize = manifest.chunk_count();
    let mut bytes: u64 = 0;
    let mut i: usize = 0;
    while i < count
        invariant
            i <= count,
            count == present@.len(),
            count == manifest@.chunks.len(),
            count <= u32::MAX,
            manifest@.shaped(),
            bytes == marked_before(manifest@, present@, i as nat),
            bytes <= manifest@.total_len,
        decreases count - i,
    {
        proof {
            lemma_marked_bounded(manifest@, present@, (i + 1) as nat);
            chunks_tile_the_file(manifest@, (i + 1) as nat);
        }
        if present.has(i as u32) {
            match manifest.chunk_range(i as u32) {
                Some((_, length)) => {
                    bytes = bytes + length as u64;
                },
                None => {},
            }
        }
        i = i + 1;
    }
    bytes
}

/// Two sets of flags put together.
pub open spec fn either(left: Seq<bool>, right: Seq<bool>) -> Seq<bool> {
    Seq::new(left.len(), |i: int| left[i] || right[i])
}

fn mark_all(flags: &mut ChunkBitmap, more: &ChunkBitmap)
    requires
        old(flags)@.len() == more@.len(),
        more@.len() <= u32::MAX,
    ensures
        final(flags)@ == either(old(flags)@, more@),
{
    let ghost before = flags@;
    let ghost count = flags@.len();
    let indices = more.list(true);
    proof {
        lemma_positions(more@, true);
    }
    let mut i: usize = 0;
    while i < indices.len()
        invariant
            i <= indices@.len(),
            flags@.len() == count,
            count == more@.len(),
            before.len() == count,
            indices@ == positions(more@, true),
            forall|k: int|
                0 <= k < indices@.len() ==> (#[trigger] indices@[k]) < count && more@[indices@[k]
                    as int],
            forall|c: int|
                0 <= c < count ==> #[trigger] flags@[c] == (before[c] || exists|k: int|
                    0 <= k < i && #[trigger] indices@[k] == c),
        decreases indices@.len() - i,
    {
        let ghost earlier = flags@;
        let _ = flags.insert(indices[i]);
        proof {
            assert forall|c: int| 0 <= c < count implies #[trigger] flags@[c] == (before[c]
                || exists|k: int| 0 <= k < i + 1 && #[trigger] indices@[k] == c) by {
                if indices@[i as int] == c {
                    assert(flags@[c]);
                } else {
                    assert(flags@[c] == earlier[c]);
                    if exists|k: int| 0 <= k < i + 1 && #[trigger] indices@[k] == c {
                        let k = choose|k: int| 0 <= k < i + 1 && #[trigger] indices@[k] == c;
                        assert(k != i);
                        assert(exists|k: int| 0 <= k < i && #[trigger] indices@[k] == c);
                    }
                }
            }
        }
        i = i + 1;
    }
    proof {
        assert forall|c: int| 0 <= c < count implies #[trigger] flags@[c] == (before[c]
            || more@[c]) by {
            if more@[c] {
                let k = choose|k: int| 0 <= k < indices@.len() && #[trigger] indices@[k] == c;
                assert(indices@[k] == c);
            }
        }
        assert(flags@ =~= either(before, more@));
    }
}

proof fn lemma_positions(flags: Seq<bool>, value: bool)
    requires
        flags.len() <= u32::MAX,
    ensures
        forall|k: int|
            0 <= k < positions(flags, value).len() ==> (#[trigger] positions(flags, value)[k])
                < flags.len() && flags[positions(flags, value)[k] as int] == value,
        forall|c: int|
            0 <= c < flags.len() && #[trigger] flags[c] == value ==> exists|k: int|
                0 <= k < positions(flags, value).len() && #[trigger] positions(flags, value)[k]
                    == c,
        forall|j: int, k: int|
            0 <= j < k < positions(flags, value).len() ==> (#[trigger] positions(flags, value)[j])
                < (#[trigger] positions(flags, value)[k]),
    decreases flags.len(),
{
    if flags.len() > 0 {
        let front = flags.drop_last();
        lemma_positions(front, value);
        let before = positions(front, value);
        let all = positions(flags, value);
        assert forall|c: int| 0 <= c < flags.len() && #[trigger] flags[c] == value implies exists|
            k: int,
        |
            0 <= k < all.len() && #[trigger] all[k] == c by {
            if c < front.len() {
                assert(front[c] == value);
                let k = choose|k: int| 0 <= k < before.len() && #[trigger] before[k] == c;
                assert(all[k] == c);
            } else {
                assert(all[all.len() - 1] == c);
            }
        }
    }
}

fn holds_index(list: &Vec<u32>, index: u32) -> (found: bool)
    ensures
        found == list@.contains(index),
{
    let mut i: usize = 0;
    while i < list.len()
        invariant
            i <= list@.len(),
            forall|k: int| 0 <= k < i ==> list@[k] != index,
        decreases list@.len() - i,
    {
        if list[i] == index {
            assert(list@[i as int] == index);
            return true;
        }
        i = i + 1;
    }
    false
}

/// A list without the first occurrence of an index.
pub open spec fn without(list: Seq<u32>, index: u32) -> Seq<u32> {
    if list.contains(index) {
        list.remove(list.index_of_first(index)->0)
    } else {
        list
    }
}

fn drop_index(list: &mut Vec<u32>, index: u32) -> (found: bool)
    ensures
        found == old(list)@.contains(index),
        final(list)@ == without(old(list)@, index),
{
    let ghost before = list@;
    let mut i: usize = 0;
    while i < list.len()
        invariant
            i <= list@.len(),
            list@ == before,
            before == old(list)@,
            forall|k: int| 0 <= k < i ==> list@[k] != index,
        decreases list@.len() - i,
    {
        if list[i] == index {
            let _ = list.remove(i);
            proof {
                before.index_of_first_ensures(index);
                assert(before[i as int] == index);
                let at = before.index_of_first(index)->0;
                assert(at == i);
            }
            return true;
        }
        i = i + 1;
    }
    false
}

/// What a transfer is told.
#[derive(Debug)]
pub enum TransferInput {
    PauseRequested,
    Received(Frame),
}

/// Whether an input is one after which progress is noted where that is due.
pub fn notes_progress(input: &TransferInput) -> (notes: bool)
    ensures
        notes == match *input {
            TransferInput::PauseRequested => false,
            TransferInput::Received(frame) => frame.message is ChunkAck || frame.message is Chunk,
        },
{
    match input {
        TransferInput::PauseRequested => false,
        TransferInput::Received(frame) => matches!(
            frame.message,
            Message::ChunkAck { .. } | Message::Chunk { .. }
        ),
    }
}

/// The sending end, as mathematical values.
pub struct SenderView {
    pub id: TaskId,
    pub manifest: ManifestView,
    pub resumed: bool,
    pub pending_pause: bool,
    pub acknowledged: Seq<bool>,
    pub sent: Seq<u32>,
    pub pausing: bool,
}

/// The sending end of a transfer.
#[derive(Debug)]
pub struct Sender {
    id: TaskId,
    manifest: FileManifest,
    resumed: bool,
    pending_pause: bool,
    acknowledged: ChunkBitmap,
    sent: Vec<u32>,
    bytes: u64,
    pausing: bool,
}

impl View for Sender {
    type V = SenderView;

    closed spec fn view(&self) -> SenderView {
        SenderView {
            id: self.id,
            manifest: self.manifest@,
            resumed: self.resumed,
            pending_pause: self.pending_pause,
            acknowledged: self.acknowledged@,
            sent: self.sent@,
            pausing: self.pausing,
        }
    }
}

impl SenderView {
    /// Chunks on their way exist, are few, and none is counted twice.
    pub open spec fn valid(self) -> bool {
        &&& self.manifest.shaped()
        &&& self.manifest.chunks.len() <= u32::MAX
        &&& self.acknowledged.len() == self.manifest.chunks.len()
        &&& self.sent.len() <= WINDOW
        &&& forall|k: int|
            0 <= k < self.sent.len() ==> (#[trigger] self.sent[k]) < self.acknowledged.len()
        &&& forall|j: int, k: int|
            0 <= j < k < self.sent.len() ==> #[trigger] self.sent[j] != #[trigger] self.sent[k]
    }

    /// The sending end of a file before the receiver has said what it has.
    pub open spec fn begun(id: TaskId, manifest: ManifestView) -> SenderView {
        SenderView {
            id,
            manifest,
            resumed: false,
            pending_pause: false,
            acknowledged: Seq::new(manifest.chunks.len(), |i: int| false),
            sent: Seq::empty(),
            pausing: false,
        }
    }

    /// The message that asks for a pause.
    pub open spec fn pause(self) -> TransferAction {
        TransferAction::Send(Message::Pause { task_id: self.id })
    }

    /// The bytes that the receiver has confirmed.
    pub open spec fn confirmed(self) -> nat {
        marked_bytes(self.manifest, self.acknowledged)
    }

    /// Why an input ends the transfer.
    pub open spec fn refusal(self, input: TransferInput) -> Option<Seq<char>> {
        match input {
            TransferInput::PauseRequested => None,
            TransferInput::Received(frame) => match frame.message {
                Message::Resume { have, .. } => if exists|flags: Seq<bool>|
                    flags.len() == self.acknowledged.len() && #[trigger] is_bitmap(have@, flags) {
                    None
                } else {
                    Some("恢复位图长度或未用位非法"@)
                },
                Message::RequestChunk { index, .. } => if !self.resumed || self.sent.len() >= WINDOW
                    || (index < self.acknowledged.len() && self.acknowledged[index as int])
                    || self.sent.contains(index) {
                    Some("重复或未授权分片请求"@)
                } else if index >= self.acknowledged.len() {
                    Some("分片索引非法"@)
                } else {
                    None
                },
                Message::ChunkAck { index, .. } => if !self.sent.contains(index)
                    || self.acknowledged[index as int] {
                    Some("重复或未知分片确认"@)
                } else {
                    None
                },
                Message::Pause { .. } => None,
                Message::Paused { .. } => None,
                Message::Completed { .. } => None,
                Message::Error { code, .. } => Some(remote_text(code)),
                _ => Some("发送任务收到非法消息"@),
            },
        }
    }

    /// The sending end after an accepted input, and the steps that it asks for.
    pub open spec fn told(self, input: TransferInput, due: bool) -> (
        SenderView,
        Seq<TransferAction>,
    ) {
        match input {
            TransferInput::PauseRequested => (
                SenderView {
                    pausing: true,
                    pending_pause: self.pending_pause || !self.resumed,
                    ..self
                },
                (if self.pausing {
                    Seq::empty()
                } else {
                    seq![TransferAction::SetState(TaskState::Pausing)]
                }) + (if self.resumed {
                    seq![self.pause()]
                } else {
                    Seq::empty()
                }),
            ),
            TransferInput::Received(frame) => match frame.message {
                Message::Resume { have, .. } => {
                    let flags = choose|flags: Seq<bool>|
                        flags.len() == self.acknowledged.len() && #[trigger] is_bitmap(have@, flags);
                    let after = SenderView {
                        resumed: true,
                        pending_pause: false,
                        acknowledged: either(self.acknowledged, flags),
                        ..self
                    };
                    (
                        after,
                        seq![TransferAction::NoteProgress(after.confirmed() as u64)] + (if
                            self.pending_pause {
                            seq![self.pause()]
                        } else {
                            Seq::empty()
                        }),
                    )
                },
                Message::RequestChunk { index, .. } => (
                    SenderView { sent: self.sent.push(index), ..self },
                    seq![TransferAction::SendChunk(index)],
                ),
                Message::ChunkAck { index, .. } => {
                    let after = SenderView {
                        sent: without(self.sent, index),
                        acknowledged: self.acknowledged.update(index as int, true),
                        ..self
                    };
                    (
                        after,
                        if due {
                            seq![TransferAction::NoteProgress(after.confirmed() as u64)]
                        } else {
                            Seq::empty()
                        },
                    )
                },
                Message::Pause { .. } => (
                    SenderView { pausing: true, ..self },
                    (if self.pausing {
                        Seq::empty()
                    } else {
                        seq![TransferAction::SetState(TaskState::Pausing), self.pause()]
                    }) + seq![
                        TransferAction::Send(
                            Message::Paused {
                                task_id: self.id,
                                pause_request_id: frame.request_id,
                            },
                        ),
                    ],
                ),
                Message::Completed { .. } => (
                    self,
                    seq![
                        TransferAction::NoteProgress(self.manifest.total_len),
                        TransferAction::SetState(TaskState::Finalizing),
                        TransferAction::CommitReceipt,
                        TransferAction::Finish,
                    ],
                ),
                _ => (self, Seq::empty()),
            },
        }
    }
}

/// The steps that end a transfer which both ends have paused.
pub open spec fn paused_steps(gate: Option<WireTaskState>) -> Seq<TransferAction> {
    if gate == Some(WireTaskState::Paused) {
        seq![TransferAction::SetState(TaskState::Paused), TransferAction::Finish]
    } else {
        Seq::empty()
    }
}

impl Sender {
    /// The count of confirmed bytes is right, and the chunks on their way are.
    pub closed spec fn valid(self) -> bool {
        &&& self@.valid()
        &&& self.bytes == self@.confirmed()
    }

    /// Starts to send a file; the receiver says first what it has.
    pub fn new(id: TaskId, manifest: FileManifest) -> (sender: Sender)
        requires
            manifest@.shaped(),
            manifest@.chunks.len() <= u32::MAX,
        ensures
            sender.valid(),
            sender@ == SenderView::begun(id, manifest@),
    {
        let acknowledged = ChunkBitmap::new(manifest.chunk_count());
        proof {
            lemma_nothing_marked(manifest@, acknowledged@, acknowledged@.len());
        }
        Sender {
            id,
            manifest,
            resumed: false,
            pending_pause: false,
            acknowledged,
            sent: Vec::new(),
            bytes: 0,
            pausing: false,
        }
    }

    /// Whether a pause is under way.
    pub fn is_pausing(&self) -> (pausing: bool)
        ensures
            pausing == self@.pausing,
    {
        self.pausing
    }

    /// The steps to do before waiting for the next input.
    pub fn before_input(&self, gate: Option<WireTaskState>) -> (actions: Vec<TransferAction>)
        ensures
            actions@ == paused_steps(gate),
    {
        let mut actions: Vec<TransferAction> = Vec::new();
        if let Some(state) = gate {
            if state == WireTaskState::Paused {
                actions.push(TransferAction::SetState(TaskState::Paused));
                actions.push(TransferAction::Finish);
            }
        }
        assert(actions@ =~= paused_steps(gate));
        actions
    }

    fn pause_message(&self) -> (action: TransferAction)
        ensures
            action == self@.pause(),
    {
        TransferAction::Send(Message::Pause { task_id: self.id.clone() })
    }

    fn on_pause_requested(&mut self) -> (actions: Vec<TransferAction>)
        requires
            old(self).valid(),
        ensures
            final(self).valid(),
            (final(self)@, actions@) == old(self)@.told(TransferInput::PauseRequested, false),
    {
        let mut actions: Vec<TransferAction> = Vec::new();
        if !self.pausing {
            actions.push(TransferAction::SetState(TaskState::Pausing));
            self.pausing = true;
        }
        if self.resumed {
            actions.push(self.pause_message());
        } else {
            self.pending_pause = true;
        }
        assert(actions@ =~= old(self)@.told(TransferInput::PauseRequested, false).1);
        actions
    }

    fn on_resume(&mut self, have: &Vec<u8>) -> (result: Result<Vec<TransferAction>>)
        requires
            old(self).valid(),
        ensures
            final(self).valid(),
            ({
                let fits = exists|flags: Seq<bool>|
                    flags.len() == old(self)@.acknowledged.len() && #[trigger] is_bitmap(
                        have@,
                        flags,
                    );
                let flags = choose|flags: Seq<bool>|
                    flags.len() == old(self)@.acknowledged.len() && #[trigger] is_bitmap(
                        have@,
                        flags,
                    );
                let after = SenderView {
                    resumed: true,
                    pending_pause: false,
                    acknowledged: either(old(self)@.acknowledged, flags),
                    ..old(self)@
                };
                match result {
                    Ok(actions) => fits && final(self)@ == after && actions@ == seq![
                        TransferAction::NoteProgress(after.confirmed() as u64),
                    ] + (if old(self)@.pending_pause {
                        seq![old(self)@.pause()]
                    } else {
                        Seq::empty()
                    }),
                    Err(error) => !fits && error.refuses("恢复位图长度或未用位非法"@)
                        && final(self)@ == old(self)@,
                }
            }),
    {
        let ghost before = self@;
        let bitmap = ChunkBitmap::from_bytes(self.manifest.chunk_count(), have)?;
        proof {
            let flags = choose|flags: Seq<bool>|
                flags.len() == before.acknowledged.len() && #[trigger] is_bitmap(have@, flags);
            crate::manifest::bitmap_reads_back(have@, bitmap@, flags);
        }
        mark_all(&mut self.acknowledged, &bitmap);
        self.bytes = bytes_for(&self.manifest, &self.acknowledged);
        self.resumed = true;
        let mut actions: Vec<TransferAction> = Vec::new();
        actions.push(TransferAction::NoteProgress(self.bytes));
        if self.pending_pause {
            actions.push(self.pause_message());
            self.pending_pause = false;
        }
        assert(actions@ =~= seq![TransferAction::NoteProgress(self.bytes)] + (if
            before.pending_pause {
            seq![before.pause()]
        } else {
            Seq::empty()
        }));
        Ok(actions)
    }

    fn on_request(&mut self, index: u32) -> (result: Result<Vec<TransferAction>>)
        requires
            old(self).valid(),
        ensures
            final(self).valid(),
            match result {
                Ok(actions) => old(self)@.resumed && old(self)@.sent.len() < WINDOW && index
                    < old(self)@.acknowledged.len() && !old(self)@.acknowledged[index as int]
                    && !old(self)@.sent.contains(index) && final(self)@ == (SenderView {
                    sent: old(self)@.sent.push(index),
                    ..old(self)@
                }) && actions@ == seq![TransferAction::SendChunk(index)],
                Err(error) => final(self)@ == old(self)@ && if !old(self)@.resumed
                    || old(self)@.sent.len() >= WINDOW || (index < old(self)@.acknowledged.len()
                    && old(self)@.acknowledged[index as int]) || old(self)@.sent.contains(index) {
                    error.refuses("重复或未授权分片请求"@)
                } else {
                    index >= old(self)@.acknowledged.len() && error.refuses("分片索引非法"@)
                },
            },
    {
        if !self.resumed || self.sent.len() >= WINDOW || self.acknowledged.has(index)
            || holds_index(&self.sent, index) {
            return Err(failure("重复或未授权分片请求"));
        }
        if index as u64 >= self.manifest.chunk_count() as u64 {
            return Err(failure("分片索引非法"));
        }
        let ghost before = self.sent@;
        self.sent.push(index);
        proof {
            assert forall|j: int, k: int| 0 <= j < k < self.sent@.len() implies #[trigger] self.sent@[j]
                != #[trigger] self.sent@[k] by {
                if k == before.len() {
                    assert(before.contains(before[j]));
                }
            }
        }
        let mut actions: Vec<TransferAction> = Vec::new();
        actions.push(TransferAction::SendChunk(index));
        assert(actions@ =~= seq![TransferAction::SendChunk(index)]);
        Ok(actions)
    }

    fn on_acknowledged(&mut self, index: u32, due: bool) -> (result: Result<Vec<TransferAction>>)
        requires
            old(self).valid(),
        ensures
            result is Ok ==> final(self).valid(),
            match result {
                Ok(actions) => {
                    let after = SenderView {
                        sent: without(old(self)@.sent, index),
                        acknowledged: old(self)@.acknowledged.update(index as int, true),
                        ..old(self)@
                    };
                    &&& old(self)@.sent.contains(index)
                    &&& !old(self)@.acknowledged[index as int]
                    &&& final(self)@ == after
                    &&& actions@ == if due {
                        seq![TransferAction::NoteProgress(after.confirmed() as u64)]
                    } else {
                        Seq::empty()
                    }
                },
                Err(error) => (!old(self)@.sent.contains(index)
                    || old(self)@.acknowledged[index as int]) && error.refuses(
                    "重复或未知分片确认"@,
                ) && *final(self) == *old(self),
            },
    {
        if !holds_index(&self.sent, index) || self.acknowledged.has(index) {
            proof {
                if self.sent@.contains(index) {
                    let k = choose|k: int| 0 <= k < self.sent@.len() && self.sent@[k] == index;
                    assert(self.sent@[k] < self@.acknowledged.len());
                }
            }
            return Err(failure("重复或未知分片确认"));
        }
        let ghost before = self@;
        let _ = drop_index(&mut self.sent, index);
        proof {
            before.sent.index_of_first_ensures(index);
            let at = before.sent.index_of_first(index)->0;
            assert(before.sent[at] == index);
            assert(self.sent@ == before.sent.remove(at));
            assert forall|j: int, k: int| 0 <= j < k < self.sent@.len() implies #[trigger] self.sent@[j]
                != #[trigger] self.sent@[k] by {
                let a = if j < at {
                    j
                } else {
                    j + 1
                };
                let b = if k < at {
                    k
                } else {
                    k + 1
                };
                assert(before.sent[a] != before.sent[b]);
            }
            assert forall|k: int| 0 <= k < self.sent@.len() implies (#[trigger] self.sent@[k])
                < before.acknowledged.len() by {
                let b = if k < at {
                    k
                } else {
                    k + 1
                };
                assert(before.sent[b] < before.acknowledged.len());
            }
            lemma_marked_one_more(
                before.manifest,
                before.acknowledged,
                index as int,
                before.acknowledged.len(),
            );
            lemma_marked_within(
                before.manifest,
                before.acknowledged.update(index as int, true),
            );
        }
        let _ = self.acknowledged.insert(index);
        match self.manifest.chunk_range(index) {
            Some((_, length)) => {
                self.bytes = self.bytes + length as u64;
            },
            None => {},
        }
        let mut actions: Vec<TransferAction> = Vec::new();
        if due {
            actions.push(TransferAction::NoteProgress(self.bytes));
        }
        assert(actions@ =~= if due {
            seq![TransferAction::NoteProgress(self.bytes)]
        } else {
            Seq::<TransferAction>::empty()
        });
        Ok(actions)
    }

    fn on_pause(&mut self, request_id: u64) -> (actions: Vec<TransferAction>)
        requires
            old(self).valid(),
        ensures
            final(self).valid(),
            final(self)@ == (SenderView { pausing: true, ..old(self)@ }),
            actions@ == (if old(self)@.pausing {
                Seq::empty()
            } else {
                seq![TransferAction::SetState(TaskState::Pausing), old(self)@.pause()]
            }) + seq![
                TransferAction::Send(
                    Message::Paused { task_id: old(self)@.id, pause_request_id: request_id },
                ),
            ],
    {
        let ghost before = self@;
        let mut actions: Vec<TransferAction> = Vec::new();
        if !self.pausing {
            actions.push(TransferAction::SetState(TaskState::Pausing));
            actions.push(self.pause_message());
            self.pausing = true;
        }
        actions.push(
            TransferAction::Send(
                Message::Paused { task_id: self.id.clone(), pause_request_id: request_id },
            ),
        );
        assert(actions@ =~= (if before.pausing {
            Seq::<TransferAction>::empty()
        } else {
            seq![TransferAction::SetState(TaskState::Pausing), before.pause()]
        }) + seq![
            TransferAction::Send(
                Message::Paused { task_id: before.id, pause_request_id: request_id },
            ),
        ]);
        actions
    }

    fn on_completed(&self) -> (actions: Vec<TransferAction>)
        ensures
            actions@ == seq![
                TransferAction::NoteProgress(self@.manifest.total_len),
                TransferAction::SetState(TaskState::Finalizing),
                TransferAction::CommitReceipt,
                TransferAction::Finish,
            ],
    {
        let mut actions: Vec<TransferAction> = Vec::new();
        actions.push(TransferAction::NoteProgress(self.manifest.total_len));
        actions.push(TransferAction::SetState(TaskState::Finalizing));
        actions.push(TransferAction::CommitReceipt);
        actions.push(TransferAction::Finish);
        assert(actions@ =~= seq![
            TransferAction::NoteProgress(self@.manifest.total_len),
            TransferAction::SetState(TaskState::Finalizing),
            TransferAction::CommitReceipt,
            TransferAction::Finish,
        ]);
        actions
    }

    /// Takes an input. Progress that is due is noted with the next confirmed chunk.
    pub fn take(&mut self, input: TransferInput, due: bool) -> (result: Result<
        Vec<TransferAction>,
    >)
        requires
            old(self).valid(),
        ensures
            decided(result, old(self)@.refusal(input)),
            result matches Ok(actions) ==> final(self).valid() && (final(self)@, actions@)
                == old(self)@.told(input, due),
            result is Err ==> final(self)@ == old(self)@,
    {
        match input {
            TransferInput::PauseRequested => Ok(self.on_pause_requested()),
            TransferInput::Received(frame) => match frame.message {
                Message::Resume { have, .. } => self.on_resume(&have),
                Message::RequestChunk { index, .. } => self.on_request(index),
                Message::ChunkAck { index, .. } => self.on_acknowledged(index, due),
                Message::Pause { .. } => Ok(self.on_pause(frame.request_id)),
                Message::Paused { .. } => Ok(Vec::new()),
                Message::Completed { .. } => Ok(self.on_completed()),
                Message::Error { code, .. } => Err(remote_error(code)),
                _ => Err(failure("发送任务收到非法消息")),
            },
        }
    }
}

/// The receiving end, as mathematical values.
pub struct ReceiverView {
    pub id: TaskId,
    pub manifest: ManifestView,
    pub present: Seq<bool>,
    pub missing: Seq<u32>,
    pub outstanding: Seq<u32>,
    pub pausing: bool,
    pub remote_pause: Option<u64>,
    pub checkpointed: bool,
}

/// The receiving end of a transfer.
#[derive(Debug)]
pub struct Receiver {
    id: TaskId,
    manifest: FileManifest,
    present: ChunkBitmap,
    missing: Vec<u32>,
    outstanding: Vec<u32>,
    bytes: u64,
    pausing: bool,
    remote_pause: Option<u64>,
    checkpointed: bool,
}

impl View for Receiver {
    type V = ReceiverView;

    closed spec fn view(&self) -> ReceiverView {
        ReceiverView {
            id: self.id,
            manifest: self.manifest@,
            present: self.present@,
            missing: self.missing@,
            outstanding: self.outstanding@,
            pausing: self.pausing,
            remote_pause: self.remote_pause,
            checkpointed: self.checkpointed,
        }
    }
}

/// The requests for some chunks.
pub open spec fn requests(id: TaskId, indices: Seq<u32>) -> Seq<TransferAction> {
    indices.map_values(
        |index: u32| TransferAction::Send(Message::RequestChunk { task_id: id, index }),
    )
}

impl ReceiverView {
    /// Every chunk is present, asked for or still missing, and only one of these.
    pub open spec fn valid(self) -> bool {
        &&& self.manifest.shaped()
        &&& self.manifest.chunks.len() <= u32::MAX
        &&& self.present.len() == self.manifest.chunks.len()
        &&& self.outstanding.len() <= WINDOW
        &&& forall|k: int|
            0 <= k < self.missing.len() ==> (#[trigger] self.missing[k]) < self.present.len()
                && !self.present[self.missing[k] as int] && !self.outstanding.contains(
                self.missing[k],
            )
        &&& forall|k: int|
            0 <= k < self.outstanding.len() ==> (#[trigger] self.outstanding[k])
                < self.present.len() && !self.present[self.outstanding[k] as int]
        &&& self.missing.no_duplicates()
        &&& self.outstanding.no_duplicates()
        &&& forall|c: int|
            0 <= c < self.present.len() ==> #[trigger] self.present[c] || self.missing.contains(
                c as u32,
            ) || self.outstanding.contains(c as u32)
    }

    /// The bytes that are present.
    pub open spec fn received(self) -> nat {
        marked_bytes(self.manifest, self.present)
    }

    /// Whether the whole content is present.
    pub open spec fn complete(self) -> bool {
        self.received() == self.manifest.total_len
    }

    /// How many chunks can be asked for now.
    pub open spec fn room(self) -> int {
        let free = WINDOW - self.outstanding.len();
        if free < self.missing.len() {
            free
        } else {
            self.missing.len() as int
        }
    }

    /// The receiving end when it turns to its next input, and the steps before that.
    pub open spec fn turned(self) -> (ReceiverView, Seq<TransferAction>) {
        if self.complete() {
            (
                self,
                seq![
                    TransferAction::SetState(TaskState::Finalizing),
                    TransferAction::Publish,
                    TransferAction::NoteProgress(self.manifest.total_len),
                    TransferAction::Send(
                        Message::Completed {
                            task_id: self.id,
                            root_hash: self.manifest.root_hash,
                            receipt_version: RECEIPT_VERSION,
                        },
                    ),
                    TransferAction::Finish,
                ],
            )
        } else if !self.pausing {
            (
                ReceiverView {
                    missing: self.missing.skip(self.room()),
                    outstanding: self.outstanding + self.missing.take(self.room()),
                    ..self
                },
                requests(self.id, self.missing.take(self.room())),
            )
        } else if self.outstanding.len() == 0 {
            (
                ReceiverView { checkpointed: true, remote_pause: None, ..self },
                (if self.checkpointed {
                    Seq::empty()
                } else {
                    seq![TransferAction::Checkpoint]
                }) + (match self.remote_pause {
                    Some(request_id) => seq![
                        TransferAction::Send(
                            Message::Paused { task_id: self.id, pause_request_id: request_id },
                        ),
                    ],
                    None => Seq::empty(),
                }),
            )
        } else {
            (self, Seq::empty())
        }
    }

    /// The steps that end a paused transfer once both ends have acknowledged it.
    pub open spec fn settling(self, gate: Option<WireTaskState>) -> Seq<TransferAction> {
        if self.settled(gate) {
            seq![
                TransferAction::NoteProgress(self.received() as u64),
                TransferAction::SetState(TaskState::Paused),
                TransferAction::Finish,
            ]
        } else {
            Seq::empty()
        }
    }

    /// The receiving end of a file of which some chunks are present.
    pub open spec fn begun(id: TaskId, manifest: ManifestView, present: Seq<bool>) -> ReceiverView {
        ReceiverView {
            id,
            manifest,
            present,
            missing: positions(present, false),
            outstanding: Seq::empty(),
            pausing: false,
            remote_pause: None,
            checkpointed: false,
        }
    }

    /// Whether some steps tell the sender what is present, and note it.
    pub open spec fn opens(self, actions: Seq<TransferAction>) -> bool {
        &&& actions.len() == 2
        &&& actions[0] matches TransferAction::Send(Message::Resume { task_id, root_hash, have })
            && task_id == self.id && root_hash == self.manifest.root_hash && is_bitmap(
            have@,
            self.present,
        )
        &&& actions[1] == TransferAction::NoteProgress(self.received() as u64)
    }

    /// Whether the transfer is paused once those steps are done.
    pub open spec fn settled(self, gate: Option<WireTaskState>) -> bool {
        !self.complete() && self.pausing && self.outstanding.len() == 0 && gate == Some(
            WireTaskState::Paused,
        )
    }

    /// Why an input ends the transfer.
    pub open spec fn refusal(self, input: TransferInput) -> Option<Seq<char>> {
        match input {
            TransferInput::PauseRequested => None,
            TransferInput::Received(frame) => match frame.message {
                Message::Chunk { index, data, .. } => if !self.outstanding.contains(index) {
                    Some("收到未请求或重复的分片"@)
                } else if data@.len() != chunk_extent(
                    self.manifest.total_len as nat,
                    self.manifest.chunk_size as nat,
                    index as nat,
                ).1 || self.manifest.chunks[index as int] != ChunkHash::digest(data@) {
                    Some("接收分片校验失败"@)
                } else {
                    None
                },
                Message::Pause { .. } => None,
                Message::Paused { .. } => None,
                Message::Error { code, .. } => Some(remote_text(code)),
                _ => Some("接收任务收到非法消息"@),
            },
        }
    }

    /// The receiving end after an accepted input, and the steps that it asks for.
    pub open spec fn told(self, input: TransferInput, due: bool) -> (
        ReceiverView,
        Seq<TransferAction>,
    ) {
        let pausing = if self.pausing {
            Seq::empty()
        } else {
            seq![TransferAction::SetState(TaskState::Pausing)]
        };
        match input {
            TransferInput::PauseRequested => (
                ReceiverView { pausing: true, ..self },
                pausing.push(TransferAction::Send(Message::Pause { task_id: self.id })),
            ),
            TransferInput::Received(frame) => match frame.message {
                Message::Chunk { index, data, .. } => {
                    let after = ReceiverView {
                        outstanding: without(self.outstanding, index),
                        present: self.present.update(index as int, true),
                        ..self
                    };
                    (
                        after,
                        seq![
                            TransferAction::WriteChunk(index, data),
                            TransferAction::Send(Message::ChunkAck { task_id: self.id, index }),
                        ] + (if due {
                            seq![TransferAction::NoteProgress(after.received() as u64)]
                        } else {
                            Seq::empty()
                        }),
                    )
                },
                Message::Pause { .. } => (
                    ReceiverView {
                        pausing: true,
                        remote_pause: Some(frame.request_id),
                        ..self
                    },
                    pausing,
                ),
                _ => (self, Seq::empty()),
            },
        }
    }
}

/// A receiver that has asked for what its window allows still accounts for every chunk.
pub proof fn lemma_turn_keeps_validity(receiver: ReceiverView)
    requires
        receiver.valid(),
        !receiver.complete(),
        !receiver.pausing,
    ensures
        receiver.turned().0.valid(),
{
    let after = receiver.turned().0;
    assert forall|k: int| 0 <= k < after.missing.len() implies (#[trigger] after.missing[k])
        < after.present.len() && !after.present[after.missing[k] as int]
        && !after.outstanding.contains(after.missing[k]) by {
        let c = after.missing[k];
        assert(c == receiver.missing[k + receiver.room()]);
        assert(!receiver.outstanding.contains(c));
        if after.outstanding.contains(c) {
            let j = choose|j: int|
                0 <= j < after.outstanding.len() && after.outstanding[j] == c;
            if j < receiver.outstanding.len() {
                assert(receiver.outstanding[j] == c);
            } else {
                assert(receiver.missing[j - receiver.outstanding.len()] == c);
            }
        }
    }
    assert forall|k: int| 0 <= k < after.outstanding.len() implies (
    #[trigger] after.outstanding[k]) < after.present.len()
        && !after.present[after.outstanding[k] as int] by {
        if k < receiver.outstanding.len() {
            assert(after.outstanding[k] == receiver.outstanding[k]);
        } else {
            assert(after.outstanding[k] == receiver.missing[k - receiver.outstanding.len()]);
        }
    }
    assert(after.outstanding.no_duplicates()) by {
        assert forall|i: int, j: int|
            0 <= i < after.outstanding.len() && 0 <= j < after.outstanding.len() && i
                != j implies after.outstanding[i] != after.outstanding[j] by {
            let n = receiver.outstanding.len();
            if i < n && j >= n {
                assert(receiver.outstanding.contains(receiver.outstanding[i]));
                assert(!receiver.outstanding.contains(receiver.missing[j - n]));
            } else if j < n && i >= n {
                assert(receiver.outstanding.contains(receiver.outstanding[j]));
                assert(!receiver.outstanding.contains(receiver.missing[i - n]));
            }
        }
    }
    assert(after.missing.no_duplicates());
    assert forall|c: int| 0 <= c < after.present.len() implies #[trigger] after.present[c]
        || after.missing.contains(c as u32) || after.outstanding.contains(c as u32) by {
        if receiver.missing.contains(c as u32) {
            let k = choose|k: int|
                0 <= k < receiver.missing.len() && receiver.missing[k] == c as u32;
            if k < receiver.room() {
                assert(after.outstanding[receiver.outstanding.len() + k] == c as u32);
            } else {
                assert(after.missing[k - receiver.room()] == c as u32);
            }
        } else if receiver.outstanding.contains(c as u32) {
            let k = choose|k: int|
                0 <= k < receiver.outstanding.len() && receiver.outstanding[k] == c as u32;
            assert(after.outstanding[k] == c as u32);
        }
    }
}

/// A receiver that has taken a chunk still accounts for every chunk.
pub proof fn lemma_chunk_keeps_validity(receiver: ReceiverView, index: u32)
    requires
        receiver.valid(),
        receiver.outstanding.contains(index),
    ensures
        (ReceiverView {
            outstanding: without(receiver.outstanding, index),
            present: receiver.present.update(index as int, true),
            ..receiver
        }).valid(),
{
    let after = ReceiverView {
        outstanding: without(receiver.outstanding, index),
        present: receiver.present.update(index as int, true),
        ..receiver
    };
    receiver.outstanding.index_of_first_ensures(index);
    let at = receiver.outstanding.index_of_first(index)->0;
    assert(receiver.outstanding[at] == index);
    assert(after.outstanding == receiver.outstanding.remove(at));
    assert(after.outstanding.no_duplicates());
    assert forall|k: int| 0 <= k < after.outstanding.len() implies (
    #[trigger] after.outstanding[k]) < after.present.len()
        && !after.present[after.outstanding[k] as int] by {
        let b = if k < at {
            k
        } else {
            k + 1
        };
        assert(after.outstanding[k] == receiver.outstanding[b]);
        assert(receiver.outstanding[b] != receiver.outstanding[at]);
    }
    assert forall|k: int| 0 <= k < after.missing.len() implies (#[trigger] after.missing[k])
        < after.present.len() && !after.present[after.missing[k] as int]
        && !after.outstanding.contains(after.missing[k]) by {
        let c = receiver.missing[k];
        assert(!receiver.outstanding.contains(c));
        assert(receiver.outstanding.contains(index));
        if after.outstanding.contains(c) {
            let j = choose|j: int|
                0 <= j < after.outstanding.len() && after.outstanding[j] == c;
            let b = if j < at {
                j
            } else {
                j + 1
            };
            assert(receiver.outstanding[b] == c);
        }
    }
    assert forall|c: int| 0 <= c < after.present.len() implies #[trigger] after.present[c]
        || after.missing.contains(c as u32) || after.outstanding.contains(c as u32) by {
        assert(receiver.present[c] || receiver.missing.contains(c as u32)
            || receiver.outstanding.contains(c as u32));
        if receiver.outstanding.contains(c as u32) && c != index {
            let j = choose|j: int|
                0 <= j < receiver.outstanding.len() && receiver.outstanding[j] == c as u32;
            let b = if j < at {
                j
            } else {
                j - 1
            };
            assert(after.outstanding[b] == c as u32);
        }
    }
}

impl Receiver {
    /// The count of received bytes is right, and every chunk is accounted for.
    pub closed spec fn valid(self) -> bool {
        &&& self@.valid()
        &&& self.bytes == self@.received()
    }

    /// Starts to receive a file of which some chunks are present.
    pub fn begin(id: TaskId, manifest: FileManifest, present: ChunkBitmap) -> (result: (
        Receiver,
        Vec<TransferAction>,
    ))
        requires
            manifest@.shaped(),
            manifest@.chunks.len() <= u32::MAX,
            present@.len() == manifest@.chunks.len(),
        ensures
            result.0.valid(),
            result.0@ == ReceiverView::begun(id, manifest@, present@),
            result.0@.opens(result.1@),
    {
        proof {
            lemma_positions(present@, false);
        }
        let have = present.to_bytes();
        let missing = present.list(false);
        let bytes: u64 = bytes_for(&manifest, &present);
        let mut actions: Vec<TransferAction> = Vec::new();
        actions.push(
            TransferAction::Send(
                Message::Resume { task_id: id.clone(), root_hash: manifest.root_hash, have },
            ),
        );
        actions.push(TransferAction::NoteProgress(bytes));
        let receiver = Receiver {
            id,
            manifest,
            present,
            missing,
            outstanding: Vec::new(),
            bytes,
            pausing: false,
            remote_pause: None,
            checkpointed: false,
        };
        proof {
            let view = receiver@;
            assert forall|c: int| 0 <= c < view.present.len() implies #[trigger] view.present[c]
                || view.missing.contains(c as u32) || view.outstanding.contains(c as u32) by {
                if !view.present[c] {
                    let k = choose|k: int|
                        0 <= k < view.missing.len() && #[trigger] view.missing[k] == c;
                    assert(view.missing[k] == c as u32);
                }
            }
        }
        (receiver, actions)
    }

    /// Whether a pause is under way.
    pub fn is_pausing(&self) -> (pausing: bool)
        ensures
            pausing == self@.pausing,
    {
        self.pausing
    }

    /// The steps to do before waiting for the next input.
    pub fn turn(&mut self) -> (actions: Vec<TransferAction>)
        requires
            old(self).valid(),
        ensures
            final(self).valid(),
            (final(self)@, actions@) == old(self)@.turned(),
    {
        let ghost before = self@;
        let mut actions: Vec<TransferAction> = Vec::new();
        if self.bytes == self.manifest.total_len {
            actions.push(TransferAction::SetState(TaskState::Finalizing));
            actions.push(TransferAction::Publish);
            actions.push(TransferAction::NoteProgress(self.manifest.total_len));
            actions.push(
                TransferAction::Send(
                    Message::Completed {
                        task_id: self.id.clone(),
                        root_hash: self.manifest.root_hash,
                        receipt_version: RECEIPT_VERSION,
                    },
                ),
            );
            actions.push(TransferAction::Finish);
            assert(actions@ =~= before.turned().1);
            return actions;
        }
        if !self.pausing {
            self.ask(&mut actions);
            return actions;
        }
        if self.outstanding.len() == 0 {
            if !self.checkpointed {
                actions.push(TransferAction::Checkpoint);
                self.checkpointed = true;
            }
            if let Some(request_id) = self.remote_pause {
                actions.push(
                    TransferAction::Send(
                        Message::Paused { task_id: self.id.clone(), pause_request_id: request_id },
                    ),
                );
                self.remote_pause = None;
            }
        }
        assert(actions@ =~= before.turned().1);
        actions
    }

    fn ask(&mut self, actions: &mut Vec<TransferAction>)
        requires
            old(self).valid(),
            !old(self)@.complete(),
            !old(self)@.pausing,
            old(actions)@.len() == 0,
        ensures
            final(self).valid(),
            (final(self)@, final(actions)@) == old(self)@.turned(),
    {
        let ghost before = self@;
        let ghost mut asked: int = 0;
        assert(before.missing.skip(0) =~= before.missing);
        assert(before.outstanding + before.missing.take(0) =~= before.outstanding);
        assert(requests(before.id, before.missing.take(0)) =~= Seq::empty());
        while self.outstanding.len() < WINDOW && self.missing.len() > 0
            invariant
                before == old(self)@,
                before.valid(),
                0 <= asked <= before.missing.len(),
                before.outstanding.len() + asked <= WINDOW,
                self.id == before.id,
                self.manifest@ == before.manifest,
                self.present@ == before.present,
                self.missing@ == before.missing.skip(asked),
                self.outstanding@ == before.outstanding + before.missing.take(asked),
                actions@ == requests(before.id, before.missing.take(asked)),
                self.pausing == before.pausing,
                self.remote_pause == before.remote_pause,
                self.checkpointed == before.checkpointed,
                self.bytes == old(self).bytes,
            decreases self.missing@.len(),
        {
            let index: u32 = self.missing.remove(0);
            proof {
                assert(index == before.missing[asked]);
                assert(self.missing@ =~= before.missing.skip(asked + 1));
            }
            self.outstanding.push(index);
            actions.push(
                TransferAction::Send(
                    Message::RequestChunk { task_id: self.id.clone(), index },
                ),
            );
            proof {
                asked = asked + 1;
                assert(self.outstanding@ =~= before.outstanding + before.missing.take(asked));
                assert(actions@ =~= requests(before.id, before.missing.take(asked)));
            }
        }
        proof {
            assert(asked == before.room());
            lemma_turn_keeps_validity(before);
        }
    }

    /// The steps that end a paused transfer once both ends have acknowledged it; none
    /// before that.
    pub fn settle(&self, gate: Option<WireTaskState>) -> (actions: Vec<TransferAction>)
        requires
            self.valid(),
        ensures
            actions@ == self@.settling(gate),
    {
        let mut actions: Vec<TransferAction> = Vec::new();
        if self.bytes != self.manifest.total_len && self.pausing && self.outstanding.len() == 0 {
            if let Some(state) = gate {
                if state == WireTaskState::Paused {
                    actions.push(TransferAction::NoteProgress(self.bytes));
                    actions.push(TransferAction::SetState(TaskState::Paused));
                    actions.push(TransferAction::Finish);
                }
            }
        }
        assert(actions@ =~= self@.settling(gate));
        actions
    }

    fn on_chunk(&mut self, index: u32, data: Vec<u8>, due: bool) -> (result: Result<
        Vec<TransferAction>,
    >)
        requires
            old(self).valid(),
        ensures
            ({
                let expected = chunk_extent(
                    old(self)@.manifest.total_len as nat,
                    old(self)@.manifest.chunk_size as nat,
                    index as nat,
                ).1;
                let after = ReceiverView {
                    outstanding: without(old(self)@.outstanding, index),
                    present: old(self)@.present.update(index as int, true),
                    ..old(self)@
                };
                let wanted = old(self)@.outstanding.contains(index);
                let right = data@.len() == expected && old(self)@.manifest.chunks[index as int]
                    == ChunkHash::digest(data@);
                match result {
                    Ok(actions) => final(self).valid() && wanted && right && final(self)@ == after
                        && actions@ == seq![
                        TransferAction::WriteChunk(index, data),
                        TransferAction::Send(Message::ChunkAck { task_id: old(self)@.id, index }),
                    ] + (if due {
                        seq![TransferAction::NoteProgress(after.received() as u64)]
                    } else {
                        Seq::empty()
                    }),
                    Err(error) => final(self)@ == old(self)@ && if !wanted {
                        error.refuses("收到未请求或重复的分片"@)
                    } else {
                        !right && error.refuses("接收分片校验失败"@)
                    },
                }
            }),
    {
        let ghost before = self@;
        if !holds_index(&self.outstanding, index) {
            return Err(failure("收到未请求或重复的分片"));
        }
        proof {
            let k = choose|k: int|
                0 <= k < before.outstanding.len() && before.outstanding[k] == index;
            assert(before.outstanding[k] < before.present.len());
        }
        let length: u64 = match self.manifest.chunk_range(index) {
            Some((_, length)) => length as u64,
            None => 0,
        };
        if data.len() as u64 != length || !self.manifest.verify_chunk(index, data.as_slice()) {
            return Err(failure("接收分片校验失败"));
        }
        let _ = drop_index(&mut self.outstanding, index);
        proof {
            before.outstanding.index_of_first_ensures(index);
            lemma_marked_one_more(
                before.manifest,
                before.present,
                index as int,
                before.present.len(),
            );
            lemma_marked_within(before.manifest, before.present.update(index as int, true));
        }
        let _ = self.present.insert(index);
        self.bytes = self.bytes + length;
        let ghost content = data;
        let mut actions: Vec<TransferAction> = Vec::new();
        actions.push(TransferAction::WriteChunk(index, data));
        actions.push(
            TransferAction::Send(Message::ChunkAck { task_id: self.id.clone(), index }),
        );
        if due {
            actions.push(TransferAction::NoteProgress(self.bytes));
        }
        proof {
            lemma_chunk_keeps_validity(before, index);
            assert(actions@ =~= seq![
                TransferAction::WriteChunk(index, content),
                TransferAction::Send(Message::ChunkAck { task_id: before.id, index }),
            ] + (if due {
                seq![TransferAction::NoteProgress(self.bytes)]
            } else {
                Seq::empty()
            }));
        }
        Ok(actions)
    }

    fn start_pausing(&mut self) -> (actions: Vec<TransferAction>)
        requires
            old(self).valid(),
        ensures
            final(self).valid(),
            final(self)@ == (ReceiverView { pausing: true, ..old(self)@ }),
            actions@ == if old(self)@.pausing {
                Seq::empty()
            } else {
                seq![TransferAction::SetState(TaskState::Pausing)]
            },
    {
        let mut actions: Vec<TransferAction> = Vec::new();
        if !self.pausing {
            actions.push(TransferAction::SetState(TaskState::Pausing));
            self.pausing = true;
        }
        assert(actions@ =~= if old(self)@.pausing {
            Seq::empty()
        } else {
            seq![TransferAction::SetState(TaskState::Pausing)]
        });
        actions
    }

    /// Takes an input. Progress that is due is noted with the next chunk.
    pub fn take(&mut self, input: TransferInput, due: bool) -> (result: Result<
        Vec<TransferAction>,
    >)
        requires
            old(self).valid(),
        ensures
            decided(result, old(self)@.refusal(input)),
            result matches Ok(actions) ==> final(self).valid() && (final(self)@, actions@)
                == old(self)@.told(input, due),
            result is Err ==> final(self)@ == old(self)@,
    {
        match input {
            TransferInput::PauseRequested => {
                let mut actions = self.start_pausing();
                actions.push(
                    TransferAction::Send(Message::Pause { task_id: self.id.clone() }),
                );
                Ok(actions)
            },
            TransferInput::Received(frame) => match frame.message {
                Message::Chunk { index, data, .. } => self.on_chunk(index, data, due),
                Message::Pause { .. } => {
                    let actions = self.start_pausing();
                    self.remote_pause = Some(frame.request_id);
                    Ok(actions)
                },
                Message::Paused { .. } => Ok(Vec::new()),
                Message::Error { code, .. } => Err(remote_error(code)),
                _ => Err(failure("接收任务收到非法消息")),
            },
        }
    }
}

/// A receiver that misses nothing and waits for nothing has the whole content, so its
/// next turn publishes it.
pub proof fn nothing_missing_means_complete(receiver: ReceiverView)
    requires
        receiver.valid(),
        receiver.missing.len() == 0,
        receiver.outstanding.len() == 0,
    ensures
        receiver.complete(),
        receiver.turned().1[1] == TransferAction::Publish,
{
    assert forall|c: int| 0 <= c < receiver.present.len() implies receiver.present[c] by {
        assert(receiver.present[c] || receiver.missing.contains(c as u32)
            || receiver.outstanding.contains(c as u32));
    }
    lemma_marked_within(receiver.manifest, receiver.present);
}

/// Nothing is published before every byte of the manifest was received and verified.
pub proof fn only_complete_content_is_published(receiver: ReceiverView, at: int)
    requires
        receiver.valid(),
        0 <= at < receiver.turned().1.len(),
        receiver.turned().1[at] == TransferAction::Publish,
    ensures
        receiver.complete(),
{
    if !receiver.complete() && !receiver.pausing {
        let asked = receiver.missing.take(receiver.room());
        assert(requests(receiver.id, asked)[at] is Send);
    }
}

/// Neither end has more chunks on their way than the window allows, and a receiver
/// that pauses asks for no more.
pub proof fn windows_are_kept(receiver: ReceiverView)
    requires
        receiver.valid(),
    ensures
        receiver.turned().0.outstanding.len() <= WINDOW,
        receiver.pausing ==> receiver.turned().0.outstanding == receiver.outstanding,
{
}

/// A receiver acknowledges a pause only after everything that was on its way has
/// arrived and has been written down.
pub proof fn pauses_wait_for_the_checkpoint(receiver: ReceiverView, request_id: u64)
    requires
        receiver.valid(),
        receiver.pausing,
        !receiver.complete(),
        receiver.turned().1.contains(
            TransferAction::Send(
                Message::Paused { task_id: receiver.id, pause_request_id: request_id },
            ),
        ),
    ensures
        receiver.outstanding.len() == 0,
        receiver.checkpointed || receiver.turned().1[0] == TransferAction::Checkpoint,
{
}

/// A receiver begins with every chunk that is not present still to be asked for, each
/// once and in order, and waits for none.
pub proof fn receivers_begin_with_what_is_missing(
    id: TaskId,
    manifest: ManifestView,
    present: Seq<bool>,
)
    requires
        manifest.shaped(),
        manifest.chunks.len() <= u32::MAX,
        present.len() == manifest.chunks.len(),
    ensures
        ({
            let receiver = ReceiverView::begun(id, manifest, present);
            &&& receiver.valid()
            &&& receiver.id == id
            &&& receiver.manifest == manifest
            &&& receiver.present == present
            &&& receiver.outstanding.len() == 0
            &&& !receiver.pausing
            &&& receiver.remote_pause is None
            &&& !receiver.checkpointed
            &&& forall|c: int|
                0 <= c < present.len() ==> (receiver.missing.contains(c as u32)
                    <==> !#[trigger] present[c])
            &&& forall|j: int, k: int|
                0 <= j < k < receiver.missing.len() ==> #[trigger] receiver.missing[j]
                    < #[trigger] receiver.missing[k]
        }),
{
    let receiver = ReceiverView::begun(id, manifest, present);
    lemma_positions(present, false);
    assert forall|c: int| 0 <= c < present.len() implies (receiver.missing.contains(c as u32)
        <==> !#[trigger] present[c]) by {
        if !present[c] {
            let k = choose|k: int|
                0 <= k < receiver.missing.len() && #[trigger] receiver.missing[k] == c;
            assert(receiver.missing[k] == c as u32);
        }
        if receiver.missing.contains(c as u32) {
            let k = choose|k: int|
                0 <= k < receiver.missing.len() && receiver.missing[k] == c as u32;
            assert(receiver.missing[k] < present.len());
        }
    }
    assert forall|c: int| 0 <= c < receiver.present.len() implies #[trigger] receiver.present[c]
        || receiver.missing.contains(c as u32) || receiver.outstanding.contains(c as u32) by {
        if !present[c] {
            assert(receiver.missing.contains(c as u32));
        }
    }
}

/// A chunk that is taken adds its bytes to what is received, and with progress due that
/// sum is noted after the chunk has been written and acknowledged.
pub proof fn chunks_are_counted(receiver: ReceiverView, frame: Frame, due: bool)
    requires
        receiver.valid(),
        frame.message is Chunk,
        receiver.refusal(TransferInput::Received(frame)) is None,
    ensures
        ({
            let index = frame.message->Chunk_index;
            let data = frame.message->data;
            let (after, actions) = receiver.told(TransferInput::Received(frame), due);
            &&& after.received() == receiver.received() + data@.len()
            &&& after.received() <= receiver.manifest.total_len
            &&& after.present == receiver.present.update(index as int, true)
            &&& actions[0] == TransferAction::WriteChunk(index, data)
            &&& actions[1] == TransferAction::Send(
                Message::ChunkAck { task_id: receiver.id, index },
            )
            &&& due ==> actions.len() == 3 && actions[2] == TransferAction::NoteProgress(
                (receiver.received() + data@.len()) as u64,
            )
            &&& !due ==> actions.len() == 2
        }),
{
    let index = frame.message->Chunk_index;
    let k = choose|k: int|
        0 <= k < receiver.outstanding.len() && receiver.outstanding[k] == index;
    assert(receiver.outstanding[k] < receiver.present.len());
    lemma_marked_one_more(
        receiver.manifest,
        receiver.present,
        index as int,
        receiver.present.len(),
    );
    lemma_marked_within(receiver.manifest, receiver.present.update(index as int, true));
}

/// An acknowledgement adds the bytes of its chunk to what is confirmed, and with progress
/// due that sum is noted.
pub proof fn acknowledgements_are_counted(sender: SenderView, frame: Frame, due: bool)
    requires
        sender.valid(),
        frame.message is ChunkAck,
        sender.refusal(TransferInput::Received(frame)) is None,
    ensures
        ({
            let index = frame.message->ChunkAck_index;
            let (after, actions) = sender.told(TransferInput::Received(frame), due);
            let length = chunk_extent(
                sender.manifest.total_len as nat,
                sender.manifest.chunk_size as nat,
                index as nat,
            ).1;
            &&& after.confirmed() == sender.confirmed() + length
            &&& after.confirmed() <= sender.manifest.total_len
            &&& after.acknowledged == sender.acknowledged.update(index as int, true)
            &&& sender.sent.contains(index)
            &&& after.sent.len() == sender.sent.len() - 1
            &&& !after.sent.contains(index)
            &&& due ==> actions.len() == 1 && actions[0] == TransferAction::NoteProgress(
                (sender.confirmed() + length) as u64,
            )
            &&& !due ==> actions.len() == 0
        }),
{
    let index = frame.message->ChunkAck_index;
    sender.sent.index_of_first_ensures(index);
    let at = sender.sent.index_of_first(index)->0;
    assert(sender.sent[at] == index);
    assert(sender.sent[at] < sender.acknowledged.len());
    lemma_marked_one_more(
        sender.manifest,
        sender.acknowledged,
        index as int,
        sender.acknowledged.len(),
    );
    lemma_marked_within(sender.manifest, sender.acknowledged.update(index as int, true));
    let left = sender.sent.remove(at);
    if left.contains(index) {
        let j = choose|j: int| 0 <= j < left.len() && left[j] == index;
        let b = if j < at {
            j
        } else {
            j + 1
        };
        assert(sender.sent[b] == index);
    }
}

/// What a receiver says to have counts as confirmed, together with what was confirmed
/// before, and is noted at once.
pub proof fn resumes_are_counted(sender: SenderView, frame: Frame, have: Seq<bool>, due: bool)
    requires
        sender.valid(),
        frame.message is Resume,
        have.len() == sender.acknowledged.len(),
        is_bitmap(frame.message->have@, have),
    ensures
        ({
            let input = TransferInput::Received(frame);
            let (after, actions) = sender.told(input, due);
            &&& sender.refusal(input) is None
            &&& after.resumed
            &&& after.acknowledged.len() == have.len()
            &&& forall|c: int|
                0 <= c < have.len() ==> #[trigger] after.acknowledged[c]
                    == (sender.acknowledged[c] || have[c])
            &&& actions[0] == TransferAction::NoteProgress(after.confirmed() as u64)
            &&& after.sent == sender.sent
        }),
{
    let flags = choose|flags: Seq<bool>|
        flags.len() == sender.acknowledged.len() && #[trigger] is_bitmap(
            frame.message->have@,
            flags,
        );
    crate::manifest::bitmap_reads_back(frame.message->have@, have, flags);
}

/// A sender sends each chunk that it is asked for, once it knows what the receiver has,
/// and counts it as on its way; no chunk is on its way twice, none is sent again that is
/// confirmed, and no more than the window are.
pub proof fn requested_chunks_are_sent(sender: SenderView, frame: Frame, due: bool)
    requires
        sender.valid(),
        frame.message is RequestChunk,
    ensures
        ({
            let index = frame.message->RequestChunk_index;
            let input = TransferInput::Received(frame);
            let (after, actions) = sender.told(input, due);
            &&& sender.refusal(input) is None <==> sender.resumed && sender.sent.len() < 4 && index
                < sender.acknowledged.len() && !sender.acknowledged[index as int]
                && !sender.sent.contains(index)
            &&& sender.refusal(input) is None ==> actions == seq![TransferAction::SendChunk(index)]
                && after.sent == sender.sent.push(index) && after.acknowledged
                == sender.acknowledged
        }),
{
}

/// What the peer says to have gone wrong ends the transfer with that meaning, on both
/// ends.
pub proof fn errors_of_the_peer_end_the_transfer(
    sender: SenderView,
    receiver: ReceiverView,
    frame: Frame,
)
    requires
        frame.message is Error,
    ensures
        sender.refusal(TransferInput::Received(frame)) == Some(
            remote_text(frame.message->Error_code),
        ),
        receiver.refusal(TransferInput::Received(frame)) == Some(
            remote_text(frame.message->Error_code),
        ),
{
}

/// Each end refuses what only the other end may be told.
pub proof fn ends_refuse_what_is_not_theirs(
    sender: SenderView,
    receiver: ReceiverView,
    frame: Frame,
)
    ensures
        frame.message is Chunk || frame.message is ResumeTask || frame.message is Offer
            || frame.message is Hello || frame.message is Ready || frame.message is Speed
            ==> sender.refusal(TransferInput::Received(frame)) is Some,
        frame.message is Resume || frame.message is RequestChunk || frame.message is ChunkAck
            || frame.message is Completed || frame.message is ResumeTask
            || frame.message is Offer || frame.message is Hello || frame.message is Ready
            || frame.message is Speed ==> receiver.refusal(TransferInput::Received(frame)) is Some,
{
}

/// A receiver takes a chunk that it waits for, with the announced bytes, and no other.
pub proof fn only_announced_chunks_are_taken(receiver: ReceiverView, frame: Frame)
    requires
        frame.message is Chunk,
    ensures
        ({
            let index = frame.message->Chunk_index;
            let data = frame.message->data@;
            receiver.refusal(TransferInput::Received(frame)) is None
                <==> receiver.outstanding.contains(index) && data.len() == chunk_extent(
                receiver.manifest.total_len as nat,
                receiver.manifest.chunk_size as nat,
                index as nat,
            ).1 && ChunkHash::digest(data) == receiver.manifest.chunks[index as int]
        }),
{
}

/// A sender waits for its receiver first: it knows of no chunk there, has sent none, and
/// nobody has asked for a pause yet.
pub proof fn senders_begin_waiting(id: TaskId, manifest: ManifestView, at: int)
    ensures
        ({
            let sender = SenderView::begun(id, manifest);
            &&& sender.id == id
            &&& sender.manifest == manifest
            &&& !sender.resumed
            &&& !sender.pending_pause
            &&& !sender.pausing
            &&& sender.sent.len() == 0
            &&& sender.acknowledged.len() == manifest.chunks.len()
            &&& 0 <= at < manifest.chunks.len() ==> !sender.acknowledged[at]
        }),
{
}

} // verus!
