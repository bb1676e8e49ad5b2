//! First-in first-out admission of sends, and progress for presentation.

use vstd::prelude::*;

use crate::identity::NodeId;
use crate::lists::{distinct, first_index, lemma_first_index, lemma_is_first_index};
use crate::task_model::TaskId;

verus! {

/// The most tasks that wait.
pub const MAX_QUEUED: usize = 4096;

/// The most directories that are sent at once.
pub const MAX_METADATA_ACTIVE: usize = 8;

/// The most files that are sent at once.
pub const MAX_FILES_ACTIVE: usize = 3;

/// The most directories that are sent to one peer at once.
pub const MAX_METADATA_PER_PEER: usize = 2;

/// A task to send, as mathematical values.
pub struct EntryView {
    pub id: Seq<char>,
    pub peer: NodeId,
    pub metadata: bool,
}

/// A task to send.
#[derive(Debug, PartialEq, Eq)]
pub struct QueueEntry {
    pub id: TaskId,
    pub peer: NodeId,
    pub metadata: bool,
}

impl View for QueueEntry {
    type V = EntryView;

    open spec fn view(&self) -> EntryView {
        EntryView { id: self.id@, peer: self.peer, metadata: self.metadata }
    }
}

impl Clone for QueueEntry {
    fn clone(&self) -> (copy: QueueEntry)
        ensures
            copy == *self,
    {
        QueueEntry { id: self.id.clone(), peer: self.peer, metadata: self.metadata }
    }
}

impl QueueEntry {
    fn same(&self, other: &QueueEntry) -> (same: bool)
        ensures
            same == (self@ == other@),
    {
        self.id.same(&other.id) && self.peer == other.peer && self.metadata == other.metadata
    }
}

/// How full the queue is.
#[derive(Clone, Copy, Debug, PartialEq, Eq, Structural)]
pub struct QueueMetrics {
    pub pending: usize,
    pub active_files: usize,
    pub active_metadata: usize,
    pub limit: u8,
    pub converging: bool,
}

/// A task that is being sent, as mathematical values.
pub struct SlotView {
    pub entry: EntryView,
    pub generation: u64,
}

/// A task that is being sent.
#[derive(Debug)]
struct Slot {
    entry: QueueEntry,
    generation: u64,
}

/// The queue, as mathematical values.
pub struct QueueView {
    pub pending: Seq<EntryView>,
    pub active: Seq<SlotView>,
    pub limit: u8,
    pub next_generation: u64,
}

/// Finds a waiting task.
pub open spec fn entry_of(id: Seq<char>) -> spec_fn(EntryView) -> bool {
    |entry: EntryView| entry.id == id
}

/// Finds a running task.
pub open spec fn slot_of(id: Seq<char>) -> spec_fn(SlotView) -> bool {
    |slot: SlotView| slot.entry.id == id
}

/// How many running tasks satisfy a condition.
pub open spec fn count_slots(slots: Seq<SlotView>, wanted: spec_fn(SlotView) -> bool) -> nat
    decreases slots.len(),
{
    if slots.len() == 0 {
        0
    } else {
        count_slots(slots.drop_last(), wanted) + if wanted(slots.last()) {
            1nat
        } else {
            0nat
        }
    }
}

/// Whether a running task sends a file.
pub open spec fn is_file() -> spec_fn(SlotView) -> bool {
    |slot: SlotView| !slot.entry.metadata
}

/// Whether a running task sends a directory to this peer.
pub open spec fn is_metadata_for(peer: NodeId) -> spec_fn(SlotView) -> bool {
    |slot: SlotView| slot.entry.metadata && slot.entry.peer == peer
}

/// Whether some running task has this identifier and generation.
pub open spec fn holds_slot(slots: Seq<SlotView>, id: Seq<char>, generation: u64) -> bool {
    let at = first_index(slots, slot_of(id));
    at < slots.len() && slots[at].generation == generation
}

impl QueueView {
    /// Nothing waits, nothing runs.
    pub open spec fn empty() -> QueueView {
        QueueView { pending: Seq::empty(), active: Seq::empty(), limit: 1, next_generation: 0 }
    }

    /// Each task stands in one place, the bounds hold, and no slot is newer than the
    /// last generation given out.
    pub open spec fn valid(self) -> bool {
        &&& self.pending.len() <= MAX_QUEUED
        &&& 1 <= self.limit <= MAX_FILES_ACTIVE
        &&& self.files() <= MAX_FILES_ACTIVE
        &&& self.active.len() - self.files() <= MAX_METADATA_ACTIVE
        &&& distinct(self.pending, |entry: EntryView| entry.id)
        &&& distinct(self.active, |slot: SlotView| slot.entry.id)
        &&& forall|i: int, j: int|
            0 <= i < self.pending.len() && 0 <= j < self.active.len() ==> (
            #[trigger] self.pending[i]).id != (#[trigger] self.active[j]).entry.id
        &&& forall|j: int|
            0 <= j < self.active.len() ==> (#[trigger] self.active[j]).generation
                <= self.next_generation
    }

    /// How many files are being sent.
    pub open spec fn files(self) -> nat {
        count_slots(self.active, is_file())
    }

    /// Whether there is room for one more of this kind.
    pub open spec fn has_room(self, entry: EntryView) -> bool {
        if entry.metadata {
            self.active.len() - self.files() < MAX_METADATA_ACTIVE && count_slots(
                self.active,
                is_metadata_for(entry.peer),
            ) < MAX_METADATA_PER_PEER
        } else {
            self.files() < self.limit
        }
    }

    /// The entry under which a task is already known, among these waiting ones or the
    /// running ones.
    pub open spec fn known(self, waiting: Seq<EntryView>, id: Seq<char>) -> Option<EntryView> {
        let running = first_index(self.active, slot_of(id));
        let queued = first_index(waiting, entry_of(id));
        if running < self.active.len() {
            Some(self.active[running].entry)
        } else if queued < waiting.len() {
            Some(waiting[queued])
        } else {
            None
        }
    }

    /// Why a batch is refused, if it is.
    pub open spec fn batch_refusal(self, entries: Seq<EntryView>) -> Option<Seq<char>>
        decreases entries.len(),
    {
        if entries.len() == 0 {
            None
        } else {
            let earlier = entries.drop_last();
            let waiting = self.batch_pending(earlier);
            let known = self.known(waiting, entries.last().id);
            if self.batch_refusal(earlier) is Some {
                self.batch_refusal(earlier)
            } else if known is Some {
                if known->0 != entries.last() {
                    Some("队列任务绑定不能改变"@)
                } else {
                    None
                }
            } else if waiting.len() == MAX_QUEUED {
                Some("发送队列已达上限"@)
            } else {
                None
            }
        }
    }

    /// What waits after a batch: the new tasks, in order, behind the others.
    pub open spec fn batch_pending(self, entries: Seq<EntryView>) -> Seq<EntryView>
        decreases entries.len(),
    {
        if entries.len() == 0 {
            self.pending
        } else {
            let waiting = self.batch_pending(entries.drop_last());
            if self.known(waiting, entries.last().id) is Some {
                waiting
            } else {
                waiting.push(entries.last())
            }
        }
    }

    /// The queue after a task was given a slot.
    pub open spec fn started(self, pending: Seq<EntryView>, entry: EntryView) -> QueueView {
        QueueView {
            pending,
            active: self.active.push(
                SlotView { entry, generation: (self.next_generation + 1) as u64 },
            ),
            limit: self.limit,
            next_generation: (self.next_generation + 1) as u64,
        }
    }

    /// Why a direct start is refused, if it is.
    pub open spec fn direct_refusal(self, entry: EntryView) -> Option<Seq<char>> {
        let queued = first_index(self.pending, entry_of(entry.id));
        if first_index(self.active, slot_of(entry.id)) < self.active.len() {
            Some("任务已有发送槽"@)
        } else if !self.has_room(entry) {
            Some("发送活动已达上限"@)
        } else if self.next_generation == u64::MAX {
            Some("发送槽代数已耗尽"@)
        } else if queued < self.pending.len() && self.pending[queued] != entry {
            Some("队列任务绑定不能改变"@)
        } else {
            None
        }
    }

    /// What waits once a task is taken out.
    pub open spec fn without(self, id: Seq<char>) -> Seq<EntryView> {
        let queued = first_index(self.pending, entry_of(id));
        if queued < self.pending.len() {
            self.pending.remove(queued)
        } else {
            self.pending
        }
    }
}

/// Whether an operation succeeded or was refused with exactly this message.
pub open spec fn settled<T>(result: Result<T, &'static str>, refusal: Option<Seq<char>>) -> bool {
    match result {
        Ok(_) => refusal is None,
        Err(message) => refusal == Some(message@),
    }
}

/// The views of waiting tasks.
pub open spec fn entry_views(entries: Seq<QueueEntry>) -> Seq<EntryView> {
    entries.map_values(|entry: QueueEntry| entry@)
}

/// The sends that wait and those that run.
#[derive(Debug)]
pub struct TaskQueue {
    pending: Vec<QueueEntry>,
    active: Vec<Slot>,
    limit: u8,
    next_generation: u64,
}

spec fn slot_views(slots: Seq<Slot>) -> Seq<SlotView> {
    slots.map_values(|slot: Slot| SlotView { entry: slot.entry@, generation: slot.generation })
}

impl View for TaskQueue {
    type V = QueueView;

    closed spec fn view(&self) -> QueueView {
        QueueView {
            pending: entry_views(self.pending@),
            active: slot_views(self.active@),
            limit: self.limit,
            next_generation: self.next_generation,
        }
    }
}

impl Default for TaskQueue {
    fn default() -> (queue: TaskQueue)
        ensures
            queue@ == QueueView::empty(),
            queue@.valid(),
    {
        let queue = TaskQueue {
            pending: Vec::new(),
            active: Vec::new(),
            limit: 1,
            next_generation: 0,
        };
        assert(queue@.pending =~= Seq::<EntryView>::empty());
        assert(queue@.active =~= Seq::<SlotView>::empty());
        queue
    }
}

fn find_entry(entries: &Vec<QueueEntry>, id: &TaskId) -> (at: usize)
    ensures
        at == first_index(entry_views(entries@), entry_of(id@)),
        at <= entries@.len(),
{
    let ghost all = entry_views(entries@);
    let mut i: usize = 0;
    while i < entries.len()
        invariant
            i <= entries@.len(),
            all == entry_views(entries@),
            forall|k: int| 0 <= k < i ==> !entry_of(id@)(#[trigger] all[k]),
        decreases entries@.len() - i,
    {
        if entries[i].id.same(id) {
            proof {
                assert(entry_of(id@)(all[i as int]));
                lemma_is_first_index(all, entry_of(id@), i as int);
            }
            return i;
        }
        assert(!entry_of(id@)(all[i as int]));
        i = i + 1;
    }
    proof {
        lemma_is_first_index(all, entry_of(id@), i as int);
    }
    i
}

fn copy_entries(entries: &Vec<QueueEntry>) -> (copy: Vec<QueueEntry>)
    ensures
        entry_views(copy@) == entry_views(entries@),
{
    let mut copy: Vec<QueueEntry> = Vec::new();
    let mut i: usize = 0;
    while i < entries.len()
        invariant
            i <= entries@.len(),
            copy@.len() == i,
            forall|k: int| 0 <= k < i ==> (#[trigger] copy@[k])@ == entries@[k]@,
        decreases entries@.len() - i,
    {
        copy.push(entries[i].clone());
        i = i + 1;
    }
    assert(entry_views(copy@) =~= entry_views(entries@));
    copy
}

impl TaskQueue {
    fn find_slot(&self, id: &TaskId) -> (at: usize)
        ensures
            at == first_index(self@.active, slot_of(id@)),
            at <= self.active@.len(),
            self@.active.len() == self.active@.len(),
            at < self.active@.len() ==> self@.active[at as int].entry == self.active@[at as int].entry@
                && self@.active[at as int].generation == self.active@[at as int].generation,
    {
        let mut i: usize = 0;
        while i < self.active.len()
            invariant
                i <= self.active@.len(),
                forall|k: int| 0 <= k < i ==> !slot_of(id@)(#[trigger] self@.active[k]),
            decreases self.active@.len() - i,
        {
            if self.active[i].entry.id.same(id) {
                proof {
                    assert(slot_of(id@)(self@.active[i as int]));
                    lemma_is_first_index(self@.active, slot_of(id@), i as int);
                }
                return i;
            }
            assert(!slot_of(id@)(self@.active[i as int]));
            i = i + 1;
        }
        proof {
            lemma_is_first_index(self@.active, slot_of(id@), i as int);
        }
        i
    }

    fn count_files(&self) -> (count: usize)
        ensures
            count == self@.files(),
            count <= self.active@.len(),
    {
        let mut count: usize = 0;
        let mut i: usize = 0;
        assert(self@.active.take(0) =~= Seq::<SlotView>::empty());
        while i < self.active.len()
            invariant
                i <= self.active@.len(),
                self@.active.len() == self.active@.len(),
                count <= i,
                count == count_slots(self@.active.take(i as int), is_file()),
            decreases self.active@.len() - i,
        {
            assert(self@.active.take(i + 1).drop_last() =~= self@.active.take(i as int));
            assert(self@.active.take(i + 1).last() == self@.active[i as int]);
            if !self.active[i].entry.metadata {
                count = count + 1;
            }
            i = i + 1;
        }
        assert(self@.active.take(i as int) =~= self@.active);
        count
    }

    fn count_metadata_for(&self, peer: NodeId) -> (count: usize)
        ensures
            count == count_slots(self@.active, is_metadata_for(peer)),
    {
        let mut count: usize = 0;
        let mut i: usize = 0;
        assert(self@.active.take(0) =~= Seq::<SlotView>::empty());
        while i < self.active.len()
            invariant
                i <= self.active@.len(),
                self@.active.len() == self.active@.len(),
                count <= i,
                count == count_slots(self@.active.take(i as int), is_metadata_for(peer)),
            decreases self.active@.len() - i,
        {
            assert(self@.active.take(i + 1).drop_last() =~= self@.active.take(i as int));
            assert(self@.active.take(i + 1).last() == self@.active[i as int]);
            if self.active[i].entry.metadata && self.active[i].entry.peer == peer {
                count = count + 1;
            }
            i = i + 1;
        }
        assert(self@.active.take(i as int) =~= self@.active);
        count
    }

    fn has_room_for(&self, entry: &QueueEntry) -> (room: bool)
        ensures
            room == self@.has_room(entry@),
    {
        let files: usize = self.count_files();
        assert(self@.active.len() == self.active@.len());
        if entry.metadata {
            self.active.len() - files < MAX_METADATA_ACTIVE && self.count_metadata_for(entry.peer)
                < MAX_METADATA_PER_PEER
        } else {
            files < self.limit as usize
        }
    }

    /// Sets how many files are sent at once. A refused value changes nothing.
    pub fn set_limit(&mut self, value: u8) -> (result: Result<(), &'static str>)
        ensures
            settled(
                result,
                if 1 <= value <= 3 {
                    None
                } else {
                    Some("发送并发数仅支持 1、2 或 3"@)
                },
            ),
            final(self)@ == if result is Ok {
                QueueView { limit: value, ..old(self)@ }
            } else {
                old(self)@
            },
            old(self)@.valid() ==> final(self)@.valid(),
    {
        if value < 1 || value > 3 {
            return Err("发送并发数仅支持 1、2 或 3");
        }
        self.limit = value;
        Ok(())
    }

    /// Admits a whole selection or nothing of it. A task that is already known under the
    /// same binding is not admitted again.
    pub fn enqueue(&mut self, entries: Vec<QueueEntry>) -> (result: Result<(), &'static str>)
        requires
            old(self)@.valid(),
        ensures
            settled(result, old(self)@.batch_refusal(entry_views(entries@))),
            final(self)@ == if result is Ok {
                QueueView {
                    pending: old(self)@.batch_pending(entry_views(entries@)),
                    ..old(self)@
                }
            } else {
                old(self)@
            },
            final(self)@.valid(),
    {
        let ghost all = entry_views(entries@);
        let mut candidate = copy_entries(&self.pending);
        let mut i: usize = 0;
        assert(all.take(0) =~= Seq::<EntryView>::empty());
        while i < entries.len()
            invariant
                i <= entries@.len(),
                self@ == old(self)@,
                self@.valid(),
                all == entry_views(entries@),
                entry_views(candidate@) == self@.batch_pending(all.take(i as int)),
                self@.batch_refusal(all.take(i as int)) is None,
                (QueueView { pending: entry_views(candidate@), ..self@ }).valid(),
            decreases entries@.len() - i,
        {
            let entry = &entries[i];
            let ghost waiting = entry_views(candidate@);
            proof {
                assert(all.take(i + 1).drop_last() =~= all.take(i as int));
                assert(all.take(i + 1).last() == entry@);
                lemma_first_index(waiting, entry_of(entry@.id));
                lemma_first_index(self@.active, slot_of(entry@.id));
            }
            let running: usize = self.find_slot(&entry.id);
            let queued: usize = find_entry(&candidate, &entry.id);
            let mut known: bool = false;
            let mut matching: bool = false;
            if running < self.active.len() {
                known = true;
                matching = self.active[running].entry.same(entry);
            } else if queued < candidate.len() {
                known = true;
                matching = candidate[queued].same(entry);
                assert(waiting[queued as int] == candidate@[queued as int]@);
            }
            if known {
                if !matching {
                    proof {
                        lemma_first_batch_refusal(self@, all, i + 1);
                    }
                    return Err("队列任务绑定不能改变");
                }
            } else {
                if candidate.len() == MAX_QUEUED {
                    proof {
                        lemma_first_batch_refusal(self@, all, i + 1);
                    }
                    return Err("发送队列已达上限");
                }
                candidate.push(entry.clone());
                proof {
                    assert(entry_views(candidate@) =~= waiting.push(entry@));
                    lemma_pending_added(QueueView { pending: waiting, ..self@ }, entry@);
                }
            }
            i = i + 1;
        }
        assert(all.take(i as int) =~= all);
        self.pending = candidate;
        Ok(())
    }

    /// Starts the first waiting task whose peer is connected and for which there is
    /// room. The order of the others stays.
    pub fn dispatch<F: Fn(NodeId) -> bool>(&mut self, connected: F) -> (started: Option<QueueEntry>)
        requires
            old(self)@.valid(),
            forall|peer: NodeId| call_requires(connected, (peer,)),
        ensures
            match started {
                Some(entry) => old(self)@.next_generation < u64::MAX && exists|at: int|
                    {
                        &&& 0 <= at < old(self)@.pending.len()
                        &&& #[trigger] old(self)@.pending[at] == entry@
                        &&& old(self)@.has_room(entry@)
                        &&& call_ensures(connected, (entry.peer,), true)
                        &&& forall|k: int|
                            0 <= k < at ==> !old(self)@.has_room(#[trigger] old(self)@.pending[k])
                                || call_ensures(connected, (old(self)@.pending[k].peer,), false)
                        &&& final(self)@ == old(self)@.started(
                            old(self)@.pending.remove(at),
                            entry@,
                        )
                    },
                None => final(self)@ == old(self)@ && (old(self)@.next_generation == u64::MAX
                    || forall|k: int|
                    0 <= k < old(self)@.pending.len() ==> !old(self)@.has_room(
                        #[trigger] old(self)@.pending[k],
                    ) || call_ensures(connected, (old(self)@.pending[k].peer,), false)),
            },
            final(self)@.valid(),
    {
        let mut at: usize = 0;
        while at < self.pending.len()
            invariant
                at <= self.pending@.len(),
                self@ == old(self)@,
                self@.valid(),
                self@.pending.len() == self.pending@.len(),
                forall|peer: NodeId| call_requires(connected, (peer,)),
                forall|k: int|
                    0 <= k < at ==> !self@.has_room(#[trigger] self@.pending[k]) || call_ensures(
                        connected,
                        (self@.pending[k].peer,),
                        false,
                    ),
            decreases self.pending@.len() - at,
        {
            assert(self@.pending[at as int] == self.pending@[at as int]@);
            let peer = self.pending[at].peer;
            if connected(peer) && self.has_room_for(&self.pending[at]) {
                if self.next_generation == u64::MAX {
                    return None;
                }
                let ghost before = self@;
                let entry = self.pending.remove(at);
                let generation: u64 = self.next_generation + 1;
                self.next_generation = generation;
                self.active.push(Slot { entry: entry.clone(), generation });
                proof {
                    assert(before.pending[at as int] == entry@);
                    assert(self@.pending =~= before.pending.remove(at as int));
                    assert(self@.active =~= before.active.push(
                        SlotView { entry: entry@, generation },
                    ));
                    lemma_started_from(before, at as int);
                }
                return Some(entry);
            }
            at = at + 1;
        }
        None
    }

    /// The generation of the slot of a running task.
    pub fn slot_generation(&self, id: &TaskId) -> (generation: Option<u64>)
        ensures
            ({
                let at = first_index(self@.active, slot_of(id@));
                generation == if at < self@.active.len() {
                    Some(self@.active[at].generation)
                } else {
                    None
                }
            }),
    {
        let at: usize = self.find_slot(id);
        if at < self.active.len() {
            Some(self.active[at].generation)
        } else {
            None
        }
    }

    /// Ends a running task, but only in the generation that it was started in.
    pub fn finish_if(&mut self, id: &TaskId, generation: u64)
        requires
            old(self)@.valid(),
        ensures
            final(self)@ == if holds_slot(old(self)@.active, id@, generation) {
                QueueView {
                    active: old(self)@.active.remove(first_index(old(self)@.active, slot_of(id@))),
                    ..old(self)@
                }
            } else {
                old(self)@
            },
            final(self)@.valid(),
    {
        let at: usize = self.find_slot(id);
        if at < self.active.len() && self.active[at].generation == generation {
            let ghost before = self@;
            let _ = self.active.remove(at);
            proof {
                assert(self@.active =~= before.active.remove(at as int));
                lemma_slot_removed(before, at as int);
            }
        }
    }

    /// Ends a running task in whatever generation it is.
    pub fn finish(&mut self, id: &TaskId)
        requires
            old(self)@.valid(),
        ensures
            ({
                let at = first_index(old(self)@.active, slot_of(id@));
                final(self)@ == if at < old(self)@.active.len() {
                    QueueView { active: old(self)@.active.remove(at), ..old(self)@ }
                } else {
                    old(self)@
                }
            }),
            final(self)@.valid(),
    {
        match self.slot_generation(id) {
            Some(generation) => self.finish_if(id, generation),
            None => {},
        }
    }

    /// Starts a task at once, past the waiting ones, if there is room for it. A refused
    /// start changes nothing.
    pub fn reserve_direct(&mut self, entry: QueueEntry) -> (result: Result<u64, &'static str>)
        requires
            old(self)@.valid(),
        ensures
            settled(result, old(self)@.direct_refusal(entry@)),
            match result {
                Ok(generation) => generation == old(self)@.next_generation + 1 && final(self)@
                    == old(self)@.started(old(self)@.without(entry@.id), entry@),
                Err(_) => final(self)@ == old(self)@,
            },
            final(self)@.valid(),
    {
        let running: usize = self.find_slot(&entry.id);
        if running < self.active.len() {
            return Err("任务已有发送槽");
        }
        if !self.has_room_for(&entry) {
            return Err("发送活动已达上限");
        }
        if self.next_generation == u64::MAX {
            return Err("发送槽代数已耗尽");
        }
        let generation: u64 = self.next_generation + 1;
        let queued: usize = find_entry(&self.pending, &entry.id);
        let ghost before = self@;
        proof {
            lemma_first_index(before.pending, entry_of(entry@.id));
            lemma_first_index(before.active, slot_of(entry@.id));
        }
        if queued < self.pending.len() {
            assert(before.pending[queued as int] == self.pending@[queued as int]@);
            if !self.pending[queued].same(&entry) {
                return Err("队列任务绑定不能改变");
            }
            let _ = self.pending.remove(queued);
        }
        let ghost added = entry@;
        self.next_generation = generation;
        self.active.push(Slot { entry, generation });
        proof {
            assert(self@.pending =~= before.without(added.id));
            assert(self@.active =~= before.active.push(SlotView { entry: added, generation }));
            if queued < before.pending.len() {
                lemma_started_from(before, queued as int);
            } else {
                lemma_started_fresh(before, added);
            }
        }
        Ok(generation)
    }

    /// Forgets every task. Generations keep counting, so a late end of an old task
    /// cannot release a new slot.
    pub fn clear(&mut self)
        requires
            old(self)@.valid(),
        ensures
            final(self)@ == (QueueView {
                pending: Seq::empty(),
                active: Seq::empty(),
                ..old(self)@
            }),
            final(self)@.valid(),
    {
        self.pending.clear();
        self.active.clear();
        assert(self@.pending =~= Seq::<EntryView>::empty());
        assert(self@.active =~= Seq::<SlotView>::empty());
    }

    /// Takes a waiting task out.
    pub fn remove_queued(&mut self, id: &TaskId) -> (removed: Option<QueueEntry>)
        requires
            old(self)@.valid(),
        ensures
            ({
                let at = first_index(old(self)@.pending, entry_of(id@));
                match removed {
                    Some(entry) => at < old(self)@.pending.len() && entry@
                        == old(self)@.pending[at],
                    None => at == old(self)@.pending.len(),
                }
            }),
            final(self)@ == (QueueView { pending: old(self)@.without(id@), ..old(self)@ }),
            final(self)@.valid(),
    {
        let at: usize = find_entry(&self.pending, id);
        if at < self.pending.len() {
            let ghost before = self@;
            let entry = self.pending.remove(at);
            proof {
                assert(before.pending[at as int] == entry@);
                assert(self@.pending =~= before.pending.remove(at as int));
                lemma_pending_removed(before, at as int);
            }
            Some(entry)
        } else {
            assert(self@.pending.len() == self.pending@.len());
            None
        }
    }

    /// Whether a task waits.
    pub fn is_queued(&self, id: &TaskId) -> (queued: bool)
        ensures
            queued == (first_index(self@.pending, entry_of(id@)) < self@.pending.len()),
    {
        let at: usize = find_entry(&self.pending, id);
        assert(self@.pending.len() == self.pending@.len());
        at < self.pending.len()
    }

    /// How full the queue is.
    pub fn metrics(&self) -> (metrics: QueueMetrics)
        ensures
            metrics.pending == self@.pending.len(),
            metrics.active_files == self@.files(),
            metrics.active_metadata == self@.active.len() - self@.files(),
            metrics.limit == self@.limit,
            metrics.converging == (self@.files() > self@.limit),
    {
        let active_files: usize = self.count_files();
        assert(self@.active.len() == self.active@.len());
        assert(self@.pending.len() == self.pending@.len());
        QueueMetrics {
            pending: self.pending.len(),
            active_files,
            active_metadata: self.active.len() - active_files,
            limit: self.limit,
            converging: active_files > self.limit as usize,
        }
    }
}

proof fn lemma_first_batch_refusal(queue: QueueView, entries: Seq<EntryView>, count: int)
    requires
        0 <= count <= entries.len(),
        queue.batch_refusal(entries.take(count)) is Some,
    ensures
        queue.batch_refusal(entries) == queue.batch_refusal(entries.take(count)),
    decreases entries.len(),
{
    if count == entries.len() {
        assert(entries.take(count) =~= entries);
    } else {
        assert(entries.drop_last().take(count) =~= entries.take(count));
        lemma_first_batch_refusal(queue, entries.drop_last(), count);
    }
}

proof fn lemma_pending_added(queue: QueueView, entry: EntryView)
    requires
        queue.valid(),
        queue.known(queue.pending, entry.id) is None,
        queue.pending.len() < MAX_QUEUED,
    ensures
        (QueueView { pending: queue.pending.push(entry), ..queue }).valid(),
{
    let after = queue.pending.push(entry);
    let key = |found: EntryView| found.id;
    lemma_first_index(queue.pending, entry_of(entry.id));
    lemma_first_index(queue.active, slot_of(entry.id));
    assert forall|i: int, j: int| 0 <= i < j < after.len() implies key(#[trigger] after[i]) != key(
        #[trigger] after[j],
    ) by {
        if j == queue.pending.len() {
            assert(!entry_of(entry.id)(queue.pending[i]));
        } else {
            assert(key(queue.pending[i]) != key(queue.pending[j]));
        }
    }
    assert forall|i: int, j: int|
        0 <= i < after.len() && 0 <= j < queue.active.len() implies (#[trigger] after[i]).id != (
    #[trigger] queue.active[j]).entry.id by {
        if i == queue.pending.len() {
            assert(!slot_of(entry.id)(queue.active[j]));
        } else {
            assert(queue.pending[i].id != queue.active[j].entry.id);
        }
    }
}

proof fn lemma_pending_removed(queue: QueueView, at: int)
    requires
        queue.valid(),
        0 <= at < queue.pending.len(),
    ensures
        (QueueView { pending: queue.pending.remove(at), ..queue }).valid(),
{
    let after = queue.pending.remove(at);
    let key = |found: EntryView| found.id;
    assert forall|i: int, j: int| 0 <= i < j < after.len() implies key(#[trigger] after[i]) != key(
        #[trigger] after[j],
    ) by {
        let a = if i < at {
            i
        } else {
            i + 1
        };
        let b = if j < at {
            j
        } else {
            j + 1
        };
        assert(key(queue.pending[a]) != key(queue.pending[b]));
    }
    assert forall|i: int, j: int|
        0 <= i < after.len() && 0 <= j < queue.active.len() implies (#[trigger] after[i]).id != (
    #[trigger] queue.active[j]).entry.id by {
        let a = if i < at {
            i
        } else {
            i + 1
        };
        assert(queue.pending[a].id != queue.active[j].entry.id);
    }
}

proof fn lemma_slot_added(queue: QueueView, entry: EntryView)
    requires
        queue.valid(),
        queue.next_generation < u64::MAX,
        queue.has_room(entry),
        forall|i: int| 0 <= i < queue.pending.len() ==> (#[trigger] queue.pending[i]).id != entry.id,
        forall|j: int|
            0 <= j < queue.active.len() ==> (#[trigger] queue.active[j]).entry.id != entry.id,
    ensures
        queue.started(queue.pending, entry).valid(),
{
    let after = queue.started(queue.pending, entry);
    assert(after.active.drop_last() =~= queue.active);
    let key = |slot: SlotView| slot.entry.id;
    assert forall|i: int, j: int| 0 <= i < j < after.active.len() implies key(
        #[trigger] after.active[i],
    ) != key(#[trigger] after.active[j]) by {
        if j < queue.active.len() {
            assert(key(queue.active[i]) != key(queue.active[j]));
        }
    }
}

proof fn lemma_started_from(queue: QueueView, at: int)
    requires
        queue.valid(),
        queue.next_generation < u64::MAX,
        0 <= at < queue.pending.len(),
        queue.has_room(queue.pending[at]),
    ensures
        queue.started(queue.pending.remove(at), queue.pending[at]).valid(),
{
    let entry = queue.pending[at];
    let middle = QueueView { pending: queue.pending.remove(at), ..queue };
    let key = |found: EntryView| found.id;
    lemma_pending_removed(queue, at);
    assert forall|i: int| 0 <= i < middle.pending.len() implies (#[trigger] middle.pending[i]).id
        != entry.id by {
        let a = if i < at {
            i
        } else {
            i + 1
        };
        if a < at {
            assert(key(queue.pending[a]) != key(queue.pending[at]));
        } else {
            assert(key(queue.pending[at]) != key(queue.pending[a]));
        }
    }
    lemma_slot_added(middle, entry);
}

proof fn lemma_started_fresh(queue: QueueView, entry: EntryView)
    requires
        queue.valid(),
        queue.next_generation < u64::MAX,
        queue.has_room(entry),
        first_index(queue.pending, entry_of(entry.id)) == queue.pending.len(),
        first_index(queue.active, slot_of(entry.id)) == queue.active.len(),
    ensures
        queue.started(queue.pending, entry).valid(),
{
    lemma_first_index(queue.pending, entry_of(entry.id));
    lemma_first_index(queue.active, slot_of(entry.id));
    assert forall|i: int| 0 <= i < queue.pending.len() implies (#[trigger] queue.pending[i]).id
        != entry.id by {
        assert(!entry_of(entry.id)(queue.pending[i]));
    }
    assert forall|j: int| 0 <= j < queue.active.len() implies (
    #[trigger] queue.active[j]).entry.id != entry.id by {
        assert(!slot_of(entry.id)(queue.active[j]));
    }
    lemma_slot_added(queue, entry);
}

proof fn lemma_count_removed(slots: Seq<SlotView>, wanted: spec_fn(SlotView) -> bool, at: int)
    requires
        0 <= at < slots.len(),
    ensures
        count_slots(slots.remove(at), wanted) == count_slots(slots, wanted) - if wanted(slots[at]) {
            1int
        } else {
            0int
        },
    decreases slots.len(),
{
    if at == slots.len() - 1 {
        assert(slots.remove(at) =~= slots.drop_last());
    } else {
        lemma_count_removed(slots.drop_last(), wanted, at);
        assert(slots.remove(at).drop_last() =~= slots.drop_last().remove(at));
        assert(slots.remove(at).last() == slots.last());
    }
}

proof fn lemma_slot_removed(queue: QueueView, at: int)
    requires
        queue.valid(),
        0 <= at < queue.active.len(),
    ensures
        (QueueView { active: queue.active.remove(at), ..queue }).valid(),
{
    let after = queue.active.remove(at);
    let key = |slot: SlotView| slot.entry.id;
    lemma_count_removed(queue.active, is_file(), at);
    assert forall|j: int| 0 <= j < after.len() implies #[trigger] after[j] == queue.active[if j < at {
        j
    } else {
        j + 1
    }] by {}
    assert forall|i: int, j: int| 0 <= i < j < after.len() implies key(#[trigger] after[i]) != key(
        #[trigger] after[j],
    ) by {
        let a = if i < at {
            i
        } else {
            i + 1
        };
        let b = if j < at {
            j
        } else {
            j + 1
        };
        assert(key(queue.active[a]) != key(queue.active[b]));
    }
}

/// A slot is always given a generation that no slot had before, so the end of an
/// earlier run of a task never releases its present slot.
pub proof fn stale_ends_release_nothing(
    queue: QueueView,
    pending: Seq<EntryView>,
    entry: EntryView,
    earlier: u64,
)
    requires
        queue.valid(),
        queue.next_generation < u64::MAX,
        first_index(queue.active, slot_of(entry.id)) == queue.active.len(),
        earlier <= queue.next_generation,
    ensures
        !holds_slot(queue.started(pending, entry).active, entry.id, earlier),
        holds_slot(
            queue.started(pending, entry).active,
            entry.id,
            queue.started(pending, entry).next_generation,
        ),
{
    let after = queue.started(pending, entry).active;
    lemma_first_index(queue.active, slot_of(entry.id));
    assert forall|k: int| 0 <= k < queue.active.len() implies !slot_of(entry.id)(
        #[trigger] after[k],
    ) by {
        assert(!slot_of(entry.id)(queue.active[k]));
    }
    lemma_is_first_index(after, slot_of(entry.id), queue.active.len() as int);
}

/// A change of the queue: a task starts, ends or all are forgotten, or only what waits
/// and the limit change.
pub enum QueueStep {
    Start { pending: Seq<EntryView>, entry: EntryView },
    End { at: int },
    Clear,
    Arrange { pending: Seq<EntryView>, limit: u8 },
}

impl QueueView {
    /// Whether a task is being sent.
    pub open spec fn runs(self, id: Seq<char>) -> bool {
        first_index(self.active, slot_of(id)) < self.active.len()
    }

    /// Whether a change can happen.
    pub open spec fn allows(self, step: QueueStep) -> bool {
        match step {
            QueueStep::Start { entry, .. } => self.next_generation < u64::MAX && !self.runs(
                entry.id,
            ),
            QueueStep::End { at } => 0 <= at < self.active.len(),
            _ => true,
        }
    }

    /// The queue after a change.
    pub open spec fn after(self, step: QueueStep) -> QueueView {
        match step {
            QueueStep::Start { pending, entry } => self.started(pending, entry),
            QueueStep::End { at } => QueueView { active: self.active.remove(at), ..self },
            QueueStep::Clear => QueueView {
                pending: Seq::empty(),
                active: Seq::empty(),
                ..self
            },
            QueueStep::Arrange { pending, limit } => QueueView { pending, limit, ..self },
        }
    }
}

proof fn lemma_runs(queue: QueueView, id: Seq<char>)
    ensures
        queue.runs(id) <==> exists|k: int|
            0 <= k < queue.active.len() && (#[trigger] queue.active[k]).entry.id == id,
{
    lemma_first_index(queue.active, slot_of(id));
    if queue.runs(id) {
        let at = first_index(queue.active, slot_of(id));
        assert(slot_of(id)(queue.active[at]));
    }
    if exists|k: int| 0 <= k < queue.active.len() && (#[trigger] queue.active[k]).entry.id == id {
        let k = choose|k: int|
            0 <= k < queue.active.len() && (#[trigger] queue.active[k]).entry.id == id;
        assert(slot_of(id)(queue.active[k]));
    }
}

/// A task holds a slot from its start until its end or until all are forgotten, and
/// nothing else gives or takes one. The slots are as many as the tasks that hold one.
pub proof fn slots_last_from_start_to_end(queue: QueueView, step: QueueStep, id: Seq<char>)
    requires
        queue.valid(),
        queue.allows(step),
    ensures
        queue.after(step).runs(id) == match step {
            QueueStep::Start { entry, .. } => queue.runs(id) || id == entry.id,
            QueueStep::End { at } => queue.runs(id) && id != queue.active[at].entry.id,
            QueueStep::Clear => false,
            QueueStep::Arrange { .. } => queue.runs(id),
        },
        queue.after(step).active.len() == match step {
            QueueStep::Start { .. } => queue.active.len() as int + 1,
            QueueStep::End { .. } => queue.active.len() - 1,
            QueueStep::Clear => 0,
            QueueStep::Arrange { .. } => queue.active.len() as int,
        },
{
    let after = queue.after(step);
    lemma_runs(queue, id);
    lemma_runs(after, id);
    match step {
        QueueStep::Start { entry, .. } => {
            let count = queue.active.len() as int;
            assert(after.active[count].entry == entry);
            assert forall|k: int| 0 <= k < count implies (#[trigger] queue.active[k])
                == after.active[k] by {}
        },
        QueueStep::End { at } => {
            let key = |slot: SlotView| slot.entry.id;
            assert forall|k: int| 0 <= k < after.active.len() implies (#[trigger] after.active[k])
                == queue.active[if k < at {
                k
            } else {
                k + 1
            }] by {}
            assert forall|k: int| 0 <= k < queue.active.len() && k != at implies (
            #[trigger] queue.active[k]) == after.active[if k < at {
                k
            } else {
                k - 1
            }] && queue.active[k].entry.id != queue.active[at].entry.id by {
                if k < at {
                    assert(key(queue.active[k]) != key(queue.active[at]));
                } else {
                    assert(key(queue.active[at]) != key(queue.active[k]));
                }
            }
        },
        _ => {},
    }
}

/// No two starts ever get the same generation, whatever happens between them.
pub proof fn generations_are_never_reused(
    states: Seq<QueueView>,
    steps: Seq<QueueStep>,
    first: int,
    second: int,
)
    requires
        states.len() == steps.len() + 1,
        forall|k: int|
            0 <= k < steps.len() ==> states[k].allows(#[trigger] steps[k]) && states[k + 1]
                == states[k].after(steps[k]),
        0 <= first < second < steps.len(),
        steps[first] is Start,
        steps[second] is Start,
    ensures
        states[first + 1].active.last().generation < states[second + 1].active.last().generation,
{
    lemma_generations_grow(states, steps, first + 1, second);
    assert(states[first + 1] == states[first].after(steps[first]));
    assert(states[second].allows(steps[second]));
    assert(states[second + 1] == states[second].after(steps[second]));
}

proof fn lemma_generations_grow(
    states: Seq<QueueView>,
    steps: Seq<QueueStep>,
    from: int,
    to: int,
)
    requires
        states.len() == steps.len() + 1,
        forall|k: int|
            0 <= k < steps.len() ==> states[k].allows(#[trigger] steps[k]) && states[k + 1]
                == states[k].after(steps[k]),
        0 <= from <= to <= steps.len(),
    ensures
        states[from].next_generation <= states[to].next_generation,
    decreases to - from,
{
    if from < to {
        lemma_generations_grow(states, steps, from, to - 1);
        assert(states[to - 1].allows(steps[to - 1]));
        assert(states[to - 1 + 1] == states[to - 1].after(steps[to - 1]));
    }
}

/// Lowering the limit ends no running task and starts none until enough have ended.
pub proof fn lowering_the_limit_starts_nothing(queue: QueueView, limit: u8, entry: EntryView)
    requires
        queue.valid(),
        1 <= limit <= 3,
        queue.files() >= limit,
        !entry.metadata,
    ensures
        (QueueView { limit, ..queue }).active == queue.active,
        !(QueueView { limit, ..queue }).has_room(entry),
{
}

/// Directories never take the room of a file.
pub proof fn directories_take_no_file_slot(queue: QueueView, entry: EntryView)
    requires
        entry.metadata,
    ensures
        queue.started(queue.pending, entry).files() == queue.files(),
{
    let after = queue.started(queue.pending, entry).active;
    assert(after.drop_last() =~= queue.active);
}

/// What was waiting keeps its place when a batch is admitted.
pub proof fn admission_keeps_the_order(queue: QueueView, entries: Seq<EntryView>)
    ensures
        queue.pending.len() <= queue.batch_pending(entries).len(),
        queue.batch_pending(entries).take(queue.pending.len() as int) == queue.pending,
    decreases entries.len(),
{
    if entries.len() == 0 {
        assert(queue.pending.take(queue.pending.len() as int) =~= queue.pending);
    } else {
        admission_keeps_the_order(queue, entries.drop_last());
        let waiting = queue.batch_pending(entries.drop_last());
        assert(waiting.push(entries.last()).take(queue.pending.len() as int) =~= waiting.take(
            queue.pending.len() as int,
        ));
    }
}

/// Files run up to the limit; directories have places of their own, eight in all and two
/// for one peer.
pub proof fn kinds_have_room_of_their_own(queue: QueueView, entry: EntryView)
    ensures
        !entry.metadata ==> (queue.has_room(entry) <==> queue.files() < queue.limit),
        entry.metadata ==> (queue.has_room(entry) <==> queue.active.len() - queue.files()
            < 8 && count_slots(
            queue.active,
            |slot: SlotView| slot.entry.metadata && slot.entry.peer == entry.peer,
        ) < 2),
{
    let peer = entry.peer;
    assert(is_metadata_for(peer) =~= (|slot: SlotView|
        slot.entry.metadata && slot.entry.peer == peer));
}

/// A task can be started past the others exactly if it does not run, there is room for
/// it, and it is not waiting as something else.
pub proof fn direct_starts_need_room(queue: QueueView, entry: EntryView)
    requires
        queue.valid(),
        queue.next_generation < u64::MAX,
    ensures
        queue.direct_refusal(entry) is None <==> {
            &&& forall|k: int|
                0 <= k < queue.active.len() ==> (#[trigger] queue.active[k]).entry.id != entry.id
            &&& queue.has_room(entry)
            &&& forall|k: int|
                0 <= k < queue.pending.len() && (#[trigger] queue.pending[k]).id == entry.id
                    ==> queue.pending[k] == entry
        },
{
    lemma_runs(queue, entry.id);
    let queued = first_index(queue.pending, entry_of(entry.id));
    lemma_first_index(queue.pending, entry_of(entry.id));
    if queued < queue.pending.len() {
        assert(entry_of(entry.id)(queue.pending[queued]));
        let key = |entry: EntryView| entry.id;
        assert forall|k: int|
            0 <= k < queue.pending.len() && (#[trigger] queue.pending[k]).id
                == entry.id implies k == queued by {
            if k < queued {
                assert(key(queue.pending[k]) != key(queue.pending[queued]));
            } else if k > queued {
                assert(key(queue.pending[queued]) != key(queue.pending[k]));
            }
        }
    } else {
        assert forall|k: int| 0 <= k < queue.pending.len() implies (
        #[trigger] queue.pending[k]).id != entry.id by {
            assert(!entry_of(entry.id)(queue.pending[k]));
        }
    }
}

/// A task that is taken out waits no longer, and the others keep their places.
pub proof fn removed_tasks_wait_no_longer(queue: QueueView, id: Seq<char>, at: int)
    requires
        queue.valid(),
        0 <= at < queue.pending.len(),
        queue.pending[at].id == id,
    ensures
        queue.without(id) == queue.pending.take(at) + queue.pending.skip(at + 1),
        forall|k: int|
            0 <= k < queue.without(id).len() ==> (#[trigger] queue.without(id)[k]).id != id,
{
    let queued = first_index(queue.pending, entry_of(id));
    lemma_first_index(queue.pending, entry_of(id));
    let key = |entry: EntryView| entry.id;
    assert(entry_of(id)(queue.pending[at]));
    assert(queued <= at);
    assert(entry_of(id)(queue.pending[queued]));
    if queued < at {
        assert(key(queue.pending[queued]) != key(queue.pending[at]));
    }
    assert(queue.pending.remove(at) =~= queue.pending.take(at) + queue.pending.skip(at + 1));
    assert forall|k: int| 0 <= k < queue.without(id).len() implies (
    #[trigger] queue.without(id)[k]).id != id by {
        if k < at {
            assert(key(queue.pending[k]) != key(queue.pending[at]));
        } else {
            assert(key(queue.pending[at]) != key(queue.pending[k + 1]));
        }
    }
}

/// A task that does not wait is not there to be taken out.
pub proof fn absent_tasks_are_not_removed(queue: QueueView, id: Seq<char>)
    requires
        forall|k: int| 0 <= k < queue.pending.len() ==> (#[trigger] queue.pending[k]).id != id,
    ensures
        queue.without(id) == queue.pending,
{
    let queued = first_index(queue.pending, entry_of(id));
    lemma_first_index(queue.pending, entry_of(id));
    if queued < queue.pending.len() {
        assert(entry_of(id)(queue.pending[queued]));
    }
}

/// New tasks that fit are admitted together, in order, behind those that wait.
pub proof fn new_tasks_wait_in_order(queue: QueueView, entries: Seq<EntryView>)
    requires
        queue.pending.len() + entries.len() <= 4096,
        forall|i: int, k: int|
            0 <= i < entries.len() && 0 <= k < queue.active.len() ==> (#[trigger] entries[i]).id
                != (#[trigger] queue.active[k]).entry.id,
        forall|i: int, k: int|
            0 <= i < entries.len() && 0 <= k < queue.pending.len() ==> (#[trigger] entries[i]).id
                != (#[trigger] queue.pending[k]).id,
        forall|i: int, j: int|
            0 <= i < j < entries.len() ==> (#[trigger] entries[i]).id != (
            #[trigger] entries[j]).id,
    ensures
        queue.batch_refusal(entries) is None,
        queue.batch_pending(entries) == queue.pending + entries,
    decreases entries.len(),
{
    if entries.len() == 0 {
        assert(queue.pending + entries =~= queue.pending);
    } else {
        let earlier = entries.drop_last();
        new_tasks_wait_in_order(queue, earlier);
        let entry = entries.last();
        let waiting = queue.batch_pending(earlier);
        lemma_first_index(waiting, entry_of(entry.id));
        lemma_first_index(queue.active, slot_of(entry.id));
        let running = first_index(queue.active, slot_of(entry.id));
        if running < queue.active.len() {
            assert(slot_of(entry.id)(queue.active[running]));
            assert(entries[entries.len() - 1].id != queue.active[running].entry.id);
        }
        let queued = first_index(waiting, entry_of(entry.id));
        if queued < waiting.len() {
            assert(entry_of(entry.id)(waiting[queued]));
            if queued < queue.pending.len() {
                assert(entries[entries.len() - 1].id != queue.pending[queued].id);
            } else {
                let before = queued - queue.pending.len();
                assert(waiting[queued] == entries[before]);
                assert(entries[before].id != entries[entries.len() - 1].id);
            }
        }
        assert(waiting.push(entry) =~= queue.pending + entries);
    }
}

/// Of a batch that is admitted every task waits or runs afterwards, bound as the batch
/// says; a batch that would bind a task otherwise is refused.
pub proof fn admitted_tasks_are_known(queue: QueueView, entries: Seq<EntryView>, at: int)
    requires
        queue.batch_refusal(entries) is None,
        0 <= at < entries.len(),
    ensures
        queue.known(queue.batch_pending(entries), entries[at].id) == Some(entries[at]),
    decreases entries.len(),
{
    let earlier = entries.drop_last();
    let last = entries.last();
    let waiting = queue.batch_pending(earlier);
    let after = queue.batch_pending(entries);
    if at < earlier.len() {
        admitted_tasks_are_known(queue, earlier, at);
        assert(earlier[at] == entries[at]);
        let id = entries[at].id;
        let queued = first_index(waiting, entry_of(id));
        lemma_first_index(waiting, entry_of(id));
        if queued < waiting.len() && after != waiting {
            assert forall|k: int| 0 <= k < queued implies !entry_of(id)(#[trigger] after[k]) by {
                assert(!entry_of(id)(waiting[k]));
            }
            assert(entry_of(id)(after[queued])) by {
                assert(entry_of(id)(waiting[queued]));
            }
            lemma_is_first_index(after, entry_of(id), queued);
        }
    } else {
        let id = last.id;
        if queue.known(waiting, id) is None {
            lemma_first_index(waiting, entry_of(id));
            assert forall|k: int| 0 <= k < waiting.len() implies !entry_of(id)(
                #[trigger] after[k],
            ) by {
                assert(!entry_of(id)(waiting[k]));
            }
            assert(entry_of(id)(after[waiting.len() as int]));
            lemma_is_first_index(after, entry_of(id), waiting.len() as int);
        }
    }
}

/// A task that waits or runs is not bound anew.
pub proof fn bindings_do_not_change(queue: QueueView, entry: EntryView)
    requires
        queue.known(queue.pending, entry.id) matches Some(known) && known != entry,
    ensures
        queue.batch_refusal(seq![entry]) is Some,
{
    assert(seq![entry].drop_last() =~= Seq::<EntryView>::empty());
    reveal_with_fuel(QueueView::batch_refusal, 2);
    reveal_with_fuel(QueueView::batch_pending, 2);
}

/// A slot is held exactly in the generation in which its task runs; a task that does not
/// run holds none.
pub proof fn slots_are_held_in_their_generation(queue: QueueView, at: int, generation: u64)
    requires
        queue.valid(),
        0 <= at < queue.active.len(),
    ensures
        holds_slot(queue.active, queue.active[at].entry.id, generation) <==> generation
            == queue.active[at].generation,
        forall|id: Seq<char>|
            !queue.runs(id) ==> !#[trigger] holds_slot(queue.active, id, generation),
{
    let id = queue.active[at].entry.id;
    let key = |slot: SlotView| slot.entry.id;
    assert(slot_of(id)(queue.active[at]));
    assert forall|k: int| 0 <= k < at implies !slot_of(id)(#[trigger] queue.active[k]) by {
        assert(key(queue.active[k]) != key(queue.active[at]));
    }
    lemma_is_first_index(queue.active, slot_of(id), at);
}

} // verus!
