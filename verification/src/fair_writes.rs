//! Equal shares for the writers that are able to write.
//!
//! A writer that cannot go on leaves the ready ring until it is polled again, so a
//! blocked stream never holds the turn. Credits never exceed one quantum, so a slow
//! stream cannot save up for later.

use vstd::prelude::*;

use crate::error::IoErrorKind;
use crate::lists::{distinct, first_index, lemma_first_index, lemma_is_first_index};
use crate::task_model::TaskId;

verus! {

/// The bytes that a writer may write before it goes behind the others.
pub const BYTE_QUANTUM: usize = 65536;

/// The most writers at once.
pub const MAX_DATA_WRITERS: usize = 3;

/// One writer, as mathematical values.
pub struct WriterView {
    pub id: Seq<char>,
    pub credit: usize,
    pub ready: bool,
    pub has_written: bool,
    pub startup_share: bool,
}

impl WriterView {
    /// A first writer with its whole first share before it.
    pub open spec fn untouched(self) -> bool {
        self.credit == BYTE_QUANTUM && self.startup_share && !self.has_written
    }
}

/// The scheduler, as mathematical values.
pub struct FairView {
    pub writers: Seq<WriterView>,
    pub ring: Seq<Seq<char>>,
    pub polling: Option<Seq<char>>,
    pub has_written: bool,
}

/// Finds a writer.
pub open spec fn writer_of(id: Seq<char>) -> spec_fn(WriterView) -> bool {
    |writer: WriterView| writer.id == id
}

/// Some identifiers without one of them.
pub open spec fn without_id(ring: Seq<Seq<char>>, id: Seq<char>) -> Seq<Seq<char>>
    decreases ring.len(),
{
    if ring.len() == 0 {
        ring
    } else if ring.last() == id {
        without_id(ring.drop_last(), id)
    } else {
        without_id(ring.drop_last(), id).push(ring.last())
    }
}

/// The writers that are able to write, in the order of their registration.
pub open spec fn ready_ids(writers: Seq<WriterView>) -> Seq<Seq<char>>
    decreases writers.len(),
{
    if writers.len() == 0 {
        Seq::empty()
    } else if writers.last().ready {
        ready_ids(writers.drop_last()).push(writers.last().id)
    } else {
        ready_ids(writers.drop_last())
    }
}

/// The smaller of two lengths.
pub open spec fn smaller(left: usize, right: usize) -> usize {
    if left <= right {
        left
    } else {
        right
    }
}

/// What became of handing bytes to a stream.
#[derive(Clone, Copy, Debug, PartialEq, Eq, Structural)]
pub enum WriteOutcome {
    /// The stream took this many bytes, at least one.
    Wrote(usize),
    /// The stream took nothing: it is not ready, closed or failed.
    Stopped,
}

/// What a stream answered to the bytes that it was offered.
#[derive(Clone, Copy, Debug, PartialEq, Eq, Structural)]
pub enum StreamAnswer {
    Took(usize),
    NotReady,
    Failed(IoErrorKind),
}

impl StreamAnswer {
    /// What the answer means for the turn: only a stream that took something keeps it.
    pub fn outcome(self) -> (outcome: WriteOutcome)
        ensures
            outcome == match self {
                StreamAnswer::Took(count) => if count > 0 {
                    WriteOutcome::Wrote(count)
                } else {
                    WriteOutcome::Stopped
                },
                _ => WriteOutcome::Stopped,
            },
    {
        match self {
            StreamAnswer::Took(count) => if count > 0 {
                WriteOutcome::Wrote(count)
            } else {
                WriteOutcome::Stopped
            },
            _ => WriteOutcome::Stopped,
        }
    }

    /// What the writer is told; nothing while the stream is not ready. A stream that
    /// takes nothing of what it is offered has failed.
    pub fn result(self) -> (result: Option<std::result::Result<usize, IoErrorKind>>)
        ensures
            result == match self {
                StreamAnswer::Took(count) => if count > 0 {
                    Some(Ok::<usize, IoErrorKind>(count))
                } else {
                    Some(Err(IoErrorKind::WriteZero))
                },
                StreamAnswer::NotReady => None,
                StreamAnswer::Failed(kind) => Some(Err(kind)),
            },
    {
        match self {
            StreamAnswer::Took(count) => if count > 0 {
                Some(Ok(count))
            } else {
                Some(Err(IoErrorKind::WriteZero))
            },
            StreamAnswer::NotReady => None,
            StreamAnswer::Failed(kind) => Some(Err(kind)),
        }
    }
}

impl FairView {
    /// No writer is registered.
    pub open spec fn empty() -> FairView {
        FairView {
            writers: Seq::empty(),
            ring: Seq::empty(),
            polling: None,
            has_written: false,
        }
    }

    /// Each writer once, no more than allowed, each with a credit of at most a quantum;
    /// the ring holds exactly the ready writers, each once, and the turn is with one of
    /// them.
    pub open spec fn valid(self) -> bool {
        &&& self.writers.len() <= MAX_DATA_WRITERS
        &&& distinct(self.writers, |writer: WriterView| writer.id)
        &&& forall|i: int|
            0 <= i < self.writers.len() ==> 0 < (#[trigger] self.writers[i]).credit
                <= BYTE_QUANTUM && self.writers[i].ready == self.ring.contains(self.writers[i].id)
        &&& self.ring.no_duplicates()
        &&& forall|k: int| 0 <= k < self.ring.len() ==> self.has(#[trigger] self.ring[k])
        &&& self.polling matches Some(id) ==> self.ring.contains(id)
    }

    /// Where a writer stands; the number of writers where it is not registered.
    pub open spec fn position(self, id: Seq<char>) -> int {
        first_index(self.writers, writer_of(id))
    }

    /// Whether a writer is registered.
    pub open spec fn has(self, id: Seq<char>) -> bool {
        self.position(id) < self.writers.len()
    }

    /// A registered writer.
    pub open spec fn writer(self, id: Seq<char>) -> WriterView {
        self.writers[self.position(id)]
    }

    /// The scheduler with a writer changed.
    pub open spec fn with_writer(self, id: Seq<char>, writer: WriterView) -> Seq<WriterView> {
        self.writers.update(self.position(id), writer)
    }

    /// Why a writer is not registered, if it is not.
    pub open spec fn ticket_refusal(self, id: Seq<char>) -> Option<Seq<char>> {
        if self.has(id) {
            Some("同一任务已有数据写入"@)
        } else if self.writers.len() >= MAX_DATA_WRITERS {
            Some("数据写入资源已达上限"@)
        } else {
            None
        }
    }

    /// The scheduler with one more writer.
    pub open spec fn registered(self, id: Seq<char>) -> FairView {
        FairView {
            writers: self.writers.push(
                WriterView {
                    id,
                    credit: BYTE_QUANTUM,
                    ready: false,
                    has_written: false,
                    startup_share: !self.has_written,
                },
            ),
            ..self
        }
    }

    /// The scheduler once a writer said that it has bytes. A first writer of a fresh
    /// scheduler goes to the front, every other one to the back.
    pub open spec fn joined(self, id: Seq<char>) -> FairView {
        let writer = self.writer(id);
        if writer.ready {
            self
        } else {
            FairView {
                writers: self.with_writer(id, WriterView { ready: true, ..writer }),
                ring: if writer.startup_share && !writer.has_written {
                    seq![id] + self.ring
                } else {
                    self.ring.push(id)
                },
                ..self
            }
        }
    }

    /// Whether a writer that has bytes gets the turn.
    pub open spec fn has_turn(self, id: Seq<char>) -> bool {
        self.joined(id).polling is None && self.joined(id).ring[0] == id
    }

    /// The scheduler after a writer asked for the turn.
    pub open spec fn asked(self, id: Seq<char>) -> FairView {
        if self.has_turn(id) {
            FairView { polling: Some(id), ..self.joined(id) }
        } else {
            self.joined(id)
        }
    }

    /// The scheduler after a turn. A writer that used up its credit gets a new one and
    /// goes behind the others; one that took nothing leaves the ring.
    pub open spec fn ended(self, id: Seq<char>, outcome: WriteOutcome) -> FairView {
        let writer = self.writer(id);
        match outcome {
            WriteOutcome::Wrote(count) => if count == writer.credit {
                FairView {
                    writers: self.with_writer(
                        id,
                        WriterView { credit: BYTE_QUANTUM, has_written: true, ..writer },
                    ),
                    ring: without_id(self.ring, id).push(id),
                    polling: None,
                    has_written: true,
                }
            } else {
                FairView {
                    writers: self.with_writer(
                        id,
                        WriterView {
                            credit: (writer.credit - count) as usize,
                            has_written: true,
                            ..writer
                        },
                    ),
                    polling: None,
                    has_written: true,
                    ..self
                }
            },
            WriteOutcome::Stopped => FairView { polling: None, ..self.parked(id) },
        }
    }

    /// The scheduler once a writer has no bytes; its credit stays.
    pub open spec fn parked(self, id: Seq<char>) -> FairView {
        FairView {
            writers: self.with_writer(id, WriterView { ready: false, ..self.writer(id) }),
            ring: without_id(self.ring, id),
            ..self
        }
    }

    /// The scheduler without a writer.
    pub open spec fn closed_writer(self, id: Seq<char>) -> FairView {
        let writers = self.writers.remove(self.position(id));
        FairView {
            writers,
            ring: without_id(self.ring, id),
            polling: if self.polling == Some(id) {
                None
            } else {
                self.polling
            },
            has_written: self.has_written && writers.len() > 0,
        }
    }
}

#[derive(Debug)]
struct WriteCredit {
    id: TaskId,
    credit: usize,
    ready: bool,
    has_written: bool,
    startup_share: bool,
}

/// The scheduler of the writers.
#[derive(Debug)]
pub struct FairWrites {
    writers: Vec<WriteCredit>,
    ring: Vec<TaskId>,
    polling: Option<TaskId>,
    has_written: bool,
}

spec fn credit_views(writers: Seq<WriteCredit>) -> Seq<WriterView> {
    writers.map_values(
        |writer: WriteCredit|
            WriterView {
                id: writer.id@,
                credit: writer.credit,
                ready: writer.ready,
                has_written: writer.has_written,
                startup_share: writer.startup_share,
            },
    )
}

/// The views of some identifiers.
pub open spec fn names(ids: Seq<TaskId>) -> Seq<Seq<char>> {
    ids.map_values(|id: TaskId| id@)
}

impl View for FairWrites {
    type V = FairView;

    closed spec fn view(&self) -> FairView {
        FairView {
            writers: credit_views(self.writers@),
            ring: names(self.ring@),
            polling: crate::task_record::id_view(self.polling),
            has_written: self.has_written,
        }
    }
}

impl Default for FairWrites {
    fn default() -> (scheduler: FairWrites)
        ensures
            scheduler@ == FairView::empty(),
            scheduler@.valid(),
    {
        let scheduler = FairWrites {
            writers: Vec::new(),
            ring: Vec::new(),
            polling: None,
            has_written: false,
        };
        assert(scheduler@.writers =~= Seq::<WriterView>::empty());
        assert(scheduler@.ring =~= Seq::<Seq<char>>::empty());
        scheduler
    }
}

/// The right of one registered writer to take turns.
#[derive(Debug)]
pub struct WriteTicket {
    id: TaskId,
}

impl View for WriteTicket {
    type V = Seq<char>;

    closed spec fn view(&self) -> Seq<char> {
        self.id@
    }
}

fn remove_id(ring: &Vec<TaskId>, id: &TaskId) -> (rest: Vec<TaskId>)
    ensures
        names(rest@) == without_id(names(ring@), id@),
{
    let ghost all = names(ring@);
    let mut rest: Vec<TaskId> = Vec::new();
    let mut i: usize = 0;
    assert(all.take(0) =~= Seq::<Seq<char>>::empty());
    assert(names(rest@) =~= Seq::<Seq<char>>::empty());
    while i < ring.len()
        invariant
            i <= ring@.len(),
            all == names(ring@),
            names(rest@) == without_id(all.take(i as int), id@),
        decreases ring@.len() - i,
    {
        assert(all.take(i + 1).drop_last() =~= all.take(i as int));
        assert(all.take(i + 1).last() == ring@[i as int]@);
        if !ring[i].same(id) {
            let ghost before = names(rest@);
            rest.push(ring[i].clone());
            assert(names(rest@) =~= before.push(ring@[i as int]@));
        }
        i = i + 1;
    }
    assert(all.take(i as int) =~= all);
    rest
}

proof fn lemma_without_id(ring: Seq<Seq<char>>, id: Seq<char>)
    ensures
        forall|other: Seq<char>|
            #![trigger without_id(ring, id).contains(other)]
            without_id(ring, id).contains(other) <==> ring.contains(other) && other != id,
        ring.no_duplicates() ==> without_id(ring, id).no_duplicates(),
        !ring.contains(id) ==> without_id(ring, id) == ring,
    decreases ring.len(),
{
    if ring.len() > 0 {
        let front = ring.drop_last();
        let last = ring.last();
        lemma_without_id(front, id);
        let rest = without_id(ring, id);
        assert(ring =~= front.push(last));
        assert forall|other: Seq<char>|
            #![trigger rest.contains(other)]
            rest.contains(other) <==> ring.contains(other) && other != id by {
            if rest.contains(other) {
                let k = choose|k: int| 0 <= k < rest.len() && rest[k] == other;
                if last == id || k < rest.len() - 1 {
                    assert(without_id(front, id).contains(other)) by {
                        assert(without_id(front, id)[k] == other);
                    }
                    let j = choose|j: int| 0 <= j < front.len() && front[j] == other;
                    assert(ring[j] == other);
                } else {
                    assert(ring[ring.len() - 1] == other);
                }
            }
            if ring.contains(other) && other != id {
                let j = choose|j: int| 0 <= j < ring.len() && ring[j] == other;
                if j < front.len() {
                    assert(front[j] == other);
                    assert(without_id(front, id).contains(other));
                    let k = choose|k: int|
                        0 <= k < without_id(front, id).len() && without_id(front, id)[k] == other;
                    assert(rest[k] == other);
                } else {
                    assert(rest[rest.len() - 1] == other);
                }
            }
        }
        if ring.no_duplicates() {
            assert(front.no_duplicates());
            if last != id {
                assert(!without_id(front, id).contains(last)) by {
                    if front.contains(last) {
                        let j = choose|j: int| 0 <= j < front.len() && front[j] == last;
                        assert(ring[j] == ring[ring.len() - 1]);
                    }
                }
                let before = without_id(front, id);
                assert forall|i: int, j: int|
                    0 <= i < rest.len() && 0 <= j < rest.len() && i != j implies rest[i] != rest[j] by {
                    if i == before.len() {
                        assert(before[j] == rest[j]);
                        assert(before.contains(before[j]));
                    } else if j == before.len() {
                        assert(before[i] == rest[i]);
                        assert(before.contains(before[i]));
                    } else {
                        assert(before[i] == rest[i] && before[j] == rest[j]);
                    }
                }
            }
        }
        if !ring.contains(id) {
            assert(ring[ring.len() - 1] != id);
            assert(!front.contains(id)) by {
                if front.contains(id) {
                    let j = choose|j: int| 0 <= j < front.len() && front[j] == id;
                    assert(ring[j] == id);
                }
            }
        }
    }
}

proof fn lemma_writer_known(view: FairView, at: int)
    requires
        view.valid(),
        0 <= at < view.writers.len(),
    ensures
        view.has(view.writers[at].id),
        view.position(view.writers[at].id) == at,
{
    let id = view.writers[at].id;
    let key = |writer: WriterView| writer.id;
    assert forall|k: int| 0 <= k < at implies !writer_of(id)(#[trigger] view.writers[k]) by {
        assert(key(view.writers[k]) != key(view.writers[at]));
    }
    lemma_is_first_index(view.writers, writer_of(id), at);
}

proof fn lemma_same_ids(before: FairView, after: FairView)
    requires
        before.valid(),
        before.writers.len() == after.writers.len(),
        forall|i: int|
            0 <= i < before.writers.len() ==> (#[trigger] before.writers[i]).id
                == after.writers[i].id,
    ensures
        distinct(after.writers, |writer: WriterView| writer.id),
        forall|id: Seq<char>| #[trigger] after.position(id) == before.position(id),
{
    let key = |writer: WriterView| writer.id;
    assert forall|i: int, j: int| 0 <= i < j < after.writers.len() implies key(
        #[trigger] after.writers[i],
    ) != key(#[trigger] after.writers[j]) by {
        assert(key(before.writers[i]) != key(before.writers[j]));
    }
    assert forall|id: Seq<char>| #[trigger] after.position(id) == before.position(id) by {
        lemma_first_index(before.writers, writer_of(id));
        let at = before.position(id);
        assert forall|k: int| 0 <= k < at implies !writer_of(id)(#[trigger] after.writers[k]) by {
            assert(!writer_of(id)(before.writers[k]));
        }
        lemma_is_first_index(after.writers, writer_of(id), at);
    }
}

proof fn lemma_registered_valid(view: FairView, id: Seq<char>)
    requires
        view.valid(),
        view.ticket_refusal(id) is None,
    ensures
        view.registered(id).valid(),
        view.registered(id).has(id),
{
    let after = view.registered(id);
    let key = |writer: WriterView| writer.id;
    lemma_first_index(view.writers, writer_of(id));
    assert forall|i: int, j: int| 0 <= i < j < after.writers.len() implies key(
        #[trigger] after.writers[i],
    ) != key(#[trigger] after.writers[j]) by {
        if j == view.writers.len() {
            assert(!writer_of(id)(view.writers[i]));
        } else {
            assert(key(view.writers[i]) != key(view.writers[j]));
        }
    }
    assert(!view.ring.contains(id)) by {
        if view.ring.contains(id) {
            let k = choose|k: int| 0 <= k < view.ring.len() && view.ring[k] == id;
            assert(view.has(view.ring[k]));
        }
    }
    assert forall|k: int| 0 <= k < after.ring.len() implies after.has(#[trigger] after.ring[k]) by {
        let other = view.ring[k];
        assert(view.has(other));
        lemma_first_index(view.writers, writer_of(other));
        lemma_first_index(after.writers, writer_of(other));
        let at = view.position(other);
        assert(after.writers[at] == view.writers[at]);
        if after.position(other) == after.writers.len() {
            assert(!writer_of(other)(after.writers[at]));
        }
    }
    lemma_first_index(after.writers, writer_of(id));
    if after.position(id) == after.writers.len() {
        assert(!writer_of(id)(after.writers[view.writers.len() as int]));
    }
}

proof fn lemma_joined_valid(view: FairView, id: Seq<char>)
    requires
        view.valid(),
        view.has(id),
    ensures
        view.joined(id).valid(),
        view.joined(id).has(id),
        view.joined(id).position(id) == view.position(id),
        view.joined(id).writer(id).ready,
        view.joined(id).ring.contains(id),
        view.joined(id).ring.len() > 0,
{
    let after = view.joined(id);
    let at = view.position(id);
    lemma_first_index(view.writers, writer_of(id));
    assert(writer_of(id)(view.writers[at]));
    lemma_same_ids(view, after);
    if view.writer(id).ready {
        assert(view.ring.contains(id));
    } else {
        assert(!view.ring.contains(id));
        let front = view.writer(id).startup_share && !view.writer(id).has_written;
        assert forall|other: Seq<char>|
            #![trigger after.ring.contains(other)]
            after.ring.contains(other) <==> view.ring.contains(other) || other == id by {
            if front {
                if view.ring.contains(other) {
                    let k = choose|k: int| 0 <= k < view.ring.len() && view.ring[k] == other;
                    assert(after.ring[k + 1] == other);
                }
                if other == id {
                    assert(after.ring[0] == id);
                }
                if after.ring.contains(other) && other != id {
                    let k = choose|k: int| 0 <= k < after.ring.len() && after.ring[k] == other;
                    assert(view.ring[k - 1] == other);
                }
            } else {
                if view.ring.contains(other) {
                    let k = choose|k: int| 0 <= k < view.ring.len() && view.ring[k] == other;
                    assert(after.ring[k] == other);
                }
                if other == id {
                    assert(after.ring[view.ring.len() as int] == id);
                }
                if after.ring.contains(other) && other != id {
                    let k = choose|k: int| 0 <= k < after.ring.len() && after.ring[k] == other;
                    assert(view.ring[k] == other);
                }
            }
        }
        assert forall|i: int, j: int|
            0 <= i < after.ring.len() && 0 <= j < after.ring.len() && i != j implies after.ring[i]
            != after.ring[j] by {
            let a = if front {
                i - 1
            } else {
                i
            };
            let b = if front {
                j - 1
            } else {
                j
            };
            if 0 <= a < view.ring.len() && 0 <= b < view.ring.len() {
                assert(view.ring[a] != view.ring[b]);
            } else if 0 <= a < view.ring.len() {
                assert(view.ring.contains(view.ring[a]));
            } else if 0 <= b < view.ring.len() {
                assert(view.ring.contains(view.ring[b]));
            }
        }
        assert forall|i: int| 0 <= i < after.writers.len() implies 0 < (
        #[trigger] after.writers[i]).credit <= BYTE_QUANTUM && after.writers[i].ready
            == after.ring.contains(after.writers[i].id) by {
            let other = view.writers[i];
            assert(other.id == after.writers[i].id);
            if i != at {
                lemma_writer_known(view, i);
                assert(other.id != id);
            }
        }
        assert forall|k: int| 0 <= k < after.ring.len() implies after.has(
            #[trigger] after.ring[k],
        ) by {
            assert(after.ring.contains(after.ring[k]));
            if after.ring[k] != id {
                assert(view.ring.contains(after.ring[k]));
                let j = choose|j: int| 0 <= j < view.ring.len() && view.ring[j] == after.ring[k];
                assert(view.has(view.ring[j]));
            }
            assert(after.position(after.ring[k]) == view.position(after.ring[k]));
        }
        assert(after.ring.contains(id));
    }
}

proof fn lemma_changed_writer_valid(view: FairView, id: Seq<char>, writer: WriterView, has: bool)
    requires
        view.valid(),
        view.has(id),
        writer.id == id,
        0 < writer.credit <= BYTE_QUANTUM,
        writer.ready == view.writer(id).ready,
    ensures
        (FairView {
            writers: view.with_writer(id, writer),
            polling: None,
            has_written: has,
            ..view
        }).valid(),
        forall|other: Seq<char>|
            (FairView {
                writers: view.with_writer(id, writer),
                polling: None,
                has_written: has,
                ..view
            }).position(other) == #[trigger] view.position(other),
{
    let after = FairView {
        writers: view.with_writer(id, writer),
        polling: None,
        has_written: has,
        ..view
    };
    let at = view.position(id);
    lemma_first_index(view.writers, writer_of(id));
    assert(writer_of(id)(view.writers[at]));
    lemma_same_ids(view, after);
    assert forall|k: int| 0 <= k < after.ring.len() implies after.has(#[trigger] after.ring[k]) by {
        assert(view.has(view.ring[k]));
        assert(after.position(after.ring[k]) == view.position(after.ring[k]));
    }
    assert forall|i: int| 0 <= i < after.writers.len() implies 0 < (
    #[trigger] after.writers[i]).credit <= BYTE_QUANTUM && after.writers[i].ready
        == after.ring.contains(after.writers[i].id) by {
        assert(view.writers[i].id == after.writers[i].id);
    }
}

proof fn lemma_moved_back_valid(view: FairView, id: Seq<char>)
    requires
        view.valid(),
        view.polling is None,
        view.ring.contains(id),
    ensures
        (FairView { ring: without_id(view.ring, id).push(id), ..view }).valid(),
{
    let rest = without_id(view.ring, id);
    let after = FairView { ring: rest.push(id), ..view };
    lemma_without_id(view.ring, id);
    assert forall|other: Seq<char>|
        #![trigger after.ring.contains(other)]
        after.ring.contains(other) <==> view.ring.contains(other) by {
        if view.ring.contains(other) {
            if other == id {
                assert(after.ring[rest.len() as int] == id);
            } else {
                assert(rest.contains(other));
                let k = choose|k: int| 0 <= k < rest.len() && rest[k] == other;
                assert(after.ring[k] == other);
            }
        }
        if after.ring.contains(other) && other != id {
            let k = choose|k: int| 0 <= k < after.ring.len() && after.ring[k] == other;
            assert(rest[k] == other);
            assert(rest.contains(other));
        }
    }
    assert forall|i: int, j: int|
        0 <= i < after.ring.len() && 0 <= j < after.ring.len() && i != j implies after.ring[i]
        != after.ring[j] by {
        if i < rest.len() && j < rest.len() {
            assert(rest[i] != rest[j]);
        } else if i < rest.len() {
            assert(rest.contains(rest[i]));
        } else if j < rest.len() {
            assert(rest.contains(rest[j]));
        }
    }
    assert forall|k: int| 0 <= k < after.ring.len() implies after.has(#[trigger] after.ring[k]) by {
        assert(after.ring.contains(after.ring[k]));
        assert(view.ring.contains(after.ring[k]));
        let j = choose|j: int| 0 <= j < view.ring.len() && view.ring[j] == after.ring[k];
        assert(view.has(view.ring[j]));
    }
}

proof fn lemma_parked_valid(view: FairView, id: Seq<char>)
    requires
        view.valid(),
        view.has(id),
        view.polling != Some(id),
    ensures
        view.parked(id).valid(),
        view.parked(id).has(id),
{
    let after = view.parked(id);
    let at = view.position(id);
    lemma_first_index(view.writers, writer_of(id));
    assert(writer_of(id)(view.writers[at]));
    lemma_same_ids(view, after);
    lemma_without_id(view.ring, id);
    assert forall|i: int| 0 <= i < after.writers.len() implies 0 < (
    #[trigger] after.writers[i]).credit <= BYTE_QUANTUM && after.writers[i].ready
        == after.ring.contains(after.writers[i].id) by {
        assert(view.writers[i].id == after.writers[i].id);
        if i != at {
            lemma_writer_known(view, i);
        }
    }
    assert forall|k: int| 0 <= k < after.ring.len() implies after.has(#[trigger] after.ring[k]) by {
        assert(after.ring.contains(after.ring[k]));
        assert(view.ring.contains(after.ring[k]));
        let j = choose|j: int| 0 <= j < view.ring.len() && view.ring[j] == after.ring[k];
        assert(view.has(view.ring[j]));
        assert(after.position(after.ring[k]) == view.position(after.ring[k]));
    }
    assert(after.position(id) == view.position(id));
}

proof fn lemma_turn_given_up(view: FairView)
    requires
        view.valid(),
    ensures
        (FairView { polling: None, ..view }).valid(),
        forall|id: Seq<char>|
            (FairView { polling: None, ..view }).position(id) == #[trigger] view.position(id),
{
    let after = FairView { polling: None, ..view };
    assert forall|k: int| 0 <= k < after.ring.len() implies after.has(#[trigger] after.ring[k]) by {
        assert(view.has(view.ring[k]));
    }
}

proof fn lemma_ended_valid(view: FairView, id: Seq<char>, outcome: WriteOutcome)
    requires
        view.valid(),
        view.has(id),
        view.polling == Some(id),
        outcome matches WriteOutcome::Wrote(count) ==> 0 < count <= view.writer(id).credit,
    ensures
        view.ended(id, outcome).valid(),
        view.ended(id, outcome).has(id),
{
    let writer = view.writer(id);
    let after = view.ended(id, outcome);
    lemma_first_index(view.writers, writer_of(id));
    assert(writer_of(id)(view.writers[view.position(id)]));
    match outcome {
        WriteOutcome::Wrote(count) => {
            if count == writer.credit {
                let changed = WriterView { credit: BYTE_QUANTUM, has_written: true, ..writer };
                lemma_changed_writer_valid(view, id, changed, true);
                let middle = FairView {
                    writers: view.with_writer(id, changed),
                    polling: None,
                    has_written: true,
                    ..view
                };
                lemma_moved_back_valid(middle, id);
                assert(middle.position(id) == view.position(id));
            } else {
                let changed = WriterView {
                    credit: (writer.credit - count) as usize,
                    has_written: true,
                    ..writer
                };
                lemma_changed_writer_valid(view, id, changed, true);
                assert(after.position(id) == view.position(id));
            }
        },
        WriteOutcome::Stopped => {
            let free = FairView { polling: None, ..view };
            lemma_turn_given_up(view);
            assert(free.position(id) == view.position(id));
            lemma_parked_valid(free, id);
            assert(after == free.parked(id));
        },
    }
}

proof fn lemma_closed_valid(view: FairView, id: Seq<char>)
    requires
        view.valid(),
        view.has(id),
    ensures
        view.closed_writer(id).valid(),
        !view.closed_writer(id).has(id),
{
    let after = view.closed_writer(id);
    let at = view.position(id);
    let key = |writer: WriterView| writer.id;
    lemma_first_index(view.writers, writer_of(id));
    assert(writer_of(id)(view.writers[at]));
    lemma_without_id(view.ring, id);
    assert forall|i: int| 0 <= i < after.writers.len() implies #[trigger] after.writers[i]
        == view.writers[if i < at {
        i
    } else {
        i + 1
    }] && after.writers[i].id != id by {
        let a = if i < at {
            i
        } else {
            i + 1
        };
        lemma_writer_known(view, a);
    }
    assert forall|i: int, j: int| 0 <= i < j < after.writers.len() implies key(
        #[trigger] after.writers[i],
    ) != key(#[trigger] after.writers[j]) by {
        let a = if i < at {
            i
        } else {
            i + 1
        };
        let b = if j < at {
            j
        } else {
            j + 1
        };
        assert(key(view.writers[a]) != key(view.writers[b]));
    }
    assert forall|k: int| 0 <= k < after.ring.len() implies after.has(#[trigger] after.ring[k]) by {
        let other = after.ring[k];
        assert(after.ring.contains(other));
        assert(view.ring.contains(other));
        let j = choose|j: int| 0 <= j < view.ring.len() && view.ring[j] == other;
        assert(view.has(view.ring[j]));
        lemma_first_index(view.writers, writer_of(other));
        lemma_first_index(after.writers, writer_of(other));
        let p = view.position(other);
        let q = if p < at {
            p
        } else {
            p - 1
        };
        assert(p != at);
        assert(after.writers[q] == view.writers[p]);
        if after.position(other) == after.writers.len() {
            assert(!writer_of(other)(after.writers[q]));
        }
    }
    lemma_first_index(after.writers, writer_of(id));
    if after.has(id) {
        assert(writer_of(id)(after.writers[after.position(id)]));
    }
}

impl FairWrites {
    fn find(&self, id: &TaskId) -> (at: usize)
        ensures
            at == self@.position(id@),
            at <= self.writers@.len(),
            self@.writers.len() == self.writers@.len(),
    {
        let mut i: usize = 0;
        while i < self.writers.len()
            invariant
                i <= self.writers@.len(),
                forall|k: int| 0 <= k < i ==> !writer_of(id@)(#[trigger] self@.writers[k]),
            decreases self.writers@.len() - i,
        {
            if self.writers[i].id.same(id) {
                proof {
                    assert(writer_of(id@)(self@.writers[i as int]));
                    lemma_is_first_index(self@.writers, writer_of(id@), i as int);
                }
                return i;
            }
            assert(!writer_of(id@)(self@.writers[i as int]));
            i = i + 1;
        }
        proof {
            lemma_is_first_index(self@.writers, writer_of(id@), i as int);
        }
        i
    }

    /// Whether no writer is registered.
    pub fn is_empty(&self) -> (empty: bool)
        ensures
            empty == (self@.writers.len() == 0),
    {
        self.writers.len() == 0
    }

    /// Who is to be woken: the writers that are able to write.
    pub fn ready_wakers(&self) -> (wake: Vec<TaskId>)
        ensures
            names(wake@) == ready_ids(self@.writers),
    {
        let mut wake: Vec<TaskId> = Vec::new();
        let mut i: usize = 0;
        assert(self@.writers.take(0) =~= Seq::<WriterView>::empty());
        assert(names(wake@) =~= Seq::<Seq<char>>::empty());
        while i < self.writers.len()
            invariant
                i <= self.writers@.len(),
                self@.writers.len() == self.writers@.len(),
                names(wake@) == ready_ids(self@.writers.take(i as int)),
            decreases self.writers@.len() - i,
        {
            assert(self@.writers.take(i + 1).drop_last() =~= self@.writers.take(i as int));
            assert(self@.writers.take(i + 1).last() == self@.writers[i as int]);
            if self.writers[i].ready {
                let ghost before = names(wake@);
                wake.push(self.writers[i].id.clone());
                assert(names(wake@) =~= before.push(self.writers@[i as int].id@));
            }
            i = i + 1;
        }
        assert(self@.writers.take(i as int) =~= self@.writers);
        wake
    }

    /// Registers a writer. A refused one changes nothing.
    pub fn ticket(&mut self, id: TaskId) -> (result: Result<WriteTicket, &'static str>)
        requires
            old(self)@.valid(),
        ensures
            crate::queue::settled(result, old(self)@.ticket_refusal(id@)),
            match result {
                Ok(ticket) => ticket@ == id@ && final(self)@ == old(self)@.registered(id@)
                    && final(self)@.has(id@),
                Err(_) => final(self)@ == old(self)@,
            },
            final(self)@.valid(),
    {
        let at: usize = self.find(&id);
        if at < self.writers.len() {
            return Err("同一任务已有数据写入");
        }
        if self.writers.len() >= MAX_DATA_WRITERS {
            return Err("数据写入资源已达上限");
        }
        let ghost before = self@;
        let startup_share: bool = !self.has_written;
        self.writers.push(
            WriteCredit {
                id: id.clone(),
                credit: BYTE_QUANTUM,
                ready: false,
                has_written: false,
                startup_share,
            },
        );
        proof {
            assert(self@.writers =~= before.registered(id@).writers);
            lemma_registered_valid(before, id@);
        }
        Ok(WriteTicket { id })
    }

    fn replace(&mut self, at: usize, credit: usize, ready: bool, has_written: bool)
        requires
            at < old(self)@.writers.len(),
        ensures
            final(self)@ == (FairView {
                writers: old(self)@.writers.update(
                    at as int,
                    WriterView { credit, ready, has_written, ..old(self)@.writers[at as int] },
                ),
                ..old(self)@
            }),
    {
        let ghost before = self@;
        let id = self.writers[at].id.clone();
        let startup_share: bool = self.writers[at].startup_share;
        self.writers.set(at, WriteCredit { id, credit, ready, has_written, startup_share });
        assert(self@.writers =~= before.writers.update(
            at as int,
            WriterView { credit, ready, has_written, ..before.writers[at as int] },
        ));
    }
}

impl WriteTicket {
    /// Makes the share of a writer without bytes available at once and keeps its credit.
    pub fn park(&self, scheduler: &mut FairWrites) -> (wake: Vec<TaskId>)
        requires
            old(scheduler)@.valid(),
            old(scheduler)@.has(self@),
            old(scheduler)@.polling != Some(self@),
        ensures
            final(scheduler)@ == old(scheduler)@.parked(self@),
            final(scheduler)@.valid(),
            names(wake@) == ready_ids(final(scheduler)@.writers),
    {
        let ghost before = scheduler@;
        proof {
            lemma_parked_valid(before, self@);
        }
        let at: usize = scheduler.find(&self.id);
        let credit: usize = scheduler.writers[at].credit;
        let has_written: bool = scheduler.writers[at].has_written;
        scheduler.replace(at, credit, false, has_written);
        let rest = remove_id(&scheduler.ring, &self.id);
        scheduler.ring = rest;
        scheduler.ready_wakers()
    }

    /// Asks for the turn with this many bytes to write. The answer is how many bytes may
    /// be written now, or nothing while it is another writer's turn.
    pub fn begin_write(&self, scheduler: &mut FairWrites, length: usize) -> (allowance: Option<
        usize,
    >)
        requires
            old(scheduler)@.valid(),
            old(scheduler)@.has(self@),
        ensures
            length == 0 ==> allowance == Some(0usize) && final(scheduler)@ == old(scheduler)@,
            length > 0 ==> {
                &&& final(scheduler)@ == old(scheduler)@.asked(self@)
                &&& allowance == if old(scheduler)@.has_turn(self@) {
                    Some(smaller(old(scheduler)@.writer(self@).credit, length))
                } else {
                    None
                }
            },
            final(scheduler)@.valid(),
            final(scheduler)@.has(self@),
    {
        if length == 0 {
            return Some(0);
        }
        let ghost before = scheduler@;
        proof {
            lemma_joined_valid(before, self@);
            lemma_first_index(before.writers, writer_of(self@));
        }
        let at: usize = scheduler.find(&self.id);
        let credit: usize = scheduler.writers[at].credit;
        if !scheduler.writers[at].ready {
            let first: bool = scheduler.writers[at].startup_share
                && !scheduler.writers[at].has_written;
            let has_written: bool = scheduler.writers[at].has_written;
            scheduler.replace(at, credit, true, has_written);
            let ghost ring = names(scheduler.ring@);
            if first {
                scheduler.ring.insert(0, self.id.clone());
                assert(names(scheduler.ring@) =~= seq![self@] + ring);
            } else {
                scheduler.ring.push(self.id.clone());
                assert(names(scheduler.ring@) =~= ring.push(self@));
            }
        }
        assert(scheduler@ == before.joined(self@));
        assert(scheduler@.ring[0] == scheduler.ring@[0]@);
        if scheduler.polling.is_some() || !scheduler.ring[0].same(&self.id) {
            return None;
        }
        scheduler.polling = Some(self.id.clone());
        assert forall|k: int| 0 <= k < scheduler@.ring.len() implies scheduler@.has(
            #[trigger] scheduler@.ring[k],
        ) by {
            assert(before.joined(self@).has(before.joined(self@).ring[k]));
        }
        assert(scheduler@.has(self@));
        if credit <= length {
            Some(credit)
        } else {
            Some(length)
        }
    }

    /// Ends the turn with what became of the write, and says who is to be woken.
    pub fn end_write(&self, scheduler: &mut FairWrites, outcome: WriteOutcome) -> (wake: Vec<
        TaskId,
    >)
        requires
            old(scheduler)@.valid(),
            old(scheduler)@.has(self@),
            old(scheduler)@.polling == Some(self@),
            outcome matches WriteOutcome::Wrote(count) ==> 0 < count <= old(scheduler)@.writer(
                self@,
            ).credit,
        ensures
            final(scheduler)@ == old(scheduler)@.ended(self@, outcome),
            final(scheduler)@.valid(),
            final(scheduler)@.has(self@),
            names(wake@) == if outcome matches WriteOutcome::Wrote(count) && count != old(
                scheduler,
            )@.writer(self@).credit {
                Seq::empty()
            } else {
                ready_ids(final(scheduler)@.writers)
            },
    {
        let ghost before = scheduler@;
        proof {
            lemma_ended_valid(before, self@, outcome);
            lemma_first_index(before.writers, writer_of(self@));
        }
        let at: usize = scheduler.find(&self.id);
        let credit: usize = scheduler.writers[at].credit;
        let has_written: bool = scheduler.writers[at].has_written;
        let ready: bool = scheduler.writers[at].ready;
        scheduler.polling = None;
        assert(scheduler@ == (FairView { polling: None, ..before }));
        match outcome {
            WriteOutcome::Wrote(count) => {
                scheduler.has_written = true;
                if count == credit {
                    scheduler.replace(at, BYTE_QUANTUM, ready, true);
                    let mut rest = remove_id(&scheduler.ring, &self.id);
                    let ghost kept = names(rest@);
                    rest.push(self.id.clone());
                    assert(names(rest@) =~= kept.push(self@));
                    scheduler.ring = rest;
                    assert(scheduler@ == before.ended(self@, outcome));
                    scheduler.ready_wakers()
                } else {
                    scheduler.replace(at, credit - count, ready, true);
                    assert(scheduler@ == before.ended(self@, outcome));
                    let wake: Vec<TaskId> = Vec::new();
                    assert(names(wake@) =~= Seq::<Seq<char>>::empty());
                    wake
                }
            },
            WriteOutcome::Stopped => {
                scheduler.replace(at, credit, false, has_written);
                let rest = remove_id(&scheduler.ring, &self.id);
                scheduler.ring = rest;
                assert(scheduler@ == before.ended(self@, outcome));
                scheduler.ready_wakers()
            },
        }
    }

    /// Gives the registration back and says who is to be woken.
    pub fn close(self, scheduler: &mut FairWrites) -> (wake: Vec<TaskId>)
        requires
            old(scheduler)@.valid(),
            old(scheduler)@.has(self@),
        ensures
            final(scheduler)@ == old(scheduler)@.closed_writer(self@),
            final(scheduler)@.valid(),
            !final(scheduler)@.has(self@),
            names(wake@) == ready_ids(final(scheduler)@.writers),
    {
        let ghost before = scheduler@;
        proof {
            lemma_closed_valid(before, self@);
        }
        let at: usize = scheduler.find(&self.id);
        let _ = scheduler.writers.remove(at);
        assert(scheduler@.writers =~= before.writers.remove(at as int));
        let turn = match &scheduler.polling {
            Some(id) => id.same(&self.id),
            None => false,
        };
        if turn {
            scheduler.polling = None;
        }
        let rest = remove_id(&scheduler.ring, &self.id);
        scheduler.ring = rest;
        if scheduler.writers.len() == 0 {
            scheduler.has_written = false;
        }
        scheduler.ready_wakers()
    }

    /// The task that writes.
    pub fn id(&self) -> (id: &TaskId)
        ensures
            id@ == self@,
    {
        &self.id
    }
}

/// Whether bytes were shared fairly so far: of the ready writers those nearer the front
/// have had the same number of whole turns and perhaps a part of the next one, those
/// further back exactly one turn more. A writer that never was ready has had nothing,
/// which is fair only while no ready one is beyond its first turn.
pub open spec fn shared_fairly(
    view: FairView,
    served: spec_fn(Seq<char>) -> nat,
    turns: nat,
    ahead: int,
) -> bool {
    &&& 0 <= ahead <= view.ring.len()
    &&& forall|k: int|
        0 <= k < view.ring.len() ==> served(#[trigger] view.ring[k]) == if k < ahead {
            turns * BYTE_QUANTUM + (BYTE_QUANTUM - view.writer(view.ring[k]).credit)
        } else {
            (turns + 1) * BYTE_QUANTUM
        }
    &&& forall|k: int|
        ahead <= k < view.ring.len() ==> view.writer(#[trigger] view.ring[k]).credit
            == BYTE_QUANTUM
    &&& forall|i: int|
        0 <= i < view.writers.len() && !(#[trigger] view.writers[i]).ready ==> turns == 0
            && served(view.writers[i].id) == 0 && view.writers[i].untouched()
}

/// The bytes that writers were served once the front writer wrote some more.
pub open spec fn served_more(
    served: spec_fn(Seq<char>) -> nat,
    id: Seq<char>,
    count: nat,
) -> spec_fn(Seq<char>) -> nat {
    |other: Seq<char>|
        if other == id {
            served(other) + count
        } else {
            served(other)
        }
}

/// Writers that share fairly are never more than one quantum apart.
pub proof fn fair_writers_stay_within_one_quantum(
    view: FairView,
    served: spec_fn(Seq<char>) -> nat,
    turns: nat,
    ahead: int,
    left: int,
    right: int,
)
    requires
        view.valid(),
        shared_fairly(view, served, turns, ahead),
        0 <= left < view.writers.len(),
        0 <= right < view.writers.len(),
    ensures
        served(view.writers[left].id) <= served(view.writers[right].id) + BYTE_QUANTUM,
{
    lemma_share_bounds(view, served, turns, ahead, left);
    lemma_share_bounds(view, served, turns, ahead, right);
}

proof fn lemma_share_bounds(
    view: FairView,
    served: spec_fn(Seq<char>) -> nat,
    turns: nat,
    ahead: int,
    at: int,
)
    requires
        view.valid(),
        shared_fairly(view, served, turns, ahead),
        0 <= at < view.writers.len(),
    ensures
        turns * BYTE_QUANTUM <= served(view.writers[at].id) <= turns * BYTE_QUANTUM + BYTE_QUANTUM,
{
    let writer = view.writers[at];
    assert((turns + 1) * BYTE_QUANTUM == turns * BYTE_QUANTUM + BYTE_QUANTUM) by (nonlinear_arith);
    if writer.ready {
        assert(view.ring.contains(writer.id));
        let k = choose|k: int| 0 <= k < view.ring.len() && view.ring[k] == writer.id;
        lemma_writer_known(view, at);
        assert(view.writer(view.ring[k]) == writer);
    }
}

proof fn lemma_front_removed(ring: Seq<Seq<char>>)
    requires
        ring.no_duplicates(),
        ring.len() > 0,
    ensures
        without_id(ring, ring[0]) == ring.skip(1),
    decreases ring.len(),
{
    let id = ring[0];
    if ring.len() == 1 {
        assert(ring.drop_last() =~= Seq::<Seq<char>>::empty());
        assert(without_id(ring.drop_last(), id) =~= Seq::<Seq<char>>::empty());
        assert(ring.skip(1) =~= Seq::<Seq<char>>::empty());
    } else {
        let front = ring.drop_last();
        assert(front.no_duplicates());
        lemma_front_removed(front);
        assert(ring.last() != id);
        assert(front.skip(1).push(ring.last()) =~= ring.skip(1));
    }
}

/// A writer that is registered before anything was written may join fairly.
pub proof fn registering_keeps_sharing_fair(
    view: FairView,
    served: spec_fn(Seq<char>) -> nat,
    ahead: int,
    id: Seq<char>,
)
    requires
        view.valid(),
        !view.has_written,
        view.ticket_refusal(id) is None,
        served(id) == 0,
        shared_fairly(view, served, 0, ahead),
    ensures
        view.registered(id).valid(),
        shared_fairly(view.registered(id), served, 0, ahead),
{
    let after = view.registered(id);
    lemma_registered_valid(view, id);
    assert forall|k: int| 0 <= k < after.ring.len() implies after.writer(#[trigger] after.ring[k])
        == view.writer(view.ring[k]) by {
        let other = view.ring[k];
        assert(view.has(other));
        lemma_first_index(view.writers, writer_of(other));
        let at = view.position(other);
        assert forall|j: int| 0 <= j < at implies !writer_of(other)(#[trigger] after.writers[j]) by {
            assert(!writer_of(other)(view.writers[j]));
        }
        assert(writer_of(other)(after.writers[at]));
        lemma_is_first_index(after.writers, writer_of(other), at);
    }
    assert forall|i: int|
        0 <= i < after.writers.len() && !(#[trigger] after.writers[i]).ready implies served(
        after.writers[i].id,
    ) == 0 && after.writers[i].untouched() by {
        if i < view.writers.len() {
            assert(after.writers[i] == view.writers[i]);
        }
    }
}

proof fn lemma_others_unchanged(before: FairView, after: FairView, id: Seq<char>)
    requires
        before.valid(),
        before.has(id),
        exists|writer: WriterView|
            writer.id == id && after.writers == #[trigger] before.with_writer(id, writer),
    ensures
        after.position(id) == before.position(id),
        forall|other: Seq<char>|
            before.has(other) && other != id ==> #[trigger] after.writer(other) == before.writer(
                other,
            ),
{
    lemma_first_index(before.writers, writer_of(id));
    assert(writer_of(id)(before.writers[before.position(id)]));
    lemma_same_ids(before, after);
    assert forall|other: Seq<char>| before.has(other) && other != id implies #[trigger] after.writer(
        other,
    ) == before.writer(other) by {
        lemma_first_index(before.writers, writer_of(other));
        assert(writer_of(other)(before.writers[before.position(other)]));
        assert(after.position(other) == before.position(other));
    }
}

/// Asking for the turn keeps the sharing fair; a writer that asks for the first time
/// goes to the front of those that have had no more than one turn.
pub proof fn asking_keeps_sharing_fair(
    view: FairView,
    served: spec_fn(Seq<char>) -> nat,
    turns: nat,
    ahead: int,
    id: Seq<char>,
)
    requires
        view.valid(),
        view.has(id),
        shared_fairly(view, served, turns, ahead),
    ensures
        view.asked(id).valid(),
        shared_fairly(
            view.asked(id),
            served,
            turns,
            if view.writer(id).ready {
                ahead
            } else {
                ahead + 1
            },
        ),
{
    let joined = view.joined(id);
    let after = view.asked(id);
    let at = view.position(id);
    lemma_joined_valid(view, id);
    lemma_first_index(view.writers, writer_of(id));
    assert(writer_of(id)(view.writers[at]));
    assert forall|k: int| 0 <= k < after.ring.len() implies after.has(#[trigger] after.ring[k]) by {
        assert(joined.has(joined.ring[k]));
    }
    if !view.writer(id).ready {
        assert(view.writers[at].untouched());
        assert(joined.writers == view.with_writer(
            id,
            WriterView { ready: true, ..view.writer(id) },
        ));
        lemma_others_unchanged(view, joined, id);
        assert forall|k: int| 1 <= k < joined.ring.len() implies joined.writer(
            #[trigger] joined.ring[k],
        ) == view.writer(view.ring[k - 1]) by {
            assert(joined.ring[k] == view.ring[k - 1]);
            assert(view.has(view.ring[k - 1]));
            assert(view.ring[k - 1] != id) by {
                assert(view.ring.contains(view.ring[k - 1]));
            }
        }
        assert(0 * BYTE_QUANTUM == 0);
        assert forall|i: int|
            0 <= i < after.writers.len() && !(#[trigger] after.writers[i]).ready implies turns == 0
            && served(after.writers[i].id) == 0 && after.writers[i].untouched() by {
            assert(i != at);
            assert(after.writers[i] == view.writers[i]);
        }
        assert forall|k: int| 0 <= k < after.ring.len() implies served(#[trigger] after.ring[k])
            == if k < ahead + 1 {
            turns * BYTE_QUANTUM + (BYTE_QUANTUM - after.writer(after.ring[k]).credit)
        } else {
            (turns + 1) * BYTE_QUANTUM
        } by {
            assert(after.writer(after.ring[k]) == joined.writer(joined.ring[k]));
            if k > 0 {
                assert(after.ring[k] == view.ring[k - 1]);
            }
        }
        assert forall|k: int| ahead + 1 <= k < after.ring.len() implies after.writer(
            #[trigger] after.ring[k],
        ).credit == BYTE_QUANTUM by {
            assert(after.writer(after.ring[k]) == joined.writer(joined.ring[k]));
            assert(after.ring[k] == view.ring[k - 1]);
            assert(view.writer(view.ring[k - 1]).credit == BYTE_QUANTUM);
        }
    } else {
        assert forall|k: int| 0 <= k < after.ring.len() implies after.writer(
            #[trigger] after.ring[k],
        ) == view.writer(view.ring[k]) by {}
    }
}

/// The turns and the writers that are behind, once the front writer has written. When
/// all are level, the next round begins.
pub open spec fn share_after(
    ready: nat,
    turns: nat,
    ahead: int,
    used_up: bool,
) -> (nat, int) {
    let (round, left) = if ahead == 0 {
        (turns + 1, ready as int)
    } else {
        (turns, ahead)
    };
    (
        round,
        if used_up {
            left - 1
        } else {
            left
        },
    )
}

/// Whatever the front writer writes within its turn, the sharing stays fair: bytes
/// are shared equally among writers that stay able to write. The next round begins only
/// once every registered writer is ready.
pub proof fn turns_keep_sharing_fair(
    view: FairView,
    served: spec_fn(Seq<char>) -> nat,
    turns: nat,
    ahead: int,
    count: usize,
)
    requires
        view.valid(),
        view.ring.len() > 0,
        shared_fairly(view, served, turns, ahead),
        ahead > 0 || forall|i: int|
            0 <= i < view.writers.len() ==> (#[trigger] view.writers[i]).ready,
        0 < count <= view.writer(view.ring[0]).credit,
    ensures
        ({
            let id = view.ring[0];
            let after = view.ended(id, WriteOutcome::Wrote(count));
            let more = served_more(served, id, count as nat);
            let (round, left) = share_after(
                view.ring.len(),
                turns,
                ahead,
                count == view.writer(id).credit,
            );
            shared_fairly(after, more, round, left)
        }),
{
    let id = view.ring[0];
    let after = view.ended(id, WriteOutcome::Wrote(count));
    let more = served_more(served, id, count as nat);
    let writer = view.writer(id);
    let n = view.ring.len() as int;
    assert((turns + 1) * BYTE_QUANTUM == turns * BYTE_QUANTUM + BYTE_QUANTUM) by (nonlinear_arith);
    assert((turns + 1 + 1) * BYTE_QUANTUM == (turns + 1) * BYTE_QUANTUM + BYTE_QUANTUM)
        by (nonlinear_arith);
    let (round, left): (nat, int) = if ahead == 0 {
        ((turns + 1) as nat, n)
    } else {
        (turns, ahead)
    };
    assert(shared_fairly(view, served, round, left));
    assert((round + 1) * BYTE_QUANTUM == round * BYTE_QUANTUM + BYTE_QUANTUM) by (nonlinear_arith);
    assert(view.has(id));
    lemma_first_index(view.writers, writer_of(id));
    let at = view.position(id);
    assert(writer_of(id)(view.writers[at]));
    assert(view.ring.contains(id));
    let credit: usize = if count == writer.credit {
        BYTE_QUANTUM
    } else {
        (writer.credit - count) as usize
    };
    assert(after.writers == view.with_writer(
        id,
        WriterView { credit, has_written: true, ..writer },
    ));
    lemma_others_unchanged(view, after, id);
    assert(after.writer(id).credit == credit);
    assert forall|i: int|
        0 <= i < after.writers.len() && !(#[trigger] after.writers[i]).ready implies round == 0
        && more(after.writers[i].id) == 0 && after.writers[i].untouched() by {
        assert(view.writers[at].ready);
        assert(i != at);
        assert(after.writers[i] == view.writers[i]);
        lemma_writer_known(view, i);
        assert(view.writers[i].id != id);
    }
    if count < writer.credit {
        assert forall|k: int| 1 <= k < n implies after.writer(#[trigger] after.ring[k])
            == view.writer(view.ring[k]) && after.ring[k] != id by {
            assert(view.ring[k] != view.ring[0]);
            assert(view.has(view.ring[k]));
        }
        assert forall|k: int| left <= k < after.ring.len() implies after.writer(
            #[trigger] after.ring[k],
        ).credit == BYTE_QUANTUM by {
            assert(view.writer(view.ring[k]).credit == BYTE_QUANTUM);
        }
        assert forall|k: int| 0 <= k < after.ring.len() implies more(#[trigger] after.ring[k])
            == if k < left {
            round * BYTE_QUANTUM + (BYTE_QUANTUM - after.writer(after.ring[k]).credit)
        } else {
            (round + 1) * BYTE_QUANTUM
        } by {
            assert(after.ring[k] == view.ring[k]);
            assert(served(view.ring[k]) == served(view.ring[k]));
        }
        assert(shared_fairly(after, more, round, left));
    } else {
        lemma_front_removed(view.ring);
        assert(after.ring =~= view.ring.skip(1).push(id));
        assert(more(id) == (round + 1) * BYTE_QUANTUM);
        assert forall|k: int| 0 <= k < n - 1 implies after.writer(#[trigger] after.ring[k])
            == view.writer(view.ring[k + 1]) && after.ring[k] == view.ring[k + 1] && view.ring[k + 1]
            != id by {
            assert(after.ring[k] == view.ring[k + 1]);
            assert(view.ring[k + 1] != view.ring[0]);
            assert(view.has(view.ring[k + 1]));
        }
        assert forall|k: int| left - 1 <= k < after.ring.len() implies after.writer(
            #[trigger] after.ring[k],
        ).credit == BYTE_QUANTUM by {
            if k < n - 1 {
                assert(view.writer(view.ring[k + 1]).credit == BYTE_QUANTUM);
            }
        }
        assert forall|k: int| 0 <= k < after.ring.len() implies more(#[trigger] after.ring[k])
            == if k < left - 1 {
            round * BYTE_QUANTUM + (BYTE_QUANTUM - after.writer(after.ring[k]).credit)
        } else {
            (round + 1) * BYTE_QUANTUM
        } by {
            if k < n - 1 {
                assert(after.ring[k] == view.ring[k + 1]);
                assert(served(view.ring[k + 1]) == more(after.ring[k]));
            }
        }
        assert(shared_fairly(after, more, round, left - 1));
    }
}

/// A writer that is polled with bytes and accepts so many of them at once.
pub struct Poll {
    pub id: Seq<char>,
    pub limit: usize,
}

/// The scheduler and the bytes served after a poll of a writer that is able to write.
/// One without the turn writes nothing.
pub open spec fn polled(view: FairView, served: spec_fn(Seq<char>) -> nat, poll: Poll) -> (
    FairView,
    spec_fn(Seq<char>) -> nat,
) {
    let count = smaller(view.writer(poll.id).credit, poll.limit);
    if view.has_turn(poll.id) {
        (
            view.asked(poll.id).ended(poll.id, WriteOutcome::Wrote(count)),
            served_more(served, poll.id, count as nat),
        )
    } else {
        (view.asked(poll.id), served)
    }
}

/// The scheduler and the bytes served after some polls.
pub open spec fn after_polls(ids: Seq<Seq<char>>, polls: Seq<Poll>) -> (
    FairView,
    spec_fn(Seq<char>) -> nat,
)
    decreases polls.len(),
{
    if polls.len() == 0 {
        (fresh_with(ids), |id: Seq<char>| 0nat)
    } else {
        let (view, served) = after_polls(ids, polls.drop_last());
        polled(view, served, polls.last())
    }
}

/// A fresh scheduler with these writers.
pub open spec fn fresh_with(ids: Seq<Seq<char>>) -> FairView
    decreases ids.len(),
{
    if ids.len() == 0 {
        FairView::empty()
    } else {
        fresh_with(ids.drop_last()).registered(ids.last())
    }
}

/// Polls of registered writers that are able to write, each of which is polled once
/// before any is polled again; after that they may be polled in any order.
pub open spec fn starts_with_a_round(ids: Seq<Seq<char>>, polls: Seq<Poll>) -> bool {
    &&& forall|k: int|
        0 <= k < polls.len() ==> ids.contains((#[trigger] polls[k]).id) && polls[k].limit > 0
    &&& forall|j: int, k: int|
        0 <= j < k < polls.len() && k < ids.len() ==> (#[trigger] polls[j]).id != (
        #[trigger] polls[k]).id
    &&& polls.len() > ids.len() ==> forall|i: int|
        0 <= i < ids.len() ==> was_polled(polls.take(ids.len() as int), #[trigger] ids[i])
}

/// Whether a writer was polled.
pub open spec fn was_polled(polls: Seq<Poll>, id: Seq<char>) -> bool {
    exists|j: int| 0 <= j < polls.len() && (#[trigger] polls[j]).id == id
}

proof fn lemma_fresh(ids: Seq<Seq<char>>)
    requires
        ids.len() <= MAX_DATA_WRITERS,
        ids.no_duplicates(),
    ensures
        fresh_with(ids).valid(),
        !fresh_with(ids).has_written,
        fresh_with(ids).polling is None,
        fresh_with(ids).ring.len() == 0,
        fresh_with(ids).writers.len() == ids.len(),
        forall|i: int|
            0 <= i < ids.len() ==> (#[trigger] fresh_with(ids).writers[i]).id == ids[i]
                && !fresh_with(ids).writers[i].ready && fresh_with(ids).writers[i].untouched(),
    decreases ids.len(),
{
    if ids.len() > 0 {
        let front = ids.drop_last();
        lemma_fresh(front);
        let view = fresh_with(front);
        lemma_first_index(view.writers, writer_of(ids.last()));
        assert(view.ticket_refusal(ids.last()) is None) by {
            if view.has(ids.last()) {
                let at = view.position(ids.last());
                assert(writer_of(ids.last())(view.writers[at]));
                assert(view.writers[at].id == front[at]);
                assert(ids[at] == ids[ids.len() - 1]);
            }
        }
        lemma_registered_valid(view, ids.last());
        assert forall|i: int| 0 <= i < ids.len() implies (#[trigger] fresh_with(ids).writers[i]).id
            == ids[i] && !fresh_with(ids).writers[i].ready && fresh_with(
            ids,
        ).writers[i].untouched() by {
            if i < front.len() {
                assert(fresh_with(ids).writers[i] == view.writers[i]);
            }
        }
    }
}

/// Whether a scheduler has these writers, of which those that were polled are ready.
spec fn serves(view: FairView, ids: Seq<Seq<char>>, polls: Seq<Poll>) -> bool {
    &&& view.valid()
    &&& view.polling is None
    &&& view.writers.len() == ids.len()
    &&& forall|i: int|
        0 <= i < ids.len() ==> (#[trigger] view.writers[i]).id == ids[i] && view.writers[i].ready
            == was_polled(polls, ids[i])
}

proof fn lemma_was_polled(polls: Seq<Poll>, poll: Poll, id: Seq<char>)
    ensures
        was_polled(polls.push(poll), id) == (was_polled(polls, id) || poll.id == id),
{
    let longer = polls.push(poll);
    if was_polled(polls, id) {
        let j = choose|j: int| 0 <= j < polls.len() && (#[trigger] polls[j]).id == id;
        assert(longer[j].id == id);
    }
    if poll.id == id {
        assert(longer[polls.len() as int].id == id);
    }
    if was_polled(longer, id) && poll.id != id {
        let j = choose|j: int| 0 <= j < longer.len() && (#[trigger] longer[j]).id == id;
        assert(polls[j].id == id);
    }
}

proof fn lemma_asked_serves(
    view: FairView,
    ids: Seq<Seq<char>>,
    polls: Seq<Poll>,
    poll: Poll,
    place: int,
)
    requires
        ids.no_duplicates(),
        serves(view, ids, polls),
        0 <= place < ids.len(),
        ids[place] == poll.id,
    ensures
        view.position(poll.id) == place,
        view.has(poll.id),
        view.asked(poll.id).writers == view.writers.update(
            place,
            WriterView { ready: true, ..view.writers[place] },
        ),
        forall|i: int|
            0 <= i < ids.len() ==> (#[trigger] view.asked(poll.id).writers[i]).id == ids[i]
                && view.asked(poll.id).writers[i].ready == was_polled(polls.push(poll), ids[i]),
{
    let id = poll.id;
    assert(view.writers[place].id == id);
    lemma_writer_known(view, place);
    let asked = view.asked(id);
    assert(asked.writers =~= view.writers.update(
        place,
        WriterView { ready: true, ..view.writers[place] },
    ));
    assert forall|i: int| 0 <= i < ids.len() implies (#[trigger] asked.writers[i]).id == ids[i]
        && asked.writers[i].ready == was_polled(polls.push(poll), ids[i]) by {
        lemma_was_polled(polls, poll, ids[i]);
        assert(view.writers[i].id == ids[i]);
        if i != place {
            assert(ids[i] != ids[place]);
        }
    }
}

proof fn lemma_poll(
    view: FairView,
    served: spec_fn(Seq<char>) -> nat,
    ids: Seq<Seq<char>>,
    polls: Seq<Poll>,
    poll: Poll,
    turns: nat,
    ahead: int,
) -> (share: (nat, int))
    requires
        ids.no_duplicates(),
        serves(view, ids, polls),
        shared_fairly(view, served, turns, ahead),
        ids.contains(poll.id),
        poll.limit > 0,
        !was_polled(polls, poll.id) || forall|i: int|
            0 <= i < view.writers.len() ==> (#[trigger] view.writers[i]).ready,
    ensures
        ({
            let (after, more) = polled(view, served, poll);
            serves(after, ids, polls.push(poll)) && shared_fairly(after, more, share.0, share.1)
        }),
{
    let id = poll.id;
    let place = choose|i: int| 0 <= i < ids.len() && ids[i] == id;
    lemma_asked_serves(view, ids, polls, poll, place);
    let writer = view.writers[place];
    let asked = view.asked(id);
    asking_keeps_sharing_fair(view, served, turns, ahead, id);
    let joined: int = if writer.ready {
        ahead
    } else {
        ahead + 1
    };
    if view.has_turn(id) {
        let count = smaller(writer.credit, poll.limit);
        lemma_joined_valid(view, id);
        assert(asked.ring[0] == id);
        assert(asked.writers[place].id == id);
        lemma_writer_known(asked, place);
        if writer.ready {
            assert forall|i: int| 0 <= i < asked.writers.len() implies (
            #[trigger] asked.writers[i]).ready by {
                assert(view.writers[i].ready);
            }
        }
        turns_keep_sharing_fair(asked, served, turns, joined, count);
        lemma_ended_valid(asked, id, WriteOutcome::Wrote(count));
        let after = asked.ended(id, WriteOutcome::Wrote(count));
        assert forall|i: int| 0 <= i < ids.len() implies (#[trigger] after.writers[i]).id == ids[i]
            && after.writers[i].ready == was_polled(polls.push(poll), ids[i]) by {
            assert(asked.writers[i].id == ids[i]);
        }
        share_after(asked.ring.len(), turns, joined, count == writer.credit)
    } else {
        (turns, joined)
    }
}

proof fn lemma_polls(ids: Seq<Seq<char>>, polls: Seq<Poll>) -> (share: (nat, int))
    requires
        ids.len() <= MAX_DATA_WRITERS,
        ids.no_duplicates(),
        starts_with_a_round(ids, polls),
    ensures
        ({
            let (view, served) = after_polls(ids, polls);
            serves(view, ids, polls) && shared_fairly(view, served, share.0, share.1)
        }),
    decreases polls.len(),
{
    if polls.len() == 0 {
        lemma_fresh(ids);
        (0, 0)
    } else {
        let front = polls.drop_last();
        let poll = polls.last();
        assert forall|k: int| 0 <= k < front.len() implies ids.contains((#[trigger] front[k]).id)
            && front[k].limit > 0 by {
            assert(front[k] == polls[k]);
        }
        assert forall|j: int, k: int|
            0 <= j < k < front.len() && k < ids.len() implies (#[trigger] front[j]).id != (
        #[trigger] front[k]).id by {
            assert(front[j] == polls[j] && front[k] == polls[k]);
        }
        if front.len() > ids.len() {
            assert(front.take(ids.len() as int) =~= polls.take(ids.len() as int));
        }
        let (turns, ahead) = lemma_polls(ids, front);
        let (view, served) = after_polls(ids, front);
        assert(polls[polls.len() - 1] == poll);
        assert(front.push(poll) =~= polls);
        if front.len() < ids.len() {
            if was_polled(front, poll.id) {
                let j = choose|j: int| 0 <= j < front.len() && (#[trigger] front[j]).id == poll.id;
                assert(polls[j].id != polls[polls.len() - 1].id);
            }
        } else {
            let round = polls.take(ids.len() as int);
            assert forall|i: int| 0 <= i < view.writers.len() implies (
            #[trigger] view.writers[i]).ready by {
                assert(was_polled(round, ids[i]));
                let j = choose|j: int| 0 <= j < round.len() && (#[trigger] round[j]).id == ids[i];
                assert(front[j] == round[j]);
                assert(was_polled(front, ids[i]));
            }
        }
        lemma_poll(view, served, ids, front, poll, turns, ahead)
    }
}

/// Writers that are registered with a fresh scheduler before any write, and that accept
/// any number of bytes whenever it is their turn, are never more than one quantum apart,
/// after each single poll, however little each of them accepts at once.
pub proof fn fresh_writers_share_within_one_quantum(
    ids: Seq<Seq<char>>,
    polls: Seq<Poll>,
    left: int,
    right: int,
)
    requires
        ids.len() <= MAX_DATA_WRITERS,
        ids.no_duplicates(),
        starts_with_a_round(ids, polls),
        0 <= left < ids.len(),
        0 <= right < ids.len(),
    ensures
        after_polls(ids, polls).1(ids[left]) <= after_polls(ids, polls).1(ids[right])
            + BYTE_QUANTUM,
{
    let (turns, ahead) = lemma_polls(ids, polls);
    let (view, served) = after_polls(ids, polls);
    assert(view.writers[left].id == ids[left] && view.writers[right].id == ids[right]);
    fair_writers_stay_within_one_quantum(view, served, turns, ahead, left, right);
}

/// A writer that arrives after the first bytes were written goes behind every writer
/// that is ready, so a stream of new writers cannot keep a ready one from its turn.
pub proof fn late_arrivals_queue_behind(view: FairView, id: Seq<char>, place: int)
    requires
        view.valid(),
        view.has(id),
        !view.writer(id).ready,
        !view.writer(id).startup_share || view.writer(id).has_written,
        0 <= place < view.ring.len(),
    ensures
        view.joined(id).ring[place] == view.ring[place],
        view.joined(id).ring.last() == id,
{
}

/// Parking never adds credit: a blocked writer comes back with what it had left.
pub proof fn resting_saves_nothing(view: FairView, id: Seq<char>)
    requires
        view.valid(),
        view.has(id),
    ensures
        view.parked(id).writer(id).credit == view.writer(id).credit,
        view.parked(id).writer(id).credit <= BYTE_QUANTUM,
{
    lemma_first_index(view.writers, writer_of(id));
    assert(writer_of(id)(view.writers[view.position(id)]));
    lemma_same_ids(view, view.parked(id));
    assert(view.parked(id).position(id) == view.position(id));
}

/// One writer for each task, three at most.
pub proof fn tasks_have_one_writer(view: FairView, id: Seq<char>)
    ensures
        view.ticket_refusal(id) is None <==> view.writers.len() < 3 && forall|k: int|
            0 <= k < view.writers.len() ==> (#[trigger] view.writers[k]).id != id,
{
    lemma_first_index(view.writers, writer_of(id));
    if view.has(id) {
        assert(writer_of(id)(view.writers[view.position(id)]));
    } else {
        assert forall|k: int| 0 <= k < view.writers.len() implies (
        #[trigger] view.writers[k]).id != id by {
            assert(!writer_of(id)(view.writers[k]));
        }
    }
}

/// The front writer gets the turn while nobody has it, and nobody gets it while somebody
/// has it.
pub proof fn the_front_writer_has_the_turn(view: FairView, id: Seq<char>)
    requires
        view.valid(),
        view.has(id),
    ensures
        view.polling is Some ==> !view.has_turn(id),
        view.polling is None && view.ring.len() > 0 && view.ring[0] == id ==> view.has_turn(id)
            && view.asked(id).polling == Some(id),
        view.polling is None && view.ring.len() > 0 && view.ring[0] != id && view.writer(id).ready
            ==> !view.has_turn(id),
        view.polling is None && view.ring.len() == 0 ==> view.has_turn(id),
{
    lemma_first_index(view.writers, writer_of(id));
    let at = view.position(id);
    assert(writer_of(id)(view.writers[at]));
    if view.ring.len() > 0 && view.ring[0] == id {
        assert(view.ring.contains(id));
        assert(view.writers[at].ready);
    }
}

/// A writer that used up its credit goes behind the others with a new one; one that has
/// some left keeps the front. Either way the turn is free.
pub proof fn turns_pass_on(view: FairView, count: usize)
    requires
        view.valid(),
        view.ring.len() > 0,
        0 < count <= view.writer(view.ring[0]).credit,
    ensures
        ({
            let id = view.ring[0];
            let after = view.ended(id, WriteOutcome::Wrote(count));
            &&& after.polling is None
            &&& count == view.writer(id).credit ==> after.ring == view.ring.skip(1).push(id)
            &&& count < view.writer(id).credit ==> after.ring == view.ring
            &&& after.has_written
            &&& after.writer(id).credit == if count == view.writer(id).credit {
                65536
            } else {
                view.writer(id).credit - count
            }
        }),
{
    let id = view.ring[0];
    assert(view.has(id));
    lemma_first_index(view.writers, writer_of(id));
    assert(writer_of(id)(view.writers[view.position(id)]));
    lemma_front_removed(view.ring);
    let after = view.ended(id, WriteOutcome::Wrote(count));
    lemma_same_ids(view, after);
    assert(after.position(id) == view.position(id));
}

/// A writer that cannot go on leaves the turn and the ring to the others, who keep their
/// order.
pub proof fn blocked_writers_let_others_go(view: FairView)
    requires
        view.valid(),
        view.ring.len() > 0,
    ensures
        ({
            let id = view.ring[0];
            let after = view.ended(id, WriteOutcome::Stopped);
            &&& after.polling is None
            &&& after.ring == view.ring.skip(1)
            &&& after.has(id)
            &&& !after.writer(id).ready
            &&& after.writer(id).credit == view.writer(id).credit
        }),
{
    let id = view.ring[0];
    assert(view.has(id));
    lemma_first_index(view.writers, writer_of(id));
    assert(writer_of(id)(view.writers[view.position(id)]));
    lemma_front_removed(view.ring);
    let after = view.ended(id, WriteOutcome::Stopped);
    lemma_same_ids(view, after);
    assert(after.position(id) == view.position(id));
}

/// A writer that is closed is gone from everywhere and leaves the turn to the others.
pub proof fn closed_writers_are_gone(view: FairView, id: Seq<char>, other: Seq<char>)
    requires
        view.valid(),
        view.has(id),
    ensures
        ({
            let after = view.closed_writer(id);
            &&& after.valid()
            &&& !after.has(id)
            &&& !after.ring.contains(id)
            &&& after.polling != Some(id)
            &&& other != id ==> (after.ring.contains(other) <==> view.ring.contains(other))
            &&& view.polling is Some && view.polling != Some(id) ==> after.polling == view.polling
        }),
{
    lemma_closed_valid(view, id);
    lemma_without_id(view.ring, id);
}

} // verus!
