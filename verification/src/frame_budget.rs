//! Bounded memory for frames. Memory is reserved before it is allocated and stays
//! reserved until the frame has been processed. Frames that wait for the same memory
//! get it in the order in which they asked for it.

use vstd::prelude::*;

use crate::error::{decided, failure, Result};
use crate::protocol::MAX_FRAME_BYTES;

verus! {

/// Memory is counted in units of this many bytes.
pub const UNIT: usize = 65536;

/// Memory for all frames together.
pub const GLOBAL_BYTES: usize = 67108864;

/// Memory for large frames together; the rest is kept for control frames.
pub const DATA_BYTES: usize = 58720256;

/// Memory for the frames of one task.
pub const TASK_BYTES: usize = 8388608;

/// The units that a frame takes: its bytes and what is decoded from them may exist
/// at the same time.
pub open spec fn units_for(length: nat) -> nat {
    (length * 2 + UNIT - 1) as nat / (UNIT as nat)
}

/// A part of the memory: that of one task, that for large frames, or all of it.
#[derive(Clone, Copy, Debug, PartialEq, Eq, Structural)]
pub enum Pool {
    Task(u64),
    Data,
    All,
}

impl Pool {
    /// The units of this part.
    pub open spec fn limit(self) -> nat {
        match self {
            Pool::Task(_) => TASK_BYTES as nat / UNIT as nat,
            Pool::Data => DATA_BYTES as nat / UNIT as nat,
            Pool::All => GLOBAL_BYTES as nat / UNIT as nat,
        }
    }

    fn units(self) -> (units: u32)
        ensures
            units == self.limit(),
    {
        match self {
            Pool::Task(_) => 128,
            Pool::Data => 896,
            Pool::All => 1024,
        }
    }
}

/// What a frame waits for; it holds everything that comes before.
#[derive(Clone, Copy, Debug, PartialEq, Eq, Structural)]
pub enum FrameStage {
    WaitTask,
    WaitData,
    WaitAll,
    Held,
}

/// The memory that a frame asked for and how much of it it has got.
#[derive(Clone, Copy, Debug, PartialEq, Eq, Structural)]
pub struct FrameMemory {
    pub number: u64,
    pub task: Option<u64>,
    pub units: u32,
    pub large: bool,
    pub stage: FrameStage,
}

impl FrameMemory {
    /// Only a frame of a task waits for the memory of a task, only a large one for the
    /// memory for large frames, and none is larger than the memory of a task.
    pub open spec fn valid(self) -> bool {
        &&& 1 <= self.units <= 128
        &&& self.stage == FrameStage::WaitTask ==> self.task is Some
        &&& self.stage == FrameStage::WaitData ==> self.large
    }

    /// The part of the memory that the frame waits for.
    pub open spec fn waits_for(self) -> Option<Pool> {
        match self.stage {
            FrameStage::WaitTask => Some(Pool::Task(self.task->0)),
            FrameStage::WaitData => Some(Pool::Data),
            FrameStage::WaitAll => Some(Pool::All),
            FrameStage::Held => None,
        }
    }

    /// The units that the frame holds of a part of the memory.
    pub open spec fn takes(self, pool: Pool) -> nat {
        let holds = match pool {
            Pool::Task(key) => self.task == Some(key) && self.stage != FrameStage::WaitTask,
            Pool::Data => self.large && (self.stage == FrameStage::WaitAll || self.stage
                == FrameStage::Held),
            Pool::All => self.stage == FrameStage::Held,
        };
        if holds {
            self.units as nat
        } else {
            0
        }
    }

    /// The frame once it has got what it waited for. The common memory comes last, so a
    /// frame that waits for other memory holds none of it.
    pub open spec fn advanced(self) -> FrameMemory {
        FrameMemory {
            stage: match self.stage {
                FrameStage::WaitTask => if self.large {
                    FrameStage::WaitData
                } else {
                    FrameStage::WaitAll
                },
                FrameStage::WaitData => FrameStage::WaitAll,
                _ => FrameStage::Held,
            },
            ..self
        }
    }

    /// How many times the frame still waits.
    pub open spec fn waits_left(self) -> nat {
        match self.stage {
            FrameStage::WaitTask => 3,
            FrameStage::WaitData => 2,
            FrameStage::WaitAll => 1,
            FrameStage::Held => 0,
        }
    }

    /// A frame of this length that holds nothing yet.
    pub open spec fn fresh(number: u64, length: usize, task: Option<u64>) -> FrameMemory {
        FrameMemory {
            number,
            task,
            units: units_for(length as nat) as u32,
            large: length >= UNIT,
            stage: if task is Some {
                FrameStage::WaitTask
            } else if length >= UNIT {
                FrameStage::WaitData
            } else {
                FrameStage::WaitAll
            },
        }
    }

    fn pool(&self) -> (pool: Option<Pool>)
        requires
            self.valid(),
        ensures
            pool == self.waits_for(),
    {
        match self.stage {
            FrameStage::WaitTask => match self.task {
                Some(key) => Some(Pool::Task(key)),
                None => None,
            },
            FrameStage::WaitData => Some(Pool::Data),
            FrameStage::WaitAll => Some(Pool::All),
            FrameStage::Held => None,
        }
    }

    fn held(&self, pool: Pool) -> (units: u32)
        ensures
            units == self.takes(pool),
    {
        let holds = match pool {
            Pool::Task(key) => match self.task {
                Some(own) => own == key && self.stage != FrameStage::WaitTask,
                None => false,
            },
            Pool::Data => self.large && (self.stage == FrameStage::WaitAll || self.stage
                == FrameStage::Held),
            Pool::All => self.stage == FrameStage::Held,
        };
        if holds {
            self.units
        } else {
            0
        }
    }

    fn advance(self) -> (next: FrameMemory)
        ensures
            next == self.advanced(),
    {
        let stage = match self.stage {
            FrameStage::WaitTask => if self.large {
                FrameStage::WaitData
            } else {
                FrameStage::WaitAll
            },
            FrameStage::WaitData => FrameStage::WaitAll,
            _ => FrameStage::Held,
        };
        FrameMemory {
            number: self.number,
            task: self.task,
            units: self.units,
            large: self.large,
            stage,
        }
    }
}

/// The units that some frames hold of a part of the memory.
pub open spec fn used(frames: Seq<FrameMemory>, pool: Pool) -> nat
    decreases frames.len(),
{
    if frames.len() == 0 {
        0
    } else {
        used(frames.drop_last(), pool) + frames.last().takes(pool)
    }
}

/// How many times some frames still wait.
pub open spec fn waits_left(frames: Seq<FrameMemory>) -> nat
    decreases frames.len(),
{
    if frames.len() == 0 {
        0
    } else {
        waits_left(frames.drop_last()) + frames.last().waits_left()
    }
}

/// Whether a frame can get what it waits for: it is the first one that waits for it,
/// and there is enough left.
pub open spec fn can_go_on(frames: Seq<FrameMemory>, at: int) -> bool {
    match frames[at].waits_for() {
        Some(pool) => {
            &&& used(frames, pool) + frames[at].units <= pool.limit()
            &&& forall|k: int| 0 <= k < at ==> (#[trigger] frames[k]).waits_for() != Some(pool)
        },
        None => false,
    }
}

/// The first frame from a position on that can go on; the number of frames where none
/// can.
pub open spec fn first_to_go_on(frames: Seq<FrameMemory>, from: int) -> int
    decreases frames.len() - from,
{
    if from >= frames.len() {
        frames.len() as int
    } else if can_go_on(frames, from) {
        from
    } else {
        first_to_go_on(frames, from + 1)
    }
}

/// The frames once one of them has gone on: it asks for what it needs next behind all
/// that asked before.
pub open spec fn gone_on(frames: Seq<FrameMemory>, at: int) -> Seq<FrameMemory> {
    frames.remove(at).push(frames[at].advanced())
}

/// The frames once every one that can go on has done so.
pub open spec fn settled(frames: Seq<FrameMemory>) -> Seq<FrameMemory>
    decreases waits_left(frames),
    via settling_ends
{
    let at = first_to_go_on(frames, 0);
    if 0 <= at < frames.len() {
        settled(gone_on(frames, at))
    } else {
        frames
    }
}

#[via_fn]
proof fn settling_ends(frames: Seq<FrameMemory>) {
    let at = first_to_go_on(frames, 0);
    if 0 <= at < frames.len() {
        lemma_first_to_go_on(frames, 0);
        lemma_waits_gone_on(frames, at);
    }
}

proof fn lemma_first_to_go_on(frames: Seq<FrameMemory>, from: int)
    requires
        0 <= from <= frames.len(),
    ensures
        from <= first_to_go_on(frames, from) <= frames.len(),
        first_to_go_on(frames, from) < frames.len() ==> can_go_on(
            frames,
            first_to_go_on(frames, from),
        ),
        forall|k: int|
            from <= k < first_to_go_on(frames, from) ==> !#[trigger] can_go_on(frames, k),
    decreases frames.len() - from,
{
    if from < frames.len() && !can_go_on(frames, from) {
        lemma_first_to_go_on(frames, from + 1);
    }
}

proof fn lemma_waits_removed(frames: Seq<FrameMemory>, at: int)
    requires
        0 <= at < frames.len(),
    ensures
        waits_left(frames.remove(at)) + frames[at].waits_left() == waits_left(frames),
    decreases frames.len(),
{
    if at == frames.len() - 1 {
        assert(frames.remove(at) =~= frames.drop_last());
    } else {
        lemma_waits_removed(frames.drop_last(), at);
        assert(frames.remove(at).drop_last() =~= frames.drop_last().remove(at));
        assert(frames.remove(at).last() == frames.last());
    }
}

proof fn lemma_waits_gone_on(frames: Seq<FrameMemory>, at: int)
    requires
        0 <= at < frames.len(),
        frames[at].waits_for() is Some,
    ensures
        waits_left(gone_on(frames, at)) < waits_left(frames),
{
    lemma_waits_removed(frames, at);
    assert(gone_on(frames, at).drop_last() =~= frames.remove(at));
}

/// What a frame gives back is what it held, of each part of the memory.
pub proof fn releasing_returns_everything(frames: Seq<FrameMemory>, at: int, pool: Pool)
    requires
        0 <= at < frames.len(),
    ensures
        used(frames.remove(at), pool) + frames[at].takes(pool) == used(frames, pool),
        used(Seq::<FrameMemory>::empty(), pool) == 0,
    decreases frames.len(),
{
    if at == frames.len() - 1 {
        assert(frames.remove(at) =~= frames.drop_last());
    } else {
        releasing_returns_everything(frames.drop_last(), at, pool);
        assert(frames.remove(at).drop_last() =~= frames.drop_last().remove(at));
        assert(frames.remove(at).last() == frames.last());
    }
}

proof fn lemma_used_gone_on(frames: Seq<FrameMemory>, at: int, pool: Pool)
    requires
        0 <= at < frames.len(),
        frames[at].valid(),
        frames[at].waits_for() is Some,
    ensures
        used(gone_on(frames, at), pool) == used(frames, pool) + if frames[at].waits_for() == Some(
            pool,
        ) {
            frames[at].units as nat
        } else {
            0
        },
{
    releasing_returns_everything(frames, at, pool);
    assert(gone_on(frames, at).drop_last() =~= frames.remove(at));
}

proof fn lemma_used_taken(frames: Seq<FrameMemory>, pool: Pool, count: int)
    requires
        0 <= count <= frames.len(),
    ensures
        used(frames.take(count), pool) <= used(frames, pool),
    decreases frames.len(),
{
    if count == frames.len() {
        assert(frames.take(count) =~= frames);
    } else {
        lemma_used_taken(frames.drop_last(), pool, count);
        assert(frames.drop_last().take(count) =~= frames.take(count));
    }
}

/// The memory of a session, as mathematical values.
pub struct BudgetView {
    pub frames: Seq<FrameMemory>,
    pub next: u64,
}

/// Whether each frame is known under its own number and no part of the memory is used
/// beyond its limit.
pub open spec fn within_limits(frames: Seq<FrameMemory>, next: u64) -> bool {
    &&& forall|k: int|
        0 <= k < frames.len() ==> (#[trigger] frames[k]).valid() && frames[k].number < next
    &&& forall|j: int, k: int|
        0 <= j < k < frames.len() ==> (#[trigger] frames[j]).number != (#[trigger] frames[k]).number
    &&& forall|pool: Pool| #[trigger] used(frames, pool) <= pool.limit()
}

/// Where a frame stands; the number of frames where it is not known.
pub open spec fn place_of(frames: Seq<FrameMemory>, number: u64) -> int
    decreases frames.len(),
{
    if frames.len() == 0 {
        0
    } else if frames[0].number == number {
        0
    } else {
        1 + place_of(frames.skip(1), number)
    }
}

impl BudgetView {
    /// The limits hold, and no frame waits that could go on.
    pub open spec fn valid(self) -> bool {
        within_limits(self.frames, self.next) && first_to_go_on(self.frames, 0)
            == self.frames.len()
    }

    /// The units that are left of a part of the memory.
    pub open spec fn free(self, pool: Pool) -> int {
        pool.limit() - used(self.frames, pool)
    }

    /// Whether a frame has everything that it asked for.
    pub open spec fn holds(self, number: u64) -> bool {
        exists|k: int|
            0 <= k < self.frames.len() && (#[trigger] self.frames[k]).number == number
                && self.frames[k].stage == FrameStage::Held
    }

    /// The memory once a frame has asked for some.
    pub open spec fn asked(self, length: usize, task: Option<u64>) -> BudgetView {
        BudgetView {
            frames: settled(self.frames.push(FrameMemory::fresh(self.next, length, task))),
            next: (self.next + 1) as u64,
        }
    }

    /// The memory once a frame has given back what it held.
    pub open spec fn released(self, number: u64) -> BudgetView {
        let at = place_of(self.frames, number);
        BudgetView {
            frames: if at < self.frames.len() {
                settled(self.frames.remove(at))
            } else {
                self.frames
            },
            ..self
        }
    }
}

proof fn lemma_place_of(frames: Seq<FrameMemory>, number: u64)
    ensures
        0 <= place_of(frames, number) <= frames.len(),
        place_of(frames, number) < frames.len() ==> frames[place_of(frames, number)].number
            == number,
        forall|k: int|
            0 <= k < place_of(frames, number) ==> (#[trigger] frames[k]).number != number,
    decreases frames.len(),
{
    if frames.len() > 0 && frames[0].number != number {
        lemma_place_of(frames.skip(1), number);
        assert forall|k: int| 0 <= k < place_of(frames, number) implies (
        #[trigger] frames[k]).number != number by {
            if k > 0 {
                assert(frames[k] == frames.skip(1)[k - 1]);
            }
        }
    }
}

proof fn lemma_removed_within(frames: Seq<FrameMemory>, next: u64, at: int)
    requires
        within_limits(frames, next),
        0 <= at < frames.len(),
    ensures
        within_limits(frames.remove(at), next),
{
    let after = frames.remove(at);
    assert forall|k: int| 0 <= k < after.len() implies (#[trigger] after[k]) == frames[if k < at {
        k
    } else {
        k + 1
    }] by {}
    assert forall|j: int, k: int| 0 <= j < k < after.len() implies (#[trigger] after[j]).number != (
    #[trigger] after[k]).number by {
        let a = if j < at {
            j
        } else {
            j + 1
        };
        let b = if k < at {
            k
        } else {
            k + 1
        };
        assert(frames[a].number != frames[b].number);
    }
    assert forall|pool: Pool| #[trigger] used(after, pool) <= pool.limit() by {
        releasing_returns_everything(frames, at, pool);
        assert(used(frames, pool) <= pool.limit());
    }
}

proof fn lemma_gone_on_within(frames: Seq<FrameMemory>, next: u64, at: int)
    requires
        within_limits(frames, next),
        0 <= at < frames.len(),
        can_go_on(frames, at),
    ensures
        within_limits(gone_on(frames, at), next),
{
    let after = gone_on(frames, at);
    let rest = frames.remove(at);
    lemma_removed_within(frames, next, at);
    assert forall|k: int| 0 <= k < rest.len() implies (#[trigger] rest[k]).number
        != frames[at].number by {
        if k < at {
            assert(frames[k].number != frames[at].number);
        } else {
            assert(frames[at].number != frames[k + 1].number);
        }
    }
    assert forall|k: int| 0 <= k < after.len() implies (#[trigger] after[k]).valid()
        && after[k].number < next by {
        if k < rest.len() {
            assert(after[k] == rest[k]);
        }
    }
    assert forall|j: int, k: int| 0 <= j < k < after.len() implies (#[trigger] after[j]).number != (
    #[trigger] after[k]).number by {
        assert(after[j] == rest[j]);
        if k < rest.len() {
            assert(after[k] == rest[k]);
        }
    }
    assert forall|pool: Pool| #[trigger] used(after, pool) <= pool.limit() by {
        lemma_used_gone_on(frames, at, pool);
        assert(used(frames, pool) <= pool.limit());
    }
}

proof fn lemma_settled(frames: Seq<FrameMemory>, next: u64)
    requires
        within_limits(frames, next),
    ensures
        within_limits(settled(frames), next),
        first_to_go_on(settled(frames), 0) == settled(frames).len(),
        settled(frames).len() == frames.len(),
    decreases waits_left(frames),
{
    let at = first_to_go_on(frames, 0);
    lemma_first_to_go_on(frames, 0);
    if at < frames.len() {
        lemma_waits_gone_on(frames, at);
        lemma_gone_on_within(frames, next, at);
        lemma_settled(gone_on(frames, at), next);
    }
}

/// The memory that the frames of one task may take.
#[derive(Clone, Copy, Debug, PartialEq, Eq, Structural)]
pub struct TaskBudget {
    pub key: u64,
}

/// Memory that was asked for. It is given back once, when the frame was processed or
/// nobody waits for it any more.
#[derive(Debug)]
pub struct Reservation {
    number: u64,
}

impl View for Reservation {
    type V = u64;

    closed spec fn view(&self) -> u64 {
        self.number
    }
}

/// The memory of a session.
#[derive(Debug)]
pub struct FrameBudget {
    frames: Vec<FrameMemory>,
    next: u64,
}

impl View for FrameBudget {
    type V = BudgetView;

    closed spec fn view(&self) -> BudgetView {
        BudgetView { frames: self.frames@, next: self.next }
    }
}

impl Default for FrameBudget {
    fn default() -> (budget: FrameBudget)
        ensures
            budget@ == (BudgetView { frames: Seq::empty(), next: 0 }),
            budget@.valid(),
    {
        let budget = FrameBudget { frames: Vec::new(), next: 0 };
        assert(budget@.frames =~= Seq::<FrameMemory>::empty());
        budget
    }
}

impl FrameBudget {
    /// Whether every number has been given out.
    pub fn is_exhausted(&self) -> (exhausted: bool)
        ensures
            exhausted == (self@.next == u64::MAX),
    {
        self.next == u64::MAX
    }

    /// Memory for the frames of one more task.
    pub fn task_limit(&mut self) -> (task: TaskBudget)
        requires
            old(self)@.valid(),
            old(self)@.next < u64::MAX,
        ensures
            task.key == old(self)@.next,
            final(self)@ == (BudgetView { next: (old(self)@.next + 1) as u64, ..old(self)@ }),
            final(self)@.valid(),
    {
        let key: u64 = self.next;
        self.next = key + 1;
        TaskBudget { key }
    }

    fn count(&self, pool: Pool) -> (units: u32)
        requires
            used(self@.frames, pool) <= pool.limit(),
        ensures
            units == used(self@.frames, pool),
    {
        let mut units: u32 = 0;
        let mut i: usize = 0;
        assert(self.frames@.take(0) =~= Seq::<FrameMemory>::empty());
        while i < self.frames.len()
            invariant
                i <= self.frames@.len(),
                units == used(self.frames@.take(i as int), pool),
                used(self.frames@, pool) <= pool.limit(),
            decreases self.frames@.len() - i,
        {
            proof {
                lemma_used_taken(self.frames@, pool, i + 1);
                assert(self.frames@.take(i + 1).drop_last() =~= self.frames@.take(i as int));
            }
            units = units + self.frames[i].held(pool);
            i = i + 1;
        }
        assert(self.frames@.take(i as int) =~= self.frames@);
        units
    }

    /// The units that are left of a part of the memory.
    pub fn free(&self, pool: Pool) -> (units: u32)
        requires
            self@.valid(),
        ensures
            units == self@.free(pool),
    {
        pool.units() - self.count(pool)
    }

    fn waits_first(&self, at: usize, pool: Pool) -> (first: bool)
        requires
            at <= self.frames@.len(),
            forall|k: int| 0 <= k < self.frames@.len() ==> (#[trigger] self.frames@[k]).valid(),
        ensures
            first == forall|k: int|
                0 <= k < at ==> (#[trigger] self.frames@[k]).waits_for() != Some(pool),
    {
        let mut i: usize = 0;
        while i < at
            invariant
                i <= at <= self.frames@.len(),
                forall|k: int| 0 <= k < self.frames@.len() ==> (#[trigger] self.frames@[k]).valid(),
                forall|k: int| 0 <= k < i ==> (#[trigger] self.frames@[k]).waits_for() != Some(pool),
            decreases at - i,
        {
            if let Some(other) = self.frames[i].pool() {
                if other == pool {
                    return false;
                }
            }
            i = i + 1;
        }
        true
    }

    fn find_to_go_on(&self) -> (at: usize)
        requires
            within_limits(self@.frames, self@.next),
        ensures
            at == first_to_go_on(self@.frames, 0),
            at <= self.frames@.len(),
    {
        let mut i: usize = 0;
        while i < self.frames.len()
            invariant
                i <= self.frames@.len(),
                within_limits(self.frames@, self.next),
                first_to_go_on(self.frames@, 0) == first_to_go_on(self.frames@, i as int),
            decreases self.frames@.len() - i,
        {
            if let Some(pool) = self.frames[i].pool() {
                assert(used(self.frames@, pool) <= pool.limit());
                if self.frames[i].units <= pool.units() - self.count(pool) && self.waits_first(
                    i,
                    pool,
                ) {
                    return i;
                }
            }
            i = i + 1;
        }
        i
    }

    fn settle(&mut self)
        requires
            within_limits(old(self)@.frames, old(self)@.next),
        ensures
            final(self)@ == (BudgetView { frames: settled(old(self)@.frames), ..old(self)@ }),
            final(self)@.valid(),
    {
        proof {
            lemma_settled(self.frames@, self.next);
        }
        let mut at: usize = self.find_to_go_on();
        while at < self.frames.len()
            invariant
                at == first_to_go_on(self.frames@, 0),
                within_limits(self.frames@, self.next),
                settled(self.frames@) == settled(old(self)@.frames),
                self.next == old(self)@.next,
            decreases waits_left(self.frames@),
        {
            let ghost before = self.frames@;
            proof {
                lemma_first_to_go_on(before, 0);
                lemma_waits_gone_on(before, at as int);
                lemma_gone_on_within(before, self.next, at as int);
            }
            let frame = self.frames.remove(at);
            self.frames.push(frame.advance());
            assert(self.frames@ =~= gone_on(before, at as int));
            at = self.find_to_go_on();
        }
    }

    /// Asks for the memory for a frame of the given length.
    pub fn reserve(&mut self, length: usize, task: Option<TaskBudget>) -> (result: Result<
        Reservation,
    >)
        requires
            old(self)@.valid(),
            old(self)@.next < u64::MAX,
        ensures
            decided(
                result,
                if 1 <= length <= MAX_FRAME_BYTES {
                    None
                } else {
                    Some("桌面帧长度超出资源上限"@)
                },
            ),
            match result {
                Ok(reservation) => reservation@ == old(self)@.next && final(self)@
                    == old(self)@.asked(
                    length,
                    match task {
                        Some(budget) => Some(budget.key),
                        None => None,
                    },
                ),
                Err(_) => final(self)@ == old(self)@,
            },
            final(self)@.valid(),
    {
        if length == 0 || length > MAX_FRAME_BYTES as usize {
            return Err(failure("桌面帧长度超出资源上限"));
        }
        let units: u32 = ((length * 2 + (UNIT - 1)) / UNIT) as u32;
        let key: Option<u64> = match task {
            Some(budget) => Some(budget.key),
            None => None,
        };
        let large = length >= UNIT;
        let stage = if key.is_some() {
            FrameStage::WaitTask
        } else if large {
            FrameStage::WaitData
        } else {
            FrameStage::WaitAll
        };
        let number: u64 = self.next;
        let ghost before = self.frames@;
        self.frames.push(FrameMemory { number, task: key, units, large, stage });
        self.next = number + 1;
        proof {
            let fresh = FrameMemory::fresh(number, length, key);
            assert(self.frames@ =~= before.push(fresh));
            assert(self.frames@.drop_last() =~= before);
            assert forall|pool: Pool| #[trigger] used(self.frames@, pool) <= pool.limit() by {
                assert(used(before, pool) <= pool.limit());
                assert(fresh.takes(pool) == 0);
            }
        }
        self.settle();
        Ok(Reservation { number })
    }

    /// Whether the memory has been got, so the frame may be allocated.
    pub fn is_held(&self, reservation: &Reservation) -> (held: bool)
        ensures
            held == self@.holds(reservation@),
    {
        let mut i: usize = 0;
        while i < self.frames.len()
            invariant
                i <= self.frames@.len(),
                forall|k: int|
                    0 <= k < i ==> (#[trigger] self.frames@[k]).number != reservation@
                        || self.frames@[k].stage != FrameStage::Held,
            decreases self.frames@.len() - i,
        {
            if self.frames[i].number == reservation.number && self.frames[i].stage
                == FrameStage::Held {
                assert(self@.frames[i as int].number == reservation@);
                return true;
            }
            i = i + 1;
        }
        false
    }

    /// Gives back what is held: the frame was processed, or nobody waits for it.
    pub fn release(&mut self, reservation: Reservation)
        requires
            old(self)@.valid(),
        ensures
            final(self)@ == old(self)@.released(reservation@),
            final(self)@.valid(),
    {
        let ghost all = self.frames@;
        proof {
            lemma_place_of(all, reservation@);
        }
        let mut i: usize = 0;
        while i < self.frames.len()
            invariant
                i <= self.frames@.len(),
                self@ == old(self)@,
                self@.valid(),
                all == self.frames@,
                i <= place_of(all, reservation@) <= all.len(),
                place_of(all, reservation@) < all.len() ==> all[place_of(all, reservation@)].number
                    == reservation@,
                forall|k: int|
                    0 <= k < place_of(all, reservation@) ==> (#[trigger] all[k]).number
                        != reservation@,
            decreases self.frames@.len() - i,
        {
            if self.frames[i].number == reservation.number {
                assert(all[i as int].number == reservation@);
                let _ = self.frames.remove(i);
                proof {
                    lemma_removed_within(all, self.next, i as int);
                    assert(self.frames@ =~= all.remove(i as int));
                }
                self.settle();
                return;
            }
            i = i + 1;
        }
    }
}

/// A frame never gets ahead of one that waits for the same memory and asked for it
/// before.
pub proof fn memory_is_given_in_order(frames: Seq<FrameMemory>, earlier: int, later: int)
    requires
        0 <= earlier < later < frames.len(),
        frames[earlier].waits_for() is Some,
        frames[earlier].waits_for() == frames[later].waits_for(),
    ensures
        !can_go_on(frames, later),
{
}

/// A frame that waits holds none of the common memory.
pub proof fn waiting_holds_no_common_memory(frame: FrameMemory)
    requires
        frame.waits_for() is Some,
    ensures
        frame.takes(Pool::All) == 0,
{
}

/// The units of the frames below one unit that wait for the common memory or hold it.
pub open spec fn small_units(frames: Seq<FrameMemory>) -> nat
    decreases frames.len(),
{
    if frames.len() == 0 {
        0
    } else {
        let last = frames.last();
        small_units(frames.drop_last()) + if !last.large && (last.stage == FrameStage::WaitAll
            || last.stage == FrameStage::Held) {
            last.units as nat
        } else {
            0
        }
    }
}

spec fn common_wanted(frames: Seq<FrameMemory>) -> nat
    decreases frames.len(),
{
    if frames.len() == 0 {
        0
    } else {
        common_wanted(frames.drop_last()) + if frames.last().stage == FrameStage::WaitAll {
            frames.last().units as nat
        } else {
            0
        }
    }
}

proof fn lemma_common_split(frames: Seq<FrameMemory>)
    ensures
        used(frames, Pool::All) + common_wanted(frames) == used(frames, Pool::Data) + small_units(
            frames,
        ),
    decreases frames.len(),
{
    if frames.len() > 0 {
        lemma_common_split(frames.drop_last());
    }
}

proof fn lemma_common_wanted(frames: Seq<FrameMemory>, at: int)
    requires
        0 <= at < frames.len(),
        frames[at].stage == FrameStage::WaitAll,
    ensures
        frames[at].units <= common_wanted(frames),
    decreases frames.len(),
{
    if at < frames.len() - 1 {
        lemma_common_wanted(frames.drop_last(), at);
    }
}

proof fn lemma_first_waiting(frames: Seq<FrameMemory>, at: int) -> (first: int)
    requires
        0 <= at < frames.len(),
        frames[at].stage == FrameStage::WaitAll,
    ensures
        0 <= first <= at,
        frames[first].stage == FrameStage::WaitAll,
        forall|k: int| 0 <= k < first ==> (#[trigger] frames[k]).stage != FrameStage::WaitAll,
    decreases at,
{
    if exists|k: int| 0 <= k < at && (#[trigger] frames[k]).stage == FrameStage::WaitAll {
        let k = choose|k: int| 0 <= k < at && (#[trigger] frames[k]).stage == FrameStage::WaitAll;
        lemma_first_waiting(frames, k)
    } else {
        at
    }
}

/// Large frames cannot use up the memory for control frames: as long as the small frames
/// together want no more than what is kept for them, none of them waits for the common
/// memory, whatever large frames there are.
pub proof fn large_frames_leave_room_for_control(budget: BudgetView, at: int)
    requires
        budget.valid(),
        small_units(budget.frames) <= Pool::All.limit() - Pool::Data.limit(),
        0 <= at < budget.frames.len(),
    ensures
        budget.frames[at].stage != FrameStage::WaitAll,
{
    let frames = budget.frames;
    if frames[at].stage == FrameStage::WaitAll {
        let first = lemma_first_waiting(frames, at);
        lemma_common_split(frames);
        lemma_common_wanted(frames, first);
        assert(used(frames, Pool::Data) <= Pool::Data.limit());
        assert(can_go_on(frames, first));
        lemma_first_to_go_on(frames, 0);
    }
}

/// A frame of any allowed size gets its memory at once where nothing is in use.
pub proof fn single_frames_fit(next: u64, length: usize, task: Option<u64>)
    requires
        1 <= length <= MAX_FRAME_BYTES,
        next < u64::MAX,
    ensures
        (BudgetView { frames: Seq::empty(), next }).asked(length, task).holds(next),
{
    let fresh = FrameMemory::fresh(next, length, task);
    let budget = BudgetView { frames: Seq::empty(), next };
    assert(budget.frames.push(fresh) =~= seq![fresh]);
    lemma_alone(fresh);
    let last = budget.asked(length, task).frames;
    assert(last[0].number == next);
}

proof fn lemma_alone(frame: FrameMemory)
    requires
        frame.valid(),
    ensures
        settled(seq![frame]).len() == 1,
        settled(seq![frame])[0].number == frame.number,
        settled(seq![frame])[0].stage == FrameStage::Held,
    decreases frame.waits_left(),
{
    let frames = seq![frame];
    assert(frames.drop_last() =~= Seq::<FrameMemory>::empty());
    if frame.stage != FrameStage::Held {
        let pool = frame.waits_for()->0;
        assert(used(frames.drop_last(), pool) == 0);
        assert(used(frames, pool) == 0);
        assert(can_go_on(frames, 0));
        assert(first_to_go_on(frames, 0) == 0);
        assert(gone_on(frames, 0) =~= seq![frame.advanced()]);
        lemma_alone(frame.advanced());
    } else {
        assert(!can_go_on(frames, 0));
        assert(first_to_go_on(frames, 1) == 1);
        assert(first_to_go_on(frames, 0) == 1);
    }
}

/// A frame counts for twice its length, rounded up to whole units.
pub proof fn frames_count_twice(length: nat)
    ensures
        units_for(length) * 65536 >= 2 * length,
        units_for(length) * 65536 < 2 * length + 65536,
{
}

/// A task may hold 8 MiB, large frames together 56 MiB, and all frames together 64 MiB.
pub proof fn memory_has_its_limits(key: u64)
    ensures
        Pool::Task(key).limit() * 65536 == 8 * 1048576,
        Pool::Data.limit() * 65536 == 56 * 1048576,
        Pool::All.limit() * 65536 == 64 * 1048576,
{
}

/// A frame that has its memory holds it of everything that it counts against: its task,
/// the memory for large frames if it is one, and the common memory; and of nothing else.
pub proof fn frames_hold_what_they_count(frame: FrameMemory, key: u64)
    requires
        frame.stage == FrameStage::Held,
    ensures
        frame.takes(Pool::All) == frame.units,
        frame.takes(Pool::Data) == if frame.large {
            frame.units as int
        } else {
            0
        },
        frame.takes(Pool::Task(key)) == if frame.task == Some(key) {
            frame.units as int
        } else {
            0
        },
{
}

/// A frame waits for its task's memory first if it has a task, then for that of large
/// frames if it is one, then for the common memory, and each wait ends in the next.
pub proof fn frames_wait_in_order(number: u64, length: usize, task: Option<u64>)
    requires
        1 <= length <= MAX_FRAME_BYTES,
    ensures
        ({
            let fresh = FrameMemory::fresh(number, length, task);
            let after_task = if task is Some {
                fresh.advanced()
            } else {
                fresh
            };
            let after_data = if length >= 65536 {
                after_task.advanced()
            } else {
                after_task
            };
            &&& fresh.number == number && fresh.task == task && fresh.units == units_for(
                length as nat,
            )
            &&& fresh.large <==> length >= 65536
            &&& task matches Some(key) ==> fresh.waits_for() == Some(Pool::Task(key))
            &&& length >= 65536 ==> after_task.waits_for() == Some(Pool::Data)
            &&& after_data.waits_for() == Some(Pool::All)
            &&& after_data.advanced().stage == FrameStage::Held
            &&& after_data.advanced().units == fresh.units
            &&& after_data.advanced().number == number
        }),
{
}

/// A frame that has given its memory back holds none.
pub proof fn released_frames_are_gone(budget: BudgetView, number: u64, at: int)
    requires
        budget.valid(),
        0 <= at < budget.frames.len(),
        budget.frames[at].number == number,
    ensures
        place_of(budget.frames, number) == at,
        forall|pool: Pool| #[trigger]
            used(budget.frames.remove(at), pool) == used(budget.frames, pool)
                - budget.frames[at].takes(pool),
        forall|k: int|
            0 <= k < budget.frames.remove(at).len() ==> (#[trigger] budget.frames.remove(
                at,
            )[k]).number != number,
        budget.released(number).frames == settled(budget.frames.remove(at)),
{
    lemma_place_of(budget.frames, number);
    let place = place_of(budget.frames, number);
    if place < at {
        assert(budget.frames[place].number != budget.frames[at].number);
    }
    assert forall|pool: Pool| #[trigger]
        used(budget.frames.remove(at), pool) == used(budget.frames, pool)
            - budget.frames[at].takes(pool) by {
        releasing_returns_everything(budget.frames, at, pool);
    }
}

} // verus!
