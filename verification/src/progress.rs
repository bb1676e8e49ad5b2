//! Transfer rates and group progress for presentation.

use vstd::prelude::*;

use crate::task_model::TaskState;
use crate::task_record::{TaskRecord, TaskView};
use crate::task_recovery::task_views;

verus! {

/// How far back a rate looks, in milliseconds.
pub const RATE_WINDOW_MS: u64 = 2000;

/// The most samples that are kept.
pub const MAX_RATE_POINTS: usize = 32;

/// The samples of a transfer, as mathematical values: time and confirmed bytes.
pub struct SamplerView {
    pub points: Seq<(u64, u64)>,
    pub latest: u64,
    pub last_ms: u64,
}

/// Drops samples that the window no longer needs; the last one before the window
/// stays, and never fewer than two.
pub open spec fn trim_window(points: Seq<(u64, u64)>, cutoff: int) -> Seq<(u64, u64)>
    decreases points.len(),
{
    if points.len() > 2 && points[1].0 <= cutoff {
        trim_window(points.skip(1), cutoff)
    } else {
        points
    }
}

/// Keeps the newest samples.
pub open spec fn trim_count(points: Seq<(u64, u64)>) -> Seq<(u64, u64)> {
    if points.len() > MAX_RATE_POINTS {
        points.skip(points.len() - MAX_RATE_POINTS)
    } else {
        points
    }
}

/// The start of the window that ends now.
pub open spec fn window_start(now_ms: u64) -> int {
    if now_ms >= RATE_WINDOW_MS {
        now_ms - RATE_WINDOW_MS
    } else {
        0
    }
}

impl SamplerView {
    /// The samples of a transfer that starts here.
    pub open spec fn started(now_ms: u64, confirmed: u64) -> SamplerView {
        SamplerView { points: seq![(now_ms, confirmed)], latest: confirmed, last_ms: now_ms }
    }

    /// The samples after one more. A clock or a count that runs backwards starts over.
    pub open spec fn observed(self, now_ms: u64, confirmed: u64) -> SamplerView {
        if self.points.len() == 0 || now_ms < self.last_ms || confirmed < self.latest {
            SamplerView::started(now_ms, confirmed)
        } else {
            let kept = if self.points.last().0 == now_ms {
                self.points.drop_last()
            } else {
                self.points
            };
            SamplerView {
                points: trim_count(
                    trim_window(kept.push((now_ms, confirmed)), window_start(now_ms)),
                ),
                latest: confirmed,
                last_ms: now_ms,
            }
        }
    }

    /// The bytes of the window and the milliseconds that they took; nothing while the
    /// transfer rests or stalls.
    pub open spec fn rate(self, now_ms: u64, transferring: bool) -> Option<(u64, u64)> {
        if !transferring || now_ms < self.last_ms || now_ms - self.last_ms >= RATE_WINDOW_MS
            || self.points.len() == 0 || now_ms <= self.points[0].0 {
            None
        } else {
            Some(
                (
                    if self.latest >= self.points[0].1 {
                        (self.latest - self.points[0].1) as u64
                    } else {
                        0
                    },
                    (now_ms - self.points[0].0) as u64,
                ),
            )
        }
    }

    /// The number of samples is bounded, and they are in the order of time and bytes.
    pub open spec fn valid(self) -> bool {
        &&& self.points.len() <= MAX_RATE_POINTS
        &&& self.points.len() > 0 ==> self.points.last() == (self.last_ms, self.latest)
        &&& forall|i: int, j: int|
            0 <= i < j < self.points.len() ==> (#[trigger] self.points[i]).0 < (
            #[trigger] self.points[j]).0 && self.points[i].1 <= self.points[j].1
    }
}

/// A short moving window of confirmed bytes. The owner supplies the time, and what
/// was already confirmed when a transfer resumes is a baseline, not traffic.
#[derive(Debug)]
pub struct RateSampler {
    points: Vec<(u64, u64)>,
    latest: u64,
    last_ms: u64,
}

impl View for RateSampler {
    type V = SamplerView;

    closed spec fn view(&self) -> SamplerView {
        SamplerView { points: self.points@, latest: self.latest, last_ms: self.last_ms }
    }
}

impl Default for RateSampler {
    fn default() -> (sampler: RateSampler)
        ensures
            sampler@ == (SamplerView { points: Seq::empty(), latest: 0, last_ms: 0 }),
            sampler@.valid(),
    {
        RateSampler { points: Vec::new(), latest: 0, last_ms: 0 }
    }
}

impl RateSampler {
    /// Starts over with what is confirmed now.
    pub fn reset(&mut self, now_ms: u64, confirmed: u64)
        ensures
            final(self)@ == SamplerView::started(now_ms, confirmed),
            final(self)@.valid(),
    {
        self.points.clear();
        self.points.push((now_ms, confirmed));
        self.latest = confirmed;
        self.last_ms = now_ms;
        assert(self@.points =~= seq![(now_ms, confirmed)]);
    }

    /// Takes a sample.
    pub fn observe(&mut self, now_ms: u64, confirmed: u64)
        requires
            old(self)@.valid(),
        ensures
            final(self)@ == old(self)@.observed(now_ms, confirmed),
            final(self)@.valid(),
    {
        if self.points.len() == 0 || now_ms < self.last_ms || confirmed < self.latest {
            self.reset(now_ms, confirmed);
            return;
        }
        let ghost before = self@;
        self.latest = confirmed;
        self.last_ms = now_ms;
        let ghost kept = if before.points.last().0 == now_ms {
            before.points.drop_last()
        } else {
            before.points
        };
        if self.points[self.points.len() - 1].0 == now_ms {
            let _ = self.points.pop();
            assert(self.points@ =~= kept);
        }
        self.points.push((now_ms, confirmed));
        let ghost full = kept.push((now_ms, confirmed));
        let cutoff: u64 = now_ms.saturating_sub(RATE_WINDOW_MS);
        proof {
            assert(self.points@ =~= full);
            assert forall|i: int, j: int| 0 <= i < j < full.len() implies (#[trigger] full[i]).0 < (
            #[trigger] full[j]).0 && full[i].1 <= full[j].1 by {
                if j == kept.len() {
                    assert(before.points[i] == full[i]);
                    if i < before.points.len() - 1 {
                        assert(before.points[i].0 < before.points[before.points.len() - 1].0);
                    }
                } else {
                    assert(before.points[i] == full[i] && before.points[j] == full[j]);
                }
            }
        }
        while self.points.len() > 2 && self.points[1].0 <= cutoff
            invariant
                self.latest == confirmed,
                self.last_ms == now_ms,
                cutoff == window_start(now_ms),
                self.points@.len() >= 1,
                self.points@.len() <= full.len(),
                self.points@.last() == (now_ms, confirmed),
                trim_window(self.points@, cutoff as int) == trim_window(full, cutoff as int),
                forall|i: int, j: int|
                    0 <= i < j < self.points@.len() ==> (#[trigger] self.points@[i]).0 < (
                    #[trigger] self.points@[j]).0 && self.points@[i].1 <= self.points@[j].1,
            decreases self.points@.len(),
        {
            let ghost earlier = self.points@;
            let _ = self.points.remove(0);
            assert(self.points@ =~= earlier.skip(1));
        }
        let ghost trimmed = self.points@;
        assert(trimmed == trim_window(full, cutoff as int));
        while self.points.len() > MAX_RATE_POINTS
            invariant
                self.latest == confirmed,
                self.last_ms == now_ms,
                self.points@.len() >= 1,
                self.points@.last() == (now_ms, confirmed),
                self.points@.len() <= trimmed.len(),
                self.points@ == trimmed.skip(trimmed.len() - self.points@.len()),
                trimmed.len() > MAX_RATE_POINTS ==> self.points@.len() >= MAX_RATE_POINTS,
                trimmed.len() <= MAX_RATE_POINTS ==> self.points@.len() == trimmed.len(),
                forall|i: int, j: int|
                    0 <= i < j < self.points@.len() ==> (#[trigger] self.points@[i]).0 < (
                    #[trigger] self.points@[j]).0 && self.points@[i].1 <= self.points@[j].1,
            decreases self.points@.len(),
        {
            let ghost earlier = self.points@;
            let _ = self.points.remove(0);
            assert(self.points@ =~= earlier.skip(1));
            assert(self.points@ =~= trimmed.skip(trimmed.len() - self.points@.len()));
        }
        assert(self.points@ =~= trim_count(trimmed));
    }

    /// The bytes of the window and the milliseconds that they took.
    pub fn rate_parts(&self, now_ms: u64, transferring: bool) -> (parts: Option<(u64, u64)>)
        ensures
            parts == self@.rate(now_ms, transferring),
            parts matches Some((_, elapsed)) ==> elapsed > 0,
    {
        if !transferring || now_ms < self.last_ms || now_ms - self.last_ms >= RATE_WINDOW_MS
            || self.points.len() == 0 {
            return None;
        }
        let start = self.points[0];
        if now_ms <= start.0 {
            return None;
        }
        Some((self.latest.saturating_sub(start.1), now_ms - start.0))
    }
}

/// A rate never counts what was confirmed before the transfer started, and a
/// resting or stalled transfer has none.
pub proof fn resumed_bytes_are_no_traffic(now_ms: u64, confirmed: u64, later_ms: u64)
    ensures
        SamplerView::started(now_ms, confirmed).rate(later_ms, true) matches Some((bytes, _))
            ==> bytes == 0,
        SamplerView::started(now_ms, confirmed).rate(later_ms, false) is None,
        later_ms >= now_ms + RATE_WINDOW_MS ==> SamplerView::started(now_ms, confirmed).rate(
            later_ms,
            true,
        ) is None,
{
}

/// The progress of a selection.
#[derive(Clone, Copy, Debug, PartialEq, Eq, Structural)]
pub struct GroupProgress {
    pub children: usize,
    pub completed: usize,
    pub failed: usize,
    pub total_bytes: u64,
    pub confirmed_bytes: u64,
    pub complete: bool,
}

/// How many tasks are in one of these states.
pub open spec fn count_tasks(tasks: Seq<TaskView>, wanted: spec_fn(TaskState) -> bool) -> nat
    decreases tasks.len(),
{
    if tasks.len() == 0 {
        0
    } else {
        count_tasks(tasks.drop_last(), wanted) + if wanted(tasks.last().state) {
            1nat
        } else {
            0nat
        }
    }
}

/// The confirmed bytes of a task: all of them once it is complete.
pub open spec fn confirmed_of(task: TaskView) -> nat {
    let total = task.manifest_identity.total_bytes as nat;
    if task.state == TaskState::Completed {
        total
    } else if task.progress_hint is Some && task.progress_hint->0.verified_bytes < total {
        task.progress_hint->0.verified_bytes as nat
    } else if task.progress_hint is Some {
        total
    } else {
        0
    }
}

/// The bytes of some tasks together.
pub open spec fn sum_total(tasks: Seq<TaskView>) -> nat
    decreases tasks.len(),
{
    if tasks.len() == 0 {
        0
    } else {
        sum_total(tasks.drop_last()) + tasks.last().manifest_identity.total_bytes as nat
    }
}

/// The confirmed bytes of some tasks together.
pub open spec fn sum_confirmed(tasks: Seq<TaskView>) -> nat
    decreases tasks.len(),
{
    if tasks.len() == 0 {
        0
    } else {
        sum_confirmed(tasks.drop_last()) + confirmed_of(tasks.last())
    }
}

/// A sum, held at the largest number that fits.
pub open spec fn capped(sum: nat) -> nat {
    if sum > u64::MAX {
        u64::MAX as nat
    } else {
        sum
    }
}

/// Whether a task is complete.
pub open spec fn is_completed() -> spec_fn(TaskState) -> bool {
    |state: TaskState| state == TaskState::Completed
}

/// Whether a task stopped without completing.
pub open spec fn is_failed() -> spec_fn(TaskState) -> bool {
    |state: TaskState| state == TaskState::Failed || state == TaskState::Interrupted
}

/// Adds up the tasks of a selection.
pub fn group_progress(records: &Vec<TaskRecord>) -> (group: GroupProgress)
    ensures
        ({
            let tasks = task_views(records@);
            &&& group.children == tasks.len()
            &&& group.completed == count_tasks(tasks, is_completed())
            &&& group.failed == count_tasks(tasks, is_failed())
            &&& group.total_bytes == capped(sum_total(tasks))
            &&& group.confirmed_bytes == capped(sum_confirmed(tasks))
            &&& group.complete == (tasks.len() > 0 && count_tasks(tasks, is_completed())
                == tasks.len())
        }),
{
    let ghost tasks = task_views(records@);
    let mut completed: usize = 0;
    let mut failed: usize = 0;
    let mut total_bytes: u64 = 0;
    let mut confirmed_bytes: u64 = 0;
    let mut i: usize = 0;
    assert(tasks.take(0) =~= Seq::<TaskView>::empty());
    while i < records.len()
        invariant
            i <= records@.len(),
            tasks == task_views(records@),
            completed <= i,
            failed <= i,
            completed == count_tasks(tasks.take(i as int), is_completed()),
            failed == count_tasks(tasks.take(i as int), is_failed()),
            total_bytes == capped(sum_total(tasks.take(i as int))),
            confirmed_bytes == capped(sum_confirmed(tasks.take(i as int))),
        decreases records@.len() - i,
    {
        proof {
            assert(tasks.take(i + 1).drop_last() =~= tasks.take(i as int));
            assert(tasks.take(i + 1).last() == records@[i as int]@);
        }
        let record = &records[i];
        if record.state() == TaskState::Completed {
            completed = completed + 1;
        }
        if matches!(record.state(), TaskState::Failed | TaskState::Interrupted) {
            failed = failed + 1;
        }
        let total: u64 = record.manifest_identity().total_bytes();
        total_bytes = total_bytes.saturating_add(total);
        let mut confirmed: u64 = 0;
        if record.state() == TaskState::Completed {
            confirmed = total;
        } else {
            match record.progress_hint() {
                Some(hint) => {
                    confirmed = hint.verified_bytes();
                    if confirmed > total {
                        confirmed = total;
                    }
                },
                None => {},
            }
        }
        confirmed_bytes = confirmed_bytes.saturating_add(confirmed);
        i = i + 1;
    }
    assert(tasks.take(i as int) =~= tasks);
    GroupProgress {
        children: records.len(),
        completed,
        failed,
        total_bytes,
        confirmed_bytes,
        complete: records.len() > 0 && completed == records.len(),
    }
}

/// A group is complete only when every task of it is, and never confirms more bytes
/// than it has.
pub proof fn groups_complete_together(tasks: Seq<TaskView>)
    ensures
        sum_confirmed(tasks) <= sum_total(tasks),
        count_tasks(tasks, is_completed()) <= tasks.len(),
        count_tasks(tasks, is_completed()) == tasks.len() <==> forall|i: int|
            0 <= i < tasks.len() ==> (#[trigger] tasks[i]).state == TaskState::Completed,
    decreases tasks.len(),
{
    if tasks.len() > 0 {
        let front = tasks.drop_last();
        groups_complete_together(front);
        assert(forall|i: int| 0 <= i < front.len() ==> front[i] == #[trigger] tasks[i]);
        if forall|i: int|
            0 <= i < tasks.len() ==> (#[trigger] tasks[i]).state == TaskState::Completed {
            assert forall|i: int| 0 <= i < front.len() implies (#[trigger] front[i]).state
                == TaskState::Completed by {
                assert(tasks[i].state == TaskState::Completed);
            }
            assert(tasks[tasks.len() - 1].state == TaskState::Completed);
        }
        if count_tasks(tasks, is_completed()) == tasks.len() {
            assert forall|i: int| 0 <= i < tasks.len() implies (#[trigger] tasks[i]).state
                == TaskState::Completed by {
                if i < front.len() {
                    assert(front[i].state == TaskState::Completed);
                }
            }
        }
    }
}

/// The rate between two samples is what was confirmed between them, over the time between
/// them.
pub proof fn two_samples_make_a_rate(start_ms: u64, before: u64, now_ms: u64, after: u64)
    requires
        start_ms < now_ms,
        before <= after,
    ensures
        SamplerView::started(start_ms, before).observed(now_ms, after).rate(now_ms, true) == Some(
            ((after - before) as u64, (now_ms - start_ms) as u64),
        ),
{
    let sampler = SamplerView::started(start_ms, before);
    let full = sampler.points.push((now_ms, after));
    assert(full.len() == 2);
    assert(full[0] == (start_ms, before));
}

proof fn lemma_trimmed(points: Seq<(u64, u64)>, cutoff: int)
    ensures
        ({
            let kept = trim_window(points, cutoff);
            &&& kept.len() <= points.len()
            &&& kept == points.skip(points.len() - kept.len())
            &&& kept.len() > 2 ==> kept[1].0 > cutoff
            &&& points.len() >= 2 ==> kept.len() >= 2
            &&& kept.len() < points.len() ==> kept[0].0 <= cutoff
        }),
    decreases points.len(),
{
    if points.len() > 2 && points[1].0 <= cutoff {
        let rest = points.skip(1);
        lemma_trimmed(rest, cutoff);
        let kept = trim_window(points, cutoff);
        assert(kept =~= points.skip(points.len() - kept.len()));
        if kept.len() == rest.len() {
            assert(kept[0] == points[1]);
        }
    } else {
        assert(points.skip(0) =~= points);
    }
}

/// A rate looks back over the window and no further than to the last sample before it: the
/// samples that are kept are the latest ones, the newest among them, and at most the first
/// is older than the window.
pub proof fn rates_look_back_over_the_window(sampler: SamplerView, now_ms: u64, confirmed: u64)
    requires
        sampler.valid(),
        sampler.points.len() > 0,
        now_ms >= sampler.last_ms,
        confirmed >= sampler.latest,
    ensures
        ({
            let after = sampler.observed(now_ms, confirmed);
            &&& after.latest == confirmed
            &&& after.last_ms == now_ms
            &&& after.points.len() > 0
            &&& after.points.last() == (now_ms, confirmed)
            &&& after.points.len() > 2 ==> after.points[1].0 > now_ms - 2000
            &&& forall|k: int|
                0 <= k < after.points.len() - 1 ==> sampler.points.contains(
                    #[trigger] after.points[k],
                )
        }),
{
    let kept = if sampler.points.last().0 == now_ms {
        sampler.points.drop_last()
    } else {
        sampler.points
    };
    let full = kept.push((now_ms, confirmed));
    let cutoff = window_start(now_ms);
    lemma_trimmed(full, cutoff);
    let trimmed = trim_window(full, cutoff);
    let after = sampler.observed(now_ms, confirmed);
    let gone = full.len() - after.points.len();
    assert(after.points =~= full.skip(gone));
    if trimmed.len() > 2 && after.points.len() > 2 {
        assert forall|i: int, j: int| 0 <= i < j < full.len() implies (#[trigger] full[i]).0 < (
        #[trigger] full[j]).0 by {
            if j < kept.len() {
                assert(sampler.points[i].0 < sampler.points[j].0);
            } else if i < sampler.points.len() - 1 {
                assert(sampler.points[i].0 < sampler.points[sampler.points.len() - 1].0);
            }
        }
        let first = full.len() - trimmed.len() + 1;
        assert(full[first] == trimmed[1]);
        if gone + 1 > first {
            assert(full[first].0 < full[gone + 1].0);
        }
    }
    assert forall|k: int| 0 <= k < after.points.len() - 1 implies sampler.points.contains(
        #[trigger] after.points[k],
    ) by {
        assert(sampler.points[gone + k] == after.points[k]);
    }
}

/// A clock or a count that runs backwards starts over, and a transfer that rests or has
/// stalled for the length of the window has no rate.
pub proof fn rates_end_with_the_traffic(
    sampler: SamplerView,
    now_ms: u64,
    confirmed: u64,
    later_ms: u64,
)
    ensures
        now_ms < sampler.last_ms || confirmed < sampler.latest ==> sampler.observed(
            now_ms,
            confirmed,
        ) == SamplerView::started(now_ms, confirmed),
        sampler.rate(later_ms, false) is None,
        later_ms - sampler.last_ms >= 2000 ==> sampler.rate(later_ms, true) is None,
        later_ms < sampler.last_ms ==> sampler.rate(later_ms, true) is None,
        sampler.points.len() > 0 && sampler.points[0].0 < later_ms && sampler.last_ms <= later_ms
            < sampler.last_ms + 2000 && sampler.points[0].1 <= sampler.latest ==> sampler.rate(
            later_ms,
            true,
        ) == Some(
            (
                (sampler.latest - sampler.points[0].1) as u64,
                (later_ms - sampler.points[0].0) as u64,
            ),
        ),
{
}

/// A selection adds up: each task counts once, with its bytes, with those of them that are
/// confirmed, and as complete, as failed, or as neither.
pub proof fn selections_add_up(tasks: Seq<TaskView>, task: TaskView)
    ensures
        ({
            let more = tasks.push(task);
            let total = task.manifest_identity.total_bytes;
            &&& sum_total(more) == sum_total(tasks) + total
            &&& sum_confirmed(more) - sum_confirmed(tasks) <= total
            &&& task.state == TaskState::Completed ==> sum_confirmed(more) == sum_confirmed(tasks)
                + total
            &&& task.state != TaskState::Completed ==> sum_confirmed(more) == sum_confirmed(tasks)
                + match task.progress_hint {
                None => 0,
                Some(hint) => if hint.verified_bytes <= total {
                    hint.verified_bytes as int
                } else {
                    total as int
                },
            }
            &&& count_tasks(more, is_completed()) == count_tasks(tasks, is_completed()) + if task.state
                == TaskState::Completed {
                1int
            } else {
                0int
            }
            &&& count_tasks(more, is_failed()) == count_tasks(tasks, is_failed()) + if task.state
                == TaskState::Failed || task.state == TaskState::Interrupted {
                1int
            } else {
                0int
            }
        }),
        sum_total(Seq::empty()) == 0,
        sum_confirmed(Seq::empty()) == 0,
        count_tasks(Seq::empty(), is_completed()) == 0,
        count_tasks(Seq::empty(), is_failed()) == 0,
{
    assert(tasks.push(task).drop_last() =~= tasks);
}

/// A sum that fits is shown as it is.
pub proof fn sums_that_fit_are_exact(sum: nat)
    ensures
        sum <= 18446744073709551615 ==> capped(sum) == sum,
        sum > 18446744073709551615 ==> capped(sum) == 18446744073709551615,
{
}

} // verus!
