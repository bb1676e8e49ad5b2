//! Bounded, in-process task events for presentation.
//!
//! Events hold only task IDs, times, lifecycle states and fixed kinds. They
//! never copy paths, raw errors or transfer contents.

use vstd::prelude::*;

use crate::lists::{first_index, lemma_first_index, lemma_is_first_index};
use crate::task_model::{TaskId, TaskState};

verus! {

/// The most events that wait for a reader.
pub const MAX_PENDING_EVENTS: usize = 256;

/// What happened to a task.
#[derive(Clone, Copy, Debug, PartialEq, Eq, Structural)]
pub enum TaskEventKind {
    Created,
    StateChanged { from: TaskState, to: TaskState },
    RecoveredAfterRestart,
    ProgressHintChanged,
}

/// An event, as mathematical values.
pub struct EventView {
    pub task_id: Seq<char>,
    pub at: i64,
    pub kind: TaskEventKind,
}

/// One event.
#[derive(Debug)]
pub struct TaskEvent {
    task_id: TaskId,
    at_unix_ms: i64,
    kind: TaskEventKind,
}

impl View for TaskEvent {
    type V = EventView;

    closed spec fn view(&self) -> EventView {
        EventView { task_id: self.task_id@, at: self.at_unix_ms, kind: self.kind }
    }
}

impl TaskEvent {
    /// One event.
    pub fn new(task_id: TaskId, at_unix_ms: i64, kind: TaskEventKind) -> (event: TaskEvent)
        ensures
            event@ == (EventView { task_id: task_id@, at: at_unix_ms, kind }),
    {
        TaskEvent { task_id, at_unix_ms, kind }
    }

    /// The task.
    pub fn task_id(&self) -> (id: &TaskId)
        ensures
            id@ == self@.task_id,
    {
        &self.task_id
    }

    /// When it happened.
    pub fn at_unix_ms(&self) -> (time: i64)
        ensures
            time == self@.at,
    {
        self.at_unix_ms
    }

    /// What happened.
    pub fn kind(&self) -> (kind: TaskEventKind)
        ensures
            kind == self@.kind,
    {
        self.kind
    }
}

/// The waiting events and whether some were lost.
pub struct EventsView {
    pub events: Seq<EventView>,
    pub resync_required: bool,
}

/// The views of some events.
pub open spec fn event_views(events: Seq<TaskEvent>) -> Seq<EventView> {
    events.map_values(|event: TaskEvent| event@)
}

/// Whether an event reports progress of the named task.
pub open spec fn progress_of(task_id: Seq<char>) -> spec_fn(EventView) -> bool {
    |event: EventView|
        event.task_id == task_id && event.kind == TaskEventKind::ProgressHintChanged
}

/// Where any progress event waits.
pub open spec fn any_progress() -> spec_fn(EventView) -> bool {
    |event: EventView| event.kind == TaskEventKind::ProgressHintChanged
}

impl EventsView {
    /// Nothing waits.
    pub open spec fn empty() -> EventsView {
        EventsView { events: Seq::empty(), resync_required: false }
    }

    /// The buffer after one more event. Progress of a task replaces its earlier
    /// progress and never pushes anything out; any other event makes room by dropping
    /// the oldest progress, and where there is none, the oldest event, which is said.
    pub open spec fn pushed(self, event: EventView) -> EventsView {
        let same = first_index(self.events, progress_of(event.task_id));
        let progress = first_index(self.events, any_progress());
        let full = self.events.len() == MAX_PENDING_EVENTS;
        if event.kind == TaskEventKind::ProgressHintChanged && same < self.events.len() {
            EventsView { events: self.events.update(same, event), ..self }
        } else if event.kind == TaskEventKind::ProgressHintChanged && full {
            self
        } else if full && progress < self.events.len() {
            EventsView { events: self.events.remove(progress).push(event), ..self }
        } else if full {
            EventsView { events: self.events.remove(0).push(event), resync_required: true }
        } else {
            EventsView { events: self.events.push(event), ..self }
        }
    }

    /// The buffer never holds more than it may.
    pub open spec fn bounded(self) -> bool {
        self.events.len() <= MAX_PENDING_EVENTS
    }
}

/// A bounded queue of events for one reader.
#[derive(Debug)]
pub struct TaskEventBuffer {
    events: Vec<TaskEvent>,
    resync_required: bool,
}

impl View for TaskEventBuffer {
    type V = EventsView;

    closed spec fn view(&self) -> EventsView {
        EventsView { events: event_views(self.events@), resync_required: self.resync_required }
    }
}

impl Default for TaskEventBuffer {
    fn default() -> (buffer: TaskEventBuffer)
        ensures
            buffer@ == EventsView::empty(),
    {
        let buffer = TaskEventBuffer { events: Vec::new(), resync_required: false };
        assert(buffer@.events =~= Seq::<EventView>::empty());
        buffer
    }
}

impl TaskEventBuffer {
    fn position_of_progress(&self, task: Option<&TaskId>) -> (at: usize)
        ensures
            task matches Some(id) ==> at == first_index(self@.events, progress_of(id@)),
            task is None ==> at == first_index(self@.events, any_progress()),
    {
        let ghost wanted = match task {
            Some(id) => progress_of(id@),
            None => any_progress(),
        };
        let mut i: usize = 0;
        while i < self.events.len()
            invariant
                i <= self.events@.len(),
                self@.events.len() == self.events@.len(),
                forall|k: int|
                    0 <= k < self.events@.len() ==> #[trigger] self@.events[k] == self.events@[k]@,
                wanted == match task {
                    Some(id) => progress_of(id@),
                    None => any_progress(),
                },
                forall|k: int| 0 <= k < i ==> !wanted(#[trigger] self@.events[k]),
            decreases self.events@.len() - i,
        {
            let same = match task {
                Some(id) => self.events[i].task_id.same(id),
                None => true,
            };
            if same && self.events[i].kind == TaskEventKind::ProgressHintChanged {
                proof {
                    assert(wanted(self@.events[i as int]));
                    lemma_is_first_index(self@.events, wanted, i as int);
                }
                return i;
            }
            assert(!wanted(self@.events[i as int]));
            i = i + 1;
        }
        proof {
            lemma_is_first_index(self@.events, wanted, i as int);
        }
        i
    }

    /// Adds an event within the bound.
    pub fn push(&mut self, event: TaskEvent)
        requires
            old(self)@.bounded(),
        ensures
            final(self)@ == old(self)@.pushed(event@),
            final(self)@.bounded(),
    {
        let ghost before = self@;
        let ghost added = event@;
        proof {
            lemma_first_index(self@.events, any_progress());
            lemma_first_index(self@.events, progress_of(event@.task_id));
        }
        if event.kind == TaskEventKind::ProgressHintChanged {
            let at: usize = self.position_of_progress(Some(&event.task_id));
            if at < self.events.len() {
                self.events.set(at, event);
                assert(self@.events =~= before.events.update(at as int, added));
                return;
            }
            if self.events.len() == MAX_PENDING_EVENTS {
                return;
            }
        }
        if self.events.len() == MAX_PENDING_EVENTS {
            let at: usize = self.position_of_progress(None);
            if at < self.events.len() {
                let _ = self.events.remove(at);
                assert(self@.events =~= before.events.remove(at as int));
            } else {
                let _ = self.events.remove(0);
                assert(self@.events =~= before.events.remove(0));
                self.resync_required = true;
            }
        }
        let ghost middle = self@;
        self.events.push(event);
        assert(self@.events =~= middle.events.push(added));
    }

    /// Whether events were lost since the last call.
    pub fn take_resync_required(&mut self) -> (required: bool)
        ensures
            required == old(self)@.resync_required,
            final(self)@ == (EventsView { resync_required: false, ..old(self)@ }),
    {
        let required = self.resync_required;
        self.resync_required = false;
        required
    }

    /// Hands out all waiting events, oldest first.
    pub fn drain(&mut self) -> (events: Vec<TaskEvent>)
        ensures
            event_views(events@) == old(self)@.events,
            final(self)@ == (EventsView { events: Seq::empty(), ..old(self)@ }),
    {
        let mut events: Vec<TaskEvent> = Vec::new();
        std::mem::swap(&mut events, &mut self.events);
        assert(self@.events =~= Seq::<EventView>::empty());
        events
    }

    /// Adds an event within the bound.
    pub fn record(&mut self, task_id: TaskId, at_unix_ms: i64, kind: TaskEventKind)
        requires
            old(self)@.bounded(),
        ensures
            final(self)@ == old(self)@.pushed(
                EventView { task_id: task_id@, at: at_unix_ms, kind },
            ),
            final(self)@.bounded(),
    {
        self.push(TaskEvent { task_id, at_unix_ms, kind });
    }

    /// How many events wait.
    pub fn len(&self) -> (count: usize)
        ensures
            count == self@.events.len(),
    {
        self.events.len()
    }
}

/// Progress never removes another event and never asks for a new snapshot.
pub proof fn progress_never_evicts(buffer: EventsView, event: EventView, index: int)
    requires
        buffer.bounded(),
        event.kind == TaskEventKind::ProgressHintChanged,
        0 <= index < buffer.events.len(),
        buffer.events[index].kind != TaskEventKind::ProgressHintChanged,
    ensures
        buffer.pushed(event).events.contains(buffer.events[index]),
        buffer.pushed(event).resync_required == buffer.resync_required,
{
    lemma_first_index(buffer.events, progress_of(event.task_id));
    lemma_first_index(buffer.events, any_progress());
    assert(buffer.pushed(event).events[index] == buffer.events[index]);
}

/// A lifecycle event is always kept, and where another one is lost for it, a new
/// snapshot is asked for.
pub proof fn lost_lifecycle_events_are_announced(buffer: EventsView, event: EventView, index: int)
    requires
        buffer.bounded(),
        event.kind != TaskEventKind::ProgressHintChanged,
        0 <= index < buffer.events.len(),
        buffer.events[index].kind != TaskEventKind::ProgressHintChanged,
    ensures
        buffer.pushed(event).events.last() == event,
        buffer.pushed(event).events.contains(buffer.events[index]) || buffer.pushed(
            event,
        ).resync_required,
{
    lemma_first_index(buffer.events, progress_of(event.task_id));
    lemma_first_index(buffer.events, any_progress());
    let after = buffer.pushed(event);
    let progress = first_index(buffer.events, any_progress());
    if buffer.events.len() < MAX_PENDING_EVENTS {
        assert(after.events[index] == buffer.events[index]);
    } else if progress < buffer.events.len() {
        if index < progress {
            assert(after.events[index] == buffer.events[index]);
        } else {
            assert(after.events[index - 1] == buffer.events[index]);
        }
    }
}

/// A task has at most one waiting progress event.
pub open spec fn progress_is_coalesced(buffer: EventsView) -> bool {
    forall|i: int, j: int|
        0 <= i < j < buffer.events.len() && (#[trigger] buffer.events[i]).kind
            == TaskEventKind::ProgressHintChanged && (#[trigger] buffer.events[j]).kind
            == TaskEventKind::ProgressHintChanged ==> buffer.events[i].task_id
            != buffer.events[j].task_id
}

/// Every event keeps the progress of each task in one place.
pub proof fn pushing_keeps_progress_coalesced(buffer: EventsView, event: EventView)
    requires
        buffer.bounded(),
        progress_is_coalesced(buffer),
    ensures
        progress_is_coalesced(buffer.pushed(event)),
{
    lemma_first_index(buffer.events, progress_of(event.task_id));
    lemma_first_index(buffer.events, any_progress());
    let same = first_index(buffer.events, progress_of(event.task_id));
    let after = buffer.pushed(event);
    assert forall|i: int, j: int|
        0 <= i < j < after.events.len() && (#[trigger] after.events[i]).kind
            == TaskEventKind::ProgressHintChanged && (#[trigger] after.events[j]).kind
            == TaskEventKind::ProgressHintChanged implies after.events[i].task_id
        != after.events[j].task_id by {
        if event.kind == TaskEventKind::ProgressHintChanged {
            if same < buffer.events.len() {
                assert(buffer.events[i].task_id != buffer.events[j].task_id);
            } else if j == buffer.events.len() {
                assert(!progress_of(event.task_id)(buffer.events[i]));
            }
        } else if buffer.events.len() == MAX_PENDING_EVENTS {
            let gone = if first_index(buffer.events, any_progress()) < buffer.events.len() {
                first_index(buffer.events, any_progress())
            } else {
                0
            };
            let a = if i < gone {
                i
            } else {
                i + 1
            };
            let b = if j < gone {
                j
            } else {
                j + 1
            };
            if j < after.events.len() - 1 {
                assert(after.events[i] == buffer.events[a]);
                assert(after.events[j] == buffer.events[b]);
            }
        }
    }
}

/// As long as there is room, every event is kept with all that wait, and nothing is said
/// to be lost.
pub proof fn events_are_kept_while_there_is_room(buffer: EventsView, event: EventView)
    requires
        buffer.events.len() < MAX_PENDING_EVENTS,
        event.kind != TaskEventKind::ProgressHintChanged,
    ensures
        buffer.pushed(event).events == buffer.events.push(event),
        buffer.pushed(event).resync_required == buffer.resync_required,
{
}

/// The progress of a task takes the place of its earlier progress, or the last place while
/// there is room; where there is none it is left out, and nothing else changes.
pub proof fn progress_is_kept_once(buffer: EventsView, event: EventView, at: int)
    requires
        buffer.bounded(),
        event.kind == TaskEventKind::ProgressHintChanged,
        progress_is_coalesced(buffer),
        0 <= at < buffer.events.len(),
    ensures
        ({
            let after = buffer.pushed(event);
            let old = buffer.events[at];
            let same = old.kind == TaskEventKind::ProgressHintChanged && old.task_id
                == event.task_id;
            &&& same ==> after.events == buffer.events.update(at, event)
            &&& (forall|k: int|
                0 <= k < buffer.events.len() ==> !((#[trigger] buffer.events[k]).kind
                    == TaskEventKind::ProgressHintChanged && buffer.events[k].task_id
                    == event.task_id)) ==> after.events == (if buffer.events.len() < 256 {
                buffer.events.push(event)
            } else {
                buffer.events
            })
            &&& after.resync_required == buffer.resync_required
        }),
{
    lemma_first_index(buffer.events, progress_of(event.task_id));
    let same = first_index(buffer.events, progress_of(event.task_id));
    let old = buffer.events[at];
    if old.kind == TaskEventKind::ProgressHintChanged && old.task_id == event.task_id {
        assert(progress_of(event.task_id)(buffer.events[at]));
        assert(same <= at);
        assert(progress_of(event.task_id)(buffer.events[same]));
        assert(same == at);
    }
    if same < buffer.events.len() {
        assert(progress_of(event.task_id)(buffer.events[same]));
    }
}

/// A full buffer gives up its oldest progress before anything else, and only without any
/// progress its oldest event, which is the one case in which something is said to be lost.
pub proof fn full_buffers_give_up_progress_first(
    buffer: EventsView,
    event: EventView,
    at: int,
)
    requires
        buffer.events.len() == MAX_PENDING_EVENTS,
        event.kind != TaskEventKind::ProgressHintChanged,
        0 <= at < buffer.events.len(),
        forall|k: int|
            0 <= k < at ==> (#[trigger] buffer.events[k]).kind
                != TaskEventKind::ProgressHintChanged,
    ensures
        buffer.events[at].kind == TaskEventKind::ProgressHintChanged ==> buffer.pushed(event)
            == (EventsView { events: buffer.events.remove(at).push(event), ..buffer }),
        buffer.events[at].kind != TaskEventKind::ProgressHintChanged && at == buffer.events.len()
            - 1 ==> buffer.pushed(event) == (EventsView {
            events: buffer.events.remove(0).push(event),
            resync_required: true,
        }),
{
    lemma_first_index(buffer.events, any_progress());
    let progress = first_index(buffer.events, any_progress());
    if buffer.events[at].kind == TaskEventKind::ProgressHintChanged {
        assert(any_progress()(buffer.events[at]));
        assert(progress <= at);
        assert(any_progress()(buffer.events[progress]));
        assert(progress == at);
    } else if at == buffer.events.len() - 1 {
        if progress < buffer.events.len() {
            assert(any_progress()(buffer.events[progress]));
        }
    }
}

/// A buffer begins empty, with nothing missed.
pub proof fn buffers_begin_complete()
    ensures
        EventsView::empty().events.len() == 0,
        !EventsView::empty().resync_required,
{
}

} // verus!
