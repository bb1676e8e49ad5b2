//! A long-lived network session, as a machine: what arrives from the user, the signal
//! server, peers and the clock gives the steps to be done.

use vstd::prelude::*;

use crate::error::{decided, failure, Error, Result};
use crate::identity::{random_number, NodeId};
use crate::lists::{distinct, first_index, lemma_first_index, lemma_is_first_index};
use crate::network_state::{
    delay_ms, listed, listings_hold_what_is_wanted, reconnect_delay, record_active,
    record_expired, record_of, record_waiting, should_initiate_quic, short_name,
    BeginPeerAttempt, Delay, LifecycleView, NetworkLifecycle, PeerLifecycle, PeerRegistry,
    PeerStateView, RecordView, RegistryView, MAX_PENDING_PEERS,
};
use crate::task_model::TaskDirection;
use crate::text::{decimal, decimal_text, join_text};

verus! {

/// How many commands may wait.
pub const COMMAND_CAPACITY: usize = 64;

/// How many events may wait.
pub const EVENT_CAPACITY: usize = 128;

/// How many inputs may wait.
pub const SESSION_INPUT_CAPACITY: usize = 64;

/// How many addresses of a peer are tried.
pub const MAX_CANDIDATES: usize = 16;

/// How often every address of a peer is tried.
pub const PUNCH_ATTEMPTS: u32 = 30;

/// How long to wait for an answer between two tries, in milliseconds.
pub const PUNCH_INTERVAL_MS: u64 = 200;

/// How many selections may wait or run.
pub const MAX_SELECTION_JOBS: usize = 64;

/// How many continuations may run.
pub const MAX_CONTINUATION_JOBS: usize = 3;

/// Whether the outcome of a connection to the signal server still counts.
pub fn is_current_signal_generation(current: u64, result_generation: u64) -> (is_current: bool)
    ensures
        is_current == (current == result_generation),
{
    current == result_generation
}

/// What a session starts with.
#[derive(Debug, PartialEq, Eq)]
pub struct DesktopSessionConfig {
    pub signal_server: String,
}

impl DesktopSessionConfig {
    /// A session with a signal server.
    pub fn new(signal_server: &str) -> (config: DesktopSessionConfig)
        ensures
            config.signal_server@ == signal_server@,
    {
        DesktopSessionConfig { signal_server: signal_server.to_owned() }
    }
}

/// What a session tells its user.
#[derive(Debug, PartialEq, Eq)]
pub enum SessionEvent {
    Lifecycle(NetworkLifecycle),
    PeerState { peer: NodeId, generation: u64, state: PeerLifecycle },
    SignalIdentityRegistered(NodeId),
    Diagnostic(String),
}

/// What a session tells its user, as mathematical values.
pub enum SessionEventView {
    Lifecycle(LifecycleView),
    PeerState { peer: NodeId, generation: u64, state: PeerStateView },
    SignalIdentityRegistered(NodeId),
    Diagnostic(Seq<char>),
}

impl View for SessionEvent {
    type V = SessionEventView;

    open spec fn view(&self) -> SessionEventView {
        match *self {
            SessionEvent::Lifecycle(lifecycle) => SessionEventView::Lifecycle(lifecycle@),
            SessionEvent::PeerState { peer, generation, state } => SessionEventView::PeerState {
                peer,
                generation,
                state: state@,
            },
            SessionEvent::SignalIdentityRegistered(
                node,
            ) => SessionEventView::SignalIdentityRegistered(node),
            SessionEvent::Diagnostic(text) => SessionEventView::Diagnostic(text@),
        }
    }
}

/// A step of a session.
#[derive(Debug, PartialEq, Eq)]
#[allow(inconsistent_fields)]
pub enum SessionAction {
    Emit(SessionEvent),
    RetryLater { delay: Delay, detail: String },
    RequestLookup { peer: NodeId, generation: u64 },
    ConnectSignal { generation: u64 },
    DropSignal,
    AbortConnect,
    AbortPeerTasks,
    InterruptTransfers,
    CloseConnections,
    CloseDuplicate,
    CloseStale,
    StartAttempt { peer: NodeId, generation: u64 },
    ServePeer { peer: NodeId, generation: u64 },
}

/// A step of a session, as mathematical values.
#[allow(inconsistent_fields)]
pub enum SessionActionView {
    Emit(SessionEventView),
    RetryLater { delay: Delay, detail: Seq<char> },
    RequestLookup { peer: NodeId, generation: u64 },
    ConnectSignal { generation: u64 },
    DropSignal,
    AbortConnect,
    AbortPeerTasks,
    InterruptTransfers,
    CloseConnections,
    CloseDuplicate,
    CloseStale,
    StartAttempt { peer: NodeId, generation: u64 },
    ServePeer { peer: NodeId, generation: u64 },
}

impl View for SessionAction {
    type V = SessionActionView;

    open spec fn view(&self) -> SessionActionView {
        match *self {
            SessionAction::Emit(event) => SessionActionView::Emit(event@),
            SessionAction::RetryLater { delay, detail } => SessionActionView::RetryLater {
                delay,
                detail: detail@,
            },
            SessionAction::RequestLookup { peer, generation } => SessionActionView::RequestLookup {
                peer,
                generation,
            },
            SessionAction::ConnectSignal { generation } => SessionActionView::ConnectSignal {
                generation,
            },
            SessionAction::DropSignal => SessionActionView::DropSignal,
            SessionAction::AbortConnect => SessionActionView::AbortConnect,
            SessionAction::AbortPeerTasks => SessionActionView::AbortPeerTasks,
            SessionAction::InterruptTransfers => SessionActionView::InterruptTransfers,
            SessionAction::CloseConnections => SessionActionView::CloseConnections,
            SessionAction::CloseDuplicate => SessionActionView::CloseDuplicate,
            SessionAction::CloseStale => SessionActionView::CloseStale,
            SessionAction::StartAttempt { peer, generation } => SessionActionView::StartAttempt {
                peer,
                generation,
            },
            SessionAction::ServePeer { peer, generation } => SessionActionView::ServePeer {
                peer,
                generation,
            },
        }
    }
}

/// The views of some steps.
pub open spec fn action_views(actions: Seq<SessionAction>) -> Seq<SessionActionView> {
    actions.map_values(|action: SessionAction| action@)
}

/// The step that tells of a message.
pub open spec fn says(text: Seq<char>) -> SessionActionView {
    SessionActionView::Emit(SessionEventView::Diagnostic(text))
}

/// The step that tells of the session as a whole.
pub open spec fn lifecycle(state: LifecycleView) -> SessionActionView {
    SessionActionView::Emit(SessionEventView::Lifecycle(state))
}

/// The step that tells of a peer.
pub open spec fn peer_state(
    peer: NodeId,
    generation: u64,
    state: PeerStateView,
) -> SessionActionView {
    SessionActionView::Emit(SessionEventView::PeerState { peer, generation, state })
}

fn push_action(actions: &mut Vec<SessionAction>, action: SessionAction)
    ensures
        action_views(final(actions)@) == action_views(old(actions)@).push(action@),
{
    let ghost before = actions@;
    actions.push(action);
    assert(action_views(actions@) =~= action_views(before).push(action@));
}

fn say(actions: &mut Vec<SessionAction>, text: String)
    ensures
        action_views(final(actions)@) == action_views(old(actions)@).push(says(text@)),
{
    push_action(actions, SessionAction::Emit(SessionEvent::Diagnostic(text)));
}

fn tell(actions: &mut Vec<SessionAction>, state: NetworkLifecycle)
    ensures
        action_views(final(actions)@) == action_views(old(actions)@).push(lifecycle(state@)),
{
    push_action(actions, SessionAction::Emit(SessionEvent::Lifecycle(state)));
}

fn tell_peer(actions: &mut Vec<SessionAction>, peer: NodeId, generation: u64, state: PeerLifecycle)
    ensures
        action_views(final(actions)@) == action_views(old(actions)@).push(
            peer_state(peer, generation, state@),
        ),
{
    push_action(
        actions,
        SessionAction::Emit(SessionEvent::PeerState { peer, generation, state }),
    );
}

/// A list without every occurrence of a pair.
pub open spec fn dropped(list: Seq<(NodeId, u64)>, pair: (NodeId, u64)) -> Seq<(NodeId, u64)>
    decreases list.len(),
{
    if list.len() == 0 {
        Seq::empty()
    } else if list.last() == pair {
        dropped(list.drop_last(), pair)
    } else {
        dropped(list.drop_last(), pair).push(list.last())
    }
}

fn drop_pair(list: &Vec<(NodeId, u64)>, peer: NodeId, generation: u64) -> (rest: Vec<(NodeId, u64)>)
    ensures
        rest@ == dropped(list@, (peer, generation)),
{
    let mut rest: Vec<(NodeId, u64)> = Vec::new();
    let mut i: usize = 0;
    assert(list@.take(0) =~= Seq::<(NodeId, u64)>::empty());
    while i < list.len()
        invariant
            i <= list@.len(),
            rest@ == dropped(list@.take(i as int), (peer, generation)),
        decreases list@.len() - i,
    {
        assert(list@.take(i + 1).drop_last() =~= list@.take(i as int));
        assert(list@.take(i + 1).last() == list@[i as int]);
        let (other, other_generation) = list[i];
        if other == peer && other_generation == generation {
        } else {
            rest.push((other, other_generation));
        }
        i = i + 1;
    }
    assert(list@.take(i as int) =~= list@);
    rest
}

fn has_pair(list: &Vec<(NodeId, u64)>, peer: NodeId, generation: u64) -> (found: bool)
    ensures
        found == list@.contains((peer, generation)),
{
    let mut i: usize = 0;
    while i < list.len()
        invariant
            i <= list@.len(),
            forall|k: int| 0 <= k < i ==> list@[k] != (peer, generation),
        decreases list@.len() - i,
    {
        let (other, other_generation) = list[i];
        if other == peer && other_generation == generation {
            assert(list@[i as int] == (peer, generation));
            return true;
        }
        i = i + 1;
    }
    false
}

/// A list without the entry of a peer, whatever its generation.
pub open spec fn without_peer(list: Seq<(NodeId, u64)>, peer: NodeId) -> Seq<(NodeId, u64)>
    decreases list.len(),
{
    if list.len() == 0 {
        Seq::empty()
    } else if list.last().0 == peer {
        without_peer(list.drop_last(), peer)
    } else {
        without_peer(list.drop_last(), peer).push(list.last())
    }
}

fn drop_peer(list: &Vec<(NodeId, u64)>, peer: NodeId) -> (rest: Vec<(NodeId, u64)>)
    ensures
        rest@ == without_peer(list@, peer),
{
    let mut rest: Vec<(NodeId, u64)> = Vec::new();
    let mut i: usize = 0;
    assert(list@.take(0) =~= Seq::<(NodeId, u64)>::empty());
    while i < list.len()
        invariant
            i <= list@.len(),
            rest@ == without_peer(list@.take(i as int), peer),
        decreases list@.len() - i,
    {
        assert(list@.take(i + 1).drop_last() =~= list@.take(i as int));
        assert(list@.take(i + 1).last() == list@[i as int]);
        let (other, other_generation) = list[i];
        if other != peer {
            rest.push((other, other_generation));
        }
        i = i + 1;
    }
    assert(list@.take(i as int) =~= list@);
    rest
}

/// A list with every peer that still waits, each once.
pub open spec fn enqueued(
    queue: Seq<(NodeId, u64)>,
    waiting: Seq<(NodeId, u64)>,
    count: nat,
) -> Seq<(NodeId, u64)>
    decreases count,
{
    if count == 0 {
        queue
    } else {
        let before = enqueued(queue, waiting, (count - 1) as nat);
        if before.contains(waiting[count - 1]) {
            before
        } else {
            before.push(waiting[count - 1])
        }
    }
}

/// Adds every peer that still waits for an answer to the lookups to be sent.
pub fn enqueue_pending_lookups(peers: &PeerRegistry, queue: &mut Vec<(NodeId, u64)>)
    ensures
        ({
            let waiting = listed(peers@.peers, record_waiting());
            final(queue)@ == enqueued(old(queue)@, waiting, waiting.len())
        }),
{
    let waiting = peers.pending_peers();
    let mut i: usize = 0;
    while i < waiting.len()
        invariant
            i <= waiting@.len(),
            waiting@ == listed(peers@.peers, record_waiting()),
            queue@ == enqueued(old(queue)@, waiting@, i as nat),
        decreases waiting@.len() - i,
    {
        let (peer, generation) = waiting[i];
        if !has_pair(queue, peer, generation) {
            queue.push((peer, generation));
        }
        i = i + 1;
    }
}

/// A session, as mathematical values.
pub struct SessionView {
    pub local: NodeId,
    pub server: Seq<char>,
    pub generation: u64,
    pub online: bool,
    pub attempt: u32,
    pub retrying: bool,
    pub registry: RegistryView,
    pub connections: Seq<(NodeId, u64)>,
    pub inbound: Seq<(NodeId, u64)>,
    pub lookups: Seq<(NodeId, u64)>,
    pub authenticating: nat,
}

/// A session.
#[derive(Debug)]
pub struct Session {
    local: NodeId,
    server: String,
    generation: u64,
    online: bool,
    attempt: u32,
    retrying: bool,
    registry: PeerRegistry,
    connections: Vec<(NodeId, u64)>,
    inbound: Vec<(NodeId, u64)>,
    lookups: Vec<(NodeId, u64)>,
    authenticating: usize,
}

impl View for Session {
    type V = SessionView;

    closed spec fn view(&self) -> SessionView {
        SessionView {
            local: self.local,
            server: self.server@,
            generation: self.generation,
            online: self.online,
            attempt: self.attempt,
            retrying: self.retrying,
            registry: self.registry@,
            connections: self.connections@,
            inbound: self.inbound@,
            lookups: self.lookups@,
            authenticating: self.authenticating as nat,
        }
    }
}

/// One more, or the largest value.
pub open spec fn saturated_next(value: u32) -> u32 {
    if value == u32::MAX {
        u32::MAX
    } else {
        (value + 1) as u32
    }
}

impl SessionView {
    /// The registry is sound and no more attempts run than allowed.
    pub open spec fn valid(self) -> bool {
        self.registry.valid() && self.authenticating <= MAX_PENDING_PEERS
    }

    /// Whether a peer is known and still waits for an answer.
    pub open spec fn is_waiting(self, peer: NodeId) -> bool {
        self.registry.knows(peer) && self.registry.record(peer).state is PeerPending
    }

    /// Whether a generation is the present one of a peer.
    pub open spec fn is_current(self, peer: NodeId, generation: u64) -> bool {
        self.registry.knows(peer) && self.registry.record(peer).generation == generation
    }

    /// The session with another state of a peer.
    pub open spec fn reported(
        self,
        peer: NodeId,
        generation: u64,
        state: PeerStateView,
    ) -> SessionView {
        SessionView { registry: self.registry.reported(peer, generation, state), ..self }
    }

    /// A connection to the signal server will be tried again.
    pub open spec fn retry_later(self, detail: Seq<char>, jitter: i32) -> (
        SessionView,
        Seq<SessionActionView>,
    ) {
        let delay = Delay { millis: delay_ms(self.attempt, jitter) as u64 };
        (
            SessionView { attempt: saturated_next(self.attempt), retrying: true, ..self },
            seq![
                SessionActionView::RetryLater { delay, detail },
                lifecycle(
                    LifecycleView::ReconnectingSignal {
                        attempt: saturated_next(self.attempt),
                        delay,
                    },
                ),
            ],
        )
    }

    /// The user wants to connect a peer.
    pub open spec fn connect_peer(self, peer: NodeId, now_ms: u64) -> (
        SessionView,
        Seq<SessionActionView>,
    ) {
        if peer == self.local {
            (self, seq![says("不能连接本机 Node ID"@)])
        } else {
            match self.registry.attempt(peer) {
                BeginPeerAttempt::Started(generation) => {
                    let known = SessionView {
                        registry: self.registry.started(peer, now_ms),
                        ..self
                    };
                    let told = seq![
                        peer_state(peer, generation, PeerStateView::PeerPending),
                        lifecycle(LifecycleView::PeerPending { peer }),
                    ];
                    if self.online {
                        (known, told.push(SessionActionView::RequestLookup { peer, generation }))
                    } else {
                        (
                            SessionView { lookups: self.lookups.push((peer, generation)), ..known },
                            told,
                        )
                    }
                },
                BeginPeerAttempt::AlreadyActive(_) => (
                    self,
                    seq![
                        says(
                            "已存在对端 "@ + short_name(peer) + " 的连接请求，忽略重复点击"@,
                        ),
                    ],
                ),
                BeginPeerAttempt::AtCapacity => (self, seq![says("待连接对端已达资源上限"@)]),
            }
        }
    }

    /// A lookup could not be sent.
    pub open spec fn lookup_failed(
        self,
        peer: NodeId,
        generation: u64,
        at_front: bool,
        detail: Seq<char>,
        jitter: i32,
    ) -> (SessionView, Seq<SessionActionView>) {
        let queued = SessionView {
            online: false,
            lookups: if at_front {
                seq![(peer, generation)] + self.lookups
            } else {
                self.lookups.push((peer, generation))
            },
            ..self
        };
        let (after, actions) = queued.retry_later(detail, jitter);
        (after, seq![SessionActionView::DropSignal] + actions)
    }

    /// Some peers failed for one reason; a report that does not count is left out.
    pub open spec fn failing(
        self,
        peers: Seq<(NodeId, u64)>,
        detail: Seq<char>,
        forget: bool,
        count: nat,
    ) -> (SessionView, Seq<SessionActionView>)
        decreases count,
    {
        if count == 0 {
            (self, Seq::empty())
        } else {
            let (before, actions) = self.failing(peers, detail, forget, (count - 1) as nat);
            let (peer, generation) = peers[count - 1];
            if before.registry.accepts(peer, generation) {
                let after = before.reported(peer, generation, PeerStateView::Failed(detail));
                (
                    SessionView {
                        lookups: if forget {
                            dropped(after.lookups, (peer, generation))
                        } else {
                            after.lookups
                        },
                        ..after
                    },
                    actions.push(peer_state(peer, generation, PeerStateView::Failed(detail))),
                )
            } else {
                (before, actions)
            }
        }
    }

    /// The user chose another signal server: everything of the old one ends.
    pub open spec fn reconfigured(self, server: Seq<char>) -> (
        SessionView,
        Seq<SessionActionView>,
    ) {
        let generation = if self.generation == u64::MAX {
            0
        } else {
            (self.generation + 1) as u64
        };
        let cleared = SessionView {
            server,
            generation,
            inbound: Seq::empty(),
            lookups: Seq::empty(),
            connections: Seq::empty(),
            authenticating: 0,
            ..self
        };
        let active = listed(self.registry.peers, record_active());
        let (failed, told) = cleared.failing(
            active,
            "网络配置已更改，请重新连接"@,
            false,
            active.len(),
        );
        (
            SessionView { online: false, retrying: false, attempt: 0, ..failed },
            seq![
                SessionActionView::AbortPeerTasks,
                SessionActionView::InterruptTransfers,
                SessionActionView::CloseConnections,
            ] + told + seq![
                SessionActionView::DropSignal,
                SessionActionView::AbortConnect,
                lifecycle(LifecycleView::ConnectingSignal),
                SessionActionView::ConnectSignal { generation },
            ],
        )
    }

    /// The signal server says that a peer is not there yet.
    pub open spec fn peer_pending(self, peer: NodeId) -> Seq<SessionActionView> {
        if self.is_waiting(peer) {
            seq![
                peer_state(
                    peer,
                    self.registry.record(peer).generation,
                    PeerStateView::PeerPending,
                ),
                lifecycle(LifecycleView::PeerPending { peer }),
            ]
        } else {
            Seq::empty()
        }
    }

    /// A connection to a peer starts with the addresses that can be reached.
    pub open spec fn attempt_with(self, peer: NodeId, generation: u64, reachable: usize) -> (
        SessionView,
        Seq<SessionActionView>,
    ) {
        if self.authenticating >= MAX_PENDING_PEERS {
            let detail = "待认证连接已达资源上限"@;
            (
                self.reported(peer, generation, PeerStateView::Failed(detail)),
                seq![
                    peer_state(peer, generation, PeerStateView::Failed(detail)),
                    says(detail),
                ],
            )
        } else if reachable == 0 {
            let detail = "对端候选地址与本机 UDP 地址族不匹配"@;
            (
                self.reported(peer, generation, PeerStateView::Failed(detail)),
                seq![peer_state(peer, generation, PeerStateView::Failed(detail))],
            )
        } else if !self.registry.accepts(peer, generation) {
            (self, Seq::empty())
        } else {
            let after = self.reported(peer, generation, PeerStateView::Punching);
            (
                SessionView {
                    inbound: dropped(after.inbound, (peer, generation)).push((peer, generation)),
                    authenticating: after.authenticating + 1,
                    ..after
                },
                seq![
                    peer_state(peer, generation, PeerStateView::Punching),
                    lifecycle(LifecycleView::Punching { peer }),
                    SessionActionView::StartAttempt { peer, generation },
                ],
            )
        }
    }

    /// The signal server gives the addresses of a peer.
    pub open spec fn candidates(self, peer: NodeId, reachable: usize, now_ms: u64) -> (
        SessionView,
        Seq<SessionActionView>,
    ) {
        if peer == self.local {
            (self, Seq::empty())
        } else if self.is_waiting(peer) {
            self.attempt_with(peer, self.registry.record(peer).generation, reachable)
        } else {
            match self.registry.attempt(peer) {
                BeginPeerAttempt::Started(generation) => (SessionView {
                    registry: self.registry.started(peer, now_ms),
                    ..self
                }).attempt_with(peer, generation, reachable),
                BeginPeerAttempt::AlreadyActive(_) => (self, Seq::empty()),
                BeginPeerAttempt::AtCapacity => (self, seq![says("对端连接数已达资源上限"@)]),
            }
        }
    }

    /// The signal server refuses lookups.
    pub open spec fn refused(self, reason: Seq<char>) -> (SessionView, Seq<SessionActionView>) {
        let waiting = listed(self.registry.peers, record_waiting());
        let (failed, told) = self.failing(
            waiting,
            "信令查询失败："@ + reason,
            false,
            waiting.len(),
        );
        (
            SessionView { lookups: Seq::empty(), ..failed },
            told.push(says("信令服务拒绝请求："@ + reason)),
        )
    }

    /// The signal server is gone; connected peers stay.
    pub open spec fn signal_lost(self, detail: Seq<char>, jitter: i32) -> (
        SessionView,
        Seq<SessionActionView>,
    ) {
        let waiting = listed(self.registry.peers, record_waiting());
        let queued = SessionView {
            online: false,
            lookups: enqueued(self.lookups, waiting, waiting.len()),
            ..self
        };
        let (after, actions) = queued.retry_later(detail, jitter);
        (after, seq![SessionActionView::DropSignal] + actions)
    }

    /// The signal server knows this node.
    pub open spec fn signal_online(self, generation: u64, node: NodeId) -> (
        SessionView,
        Seq<SessionActionView>,
    ) {
        if generation != self.generation {
            (self, Seq::empty())
        } else {
            (
                SessionView { online: true, attempt: 0, retrying: false, ..self },
                seq![
                    SessionActionView::Emit(SessionEventView::SignalIdentityRegistered(node)),
                    lifecycle(LifecycleView::SignalOnline),
                ],
            )
        }
    }

    /// The signal server was not reached.
    pub open spec fn signal_failed(self, generation: u64, detail: Seq<char>, jitter: i32) -> (
        SessionView,
        Seq<SessionActionView>,
    ) {
        if generation != self.generation {
            (self, Seq::empty())
        } else {
            self.retry_later(detail, jitter)
        }
    }

    /// Whether a lookup is still wanted.
    pub open spec fn wants(self, lookup: (NodeId, u64)) -> bool {
        self.is_current(lookup.0, lookup.1) && self.is_waiting(lookup.0)
    }

    /// The position of the first lookup that is still wanted.
    pub open spec fn next_wanted(self) -> int {
        first_index(self.lookups, |lookup: (NodeId, u64)| self.wants(lookup))
    }

    /// Whether a connection from outside belongs to an attempt that waits for it.
    pub open spec fn admits(self, claimed: Option<(NodeId, u64)>) -> bool {
        claimed matches Some((peer, generation)) && self.is_current(peer, generation)
            && self.local.value >= peer.value && self.inbound.contains((peer, generation))
    }

    /// A peer's connection has come further.
    pub open spec fn peer_progress(self, peer: NodeId, generation: u64, state: PeerStateView) -> (
        SessionView,
        Seq<SessionActionView>,
    ) {
        if !self.registry.accepts(peer, generation) {
            (self, Seq::empty())
        } else {
            (
                self.reported(peer, generation, state),
                if state is Authenticating {
                    seq![
                        peer_state(peer, generation, state),
                        lifecycle(LifecycleView::Authenticating { peer }),
                    ]
                } else {
                    seq![peer_state(peer, generation, state)]
                },
            )
        }
    }

    /// A peer is connected and authenticated.
    pub open spec fn peer_connected(self, peer: NodeId, generation: u64) -> (
        SessionView,
        Seq<SessionActionView>,
    ) {
        let waiting = SessionView { inbound: dropped(self.inbound, (peer, generation)), ..self };
        if !self.is_current(peer, generation) || self.registry.record(peer).state is Connected {
            (waiting, seq![SessionActionView::CloseDuplicate])
        } else if !self.registry.accepts(peer, generation) {
            (waiting, seq![SessionActionView::CloseStale])
        } else {
            (
                SessionView {
                    connections: without_peer(self.connections, peer).push((peer, generation)),
                    ..waiting.reported(peer, generation, PeerStateView::Connected)
                },
                seq![
                    peer_state(peer, generation, PeerStateView::Connected),
                    lifecycle(LifecycleView::Connected { peer }),
                    SessionActionView::ServePeer { peer, generation },
                ],
            )
        }
    }

    /// An attempt to connect a peer failed.
    pub open spec fn peer_failed(self, peer: NodeId, generation: u64, detail: Seq<char>) -> (
        SessionView,
        Seq<SessionActionView>,
    ) {
        let waiting = SessionView { inbound: dropped(self.inbound, (peer, generation)), ..self };
        if !self.registry.accepts(peer, generation) {
            (waiting, Seq::empty())
        } else {
            (
                waiting.reported(peer, generation, PeerStateView::Failed(detail)),
                seq![peer_state(peer, generation, PeerStateView::Failed(detail))],
            )
        }
    }

    /// A connected peer is gone.
    pub open spec fn peer_closed(self, peer: NodeId, generation: u64, detail: Seq<char>) -> (
        SessionView,
        Seq<SessionActionView>,
    ) {
        if !self.is_current(peer, generation) || !self.connections.contains((peer, generation)) {
            (self, Seq::empty())
        } else {
            let closed = SessionView { connections: without_peer(self.connections, peer), ..self };
            if !self.registry.accepts(peer, generation) {
                (closed, Seq::empty())
            } else {
                (
                    closed.reported(peer, generation, PeerStateView::Disconnected),
                    seq![
                        peer_state(peer, generation, PeerStateView::Disconnected),
                        lifecycle(LifecycleView::Disconnected { peer: Some(peer), detail }),
                    ],
                )
            }
        }
    }

    /// A second has passed.
    pub open spec fn maintained(self, now_ms: u64) -> (SessionView, Seq<SessionActionView>) {
        let expired = listed(self.registry.peers, record_expired(now_ms));
        self.failing(expired, "目标离线或候选等待超时，请重试连接"@, true, expired.len())
    }

    /// It is time to try the signal server again.
    pub open spec fn retried(self) -> (SessionView, Seq<SessionActionView>) {
        (
            SessionView { retrying: false, ..self },
            seq![
                lifecycle(
                    LifecycleView::ReconnectingSignal {
                        attempt: self.attempt,
                        delay: Delay { millis: 0 },
                    },
                ),
                SessionActionView::ConnectSignal { generation: self.generation },
            ],
        )
    }
}

/// The jitter for a random number: between a fifth less and a fifth more, per mille.
pub fn jitter_of(random: u16) -> (jitter: i32)
    ensures
        jitter == random as int % 401 - 200,
        -200 <= jitter <= 200,
{
    (random % 401) as i32 - 200
}

/// A fresh jitter.
pub fn reconnect_jitter() -> (jitter: i32)
    ensures
        -200 <= jitter <= 200,
{
    jitter_of((random_number() % 65536) as u16)
}

impl Session {
    /// Starts a session: it connects to its signal server first.
    pub fn new(local: NodeId, config: DesktopSessionConfig) -> (result: (
        Session,
        Vec<SessionAction>,
    ))
        ensures
            result.0@ == (SessionView {
                local,
                server: config.signal_server@,
                generation: 0,
                online: false,
                attempt: 0,
                retrying: false,
                registry: RegistryView { peers: Seq::empty(), next_generation: 0 },
                connections: Seq::empty(),
                inbound: Seq::empty(),
                lookups: Seq::empty(),
                authenticating: 0,
            }),
            result.0@.valid(),
            action_views(result.1@) == seq![
                lifecycle(LifecycleView::ConnectingSignal),
                SessionActionView::ConnectSignal { generation: 0 },
            ],
    {
        let mut actions: Vec<SessionAction> = Vec::new();
        tell(&mut actions, NetworkLifecycle::ConnectingSignal);
        push_action(&mut actions, SessionAction::ConnectSignal { generation: 0 });
        assert(action_views(actions@) =~= seq![
            lifecycle(LifecycleView::ConnectingSignal),
            SessionActionView::ConnectSignal { generation: 0 },
        ]);
        let session = Session {
            local,
            server: config.signal_server,
            generation: 0,
            online: false,
            attempt: 0,
            retrying: false,
            registry: PeerRegistry::default(),
            connections: Vec::new(),
            inbound: Vec::new(),
            lookups: Vec::new(),
            authenticating: 0,
        };
        (session, actions)
    }

    /// The signal server to connect to.
    pub fn server(&self) -> (server: &str)
        ensures
            server@ == self@.server,
    {
        self.server.as_str()
    }

    /// The peers that are connected, with their generations.
    pub fn connections(&self) -> (connections: &Vec<(NodeId, u64)>)
        ensures
            connections@ == self@.connections,
    {
        &self.connections
    }

    /// Whether the signal server is connected.
    pub fn is_online(&self) -> (online: bool)
        ensures
            online == self@.online,
    {
        self.online
    }

    fn plan_retry(&mut self, actions: &mut Vec<SessionAction>, detail: String, jitter: i32)
        requires
            old(self)@.valid(),
        ensures
            final(self)@.valid(),
            final(self)@ == old(self)@.retry_later(detail@, jitter).0,
            action_views(final(actions)@) == action_views(old(actions)@) + old(self)@.retry_later(
                detail@,
                jitter,
            ).1,
    {
        let ghost before = self@;
        let ghost told = action_views(actions@);
        let delay = reconnect_delay(self.attempt, jitter);
        self.attempt = if self.attempt == u32::MAX {
            u32::MAX
        } else {
            self.attempt + 1
        };
        self.retrying = true;
        push_action(actions, SessionAction::RetryLater { delay, detail });
        tell(actions, NetworkLifecycle::ReconnectingSignal { attempt: self.attempt, delay });
        assert(action_views(actions@) =~= told + before.retry_later(detail@, jitter).1);
    }

    /// The user wants to connect a peer.
    pub fn connect_peer(&mut self, peer: NodeId, now_ms: u64) -> (actions: Vec<SessionAction>)
        requires
            old(self)@.valid(),
        ensures
            final(self)@.valid(),
            (final(self)@, action_views(actions@)) == old(self)@.connect_peer(peer, now_ms),
    {
        let ghost before = self@;
        let mut actions: Vec<SessionAction> = Vec::new();
        if peer == self.local {
            say(&mut actions, "不能连接本机 Node ID".to_owned());
            assert(action_views(actions@) =~= before.connect_peer(peer, now_ms).1);
            return actions;
        }
        match self.registry.begin_attempt(peer, now_ms) {
            BeginPeerAttempt::Started(generation) => {
                tell_peer(&mut actions, peer, generation, PeerLifecycle::PeerPending);
                tell(&mut actions, NetworkLifecycle::PeerPending { peer });
                if self.online {
                    push_action(&mut actions, SessionAction::RequestLookup { peer, generation });
                } else {
                    self.lookups.push((peer, generation));
                }
            },
            BeginPeerAttempt::AlreadyActive(_) => {
                let front = join_text("已存在对端 ", &peer.short());
                say(&mut actions, join_text(&front, " 的连接请求，忽略重复点击"));
            },
            BeginPeerAttempt::AtCapacity => {
                say(&mut actions, "待连接对端已达资源上限".to_owned());
            },
        }
        assert(action_views(actions@) =~= before.connect_peer(peer, now_ms).1);
        actions
    }

    /// A lookup could not be sent. It is sent again once the server is back; one of the
    /// queue keeps its place.
    pub fn lookup_failed(
        &mut self,
        peer: NodeId,
        generation: u64,
        at_front: bool,
        detail: String,
        jitter: i32,
    ) -> (actions: Vec<SessionAction>)
        requires
            old(self)@.valid(),
        ensures
            final(self)@.valid(),
            (final(self)@, action_views(actions@)) == old(self)@.lookup_failed(
                peer,
                generation,
                at_front,
                detail@,
                jitter,
            ),
    {
        let ghost before = self@;
        let ghost text = detail@;
        let mut actions: Vec<SessionAction> = Vec::new();
        if at_front {
            self.lookups.insert(0, (peer, generation));
            assert(self.lookups@ =~= seq![(peer, generation)] + before.lookups);
        } else {
            self.lookups.push((peer, generation));
        }
        self.online = false;
        push_action(&mut actions, SessionAction::DropSignal);
        assert(action_views(actions@) =~= seq![SessionActionView::DropSignal]);
        self.plan_retry(&mut actions, detail, jitter);
        actions
    }

    fn fail_peers(
        &mut self,
        peers: &Vec<(NodeId, u64)>,
        detail: &str,
        forget: bool,
        actions: &mut Vec<SessionAction>,
    )
        requires
            old(self)@.valid(),
        ensures
            final(self)@.valid(),
            final(self)@ == old(self)@.failing(peers@, detail@, forget, peers@.len()).0,
            action_views(final(actions)@) == action_views(old(actions)@) + old(self)@.failing(
                peers@,
                detail@,
                forget,
                peers@.len(),
            ).1,
    {
        let ghost before = self@;
        let ghost told = action_views(actions@);
        let mut i: usize = 0;
        assert(told + Seq::<SessionActionView>::empty() =~= told);
        while i < peers.len()
            invariant
                i <= peers@.len(),
                before == old(self)@,
                told == action_views(old(actions)@),
                self@.valid(),
                self@ == before.failing(peers@, detail@, forget, i as nat).0,
                action_views(actions@) == told + before.failing(
                    peers@,
                    detail@,
                    forget,
                    i as nat,
                ).1,
            decreases peers@.len() - i,
        {
            let (peer, generation) = peers[i];
            let ghost step = self@;
            let ghost said = before.failing(peers@, detail@, forget, i as nat).1;
            let accepted = self.registry.transition(
                peer,
                generation,
                PeerLifecycle::Failed(detail.to_owned()),
            );
            if accepted {
                if forget {
                    self.lookups = drop_pair(&self.lookups, peer, generation);
                }
                tell_peer(actions, peer, generation, PeerLifecycle::Failed(detail.to_owned()));
                assert(action_views(actions@) =~= told + said.push(
                    peer_state(peer, generation, PeerStateView::Failed(detail@)),
                ));
            }
            i = i + 1;
        }
    }

    /// The user chose another signal server. Attempts and connected peers of the old
    /// configuration end with it.
    pub fn reconfigure(&mut self, server: String) -> (actions: Vec<SessionAction>)
        requires
            old(self)@.valid(),
        ensures
            final(self)@.valid(),
            (final(self)@, action_views(actions@)) == old(self)@.reconfigured(server@),
    {
        let ghost before = self@;
        let mut actions: Vec<SessionAction> = Vec::new();
        self.server = server;
        self.generation = if self.generation == u64::MAX {
            0
        } else {
            self.generation + 1
        };
        let generation: u64 = self.generation;
        push_action(&mut actions, SessionAction::AbortPeerTasks);
        push_action(&mut actions, SessionAction::InterruptTransfers);
        push_action(&mut actions, SessionAction::CloseConnections);
        self.inbound = Vec::new();
        self.lookups = Vec::new();
        self.connections = Vec::new();
        self.authenticating = 0;
        let active = self.registry.active_peers();
        let ghost front = action_views(actions@);
        assert(front =~= seq![
            SessionActionView::AbortPeerTasks,
            SessionActionView::InterruptTransfers,
            SessionActionView::CloseConnections,
        ]);
        self.fail_peers(&active, "网络配置已更改，请重新连接", false, &mut actions);
        self.online = false;
        self.retrying = false;
        self.attempt = 0;
        push_action(&mut actions, SessionAction::DropSignal);
        push_action(&mut actions, SessionAction::AbortConnect);
        tell(&mut actions, NetworkLifecycle::ConnectingSignal);
        push_action(&mut actions, SessionAction::ConnectSignal { generation });
        assert(action_views(actions@) =~= before.reconfigured(server@).1);
        actions
    }

    /// The signal server answered a heartbeat.
    pub fn pong(&self) -> (actions: Vec<SessionAction>)
        ensures
            action_views(actions@) == seq![says("信令心跳已确认"@)],
    {
        let mut actions: Vec<SessionAction> = Vec::new();
        say(&mut actions, "信令心跳已确认".to_owned());
        assert(action_views(actions@) =~= seq![says("信令心跳已确认"@)]);
        actions
    }

    /// The signal server says that a peer is not there yet.
    pub fn peer_pending(&self, peer: NodeId) -> (actions: Vec<SessionAction>)
        ensures
            action_views(actions@) == self@.peer_pending(peer),
    {
        let mut actions: Vec<SessionAction> = Vec::new();
        let waiting = match self.registry.state(peer) {
            Some(state) => matches!(state, PeerLifecycle::PeerPending),
            None => false,
        };
        if waiting {
            if let Some(generation) = self.registry.generation(peer) {
                tell_peer(&mut actions, peer, generation, PeerLifecycle::PeerPending);
                tell(&mut actions, NetworkLifecycle::PeerPending { peer });
            }
        }
        assert(action_views(actions@) =~= self@.peer_pending(peer));
        actions
    }

    fn start_attempt(&mut self, peer: NodeId, generation: u64, reachable: usize) -> (actions: Vec<
        SessionAction,
    >)
        requires
            old(self)@.valid(),
        ensures
            final(self)@.valid(),
            (final(self)@, action_views(actions@)) == old(self)@.attempt_with(
                peer,
                generation,
                reachable,
            ),
    {
        let ghost before = self@;
        let mut actions: Vec<SessionAction> = Vec::new();
        if self.authenticating >= MAX_PENDING_PEERS {
            let _ = self.registry.transition(
                peer,
                generation,
                PeerLifecycle::Failed("待认证连接已达资源上限".to_owned()),
            );
            tell_peer(
                &mut actions,
                peer,
                generation,
                PeerLifecycle::Failed("待认证连接已达资源上限".to_owned()),
            );
            say(&mut actions, "待认证连接已达资源上限".to_owned());
            assert(action_views(actions@) =~= before.attempt_with(peer, generation, reachable).1);
            return actions;
        }
        if reachable == 0 {
            let _ = self.registry.transition(
                peer,
                generation,
                PeerLifecycle::Failed("对端候选地址与本机 UDP 地址族不匹配".to_owned()),
            );
            tell_peer(
                &mut actions,
                peer,
                generation,
                PeerLifecycle::Failed("对端候选地址与本机 UDP 地址族不匹配".to_owned()),
            );
            assert(action_views(actions@) =~= before.attempt_with(peer, generation, reachable).1);
            return actions;
        }
        if !self.registry.transition(peer, generation, PeerLifecycle::Punching) {
            assert(action_views(actions@) =~= Seq::empty());
            return actions;
        }
        tell_peer(&mut actions, peer, generation, PeerLifecycle::Punching);
        tell(&mut actions, NetworkLifecycle::Punching { peer });
        self.inbound = drop_pair(&self.inbound, peer, generation);
        self.inbound.push((peer, generation));
        self.authenticating = self.authenticating + 1;
        push_action(&mut actions, SessionAction::StartAttempt { peer, generation });
        assert(action_views(actions@) =~= before.attempt_with(peer, generation, reachable).1);
        actions
    }

    /// The signal server gives the addresses of a peer. Those that go through a relay
    /// or cannot be reached are not counted.
    pub fn start_peer_attempt(&mut self, peer: NodeId, reachable: usize, now_ms: u64) -> (actions:
        Vec<SessionAction>)
        requires
            old(self)@.valid(),
        ensures
            final(self)@.valid(),
            (final(self)@, action_views(actions@)) == old(self)@.candidates(
                peer,
                reachable,
                now_ms,
            ),
    {
        let ghost before = self@;
        let mut actions: Vec<SessionAction> = Vec::new();
        assert(action_views(actions@) =~= Seq::empty());
        if peer == self.local {
            return actions;
        }
        let waiting = match self.registry.state(peer) {
            Some(state) => matches!(state, PeerLifecycle::PeerPending),
            None => false,
        };
        if waiting {
            if let Some(generation) = self.registry.generation(peer) {
                return self.start_attempt(peer, generation, reachable);
            }
        }
        match self.registry.begin_attempt(peer, now_ms) {
            BeginPeerAttempt::Started(generation) => self.start_attempt(
                peer,
                generation,
                reachable,
            ),
            BeginPeerAttempt::AlreadyActive(_) => actions,
            BeginPeerAttempt::AtCapacity => {
                say(&mut actions, "对端连接数已达资源上限".to_owned());
                assert(action_views(actions@) =~= seq![says("对端连接数已达资源上限"@)]);
                actions
            },
        }
    }

    /// An attempt has ended, whatever came of it.
    pub fn attempt_ended(&mut self)
        requires
            old(self)@.valid(),
        ensures
            final(self)@.valid(),
            final(self)@ == old(self)@.with_attempt_over(),
    {
        if self.authenticating > 0 {
            self.authenticating = self.authenticating - 1;
        }
    }

    /// The signal server refuses lookups.
    pub fn signal_refused(&mut self, reason: &str) -> (actions: Vec<SessionAction>)
        requires
            old(self)@.valid(),
        ensures
            final(self)@.valid(),
            (final(self)@, action_views(actions@)) == old(self)@.refused(reason@),
    {
        let ghost before = self@;
        let mut actions: Vec<SessionAction> = Vec::new();
        let detail = join_text("信令查询失败：", reason);
        let waiting = self.registry.pending_peers();
        self.fail_peers(&waiting, &detail, false, &mut actions);
        self.lookups = Vec::new();
        say(&mut actions, join_text("信令服务拒绝请求：", reason));
        assert(action_views(actions@) =~= before.refused(reason@).1);
        actions
    }

    /// The signal server is gone. Connected peers stay connected.
    pub fn signal_lost(&mut self, detail: String, jitter: i32) -> (actions: Vec<SessionAction>)
        requires
            old(self)@.valid(),
        ensures
            final(self)@.valid(),
            (final(self)@, action_views(actions@)) == old(self)@.signal_lost(detail@, jitter),
    {
        let mut actions: Vec<SessionAction> = Vec::new();
        self.online = false;
        enqueue_pending_lookups(&self.registry, &mut self.lookups);
        push_action(&mut actions, SessionAction::DropSignal);
        assert(action_views(actions@) =~= seq![SessionActionView::DropSignal]);
        self.plan_retry(&mut actions, detail, jitter);
        actions
    }

    /// The signal server knows this node. Lookups that waited can be sent.
    pub fn signal_online(&mut self, generation: u64, node: NodeId) -> (actions: Vec<SessionAction>)
        requires
            old(self)@.valid(),
        ensures
            final(self)@.valid(),
            (final(self)@, action_views(actions@)) == old(self)@.signal_online(generation, node),
    {
        let ghost before = self@;
        let mut actions: Vec<SessionAction> = Vec::new();
        if is_current_signal_generation(self.generation, generation) {
            self.online = true;
            self.attempt = 0;
            self.retrying = false;
            push_action(
                &mut actions,
                SessionAction::Emit(SessionEvent::SignalIdentityRegistered(node)),
            );
            tell(&mut actions, NetworkLifecycle::SignalOnline);
        }
        assert(action_views(actions@) =~= before.signal_online(generation, node).1);
        actions
    }

    /// The signal server was not reached.
    pub fn signal_failed(&mut self, generation: u64, detail: String, jitter: i32) -> (actions: Vec<
        SessionAction,
    >)
        requires
            old(self)@.valid(),
        ensures
            final(self)@.valid(),
            (final(self)@, action_views(actions@)) == old(self)@.signal_failed(
                generation,
                detail@,
                jitter,
            ),
    {
        let ghost before = self@;
        let ghost text = detail@;
        let mut actions: Vec<SessionAction> = Vec::new();
        assert(action_views(actions@) =~= Seq::empty());
        if is_current_signal_generation(self.generation, generation) {
            self.plan_retry(&mut actions, detail, jitter);
            assert(action_views(actions@) =~= before.retry_later(text, jitter).1);
        }
        actions
    }

    /// The next lookup to be sent, while the server is there. Lookups that are no longer
    /// wanted are forgotten.
    pub fn next_lookup(&mut self) -> (lookup: Option<(NodeId, u64)>)
        requires
            old(self)@.valid(),
        ensures
            final(self)@.valid(),
            ({
                let (after, next) = old(self)@.looking_up();
                final(self)@ == after && lookup == next
            }),
    {
        if !self.online {
            return None;
        }
        let ghost before = self@;
        let ghost wanted = |lookup: (NodeId, u64)| before.wants(lookup);
        let ghost mut passed: int = 0;
        assert(before.lookups.skip(0) =~= before.lookups);
        while self.lookups.len() > 0
            invariant
                before == old(self)@,
                before.valid(),
                before.online,
                0 <= passed <= before.lookups.len(),
                wanted == (|lookup: (NodeId, u64)| before.wants(lookup)),
                self@ == (SessionView { lookups: before.lookups.skip(passed), ..before }),
                forall|k: int| 0 <= k < passed ==> !wanted(#[trigger] before.lookups[k]),
            decreases self.lookups@.len(),
        {
            let (peer, generation) = self.lookups.remove(0);
            proof {
                assert((peer, generation) == before.lookups[passed]);
                assert(self.lookups@ =~= before.lookups.skip(passed + 1));
            }
            let waiting = match self.registry.state(peer) {
                Some(state) => matches!(state, PeerLifecycle::PeerPending),
                None => false,
            };
            if self.registry.is_current(peer, generation) && waiting {
                proof {
                    assert(wanted(before.lookups[passed]));
                    lemma_is_first_index(before.lookups, wanted, passed);
                }
                return Some((peer, generation));
            }
            proof {
                assert(!wanted(before.lookups[passed]));
                passed = passed + 1;
            }
        }
        proof {
            assert(passed == before.lookups.len());
            lemma_is_first_index(before.lookups, wanted, passed);
            assert(self.lookups@ =~= Seq::empty());
        }
        None
    }

    /// Whether a connection from outside is taken: its address belongs to an attempt
    /// that is under way and that waits for the other end to dial.
    pub fn accept_incoming(&mut self, claimed: Option<(NodeId, u64)>) -> (accepted: bool)
        requires
            old(self)@.valid(),
        ensures
            final(self)@.valid(),
            accepted == old(self)@.admits(claimed),
            final(self)@ == if accepted {
                old(self)@.expecting_no_more(claimed->0)
            } else {
                old(self)@
            },
    {
        let (peer, generation) = match claimed {
            Some(pair) => pair,
            None => {
                return false;
            },
        };
        if !self.registry.is_current(peer, generation) || should_initiate_quic(self.local, peer) {
            return false;
        }
        if !has_pair(&self.inbound, peer, generation) {
            return false;
        }
        self.inbound = drop_pair(&self.inbound, peer, generation);
        true
    }

    /// A peer's connection has come further.
    pub fn peer_progress(&mut self, peer: NodeId, generation: u64, state: PeerLifecycle) -> (actions:
        Vec<SessionAction>)
        requires
            old(self)@.valid(),
        ensures
            final(self)@.valid(),
            (final(self)@, action_views(actions@)) == old(self)@.peer_progress(
                peer,
                generation,
                state@,
            ),
    {
        let ghost before = self@;
        let ghost wanted = state@;
        let mut actions: Vec<SessionAction> = Vec::new();
        let authenticating = matches!(state, PeerLifecycle::Authenticating);
        let copy = state.clone();
        if self.registry.transition(peer, generation, state) {
            tell_peer(&mut actions, peer, generation, copy);
            if authenticating {
                tell(&mut actions, NetworkLifecycle::Authenticating { peer });
            }
        }
        assert(action_views(actions@) =~= before.peer_progress(peer, generation, wanted).1);
        actions
    }

    /// A peer is connected and authenticated. A second connection, or one of an earlier
    /// attempt, is closed.
    pub fn peer_connected(&mut self, peer: NodeId, generation: u64) -> (actions: Vec<SessionAction>)
        requires
            old(self)@.valid(),
        ensures
            final(self)@.valid(),
            (final(self)@, action_views(actions@)) == old(self)@.peer_connected(peer, generation),
    {
        let ghost before = self@;
        let mut actions: Vec<SessionAction> = Vec::new();
        self.inbound = drop_pair(&self.inbound, peer, generation);
        let connected = match self.registry.state(peer) {
            Some(state) => matches!(state, PeerLifecycle::Connected),
            None => false,
        };
        if !self.registry.is_current(peer, generation) || connected {
            push_action(&mut actions, SessionAction::CloseDuplicate);
            assert(action_views(actions@) =~= before.peer_connected(peer, generation).1);
            return actions;
        }
        if !self.registry.transition(peer, generation, PeerLifecycle::Connected) {
            push_action(&mut actions, SessionAction::CloseStale);
            assert(action_views(actions@) =~= before.peer_connected(peer, generation).1);
            return actions;
        }
        self.connections = drop_peer(&self.connections, peer);
        self.connections.push((peer, generation));
        tell_peer(&mut actions, peer, generation, PeerLifecycle::Connected);
        tell(&mut actions, NetworkLifecycle::Connected { peer });
        push_action(&mut actions, SessionAction::ServePeer { peer, generation });
        assert(action_views(actions@) =~= before.peer_connected(peer, generation).1);
        actions
    }

    /// An attempt to connect a peer failed.
    pub fn peer_failed(&mut self, peer: NodeId, generation: u64, detail: &str) -> (actions: Vec<
        SessionAction,
    >)
        requires
            old(self)@.valid(),
        ensures
            final(self)@.valid(),
            (final(self)@, action_views(actions@)) == old(self)@.peer_failed(
                peer,
                generation,
                detail@,
            ),
    {
        let ghost before = self@;
        let mut actions: Vec<SessionAction> = Vec::new();
        self.inbound = drop_pair(&self.inbound, peer, generation);
        if self.registry.transition(peer, generation, PeerLifecycle::Failed(detail.to_owned())) {
            tell_peer(&mut actions, peer, generation, PeerLifecycle::Failed(detail.to_owned()));
        }
        assert(action_views(actions@) =~= before.peer_failed(peer, generation, detail@).1);
        actions
    }

    /// A connected peer is gone. The end of an earlier connection changes nothing.
    pub fn peer_closed(&mut self, peer: NodeId, generation: u64, detail: String) -> (actions: Vec<
        SessionAction,
    >)
        requires
            old(self)@.valid(),
        ensures
            final(self)@.valid(),
            (final(self)@, action_views(actions@)) == old(self)@.peer_closed(
                peer,
                generation,
                detail@,
            ),
    {
        let ghost before = self@;
        let ghost text = detail@;
        let mut actions: Vec<SessionAction> = Vec::new();
        if self.registry.is_current(peer, generation) && has_pair(
            &self.connections,
            peer,
            generation,
        ) {
            self.connections = drop_peer(&self.connections, peer);
            if self.registry.transition(peer, generation, PeerLifecycle::Disconnected) {
                tell_peer(&mut actions, peer, generation, PeerLifecycle::Disconnected);
                tell(
                    &mut actions,
                    NetworkLifecycle::Disconnected { peer: Some(peer), detail },
                );
            }
        }
        assert(action_views(actions@) =~= before.peer_closed(peer, generation, text).1);
        actions
    }

    /// A second has passed: peers that were looked up for too long are given up.
    pub fn maintain(&mut self, now_ms: u64) -> (actions: Vec<SessionAction>)
        requires
            old(self)@.valid(),
        ensures
            final(self)@.valid(),
            (final(self)@, action_views(actions@)) == old(self)@.maintained(now_ms),
    {
        let ghost before = self@;
        let mut actions: Vec<SessionAction> = Vec::new();
        let expired = self.registry.expired_lookups(now_ms);
        self.fail_peers(&expired, "目标离线或候选等待超时，请重试连接", true, &mut actions);
        assert(action_views(actions@) =~= before.maintained(now_ms).1);
        actions
    }

    /// It is time to try the signal server again.
    pub fn retry(&mut self) -> (actions: Vec<SessionAction>)
        requires
            old(self)@.valid(),
        ensures
            final(self)@.valid(),
            (final(self)@, action_views(actions@)) == old(self)@.retried(),
    {
        let ghost before = self@;
        let mut actions: Vec<SessionAction> = Vec::new();
        self.retrying = false;
        tell(
            &mut actions,
            NetworkLifecycle::ReconnectingSignal {
                attempt: self.attempt,
                delay: Delay { millis: 0 },
            },
        );
        push_action(&mut actions, SessionAction::ConnectSignal { generation: self.generation });
        assert(action_views(actions@) =~= before.retried().1);
        actions
    }
}

/// Why the candidates of a peer are not tried.
pub open spec fn candidates_refusal(count: usize) -> Option<Seq<char>> {
    if count <= MAX_CANDIDATES {
        None
    } else {
        Some("对端候选地址超过桌面连接上限"@)
    }
}

/// Whether a silent peer is probed once more after this round.
pub open spec fn probes_again(round: u32) -> bool {
    round < PUNCH_ATTEMPTS
}

/// Why a task is not continued now.
pub open spec fn continuation_refusal(direction: TaskDirection, connected: bool) -> Option<
    Seq<char>,
> {
    if direction == TaskDirection::Receive && !connected {
        Some("请先连接任务绑定的对端"@)
    } else {
        None
    }
}

/// How a task of this direction is continued.
pub open spec fn continuation_of(direction: TaskDirection) -> Continuation {
    if direction == TaskDirection::Send {
        Continuation::Enqueue
    } else {
        Continuation::AskPeer
    }
}

impl SessionView {
    /// The session once an attempt to connect has ended.
    pub open spec fn with_attempt_over(self) -> SessionView {
        SessionView {
            authenticating: if self.authenticating == 0 {
                0
            } else {
                (self.authenticating - 1) as nat
            },
            ..self
        }
    }

    /// The session once the next peer is looked up, and which one that is: the first that
    /// still waits for it. Those before it are forgotten.
    pub open spec fn looking_up(self) -> (SessionView, Option<(NodeId, u64)>) {
        let at = self.next_wanted();
        if !self.online {
            (self, None)
        } else if at < self.lookups.len() {
            (
                SessionView { lookups: self.lookups.skip(at + 1), ..self },
                Some(self.lookups[at]),
            )
        } else {
            (SessionView { lookups: Seq::empty(), ..self }, None)
        }
    }

    /// The session once an expected connection has come in.
    pub open spec fn expecting_no_more(self, claimed: (NodeId, u64)) -> SessionView {
        SessionView { inbound: dropped(self.inbound, claimed), ..self }
    }
}

/// What a command about files asks for.
#[derive(Clone, Copy, Debug, PartialEq, Eq, Structural)]
pub enum JobKind {
    Selection,
    Continuation,
}

/// How many commands about files wait or run.
#[derive(Debug, PartialEq, Eq)]
pub struct Jobs {
    pub selections: usize,
    pub continuations: usize,
}

impl Jobs {
    /// No more wait or run than allowed.
    pub open spec fn valid(self) -> bool {
        self.selections <= MAX_SELECTION_JOBS && self.continuations <= MAX_CONTINUATION_JOBS
    }

    /// Why a command about files is not taken.
    pub open spec fn refusal(
        self,
        kind: JobKind,
        ready: bool,
        local: NodeId,
        peer: NodeId,
    ) -> Option<Seq<char>> {
        if !ready {
            Some("任务存储尚未就绪"@)
        } else if peer == local {
            Some("不能向本机发送任务"@)
        } else if kind == JobKind::Selection && self.selections >= MAX_SELECTION_JOBS || kind
            == JobKind::Continuation && self.continuations >= MAX_CONTINUATION_JOBS {
            Some("文件命令排队已达上限，请稍后重试"@)
        } else {
            None
        }
    }

    /// Nothing waits or runs.
    pub fn new() -> (jobs: Jobs)
        ensures
            jobs == (Jobs { selections: 0, continuations: 0 }),
            jobs.valid(),
    {
        Jobs { selections: 0, continuations: 0 }
    }

    /// Takes a command about files, if there is room for it.
    pub fn take_on(&mut self, kind: JobKind, ready: bool, local: NodeId, peer: NodeId) -> (result:
        Result<()>)
        requires
            old(self).valid(),
        ensures
            final(self).valid(),
            decided(result, old(self).refusal(kind, ready, local, peer)),
            *final(self) == if result is Err {
                *old(self)
            } else if kind == JobKind::Selection {
                Jobs { selections: (old(self).selections + 1) as usize, ..*old(self) }
            } else {
                Jobs { continuations: (old(self).continuations + 1) as usize, ..*old(self) }
            },
    {
        if !ready {
            return Err(failure("任务存储尚未就绪"));
        }
        if peer == local {
            return Err(failure("不能向本机发送任务"));
        }
        match kind {
            JobKind::Selection => {
                if self.selections >= MAX_SELECTION_JOBS {
                    return Err(failure("文件命令排队已达上限，请稍后重试"));
                }
                self.selections = self.selections + 1;
            },
            JobKind::Continuation => {
                if self.continuations >= MAX_CONTINUATION_JOBS {
                    return Err(failure("文件命令排队已达上限，请稍后重试"));
                }
                self.continuations = self.continuations + 1;
            },
        }
        Ok(())
    }

    /// A command about files has ended.
    pub fn end(&mut self, kind: JobKind)
        requires
            old(self).valid(),
        ensures
            final(self).valid(),
            *final(self) == if kind == JobKind::Selection {
                Jobs {
                    selections: if old(self).selections == 0 {
                        0
                    } else {
                        (old(self).selections - 1) as usize
                    },
                    ..*old(self)
                }
            } else {
                Jobs {
                    continuations: if old(self).continuations == 0 {
                        0
                    } else {
                        (old(self).continuations - 1) as usize
                    },
                    ..*old(self)
                }
            },
    {
        match kind {
            JobKind::Selection => {
                if self.selections > 0 {
                    self.selections = self.selections - 1;
                }
            },
            JobKind::Continuation => {
                if self.continuations > 0 {
                    self.continuations = self.continuations - 1;
                }
            },
        }
    }
}

/// What came of waiting for an answer to a probe.
#[derive(Clone, Copy, Debug, PartialEq, Eq, Structural)]
pub enum ProbeOutcome {
    Answered,
    Closed,
    Silent,
}

/// What to do after waiting for an answer to a probe.
#[derive(Debug, PartialEq, Eq)]
pub enum PunchStep {
    Reply,
    ProbeAgain,
    GiveUp(Error),
}

/// Whether the addresses of a peer may be tried.
pub fn check_candidates(count: usize) -> (result: Result<()>)
    ensures
        decided(
            result,
            candidates_refusal(count),
        ),
{
    if count > MAX_CANDIDATES {
        return Err(failure("对端候选地址超过桌面连接上限"));
    }
    Ok(())
}

/// What to do after a round of probes. Rounds are counted from one.
pub fn punch_step(round: u32, candidates: usize, outcome: ProbeOutcome) -> (step: PunchStep)
    ensures
        match outcome {
            ProbeOutcome::Answered => step is Reply,
            ProbeOutcome::Closed => step matches PunchStep::GiveUp(error) && error.refuses(
                "打洞令牌接收器已关闭"@,
            ),
            ProbeOutcome::Silent => if probes_again(round) {
                step is ProbeAgain
            } else {
                step matches PunchStep::GiveUp(error) && error.refuses(
                    "打洞超时：未收到带正确令牌的探测回应（"@ + decimal(candidates as nat)
                        + " 个候选）"@,
                )
            },
        },
{
    match outcome {
        ProbeOutcome::Answered => PunchStep::Reply,
        ProbeOutcome::Closed => PunchStep::GiveUp(failure("打洞令牌接收器已关闭")),
        ProbeOutcome::Silent => {
            if round < PUNCH_ATTEMPTS {
                PunchStep::ProbeAgain
            } else {
                let front = join_text(
                    "打洞超时：未收到带正确令牌的探测回应（",
                    &decimal_text(candidates as u64),
                );
                PunchStep::GiveUp(failure(&join_text(&front, " 个候选）")))
            }
        },
    }
}

/// Whether the node at the other end is the one that was expected.
pub fn check_identity(expected: NodeId, actual: NodeId, incoming: bool) -> (result: std::result::Result<
    (),
    String,
>)
    ensures
        result is Ok <==> expected == actual,
        result matches Err(text) ==> text@ == (if incoming {
            "入站身份不符：期待 "@
        } else {
            "对端身份不符：期待 "@
        }) + short_name(expected) + "，实际 "@ + short_name(actual),
{
    if expected == actual {
        return Ok(());
    }
    let front = join_text(
        if incoming {
            "入站身份不符：期待 "
        } else {
            "对端身份不符：期待 "
        },
        &expected.short(),
    );
    let middle = join_text(&front, "，实际 ");
    Err(join_text(&middle, &actual.short()))
}

/// What arrives for an earlier configuration of the signal server changes nothing.
pub proof fn earlier_configurations_are_ignored(
    session: SessionView,
    generation: u64,
    node: NodeId,
    detail: Seq<char>,
    jitter: i32,
)
    requires
        generation != session.generation,
    ensures
        session.signal_online(generation, node) == (session, Seq::<SessionActionView>::empty()),
        session.signal_failed(generation, detail, jitter) == (
            session,
            Seq::<SessionActionView>::empty(),
        ),
{
}

/// The end of an earlier connection leaves the present one alone, and an earlier attempt
/// that succeeds late is closed.
pub proof fn earlier_connections_are_ignored(
    session: SessionView,
    peer: NodeId,
    generation: u64,
    detail: Seq<char>,
)
    requires
        !session.is_current(peer, generation),
    ensures
        session.peer_closed(peer, generation, detail) == (
            session,
            Seq::<SessionActionView>::empty(),
        ),
        session.peer_connected(peer, generation).0.connections == session.connections,
        session.peer_connected(peer, generation).0.registry == session.registry,
        session.peer_connected(peer, generation).1 == seq![SessionActionView::CloseDuplicate],
{
}

/// Losing the signal server keeps every connected peer, and every peer that still waits
/// will be looked up again.
pub proof fn losing_the_server_keeps_peers(
    session: SessionView,
    detail: Seq<char>,
    jitter: i32,
    at: int,
)
    requires
        0 <= at < listed(session.registry.peers, record_waiting()).len(),
    ensures
        session.signal_lost(detail, jitter).0.connections == session.connections,
        session.signal_lost(detail, jitter).0.registry == session.registry,
        session.signal_lost(detail, jitter).0.lookups.contains(
            listed(session.registry.peers, record_waiting())[at],
        ),
{
    let waiting = listed(session.registry.peers, record_waiting());
    lemma_enqueued_holds(session.lookups, waiting, waiting.len(), at);
}

proof fn lemma_enqueued_holds(
    queue: Seq<(NodeId, u64)>,
    waiting: Seq<(NodeId, u64)>,
    count: nat,
    at: int,
)
    requires
        0 <= at < count <= waiting.len(),
    ensures
        enqueued(queue, waiting, count).contains(waiting[at]),
    decreases count,
{
    let before = enqueued(queue, waiting, (count - 1) as nat);
    if at < count - 1 {
        lemma_enqueued_holds(queue, waiting, (count - 1) as nat, at);
        let k = choose|k: int| 0 <= k < before.len() && before[k] == waiting[at];
        assert(enqueued(queue, waiting, count)[k] == waiting[at]);
    } else if !before.contains(waiting[at]) {
        assert(enqueued(queue, waiting, count)[before.len() as int] == waiting[at]);
    }
}

/// Another signal server ends everything of the old one: no connection, no lookup and
/// no waiting attempt is left, and what arrives for the old one no longer counts.
pub proof fn reconfiguring_starts_over(session: SessionView, server: Seq<char>)
    ensures
        ({
            let after = session.reconfigured(server).0;
            &&& after.connections.len() == 0
            &&& after.lookups.len() == 0
            &&& after.inbound.len() == 0
            &&& !after.online
            &&& after.attempt == 0
            &&& after.generation != session.generation
            &&& after.server == server
        }),
{
    let active = listed(session.registry.peers, record_active());
    let generation = if session.generation == u64::MAX {
        0
    } else {
        (session.generation + 1) as u64
    };
    let cleared = SessionView {
        server,
        generation,
        inbound: Seq::empty(),
        lookups: Seq::empty(),
        connections: Seq::empty(),
        authenticating: 0,
        ..session
    };
    lemma_failing_keeps(cleared, active, "网络配置已更改，请重新连接"@, active.len());
}

proof fn lemma_failing_keeps(
    session: SessionView,
    peers: Seq<(NodeId, u64)>,
    detail: Seq<char>,
    count: nat,
)
    ensures
        ({
            let after = session.failing(peers, detail, false, count).0;
            &&& after.connections == session.connections
            &&& after.lookups == session.lookups
            &&& after.inbound == session.inbound
            &&& after.generation == session.generation
            &&& after.server == session.server
        }),
    decreases count,
{
    if count > 0 {
        lemma_failing_keeps(session, peers, detail, (count - 1) as nat);
    }
}

/// What a command is about.
#[derive(Clone, Copy, Debug, PartialEq, Eq, Structural)]
pub enum CommandKind {
    Connect,
    Reconfigure,
    Transfer,
    Speed,
}

/// What is said when a session does not take a command.
pub open spec fn command_problem(kind: CommandKind, detail: Seq<char>) -> Seq<char> {
    match kind {
        CommandKind::Connect => "网络会话暂时无法接收连接请求："@ + detail,
        CommandKind::Reconfigure => "网络会话暂时无法接收配置变更："@ + detail,
        CommandKind::Transfer => "传输命令队列已满或会话已关闭"@,
        CommandKind::Speed => "测速命令队列已满或会话已关闭"@,
    }
}

/// What is said when a session does not take a command.
pub fn command_failure(kind: CommandKind, detail: &str) -> (text: String)
    ensures
        text@ == command_problem(kind, detail@),
{
    match kind {
        CommandKind::Connect => join_text("网络会话暂时无法接收连接请求：", detail),
        CommandKind::Reconfigure => join_text("网络会话暂时无法接收配置变更：", detail),
        CommandKind::Transfer => "传输命令队列已满或会话已关闭".to_owned(),
        CommandKind::Speed => "测速命令队列已满或会话已关闭".to_owned(),
    }
}

/// How a task goes on.
#[derive(Clone, Copy, Debug, PartialEq, Eq, Structural)]
pub enum Continuation {
    /// It is sent again in its turn.
    Enqueue,
    /// Its peer is asked to send the rest.
    AskPeer,
}

/// How a task goes on: what is sent waits in the queue, what is received needs the
/// connection to its peer.
pub fn continuation(direction: TaskDirection, connected: bool) -> (result: Result<Continuation>)
    ensures
        decided(
            result,
            continuation_refusal(direction, connected),
        ),
        result matches Ok(step) ==> step == continuation_of(direction),
{
    match direction {
        TaskDirection::Send => Ok(Continuation::Enqueue),
        TaskDirection::Receive => if connected {
            Ok(Continuation::AskPeer)
        } else {
            Err(failure("请先连接任务绑定的对端"))
        },
    }
}

proof fn lemma_listed_once(
    peers: Seq<RecordView>,
    wanted: spec_fn(RecordView) -> bool,
    early: int,
    late: int,
)
    requires
        distinct(peers, |record: RecordView| record.peer),
        0 <= early < late < listed(peers, wanted).len(),
    ensures
        listed(peers, wanted)[early].0 != listed(peers, wanted)[late].0,
    decreases peers.len(),
{
    let key = |record: RecordView| record.peer;
    let front = peers.drop_last();
    let before = listed(front, wanted);
    let all = listed(peers, wanted);
    assert(distinct(front, key)) by {
        assert forall|i: int, j: int| 0 <= i < j < front.len() implies key(#[trigger] front[i])
            != key(#[trigger] front[j]) by {
            assert(key(peers[i]) != key(peers[j]));
        }
    }
    if late < before.len() {
        lemma_listed_once(front, wanted, early, late);
    } else {
        let pair = before[early];
        assert(before.contains(pair));
        listings_hold_what_is_wanted(front, wanted, pair);
        let k = choose|k: int|
            0 <= k < front.len() && wanted(#[trigger] front[k]) && front[k].peer == pair.0
                && front[k].generation == pair.1;
        assert(key(peers[k]) != key(peers[peers.len() - 1]));
    }
}

proof fn lemma_listed_counts(
    registry: RegistryView,
    wanted: spec_fn(RecordView) -> bool,
    at: int,
)
    requires
        registry.valid(),
        forall|record: RecordView|
            #[trigger] wanted(record) ==> !record.state.over(),
        0 <= at < listed(registry.peers, wanted).len(),
    ensures
        ({
            let (peer, generation) = listed(registry.peers, wanted)[at];
            registry.accepts(peer, generation) && wanted(registry.record(peer))
        }),
{
    let pair = listed(registry.peers, wanted)[at];
    assert(listed(registry.peers, wanted).contains(pair));
    listings_hold_what_is_wanted(registry.peers, wanted, pair);
    let k = choose|k: int|
        0 <= k < registry.peers.len() && wanted(#[trigger] registry.peers[k])
            && registry.peers[k].peer == pair.0 && registry.peers[k].generation == pair.1;
    lemma_at_its_place(registry, k);
}

proof fn lemma_at_its_place(registry: RegistryView, k: int)
    requires
        registry.valid(),
        0 <= k < registry.peers.len(),
    ensures
        registry.knows(registry.peers[k].peer),
        registry.record(registry.peers[k].peer) == registry.peers[k],
{
    let key = |record: RecordView| record.peer;
    let found = record_of(registry.peers[k].peer);
    assert(found(registry.peers[k]));
    assert forall|j: int| 0 <= j < k implies !found(#[trigger] registry.peers[j]) by {
        assert(key(registry.peers[j]) != key(registry.peers[k]));
    }
    lemma_is_first_index(registry.peers, found, k);
}

proof fn lemma_dropped(list: Seq<(NodeId, u64)>, pair: (NodeId, u64), other: (NodeId, u64))
    ensures
        !dropped(list, pair).contains(pair),
        other != pair ==> dropped(list, pair).contains(other) == list.contains(other),
    decreases list.len(),
{
    if list.len() > 0 {
        let front = list.drop_last();
        lemma_dropped(front, pair, other);
        let rest = dropped(front, pair);
        let all = dropped(list, pair);
        if all.contains(pair) {
            let k = choose|k: int| 0 <= k < all.len() && all[k] == pair;
            if k < rest.len() {
                assert(rest[k] == pair);
            }
        }
        if other != pair {
            if list.contains(other) {
                let k = choose|k: int| 0 <= k < list.len() && list[k] == other;
                if k < front.len() {
                    assert(front[k] == other);
                    let j = choose|j: int| 0 <= j < rest.len() && rest[j] == other;
                    assert(all[j] == other);
                } else {
                    assert(all[all.len() - 1] == other);
                }
            }
            if all.contains(other) {
                let k = choose|k: int| 0 <= k < all.len() && all[k] == other;
                if k < rest.len() {
                    assert(rest[k] == other);
                    let j = choose|j: int| 0 <= j < front.len() && front[j] == other;
                    assert(list[j] == other);
                } else {
                    assert(list[list.len() - 1] == other);
                }
            }
        }
    }
}

proof fn lemma_without_peer(list: Seq<(NodeId, u64)>, peer: NodeId, other: (NodeId, u64))
    ensures
        without_peer(list, peer).contains(other) <==> list.contains(other) && other.0 != peer,
    decreases list.len(),
{
    if list.len() > 0 {
        let front = list.drop_last();
        lemma_without_peer(front, peer, other);
        let rest = without_peer(front, peer);
        let all = without_peer(list, peer);
        if list.contains(other) && other.0 != peer {
            let k = choose|k: int| 0 <= k < list.len() && list[k] == other;
            if k < front.len() {
                assert(front[k] == other);
                let j = choose|j: int| 0 <= j < rest.len() && rest[j] == other;
                assert(all[j] == other);
            } else {
                assert(all[all.len() - 1] == other);
            }
        }
        if all.contains(other) {
            let k = choose|k: int| 0 <= k < all.len() && all[k] == other;
            if k < rest.len() {
                assert(rest[k] == other);
                let j = choose|j: int| 0 <= j < front.len() && front[j] == other;
                assert(list[j] == other);
            } else {
                assert(list[list.len() - 1] == other);
            }
        }
    }
}

proof fn lemma_failing_reaches(
    session: SessionView,
    peers: Seq<(NodeId, u64)>,
    detail: Seq<char>,
    forget: bool,
    count: nat,
)
    requires
        session.registry.valid(),
        count <= peers.len(),
        forall|j: int, k: int|
            0 <= j < k < peers.len() ==> (#[trigger] peers[j]).0 != (#[trigger] peers[k]).0,
        forall|k: int|
            0 <= k < peers.len() ==> session.registry.accepts(
                (#[trigger] peers[k]).0,
                peers[k].1,
            ),
    ensures
        ({
            let (after, actions) = session.failing(peers, detail, forget, count);
            &&& after.registry.valid()
            &&& actions.len() == count
            &&& forall|k: int|
                0 <= k < count ==> {
                    let (peer, generation) = #[trigger] peers[k];
                    &&& after.registry.knows(peer)
                    &&& after.registry.record(peer).state == PeerStateView::Failed(detail)
                    &&& actions[k] == peer_state(peer, generation, PeerStateView::Failed(detail))
                    &&& forget ==> !after.lookups.contains((peer, generation))
                }
            &&& forall|other: NodeId|
                (forall|k: int| 0 <= k < count ==> (#[trigger] peers[k]).0 != other)
                    ==> #[trigger] after.registry.knows(other) == session.registry.knows(other) && (
                session.registry.knows(other) ==> after.registry.record(other)
                    == session.registry.record(other))
            &&& !forget ==> after.lookups == session.lookups
            &&& after.connections == session.connections
            &&& after.inbound == session.inbound
            &&& after.online == session.online
        }),
    decreases count,
{
    if count > 0 {
        let earlier = (count - 1) as nat;
        lemma_failing_reaches(session, peers, detail, forget, earlier);
        let (before, told) = session.failing(peers, detail, forget, earlier);
        let (after, actions) = session.failing(peers, detail, forget, count);
        let (peer, generation) = peers[count - 1];
        assert forall|k: int| 0 <= k < earlier implies (#[trigger] peers[k]).0 != peer by {}
        assert(before.registry.knows(peer) == session.registry.knows(peer));
        assert(before.registry.accepts(peer, generation));
        let failed = PeerStateView::Failed(detail);
        let reported = before.registry.reported(peer, generation, failed);
        assert forall|k: int| 0 <= k < count implies {
            let (found, number) = #[trigger] peers[k];
            &&& after.registry.knows(found)
            &&& after.registry.record(found).state == failed
            &&& actions[k] == peer_state(found, number, failed)
            &&& forget ==> !after.lookups.contains((found, number))
        } by {
            let (found, number) = peers[k];
            if k < earlier {
                crate::network_state::reports_touch_one_peer(
                    before.registry,
                    peer,
                    generation,
                    failed,
                    found,
                );
                lemma_dropped(before.lookups, (peer, generation), (found, number));
            } else {
                lemma_reported(before.registry, peer, generation, failed);
                lemma_dropped(before.lookups, (peer, generation), (found, number));
            }
        }
        assert forall|other: NodeId|
            (forall|k: int| 0 <= k < count ==> (#[trigger] peers[k]).0 != other)
        implies #[trigger] after.registry.knows(other) == session.registry.knows(other) && (
        session.registry.knows(other) ==> after.registry.record(other) == session.registry.record(
            other,
        )) by {
            assert(peers[count - 1].0 != other);
            assert(forall|k: int| 0 <= k < earlier ==> (#[trigger] peers[k]).0 != other);
            assert(before.registry.knows(other) == session.registry.knows(other));
            crate::network_state::reports_touch_one_peer(
                before.registry,
                peer,
                generation,
                failed,
                other,
            );
        }
        lemma_reported(before.registry, peer, generation, failed);
    }
}

proof fn lemma_reported(
    registry: RegistryView,
    peer: NodeId,
    generation: u64,
    state: PeerStateView,
)
    requires
        registry.valid(),
        registry.accepts(peer, generation),
    ensures
        registry.reported(peer, generation, state).valid(),
        registry.reported(peer, generation, state).knows(peer),
        registry.reported(peer, generation, state).record(peer).state == state,
        registry.reported(peer, generation, state).record(peer).generation == generation,
{
    let other = NodeId {
        value: if peer.value == 0 {
            1
        } else {
            0
        },
    };
    crate::network_state::reports_touch_one_peer(registry, peer, generation, state, other);
}

/// Another signal server ends what runs, in this order: the work for the peers stops, the
/// transfers are interrupted, the connections are closed. The old server is dropped, the
/// attempt to reach it is given up, and last of all the new one is connected.
pub proof fn reconfiguring_ends_what_runs(session: SessionView, server: Seq<char>)
    requires
        session.valid(),
    ensures
        ({
            let (after, actions) = session.reconfigured(server);
            let end = actions.len() as int;
            &&& end >= 7
            &&& actions[0] == SessionActionView::AbortPeerTasks
            &&& actions[1] == SessionActionView::InterruptTransfers
            &&& actions[2] == SessionActionView::CloseConnections
            &&& actions[end - 4] == SessionActionView::DropSignal
            &&& actions[end - 3] == SessionActionView::AbortConnect
            &&& actions[end - 1] == SessionActionView::ConnectSignal {
                generation: after.generation,
            }
        }),
{
    let active = listed(session.registry.peers, record_active());
    let generation = if session.generation == u64::MAX {
        0
    } else {
        (session.generation + 1) as u64
    };
    let cleared = SessionView {
        server,
        generation,
        inbound: Seq::empty(),
        lookups: Seq::empty(),
        connections: Seq::empty(),
        authenticating: 0,
        ..session
    };
    lemma_failing_keeps(cleared, active, "网络配置已更改，请重新连接"@, active.len());
}

/// Another signal server fails every connection that was being made or stood, and tells
/// of each before the new server is connected.
pub proof fn reconfiguring_fails_every_peer(
    session: SessionView,
    server: Seq<char>,
    peer: NodeId,
)
    requires
        session.valid(),
        session.registry.knows(peer),
        !session.registry.record(peer).state.over(),
    ensures
        ({
            let (after, actions) = session.reconfigured(server);
            &&& after.registry.knows(peer)
            &&& after.registry.record(peer).state is Failed
            &&& exists|k: int|
                2 < k < actions.len() - 4 && #[trigger] actions[k] == peer_state(
                    peer,
                    session.registry.record(peer).generation,
                    after.registry.record(peer).state,
                )
        }),
{
    let detail = "网络配置已更改，请重新连接"@;
    let active = listed(session.registry.peers, record_active());
    let generation = if session.generation == u64::MAX {
        0
    } else {
        (session.generation + 1) as u64
    };
    let cleared = SessionView {
        server,
        generation,
        inbound: Seq::empty(),
        lookups: Seq::empty(),
        connections: Seq::empty(),
        authenticating: 0,
        ..session
    };
    let at = lemma_active_peers_fail(cleared, detail, peer);
    let (failed, told) = cleared.failing(active, detail, false, active.len());
    let actions = session.reconfigured(server).1;
    assert(actions[at + 3] == told[at]);
}

proof fn lemma_active_peers_fail(session: SessionView, detail: Seq<char>, peer: NodeId) -> (at: int)
    requires
        session.registry.valid(),
        session.registry.knows(peer),
        !session.registry.record(peer).state.over(),
    ensures
        ({
            let active = listed(session.registry.peers, record_active());
            let (after, told) = session.failing(active, detail, false, active.len());
            &&& 0 <= at < told.len()
            &&& after.registry.knows(peer)
            &&& after.registry.record(peer).state == PeerStateView::Failed(detail)
            &&& told[at] == peer_state(
                peer,
                session.registry.record(peer).generation,
                PeerStateView::Failed(detail),
            )
        }),
{
    let wanted = record_active();
    let active = listed(session.registry.peers, wanted);
    let record = session.registry.record(peer);
    let pair = (peer, record.generation);
    lemma_first_index(session.registry.peers, record_of(peer));
    assert(record_of(peer)(session.registry.peers[session.registry.position(peer)]));
    assert(wanted(session.registry.peers[session.registry.position(peer)]));
    listings_hold_what_is_wanted(session.registry.peers, wanted, pair);
    assert(active.contains(pair));
    let at = choose|at: int| 0 <= at < active.len() && active[at] == pair;
    assert forall|j: int, k: int| 0 <= j < k < active.len() implies (#[trigger] active[j]).0 != (
    #[trigger] active[k]).0 by {
        lemma_listed_once(session.registry.peers, wanted, j, k);
    }
    assert forall|k: int| 0 <= k < active.len() implies session.registry.accepts(
        (#[trigger] active[k]).0,
        active[k].1,
    ) by {
        lemma_listed_counts(session.registry, wanted, k);
    }
    lemma_failing_reaches(session, active, detail, false, active.len());
    assert(active[at].0 == peer);
    at
}

proof fn lemma_waiting_fail(
    session: SessionView,
    wanted: spec_fn(RecordView) -> bool,
    detail: Seq<char>,
    forget: bool,
    peer: NodeId,
) -> (at: int)
    requires
        session.registry.valid(),
        session.registry.knows(peer),
        forall|record: RecordView|
            #[trigger] wanted(record) ==> !record.state.over(),
    ensures
        ({
            let list = listed(session.registry.peers, wanted);
            let (after, told) = session.failing(list, detail, forget, list.len());
            let record = session.registry.record(peer);
            &&& after.registry.knows(peer)
            &&& !wanted(record) ==> after.registry.record(peer) == record
            &&& wanted(record) ==> {
                &&& 0 <= at < told.len()
                &&& after.registry.record(peer).state == PeerStateView::Failed(detail)
                &&& told[at] == peer_state(
                    peer,
                    record.generation,
                    PeerStateView::Failed(detail),
                )
                &&& forget ==> !after.lookups.contains((peer, record.generation))
            }
            &&& after.connections == session.connections
            &&& after.online == session.online
            &&& told.len() == list.len()
        }),
{
    let list = listed(session.registry.peers, wanted);
    let record = session.registry.record(peer);
    let pair = (peer, record.generation);
    let place = session.registry.position(peer);
    lemma_first_index(session.registry.peers, record_of(peer));
    assert(record_of(peer)(session.registry.peers[place]));
    assert forall|j: int, k: int| 0 <= j < k < list.len() implies (#[trigger] list[j]).0 != (
    #[trigger] list[k]).0 by {
        lemma_listed_once(session.registry.peers, wanted, j, k);
    }
    assert forall|k: int| 0 <= k < list.len() implies session.registry.accepts(
        (#[trigger] list[k]).0,
        list[k].1,
    ) by {
        lemma_listed_counts(session.registry, wanted, k);
    }
    lemma_failing_reaches(session, list, detail, forget, list.len());
    if wanted(record) {
        assert(wanted(session.registry.peers[place]));
        listings_hold_what_is_wanted(session.registry.peers, wanted, pair);
        assert(list.contains(pair));
        let at = choose|at: int| 0 <= at < list.len() && list[at] == pair;
        assert(list[at].0 == peer);
        at
    } else {
        assert forall|k: int| 0 <= k < list.len() implies (#[trigger] list[k]).0 != peer by {
            lemma_listed_counts(session.registry, wanted, k);
        }
        let after = session.failing(list, detail, forget, list.len()).0;
        assert(after.registry.knows(peer) == session.registry.knows(peer));
        0
    }
}

/// A peer that has been waited for too long fails, is told of and is looked up no more; no
/// other peer is touched, and no connection.
pub proof fn late_lookups_fail(session: SessionView, now_ms: u64, peer: NodeId)
    requires
        session.valid(),
        session.registry.knows(peer),
    ensures
        ({
            let (after, actions) = session.maintained(now_ms);
            let record = session.registry.record(peer);
            let late = record.state is PeerPending && now_ms >= record.started_ms + 15000;
            &&& after.registry.knows(peer)
            &&& after.connections == session.connections
            &&& !late ==> after.registry.record(peer) == record
            &&& late ==> after.registry.record(peer).state is Failed && !after.lookups.contains(
                (peer, record.generation),
            ) && actions.contains(
                peer_state(peer, record.generation, after.registry.record(peer).state),
            )
        }),
{
    let detail = "目标离线或候选等待超时，请重试连接"@;
    let at = lemma_waiting_fail(session, record_expired(now_ms), detail, true, peer);
}

/// A signal server that refuses lookups fails every peer that waits for one, and no
/// other; nothing is left to be looked up, and the user is told why.
pub proof fn refused_lookups_fail(session: SessionView, reason: Seq<char>, peer: NodeId)
    requires
        session.valid(),
        session.registry.knows(peer),
    ensures
        ({
            let (after, actions) = session.refused(reason);
            let record = session.registry.record(peer);
            &&& after.lookups.len() == 0
            &&& after.connections == session.connections
            &&& after.online == session.online
            &&& record.state !is PeerPending ==> after.registry.record(peer) == record
            &&& record.state is PeerPending ==> after.registry.record(peer).state
                == PeerStateView::Failed("信令查询失败："@ + reason) && actions.contains(
                peer_state(peer, record.generation, after.registry.record(peer).state),
            )
            &&& actions.last() == says("信令服务拒绝请求："@ + reason)
        }),
{
    let detail = "信令查询失败："@ + reason;
    let at = lemma_waiting_fail(session, record_waiting(), detail, false, peer);
    let waiting = listed(session.registry.peers, record_waiting());
    let told = session.failing(waiting, detail, false, waiting.len()).1;
    if session.registry.record(peer).state is PeerPending {
        assert(session.refused(reason).1[at] == told[at]);
    }
}

/// A signal server that is lost or cannot be reached is tried again after a while that
/// stays between a quarter of a second and half a minute; the attempts are counted, and a
/// lost server is dropped first.
pub proof fn lost_servers_are_tried_again(session: SessionView, detail: Seq<char>, jitter: i32)
    requires
        session.attempt < u32::MAX,
    ensures
        ({
            let (lost, actions) = session.signal_lost(detail, jitter);
            let (failed, others) = session.signal_failed(session.generation, detail, jitter);
            let later = SessionActionView::RetryLater {
                delay: Delay { millis: delay_ms(session.attempt, jitter) as u64 },
                detail,
            };
            &&& actions.len() == 3
            &&& actions[0] == SessionActionView::DropSignal
            &&& actions[1] == later
            &&& others.len() == 2
            &&& others[0] == later
            &&& 250 <= later->delay.millis <= 30000
            &&& actions[2] == others[1]
            &&& others[1] == lifecycle(
                LifecycleView::ReconnectingSignal {
                    attempt: (session.attempt + 1) as u32,
                    delay: later->delay,
                },
            )
            &&& !lost.online
            &&& lost.retrying
            &&& failed.retrying
            &&& lost.attempt == session.attempt + 1
            &&& failed.attempt == session.attempt + 1
            &&& lost.generation == session.generation
            &&& lost.server == session.server
        }),
{
    crate::network_state::delays_stay_in_bounds(session.attempt, jitter);
}

/// When its time has come, the present signal server is connected again.
pub proof fn retries_connect_the_server(session: SessionView)
    ensures
        session.retried().1.len() == 2,
        session.retried().1[1] == (SessionActionView::ConnectSignal {
            generation: session.generation,
        }),
        session.retried().0 == (SessionView { retrying: false, ..session }),
{
}

/// A server that knows this node ends the retries, keeps everything that waits, and is
/// told of with the identity that it registered.
pub proof fn servers_come_online(session: SessionView, node: NodeId)
    ensures
        ({
            let (after, actions) = session.signal_online(session.generation, node);
            &&& after.online
            &&& !after.retrying
            &&& after.attempt == 0
            &&& after.registry == session.registry
            &&& after.connections == session.connections
            &&& after.lookups == session.lookups
            &&& actions == seq![
                SessionActionView::Emit(SessionEventView::SignalIdentityRegistered(node)),
                lifecycle(LifecycleView::SignalOnline),
            ]
        }),
{
}

/// A peer that the user wants is looked up at once, or as soon as the server is back; the
/// own node never is, and a peer whose connection is being made or stands is not asked for
/// again.
pub proof fn wanted_peers_are_looked_up(session: SessionView, peer: NodeId, now_ms: u64)
    requires
        session.valid(),
        session.registry.dated(),
        session.registry.next_generation < u64::MAX,
    ensures
        ({
            let (after, actions) = session.connect_peer(peer, now_ms);
            let generation = (session.registry.next_generation + 1) as u64;
            let begins = peer != session.local && session.registry.attempt(peer) is Started;
            &&& !begins ==> after == session && actions.len() == 1 && actions[0] is Emit
            &&& begins ==> {
                &&& after.registry.knows(peer)
                &&& after.registry.record(peer).state is PeerPending
                &&& after.registry.record(peer).generation == generation
                &&& actions[0] == peer_state(peer, generation, PeerStateView::PeerPending)
                &&& actions[1] == lifecycle(LifecycleView::PeerPending { peer })
                &&& session.online ==> actions.len() == 3 && actions[2]
                    == SessionActionView::RequestLookup { peer, generation } && after.lookups
                    == session.lookups
                &&& !session.online ==> actions.len() == 2 && after.lookups
                    == session.lookups.push((peer, generation))
                &&& after.connections == session.connections
            }
        }),
{
    if session.registry.attempt(peer) is Started {
        crate::network_state::attempts_get_fresh_generations(session.registry, peer, now_ms);
    }
}

/// A lookup that could not be sent is sent again later, in its place, and the server is
/// dropped and tried again.
pub proof fn failed_lookups_are_kept(
    session: SessionView,
    peer: NodeId,
    generation: u64,
    at_front: bool,
    detail: Seq<char>,
    jitter: i32,
)
    ensures
        ({
            let (after, actions) = session.lookup_failed(peer, generation, at_front, detail, jitter);
            &&& at_front ==> after.lookups[0] == (peer, generation) && after.lookups.skip(1)
                == session.lookups
            &&& !at_front ==> after.lookups == session.lookups.push((peer, generation))
            &&& !after.online
            &&& after.registry == session.registry
            &&& after.connections == session.connections
            &&& actions.len() == 3
            &&& actions[0] == SessionActionView::DropSignal
            &&& actions[1] matches SessionActionView::RetryLater { detail: told, .. } && told
                == detail
        }),
{
    let after = session.lookup_failed(peer, generation, at_front, detail, jitter).0;
    if at_front {
        assert(after.lookups.skip(1) =~= session.lookups);
    }
}

/// The addresses of a peer that is waited for start an attempt, which may be met from
/// outside, if one of them can be reached and few attempts run; else the peer fails. An
/// attempt for a peer whose connection is being made or stands is never started.
pub proof fn candidates_start_one_attempt(
    session: SessionView,
    peer: NodeId,
    reachable: usize,
    now_ms: u64,
)
    requires
        session.valid(),
        session.is_waiting(peer),
        peer != session.local,
    ensures
        ({
            let (after, actions) = session.candidates(peer, reachable, now_ms);
            let generation = session.registry.record(peer).generation;
            let begins = reachable > 0 && session.authenticating < 8;
            let state = after.registry.record(peer).state;
            &&& after.registry.knows(peer)
            &&& after.registry.record(peer).generation == generation
            &&& after.connections == session.connections
            &&& begins ==> state is Punching && after.authenticating == session.authenticating + 1
                && after.inbound.contains((peer, generation)) && actions.last()
                == SessionActionView::StartAttempt { peer, generation } && actions[0]
                == peer_state(peer, generation, PeerStateView::Punching)
            &&& !begins ==> state is Failed && after.authenticating == session.authenticating
                && after.inbound == session.inbound && actions[0] == peer_state(
                peer,
                generation,
                state,
            ) && !actions.contains(SessionActionView::StartAttempt { peer, generation })
        }),
{
    let generation = session.registry.record(peer).generation;
    let after = session.candidates(peer, reachable, now_ms).0;
    if session.authenticating >= MAX_PENDING_PEERS {
        lemma_reported(
            session.registry,
            peer,
            generation,
            PeerStateView::Failed("待认证连接已达资源上限"@),
        );
    } else if reachable == 0 {
        lemma_reported(
            session.registry,
            peer,
            generation,
            PeerStateView::Failed("对端候选地址与本机 UDP 地址族不匹配"@),
        );
    } else {
        lemma_reported(session.registry, peer, generation, PeerStateView::Punching);
        let list = dropped(session.inbound, (peer, generation));
        assert(after.inbound[list.len() as int] == (peer, generation));
    }
}

/// Addresses of a peer whose connection is being made or stands start nothing.
pub proof fn running_attempts_are_kept(
    session: SessionView,
    peer: NodeId,
    reachable: usize,
    now_ms: u64,
)
    requires
        peer == session.local || (session.registry.knows(peer) && !session.is_waiting(peer)
            && !session.registry.record(peer).state.over()),
    ensures
        session.candidates(peer, reachable, now_ms) == (
            session,
            Seq::<SessionActionView>::empty(),
        ),
{
}

/// A peer that is connected in its present generation is served, is listed once among the
/// connections, and waits no longer for a connection from outside.
pub proof fn connected_peers_are_served(
    session: SessionView,
    peer: NodeId,
    generation: u64,
    other: (NodeId, u64),
)
    requires
        session.valid(),
        session.registry.accepts(peer, generation),
        session.registry.record(peer).state !is Connected,
    ensures
        ({
            let (after, actions) = session.peer_connected(peer, generation);
            &&& after.registry.record(peer).state is Connected
            &&& after.connections.contains((peer, generation))
            &&& other != (peer, generation) ==> after.connections.contains(other) == (
            session.connections.contains(other) && other.0 != peer)
            &&& !after.inbound.contains((peer, generation))
            &&& actions.len() == 3
            &&& actions[0] == peer_state(peer, generation, PeerStateView::Connected)
            &&& actions[1] == lifecycle(LifecycleView::Connected { peer })
            &&& actions[2] == SessionActionView::ServePeer { peer, generation }
        }),
{
    let after = session.peer_connected(peer, generation).0;
    lemma_reported(session.registry, peer, generation, PeerStateView::Connected);
    lemma_dropped(session.inbound, (peer, generation), other);
    lemma_without_peer(session.connections, peer, other);
    let kept = without_peer(session.connections, peer);
    assert(after.connections[kept.len() as int] == (peer, generation));
    if after.connections.contains(other) && other != (peer, generation) {
        let k = choose|k: int| 0 <= k < after.connections.len() && after.connections[k] == other;
        assert(kept[k] == other);
    }
    if kept.contains(other) {
        let k = choose|k: int| 0 <= k < kept.len() && kept[k] == other;
        assert(after.connections[k] == other);
    }
}

/// A connection that comes second, or after its attempt was over, is closed and changes no
/// peer and no connection.
pub proof fn second_connections_are_closed(session: SessionView, peer: NodeId, generation: u64)
    requires
        !session.registry.accepts(peer, generation) || session.registry.record(
            peer,
        ).state is Connected,
    ensures
        ({
            let (after, actions) = session.peer_connected(peer, generation);
            &&& after.registry == session.registry
            &&& after.connections == session.connections
            &&& actions.len() == 1
            &&& actions[0] is CloseDuplicate || actions[0] is CloseStale
        }),
{
}

/// A connection that ends takes its peer from the connections, and the user is told; the
/// other connections stay.
pub proof fn closed_peers_are_disconnected(
    session: SessionView,
    peer: NodeId,
    generation: u64,
    detail: Seq<char>,
    other: (NodeId, u64),
)
    requires
        session.valid(),
        session.registry.accepts(peer, generation),
        session.connections.contains((peer, generation)),
    ensures
        ({
            let (after, actions) = session.peer_closed(peer, generation, detail);
            &&& after.registry.record(peer).state is Disconnected
            &&& after.connections.contains(other) == (session.connections.contains(other)
                && other.0 != peer)
            &&& actions == seq![
                peer_state(peer, generation, PeerStateView::Disconnected),
                lifecycle(LifecycleView::Disconnected { peer: Some(peer), detail }),
            ]
        }),
{
    lemma_reported(session.registry, peer, generation, PeerStateView::Disconnected);
    lemma_without_peer(session.connections, peer, other);
}

/// An attempt that fails is told of with its reason, and waits no longer for a connection
/// from outside; one that no longer counts is only forgotten.
pub proof fn failed_attempts_are_told(
    session: SessionView,
    peer: NodeId,
    generation: u64,
    detail: Seq<char>,
)
    requires
        session.valid(),
    ensures
        ({
            let (after, actions) = session.peer_failed(peer, generation, detail);
            &&& !after.inbound.contains((peer, generation))
            &&& after.connections == session.connections
            &&& session.registry.accepts(peer, generation) ==> after.registry.record(peer).state
                == PeerStateView::Failed(detail) && actions == seq![
                peer_state(peer, generation, PeerStateView::Failed(detail)),
            ]
            &&& !session.registry.accepts(peer, generation) ==> after.registry == session.registry
                && actions.len() == 0
        }),
{
    lemma_dropped(session.inbound, (peer, generation), (peer, generation));
    if session.registry.accepts(peer, generation) {
        lemma_reported(session.registry, peer, generation, PeerStateView::Failed(detail));
    }
}

/// A step of an attempt that counts is told of as it is.
pub proof fn progress_is_told(
    session: SessionView,
    peer: NodeId,
    generation: u64,
    state: PeerStateView,
)
    requires
        session.valid(),
        session.registry.accepts(peer, generation),
    ensures
        ({
            let (after, actions) = session.peer_progress(peer, generation, state);
            &&& after.registry.record(peer).state == state
            &&& actions[0] == peer_state(peer, generation, state)
            &&& state is Authenticating ==> actions.contains(
                lifecycle(LifecycleView::Authenticating { peer }),
            )
            &&& after.connections == session.connections
        }),
{
    lemma_reported(session.registry, peer, generation, state);
    let actions = session.peer_progress(peer, generation, state).1;
    if state is Authenticating {
        assert(actions[1] == lifecycle(LifecycleView::Authenticating { peer }));
    }
}

/// A connection from outside is let in only for the attempt that waits for it, by the end
/// that does not dial.
pub proof fn only_expected_connections_are_let_in(
    session: SessionView,
    claimed: Option<(NodeId, u64)>,
)
    ensures
        session.admits(claimed) <==> (claimed matches Some((peer, generation))
            && session.registry.knows(peer) && session.registry.record(peer).generation
            == generation && !(session.local.value < peer.value) && session.inbound.contains(
            (peer, generation),
        )),
{
}

/// The next lookup is the first that its peer still waits for in its present generation.
pub proof fn lookups_go_to_waiting_peers(session: SessionView, at: int)
    requires
        0 <= at < session.lookups.len(),
    ensures
        at < session.next_wanted() ==> !(session.is_waiting(session.lookups[at].0)
            && session.registry.record(session.lookups[at].0).generation == session.lookups[at].1),
        at == session.next_wanted() ==> session.is_waiting(session.lookups[at].0)
            && session.registry.record(session.lookups[at].0).generation == session.lookups[at].1,
{
    let wanted = |lookup: (NodeId, u64)| session.wants(lookup);
    lemma_first_index(session.lookups, wanted);
    if at < session.next_wanted() {
        assert(!wanted(session.lookups[at]));
    } else if at == session.next_wanted() {
        assert(wanted(session.lookups[at]));
    }
}

/// A command about files is taken exactly if tasks can be stored, it is for another node,
/// and there is room for one of its kind: 64 selections and three continuations.
pub proof fn commands_need_room(jobs: Jobs, kind: JobKind, ready: bool, local: NodeId, peer: NodeId)
    ensures
        jobs.refusal(kind, ready, local, peer) is None <==> ready && peer != local && match kind {
            JobKind::Selection => jobs.selections < 64,
            JobKind::Continuation => jobs.continuations < 3,
        },
{
}

/// Each peer that waits to be looked up is looked up once, in order, while the server is
/// online; offline nothing is looked up and nothing is forgotten.
pub proof fn waiting_peers_are_looked_up_in_order(session: SessionView, at: int)
    requires
        0 <= at < session.lookups.len(),
    ensures
        !session.online ==> session.looking_up() == (session, None::<(NodeId, u64)>),
        session.online && session.wants(session.lookups[at]) && (forall|k: int|
            0 <= k < at ==> !session.wants(#[trigger] session.lookups[k])) ==> {
            let (after, next) = session.looking_up();
            &&& next == Some(session.lookups[at])
            &&& after.lookups == session.lookups.skip(at + 1)
            &&& after.registry == session.registry
        },
        session.online && (forall|k: int|
            0 <= k < session.lookups.len() ==> !session.wants(#[trigger] session.lookups[k]))
            ==> session.looking_up().1 is None,
{
    let wanted = |lookup: (NodeId, u64)| session.wants(lookup);
    crate::lists::lemma_first_index(session.lookups, wanted);
    let first = session.next_wanted();
    if first < session.lookups.len() {
        assert(wanted(session.lookups[first]));
    }
    if session.wants(session.lookups[at]) {
        assert(wanted(session.lookups[at]));
    }
}

/// A connection that was expected is expected once.
pub proof fn expected_connections_come_once(session: SessionView, claimed: (NodeId, u64))
    ensures
        !session.expecting_no_more(claimed).admits(Some(claimed)),
        session.expecting_no_more(claimed).registry == session.registry,
        session.expecting_no_more(claimed).connections == session.connections,
{
    lemma_dropped_gone(session.inbound, claimed);
}

proof fn lemma_dropped_gone(pairs: Seq<(NodeId, u64)>, pair: (NodeId, u64))
    ensures
        !dropped(pairs, pair).contains(pair),
    decreases pairs.len(),
{
    if pairs.len() > 0 {
        lemma_dropped_gone(pairs.drop_last(), pair);
        let front = dropped(pairs.drop_last(), pair);
        let after = dropped(pairs, pair);
        if after.contains(pair) {
            let k = choose|k: int| 0 <= k < after.len() && after[k] == pair;
            if k < front.len() {
                assert(front[k] == pair);
            }
        }
    }
}

/// Sixteen candidates are tried at most, and a silent peer is probed in thirty rounds.
pub proof fn attempts_are_limited(count: usize, round: u32)
    ensures
        candidates_refusal(count) is None <==> count <= 16,
        probes_again(round) <==> round < 30,
{
}

/// What this end sends goes on by itself; what it receives goes on once its sender, who has
/// to be connected, was asked.
pub proof fn continuations_follow_the_direction(connected: bool)
    ensures
        continuation_refusal(TaskDirection::Send, connected) is None,
        continuation_refusal(TaskDirection::Receive, connected) is None <==> connected,
        continuation_of(TaskDirection::Send) == Continuation::Enqueue,
        continuation_of(TaskDirection::Receive) == Continuation::AskPeer,
{
}

/// An attempt that ends makes room for one more, and only that changes.
pub proof fn ended_attempts_make_room(session: SessionView)
    ensures
        session.authenticating > 0 ==> session.with_attempt_over().authenticating
            == session.authenticating - 1,
        session.authenticating == 0 ==> session.with_attempt_over() == session,
        session.with_attempt_over().registry == session.registry,
        session.with_attempt_over().connections == session.connections,
{
}

} // verus!
