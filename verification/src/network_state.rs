//! Bounded, generation-fenced network state of a long-lived session.

use vstd::prelude::*;

use crate::identity::NodeId;
use crate::lists::{distinct, first_index, lemma_first_index, lemma_is_first_index};
use crate::text::{decimal, decimal_text, join_text};

verus! {

/// The most peers that are remembered.
pub const MAX_PEERS: usize = 16;

/// The most peers that are being connected at once.
pub const MAX_PENDING_PEERS: usize = 8;

/// How long a peer is looked up, in milliseconds.
pub const PEER_LOOKUP_TIMEOUT_MS: u64 = 15000;

/// The longest wait before a reconnection, in milliseconds.
pub const MAX_RECONNECT_DELAY_MS: u64 = 30000;

/// The shortest wait before a reconnection, in milliseconds.
pub const MIN_RECONNECT_DELAY_MS: u64 = 250;

/// A length of time in whole milliseconds.
#[derive(Clone, Copy, Debug, PartialEq, Eq, PartialOrd, Ord, Structural)]
pub struct Delay {
    pub millis: u64,
}

impl Delay {
    /// Whole seconds.
    pub fn as_secs(self) -> (seconds: u64)
        ensures
            seconds == self.millis / 1000,
    {
        self.millis / 1000
    }

    /// Whole milliseconds.
    pub fn as_millis(self) -> (millis: u64)
        ensures
            millis == self.millis,
    {
        self.millis
    }
}

/// What the session as a whole is doing.
#[derive(Debug, PartialEq, Eq)]
#[allow(inconsistent_fields)]
pub enum NetworkLifecycle {
    Unconfigured,
    ConnectingSignal,
    SignalOnline,
    ReconnectingSignal { attempt: u32, delay: Delay },
    PeerPending { peer: NodeId },
    Punching { peer: NodeId },
    Authenticating { peer: NodeId },
    Connected { peer: NodeId },
    Disconnected { peer: Option<NodeId>, detail: String },
    Failed { detail: String },
}

/// The short form of an identity.
pub open spec fn short_name(peer: NodeId) -> Seq<char> {
    peer.hex().take(crate::identity::SHORT_ID_CHARS as int)
}

/// What the session as a whole is doing, as mathematical values.
#[allow(inconsistent_fields)]
pub enum LifecycleView {
    Unconfigured,
    ConnectingSignal,
    SignalOnline,
    ReconnectingSignal { attempt: u32, delay: Delay },
    PeerPending { peer: NodeId },
    Punching { peer: NodeId },
    Authenticating { peer: NodeId },
    Connected { peer: NodeId },
    Disconnected { peer: Option<NodeId>, detail: Seq<char> },
    Failed { detail: Seq<char> },
}

impl View for NetworkLifecycle {
    type V = LifecycleView;

    open spec fn view(&self) -> LifecycleView {
        match *self {
            NetworkLifecycle::Unconfigured => LifecycleView::Unconfigured,
            NetworkLifecycle::ConnectingSignal => LifecycleView::ConnectingSignal,
            NetworkLifecycle::SignalOnline => LifecycleView::SignalOnline,
            NetworkLifecycle::ReconnectingSignal {
                attempt,
                delay,
            } => LifecycleView::ReconnectingSignal { attempt, delay },
            NetworkLifecycle::PeerPending { peer } => LifecycleView::PeerPending { peer },
            NetworkLifecycle::Punching { peer } => LifecycleView::Punching { peer },
            NetworkLifecycle::Authenticating { peer } => LifecycleView::Authenticating { peer },
            NetworkLifecycle::Connected { peer } => LifecycleView::Connected { peer },
            NetworkLifecycle::Disconnected { peer, detail } => LifecycleView::Disconnected {
                peer,
                detail: detail@,
            },
            NetworkLifecycle::Failed { detail } => LifecycleView::Failed { detail: detail@ },
        }
    }
}

impl LifecycleView {
    /// The text shown for this state.
    pub open spec fn text(self) -> Seq<char> {
        match self {
            LifecycleView::Unconfigured => "未配置网络"@,
            LifecycleView::ConnectingSignal => "正在连接信令"@,
            LifecycleView::SignalOnline => "信令在线；等待对端"@,
            LifecycleView::ReconnectingSignal { attempt, .. } => "信令断开；正在第 "@ + decimal(
                attempt as nat,
            ) + " 次重连"@,
            LifecycleView::PeerPending { peer } => "等待对端 "@ + short_name(peer) + " 上线"@,
            LifecycleView::Punching { peer } => "正在连接对端 "@ + short_name(peer),
            LifecycleView::Authenticating { peer } => "正在认证对端 "@ + short_name(peer),
            LifecycleView::Connected { peer } => "桌面协议已就绪 "@ + short_name(peer),
            LifecycleView::Disconnected { peer, detail } => match peer {
                Some(found) => "对端 "@ + short_name(found) + " 已断开："@ + detail,
                None => "网络已断开："@ + detail,
            },
            LifecycleView::Failed { detail } => "网络启动失败："@ + detail,
        }
    }
}

impl NetworkLifecycle {
    /// The text shown for this state.
    pub fn label(&self) -> (text: String)
        ensures
            text@ == self@.text(),
    {
        match self {
            NetworkLifecycle::Unconfigured => "未配置网络".to_owned(),
            NetworkLifecycle::ConnectingSignal => "正在连接信令".to_owned(),
            NetworkLifecycle::SignalOnline => "信令在线；等待对端".to_owned(),
            NetworkLifecycle::ReconnectingSignal { attempt, .. } => {
                let front = join_text("信令断开；正在第 ", &decimal_text(*attempt as u64));
                join_text(&front, " 次重连")
            },
            NetworkLifecycle::PeerPending { peer } => {
                let front = join_text("等待对端 ", &peer.short());
                join_text(&front, " 上线")
            },
            NetworkLifecycle::Punching { peer } => join_text("正在连接对端 ", &peer.short()),
            NetworkLifecycle::Authenticating { peer } => join_text("正在认证对端 ", &peer.short()),
            NetworkLifecycle::Connected { peer } => join_text("桌面协议已就绪 ", &peer.short()),
            NetworkLifecycle::Disconnected { peer, detail } => match peer {
                Some(found) => {
                    let front = join_text("对端 ", &found.short());
                    let middle = join_text(&front, " 已断开：");
                    join_text(&middle, detail)
                },
                None => join_text("网络已断开：", detail),
            },
            NetworkLifecycle::Failed { detail } => join_text("网络启动失败：", detail),
        }
    }
}

/// What one peer's connection is doing.
#[derive(Debug, PartialEq, Eq)]
pub enum PeerLifecycle {
    PeerPending,
    Punching,
    Authenticating,
    Negotiating,
    Connected,
    Disconnected,
    Failed(String),
}

impl Clone for PeerLifecycle {
    fn clone(&self) -> (copy: PeerLifecycle)
        ensures
            copy == *self,
    {
        match self {
            PeerLifecycle::PeerPending => PeerLifecycle::PeerPending,
            PeerLifecycle::Punching => PeerLifecycle::Punching,
            PeerLifecycle::Authenticating => PeerLifecycle::Authenticating,
            PeerLifecycle::Negotiating => PeerLifecycle::Negotiating,
            PeerLifecycle::Connected => PeerLifecycle::Connected,
            PeerLifecycle::Disconnected => PeerLifecycle::Disconnected,
            PeerLifecycle::Failed(detail) => PeerLifecycle::Failed(detail.clone()),
        }
    }
}

/// What one peer's connection is doing, as mathematical values.
pub enum PeerStateView {
    PeerPending,
    Punching,
    Authenticating,
    Negotiating,
    Connected,
    Disconnected,
    Failed(Seq<char>),
}

impl View for PeerLifecycle {
    type V = PeerStateView;

    open spec fn view(&self) -> PeerStateView {
        match *self {
            PeerLifecycle::PeerPending => PeerStateView::PeerPending,
            PeerLifecycle::Punching => PeerStateView::Punching,
            PeerLifecycle::Authenticating => PeerStateView::Authenticating,
            PeerLifecycle::Negotiating => PeerStateView::Negotiating,
            PeerLifecycle::Connected => PeerStateView::Connected,
            PeerLifecycle::Disconnected => PeerStateView::Disconnected,
            PeerLifecycle::Failed(detail) => PeerStateView::Failed(detail@),
        }
    }
}

impl PeerStateView {
    /// Whether the connection is being made.
    pub open spec fn pending(self) -> bool {
        self is PeerPending || self is Punching || self is Authenticating || self is Negotiating
    }

    /// Whether the connection is being made or stands.
    pub open spec fn active(self) -> bool {
        self.pending() || self is Connected
    }

    /// Whether the connection is over.
    pub open spec fn over(self) -> bool {
        self is Disconnected || self is Failed
    }
}

impl PeerLifecycle {
    /// Whether the connection is being made.
    pub fn is_pending(&self) -> (pending: bool)
        ensures
            pending == self@.pending(),
    {
        matches!(
            self,
            PeerLifecycle::PeerPending | PeerLifecycle::Punching | PeerLifecycle::Authenticating
                | PeerLifecycle::Negotiating
        )
    }

    /// Whether the connection is being made or stands.
    pub fn is_active(&self) -> (active: bool)
        ensures
            active == self@.active(),
    {
        self.is_pending() || matches!(self, PeerLifecycle::Connected)
    }

    /// Whether the connection is over.
    pub fn is_terminal(&self) -> (over: bool)
        ensures
            over == self@.over(),
    {
        matches!(self, PeerLifecycle::Disconnected | PeerLifecycle::Failed(_))
    }
}

/// What became of asking for a connection.
#[derive(Clone, Copy, Debug, PartialEq, Eq, Structural)]
pub enum BeginPeerAttempt {
    Started(u64),
    AlreadyActive(u64),
    AtCapacity,
}

/// What is remembered of one peer.
#[derive(Debug)]
pub struct PeerRecord {
    pub peer: NodeId,
    pub generation: u64,
    pub state: PeerLifecycle,
    pub started_ms: u64,
}

/// What is remembered of one peer, as mathematical values.
pub struct RecordView {
    pub peer: NodeId,
    pub generation: u64,
    pub state: PeerStateView,
    pub started_ms: u64,
}

impl View for PeerRecord {
    type V = RecordView;

    open spec fn view(&self) -> RecordView {
        RecordView {
            peer: self.peer,
            generation: self.generation,
            state: self.state@,
            started_ms: self.started_ms,
        }
    }
}

/// The views of some records.
pub open spec fn record_views(peers: Seq<PeerRecord>) -> Seq<RecordView> {
    peers.map_values(|record: PeerRecord| record@)
}

/// The peers of a session, as mathematical values.
pub struct RegistryView {
    pub peers: Seq<RecordView>,
    pub next_generation: u64,
}

/// Finds a peer.
pub open spec fn record_of(peer: NodeId) -> spec_fn(RecordView) -> bool {
    |record: RecordView| record.peer == peer
}

/// How many records satisfy a condition.
pub open spec fn count_records(peers: Seq<RecordView>, wanted: spec_fn(RecordView) -> bool) -> nat
    decreases peers.len(),
{
    if peers.len() == 0 {
        0
    } else {
        count_records(peers.drop_last(), wanted) + if wanted(peers.last()) {
            1nat
        } else {
            0nat
        }
    }
}

/// Whether a record is being connected.
pub open spec fn record_pending() -> spec_fn(RecordView) -> bool {
    |record: RecordView| record.state.pending()
}

/// Whether a record is connected.
pub open spec fn record_connected() -> spec_fn(RecordView) -> bool {
    |record: RecordView| record.state is Connected
}

/// The peers and generations of the records that satisfy a condition, in order.
pub open spec fn listed(
    peers: Seq<RecordView>,
    wanted: spec_fn(RecordView) -> bool,
) -> Seq<(NodeId, u64)>
    decreases peers.len(),
{
    if peers.len() == 0 {
        Seq::empty()
    } else if wanted(peers.last()) {
        listed(peers.drop_last(), wanted).push((peers.last().peer, peers.last().generation))
    } else {
        listed(peers.drop_last(), wanted)
    }
}

/// Whether a record is being connected or stands.
pub open spec fn record_active() -> spec_fn(RecordView) -> bool {
    |record: RecordView| record.state.active()
}

/// Whether a record still waits for its peer.
pub open spec fn record_waiting() -> spec_fn(RecordView) -> bool {
    |record: RecordView| record.state is PeerPending
}

/// Whether a record has waited too long for its peer.
pub open spec fn record_expired(now_ms: u64) -> spec_fn(RecordView) -> bool {
    |record: RecordView|
        record.state is PeerPending && now_ms - record.started_ms >= PEER_LOOKUP_TIMEOUT_MS
}

/// The position of the oldest record that is over; the length where none is.
pub open spec fn oldest_over(peers: Seq<RecordView>) -> int
    decreases peers.len(),
{
    if peers.len() == 0 {
        0
    } else {
        let earlier = oldest_over(peers.drop_last());
        if !peers.last().state.over() {
            if earlier < peers.len() - 1 {
                earlier
            } else {
                peers.len() as int
            }
        } else if earlier < peers.len() - 1 && peers[earlier].generation
            <= peers.last().generation {
            earlier
        } else {
            peers.len() - 1
        }
    }
}

/// The generation after this one; it is never zero.
pub open spec fn generation_after(generation: u64) -> u64 {
    if generation == u64::MAX {
        1
    } else {
        (generation + 1) as u64
    }
}

impl RegistryView {
    /// Each peer once and no more than allowed.
    pub open spec fn valid(self) -> bool {
        &&& self.peers.len() <= MAX_PEERS
        &&& distinct(self.peers, |record: RecordView| record.peer)
    }

    /// No record is newer than the last generation given out. This holds of every
    /// registry until its generations start over after the last one.
    pub open spec fn dated(self) -> bool {
        forall|i: int|
            0 <= i < self.peers.len() ==> (#[trigger] self.peers[i]).generation
                <= self.next_generation
    }

    /// Where a peer stands; the number of peers where it is unknown.
    pub open spec fn position(self, peer: NodeId) -> int {
        first_index(self.peers, record_of(peer))
    }

    /// Whether a peer is known.
    pub open spec fn knows(self, peer: NodeId) -> bool {
        self.position(peer) < self.peers.len()
    }

    /// The record of a known peer.
    pub open spec fn record(self, peer: NodeId) -> RecordView {
        self.peers[self.position(peer)]
    }

    /// What an attempt comes to.
    pub open spec fn attempt(self, peer: NodeId) -> BeginPeerAttempt {
        if self.knows(peer) && self.record(peer).state.active() {
            BeginPeerAttempt::AlreadyActive(self.record(peer).generation)
        } else if count_records(self.peers, record_pending()) >= MAX_PENDING_PEERS {
            BeginPeerAttempt::AtCapacity
        } else if self.peers.len() >= MAX_PEERS && oldest_over(self.peers) == self.peers.len() {
            BeginPeerAttempt::AtCapacity
        } else {
            BeginPeerAttempt::Started(generation_after(self.next_generation))
        }
    }

    /// The peers once there is room: a full registry forgets the oldest one that is over.
    pub open spec fn with_room(self) -> Seq<RecordView> {
        if self.peers.len() >= MAX_PEERS && oldest_over(self.peers) < self.peers.len() {
            self.peers.remove(oldest_over(self.peers))
        } else {
            self.peers
        }
    }

    /// The registry once an attempt has started.
    pub open spec fn started(self, peer: NodeId, now_ms: u64) -> RegistryView {
        let generation = generation_after(self.next_generation);
        let peers = self.with_room();
        let at = first_index(peers, record_of(peer));
        let record = RecordView {
            peer,
            generation,
            state: PeerStateView::PeerPending,
            started_ms: now_ms,
        };
        RegistryView {
            peers: if at < peers.len() {
                peers.update(at, record)
            } else {
                peers.push(record)
            },
            next_generation: generation,
        }
    }

    /// The registry once a report has been taken; one that does not count changes
    /// nothing.
    pub open spec fn reported(
        self,
        peer: NodeId,
        generation: u64,
        state: PeerStateView,
    ) -> RegistryView {
        if self.accepts(peer, generation) {
            RegistryView {
                peers: self.peers.update(
                    self.position(peer),
                    RecordView { state, ..self.record(peer) },
                ),
                ..self
            }
        } else {
            self
        }
    }

    /// Whether a report about a peer still counts: it is of the present generation,
    /// and the connection is not over.
    pub open spec fn accepts(self, peer: NodeId, generation: u64) -> bool {
        self.knows(peer) && self.record(peer).generation == generation && !self.record(
            peer,
        ).state.over()
    }
}

/// A small registry that prevents duplicate work and rejects stale reports.
#[derive(Debug)]
pub struct PeerRegistry {
    peers: Vec<PeerRecord>,
    next_generation: u64,
}

impl View for PeerRegistry {
    type V = RegistryView;

    closed spec fn view(&self) -> RegistryView {
        RegistryView {
            peers: record_views(self.peers@),
            next_generation: self.next_generation,
        }
    }
}

impl Default for PeerRegistry {
    fn default() -> (registry: PeerRegistry)
        ensures
            registry@ == (RegistryView { peers: Seq::empty(), next_generation: 0 }),
            registry@.dated(),
            registry@.valid(),
    {
        let registry = PeerRegistry { peers: Vec::new(), next_generation: 0 };
        assert(registry@.peers =~= Seq::empty());
        registry
    }
}

fn find_record(peers: &Vec<PeerRecord>, peer: NodeId) -> (at: usize)
    ensures
        at == first_index(record_views(peers@), record_of(peer)),
        at <= peers@.len(),
        at < peers@.len() ==> peers@[at as int].peer == peer,
{
    let ghost views = record_views(peers@);
    let mut i: usize = 0;
    while i < peers.len()
        invariant
            i <= peers@.len(),
            views == record_views(peers@),
            forall|k: int| 0 <= k < i ==> !record_of(peer)(#[trigger] views[k]),
        decreases peers@.len() - i,
    {
        assert(views[i as int] == peers@[i as int]@);
        if peers[i].peer == peer {
            proof {
                assert(record_of(peer)(views[i as int]));
                lemma_is_first_index(views, record_of(peer), i as int);
            }
            return i;
        }
        i = i + 1;
    }
    proof {
        lemma_is_first_index(views, record_of(peer), i as int);
    }
    i
}

fn find_oldest_over(peers: &Vec<PeerRecord>) -> (at: usize)
    ensures
        at == oldest_over(record_views(peers@)),
        at <= peers@.len(),
{
    let ghost views = record_views(peers@);
    let mut best: usize = 0;
    let mut i: usize = 0;
    assert(views.take(0) =~= Seq::<RecordView>::empty());
    while i < peers.len()
        invariant
            i <= peers@.len(),
            views == record_views(peers@),
            best <= i,
            best == oldest_over(views.take(i as int)),
        decreases peers@.len() - i,
    {
        assert(views.take(i + 1).drop_last() =~= views.take(i as int));
        assert(views.take(i + 1).last() == peers@[i as int]@);
        if best < i {
            assert(views.take(i + 1)[best as int] == peers@[best as int]@);
        }
        if !peers[i].state.is_terminal() {
            if best == i {
                best = i + 1;
            }
        } else if best < i && peers[best].generation <= peers[i].generation {
        } else {
            best = i;
        }
        i = i + 1;
    }
    assert(views.take(i as int) =~= views);
    best
}

proof fn lemma_record_removed(peers: Seq<RecordView>, at: int)
    requires
        distinct(peers, |record: RecordView| record.peer),
        0 <= at < peers.len(),
    ensures
        distinct(peers.remove(at), |record: RecordView| record.peer),
{
    let key = |record: RecordView| record.peer;
    let after = peers.remove(at);
    assert forall|i: int, j: int| 0 <= i < j < after.len() implies key(#[trigger] after[i]) != key(
        #[trigger] after[j],
    ) by {
        let a = if i < at {
            i
        } else {
            i + 1
        };
        let b = if j < at {
            j
        } else {
            j + 1
        };
        assert(key(peers[a]) != key(peers[b]));
    }
}

proof fn lemma_record_stored(peers: Seq<RecordView>, record: RecordView)
    requires
        distinct(peers, |found: RecordView| found.peer),
    ensures
        ({
            let at = first_index(peers, record_of(record.peer));
            distinct(
                if at < peers.len() {
                    peers.update(at, record)
                } else {
                    peers.push(record)
                },
                |found: RecordView| found.peer,
            )
        }),
{
    let key = |found: RecordView| found.peer;
    let at = first_index(peers, record_of(record.peer));
    let after = if at < peers.len() {
        peers.update(at, record)
    } else {
        peers.push(record)
    };
    lemma_first_index(peers, record_of(record.peer));
    assert forall|i: int, j: int| 0 <= i < j < after.len() implies key(#[trigger] after[i]) != key(
        #[trigger] after[j],
    ) by {
        if at < peers.len() {
            assert(record_of(record.peer)(peers[at]));
            assert(key(peers[i]) != key(peers[j]));
        } else if j == peers.len() {
            assert(!record_of(record.peer)(peers[i]));
        } else {
            assert(key(peers[i]) != key(peers[j]));
        }
    }
}

impl PeerRegistry {
    /// Starts a connection unless one is under way or there is no room. Where the
    /// registry is full, the oldest connection that is over makes room.
    pub fn begin_attempt(&mut self, peer: NodeId, now_ms: u64) -> (outcome: BeginPeerAttempt)
        requires
            old(self)@.valid(),
        ensures
            outcome == old(self)@.attempt(peer),
            final(self)@ == if outcome is Started {
                old(self)@.started(peer, now_ms)
            } else {
                old(self)@
            },
            final(self)@.valid(),
            old(self)@.dated() && old(self)@.next_generation < u64::MAX ==> final(self)@.dated(),
    {
        let at: usize = find_record(&self.peers, peer);
        if at < self.peers.len() && self.peers[at].state.is_active() {
            return BeginPeerAttempt::AlreadyActive(self.peers[at].generation);
        }
        if self.count_pending() >= MAX_PENDING_PEERS {
            return BeginPeerAttempt::AtCapacity;
        }
        let ghost before = self@;
        if self.peers.len() >= MAX_PEERS {
            let oldest: usize = find_oldest_over(&self.peers);
            if oldest >= self.peers.len() {
                return BeginPeerAttempt::AtCapacity;
            }
            let _ = self.peers.remove(oldest);
            proof {
                lemma_record_removed(before.peers, oldest as int);
                assert(record_views(self.peers@) =~= before.peers.remove(oldest as int));
            }
        }
        let ghost room = record_views(self.peers@);
        assert(room == before.with_room());
        let generation: u64 = if self.next_generation == u64::MAX {
            1
        } else {
            self.next_generation + 1
        };
        self.next_generation = generation;
        let record = PeerRecord {
            peer,
            generation,
            state: PeerLifecycle::PeerPending,
            started_ms: now_ms,
        };
        proof {
            lemma_record_stored(room, record@);
        }
        let place: usize = find_record(&self.peers, peer);
        if place < self.peers.len() {
            self.peers.set(place, record);
            assert(record_views(self.peers@) =~= room.update(place as int, record@));
        } else {
            self.peers.push(record);
            assert(record_views(self.peers@) =~= room.push(record@));
        }
        BeginPeerAttempt::Started(generation)
    }

    fn count_pending(&self) -> (count: usize)
        ensures
            count == count_records(self@.peers, record_pending()),
    {
        let mut count: usize = 0;
        let mut i: usize = 0;
        let ghost views = record_views(self.peers@);
        assert(views.take(0) =~= Seq::<RecordView>::empty());
        while i < self.peers.len()
            invariant
                i <= self.peers@.len(),
                views == record_views(self.peers@),
                count <= i,
                count == count_records(views.take(i as int), record_pending()),
            decreases self.peers@.len() - i,
        {
            assert(views.take(i + 1).drop_last() =~= views.take(i as int));
            assert(views.take(i + 1).last() == self.peers@[i as int]@);
            if self.peers[i].state.is_pending() {
                count = count + 1;
            }
            i = i + 1;
        }
        assert(views.take(i as int) =~= views);
        count
    }

    /// How many peers are connected.
    pub fn connected_count(&self) -> (count: usize)
        ensures
            count == count_records(self@.peers, record_connected()),
    {
        let mut count: usize = 0;
        let mut i: usize = 0;
        let ghost views = record_views(self.peers@);
        assert(views.take(0) =~= Seq::<RecordView>::empty());
        while i < self.peers.len()
            invariant
                i <= self.peers@.len(),
                views == record_views(self.peers@),
                count <= i,
                count == count_records(views.take(i as int), record_connected()),
            decreases self.peers@.len() - i,
        {
            assert(views.take(i + 1).drop_last() =~= views.take(i as int));
            assert(views.take(i + 1).last() == self.peers@[i as int]@);
            if matches!(self.peers[i].state, PeerLifecycle::Connected) {
                count = count + 1;
            }
            i = i + 1;
        }
        assert(views.take(i as int) =~= views);
        count
    }

    /// Takes a report about a peer. A stale one, or one about a connection that is
    /// over, changes nothing.
    pub fn transition(&mut self, peer: NodeId, generation: u64, state: PeerLifecycle) -> (accepted:
        bool)
        requires
            old(self)@.valid(),
        ensures
            accepted == old(self)@.accepts(peer, generation),
            final(self)@ == old(self)@.reported(peer, generation, state@),
            final(self)@.valid(),
            old(self)@.dated() ==> final(self)@.dated(),
    {
        let at: usize = find_record(&self.peers, peer);
        if at >= self.peers.len() {
            return false;
        }
        if self.peers[at].generation != generation || self.peers[at].state.is_terminal() {
            return false;
        }
        let ghost before = self@;
        let record = PeerRecord {
            peer,
            generation,
            state,
            started_ms: self.peers[at].started_ms,
        };
        proof {
            assert(before.peers[at as int] == self.peers@[at as int]@);
            lemma_record_stored(before.peers, record@);
        }
        self.peers.set(at, record);
        assert(record_views(self.peers@) =~= before.peers.update(at as int, record@));
        true
    }

    /// The peers whose connection is being made or stands.
    pub fn active_peers(&self) -> (peers: Vec<(NodeId, u64)>)
        ensures
            peers@ == listed(self@.peers, record_active()),
    {
        let mut peers: Vec<(NodeId, u64)> = Vec::new();
        let mut i: usize = 0;
        let ghost views = record_views(self.peers@);
        assert(views.take(0) =~= Seq::<RecordView>::empty());
        while i < self.peers.len()
            invariant
                i <= self.peers@.len(),
                views == record_views(self.peers@),
                peers@ == listed(views.take(i as int), record_active()),
            decreases self.peers@.len() - i,
        {
            assert(views.take(i + 1).drop_last() =~= views.take(i as int));
            assert(views.take(i + 1).last() == self.peers@[i as int]@);
            if self.peers[i].state.is_active() {
                peers.push((self.peers[i].peer, self.peers[i].generation));
            }
            i = i + 1;
        }
        assert(views.take(i as int) =~= views);
        peers
    }

    /// The peers that were looked up for too long.
    pub fn expired_lookups(&self, now_ms: u64) -> (peers: Vec<(NodeId, u64)>)
        ensures
            peers@ == listed(self@.peers, record_expired(now_ms)),
    {
        let mut peers: Vec<(NodeId, u64)> = Vec::new();
        let mut i: usize = 0;
        let ghost views = record_views(self.peers@);
        assert(views.take(0) =~= Seq::<RecordView>::empty());
        while i < self.peers.len()
            invariant
                i <= self.peers@.len(),
                views == record_views(self.peers@),
                peers@ == listed(views.take(i as int), record_expired(now_ms)),
            decreases self.peers@.len() - i,
        {
            assert(views.take(i + 1).drop_last() =~= views.take(i as int));
            assert(views.take(i + 1).last() == self.peers@[i as int]@);
            let waited: u64 = now_ms.saturating_sub(self.peers[i].started_ms);
            if matches!(self.peers[i].state, PeerLifecycle::PeerPending) && waited
                >= PEER_LOOKUP_TIMEOUT_MS {
                peers.push((self.peers[i].peer, self.peers[i].generation));
            }
            i = i + 1;
        }
        assert(views.take(i as int) =~= views);
        peers
    }

    /// The peers that are still being looked up.
    pub fn pending_peers(&self) -> (peers: Vec<(NodeId, u64)>)
        ensures
            peers@ == listed(self@.peers, record_waiting()),
    {
        let mut peers: Vec<(NodeId, u64)> = Vec::new();
        let mut i: usize = 0;
        let ghost views = record_views(self.peers@);
        assert(views.take(0) =~= Seq::<RecordView>::empty());
        while i < self.peers.len()
            invariant
                i <= self.peers@.len(),
                views == record_views(self.peers@),
                peers@ == listed(views.take(i as int), record_waiting()),
            decreases self.peers@.len() - i,
        {
            assert(views.take(i + 1).drop_last() =~= views.take(i as int));
            assert(views.take(i + 1).last() == self.peers@[i as int]@);
            if matches!(self.peers[i].state, PeerLifecycle::PeerPending) {
                peers.push((self.peers[i].peer, self.peers[i].generation));
            }
            i = i + 1;
        }
        assert(views.take(i as int) =~= views);
        peers
    }

    /// The generation of a known peer.
    pub fn generation(&self, peer: NodeId) -> (generation: Option<u64>)
        ensures
            generation == if self@.knows(peer) {
                Some(self@.record(peer).generation)
            } else {
                None
            },
    {
        let at: usize = find_record(&self.peers, peer);
        if at < self.peers.len() {
            Some(self.peers[at].generation)
        } else {
            None
        }
    }

    /// The state of a known peer.
    pub fn state(&self, peer: NodeId) -> (state: Option<&PeerLifecycle>)
        ensures
            state is Some <==> self@.knows(peer),
            state matches Some(found) ==> found@ == self@.record(peer).state,
    {
        let at: usize = find_record(&self.peers, peer);
        if at < self.peers.len() {
            Some(&self.peers[at].state)
        } else {
            None
        }
    }

    /// Whether a generation is the present one of a peer.
    pub fn is_current(&self, peer: NodeId, generation: u64) -> (current: bool)
        ensures
            current == (self@.knows(peer) && self@.record(peer).generation == generation),
    {
        match self.generation(peer) {
            Some(found) => found == generation,
            None => false,
        }
    }
}

/// The node with the lower identity dials.
pub fn should_initiate_quic(local: NodeId, peer: NodeId) -> (dials: bool)
    ensures
        dials == (local.value < peer.value),
{
    local.value < peer.value
}

/// Of two different nodes exactly one dials the other; no node dials itself.
pub proof fn exactly_one_end_dials(left: NodeId, right: NodeId)
    ensures
        left != right ==> (left.value < right.value) != (right.value < left.value),
        left == right ==> !(left.value < right.value),
{
}

/// The wait before a reconnection without jitter, in milliseconds: doubling from one
/// second, at most thirty.
pub open spec fn base_delay_ms(attempt: u32) -> int {
    if attempt == 0 {
        1000
    } else if attempt == 1 {
        2000
    } else if attempt == 2 {
        4000
    } else if attempt == 3 {
        8000
    } else if attempt == 4 {
        16000
    } else {
        30000
    }
}

/// A value held between two bounds.
pub open spec fn clamped(value: int, low: int, high: int) -> int {
    if value < low {
        low
    } else if value > high {
        high
    } else {
        value
    }
}

/// A quotient rounded towards zero.
pub open spec fn towards_zero(value: int, divisor: int) -> int {
    if value >= 0 {
        value / divisor
    } else {
        -((-value) / divisor)
    }
}

/// The wait before a reconnection: the base, moved by at most a fifth, between a
/// quarter of a second and half a minute.
pub open spec fn delay_ms(attempt: u32, jitter_per_mille: i32) -> int {
    let base = base_delay_ms(attempt);
    let jitter = clamped(jitter_per_mille as int, -200, 200);
    clamped(
        base + towards_zero(base * jitter, 1000),
        MIN_RECONNECT_DELAY_MS as int,
        MAX_RECONNECT_DELAY_MS as int,
    )
}

/// Capped exponential delay with jitter in per-mille units.
pub fn reconnect_delay(attempt: u32, jitter_per_mille: i32) -> (delay: Delay)
    ensures
        delay.millis == delay_ms(attempt, jitter_per_mille),
        MIN_RECONNECT_DELAY_MS <= delay.millis <= MAX_RECONNECT_DELAY_MS,
{
    let base: i64 = match attempt {
        0 => 1000,
        1 => 2000,
        2 => 4000,
        3 => 8000,
        4 => 16000,
        _ => 30000,
    };
    let jitter: i64 = if jitter_per_mille < -200 {
        -200
    } else if jitter_per_mille > 200 {
        200
    } else {
        jitter_per_mille as i64
    };
    assert(-6000000 <= base * jitter <= 6000000) by (nonlinear_arith)
        requires
            1000 <= base <= 30000,
            -200 <= jitter <= 200,
    ;
    let product: i64 = base * jitter;
    let moved: i64 = if product >= 0 {
        product / 1000
    } else {
        -((-product) / 1000)
    };
    let adjusted: i64 = base + moved;
    if adjusted < 250 {
        Delay { millis: 250 }
    } else if adjusted > 30000 {
        Delay { millis: 30000 }
    } else {
        Delay { millis: adjusted as u64 }
    }
}

/// A connection that is over stays over until a new attempt, and a report of an
/// earlier generation never changes a later attempt.
pub proof fn late_reports_change_nothing(registry: RegistryView, peer: NodeId, generation: u64)
    requires
        registry.knows(peer),
        registry.record(peer).state.over() || registry.record(peer).generation != generation,
    ensures
        !registry.accepts(peer, generation),
{
}

proof fn lemma_oldest_over(peers: Seq<RecordView>)
    ensures
        0 <= oldest_over(peers) <= peers.len(),
    decreases peers.len(),
{
    if peers.len() > 0 {
        lemma_oldest_over(peers.drop_last());
    }
}

/// A new attempt gets a generation that no attempt before it had, of this peer or another.
pub proof fn attempts_get_fresh_generations(registry: RegistryView, peer: NodeId, now_ms: u64)
    requires
        registry.valid(),
        registry.dated(),
        registry.next_generation < u64::MAX,
        registry.attempt(peer) is Started,
    ensures
        registry.started(peer, now_ms).dated(),
        registry.started(peer, now_ms).knows(peer),
        registry.started(peer, now_ms).record(peer).state is PeerPending,
        registry.started(peer, now_ms).record(peer).generation == registry.next_generation + 1,
        forall|i: int|
            0 <= i < registry.peers.len() ==> (#[trigger] registry.peers[i]).generation
                < registry.started(peer, now_ms).record(peer).generation,
{
    let after = registry.started(peer, now_ms);
    let peers = registry.with_room();
    lemma_oldest_over(registry.peers);
    assert forall|i: int| 0 <= i < peers.len() implies (#[trigger] peers[i]).generation
        <= registry.next_generation by {
        let gap = oldest_over(registry.peers);
        let at = if peers.len() == registry.peers.len() || i < gap {
            i
        } else {
            i + 1
        };
        assert(peers[i] == registry.peers[at]);
    }
    lemma_first_index(peers, record_of(peer));
    let at = first_index(peers, record_of(peer));
    assert forall|k: int| 0 <= k < at implies !record_of(peer)(#[trigger] after.peers[k]) by {
        assert(!record_of(peer)(peers[k]));
    }
    lemma_is_first_index(after.peers, record_of(peer), at);
}

/// The wait grows with the attempts while the jitter stays.
pub proof fn delays_never_shrink(attempt: u32, next: u32)
    requires
        attempt <= next,
    ensures
        delay_ms(attempt, 0) <= delay_ms(next, 0),
        attempt < 4 ==> delay_ms((attempt + 1) as u32, 0) == 2 * delay_ms(attempt, 0),
{
    assert(base_delay_ms(attempt) * 0 == 0);
    assert(base_delay_ms(next) * 0 == 0);
    assert(base_delay_ms((attempt + 1) as u32) * 0 == 0);
}

/// A report that counts puts one peer in the reported state and leaves its generation,
/// its time and every other peer alone.
pub proof fn reports_touch_one_peer(
    registry: RegistryView,
    peer: NodeId,
    generation: u64,
    state: PeerStateView,
    other: NodeId,
)
    requires
        registry.valid(),
        registry.accepts(peer, generation),
        other != peer,
    ensures
        ({
            let after = registry.reported(peer, generation, state);
            &&& after.knows(peer)
            &&& after.record(peer).state == state
            &&& after.record(peer).generation == generation
            &&& after.record(peer).started_ms == registry.record(peer).started_ms
            &&& after.knows(other) == registry.knows(other)
            &&& registry.knows(other) ==> after.record(other) == registry.record(other)
            &&& after.next_generation == registry.next_generation
            &&& after.peers.len() == registry.peers.len()
            &&& after.valid()
        }),
{
    let after = registry.reported(peer, generation, state);
    let at = registry.position(peer);
    lemma_first_index(registry.peers, record_of(peer));
    lemma_first_index(registry.peers, record_of(other));
    assert(record_of(peer)(registry.peers[at]));
    assert(record_of(peer)(after.peers[at]));
    assert forall|k: int| 0 <= k < at implies !record_of(peer)(#[trigger] after.peers[k]) by {
        assert(!record_of(peer)(registry.peers[k]));
    }
    lemma_is_first_index(after.peers, record_of(peer), at);
    let place = registry.position(other);
    assert forall|k: int| 0 <= k < place implies !record_of(other)(#[trigger] after.peers[k]) by {
        assert(!record_of(other)(registry.peers[k]));
    }
    if registry.knows(other) {
        assert(record_of(other)(registry.peers[place]));
        assert(after.peers[place] == registry.peers[place]);
    }
    lemma_is_first_index(after.peers, record_of(other), place);
    lemma_record_stored(registry.peers, RecordView { state, ..registry.record(peer) });
}

/// A peer whose connection is being made or stands gets no second one; there is room for
/// another attempt while few are under way and a place is free or can be made free.
pub proof fn attempts_need_room(registry: RegistryView, peer: NodeId)
    ensures
        registry.attempt(peer) is AlreadyActive <==> registry.knows(peer) && (registry.record(
            peer,
        ).state is PeerPending || registry.record(peer).state is Punching || registry.record(
            peer,
        ).state is Authenticating || registry.record(peer).state is Negotiating
            || registry.record(peer).state is Connected),
        registry.attempt(peer) matches BeginPeerAttempt::AlreadyActive(generation) ==> generation
            == registry.record(peer).generation,
        registry.attempt(peer) matches BeginPeerAttempt::Started(generation) ==> generation
            == registry.started(peer, 0).next_generation,
        !(registry.knows(peer) && registry.record(peer).state.active()) && count_records(
            registry.peers,
            record_pending(),
        ) < MAX_PENDING_PEERS && (registry.peers.len() < MAX_PEERS || exists|k: int|
            0 <= k < registry.peers.len() && (#[trigger] registry.peers[k]).state.over())
            ==> registry.attempt(peer) is Started,
{
    if exists|k: int|
        0 <= k < registry.peers.len() && (#[trigger] registry.peers[k]).state.over() {
        let k = choose|k: int|
            0 <= k < registry.peers.len() && (#[trigger] registry.peers[k]).state.over();
        lemma_oldest_is_over(registry.peers, k);
    }
}

proof fn lemma_oldest_is_over(peers: Seq<RecordView>, at: int)
    requires
        0 <= at < peers.len(),
        peers[at].state.over(),
    ensures
        0 <= oldest_over(peers) < peers.len(),
        peers[oldest_over(peers)].state.over(),
        peers[oldest_over(peers)].generation <= peers[at].generation,
    decreases peers.len(),
{
    lemma_oldest_over(peers.drop_last());
    if at < peers.len() - 1 {
        assert(peers.drop_last()[at] == peers[at]);
        lemma_oldest_is_over(peers.drop_last(), at);
    } else {
        let earlier = oldest_over(peers.drop_last());
        if earlier < peers.len() - 1 {
            lemma_oldest_over_is_over(peers.drop_last());
        }
    }
}

proof fn lemma_oldest_over_is_over(peers: Seq<RecordView>)
    requires
        oldest_over(peers) < peers.len(),
    ensures
        0 <= oldest_over(peers),
        peers[oldest_over(peers)].state.over(),
    decreases peers.len(),
{
    lemma_oldest_over(peers.drop_last());
    let earlier = oldest_over(peers.drop_last());
    if earlier < peers.len() - 1 {
        lemma_oldest_over_is_over(peers.drop_last());
        assert(peers.drop_last()[earlier] == peers[earlier]);
    }
}

/// A full registry forgets a connection that is over, and the one with the lowest
/// generation of these; nothing else is ever forgotten.
pub proof fn full_registries_forget_the_oldest(registry: RegistryView, at: int)
    requires
        0 <= at < registry.peers.len(),
    ensures
        registry.peers.len() < MAX_PEERS ==> registry.with_room() == registry.peers,
        !registry.with_room().contains(registry.peers[at]) ==> registry.peers[at].state.over()
            && forall|k: int|
            0 <= k < registry.peers.len() && (#[trigger] registry.peers[k]).state.over()
                ==> registry.peers[at].generation <= registry.peers[k].generation,
{
    let peers = registry.peers;
    let room = registry.with_room();
    if !room.contains(peers[at]) {
        lemma_oldest_over(peers);
        let gap = oldest_over(peers);
        if peers.len() >= MAX_PEERS && gap < peers.len() {
            if at < gap {
                assert(room[at] == peers[at]);
            } else if at > gap {
                assert(room[at - 1] == peers[at]);
            }
            lemma_oldest_over_is_over(peers);
            assert forall|k: int|
                0 <= k < peers.len() && (#[trigger] peers[k]).state.over() implies peers[at].generation
                <= peers[k].generation by {
                lemma_oldest_is_over(peers, k);
            }
        } else {
            assert(room[at] == peers[at]);
        }
    }
}

/// Exactly the records that satisfy a condition are listed, each with its generation.
pub proof fn listings_hold_what_is_wanted(
    peers: Seq<RecordView>,
    wanted: spec_fn(RecordView) -> bool,
    pair: (NodeId, u64),
)
    ensures
        listed(peers, wanted).contains(pair) <==> exists|k: int|
            0 <= k < peers.len() && wanted(#[trigger] peers[k]) && peers[k].peer == pair.0
                && peers[k].generation == pair.1,
    decreases peers.len(),
{
    if peers.len() > 0 {
        let front = peers.drop_last();
        listings_hold_what_is_wanted(front, wanted, pair);
        let before = listed(front, wanted);
        let all = listed(peers, wanted);
        if before.contains(pair) {
            let k = choose|k: int|
                0 <= k < front.len() && wanted(#[trigger] front[k]) && front[k].peer == pair.0
                    && front[k].generation == pair.1;
            assert(peers[k] == front[k]);
            let j = choose|j: int| 0 <= j < before.len() && before[j] == pair;
            assert(all[j] == pair);
        }
        if wanted(peers.last()) {
            assert(all.last() == (peers.last().peer, peers.last().generation));
            if (peers.last().peer, peers.last().generation) == pair {
                assert(all[all.len() - 1] == pair);
                assert(wanted(peers[peers.len() - 1]));
            }
        }
        if all.contains(pair) && !before.contains(pair) {
            let j = choose|j: int| 0 <= j < all.len() && all[j] == pair;
            if j < before.len() {
                assert(before[j] == pair);
            }
        }
        if exists|k: int|
            0 <= k < peers.len() && wanted(#[trigger] peers[k]) && peers[k].peer == pair.0
                && peers[k].generation == pair.1 {
            let k = choose|k: int|
                0 <= k < peers.len() && wanted(#[trigger] peers[k]) && peers[k].peer == pair.0
                    && peers[k].generation == pair.1;
            if k < front.len() {
                assert(front[k] == peers[k]);
            }
        }
    }
}

/// A lookup expires when its peer has been waited for as long as is allowed, and no
/// sooner.
pub proof fn lookups_expire_in_time(record: RecordView, now_ms: u64)
    ensures
        record_expired(now_ms)(record) <==> record.state is PeerPending && now_ms
            >= record.started_ms + PEER_LOOKUP_TIMEOUT_MS,
        record_waiting()(record) <==> record.state is PeerPending,
        record_active()(record) <==> !(record.state is Disconnected || record.state is Failed),
{
}

/// The wait before a reconnection stays within a fifth of its base, a quarter of a second
/// and half a minute, whatever the jitter.
pub proof fn delays_stay_in_bounds(attempt: u32, jitter: i32)
    ensures
        250 <= delay_ms(attempt, jitter) <= 30000,
        5 * delay_ms(attempt, jitter) >= 4 * delay_ms(attempt, 0),
        5 * delay_ms(attempt, jitter) <= 6 * delay_ms(attempt, 0),
        delay_ms(0, 0) == 1000,
        attempt >= 5 ==> delay_ms(attempt, 0) == 30000,
{
    let base = base_delay_ms(attempt);
    let moved = clamped(jitter as int, -200, 200);
    assert(base * 0 == 0);
    assert(base_delay_ms(0) * 0 == 0);
    assert(-200 * base <= base * moved <= 200 * base) by (nonlinear_arith)
        requires
            -200 <= moved <= 200,
            base >= 0,
    ;
}

} // verus!
