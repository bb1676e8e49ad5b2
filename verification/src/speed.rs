//! One memory speed test with a peer: who may start it, what its messages mean, and
//! when both ends agree on its result.

use vstd::prelude::*;

use crate::activity::{Activity, PeerActivity, SpeedPermit};
use crate::error::{decided, failure, Error, Result};
use crate::identity::NodeId;
use crate::protocol::{Frame, Message};
use crate::speed_control::{
    lease_source, source_of, ArbiterView, LeaseView, SpeedArbiter, SpeedControl, SpeedDirection,
    SpeedLease,
};
use crate::task_model::TaskId;

verus! {

/// How long one control message may take, in milliseconds.
pub const CONTROL_TIMEOUT_MS: u64 = 5000;

/// How long a test may be silent, in milliseconds.
pub const IDLE_MS: u64 = 30000;

/// The size of the blocks that are sent, in bytes.
pub const BLOCK: usize = 65536;

/// The largest control message, in bytes.
pub const HEADER_LIMIT: u32 = 4096;

/// How many data streams may wait for their header.
pub const MAX_HEADERS: usize = 8;

/// How a test stands.
#[derive(Clone, Copy, Debug, PartialEq, Eq, Structural)]
pub enum SpeedStatus {
    Running,
    Completed,
    Cancelled,
    Interrupted,
}

/// How long a measurement is shown before the next one, in nanoseconds.
pub const SHOW_INTERVAL_NS: u128 = 1000000000;

/// What is shown of a test, as mathematical values.
pub struct SnapshotView {
    pub test_id: Seq<char>,
    pub direction: SpeedDirection,
    pub owner: NodeId,
    pub seconds: u16,
    pub status: SpeedStatus,
    pub bytes: u64,
    pub elapsed_ns: u128,
    pub rtt_ns: u128,
    pub measured: bool,
}

/// What is shown of a test, with times in nanoseconds. The rate is the bytes over the elapsed time, and nothing
/// unless it was measured.
#[derive(Debug)]
pub struct SpeedSnapshot {
    pub test_id: TaskId,
    pub direction: SpeedDirection,
    pub owner: NodeId,
    pub seconds: u16,
    pub status: SpeedStatus,
    pub bytes: u64,
    pub elapsed_ns: u128,
    pub rtt_ns: u128,
    pub measured: bool,
}

impl View for SpeedSnapshot {
    type V = SnapshotView;

    open spec fn view(&self) -> SnapshotView {
        SnapshotView {
            test_id: self.test_id@,
            direction: self.direction,
            owner: self.owner,
            seconds: self.seconds,
            status: self.status,
            bytes: self.bytes,
            elapsed_ns: self.elapsed_ns,
            rtt_ns: self.rtt_ns,
            measured: self.measured,
        }
    }
}

impl SnapshotView {
    /// What is shown of a test that has just started.
    pub open spec fn started(lease: LeaseView) -> SnapshotView {
        SnapshotView {
            test_id: lease.test_id,
            direction: lease.direction,
            owner: lease.owner,
            seconds: lease.seconds,
            status: SpeedStatus::Running,
            bytes: 0,
            elapsed_ns: 0,
            rtt_ns: 0,
            measured: false,
        }
    }

    /// What is shown of a test that ended without a result.
    pub open spec fn ended(self, status: SpeedStatus) -> SnapshotView {
        SnapshotView { status, measured: false, ..self }
    }
}

impl SpeedSnapshot {
    fn new(lease: &SpeedLease) -> (snapshot: SpeedSnapshot)
        ensures
            snapshot@ == SnapshotView::started(lease@),
    {
        SpeedSnapshot {
            test_id: lease.test_id.clone(),
            direction: lease.direction,
            owner: lease.owner,
            seconds: lease.seconds,
            status: SpeedStatus::Running,
            bytes: 0,
            elapsed_ns: 0,
            rtt_ns: 0,
            measured: false,
        }
    }

    /// The same snapshot again.
    pub fn duplicate(&self) -> (copy: SpeedSnapshot)
        ensures
            copy@ == self@,
    {
        SpeedSnapshot {
            test_id: self.test_id.clone(),
            direction: self.direction,
            owner: self.owner,
            seconds: self.seconds,
            status: self.status,
            bytes: self.bytes,
            elapsed_ns: self.elapsed_ns,
            rtt_ns: self.rtt_ns,
            measured: self.measured,
        }
    }
}

/// A test that runs, as mathematical values.
pub struct ActiveTestView {
    pub lease: LeaseView,
    pub cancelled: bool,
    pub stream_expected: bool,
    pub finishing: bool,
}

/// A test that runs.
#[derive(Debug)]
pub struct ActiveTest {
    lease: SpeedLease,
    cancelled: bool,
    stream_expected: bool,
    finishing: bool,
}

impl View for ActiveTest {
    type V = ActiveTestView;

    closed spec fn view(&self) -> ActiveTestView {
        ActiveTestView {
            lease: self.lease@,
            cancelled: self.cancelled,
            stream_expected: self.stream_expected,
            finishing: self.finishing,
        }
    }
}

/// Speed tests with one peer, as mathematical values.
pub struct SpeedView {
    pub local: NodeId,
    pub remote: NodeId,
    pub arbiter: ArbiterView,
    pub active: Option<ActiveTestView>,
    pub snapshot: Option<SnapshotView>,
    pub requesting: bool,
}

/// Speed tests with one peer.
#[derive(Debug)]
pub struct SpeedPeer {
    local: NodeId,
    remote: NodeId,
    arbiter: SpeedArbiter,
    active: Option<ActiveTest>,
    snapshot: Option<SpeedSnapshot>,
    requesting: bool,
}

impl View for SpeedPeer {
    type V = SpeedView;

    closed spec fn view(&self) -> SpeedView {
        SpeedView {
            local: self.local,
            remote: self.remote,
            arbiter: self.arbiter@,
            active: match self.active {
                Some(active) => Some(active@),
                None => None,
            },
            snapshot: match self.snapshot {
                Some(snapshot) => Some(snapshot@),
                None => None,
            },
            requesting: self.requesting,
        }
    }
}

impl SpeedView {
    /// Why a test cannot be prepared.
    pub open spec fn prepare_refusal(
        self,
        activity: crate::activity::State,
        owner: NodeId,
        seconds: u16,
        granted: Option<LeaseView>,
    ) -> Option<Seq<char>> {
        if activity.speed_refusal(self.remote) is Some {
            activity.speed_refusal(self.remote)
        } else {
            match granted {
                Some(lease) => self.arbiter.grant_refusal(self.remote, lease, 0),
                None => self.arbiter.request_refusal(owner, seconds, 0),
            }
        }
    }

    /// Tests with the peer once one has been prepared.
    pub open spec fn prepared(self, lease: LeaseView) -> SpeedView {
        SpeedView {
            arbiter: self.arbiter.granted(lease),
            active: Some(
                ActiveTestView {
                    lease,
                    cancelled: false,
                    stream_expected: lease_source(lease, self.local, self.remote) != self.local,
                    finishing: false,
                },
            ),
            snapshot: Some(SnapshotView::started(lease)),
            ..self
        }
    }

    /// Whether a test runs under the given lease.
    pub open spec fn runs(self, lease: LeaseView) -> bool {
        self.active is Some && self.active->0.lease == lease
    }

    /// Tests with the peer once the test of a lease is over, whatever became of it.
    pub open spec fn over(self, lease: LeaseView) -> SpeedView {
        if !self.runs(lease) {
            self
        } else {
            SpeedView {
                arbiter: if self.arbiter.may_finish(self.local, lease) {
                    self.arbiter.idle()
                } else {
                    self.arbiter
                },
                active: None,
                snapshot: match self.snapshot {
                    Some(snapshot) => Some(
                        if snapshot.status == SpeedStatus::Running {
                            snapshot.ended(SpeedStatus::Interrupted)
                        } else {
                            snapshot
                        },
                    ),
                    None => None,
                },
                ..self
            }
        }
    }

    /// Whether a measurement is shown: it belongs to the test that is shown, and a
    /// second has passed since the last one.
    pub open spec fn shows(self, lease: LeaseView, elapsed_ns: u128, force: bool) -> bool {
        self.snapshot is Some && self.snapshot->0.test_id == lease.test_id && (force || elapsed_ns
            >= self.snapshot->0.elapsed_ns + SHOW_INTERVAL_NS)
    }

    /// Tests with the peer once a measurement was made, which is shown where it is due.
    pub open spec fn observed(
        self,
        lease: LeaseView,
        bytes: u64,
        elapsed_ns: u128,
        rtt_ns: u128,
        force: bool,
    ) -> SpeedView {
        if self.shows(lease, elapsed_ns, force) {
            SpeedView {
                snapshot: Some(
                    SnapshotView { bytes, elapsed_ns, rtt_ns, measured: true, ..self.snapshot->0 },
                ),
                ..self
            }
        } else {
            self
        }
    }

    /// Tests with the peer once it is known how the last one ended.
    pub open spec fn noted(self, outcome: SpeedStatus) -> SpeedView {
        SpeedView {
            snapshot: match self.snapshot {
                Some(snapshot) => Some(
                    if outcome == SpeedStatus::Completed {
                        SnapshotView { status: outcome, ..snapshot }
                    } else {
                        snapshot.ended(outcome)
                    },
                ),
                None => None,
            },
            ..self
        }
    }

    /// Why a test cannot be asked to end.
    pub open spec fn cancel_refusal(self, id: Seq<char>) -> Option<Seq<char>> {
        match self.active {
            None => Some("当前没有测速"@),
            Some(active) => if active.lease.test_id != id {
                Some("测速任务已改变"@)
            } else {
                None
            },
        }
    }

    /// Tests with the peer once the running one was asked to end.
    pub open spec fn asked_to_end(self) -> SpeedView {
        SpeedView {
            active: match self.active {
                Some(active) => Some(ActiveTestView { cancelled: true, ..active }),
                None => None,
            },
            ..self
        }
    }

    /// Tests with the peer once the data stream was taken.
    pub open spec fn with_stream(self) -> SpeedView {
        SpeedView {
            arbiter: ArbiterView { stream_claimed: true, ..self.arbiter },
            active: Some(ActiveTestView { stream_expected: false, ..self.active->0 }),
            ..self
        }
    }

    /// Whether a data stream is the one that is waited for.
    pub open spec fn takes_stream(self, header: SpeedControl) -> bool {
        header matches SpeedControl::Granted(lease) && self.runs(lease@)
            && !self.active->0.cancelled && self.arbiter.may_claim(self.remote, lease@)
    }
}

impl SpeedPeer {
    /// No test has run yet.
    pub fn new(local: NodeId, remote: NodeId) -> (peer: SpeedPeer)
        ensures
            peer@ == (SpeedView {
                local,
                remote,
                arbiter: ArbiterView { local, peer: remote, active: None, stream_claimed: false },
                active: None,
                snapshot: None,
                requesting: false,
            }),
    {
        SpeedPeer {
            local,
            remote,
            arbiter: SpeedArbiter::new(local, remote),
            active: None,
            snapshot: None,
            requesting: false,
        }
    }

    /// What is shown of the last test.
    pub fn snapshot(&self) -> (snapshot: Option<SpeedSnapshot>)
        ensures
            snapshot is Some <==> self@.snapshot is Some,
            snapshot matches Some(found) ==> Some(found@) == self@.snapshot,
    {
        match &self.snapshot {
            Some(snapshot) => Some(snapshot.duplicate()),
            None => None,
        }
    }

    /// Starts to ask for a test; one request at a time.
    pub fn begin_request(&mut self) -> (result: Result<()>)
        ensures
            decided(
                result,
                if old(self)@.requesting {
                    Some("测速请求正在进行"@)
                } else {
                    None
                },
            ),
            final(self)@ == (SpeedView { requesting: true, ..old(self)@ }),
    {
        if self.requesting {
            return Err(failure("测速请求正在进行"));
        }
        self.requesting = true;
        Ok(())
    }

    /// A request has been answered.
    pub fn end_request(&mut self)
        ensures
            final(self)@ == (SpeedView { requesting: false, ..old(self)@ }),
    {
        self.requesting = false;
    }

    /// Asks the running test to end.
    pub fn cancel(&mut self, id: &TaskId) -> (result: Result<()>)
        ensures
            decided(
                result,
                old(self)@.cancel_refusal(id@),
            ),
            final(self)@ == if result is Ok {
                old(self)@.asked_to_end()
            } else {
                old(self)@
            },
    {
        match &mut self.active {
            None => Err(failure("当前没有测速")),
            Some(active) => {
                if !active.lease.test_id.same(id) {
                    return Err(failure("测速任务已改变"));
                }
                active.cancelled = true;
                Ok(())
            },
        }
    }

    /// Asks whatever test runs to end.
    pub fn cancel_all(&mut self)
        ensures
            final(self)@ == old(self)@.asked_to_end(),
    {
        match &mut self.active {
            None => {},
            Some(active) => {
                active.cancelled = true;
            },
        }
    }

    /// Whether a test is being wound up; a new one waits for that.
    pub fn is_finishing(&self) -> (finishing: bool)
        ensures
            finishing == (self@.active is Some && self@.active->0.finishing),
    {
        match &self.active {
            Some(active) => active.finishing,
            None => false,
        }
    }

    /// Notes that a test is being wound up.
    pub fn finishing(&mut self, lease: &SpeedLease)
        ensures
            final(self)@ == if old(self)@.runs(lease@) {
                SpeedView {
                    active: Some(ActiveTestView { finishing: true, ..old(self)@.active->0 }),
                    ..old(self)@
                }
            } else {
                old(self)@
            },
    {
        match &mut self.active {
            None => {},
            Some(active) => {
                if active.lease.same(lease) {
                    active.finishing = true;
                }
            },
        }
    }

    /// Who sends the data of a test.
    pub fn source(&self, lease: &SpeedLease) -> (source: NodeId)
        ensures
            source == lease_source(lease@, self@.local, self@.remote),
    {
        source_of(lease, self.local, self.remote)
    }

    /// Reserves the peer for a test and notes it, by a grant that was received or by
    /// one of its own. A refusal leaves everything reserved as it was.
    pub fn prepare(
        &mut self,
        activity: &mut Activity,
        owner: NodeId,
        id: TaskId,
        direction: SpeedDirection,
        seconds: u16,
        granted: Option<SpeedLease>,
    ) -> (result: Result<(SpeedLease, SpeedPermit)>)
        requires
            old(activity).state.valid(),
        ensures
            decided(
                result,
                old(self)@.prepare_refusal(
                    old(activity).state,
                    owner,
                    seconds,
                    match granted {
                        Some(lease) => Some(lease@),
                        None => None,
                    },
                ),
            ),
            final(activity).state.valid(),
            result is Err ==> final(self)@ == old(self)@ && forall|peer: NodeId| #[trigger]
                final(activity).state.with_peer(peer) == old(activity).state.with_peer(peer),
            result matches Ok((lease, permit)) ==> {
                &&& final(self)@ == old(self)@.prepared(lease@)
                &&& permit@ == (old(self)@.remote, id@)
                &&& final(activity).state.changed_to(
                    old(activity).state,
                    old(self)@.remote,
                    PeerActivity { files: 0, speed: Some(id@) },
                )
                &&& match granted {
                    Some(given) => lease@ == given@,
                    None => lease@.test_id == id@ && lease@.owner == owner && lease@.direction
                        == direction && lease@.seconds == seconds,
                }
            },
    {
        let permit = activity.speed(self.remote, id.clone())?;
        let ghost reserved = activity.state;
        let leased = match granted {
            Some(lease) => match self.arbiter.accept_grant(self.remote, lease.clone(), 0) {
                Ok(_) => Ok(lease),
                Err(error) => Err(error),
            },
            None => self.arbiter.request(owner, id, direction, seconds, 0),
        };
        let lease = match leased {
            Ok(lease) => lease,
            Err(error) => {
                activity.release_speed(permit);
                return Err(error);
            },
        };
        let stream_expected = self.source(&lease) != self.local;
        self.snapshot = Some(SpeedSnapshot::new(&lease));
        self.active = Some(
            ActiveTest {
                lease: lease.clone(),
                cancelled: false,
                stream_expected,
                finishing: false,
            },
        );
        Ok((lease, permit))
    }

    /// Ends a test, whatever became of it. The end of an earlier test changes nothing.
    pub fn end(&mut self, lease: &SpeedLease) -> (ended: bool)
        ensures
            ended == old(self)@.runs(lease@),
            final(self)@ == old(self)@.over(lease@),
    {
        let current = match &self.active {
            Some(active) => active.lease.same(lease),
            None => false,
        };
        if !current {
            return false;
        }
        let local = self.local;
        let _ = self.arbiter.finish(local, lease);
        match &mut self.snapshot {
            Some(snapshot) => {
                if snapshot.status == SpeedStatus::Running {
                    snapshot.status = SpeedStatus::Interrupted;
                    snapshot.measured = false;
                }
            },
            None => {},
        }
        self.active = None;
        true
    }

    /// Takes a data stream by its header. One of an earlier test, of a cancelled one or
    /// a second one is not taken.
    pub fn claim_stream(&mut self, header: &SpeedControl) -> (taken: bool)
        ensures
            taken == old(self)@.takes_stream(*header),
            final(self)@ == if taken {
                old(self)@.with_stream()
            } else {
                old(self)@
            },
    {
        let lease = match header {
            SpeedControl::Granted(lease) => lease,
            _ => {
                return false;
            },
        };
        let wanted = match &self.active {
            Some(active) => active.lease.same(lease) && !active.cancelled,
            None => false,
        };
        if !wanted {
            return false;
        }
        let remote = self.remote;
        if self.arbiter.claim_stream(remote, lease).is_err() {
            return false;
        }
        match &mut self.active {
            Some(active) => {
                active.stream_expected = false;
            },
            None => {},
        }
        true
    }

    /// Claims the data stream that this end sends.
    pub fn claim_own_stream(&mut self, lease: &SpeedLease) -> (result: Result<()>)
        ensures
            decided(
                result,
                if old(self)@.arbiter.may_claim(old(self)@.local, lease@) {
                    None
                } else {
                    Some("测速数据流归属或令牌不符"@)
                },
            ),
            final(self)@ == if result is Ok {
                SpeedView {
                    arbiter: ArbiterView { stream_claimed: true, ..old(self)@.arbiter },
                    ..old(self)@
                }
            } else {
                old(self)@
            },
    {
        let local = self.local;
        self.arbiter.claim_stream(local, lease)
    }

    /// Shows a measurement, once a second or when it is the last one.
    pub fn observe(
        &mut self,
        lease: &SpeedLease,
        bytes: u64,
        elapsed_ns: u128,
        rtt_ns: u128,
        force: bool,
    ) -> (shown: bool)
        ensures
            shown == old(self)@.shows(lease@, elapsed_ns, force),
            final(self)@ == old(self)@.observed(lease@, bytes, elapsed_ns, rtt_ns, force),
    {
        match &mut self.snapshot {
            None => false,
            Some(snapshot) => {
                if !snapshot.test_id.same(&lease.test_id) {
                    return false;
                }
                let passed = elapsed_ns >= snapshot.elapsed_ns && elapsed_ns - snapshot.elapsed_ns
                    >= SHOW_INTERVAL_NS;
                if !force && !passed {
                    return false;
                }
                snapshot.bytes = bytes;
                snapshot.elapsed_ns = elapsed_ns;
                snapshot.rtt_ns = rtt_ns;
                snapshot.measured = true;
                true
            },
        }
    }

    /// Notes how a test ended.
    pub fn note_outcome(&mut self, outcome: SpeedStatus)
        ensures
            final(self)@ == old(self)@.noted(outcome),
    {
        match &mut self.snapshot {
            Some(snapshot) => {
                snapshot.status = outcome;
                if outcome != SpeedStatus::Completed {
                    snapshot.measured = false;
                }
            },
            None => {},
        }
    }
}

/// Whether this end grants its own tests or asks the other end.
pub fn grants_itself(local: NodeId, remote: NodeId) -> (grants: bool)
    ensures
        grants == (local.value < remote.value),
{
    local.value < remote.value
}

/// Why the answer to a request for a test is no grant of it.
pub open spec fn answer_refusal(
    local: NodeId,
    id: Seq<char>,
    direction: SpeedDirection,
    seconds: u16,
    answer: SpeedControl,
) -> Option<Seq<char>> {
    match answer {
        SpeedControl::Granted(lease) => if lease@.test_id == id && lease@.owner == local
            && lease@.direction == direction && lease@.seconds == seconds {
            None
        } else {
            Some("测速授权身份或顺序不符"@)
        },
        SpeedControl::Busy { test_id } => if test_id@ == id {
            Some("对端文件或测速正在进行"@)
        } else {
            Some("测速授权身份或顺序不符"@)
        },
        _ => Some("测速授权身份或顺序不符"@),
    }
}

/// Reads the answer to a request for a test.
pub fn check_grant(
    local: NodeId,
    id: &TaskId,
    direction: SpeedDirection,
    seconds: u16,
    answer: SpeedControl,
) -> (result: Result<SpeedLease>)
    ensures
        decided(result, answer_refusal(local, id@, direction, seconds, answer)),
        result matches Ok(lease) ==> answer == SpeedControl::Granted(lease),
{
    match answer {
        SpeedControl::Granted(lease) => {
            if lease.test_id.same(id) && lease.owner == local && lease.direction == direction
                && lease.seconds == seconds {
                Ok(lease)
            } else {
                Err(failure("测速授权身份或顺序不符"))
            }
        },
        SpeedControl::Busy { test_id } => {
            if test_id.same(id) {
                Err(failure("对端文件或测速正在进行"))
            } else {
                Err(failure("测速授权身份或顺序不符"))
            }
        },
        _ => Err(failure("测速授权身份或顺序不符")),
    }
}

/// What a peer that opens a test asks for.
#[derive(Debug)]
pub struct SpeedOpening {
    pub id: TaskId,
    pub direction: SpeedDirection,
    pub seconds: u16,
    pub grant: Option<SpeedLease>,
}

impl SpeedOpening {
    /// Whether this is what a message asks for.
    pub open spec fn says(self, message: Message) -> bool {
        match message {
            Message::Speed(SpeedControl::Request { test_id, direction, seconds }) => {
                &&& self.id == test_id
                &&& self.direction == direction
                &&& self.seconds == seconds
                &&& self.grant is None
            },
            Message::Speed(SpeedControl::Granted(lease)) => {
                &&& self.id == lease.test_id
                &&& self.direction == lease.direction
                &&& self.seconds == lease.seconds
                &&& self.grant == Some(lease)
            },
            _ => false,
        }
    }
}

/// Why the answer to a grant does not make a test ready.
pub open spec fn ready_refusal(lease: LeaseView, answer: SpeedControl) -> Option<Seq<char>> {
    match answer {
        SpeedControl::Ready(other) => if other@ == lease {
            None
        } else {
            Some("测速 Ready 身份或顺序不符"@)
        },
        SpeedControl::Busy { test_id } => if test_id@ == lease.test_id {
            Some("对端文件或测速正在进行"@)
        } else {
            Some("测速 Ready 身份或顺序不符"@)
        },
        _ => Some("测速 Ready 身份或顺序不符"@),
    }
}

/// Why a frame is not the next one of a test.
pub open spec fn control_refusal(frame: Frame, sequence: u64) -> Option<Seq<char>> {
    if frame.request_id != sequence {
        Some("测速控制编号不符"@)
    } else if !(frame.message is Speed) {
        Some("非法测速控制消息"@)
    } else {
        None
    }
}

/// How a test in this stage is shown.
pub open spec fn status_of(stage: RunStage) -> SpeedStatus {
    match stage {
        RunStage::Completed => SpeedStatus::Completed,
        RunStage::Cancelled => SpeedStatus::Cancelled,
        RunStage::Failed => SpeedStatus::Interrupted,
        _ => SpeedStatus::Running,
    }
}

/// The milliseconds that a result tells: at least one, and as many as a number holds.
pub open spec fn told_millis(elapsed_ms: u128) -> int {
    if elapsed_ms == 0 {
        1
    } else if elapsed_ms > u64::MAX {
        u64::MAX as int
    } else {
        elapsed_ms as int
    }
}

/// Why the first frame of a test is refused.
pub open spec fn opening_refusal(local: NodeId, remote: NodeId, first: Frame) -> Option<
    Seq<char>,
> {
    if first.request_id != 1 {
        Some("测速首帧编号非法"@)
    } else {
        match first.message {
            Message::Speed(SpeedControl::Request { .. }) => if local.value < remote.value {
                None
            } else {
                Some("测速请求协调者或归属不符"@)
            },
            Message::Speed(SpeedControl::Granted(lease)) => if local.value > remote.value
                && lease@.owner == remote {
                None
            } else {
                Some("测速请求协调者或归属不符"@)
            },
            Message::Speed(_) => Some("测速请求协调者或归属不符"@),
            _ => Some("需要测速控制首帧"@),
        }
    }
}

/// Reads the first frame of a test that a peer opens: a request to the lower node, or
/// a grant from it.
pub fn read_opening(local: NodeId, remote: NodeId, first: Frame) -> (result: Result<SpeedOpening>)
    ensures
        decided(result, opening_refusal(local, remote, first)),
        result matches Ok(opening) ==> opening.says(first.message),
{
    if first.request_id != 1 {
        return Err(failure("测速首帧编号非法"));
    }
    match first.message {
        Message::Speed(control) => match control {
            SpeedControl::Request { test_id, direction, seconds } => {
                if local.value < remote.value {
                    Ok(SpeedOpening { id: test_id, direction, seconds, grant: None })
                } else {
                    Err(failure("测速请求协调者或归属不符"))
                }
            },
            SpeedControl::Granted(lease) => {
                if local.value > remote.value && lease.owner == remote {
                    Ok(
                        SpeedOpening {
                            id: lease.test_id.clone(),
                            direction: lease.direction,
                            seconds: lease.seconds,
                            grant: Some(lease),
                        },
                    )
                } else {
                    Err(failure("测速请求协调者或归属不符"))
                }
            },
            _ => Err(failure("测速请求协调者或归属不符")),
        },
        _ => Err(failure("需要测速控制首帧")),
    }
}

/// Reads the peer's answer to being ready.
pub fn check_ready(lease: &SpeedLease, answer: &SpeedControl) -> (result: Result<()>)
    ensures
        decided(
            result,
            ready_refusal(lease@, *answer),
        ),
{
    match answer {
        SpeedControl::Ready(other) => {
            if other.same(lease) {
                Ok(())
            } else {
                Err(failure("测速 Ready 身份或顺序不符"))
            }
        },
        SpeedControl::Busy { test_id } => {
            if test_id.same(&lease.test_id) {
                Err(failure("对端文件或测速正在进行"))
            } else {
                Err(failure("测速 Ready 身份或顺序不符"))
            }
        },
        _ => Err(failure("测速 Ready 身份或顺序不符")),
    }
}

/// Reads a control message that has to have a given number.
pub fn check_control(frame: Frame, sequence: u64) -> (result: Result<SpeedControl>)
    ensures
        decided(
            result,
            control_refusal(frame, sequence),
        ),
        result matches Ok(control) ==> frame.message == Message::Speed(control),
{
    if frame.request_id != sequence {
        return Err(failure("测速控制编号不符"));
    }
    match frame.message {
        Message::Speed(control) => Ok(control),
        _ => Err(failure("非法测速控制消息")),
    }
}

/// A measured time in whole milliseconds, at least one.
pub fn result_millis(elapsed_ms: u128) -> (millis: u64)
    ensures
        millis == told_millis(elapsed_ms),
{
    if elapsed_ms == 0 {
        1
    } else if elapsed_ms > u64::MAX as u128 {
        u64::MAX
    } else {
        elapsed_ms as u64
    }
}

/// What one end measured.
#[derive(Clone, Copy, Debug, PartialEq, Eq, Structural)]
pub struct Measured {
    pub bytes: u64,
    pub elapsed_ms: u64,
}

/// Why two measurements do not make a result.
pub open spec fn result_refusal(local: Measured, remote: Measured, seconds: u16) -> Option<
    Seq<char>,
> {
    if remote.bytes != local.bytes || remote.bytes == 0 || remote.elapsed_ms == 0
        || remote.elapsed_ms > seconds * 1000 + 60000 {
        Some("测速结果字节数或耗时不符"@)
    } else {
        None
    }
}

/// Where a test stands on one end.
#[derive(Clone, Copy, Debug, PartialEq, Eq, Structural)]
pub enum RunStage {
    Moving,
    AwaitingResult,
    AwaitingFinish,
    Cancelling,
    Completed,
    Cancelled,
    Failed,
}

impl RunStage {
    /// What it means in this stage that the peer's messages end.
    pub fn lost_stream(self) -> (text: &'static str)
        ensures
            text@ == (match self {
                RunStage::AwaitingResult => "测速结果流关闭"@,
                RunStage::AwaitingFinish => "测速完成流关闭"@,
                RunStage::Cancelling => "测速取消确认流关闭"@,
                _ => "测速控制流关闭"@,
            }),
    {
        match self {
            RunStage::AwaitingResult => "测速结果流关闭",
            RunStage::AwaitingFinish => "测速完成流关闭",
            RunStage::Cancelling => "测速取消确认流关闭",
            _ => "测速控制流关闭",
        }
    }
}

/// What happens during a test.
#[derive(Debug)]
pub enum RunEvent {
    CancelRequested,
    Control(SpeedControl),
    DataDone(Measured),
}

/// A step of a test.
#[derive(Debug)]
pub enum RunAction {
    MarkFinishing,
    Send(u64, SpeedControl),
    CloseStream,
}

/// A test on one end, as mathematical values.
pub struct RunView {
    pub lease: SpeedLease,
    pub receiver: bool,
    pub stage: RunStage,
    pub next: u64,
    pub local: Option<Measured>,
    pub remote: Option<Measured>,
    pub problem: Option<Seq<char>>,
}

/// A test on one end, once both ends are ready.
#[derive(Debug)]
pub struct SpeedRun {
    lease: SpeedLease,
    receiver: bool,
    stage: RunStage,
    next: u64,
    local: Option<Measured>,
    remote: Option<Measured>,
    problem: Option<Error>,
}

impl View for SpeedRun {
    type V = RunView;

    closed spec fn view(&self) -> RunView {
        RunView {
            lease: self.lease,
            receiver: self.receiver,
            stage: self.stage,
            next: self.next,
            local: self.local,
            remote: self.remote,
            problem: match self.problem {
                Some(error) => Some(error.message()),
                None => None,
            },
        }
    }
}

impl RunView {
    /// The test, failed for a reason.
    pub open spec fn failed(self, problem: Seq<char>) -> (RunView, Seq<RunAction>) {
        (RunView { stage: RunStage::Failed, problem: Some(problem), ..self }, Seq::empty())
    }

    /// The test, ended by the wish of one end.
    pub open spec fn cancelled(self) -> RunView {
        RunView { stage: RunStage::Cancelled, problem: Some("测速已取消"@), ..self }
    }

    /// The test, ended by the peer's wish, which is acknowledged.
    pub open spec fn acknowledged(self, mark: bool) -> (RunView, Seq<RunAction>) {
        (
            RunView { next: (self.next + 1) as u64, ..self.cancelled() },
            (if mark {
                seq![RunAction::MarkFinishing]
            } else {
                Seq::empty()
            }) + seq![
                RunAction::Send(self.next, SpeedControl::Finished(self.lease)),
                RunAction::CloseStream,
            ],
        )
    }

    /// The test, about to end by this end's wish.
    pub open spec fn cancelling(self) -> (RunView, Seq<RunAction>) {
        (
            RunView { stage: RunStage::Cancelling, next: (self.next + 1) as u64, ..self },
            seq![
                RunAction::MarkFinishing,
                RunAction::Send(self.next, SpeedControl::Cancel(self.lease)),
            ],
        )
    }

    /// The test with both measurements.
    pub open spec fn compared(self, local: Measured, remote: Measured, sent: Seq<RunAction>) -> (
        RunView,
        Seq<RunAction>,
    ) {
        let measured = RunView { local: Some(local), remote: Some(remote), ..self };
        match result_refusal(local, remote, self.lease.seconds) {
            Some(problem) => (measured.failed(problem).0, sent),
            None => (
                RunView {
                    stage: RunStage::AwaitingFinish,
                    next: (measured.next + 1) as u64,
                    ..measured
                },
                sent + seq![
                    RunAction::MarkFinishing,
                    RunAction::Send(measured.next, SpeedControl::Finished(self.lease)),
                ],
            ),
        }
    }

    /// The test after an event, and the steps that it asks for.
    pub open spec fn after(self, event: RunEvent) -> (RunView, Seq<RunAction>) {
        match self.stage {
            RunStage::Moving => match event {
                RunEvent::CancelRequested => self.cancelling(),
                RunEvent::Control(SpeedControl::Cancel(other)) => if other@ == self.lease@ {
                    self.acknowledged(true)
                } else {
                    self.failed("测速数据阶段收到非法控制消息"@)
                },
                RunEvent::Control(SpeedControl::Result { lease, bytes, elapsed_ms }) => if lease@
                    == self.lease@ && self.remote is None {
                    (
                        RunView { remote: Some(Measured { bytes, elapsed_ms }), ..self },
                        Seq::empty(),
                    )
                } else {
                    self.failed("测速数据阶段收到非法控制消息"@)
                },
                RunEvent::Control(_) => self.failed("测速数据阶段收到非法控制消息"@),
                RunEvent::DataDone(local) => {
                    let sent = seq![
                        RunAction::Send(
                            self.next,
                            SpeedControl::Result {
                                lease: self.lease,
                                bytes: local.bytes,
                                elapsed_ms: local.elapsed_ms,
                            },
                        ),
                    ];
                    let later = RunView { next: (self.next + 1) as u64, ..self };
                    match self.remote {
                        Some(remote) => later.compared(local, remote, sent),
                        None => (
                            RunView {
                                stage: RunStage::AwaitingResult,
                                local: Some(local),
                                ..later
                            },
                            sent,
                        ),
                    }
                },
            },
            RunStage::AwaitingResult => match event {
                RunEvent::CancelRequested => self.cancelling(),
                RunEvent::Control(SpeedControl::Result { lease, bytes, elapsed_ms }) => if lease@
                    == self.lease@ {
                    self.compared(self.local->0, Measured { bytes, elapsed_ms }, Seq::empty())
                } else {
                    self.failed("测速结果身份或顺序不符"@)
                },
                RunEvent::Control(SpeedControl::Cancel(other)) => if other@ == self.lease@ {
                    self.acknowledged(true)
                } else {
                    self.failed("测速结果身份或顺序不符"@)
                },
                RunEvent::Control(_) => self.failed("测速结果身份或顺序不符"@),
                RunEvent::DataDone(_) => (self, Seq::empty()),
            },
            RunStage::AwaitingFinish => match event {
                RunEvent::Control(SpeedControl::Finished(other)) => if other@ == self.lease@ {
                    (
                        RunView { stage: RunStage::Completed, ..self },
                        seq![RunAction::CloseStream],
                    )
                } else {
                    self.failed("测速完成身份或顺序不符"@)
                },
                RunEvent::Control(SpeedControl::Cancel(other)) => if other@ == self.lease@ {
                    self.acknowledged(false)
                } else {
                    self.failed("测速完成身份或顺序不符"@)
                },
                RunEvent::Control(_) => self.failed("测速完成身份或顺序不符"@),
                _ => (self, Seq::empty()),
            },
            RunStage::Cancelling => match event {
                RunEvent::Control(SpeedControl::Finished(other)) => if other@ == self.lease@ {
                    (self.cancelled(), seq![RunAction::CloseStream])
                } else {
                    self.failed("测速取消确认身份不符"@)
                },
                RunEvent::Control(SpeedControl::Cancel(other)) => if other@ == self.lease@ {
                    self.acknowledged(false)
                } else {
                    self.failed("测速取消确认身份不符"@)
                },
                RunEvent::Control(SpeedControl::Result { lease, .. }) => if lease@ == self.lease@ {
                    (self, Seq::empty())
                } else {
                    self.failed("测速取消确认身份不符"@)
                },
                RunEvent::Control(_) => self.failed("测速取消确认身份不符"@),
                _ => (self, Seq::empty()),
            },
            _ => (self, Seq::empty()),
        }
    }

    /// Frames are numbered in order, a measurement is at hand where it is needed, and a
    /// test that ended otherwise than completed has a reason.
    pub open spec fn valid(self) -> bool {
        &&& match self.stage {
            RunStage::Moving => self.next == 3 && self.local is None,
            RunStage::AwaitingResult => self.next == 4 && self.local is Some,
            RunStage::AwaitingFinish => self.next == 5 && self.local is Some && self.remote is Some
                && result_refusal(self.local->0, self.remote->0, self.lease.seconds) is None,
            RunStage::Cancelling => 4 <= self.next <= 5,
            RunStage::Completed => self.local is Some && self.remote is Some && result_refusal(
                self.local->0,
                self.remote->0,
                self.lease.seconds,
            ) is None,
            _ => true,
        }
        &&& match self.stage {
            RunStage::Cancelled => self.problem == Some("测速已取消"@),
            RunStage::Failed => self.problem is Some,
            _ => self.problem is None,
        }
        &&& self.next <= 6
    }

    /// What a completed test measured: what the receiving end did.
    pub open spec fn result(self) -> Measured {
        if self.receiver {
            self.local->0
        } else {
            self.remote->0
        }
    }
}

impl SpeedRun {
    /// Starts a test whose ends are ready.
    pub fn new(lease: SpeedLease, receiver: bool) -> (run: SpeedRun)
        ensures
            run@ == crate::speed_exchange::begun(lease, receiver),
            run@.valid(),
    {
        SpeedRun {
            lease,
            receiver,
            stage: RunStage::Moving,
            next: 3,
            local: None,
            remote: None,
            problem: None,
        }
    }

    /// Where the test stands.
    pub fn stage(&self) -> (stage: RunStage)
        ensures
            stage == self@.stage,
    {
        self.stage
    }

    /// Why the test failed or was cancelled.
    pub fn problem(&self) -> (problem: Option<&str>)
        ensures
            problem is Some <==> self@.problem is Some,
            problem matches Some(text) ==> Some(text@) == self@.problem,
    {
        match &self.problem {
            Some(error) => Some(error.text()),
            None => None,
        }
    }

    /// What a completed test measured.
    pub fn result(&self) -> (result: Option<Measured>)
        requires
            self@.valid(),
        ensures
            result == if self@.stage == RunStage::Completed {
                Some(self@.result())
            } else {
                None
            },
    {
        if self.stage != RunStage::Completed {
            return None;
        }
        if self.receiver {
            self.local
        } else {
            self.remote
        }
    }

    /// What came of the test once it has ended: what it measured, or why it did not.
    pub fn outcome(&self) -> (outcome: Option<Result<Measured>>)
        requires
            self@.valid(),
        ensures
            match outcome {
                None => self@.stage != RunStage::Completed && self@.stage != RunStage::Cancelled
                    && self@.stage != RunStage::Failed,
                Some(Ok(measured)) => self@.stage == RunStage::Completed && measured
                    == self@.result(),
                Some(Err(error)) => (self@.stage == RunStage::Cancelled || self@.stage
                    == RunStage::Failed) && error.refuses(self@.problem->0),
            },
    {
        match self.result() {
            Some(measured) => Some(Ok(measured)),
            None => match &self.problem {
                Some(error) => Some(Err(failure(error.text()))),
                None => None,
            },
        }
    }

    /// How the test is shown once it has ended.
    pub fn status(&self) -> (status: SpeedStatus)
        ensures
            status == status_of(self@.stage),
    {
        match self.stage {
            RunStage::Completed => SpeedStatus::Completed,
            RunStage::Cancelled => SpeedStatus::Cancelled,
            RunStage::Failed => SpeedStatus::Interrupted,
            _ => SpeedStatus::Running,
        }
    }

    fn fail(&mut self, problem: &str) -> (actions: Vec<RunAction>)
        ensures
            (final(self)@, actions@) == old(self)@.failed(problem@),
    {
        self.stage = RunStage::Failed;
        self.problem = Some(failure(problem));
        let actions: Vec<RunAction> = Vec::new();
        assert(actions@ =~= Seq::empty());
        actions
    }

    fn acknowledge(&mut self, mark: bool) -> (actions: Vec<RunAction>)
        requires
            old(self)@.next < u64::MAX,
        ensures
            (final(self)@, actions@) == old(self)@.acknowledged(mark),
    {
        let ghost before = self@;
        let mut actions: Vec<RunAction> = Vec::new();
        if mark {
            actions.push(RunAction::MarkFinishing);
        }
        actions.push(RunAction::Send(self.next, SpeedControl::Finished(self.lease.clone())));
        actions.push(RunAction::CloseStream);
        self.next = self.next + 1;
        self.stage = RunStage::Cancelled;
        self.problem = Some(failure("测速已取消"));
        assert(actions@ =~= before.acknowledged(mark).1);
        actions
    }

    fn cancel(&mut self) -> (actions: Vec<RunAction>)
        requires
            old(self)@.next < u64::MAX,
        ensures
            (final(self)@, actions@) == old(self)@.cancelling(),
    {
        let ghost before = self@;
        let mut actions: Vec<RunAction> = Vec::new();
        actions.push(RunAction::MarkFinishing);
        actions.push(RunAction::Send(self.next, SpeedControl::Cancel(self.lease.clone())));
        self.next = self.next + 1;
        self.stage = RunStage::Cancelling;
        assert(actions@ =~= before.cancelling().1);
        actions
    }

    fn compare_results(&mut self, local: Measured, remote: Measured, sent: Vec<RunAction>) -> (actions: Vec<
        RunAction,
    >)
        requires
            old(self)@.next < u64::MAX,
        ensures
            (final(self)@, actions@) == old(self)@.compared(local, remote, sent@),
    {
        let ghost before = self@;
        let mut actions = sent;
        self.local = Some(local);
        self.remote = Some(remote);
        let longest: u64 = self.lease.seconds as u64 * 1000 + 60000;
        if remote.bytes != local.bytes || remote.bytes == 0 || remote.elapsed_ms == 0
            || remote.elapsed_ms > longest {
            self.stage = RunStage::Failed;
            self.problem = Some(failure("测速结果字节数或耗时不符"));
            return actions;
        }
        actions.push(RunAction::MarkFinishing);
        actions.push(RunAction::Send(self.next, SpeedControl::Finished(self.lease.clone())));
        self.next = self.next + 1;
        self.stage = RunStage::AwaitingFinish;
        assert(actions@ =~= before.compared(local, remote, sent@).1);
        actions
    }

    fn when_moving(&mut self, event: RunEvent) -> (actions: Vec<RunAction>)
        requires
            old(self)@.valid(),
            old(self)@.stage == RunStage::Moving,
        ensures
            (final(self)@, actions@) == old(self)@.after(event),
    {
        match event {
            RunEvent::CancelRequested => self.cancel(),
            RunEvent::Control(control) => match control {
                SpeedControl::Cancel(other) => {
                    if other.same(&self.lease) {
                        self.acknowledge(true)
                    } else {
                        self.fail("测速数据阶段收到非法控制消息")
                    }
                },
                SpeedControl::Result { lease, bytes, elapsed_ms } => {
                    if lease.same(&self.lease) && self.remote.is_none() {
                        self.remote = Some(Measured { bytes, elapsed_ms });
                        let actions: Vec<RunAction> = Vec::new();
                        assert(actions@ =~= Seq::empty());
                        actions
                    } else {
                        self.fail("测速数据阶段收到非法控制消息")
                    }
                },
                _ => self.fail("测速数据阶段收到非法控制消息"),
            },
            RunEvent::DataDone(local) => {
                let mut sent: Vec<RunAction> = Vec::new();
                sent.push(
                    RunAction::Send(
                        self.next,
                        SpeedControl::Result {
                            lease: self.lease.clone(),
                            bytes: local.bytes,
                            elapsed_ms: local.elapsed_ms,
                        },
                    ),
                );
                assert(sent@ =~= seq![
                    RunAction::Send(
                        self.next,
                        SpeedControl::Result {
                            lease: self.lease,
                            bytes: local.bytes,
                            elapsed_ms: local.elapsed_ms,
                        },
                    ),
                ]);
                self.next = self.next + 1;
                match self.remote {
                    Some(remote) => self.compare_results(local, remote, sent),
                    None => {
                        self.local = Some(local);
                        self.stage = RunStage::AwaitingResult;
                        sent
                    },
                }
            },
        }
    }

    fn when_awaiting_result(&mut self, event: RunEvent) -> (actions: Vec<RunAction>)
        requires
            old(self)@.valid(),
            old(self)@.stage == RunStage::AwaitingResult,
        ensures
            (final(self)@, actions@) == old(self)@.after(event),
    {
        let none: Vec<RunAction> = Vec::new();
        assert(none@ =~= Seq::empty());
        match event {
            RunEvent::CancelRequested => self.cancel(),
            RunEvent::Control(control) => match control {
                SpeedControl::Result { lease, bytes, elapsed_ms } => {
                    let local = match self.local {
                        Some(local) => local,
                        None => {
                            return none;
                        },
                    };
                    if lease.same(&self.lease) {
                        self.compare_results(local, Measured { bytes, elapsed_ms }, none)
                    } else {
                        self.fail("测速结果身份或顺序不符")
                    }
                },
                SpeedControl::Cancel(other) => {
                    if other.same(&self.lease) {
                        self.acknowledge(true)
                    } else {
                        self.fail("测速结果身份或顺序不符")
                    }
                },
                _ => self.fail("测速结果身份或顺序不符"),
            },
            RunEvent::DataDone(_) => none,
        }
    }

    fn close(&mut self, stage: RunStage) -> (actions: Vec<RunAction>)
        ensures
            final(self)@ == (RunView { stage, ..old(self)@ }),
            actions@ == seq![RunAction::CloseStream],
    {
        self.stage = stage;
        let mut actions: Vec<RunAction> = Vec::new();
        actions.push(RunAction::CloseStream);
        assert(actions@ =~= seq![RunAction::CloseStream]);
        actions
    }

    fn when_awaiting_finish(&mut self, event: RunEvent) -> (actions: Vec<RunAction>)
        requires
            old(self)@.valid(),
            old(self)@.stage == RunStage::AwaitingFinish,
        ensures
            (final(self)@, actions@) == old(self)@.after(event),
    {
        let none: Vec<RunAction> = Vec::new();
        assert(none@ =~= Seq::empty());
        match event {
            RunEvent::Control(control) => match control {
                SpeedControl::Finished(other) => {
                    if other.same(&self.lease) {
                        self.close(RunStage::Completed)
                    } else {
                        self.fail("测速完成身份或顺序不符")
                    }
                },
                SpeedControl::Cancel(other) => {
                    if other.same(&self.lease) {
                        self.acknowledge(false)
                    } else {
                        self.fail("测速完成身份或顺序不符")
                    }
                },
                _ => self.fail("测速完成身份或顺序不符"),
            },
            _ => none,
        }
    }

    fn when_cancelling(&mut self, event: RunEvent) -> (actions: Vec<RunAction>)
        requires
            old(self)@.valid(),
            old(self)@.stage == RunStage::Cancelling,
        ensures
            (final(self)@, actions@) == old(self)@.after(event),
    {
        let none: Vec<RunAction> = Vec::new();
        assert(none@ =~= Seq::empty());
        match event {
            RunEvent::Control(control) => match control {
                SpeedControl::Finished(other) => {
                    if other.same(&self.lease) {
                        self.problem = Some(failure("测速已取消"));
                        self.close(RunStage::Cancelled)
                    } else {
                        self.fail("测速取消确认身份不符")
                    }
                },
                SpeedControl::Cancel(other) => {
                    if other.same(&self.lease) {
                        self.acknowledge(false)
                    } else {
                        self.fail("测速取消确认身份不符")
                    }
                },
                SpeedControl::Result { lease, .. } => {
                    if lease.same(&self.lease) {
                        none
                    } else {
                        self.fail("测速取消确认身份不符")
                    }
                },
                _ => self.fail("测速取消确认身份不符"),
            },
            _ => none,
        }
    }

    /// Takes an event and gives the steps to be done, in order.
    pub fn take(&mut self, event: RunEvent) -> (actions: Vec<RunAction>)
        requires
            old(self)@.valid(),
        ensures
            (final(self)@, actions@) == old(self)@.after(event),
            final(self)@.valid(),
    {
        match self.stage {
            RunStage::Moving => self.when_moving(event),
            RunStage::AwaitingResult => self.when_awaiting_result(event),
            RunStage::AwaitingFinish => self.when_awaiting_finish(event),
            RunStage::Cancelling => self.when_cancelling(event),
            _ => {
                let actions: Vec<RunAction> = Vec::new();
                assert(actions@ =~= Seq::empty());
                actions
            },
        }
    }
}

/// A completed test has one byte count, that of both ends, and it is not zero.
pub proof fn completed_tests_agree(run: RunView)
    requires
        run.valid(),
        run.stage == RunStage::Completed,
    ensures
        run.local->0.bytes == run.remote->0.bytes,
        run.result().bytes == run.local->0.bytes,
        run.result().bytes > 0,
{
}

/// Once this end has confirmed a result, its own late wish to cancel changes nothing.
pub proof fn late_cancels_change_nothing(run: RunView)
    requires
        run.stage == RunStage::AwaitingFinish || run.stage == RunStage::Completed,
    ensures
        run.after(RunEvent::CancelRequested) == (run, Seq::<RunAction>::empty()),
{
}

/// A test that either end cancels never counts as completed: it ends with the reason
/// that it was cancelled, whatever was measured before.
pub proof fn cancelled_tests_say_so(run: RunView, event: RunEvent)
    requires
        run.valid(),
        run.stage != RunStage::Cancelled,
        run.after(event).0.stage == RunStage::Cancelled,
    ensures
        run.after(event).0.problem == Some("测速已取消"@),
{
}

/// Nothing follows the end of a test.
pub proof fn ended_tests_stay(run: RunView, event: RunEvent)
    requires
        run.stage == RunStage::Completed || run.stage == RunStage::Cancelled || run.stage
            == RunStage::Failed,
    ensures
        run.after(event) == (run, Seq::<RunAction>::empty()),
{
}

/// What a test sends is numbered without gap from where it stands.
pub proof fn frames_are_numbered(run: RunView, event: RunEvent, at: int)
    requires
        run.valid(),
        0 <= at < run.after(event).1.len(),
        run.after(event).1[at] is Send,
    ensures
        run.next <= run.after(event).1[at]->Send_0 < run.after(event).0.next,
{
}

/// The end of an earlier test leaves the present one alone.
pub proof fn earlier_ends_change_nothing(peer: SpeedView, lease: LeaseView)
    requires
        peer.active is Some,
        peer.active->0.lease != lease,
    ensures
        peer.over(lease) == peer,
{
}

/// How the data of a test moves.
#[derive(Clone, Copy, Debug, PartialEq, Eq, Structural)]
pub enum DataRole {
    /// A stream is opened, the lease is written in front, then the data.
    Send,
    /// The stream that carries the lease is read.
    Receive,
}

/// How the data of a test moves at this end. The sender claims the lease for its
/// stream; the receiver must be waiting for one.
pub open spec fn role_of(local: NodeId, source: NodeId) -> DataRole {
    if source == local {
        DataRole::Send
    } else {
        DataRole::Receive
    }
}

impl SpeedPeer {
    /// How the data of a test moves at this end.
    pub fn data_role(&mut self, lease: &SpeedLease, expects_stream: bool) -> (result: Result<
        DataRole,
    >)
        ensures
            ({
                let role = role_of(
                    old(self)@.local,
                    lease_source(lease@, old(self)@.local, old(self)@.remote),
                );
                let refusal = match role {
                    DataRole::Send => if old(self)@.arbiter.may_claim(old(self)@.local, lease@) {
                        None
                    } else {
                        Some("测速数据流归属或令牌不符"@)
                    },
                    DataRole::Receive => if expects_stream {
                        None
                    } else {
                        Some("测速接收归属不符"@)
                    },
                };
                &&& decided(result, refusal)
                &&& result matches Ok(found) ==> found == role
                &&& final(self)@ == (if result is Ok && role == DataRole::Send {
                    SpeedView {
                        arbiter: ArbiterView { stream_claimed: true, ..old(self)@.arbiter },
                        ..old(self)@
                    }
                } else {
                    old(self)@
                })
            }),
    {
        if self.source(lease) == self.local {
            self.claim_own_stream(lease)?;
            return Ok(DataRole::Send);
        }
        if expects_stream {
            Ok(DataRole::Receive)
        } else {
            Err(failure("测速接收归属不符"))
        }
    }
}

/// A prepared test runs under its lease, has neither been cancelled nor ended, and is shown
/// with nothing measured yet; of the two ends exactly the one that receives the data waits
/// for a stream.
pub proof fn prepared_tests_run(here: SpeedView, there: SpeedView, lease: LeaseView)
    requires
        here.local != here.remote,
        there.local == here.remote,
        there.remote == here.local,
        lease.owner == here.local || lease.owner == here.remote,
    ensures
        ({
            let after = here.prepared(lease);
            &&& after.runs(lease)
            &&& after.arbiter.active == Some(lease)
            &&& !after.arbiter.stream_claimed
            &&& after.active matches Some(active) && !active.cancelled && !active.finishing
            &&& after.snapshot matches Some(shown) && shown.test_id == lease.test_id
                && shown.direction == lease.direction && shown.owner == lease.owner
                && shown.seconds == lease.seconds && shown.status == SpeedStatus::Running
                && shown.bytes == 0 && !shown.measured
            &&& after.active->0.stream_expected != there.prepared(lease).active->0.stream_expected
            &&& after.active->0.stream_expected <==> (lease.direction == SpeedDirection::Upload)
                != (lease.owner == here.local)
            &&& after.requesting == here.requesting
        }),
{
}

/// A test that is over runs no longer and leaves room for the next; one that was still
/// running is shown as interrupted, and a result that is shown stays.
pub proof fn ended_tests_make_room(peer: SpeedView, lease: LeaseView, next: LeaseView)
    requires
        peer.runs(lease),
        peer.arbiter.active == Some(lease),
        peer.arbiter.local == peer.local,
    ensures
        ({
            let after = peer.over(lease);
            &&& !after.runs(next)
            &&& after.active is None
            &&& after.arbiter.active is None
            &&& peer.snapshot matches Some(shown) ==> after.snapshot == Some(
                if shown.status == SpeedStatus::Running {
                    SnapshotView { status: SpeedStatus::Interrupted, measured: false, ..shown }
                } else {
                    shown
                },
            )
        }),
{
}

/// A measurement of the shown test is shown as it was made, at most once a second unless
/// it is the last; one of another test is not.
pub proof fn measurements_are_shown(
    peer: SpeedView,
    lease: LeaseView,
    bytes: u64,
    elapsed_ns: u128,
    rtt_ns: u128,
    force: bool,
)
    ensures
        ({
            let after = peer.observed(lease, bytes, elapsed_ns, rtt_ns, force);
            match peer.snapshot {
                None => after == peer,
                Some(shown) => {
                    let due = shown.test_id == lease.test_id && (force || elapsed_ns
                        - shown.elapsed_ns >= 1000000000);
                    &&& !due ==> after == peer
                    &&& due ==> (after.snapshot matches Some(now) && now.bytes == bytes
                        && now.elapsed_ns == elapsed_ns && now.rtt_ns == rtt_ns && now.measured
                        && now.status == shown.status && now.test_id == shown.test_id)
                    &&& after.active == peer.active && after.arbiter == peer.arbiter
                },
            }
        }),
{
}

/// Only a completed test keeps what was measured.
pub proof fn only_completed_tests_keep_results(peer: SpeedView, outcome: SpeedStatus)
    ensures
        peer.snapshot is None ==> peer.noted(outcome) == peer,
        peer.snapshot matches Some(shown) ==> (peer.noted(outcome).snapshot matches Some(now)
            && now.status == outcome && now.bytes == shown.bytes && now.elapsed_ns
            == shown.elapsed_ns && (outcome == SpeedStatus::Completed ==> now.measured
            == shown.measured) && (outcome != SpeedStatus::Completed ==> !now.measured)),
{
}

/// Exactly the running test can be asked to end, by its own name, and is then cancelled.
pub proof fn running_tests_can_be_cancelled(peer: SpeedView, id: Seq<char>)
    ensures
        peer.cancel_refusal(id) is None <==> (peer.active matches Some(active)
            && active.lease.test_id == id),
        peer.active matches Some(active) ==> (peer.asked_to_end().active matches Some(now)
            && now.cancelled && now.lease == active.lease && now.finishing == active.finishing
            && now.stream_expected == active.stream_expected),
        peer.active is None ==> peer.asked_to_end().active is None,
        peer.asked_to_end().snapshot == peer.snapshot,
        peer.asked_to_end().arbiter == peer.arbiter,
{
}

/// The stream of a running test is taken from the end that sends its data, once, and not
/// after the test was cancelled.
pub proof fn streams_of_running_tests_are_taken(
    peer: SpeedView,
    lease: SpeedLease,
    header: SpeedControl,
)
    requires
        peer.local != peer.remote,
        peer.arbiter.local == peer.local,
        peer.arbiter.peer == peer.remote,
        lease@.owner == peer.local || lease@.owner == peer.remote,
    ensures
        peer.prepared(lease@).takes_stream(SpeedControl::Granted(lease)) <==> (lease@.direction
            == SpeedDirection::Upload) != (lease@.owner == peer.local),
        !peer.prepared(lease@).asked_to_end().takes_stream(header),
        peer.prepared(lease@).takes_stream(header) ==> !peer.prepared(
            lease@,
        ).with_stream().takes_stream(header) && (peer.prepared(
            lease@,
        ).with_stream().active matches Some(active) && !active.stream_expected && active.lease
            == lease@),
        header !is Granted ==> !peer.takes_stream(header),
{
}

/// A test is opened by a request to the lower node or by a grant that the lower node gives
/// itself, in the first frame.
pub proof fn openings_go_to_the_lower_node(local: NodeId, remote: NodeId, first: Frame)
    ensures
        opening_refusal(local, remote, first) is None <==> first.request_id == 1 && match first.message {
            Message::Speed(SpeedControl::Request { .. }) => local.value < remote.value,
            Message::Speed(SpeedControl::Granted(lease)) => remote.value < local.value
                && lease.owner == remote,
            _ => false,
        },
{
}

/// An answer is a grant exactly if it grants what was asked for.
pub proof fn grants_answer_the_request(
    local: NodeId,
    id: Seq<char>,
    direction: SpeedDirection,
    seconds: u16,
    answer: SpeedControl,
)
    ensures
        answer_refusal(local, id, direction, seconds, answer) is None <==> (
        answer matches SpeedControl::Granted(lease) && lease.test_id@ == id && lease.owner == local
            && lease.direction == direction && lease.seconds == seconds),
{
}

/// Two measurements make a result exactly if they count the same bytes, some at all, in a
/// time that the test can have taken.
pub proof fn results_are_compared(local: Measured, remote: Measured, seconds: u16)
    ensures
        result_refusal(local, remote, seconds) is None <==> local.bytes == remote.bytes
            && remote.bytes > 0 && 0 < remote.elapsed_ms <= 1000 * (seconds + 60),
{
}

/// Of two ends one sends and the other receives.
pub proof fn ends_have_opposite_roles(one: NodeId, other: NodeId, source: NodeId)
    requires
        one != other,
        source == one || source == other,
    ensures
        role_of(source, source) == DataRole::Send,
        role_of(one, source) != role_of(other, source),
{
}

/// A test is prepared exactly if the peer is free for it and the coordinating end may
/// grant it or has granted it.
pub proof fn tests_need_a_free_peer(
    peer: SpeedView,
    activity: crate::activity::State,
    owner: NodeId,
    seconds: u16,
    lease: LeaseView,
)
    ensures
        peer.prepare_refusal(activity, owner, seconds, Some(lease)) is None
            <==> activity.speed_refusal(peer.remote) is None && peer.arbiter.grant_refusal(
            peer.remote,
            lease,
            0,
        ) is None,
        peer.prepare_refusal(activity, owner, seconds, None) is None <==> activity.speed_refusal(
            peer.remote,
        ) is None && peer.arbiter.request_refusal(owner, seconds, 0) is None,
{
}

/// A test is ready exactly if the peer says so of this very lease; a busy peer is told
/// apart from one that answers something else.
pub proof fn ready_answers_name_the_lease(lease: LeaseView, answer: SpeedControl)
    ensures
        ready_refusal(lease, answer) is None <==> (answer matches SpeedControl::Ready(other)
            && other@ == lease),
        (answer matches SpeedControl::Busy { test_id } && test_id@ == lease.test_id)
            <==> ready_refusal(lease, answer) == Some("对端文件或测速正在进行"@),
{
    reveal_strlit("对端文件或测速正在进行");
    reveal_strlit("测速 Ready 身份或顺序不符");
    assert("对端文件或测速正在进行"@[0] != "测速 Ready 身份或顺序不符"@[0]);
}

/// A frame of a test has the next number and speaks of speed tests.
pub proof fn controls_come_in_order(frame: Frame, sequence: u64)
    ensures
        control_refusal(frame, sequence) is None <==> frame.request_id == sequence
            && frame.message is Speed,
{
}

/// A test is shown as running until it has ended, and by how it ended from there on.
pub proof fn tests_are_shown_as_they_ended(stage: RunStage)
    ensures
        status_of(stage) == SpeedStatus::Completed <==> stage == RunStage::Completed,
        status_of(stage) == SpeedStatus::Cancelled <==> stage == RunStage::Cancelled,
        status_of(stage) == SpeedStatus::Interrupted <==> stage == RunStage::Failed,
{
}

/// A result tells its time as it was measured wherever that is a time at all.
pub proof fn results_tell_their_time(elapsed_ms: u64)
    ensures
        elapsed_ms > 0 ==> told_millis(elapsed_ms as u128) == elapsed_ms,
        told_millis(0) > 0,
{
}

/// An opening is read as it was sent: whose test it is, which way, how long, and with which
/// grant.
pub proof fn openings_are_read_as_sent(opening: SpeedOpening, lease: SpeedLease)
    ensures
        opening.says(Message::Speed(SpeedControl::Granted(lease))) <==> opening.id == lease.test_id
            && opening.direction == lease.direction && opening.seconds == lease.seconds
            && opening.grant == Some(lease),
        opening.says(
            Message::Speed(
                SpeedControl::Request {
                    test_id: lease.test_id,
                    direction: lease.direction,
                    seconds: lease.seconds,
                },
            ),
        ) <==> opening.id == lease.test_id && opening.direction == lease.direction
            && opening.seconds == lease.seconds && opening.grant is None,
{
}

} // verus!
