//! Arbitration of speed tests between two peers.
//!
//! Only the node with the lower identity grants leases; both ends route their
//! requests to it. A lease is bound to its owner and claimed by one data stream.

use vstd::prelude::*;

use crate::error::{decided, failure, Result};
use crate::identity::{random_number, NodeId};
use crate::task_model::TaskId;

verus! {

/// Which way the data of a speed test flows, seen from its owner.
#[derive(Clone, Copy, Debug, PartialEq, Eq, Structural)]
pub enum SpeedDirection {
    Upload,
    Download,
}

/// A granted speed test, as mathematical values.
pub struct LeaseView {
    pub test_id: Seq<char>,
    pub owner: NodeId,
    pub direction: SpeedDirection,
    pub seconds: u16,
    pub stream_token: u128,
}

/// A granted speed test.
#[derive(Debug, PartialEq, Eq)]
pub struct SpeedLease {
    pub test_id: TaskId,
    pub owner: NodeId,
    pub direction: SpeedDirection,
    pub seconds: u16,
    pub stream_token: u128,
}

impl View for SpeedLease {
    type V = LeaseView;

    open spec fn view(&self) -> LeaseView {
        LeaseView {
            test_id: self.test_id@,
            owner: self.owner,
            direction: self.direction,
            seconds: self.seconds,
            stream_token: self.stream_token,
        }
    }
}

impl Clone for SpeedLease {
    fn clone(&self) -> (copy: SpeedLease)
        ensures
            copy == *self,
    {
        SpeedLease {
            test_id: self.test_id.clone(),
            owner: self.owner,
            direction: self.direction,
            seconds: self.seconds,
            stream_token: self.stream_token,
        }
    }
}

impl SpeedLease {
    /// Whether two leases are the same.
    pub fn same(&self, other: &SpeedLease) -> (same: bool)
        ensures
            same == (self@ == other@),
    {
        self.test_id.same(&other.test_id) && self.owner == other.owner && self.direction
            == other.direction && self.seconds == other.seconds && self.stream_token
            == other.stream_token
    }
}

/// The node that sends the data of a test between these two nodes.
pub open spec fn lease_source(lease: LeaseView, local: NodeId, remote: NodeId) -> NodeId {
    match lease.direction {
        SpeedDirection::Upload => lease.owner,
        SpeedDirection::Download => if lease.owner == local {
            remote
        } else {
            local
        },
    }
}

/// The node that sends the data of a test between these two nodes.
pub fn source_of(lease: &SpeedLease, local: NodeId, remote: NodeId) -> (source: NodeId)
    ensures
        source == lease_source(lease@, local, remote),
{
    match lease.direction {
        SpeedDirection::Upload => lease.owner,
        SpeedDirection::Download => if lease.owner == local {
            remote
        } else {
            local
        },
    }
}

/// One frame of speed-test control. Append variants only.
#[derive(Debug, PartialEq, Eq)]
pub enum SpeedControl {
    Request { test_id: TaskId, direction: SpeedDirection, seconds: u16 },
    Granted(SpeedLease),
    Busy { test_id: TaskId },
    Cancel(SpeedLease),
    Finished(SpeedLease),
    Ready(SpeedLease),
    Result { lease: SpeedLease, bytes: u64, elapsed_ms: u64 },
}

/// Whether a test may last this long: half a minute or one to ten whole minutes.
pub open spec fn speed_seconds_ok(seconds: u16) -> bool {
    seconds == 30 || (60 <= seconds <= 600 && seconds % 60 == 0)
}

/// Why a duration is refused, if it is.
pub open spec fn seconds_refusal(seconds: u16) -> Option<Seq<char>> {
    if speed_seconds_ok(seconds) {
        None
    } else {
        Some("测速时长非法"@)
    }
}

/// Tests last half a minute or one to ten whole minutes.
pub fn validate_speed_seconds(seconds: u16) -> (result: Result<()>)
    ensures
        decided(result, seconds_refusal(seconds)),
{
    if seconds != 30 && (seconds < 60 || seconds > 600 || seconds % 60 != 0) {
        return Err(failure("测速时长非法"));
    }
    Ok(())
}

impl SpeedControl {
    /// The test that a frame belongs to.
    pub open spec fn id(self) -> Seq<char> {
        match self {
            SpeedControl::Request { test_id, .. } => test_id@,
            SpeedControl::Busy { test_id } => test_id@,
            SpeedControl::Granted(lease) => lease@.test_id,
            SpeedControl::Cancel(lease) => lease@.test_id,
            SpeedControl::Finished(lease) => lease@.test_id,
            SpeedControl::Ready(lease) => lease@.test_id,
            SpeedControl::Result { lease, .. } => lease@.test_id,
        }
    }

    /// The duration that a frame speaks of.
    pub open spec fn duration(self) -> Option<u16> {
        match self {
            SpeedControl::Request { seconds, .. } => Some(seconds),
            SpeedControl::Busy { .. } => None,
            SpeedControl::Granted(lease) => Some(lease.seconds),
            SpeedControl::Cancel(lease) => Some(lease.seconds),
            SpeedControl::Finished(lease) => Some(lease.seconds),
            SpeedControl::Ready(lease) => Some(lease.seconds),
            SpeedControl::Result { lease, .. } => Some(lease.seconds),
        }
    }

    /// Why a frame is refused, if it is.
    pub open spec fn refusal(self) -> Option<Seq<char>> {
        match self.duration() {
            Some(seconds) => seconds_refusal(seconds),
            None => None,
        }
    }

    /// The test that a frame belongs to.
    pub fn test_id(&self) -> (id: &TaskId)
        ensures
            id@ == self.id(),
    {
        match self {
            SpeedControl::Request { test_id, .. } => test_id,
            SpeedControl::Busy { test_id } => test_id,
            SpeedControl::Granted(lease) => &lease.test_id,
            SpeedControl::Cancel(lease) => &lease.test_id,
            SpeedControl::Finished(lease) => &lease.test_id,
            SpeedControl::Ready(lease) => &lease.test_id,
            SpeedControl::Result { lease, .. } => &lease.test_id,
        }
    }

    /// Refuses a duration that no test may have.
    pub fn validate(&self) -> (result: Result<()>)
        ensures
            decided(result, self.refusal()),
    {
        match self {
            SpeedControl::Request { seconds, .. } => validate_speed_seconds(*seconds),
            SpeedControl::Busy { .. } => Ok(()),
            SpeedControl::Granted(lease) => validate_speed_seconds(lease.seconds),
            SpeedControl::Cancel(lease) => validate_speed_seconds(lease.seconds),
            SpeedControl::Finished(lease) => validate_speed_seconds(lease.seconds),
            SpeedControl::Ready(lease) => validate_speed_seconds(lease.seconds),
            SpeedControl::Result { lease, .. } => validate_speed_seconds(lease.seconds),
        }
    }
}

/// The arbiter of one connection, as mathematical values.
pub struct ArbiterView {
    pub local: NodeId,
    pub peer: NodeId,
    pub active: Option<LeaseView>,
    pub stream_claimed: bool,
}

impl ArbiterView {
    /// Whether a node is one of the two ends.
    pub open spec fn knows(self, node: NodeId) -> bool {
        node == self.local || node == self.peer
    }

    /// Why a request is refused, if it is.
    pub open spec fn request_refusal(
        self,
        requester: NodeId,
        seconds: u16,
        active_files: usize,
    ) -> Option<Seq<char>> {
        if self.local.value >= self.peer.value {
            Some("测速请求必须交给较小 NodeId 的协调者"@)
        } else if !self.knows(requester) {
            Some("测速请求对端身份不符"@)
        } else if !speed_seconds_ok(seconds) {
            Some("测速时长非法"@)
        } else if active_files != 0 || self.active is Some {
            Some("测速或文件任务正在进行"@)
        } else {
            None
        }
    }

    /// Why a grant is refused, if it is.
    pub open spec fn grant_refusal(
        self,
        grantor: NodeId,
        lease: LeaseView,
        active_files: usize,
    ) -> Option<Seq<char>> {
        if self.peer.value >= self.local.value || grantor != self.peer || !self.knows(lease.owner)
            || self.active is Some || active_files != 0 {
            Some("测速授权来源、归属或状态非法"@)
        } else if !speed_seconds_ok(lease.seconds) {
            Some("测速时长非法"@)
        } else {
            None
        }
    }

    /// Whether a data stream may be claimed.
    pub open spec fn may_claim(self, sender: NodeId, lease: LeaseView) -> bool {
        self.active == Some(lease) && !self.stream_claimed && sender == lease_source(
            lease,
            self.local,
            self.peer,
        )
    }

    /// Whether a test may be ended.
    pub open spec fn may_finish(self, actor: NodeId, lease: LeaseView) -> bool {
        self.knows(actor) && self.active == Some(lease)
    }

    /// The arbiter with a test under way.
    pub open spec fn granted(self, lease: LeaseView) -> ArbiterView {
        ArbiterView { active: Some(lease), stream_claimed: false, ..self }
    }

    /// The arbiter without a test.
    pub open spec fn idle(self) -> ArbiterView {
        ArbiterView { active: None, stream_claimed: false, ..self }
    }
}

/// The view of an optional lease.
pub open spec fn lease_view(lease: Option<SpeedLease>) -> Option<LeaseView> {
    match lease {
        Some(found) => Some(found@),
        None => None,
    }
}

/// Decides which speed test may run between two nodes.
#[derive(Debug)]
pub struct SpeedArbiter {
    local: NodeId,
    peer: NodeId,
    active: Option<SpeedLease>,
    stream_claimed: bool,
}

impl View for SpeedArbiter {
    type V = ArbiterView;

    closed spec fn view(&self) -> ArbiterView {
        ArbiterView {
            local: self.local,
            peer: self.peer,
            active: lease_view(self.active),
            stream_claimed: self.stream_claimed,
        }
    }
}

impl SpeedArbiter {
    /// No test is under way.
    pub fn new(local: NodeId, peer: NodeId) -> (arbiter: SpeedArbiter)
        ensures
            arbiter@ == (ArbiterView { local, peer, active: None, stream_claimed: false }),
    {
        SpeedArbiter { local, peer, active: None, stream_claimed: false }
    }

    /// Grants a lease with a fresh token. Only the lower node grants, and only while
    /// no test and no file is under way. A refused request changes nothing.
    pub fn request(
        &mut self,
        requester: NodeId,
        test_id: TaskId,
        direction: SpeedDirection,
        seconds: u16,
        active_files: usize,
    ) -> (result: Result<SpeedLease>)
        ensures
            decided(result, old(self)@.request_refusal(requester, seconds, active_files)),
            result matches Ok(lease) ==> lease@ == (LeaseView {
                test_id: test_id@,
                owner: requester,
                direction,
                seconds,
                stream_token: lease.stream_token,
            }) && final(self)@ == old(self)@.granted(lease@),
            result is Err ==> final(self)@ == old(self)@,
    {
        let token: u128 = random_number();
        self.request_with_token(requester, test_id, direction, seconds, active_files, token)
    }

    /// Grants a lease with this token, as `request` does with a fresh one.
    pub fn request_with_token(
        &mut self,
        requester: NodeId,
        test_id: TaskId,
        direction: SpeedDirection,
        seconds: u16,
        active_files: usize,
        stream_token: u128,
    ) -> (result: Result<SpeedLease>)
        ensures
            decided(result, old(self)@.request_refusal(requester, seconds, active_files)),
            result matches Ok(lease) ==> lease@ == (LeaseView {
                test_id: test_id@,
                owner: requester,
                direction,
                seconds,
                stream_token,
            }) && final(self)@ == old(self)@.granted(lease@),
            result is Err ==> final(self)@ == old(self)@,
    {
        if self.local.value >= self.peer.value {
            return Err(failure("测速请求必须交给较小 NodeId 的协调者"));
        }
        if requester != self.local && requester != self.peer {
            return Err(failure("测速请求对端身份不符"));
        }
        match validate_speed_seconds(seconds) {
            Ok(()) => {},
            Err(error) => {
                return Err(error);
            },
        }
        if active_files != 0 || self.active.is_some() {
            return Err(failure("测速或文件任务正在进行"));
        }
        let lease = SpeedLease { test_id, owner: requester, direction, seconds, stream_token };
        self.active = Some(lease.clone());
        self.stream_claimed = false;
        Ok(lease)
    }

    /// Accepts a lease from the lower node. A refused grant changes nothing.
    pub fn accept_grant(
        &mut self,
        authenticated_grantor: NodeId,
        lease: SpeedLease,
        active_files: usize,
    ) -> (result: Result<()>)
        ensures
            decided(
                result,
                old(self)@.grant_refusal(authenticated_grantor, lease@, active_files),
            ),
            final(self)@ == if result is Ok {
                old(self)@.granted(lease@)
            } else {
                old(self)@
            },
    {
        if self.peer.value >= self.local.value || authenticated_grantor != self.peer || (lease.owner
            != self.local && lease.owner != self.peer) || self.active.is_some() || active_files
            != 0 {
            return Err(failure("测速授权来源、归属或状态非法"));
        }
        match validate_speed_seconds(lease.seconds) {
            Ok(()) => {},
            Err(error) => {
                return Err(error);
            },
        }
        self.active = Some(lease);
        self.stream_claimed = false;
        Ok(())
    }

    fn holds(&self, lease: &SpeedLease) -> (same: bool)
        ensures
            same == (self@.active == Some(lease@)),
    {
        match &self.active {
            Some(active) => active.same(lease),
            None => false,
        }
    }

    /// Claims the one data stream of the running test. A refused claim changes nothing.
    pub fn claim_stream(
        &mut self,
        authenticated_sender: NodeId,
        lease: &SpeedLease,
    ) -> (result: Result<()>)
        ensures
            decided(
                result,
                if old(self)@.may_claim(authenticated_sender, lease@) {
                    None
                } else {
                    Some("测速数据流归属或令牌不符"@)
                },
            ),
            final(self)@ == if result is Ok {
                ArbiterView { stream_claimed: true, ..old(self)@ }
            } else {
                old(self)@
            },
    {
        let source = source_of(lease, self.local, self.peer);
        if !self.holds(lease) || self.stream_claimed || authenticated_sender != source {
            return Err(failure("测速数据流归属或令牌不符"));
        }
        self.stream_claimed = true;
        Ok(())
    }

    /// Ends the running test. A refused end changes nothing.
    pub fn finish(&mut self, authenticated_actor: NodeId, lease: &SpeedLease) -> (result: Result<
        (),
    >)
        ensures
            decided(
                result,
                if old(self)@.may_finish(authenticated_actor, lease@) {
                    None
                } else {
                    Some("测速任务身份不符"@)
                },
            ),
            final(self)@ == if result is Ok {
                old(self)@.idle()
            } else {
                old(self)@
            },
    {
        if (authenticated_actor != self.local && authenticated_actor != self.peer)
            || !self.holds(lease) {
            return Err(failure("测速任务身份不符"));
        }
        self.active = None;
        self.stream_claimed = false;
        Ok(())
    }

    /// Whether files may start: no test is under way.
    pub fn can_start_file(&self) -> (free: bool)
        ensures
            free == (self@.active is None),
    {
        self.active.is_none()
    }
}

/// Of two different ends exactly one can grant: what one end would grant on a
/// request, it would refuse to accept from the other, and the other way round.
pub proof fn only_one_end_coordinates(
    arbiter: ArbiterView,
    requester: NodeId,
    seconds: u16,
    grantor: NodeId,
    lease: LeaseView,
)
    ensures
        arbiter.request_refusal(requester, seconds, 0) is None ==> arbiter.grant_refusal(
            grantor,
            lease,
            0,
        ) is Some,
        arbiter.grant_refusal(grantor, lease, 0) is None ==> arbiter.request_refusal(
            requester,
            seconds,
            0,
        ) is Some,
{
}

/// A lease has one data stream: once it is claimed, no second claim succeeds.
pub proof fn streams_are_claimed_once(arbiter: ArbiterView, sender: NodeId, lease: LeaseView)
    requires
        arbiter.may_claim(sender, lease),
    ensures
        forall|again: NodeId, other: LeaseView|
            !#[trigger] (ArbiterView { stream_claimed: true, ..arbiter }).may_claim(again, other),
{
}

/// A running test blocks every further grant until it is finished, and finishing
/// leaves the arbiter as it was before the grant.
pub proof fn one_test_at_a_time(
    arbiter: ArbiterView,
    lease: LeaseView,
    requester: NodeId,
    seconds: u16,
    files: usize,
)
    requires
        arbiter.active is None,
        !arbiter.stream_claimed,
    ensures
        arbiter.granted(lease).request_refusal(requester, seconds, files) is Some,
        arbiter.granted(lease).grant_refusal(requester, lease, files) is Some,
        arbiter.granted(lease).may_finish(arbiter.local, lease),
        arbiter.granted(lease).may_finish(arbiter.peer, lease),
        arbiter.granted(lease).idle() == arbiter,
{
}

/// Both ends agree on who sends the data: the owner of an upload, and the other end of a
/// download.
pub proof fn ends_agree_on_the_source(lease: LeaseView, one: NodeId, other: NodeId)
    requires
        one != other,
        lease.owner == one || lease.owner == other,
    ensures
        lease_source(lease, one, other) == lease_source(lease, other, one),
        lease_source(lease, one, other) == one || lease_source(lease, one, other) == other,
        lease.direction == SpeedDirection::Upload <==> lease_source(lease, one, other)
            == lease.owner,
{
}

/// Two idle ends can always test: the lower one grants what either asks for, the higher
/// one accepts the grant, and exactly the end that sends the data may claim its stream.
pub proof fn idle_ends_can_test(lower: NodeId, higher: NodeId, lease: LeaseView, sender: NodeId)
    requires
        lower.value < higher.value,
        lease.owner == lower || lease.owner == higher,
        lease.seconds == 30 || exists|minutes: int|
            1 <= minutes <= 10 && lease.seconds == #[trigger] (60 * minutes),
    ensures
        ({
            let grantor = ArbiterView {
                local: lower,
                peer: higher,
                active: None,
                stream_claimed: false,
            };
            let taker = ArbiterView {
                local: higher,
                peer: lower,
                active: None,
                stream_claimed: false,
            };
            &&& grantor.request_refusal(lease.owner, lease.seconds, 0) is None
            &&& taker.grant_refusal(lower, lease, 0) is None
            &&& grantor.granted(lease).may_claim(sender, lease) == taker.granted(lease).may_claim(
                sender,
                lease,
            )
            &&& grantor.granted(lease).may_claim(sender, lease) <==> sender == match lease.direction {
                SpeedDirection::Upload => lease.owner,
                SpeedDirection::Download => if lease.owner == lower {
                    higher
                } else {
                    lower
                },
            }
        }),
{
}

/// No test is granted while files are on their way, to a stranger, or for a time that no
/// test has; and none is taken from anyone but the coordinating peer.
pub proof fn grants_are_refused_for_cause(
    arbiter: ArbiterView,
    node: NodeId,
    lease: LeaseView,
    files: usize,
)
    ensures
        files != 0 ==> arbiter.request_refusal(node, lease.seconds, files) is Some
            && arbiter.grant_refusal(node, lease, files) is Some,
        node != arbiter.local && node != arbiter.peer ==> arbiter.request_refusal(
            node,
            lease.seconds,
            files,
        ) is Some && arbiter.grant_refusal(node, lease, files) is Some,
        lease.seconds != 30 && lease.seconds % 60 != 0 ==> arbiter.request_refusal(
            node,
            lease.seconds,
            files,
        ) is Some && arbiter.grant_refusal(node, lease, files) is Some,
        lease.seconds > 600 ==> arbiter.request_refusal(node, lease.seconds, files) is Some
            && arbiter.grant_refusal(node, lease, files) is Some,
        lease.seconds < 30 ==> arbiter.request_refusal(node, lease.seconds, files) is Some
            && arbiter.grant_refusal(node, lease, files) is Some,
        node != arbiter.peer ==> arbiter.grant_refusal(node, lease, files) is Some,
        lease.owner != arbiter.local && lease.owner != arbiter.peer ==> arbiter.grant_refusal(
            node,
            lease,
            files,
        ) is Some,
{
}

/// A frame is judged by the time that it speaks of, and belongs to the test that it names.
pub proof fn controls_speak_of_their_test(lease: SpeedLease, bytes: u64, elapsed_ms: u64)
    ensures
        forall|control: SpeedControl|
            control == SpeedControl::Granted(lease) || control == SpeedControl::Cancel(lease)
                || control == SpeedControl::Finished(lease) || control == SpeedControl::Ready(lease)
                || control == (SpeedControl::Result { lease, bytes, elapsed_ms })
                ==> #[trigger] control.id() == lease@.test_id && (control.refusal() is None <==> (
            lease.seconds == 30 || (60 <= lease.seconds <= 600 && lease.seconds % 60 == 0))),
{
}

} // verus!
