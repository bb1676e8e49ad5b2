//! One admission boundary for selected files, reserved streams and speed tests.
//! Permits cover cleanup as well as the visible operation.

use vstd::prelude::*;

use crate::error::{decided, failure, Result};
use crate::identity::NodeId;
use crate::lists::{distinct, first_index, lemma_first_index, lemma_is_first_index};
use crate::task_model::TaskId;

verus! {

/// What runs with one peer, as mathematical values.
pub struct PeerActivity {
    pub files: nat,
    pub speed: Option<Seq<char>>,
}

impl PeerActivity {
    /// Nothing runs.
    pub open spec fn idle() -> PeerActivity {
        PeerActivity { files: 0, speed: None }
    }
}

/// What runs with one peer.
#[derive(Debug)]
pub struct Entry {
    peer: NodeId,
    files: usize,
    speed: Option<TaskId>,
}

impl Entry {
    /// What runs, as mathematical values.
    pub closed spec fn activity(self) -> PeerActivity {
        PeerActivity {
            files: self.files as nat,
            speed: match self.speed {
                Some(id) => Some(id@),
                None => None,
            },
        }
    }
}

/// Everything that runs, by peer.
#[derive(Debug)]
pub struct State {
    peers: Vec<Entry>,
}

spec fn entry_of(peer: NodeId) -> spec_fn(Entry) -> bool {
    |entry: Entry| entry.peer == peer
}

impl State {
    /// Each peer stands once, and only while something runs.
    pub closed spec fn valid(self) -> bool {
        &&& distinct(self.peers@, |entry: Entry| entry.peer)
        &&& forall|i: int|
            0 <= i < self.peers@.len() ==> #[trigger] self.peers@[i].activity()
                != PeerActivity::idle()
    }

    /// What runs with a peer.
    pub closed spec fn with_peer(self, peer: NodeId) -> PeerActivity {
        let at = first_index(self.peers@, entry_of(peer));
        if at < self.peers@.len() {
            self.peers@[at].activity()
        } else {
            PeerActivity::idle()
        }
    }

    /// How many peers something runs with.
    pub closed spec fn size(self) -> nat {
        self.peers@.len()
    }

    /// Whether only one peer's activity changed, and to what.
    pub open spec fn changed_to(self, before: State, peer: NodeId, activity: PeerActivity) -> bool {
        &&& self.valid()
        &&& forall|other: NodeId| #[trigger]
            self.with_peer(other) == if other == peer {
                activity
            } else {
                before.with_peer(other)
            }
    }

    /// Nothing runs.
    pub fn new() -> (state: State)
        ensures
            state.valid(),
            state.size() == 0,
            forall|peer: NodeId| #[trigger] state.with_peer(peer) == PeerActivity::idle(),
    {
        State { peers: Vec::new() }
    }

    /// Whether nothing runs with anybody.
    pub fn is_empty(&self) -> (empty: bool)
        ensures
            empty == (self.size() == 0),
    {
        self.peers.len() == 0
    }

    fn find(&self, peer: NodeId) -> (at: usize)
        ensures
            at == first_index(self.peers@, entry_of(peer)),
            at <= self.peers@.len(),
            at < self.peers@.len() ==> self.peers@[at as int].peer == peer,
    {
        let mut i: usize = 0;
        while i < self.peers.len()
            invariant
                i <= self.peers@.len(),
                forall|k: int| 0 <= k < i ==> !entry_of(peer)(#[trigger] self.peers@[k]),
            decreases self.peers@.len() - i,
        {
            if self.peers[i].peer == peer {
                proof {
                    assert(entry_of(peer)(self.peers@[i as int]));
                    lemma_is_first_index(self.peers@, entry_of(peer), i as int);
                }
                return i;
            }
            assert(!entry_of(peer)(self.peers@[i as int]));
            i = i + 1;
        }
        proof {
            lemma_is_first_index(self.peers@, entry_of(peer), i as int);
        }
        i
    }

    proof fn lemma_position(self, at: int)
        requires
            self.valid(),
            0 <= at < self.peers@.len(),
        ensures
            first_index(self.peers@, entry_of(self.peers@[at].peer)) == at,
            self.with_peer(self.peers@[at].peer) == self.peers@[at].activity(),
    {
        let peer = self.peers@[at].peer;
        let key = |entry: Entry| entry.peer;
        assert forall|k: int| 0 <= k < at implies !entry_of(peer)(#[trigger] self.peers@[k]) by {
            assert(key(self.peers@[k]) != key(self.peers@[at]));
        }
        assert(entry_of(peer)(self.peers@[at]));
        lemma_is_first_index(self.peers@, entry_of(peer), at);
    }

    /// Whether a speed test may start with a peer.
    pub fn can_speed(&self, peer: NodeId) -> (allowed: bool)
        ensures
            allowed == (self.with_peer(peer).files == 0 && self.with_peer(peer).speed is None),
    {
        let at: usize = self.find(peer);
        if at < self.peers.len() {
            self.peers[at].files == 0 && self.peers[at].speed.is_none()
        } else {
            true
        }
    }

    /// Whether a speed test runs with a peer.
    pub fn speed_active(&self, peer: NodeId) -> (active: bool)
        ensures
            active == (self.with_peer(peer).speed is Some),
    {
        let at: usize = self.find(peer);
        if at < self.peers.len() {
            self.peers[at].speed.is_some()
        } else {
            false
        }
    }

    fn store(&mut self, peer: NodeId, files: usize, speed: Option<TaskId>)
        requires
            old(self).valid(),
        ensures
            final(self).changed_to(
                *old(self),
                peer,
                PeerActivity {
                    files: files as nat,
                    speed: match speed {
                        Some(id) => Some(id@),
                        None => None,
                    },
                },
            ),
    {
        let ghost before = *self;
        let ghost key = |entry: Entry| entry.peer;
        let at: usize = self.find(peer);
        let present = at < self.peers.len();
        let idle = files == 0 && speed.is_none();
        let entry = Entry { peer, files, speed };
        let ghost activity = entry.activity();
        proof {
            lemma_first_index(before.peers@, entry_of(peer));
            if present {
                assert(entry_of(peer)(before.peers@[at as int]));
            }
        }
        if present && idle {
            let _ = self.peers.remove(at);
        } else if present {
            self.peers.set(at, entry);
        } else if !idle {
            self.peers.push(entry);
        }
        proof {
            let after = *self;
            assert forall|i: int, j: int| 0 <= i < j < after.peers@.len() implies key(
                #[trigger] after.peers@[i],
            ) != key(#[trigger] after.peers@[j]) by {
                if present && idle {
                    let a = if i < at {
                        i
                    } else {
                        i + 1
                    };
                    let b = if j < at {
                        j
                    } else {
                        j + 1
                    };
                    assert(key(before.peers@[a]) != key(before.peers@[b]));
                } else if present {
                    assert(key(before.peers@[i]) != key(before.peers@[j]));
                } else if j == before.peers@.len() {
                    assert(!entry_of(peer)(before.peers@[i]));
                } else {
                    assert(key(before.peers@[i]) != key(before.peers@[j]));
                }
            }
            assert forall|i: int| 0 <= i < after.peers@.len() implies #[trigger] after.peers@[i].activity()
                != PeerActivity::idle() by {
                if present && idle {
                    let a = if i < at {
                        i
                    } else {
                        i + 1
                    };
                    assert(before.peers@[a].activity() != PeerActivity::idle());
                } else if i < before.peers@.len() {
                    assert(before.peers@[i].activity() != PeerActivity::idle());
                }
            }
            assert(after.valid());
            assert forall|other: NodeId| #[trigger]
                after.with_peer(other) == if other == peer {
                    activity
                } else {
                    before.with_peer(other)
                } by {
                before.lemma_where(other);
                after.lemma_where(other);
                let b = first_index(before.peers@, entry_of(other));
                let a = first_index(after.peers@, entry_of(other));
                if other == peer {
                    if idle {
                        if a < after.peers@.len() {
                            assert(after.peers@[a].peer == peer);
                            if present {
                                let o = if a < at {
                                    a
                                } else {
                                    a + 1
                                };
                                assert(before.peers@[o].peer == peer);
                                assert(key(before.peers@[o]) == key(before.peers@[at as int]));
                            } else {
                                assert(!entry_of(peer)(before.peers@[a]));
                            }
                        }
                        assert(activity == PeerActivity::idle());
                    } else {
                        let place = if present {
                            at as int
                        } else {
                            before.peers@.len() as int
                        };
                        after.lemma_position(place);
                    }
                } else {
                    if b < before.peers@.len() {
                        let place = if present && idle && b > at {
                            b - 1
                        } else {
                            b
                        };
                        assert(after.peers@[place] == before.peers@[b]);
                        after.lemma_position(place);
                    } else if a < after.peers@.len() {
                        let o = if present && idle && a >= at {
                            a + 1
                        } else {
                            a
                        };
                        assert(o < before.peers@.len());
                        assert(before.peers@[o].peer == other);
                        assert(!entry_of(other)(before.peers@[o]));
                    }
                }
            }
        }
    }

    proof fn lemma_where(self, peer: NodeId)
        ensures
            ({
                let at = first_index(self.peers@, entry_of(peer));
                &&& 0 <= at <= self.peers@.len()
                &&& at < self.peers@.len() ==> self.peers@[at].peer == peer
                &&& forall|k: int| 0 <= k < at ==> !entry_of(peer)(#[trigger] self.peers@[k])
            }),
    {
        lemma_first_index(self.peers@, entry_of(peer));
        let at = first_index(self.peers@, entry_of(peer));
        if at < self.peers@.len() {
            assert(entry_of(peer)(self.peers@[at]));
        }
    }

    /// Why a file may not start with a peer.
    pub open spec fn file_refusal(self, peer: NodeId) -> Option<Seq<char>> {
        if self.with_peer(peer).speed is Some {
            Some("测速正在进行，不能启动文件任务"@)
        } else if self.with_peer(peer).files == usize::MAX {
            Some("文件资源计数超限"@)
        } else {
            None
        }
    }

    /// Why a speed test may not start with a peer.
    pub open spec fn speed_refusal(self, peer: NodeId) -> Option<Seq<char>> {
        if self.with_peer(peer).files != 0 || self.with_peer(peer).speed is Some {
            Some("文件或测速正在进行，请先暂停文件或取消测速"@)
        } else {
            None
        }
    }

    /// Counts one more file with a peer, unless a speed test runs.
    pub fn add_file(&mut self, peer: NodeId) -> (result: Result<()>)
        requires
            old(self).valid(),
        ensures
            decided(result, old(self).file_refusal(peer)),
            result is Err ==> *final(self) == *old(self),
            result is Ok ==> final(self).changed_to(
                *old(self),
                peer,
                PeerActivity { files: old(self).with_peer(peer).files + 1, speed: None },
            ),
    {
        let at: usize = self.find(peer);
        let mut files: usize = 0;
        if at < self.peers.len() {
            if self.peers[at].speed.is_some() {
                return Err(failure("测速正在进行，不能启动文件任务"));
            }
            files = self.peers[at].files;
        }
        if files == usize::MAX {
            return Err(failure("文件资源计数超限"));
        }
        self.store(peer, files + 1, None);
        Ok(())
    }

    /// Notes a speed test with a peer, unless anything runs.
    pub fn add_speed(&mut self, peer: NodeId, id: TaskId) -> (result: Result<()>)
        requires
            old(self).valid(),
        ensures
            decided(result, old(self).speed_refusal(peer)),
            result is Err ==> *final(self) == *old(self),
            result is Ok ==> final(self).changed_to(
                *old(self),
                peer,
                PeerActivity { files: 0, speed: Some(id@) },
            ),
    {
        if !self.can_speed(peer) {
            return Err(failure("文件或测速正在进行，请先暂停文件或取消测速"));
        }
        self.store(peer, 0, Some(id));
        Ok(())
    }

    /// Counts one file less with a peer.
    pub fn end_file(&mut self, peer: NodeId)
        requires
            old(self).valid(),
            old(self).with_peer(peer).files > 0,
        ensures
            final(self).changed_to(
                *old(self),
                peer,
                PeerActivity {
                    files: (old(self).with_peer(peer).files - 1) as nat,
                    speed: old(self).with_peer(peer).speed,
                },
            ),
    {
        let at: usize = self.find(peer);
        let files: usize = self.peers[at].files;
        let speed = match &self.peers[at].speed {
            Some(id) => Some(id.clone()),
            None => None,
        };
        self.store(peer, files - 1, speed);
    }

    /// Forgets a speed test with a peer; the end of another one changes nothing.
    pub fn end_speed(&mut self, peer: NodeId, id: &TaskId)
        requires
            old(self).valid(),
        ensures
            final(self).changed_to(
                *old(self),
                peer,
                PeerActivity {
                    files: old(self).with_peer(peer).files,
                    speed: if old(self).with_peer(peer).speed == Some(id@) {
                        None
                    } else {
                        old(self).with_peer(peer).speed
                    },
                },
            ),
    {
        let at: usize = self.find(peer);
        if at < self.peers.len() {
            let files: usize = self.peers[at].files;
            let speed = match &self.peers[at].speed {
                Some(found) => if found.same(id) {
                    None
                } else {
                    Some(found.clone())
                },
                None => None,
            };
            self.store(peer, files, speed);
        }
    }
}

/// Stands for one file that runs with a peer.
#[derive(Debug)]
pub struct FilePermit {
    peer: NodeId,
}

impl View for FilePermit {
    type V = NodeId;

    closed spec fn view(&self) -> NodeId {
        self.peer
    }
}

/// Stands for one speed test that runs with a peer.
#[derive(Debug)]
pub struct SpeedPermit {
    peer: NodeId,
    id: TaskId,
}

impl View for SpeedPermit {
    type V = (NodeId, Seq<char>);

    closed spec fn view(&self) -> (NodeId, Seq<char>) {
        (self.peer, self.id@)
    }
}

/// Admission of files and speed tests, with a count of the releases for those who
/// wait for one.
#[derive(Debug)]
pub struct Activity {
    pub state: State,
    pub changed: u64,
}

/// One more, starting over after the largest value.
pub open spec fn wrapped_next(value: u64) -> u64 {
    if value == u64::MAX {
        0
    } else {
        (value + 1) as u64
    }
}

impl Activity {
    /// Nothing runs.
    pub fn new() -> (activity: Activity)
        ensures
            activity.state.valid(),
            activity.state.size() == 0,
            activity.changed == 0,
            forall|peer: NodeId| #[trigger]
                activity.state.with_peer(peer) == PeerActivity::idle(),
    {
        Activity { state: State::new(), changed: 0 }
    }

    /// A permit for one more file with a peer.
    pub fn file(&mut self, peer: NodeId) -> (result: Result<FilePermit>)
        requires
            old(self).state.valid(),
        ensures
            decided(result, old(self).state.file_refusal(peer)),
            result is Err ==> *final(self) == *old(self),
            result matches Ok(permit) ==> permit@ == peer && final(self).changed
                == old(self).changed && final(self).state.changed_to(
                old(self).state,
                peer,
                PeerActivity { files: old(self).state.with_peer(peer).files + 1, speed: None },
            ),
    {
        self.state.add_file(peer)?;
        Ok(self.file_permit(peer))
    }

    /// The permit for a file that has been counted already.
    pub fn file_permit(&self, peer: NodeId) -> (permit: FilePermit)
        ensures
            permit@ == peer,
    {
        FilePermit { peer }
    }

    /// A permit for a speed test with a peer.
    pub fn speed(&mut self, peer: NodeId, id: TaskId) -> (result: Result<SpeedPermit>)
        requires
            old(self).state.valid(),
        ensures
            decided(result, old(self).state.speed_refusal(peer)),
            result is Err ==> *final(self) == *old(self),
            result matches Ok(permit) ==> permit@.0 == peer && permit@.1 == id@
                && final(self).changed == old(self).changed && final(self).state.changed_to(
                old(self).state,
                peer,
                PeerActivity { files: 0, speed: Some(id@) },
            ),
    {
        let copy = id.clone();
        self.state.add_speed(peer, copy)?;
        Ok(SpeedPermit { peer, id })
    }

    /// Gives a file permit back.
    pub fn release_file(&mut self, permit: FilePermit)
        requires
            old(self).state.valid(),
            old(self).state.with_peer(permit@).files > 0,
        ensures
            final(self).changed == wrapped_next(old(self).changed),
            final(self).state.changed_to(
                old(self).state,
                permit@,
                PeerActivity {
                    files: (old(self).state.with_peer(permit@).files - 1) as nat,
                    speed: old(self).state.with_peer(permit@).speed,
                },
            ),
    {
        self.state.end_file(permit.peer);
        self.changed = if self.changed == u64::MAX {
            0
        } else {
            self.changed + 1
        };
    }

    /// Gives a speed permit back.
    pub fn release_speed(&mut self, permit: SpeedPermit)
        requires
            old(self).state.valid(),
        ensures
            final(self).changed == wrapped_next(old(self).changed),
            final(self).state.changed_to(
                old(self).state,
                permit@.0,
                PeerActivity {
                    files: old(self).state.with_peer(permit@.0).files,
                    speed: if old(self).state.with_peer(permit@.0).speed == Some(permit@.1) {
                        None
                    } else {
                        old(self).state.with_peer(permit@.0).speed
                    },
                },
            ),
    {
        self.state.end_speed(permit.peer, &permit.id);
        self.changed = if self.changed == u64::MAX {
            0
        } else {
            self.changed + 1
        };
    }
}

/// Files and a speed test never run together: admission of either refuses the other.
pub proof fn files_and_speed_tests_exclude_each_other(
    before: State,
    after: State,
    peer: NodeId,
    id: Seq<char>,
)
    ensures
        before.file_refusal(peer) is None && after.changed_to(
            before,
            peer,
            PeerActivity { files: before.with_peer(peer).files + 1, speed: None },
        ) ==> after.speed_refusal(peer) is Some,
        before.speed_refusal(peer) is None && after.changed_to(
            before,
            peer,
            PeerActivity { files: 0, speed: Some(id) },
        ) ==> after.file_refusal(peer) is Some && after.speed_refusal(peer) is Some,
{
}

/// Once everything has been given back nothing is remembered.
pub proof fn idle_states_are_empty(state: State)
    requires
        state.valid(),
        forall|peer: NodeId| #[trigger] state.with_peer(peer) == PeerActivity::idle(),
    ensures
        state.size() == 0,
{
    if state.peers@.len() > 0 {
        state.lemma_position(0);
        assert(state.peers@[0].activity() != PeerActivity::idle());
        assert(state.with_peer(state.peers@[0].peer) == PeerActivity::idle());
    }
}

/// A peer with which nothing runs is free for a file and for a speed test; files go
/// together with files, and a speed test with nothing.
pub proof fn idle_peers_are_free(state: State, peer: NodeId)
    ensures
        state.with_peer(peer) == PeerActivity::idle() ==> state.file_refusal(peer) is None
            && state.speed_refusal(peer) is None,
        state.speed_refusal(peer) is None <==> state.with_peer(peer).files == 0 && state.with_peer(
            peer,
        ).speed is None,
        state.with_peer(peer).files < usize::MAX ==> (state.file_refusal(peer) is None
            <==> state.with_peer(peer).speed is None),
{
}

/// Every release is noticed: the count differs from what it was, and comes round only
/// after every other number.
pub proof fn releases_are_noticed(before: u64)
    ensures
        wrapped_next(before) != before,
        before < u64::MAX ==> wrapped_next(before) == before + 1,
        forall|other: u64| #[trigger] wrapped_next(other) == wrapped_next(before) ==> other == before,
{
}

} // verus!
