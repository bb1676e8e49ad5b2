//! What the window keeps of peers, tasks and speed tests.

use vstd::prelude::*;

use crate::identity::NodeId;
use crate::lists::{distinct, first_index, lemma_first_index, lemma_is_first_index};
use crate::network_state::{PeerLifecycle, PeerStateView, MAX_PEERS};
use crate::publish::text_view;
use crate::speed::{SnapshotView, SpeedSnapshot, SpeedStatus};
use crate::task_model::{TaskDirection, TaskId};
use crate::task_recovery::id_views;
use crate::text::{decimal, decimal_text, join_text, trim_text, trimmed};

verus! {

/// What is known of one peer.
#[derive(Debug)]
pub struct PeerLine {
    pub peer: NodeId,
    pub generation: u64,
    pub state: PeerLifecycle,
}

/// What is known of one peer, as mathematical values.
pub struct LineView {
    pub peer: NodeId,
    pub generation: u64,
    pub state: PeerStateView,
}

impl View for PeerLine {
    type V = LineView;

    open spec fn view(&self) -> LineView {
        LineView { peer: self.peer, generation: self.generation, state: self.state@ }
    }
}

/// The views of some lines.
pub open spec fn line_views(lines: Seq<PeerLine>) -> Seq<LineView> {
    lines.map_values(|line: PeerLine| line@)
}

/// A task that waits for its peer.
#[derive(Debug)]
pub struct HeldTask {
    pub peer: NodeId,
    pub id: TaskId,
}

/// The views of some waiting tasks.
pub open spec fn held_views(held: Seq<HeldTask>) -> Seq<(NodeId, Seq<char>)> {
    held.map_values(|task: HeldTask| (task.peer, task.id@))
}

/// Whether a line is about this peer.
pub open spec fn about(peer: NodeId) -> spec_fn(LineView) -> bool {
    |line: LineView| line.peer == peer
}

/// The first of the lines with the least generation.
pub open spec fn oldest(lines: Seq<LineView>) -> int
    decreases lines.len(),
{
    if lines.len() <= 1 {
        0
    } else {
        let before = oldest(lines.drop_last());
        if lines.last().generation < lines[before].generation {
            lines.len() - 1
        } else {
            before
        }
    }
}

/// The tasks that wait for this peer.
pub open spec fn held_for(held: Seq<(NodeId, Seq<char>)>, peer: NodeId) -> Seq<Seq<char>>
    decreases held.len(),
{
    if held.len() == 0 {
        Seq::empty()
    } else if held.last().0 == peer {
        held_for(held.drop_last(), peer).push(held.last().1)
    } else {
        held_for(held.drop_last(), peer)
    }
}

/// The tasks that wait for other peers.
pub open spec fn held_for_others(held: Seq<(NodeId, Seq<char>)>, peer: NodeId) -> Seq<
    (NodeId, Seq<char>),
>
    decreases held.len(),
{
    if held.len() == 0 {
        Seq::empty()
    } else if held.last().0 == peer {
        held_for_others(held.drop_last(), peer)
    } else {
        held_for_others(held.drop_last(), peer).push(held.last())
    }
}

/// The model of a peer board.
#[verifier::ext_equal]
pub ghost struct BoardView {
    pub lines: Seq<LineView>,
    pub held: Seq<(NodeId, Seq<char>)>,
}

impl BoardView {
    /// One line for each peer, and no more than a session has peers.
    pub open spec fn valid(self) -> bool {
        &&& distinct(self.lines, |line: LineView| line.peer)
        &&& self.lines.len() <= MAX_PEERS
    }

    /// Where the line about this peer stands.
    pub open spec fn place(self, peer: NodeId) -> int {
        first_index(self.lines, about(peer))
    }

    /// Whether anything is known of this peer.
    pub open spec fn knows(self, peer: NodeId) -> bool {
        self.place(peer) < self.lines.len()
    }

    /// What is known of this peer.
    pub open spec fn state(self, peer: NodeId) -> Option<PeerStateView> {
        if self.knows(peer) {
            Some(self.lines[self.place(peer)].state)
        } else {
            None
        }
    }

    /// Whether this peer is connected and authenticated.
    pub open spec fn connected(self, peer: NodeId) -> bool {
        self.state(peer) == Some(PeerStateView::Connected)
    }

    /// Whether a report is older than what is known.
    pub open spec fn stale(self, peer: NodeId, generation: u64) -> bool {
        self.knows(peer) && generation < self.lines[self.place(peer)].generation
    }

    /// The lines after a report. A full board forgets its oldest line for a new peer.
    pub open spec fn lines_after(self, line: LineView) -> Seq<LineView> {
        if self.knows(line.peer) {
            self.lines.update(self.place(line.peer), line)
        } else if self.lines.len() >= MAX_PEERS {
            self.lines.remove(oldest(self.lines)).push(line)
        } else {
            self.lines.push(line)
        }
    }

    /// After a report that is not stale. A connection that stands or is over ends the
    /// waiting for it.
    pub open spec fn reported(self, line: LineView) -> BoardView {
        BoardView {
            lines: self.lines_after(line),
            held: if line.state is Connected || line.state.over() {
                held_for_others(self.held, line.peer)
            } else {
                self.held
            },
        }
    }

    /// After a task was made to wait for its peer; it waits once.
    pub open spec fn holding(self, peer: NodeId, id: Seq<char>) -> BoardView {
        if self.held.contains((peer, id)) {
            self
        } else {
            BoardView { held: self.held.push((peer, id)), ..self }
        }
    }
}

/// The peers of a session, and the tasks that wait for them.
#[derive(Debug)]
pub struct PeerBoard {
    lines: Vec<PeerLine>,
    held: Vec<HeldTask>,
}

impl View for PeerBoard {
    type V = BoardView;

    closed spec fn view(&self) -> BoardView {
        BoardView { lines: line_views(self.lines@), held: held_views(self.held@) }
    }
}

/// Reports keep one line for each peer.
pub proof fn reports_keep_boards_valid(board: BoardView, line: LineView)
    requires
        board.valid(),
    ensures
        board.reported(line).valid(),
        board.reported(line).state(line.peer) == Some(line.state),
{
    lemma_first_index(board.lines, about(line.peer));
    let after = board.lines_after(line);
    if board.knows(line.peer) {
        assert(distinct(after, |line: LineView| line.peer));
        lemma_is_first_index(after, about(line.peer), board.place(line.peer));
    } else {
        assert forall|i: int| 0 <= i < board.lines.len() implies board.lines[i].peer != line.peer by {
            assert(!about(line.peer)(board.lines[i]));
        }
        lemma_oldest(board.lines);
        assert(distinct(after, |line: LineView| line.peer));
        lemma_is_first_index(after, about(line.peer), after.len() - 1);
    }
}

/// The oldest line is among the lines, and no line has a lower generation.
proof fn lemma_oldest(lines: Seq<LineView>)
    ensures
        lines.len() > 0 ==> 0 <= oldest(lines) < lines.len(),
        forall|i: int|
            0 <= i < lines.len() ==> lines[oldest(lines)].generation <= (
            #[trigger] lines[i]).generation,
    decreases lines.len(),
{
    if lines.len() > 1 {
        let before = lines.drop_last();
        lemma_oldest(before);
        assert forall|i: int| 0 <= i < lines.len() implies lines[oldest(lines)].generation <= (
        #[trigger] lines[i]).generation by {
            if i < lines.len() - 1 {
                assert(before[i] == lines[i]);
            }
        }
    }
}

/// A full board forgets a peer with the least generation.
pub proof fn full_boards_forget_the_oldest(board: BoardView, line: LineView, kept: int)
    requires
        board.valid(),
        !board.knows(line.peer),
        board.lines.len() == MAX_PEERS,
        0 <= kept < board.lines.len(),
    ensures
        board.lines[oldest(board.lines)].generation <= board.lines[kept].generation,
        kept != oldest(board.lines) ==> board.reported(line).lines.contains(board.lines[kept]),
{
    lemma_oldest(board.lines);
    let at = oldest(board.lines);
    let after = board.reported(line).lines;
    if kept < at {
        assert(after[kept] == board.lines[kept]);
    } else if kept > at {
        assert(after[kept - 1] == board.lines[kept]);
    }
}

impl PeerBoard {
    /// A board without peers.
    pub fn new() -> (board: PeerBoard)
        ensures
            board@.valid(),
            board@.lines.len() == 0,
            board@.held.len() == 0,
    {
        PeerBoard { lines: Vec::new(), held: Vec::new() }
    }

    fn position(&self, peer: NodeId) -> (at: usize)
        ensures
            at == self@.place(peer),
            at <= self@.lines.len(),
            self@.lines.len() == self.lines@.len(),
    {
        let mut at: usize = 0;
        while at < self.lines.len() && self.lines[at].peer != peer
            invariant
                at <= self.lines@.len(),
                forall|i: int| 0 <= i < at ==> (#[trigger] self.lines@[i]).peer != peer,
            decreases self.lines.len() - at,
        {
            at = at + 1;
        }
        proof {
            assert forall|i: int| 0 <= i < at implies !about(peer)(#[trigger] self@.lines[i]) by {
                assert(self.lines@[i].peer != peer);
            }
            lemma_is_first_index(self@.lines, about(peer), at as int);
        }
        at
    }

    /// What is known of a peer.
    pub fn state(&self, peer: NodeId) -> (state: Option<&PeerLifecycle>)
        ensures
            match self@.state(peer) {
                None => state is None,
                Some(known) => state matches Some(found) && found@ == known,
            },
    {
        let at: usize = self.position(peer);
        if at < self.lines.len() {
            Some(&self.lines[at].state)
        } else {
            None
        }
    }

    /// Whether a peer is connected and authenticated.
    pub fn is_connected(&self, peer: NodeId) -> (connected: bool)
        ensures
            connected == self@.connected(peer),
    {
        match self.state(peer) {
            Some(PeerLifecycle::Connected) => true,
            _ => false,
        }
    }

    fn oldest_line(&self) -> (at: usize)
        requires
            self.lines@.len() > 0,
        ensures
            at == oldest(self@.lines),
            at < self.lines@.len(),
    {
        let ghost views = self@.lines;
        let mut at: usize = 0;
        let mut index: usize = 1;
        while index < self.lines.len()
            invariant
                views == line_views(self.lines@),
                1 <= index <= self.lines@.len(),
                at < index,
                at == oldest(views.take(index as int)),
            decreases self.lines.len() - index,
        {
            let ghost next = views.take(index + 1);
            assert(next.drop_last() =~= views.take(index as int));
            assert(next.last() == self.lines@[index as int]@);
            assert(next[at as int] == self.lines@[at as int]@);
            if self.lines[index].generation < self.lines[at].generation {
                at = index;
            }
            index = index + 1;
        }
        assert(views.take(index as int) =~= views);
        at
    }

    /// Removes and returns the tasks that wait for a peer.
    fn release(&mut self, peer: NodeId) -> (ids: Vec<TaskId>)
        ensures
            id_views(ids@) == held_for(old(self)@.held, peer),
            final(self)@ == (BoardView {
                held: held_for_others(old(self)@.held, peer),
                ..old(self)@
            }),
    {
        let ghost before = self@;
        let mut ids: Vec<TaskId> = Vec::new();
        let mut kept: Vec<HeldTask> = Vec::new();
        let mut index: usize = 0;
        while index < self.held.len()
            invariant
                before.held == held_views(self.held@),
                index <= self.held@.len(),
                id_views(ids@) == held_for(before.held.take(index as int), peer),
                held_views(kept@) == held_for_others(before.held.take(index as int), peer),
            decreases self.held.len() - index,
        {
            let ghost next = before.held.take(index + 1);
            let ghost ids_before = ids@;
            let ghost kept_before = kept@;
            assert(next.drop_last() =~= before.held.take(index as int));
            assert(next.last() == (self.held@[index as int].peer, self.held@[index as int].id@));
            if self.held[index].peer == peer {
                ids.push(self.held[index].id.clone());
                assert(id_views(ids@) =~= id_views(ids_before).push(next.last().1));
            } else {
                kept.push(
                    HeldTask { peer: self.held[index].peer, id: self.held[index].id.clone() },
                );
                assert(held_views(kept@) =~= held_views(kept_before).push(next.last()));
            }
            index = index + 1;
        }
        assert(before.held.take(index as int) =~= before.held);
        self.held = kept;
        ids
    }

    /// Takes note of a report. A stale one changes nothing and gives nothing; another
    /// gives the tasks that can go on now.
    pub fn report(&mut self, peer: NodeId, generation: u64, state: PeerLifecycle) -> (resumed: Option<
        Vec<TaskId>,
    >)
        requires
            old(self)@.valid(),
        ensures
            final(self)@.valid(),
            if old(self)@.stale(peer, generation) {
                resumed is None && final(self)@ == old(self)@
            } else {
                &&& final(self)@ == old(self)@.reported(
                    LineView { peer, generation, state: state@ },
                )
                &&& resumed matches Some(ids) && id_views(ids@) == (if state@ is Connected {
                    held_for(old(self)@.held, peer)
                } else {
                    Seq::empty()
                })
            },
    {
        let ghost before = self@;
        let ghost line = LineView { peer, generation, state: state@ };
        proof {
            reports_keep_boards_valid(before, line);
            lemma_oldest(before.lines);
        }
        let at: usize = self.position(peer);
        let connected = matches!(state, PeerLifecycle::Connected);
        let over = state.is_terminal();
        if at < self.lines.len() {
            if generation < self.lines[at].generation {
                return None;
            }
            self.lines.set(at, PeerLine { peer, generation, state });
            assert(line_views(self.lines@) =~= before.lines.update(at as int, line));
        } else {
            if self.lines.len() >= MAX_PEERS {
                let gone: usize = self.oldest_line();
                self.lines.remove(gone);
                assert(line_views(self.lines@) =~= before.lines.remove(gone as int));
            }
            let ghost shorter = line_views(self.lines@);
            self.lines.push(PeerLine { peer, generation, state });
            assert(line_views(self.lines@) =~= shorter.push(line));
        }
        if connected || over {
            let ids = self.release(peer);
            if connected {
                return Some(ids);
            }
        }
        let none: Vec<TaskId> = Vec::new();
        assert(id_views(none@) =~= Seq::<Seq<char>>::empty());
        Some(none)
    }

    /// Makes a task wait for its peer.
    pub fn hold(&mut self, peer: NodeId, id: &TaskId)
        requires
            old(self)@.valid(),
        ensures
            final(self)@.valid(),
            final(self)@ == old(self)@.holding(peer, id@),
    {
        let ghost before = self@;
        let mut index: usize = 0;
        while index < self.held.len()
            invariant
                before == self@,
                before.valid(),
                before.held == held_views(self.held@),
                index <= self.held@.len(),
                forall|i: int| 0 <= i < index ==> (#[trigger] before.held[i]) != (peer, id@),
            decreases self.held.len() - index,
        {
            if self.held[index].peer == peer && self.held[index].id.same(id) {
                assert(before.held[index as int] == (peer, id@));
                return;
            }
            index = index + 1;
        }
        self.held.push(HeldTask { peer, id: id.clone() });
        assert(held_views(self.held@) =~= before.held.push((peer, id@)));
    }
}

/// What is shown when a peer's connection changes.
pub open spec fn change_text(state: PeerStateView) -> Seq<char> {
    match state {
        PeerStateView::PeerPending => "等待对端候选地址"@,
        PeerStateView::Punching => "正在验证 UDP 打洞来源"@,
        PeerStateView::Authenticating => "正在执行 QUIC 与身份认证"@,
        PeerStateView::Negotiating => "正在协商桌面版本与能力"@,
        PeerStateView::Connected => "已认证直连"@,
        PeerStateView::Disconnected => "连接已断开"@,
        PeerStateView::Failed(detail) => "连接失败："@ + detail,
    }
}

/// What is shown when a peer's connection changes.
pub fn change_label(state: &PeerLifecycle) -> (text: String)
    ensures
        text@ == change_text(state@),
{
    match state {
        PeerLifecycle::PeerPending => "等待对端候选地址".to_owned(),
        PeerLifecycle::Punching => "正在验证 UDP 打洞来源".to_owned(),
        PeerLifecycle::Authenticating => "正在执行 QUIC 与身份认证".to_owned(),
        PeerLifecycle::Negotiating => "正在协商桌面版本与能力".to_owned(),
        PeerLifecycle::Connected => "已认证直连".to_owned(),
        PeerLifecycle::Disconnected => "连接已断开".to_owned(),
        PeerLifecycle::Failed(detail) => join_text("连接失败：", detail),
    }
}

/// What is shown of a peer's connection.
pub open spec fn standing_text(state: Option<PeerStateView>) -> Seq<char> {
    match state {
        None => "尚未连接"@,
        Some(PeerStateView::PeerPending) => "等待对端上线"@,
        Some(PeerStateView::Punching) => "正在建立直连"@,
        Some(PeerStateView::Authenticating) => "正在核对身份"@,
        Some(PeerStateView::Negotiating) => "正在核对版本"@,
        Some(PeerStateView::Connected) => "已认证直连"@,
        Some(PeerStateView::Disconnected) => "连接已断开"@,
        Some(PeerStateView::Failed(detail)) => "连接失败："@ + detail,
    }
}

fn standing_label(state: Option<&PeerLifecycle>) -> (text: String)
    ensures
        text@ == standing_text(
            match state {
                None => None,
                Some(known) => Some(known@),
            },
        ),
{
    match state {
        None => "尚未连接".to_owned(),
        Some(PeerLifecycle::PeerPending) => "等待对端上线".to_owned(),
        Some(PeerLifecycle::Punching) => "正在建立直连".to_owned(),
        Some(PeerLifecycle::Authenticating) => "正在核对身份".to_owned(),
        Some(PeerLifecycle::Negotiating) => "正在核对版本".to_owned(),
        Some(PeerLifecycle::Connected) => "已认证直连".to_owned(),
        Some(PeerLifecycle::Disconnected) => "连接已断开".to_owned(),
        Some(PeerLifecycle::Failed(detail)) => join_text("连接失败：", detail),
    }
}

/// Identities with one more, in ascending order.
pub open spec fn put_in_order(nodes: Seq<NodeId>, node: NodeId) -> Seq<NodeId>
    decreases nodes.len(),
{
    if nodes.len() == 0 || nodes.last().value <= node.value {
        nodes.push(node)
    } else {
        put_in_order(nodes.drop_last(), node).push(nodes.last())
    }
}

/// The connected peers in ascending order.
pub open spec fn connected_nodes(lines: Seq<LineView>) -> Seq<NodeId>
    decreases lines.len(),
{
    if lines.len() == 0 {
        Seq::empty()
    } else if lines.last().state is Connected {
        put_in_order(connected_nodes(lines.drop_last()), lines.last().peer)
    } else {
        connected_nodes(lines.drop_last())
    }
}

/// Identities in full, with a comma between them.
pub open spec fn listed(nodes: Seq<NodeId>) -> Seq<char>
    decreases nodes.len(),
{
    if nodes.len() == 0 {
        Seq::empty()
    } else if nodes.len() == 1 {
        nodes[0].hex()
    } else {
        listed(nodes.drop_last()) + "、"@ + nodes.last().hex()
    }
}

/// Putting one more in order keeps the order.
pub proof fn connected_nodes_ascend(lines: Seq<LineView>)
    ensures
        forall|i: int, j: int|
            0 <= i < j < connected_nodes(lines).len() ==> (#[trigger] connected_nodes(
                lines,
            )[i]).value <= (#[trigger] connected_nodes(lines)[j]).value,
    decreases lines.len(),
{
    if lines.len() > 0 {
        connected_nodes_ascend(lines.drop_last());
        lemma_put_in_order(connected_nodes(lines.drop_last()), lines.last().peer);
    }
}

proof fn lemma_put_in_order(nodes: Seq<NodeId>, node: NodeId)
    requires
        forall|i: int, j: int|
            0 <= i < j < nodes.len() ==> (#[trigger] nodes[i]).value <= (#[trigger] nodes[j]).value,
    ensures
        put_in_order(nodes, node).len() == nodes.len() + 1,
        forall|i: int|
            0 <= i < put_in_order(nodes, node).len() ==> nodes.contains(
                #[trigger] put_in_order(nodes, node)[i],
            ) || put_in_order(nodes, node)[i] == node,
        forall|i: int, j: int|
            0 <= i < j < put_in_order(nodes, node).len() ==> (#[trigger] put_in_order(
                nodes,
                node,
            )[i]).value <= (#[trigger] put_in_order(nodes, node)[j]).value,
    decreases nodes.len(),
{
    let after = put_in_order(nodes, node);
    if nodes.len() == 0 || nodes.last().value <= node.value {
        assert forall|i: int| 0 <= i < after.len() implies nodes.contains(#[trigger] after[i])
            || after[i] == node by {
            if i < nodes.len() {
                assert(after[i] == nodes[i]);
            }
        }
    } else {
        let shorter = nodes.drop_last();
        lemma_put_in_order(shorter, node);
        let front = put_in_order(shorter, node);
        assert forall|i: int| 0 <= i < after.len() implies nodes.contains(#[trigger] after[i])
            || after[i] == node by {
            if i < front.len() {
                assert(after[i] == front[i]);
                if shorter.contains(front[i]) {
                    let k = choose|k: int| 0 <= k < shorter.len() && shorter[k] == front[i];
                    assert(nodes[k] == front[i]);
                }
            } else {
                assert(after[i] == nodes[nodes.len() - 1]);
            }
        }
        assert forall|i: int, j: int| 0 <= i < j < after.len() implies (#[trigger] after[i]).value
            <= (#[trigger] after[j]).value by {
            if j == after.len() - 1 {
                assert(after[i] == front[i]);
                if shorter.contains(front[i]) {
                    let k = choose|k: int| 0 <= k < shorter.len() && shorter[k] == front[i];
                    assert(nodes[k].value <= nodes[nodes.len() - 1].value);
                }
            } else {
                assert(after[i] == front[i] && after[j] == front[j]);
            }
        }
    }
}

fn insert_in_order(nodes: &mut Vec<NodeId>, node: NodeId)
    ensures
        final(nodes)@ == put_in_order(old(nodes)@, node),
{
    let ghost before = nodes@;
    let mut at: usize = nodes.len();
    assert(before.take(before.len() as int) =~= before);
    assert(before.skip(before.len() as int) =~= Seq::<NodeId>::empty());
    assert(put_in_order(before, node) =~= put_in_order(before.take(at as int), node)
        + before.skip(at as int));
    while at > 0 && nodes[at - 1].value > node.value
        invariant
            nodes@ == before,
            at <= before.len(),
            put_in_order(before, node) == put_in_order(before.take(at as int), node)
                + before.skip(at as int),
        decreases at,
    {
        assert(before.take(at as int).drop_last() =~= before.take(at - 1));
        assert(put_in_order(before.take(at - 1), node).push(before[at - 1]) + before.skip(
            at as int,
        ) =~= put_in_order(before.take(at - 1), node) + before.skip(at - 1));
        at = at - 1;
    }
    nodes.insert(at, node);
    assert(nodes@ =~= before.take(at as int).push(node) + before.skip(at as int));
}

impl PeerBoard {
    /// What is shown below the entered identity: the connected peers while it is not
    /// complete, else how its connection stands.
    pub open spec fn label_text(board: BoardView, entered: Seq<char>) -> Seq<char> {
        let text = trimmed(entered);
        if NodeId::accepts(text) {
            let peer = NodeId {
                value: crate::identity::be_value(crate::identity::hex_bytes(text)) as u128,
            };
            "对端 "@ + peer.hex() + "："@ + standing_text(board.state(peer))
        } else {
            let connected = connected_nodes(board.lines);
            if connected.len() == 0 {
                "等待输入对端 ID；接收端无需预先填写发送者 ID"@
            } else {
                "已认证直连："@ + listed(connected) + "；可被动接收"@
            }
        }
    }

    fn connected(&self) -> (nodes: Vec<NodeId>)
        ensures
            nodes@ == connected_nodes(self@.lines),
    {
        let ghost views = self@.lines;
        let mut nodes: Vec<NodeId> = Vec::new();
        let mut index: usize = 0;
        while index < self.lines.len()
            invariant
                views == line_views(self.lines@),
                index <= self.lines@.len(),
                nodes@ == connected_nodes(views.take(index as int)),
            decreases self.lines.len() - index,
        {
            let ghost next = views.take(index + 1);
            assert(next.drop_last() =~= views.take(index as int));
            assert(next.last() == self.lines@[index as int]@);
            if matches!(self.lines[index].state, PeerLifecycle::Connected) {
                insert_in_order(&mut nodes, self.lines[index].peer);
            }
            index = index + 1;
        }
        assert(views.take(index as int) =~= views);
        nodes
    }

    /// What is shown below the entered identity.
    pub fn current_peer_label(&self, entered: &str) -> (text: String)
        ensures
            text@ == PeerBoard::label_text(self@, entered@),
    {
        let entered = trim_text(entered);
        match NodeId::from_hex(&entered) {
            Ok(peer) => {
                let standing = standing_label(self.state(peer));
                let front = join_text("对端 ", &peer.to_hex());
                let middle = join_text(&front, "：");
                join_text(&middle, &standing)
            },
            Err(_) => {
                let nodes = self.connected();
                if nodes.len() == 0 {
                    return "等待输入对端 ID；接收端无需预先填写发送者 ID".to_owned();
                }
                let names = list_nodes(&nodes);
                let front = join_text("已认证直连：", &names);
                join_text(&front, "；可被动接收")
            },
        }
    }
}

fn list_nodes(nodes: &Vec<NodeId>) -> (text: String)
    ensures
        text@ == listed(nodes@),
{
    let mut text = String::new();
    let mut index: usize = 0;
    assert(nodes@.take(0) =~= Seq::<NodeId>::empty());
    assert(text@ =~= listed(nodes@.take(0)));
    while index < nodes.len()
        invariant
            index <= nodes@.len(),
            text@ == listed(nodes@.take(index as int)),
        decreases nodes.len() - index,
    {
        let ghost next = nodes@.take(index + 1);
        assert(next.drop_last() =~= nodes@.take(index as int));
        assert(next.last() == nodes@[index as int]);
        if index == 0 {
            text = nodes[index].to_hex();
        } else {
            let front = join_text(&text, "、");
            text = join_text(&front, &nodes[index].to_hex());
        }
        index = index + 1;
    }
    assert(nodes@.take(index as int) =~= nodes@);
    text
}

/// The place that follows `current` among `count` places, round and round.
pub open spec fn next_place(count: nat, current: Option<nat>, backwards: bool) -> nat {
    match current {
        None => 0,
        Some(place) => if backwards {
            (if place == 0 {
                count - 1
            } else {
                place - 1
            }) as nat
        } else if place + 1 == count {
            0
        } else {
            place + 1
        },
    }
}

/// The place that follows `current` among `count` places, round and round; the first
/// one when there is no current place.
pub fn cycle(count: usize, current: Option<usize>, backwards: bool) -> (next: usize)
    requires
        count > 0,
        current matches Some(place) ==> place < count,
    ensures
        next == next_place(
            count as nat,
            match current {
                None => None,
                Some(place) => Some(place as nat),
            },
            backwards,
        ),
        next < count,
{
    match current {
        None => 0,
        Some(place) => if backwards {
            if place == 0 {
                count - 1
            } else {
                place - 1
            }
        } else if place + 1 == count {
            0
        } else {
            place + 1
        },
    }
}

/// A step back undoes a step forward.
pub proof fn steps_can_be_undone(count: nat, place: nat)
    requires
        place < count,
    ensures
        next_place(count, Some(next_place(count, Some(place), false)), true) == place,
        next_place(count, Some(next_place(count, Some(place), true)), false) == place,
{
}

/// A line of the task list: a file, or a directory that holds files.
#[derive(Debug)]
pub enum ListRow {
    Group { id: TaskId, label: String },
    Task(TaskRow),
}

/// What is shown of a task.
#[derive(Debug)]
pub struct TaskRow {
    pub id: TaskId,
    pub peer: NodeId,
    pub name: String,
    pub direction: TaskDirection,
    pub state_label: String,
    pub confirmed: u64,
    pub total: u64,
    pub diagnostic: Option<String>,
    pub can_pause: bool,
    pub can_continue: bool,
}

/// A line of the task list, as mathematical values.
#[allow(inconsistent_fields)]
pub enum RowView {
    Group { id: Seq<char>, label: Seq<char> },
    Task {
        id: Seq<char>,
        peer: NodeId,
        name: Seq<char>,
        direction: TaskDirection,
        state_label: Seq<char>,
        confirmed: u64,
        total: u64,
        diagnostic: Option<Seq<char>>,
        can_pause: bool,
        can_continue: bool,
    },
}

impl View for TaskRow {
    type V = RowView;

    open spec fn view(&self) -> RowView {
        RowView::Task {
            id: self.id@,
            peer: self.peer,
            name: self.name@,
            direction: self.direction,
            state_label: self.state_label@,
            confirmed: self.confirmed,
            total: self.total,
            diagnostic: text_view(self.diagnostic),
            can_pause: self.can_pause,
            can_continue: self.can_continue,
        }
    }
}

impl View for ListRow {
    type V = RowView;

    open spec fn view(&self) -> RowView {
        match self {
            ListRow::Group { id, label } => RowView::Group { id: id@, label: label@ },
            ListRow::Task(row) => row@,
        }
    }
}

/// The views of some rows.
pub open spec fn row_views(rows: Seq<ListRow>) -> Seq<RowView> {
    rows.map_values(|row: ListRow| row@)
}

impl TaskRow {
    /// The first line: the name and the direction.
    pub open spec fn title_text(self) -> Seq<char> {
        self.name@ + " · "@ + (if self.direction == TaskDirection::Send {
            "发送"@
        } else {
            "接收"@
        })
    }

    /// The first line.
    pub fn title(&self) -> (text: String)
        ensures
            text@ == self.title_text(),
    {
        let front = join_text(&self.name, " · ");
        match self.direction {
            TaskDirection::Send => join_text(&front, "发送"),
            TaskDirection::Receive => join_text(&front, "接收"),
        }
    }

    /// The second line: state, peer and bytes.
    pub open spec fn detail_text(self) -> Seq<char> {
        self.state_label@ + " · 对端 "@ + self.peer.hex() + " · "@ + decimal(self.confirmed as nat)
            + " / "@ + decimal(self.total as nat) + " 字节"@
    }

    /// The second line.
    pub fn detail(&self) -> (text: String)
        ensures
            text@ == self.detail_text(),
    {
        let text = join_text(&self.state_label, " · 对端 ");
        let text = join_text(&text, &self.peer.to_hex());
        let text = join_text(&text, " · ");
        let text = join_text(&text, &decimal_text(self.confirmed));
        let text = join_text(&text, " / ");
        let text = join_text(&text, &decimal_text(self.total));
        join_text(&text, " 字节")
    }

    /// The third line: what went wrong, or what the progress means.
    pub fn diagnosis(&self) -> (text: &str)
        ensures
            text@ == (match self.diagnostic {
                Some(diagnostic) => diagnostic@,
                None => "已校验进度；异常退出后可能回退到已持久化进度"@,
            }),
    {
        match &self.diagnostic {
            Some(diagnostic) => diagnostic.as_str(),
            None => "已校验进度；异常退出后可能回退到已持久化进度",
        }
    }
}

/// The line of a directory.
pub open spec fn group_text(expanded: bool, label: Seq<char>) -> Seq<char> {
    (if expanded {
        "▾ "@
    } else {
        "▸ "@
    }) + label
}

/// Where the tasks stand among the rows.
pub open spec fn task_places(rows: Seq<RowView>) -> Seq<nat>
    decreases rows.len(),
{
    if rows.len() == 0 {
        Seq::empty()
    } else if rows.last() is Task {
        task_places(rows.drop_last()).push((rows.len() - 1) as nat)
    } else {
        task_places(rows.drop_last())
    }
}

/// The directories among the rows.
pub open spec fn group_ids(rows: Seq<RowView>) -> Set<Seq<char>>
    decreases rows.len(),
{
    if rows.len() == 0 {
        Set::empty()
    } else {
        match rows.last() {
            RowView::Group { id, .. } => group_ids(rows.drop_last()).insert(id),
            RowView::Task { .. } => group_ids(rows.drop_last()),
        }
    }
}

/// Whether a row is the task with this identifier.
pub open spec fn names_task(id: Seq<char>) -> spec_fn(RowView) -> bool {
    |row: RowView| row matches RowView::Task { id: own, .. } && own == id
}

/// The identifiers as a set.
pub open spec fn id_set(ids: Seq<TaskId>) -> Set<Seq<char>> {
    id_views(ids).to_set()
}

/// The model of a task list.
#[verifier::ext_equal]
pub ghost struct TaskListView {
    pub rows: Seq<RowView>,
    pub expanded: Set<Seq<char>>,
    pub selected: Option<Seq<char>>,
}

impl TaskListView {
    /// Which of the tasks is selected, counted among the tasks.
    pub open spec fn selected_place(self) -> Option<nat> {
        let places = task_places(self.rows);
        let at = first_index(
            places,
            |place: nat| self.selected is Some && names_task(self.selected.unwrap())(
                self.rows[place as int],
            ),
        );
        if at < places.len() {
            Some(at as nat)
        } else {
            None
        }
    }

    /// The row of the task that is selected next.
    pub open spec fn next_row(self, backwards: bool) -> nat {
        let places = task_places(self.rows);
        places[next_place(places.len(), self.selected_place(), backwards) as int]
    }

    /// Where a task stands among the rows.
    pub open spec fn row_of(self, id: Seq<char>) -> int {
        first_index(self.rows, names_task(id))
    }
}

/// The tasks on display, the directories that are open and the selected task.
#[derive(Debug)]
pub struct TaskList {
    rows: Vec<ListRow>,
    expanded: Vec<TaskId>,
    selected: Option<TaskId>,
}

impl View for TaskList {
    type V = TaskListView;

    closed spec fn view(&self) -> TaskListView {
        TaskListView {
            rows: row_views(self.rows@),
            expanded: id_set(self.expanded@),
            selected: match self.selected {
                None => None,
                Some(id) => Some(id@),
            },
        }
    }
}

proof fn lemma_task_places(rows: Seq<RowView>)
    ensures
        forall|k: int|
            0 <= k < task_places(rows).len() ==> (#[trigger] task_places(rows)[k]) < rows.len()
                && rows[task_places(rows)[k] as int] is Task,
    decreases rows.len(),
{
    if rows.len() > 0 {
        lemma_task_places(rows.drop_last());
    }
}

fn has_id(ids: &Vec<TaskId>, id: &TaskId) -> (found: bool)
    ensures
        found == id_set(ids@).contains(id@),
{
    let ghost views = id_views(ids@);
    let mut index: usize = 0;
    while index < ids.len()
        invariant
            views == id_views(ids@),
            index <= ids@.len(),
            forall|i: int| 0 <= i < index ==> (#[trigger] views[i]) != id@,
        decreases ids.len() - index,
    {
        if ids[index].same(id) {
            assert(views[index as int] == id@);
            return true;
        }
        index = index + 1;
    }
    false
}

impl TaskList {
    /// An empty list.
    pub fn new() -> (list: TaskList)
        ensures
            list@.rows.len() == 0,
            list@.expanded == Set::<Seq<char>>::empty(),
            list@.selected is None,
    {
        let list = TaskList { rows: Vec::new(), expanded: Vec::new(), selected: None };
        assert(list@.expanded =~= Set::<Seq<char>>::empty());
        list
    }

    /// The rows.
    pub fn rows(&self) -> (rows: &Vec<ListRow>)
        ensures
            row_views(rows@) == self@.rows,
    {
        &self.rows
    }

    /// Shows these rows.
    pub fn set_rows(&mut self, rows: Vec<ListRow>)
        ensures
            final(self)@ == (TaskListView { rows: row_views(rows@), ..old(self)@ }),
    {
        self.rows = rows;
    }

    /// Whether a directory is open.
    pub fn is_expanded(&self, id: &TaskId) -> (expanded: bool)
        ensures
            expanded == self@.expanded.contains(id@),
    {
        has_id(&self.expanded, id)
    }

    /// The line of a directory: whether it is open, and its label.
    pub fn group_line(&self, id: &TaskId, label: &str) -> (text: String)
        ensures
            text@ == group_text(self@.expanded.contains(id@), label@),
    {
        join_text(
            if self.is_expanded(id) {
                "▾ "
            } else {
                "▸ "
            },
            label,
        )
    }

    /// Whether a task is the selected one.
    pub fn is_selected(&self, id: &TaskId) -> (selected: bool)
        ensures
            selected == (self@.selected == Some(id@)),
    {
        match &self.selected {
            Some(own) => own.same(id),
            None => false,
        }
    }

    /// What is shown in place of an empty list.
    pub fn empty_hint(&self) -> (hint: Option<&'static str>)
        ensures
            match hint {
                Some(text) => self@.rows.len() == 0 && text@
                    == "暂无任务。选择文件或目录发送；收到的新任务会自动显示。"@,
                None => self@.rows.len() > 0,
            },
    {
        if self.rows.len() == 0 {
            Some("暂无任务。选择文件或目录发送；收到的新任务会自动显示。")
        } else {
            None
        }
    }

    /// The selected task.
    pub fn selected(&self) -> (selected: Option<TaskId>)
        ensures
            match self@.selected {
                None => selected is None,
                Some(id) => selected matches Some(found) && found@ == id,
            },
    {
        match &self.selected {
            None => None,
            Some(id) => Some(id.clone()),
        }
    }

    /// Selects a task.
    pub fn select(&mut self, id: TaskId)
        ensures
            final(self)@ == (TaskListView { selected: Some(id@), ..old(self)@ }),
    {
        self.selected = Some(id);
    }

    fn is_selected_row(&self, at: usize) -> (selected: bool)
        requires
            at < self.rows@.len(),
        ensures
            selected == (self@.selected is Some && names_task(self@.selected.unwrap())(
                self@.rows[at as int],
            )),
    {
        match (&self.selected, &self.rows[at]) {
            (Some(id), ListRow::Task(row)) => row.id.same(id),
            _ => false,
        }
    }

    fn places(&self) -> (places: Vec<usize>)
        ensures
            places@.map_values(|place: usize| place as nat) == task_places(self@.rows),
            forall|k: int| 0 <= k < places@.len() ==> (#[trigger] places@[k]) < self.rows@.len(),
            forall|k: int|
                0 <= k < places@.len() ==> self.rows@[(#[trigger] places@[k]) as int] is Task,
    {
        let ghost views = self@.rows;
        let ghost plain = |place: usize| place as nat;
        let mut places: Vec<usize> = Vec::new();
        let mut index: usize = 0;
        assert(places@.map_values(plain) =~= task_places(views.take(0)));
        while index < self.rows.len()
            invariant
                views == row_views(self.rows@),
                plain == (|place: usize| place as nat),
                index <= self.rows@.len(),
                places@.map_values(plain) == task_places(views.take(index as int)),
                forall|k: int| 0 <= k < places@.len() ==> (#[trigger] places@[k]) < index,
                forall|k: int|
                    0 <= k < places@.len() ==> self.rows@[(#[trigger] places@[k]) as int] is Task,
            decreases self.rows.len() - index,
        {
            let ghost next = views.take(index + 1);
            let ghost before = places@;
            assert(next.drop_last() =~= views.take(index as int));
            assert(next.last() == self.rows@[index as int]@);
            match &self.rows[index] {
                ListRow::Task(_) => {
                    places.push(index);
                    assert(places@.map_values(plain) =~= before.map_values(plain).push(
                        index as nat,
                    ));
                },
                ListRow::Group { .. } => {},
            }
            index = index + 1;
        }
        assert(views.take(index as int) =~= views);
        places
    }

    /// Selects the next task and returns its row; nothing when there is no task.
    pub fn select_next(&mut self, backwards: bool) -> (row: Option<usize>)
        ensures
            if task_places(old(self)@.rows).len() == 0 {
                row is None && final(self)@ == old(self)@
            } else {
                &&& row matches Some(at) && at == old(self)@.next_row(backwards)
                &&& final(self)@.rows == old(self)@.rows
                &&& final(self)@.expanded == old(self)@.expanded
                &&& old(self)@.rows[old(self)@.next_row(backwards) as int] matches RowView::Task {
                    id,
                    ..
                } && final(self)@.selected == Some(id)
            },
    {
        let ghost before = self@;
        let places = self.places();
        let ghost plain = |place: usize| place as nat;
        if places.len() == 0 {
            return None;
        }
        let ghost wanted = |place: nat|
            before.selected is Some && names_task(before.selected.unwrap())(
                before.rows[place as int],
            );
        let mut at: usize = 0;
        while at < places.len() && !self.is_selected_row(places[at])
            invariant
                before == self@,
                plain == (|place: usize| place as nat),
                wanted == (|place: nat|
                    before.selected is Some && names_task(before.selected.unwrap())(
                        before.rows[place as int],
                    )),
                at <= places@.len(),
                places@.map_values(plain) == task_places(before.rows),
                forall|k: int| 0 <= k < places@.len() ==> (#[trigger] places@[k]) < self.rows@.len(),
                forall|k: int|
                    0 <= k < at ==> !wanted(#[trigger] task_places(before.rows)[k]),
            decreases places.len() - at,
        {
            assert(task_places(before.rows)[at as int] == places@[at as int] as nat);
            at = at + 1;
        }
        proof {
            if at < places@.len() {
                assert(task_places(before.rows)[at as int] == places@[at as int] as nat);
            }
            lemma_is_first_index(task_places(before.rows), wanted, at as int);
        }
        let current = if at < places.len() {
            Some(at)
        } else {
            None
        };
        let next: usize = cycle(places.len(), current, backwards);
        let row: usize = places[next];
        proof {
            assert(task_places(before.rows)[next as int] == row as nat);
            assert(before.rows[row as int] == self.rows@[row as int]@);
        }
        match &self.rows[row] {
            ListRow::Task(task) => {
                let id = task.id.clone();
                self.selected = Some(id);
            },
            ListRow::Group { .. } => {},
        }
        Some(row)
    }

    /// Opens or closes a directory.
    pub fn toggle_group(&mut self, id: TaskId)
        ensures
            final(self)@ == (TaskListView {
                expanded: if old(self)@.expanded.contains(id@) {
                    old(self)@.expanded.remove(id@)
                } else {
                    old(self)@.expanded.insert(id@)
                },
                ..old(self)@
            }),
    {
        let ghost before = self@;
        if has_id(&self.expanded, &id) {
            let mut kept: Vec<TaskId> = Vec::new();
            let mut index: usize = 0;
            assert(id_set(kept@) =~= id_views(self.expanded@).take(0).to_set().remove(id@));
            while index < self.expanded.len()
                invariant
                    index <= self.expanded@.len(),
                    id_set(kept@) == id_views(self.expanded@).take(index as int).to_set().remove(
                        id@,
                    ),
                decreases self.expanded.len() - index,
            {
                let ghost all = id_views(self.expanded@);
                let ghost kept_before = kept@;
                proof {
                    lemma_set_of_prefix(all, index as int);
                }
                if !self.expanded[index].same(&id) {
                    kept.push(self.expanded[index].clone());
                    proof {
                        assert(id_views(kept@) =~= id_views(kept_before).push(all[index as int]));
                        lemma_set_of_push(id_views(kept_before), all[index as int]);
                    }
                }
                assert(id_set(kept@) =~= all.take(index + 1).to_set().remove(id@));
                index = index + 1;
            }
            assert(id_views(self.expanded@).take(index as int) =~= id_views(self.expanded@));
            self.expanded = kept;
            assert(self@.expanded =~= before.expanded.remove(id@));
        } else {
            let ghost all = id_views(self.expanded@);
            let ghost added = id@;
            self.expanded.push(id);
            proof {
                assert(id_views(self.expanded@) =~= all.push(added));
                lemma_set_of_push(all, added);
            }
            assert(self@.expanded =~= before.expanded.insert(added));
        }
    }

    /// Closes all directories when every one of them is open, and opens them otherwise.
    pub fn expand_groups(&mut self)
        ensures
            final(self)@ == (TaskListView {
                expanded: if group_ids(old(self)@.rows).subset_of(old(self)@.expanded) {
                    Set::empty()
                } else {
                    old(self)@.expanded.union(group_ids(old(self)@.rows))
                },
                ..old(self)@
            }),
    {
        let ghost before = self@;
        let mut complete = true;
        let mut index: usize = 0;
        while index < self.rows.len()
            invariant
                before == self@,
                before.rows == row_views(self.rows@),
                index <= self.rows@.len(),
                complete == group_ids(before.rows.take(index as int)).subset_of(before.expanded),
            decreases self.rows.len() - index,
        {
            let ghost next = before.rows.take(index + 1);
            assert(next.drop_last() =~= before.rows.take(index as int));
            assert(next.last() == self.rows@[index as int]@);
            match &self.rows[index] {
                ListRow::Group { id, .. } => {
                    if !has_id(&self.expanded, id) {
                        complete = false;
                        assert(group_ids(next).contains(id@));
                    }
                },
                ListRow::Task(_) => {},
            }
            assert(complete ==> group_ids(next).subset_of(before.expanded));
            assert(!complete ==> !group_ids(next).subset_of(before.expanded)) by {
                if !complete && group_ids(next).subset_of(before.expanded) {
                    assert(group_ids(before.rows.take(index as int)).subset_of(before.expanded));
                }
            }
            index = index + 1;
        }
        assert(before.rows.take(index as int) =~= before.rows);
        if complete {
            self.expanded = Vec::new();
            assert(self@.expanded =~= Set::<Seq<char>>::empty());
            return;
        }
        let mut expanded: Vec<TaskId> = Vec::new();
        let mut copied: usize = 0;
        while copied < self.expanded.len()
            invariant
                copied <= self.expanded@.len(),
                id_views(expanded@) == id_views(self.expanded@).take(copied as int),
            decreases self.expanded.len() - copied,
        {
            let ghost so_far = expanded@;
            expanded.push(self.expanded[copied].clone());
            proof {
                let all = id_views(self.expanded@);
                assert(id_views(expanded@) =~= id_views(so_far).push(all[copied as int]));
                assert(all.take(copied as int).push(all[copied as int]) =~= all.take(copied + 1));
            }
            copied = copied + 1;
        }
        assert(id_views(expanded@) =~= id_views(self.expanded@));
        let mut at: usize = 0;
        assert(id_set(expanded@) =~= before.expanded.union(group_ids(before.rows.take(0))));
        while at < self.rows.len()
            invariant
                before.rows == row_views(self.rows@),
                at <= self.rows@.len(),
                id_set(expanded@) == before.expanded.union(group_ids(before.rows.take(at as int))),
            decreases self.rows.len() - at,
        {
            let ghost next = before.rows.take(at + 1);
            let ghost so_far = expanded@;
            assert(next.drop_last() =~= before.rows.take(at as int));
            assert(next.last() == self.rows@[at as int]@);
            match &self.rows[at] {
                ListRow::Group { id, .. } => {
                    expanded.push(id.clone());
                    proof {
                        assert(id_views(expanded@) =~= id_views(so_far).push(id@));
                        lemma_set_of_push(id_views(so_far), id@);
                    }
                },
                ListRow::Task(_) => {},
            }
            assert(id_set(expanded@) =~= before.expanded.union(group_ids(next)));
            at = at + 1;
        }
        assert(before.rows.take(at as int) =~= before.rows);
        self.expanded = expanded;
    }

    /// The row of a task.
    pub fn find(&self, id: &TaskId) -> (row: Option<&TaskRow>)
        ensures
            if self@.row_of(id@) < self@.rows.len() {
                row matches Some(found) && self@.rows[self@.row_of(id@)] == found@ && found.id@
                    == id@
            } else {
                row is None
            },
    {
        let ghost views = self@.rows;
        let mut index: usize = 0;
        while index < self.rows.len()
            invariant
                views == row_views(self.rows@),
                index <= self.rows@.len(),
                forall|i: int| 0 <= i < index ==> !names_task(id@)(#[trigger] views[i]),
            decreases self.rows.len() - index,
        {
            assert(views[index as int] == self.rows@[index as int]@);
            match &self.rows[index] {
                ListRow::Task(row) => {
                    if row.id.same(id) {
                        proof {
                            lemma_is_first_index(views, names_task(id@), index as int);
                        }
                        return Some(row);
                    }
                },
                ListRow::Group { .. } => {},
            }
            index = index + 1;
        }
        proof {
            lemma_is_first_index(views, names_task(id@), index as int);
        }
        None
    }
}

proof fn lemma_set_of_push(items: Seq<Seq<char>>, item: Seq<char>)
    ensures
        items.push(item).to_set() == items.to_set().insert(item),
{
    assert forall|x: Seq<char>|
        #[trigger] items.push(item).to_set().contains(x) == items.to_set().insert(item).contains(
            x,
        ) by {
        if items.push(item).contains(x) {
            let k = choose|k: int| 0 <= k < items.push(item).len() && items.push(item)[k] == x;
            if k < items.len() {
                assert(items[k] == x);
            }
        }
        if items.contains(x) {
            let k = choose|k: int| 0 <= k < items.len() && items[k] == x;
            assert(items.push(item)[k] == x);
        }
        if x == item {
            assert(items.push(item)[items.len() as int] == x);
        }
    }
    assert(items.push(item).to_set() =~= items.to_set().insert(item));
}

proof fn lemma_set_of_prefix(items: Seq<Seq<char>>, count: int)
    requires
        0 <= count < items.len(),
    ensures
        items.take(count + 1).to_set() == items.take(count).to_set().insert(items[count]),
{
    assert(items.take(count + 1) =~= items.take(count).push(items[count]));
    lemma_set_of_push(items.take(count), items[count]);
}

/// What is shown of the tests, peer by peer.
#[derive(Debug)]
pub struct SpeedLine {
    pub peer: NodeId,
    pub snapshot: SpeedSnapshot,
}

/// The views of some lines.
pub open spec fn speed_views(lines: Seq<SpeedLine>) -> Seq<(NodeId, SnapshotView)> {
    lines.map_values(|line: SpeedLine| (line.peer, line.snapshot@))
}

/// Whether any of these tests runs.
pub open spec fn any_running(lines: Seq<(NodeId, SnapshotView)>) -> bool {
    exists|i: int| 0 <= i < lines.len() && (#[trigger] lines[i]).1.status == SpeedStatus::Running
}

/// The line of the lowest identity, among those that run or among all; none is -1.
pub open spec fn lowest(lines: Seq<(NodeId, SnapshotView)>, running: bool) -> int
    decreases lines.len(),
{
    if lines.len() == 0 {
        -1
    } else {
        let before = lowest(lines.drop_last(), running);
        if running && lines.last().1.status != SpeedStatus::Running {
            before
        } else if before < 0 || lines.last().0.value < lines[before].0.value {
            lines.len() - 1
        } else {
            before
        }
    }
}

/// The model of a speed board.
#[verifier::ext_equal]
pub ghost struct SpeedBoardView {
    pub lines: Seq<(NodeId, SnapshotView)>,
    pub peer: Option<NodeId>,
    pub until: Option<u64>,
}

impl SpeedBoardView {
    /// The line on display: a running test first, then that of the peer that was asked
    /// last, then any.
    pub open spec fn shown(self) -> int {
        let asked = first_index(
            self.lines,
            |line: (NodeId, SnapshotView)| self.peer == Some(line.0),
        );
        if lowest(self.lines, true) >= 0 {
            lowest(self.lines, true)
        } else if asked < self.lines.len() {
            asked
        } else {
            lowest(self.lines, false)
        }
    }

    /// Whether a test runs or was asked for.
    pub open spec fn busy(self) -> bool {
        self.until is Some || any_running(self.lines)
    }
}

/// The speed tests on display, and the request that waits for an answer.
#[derive(Debug)]
pub struct SpeedBoard {
    lines: Vec<SpeedLine>,
    peer: Option<NodeId>,
    until: Option<u64>,
}

impl View for SpeedBoard {
    type V = SpeedBoardView;

    closed spec fn view(&self) -> SpeedBoardView {
        SpeedBoardView { lines: speed_views(self.lines@), peer: self.peer, until: self.until }
    }
}

/// How long a request for a test is shown as waiting, in milliseconds.
pub const SPEED_REQUEST_MS: u64 = 6000;

proof fn lemma_lowest(lines: Seq<(NodeId, SnapshotView)>, running: bool)
    ensures
        -1 <= lowest(lines, running) < lines.len(),
        running && lowest(lines, running) >= 0 ==> lines[lowest(lines, running)].1.status
            == SpeedStatus::Running,
        lowest(lines, true) >= 0 <==> any_running(lines),
        lowest(lines, false) >= 0 <==> lines.len() > 0,
    decreases lines.len(),
{
    if lines.len() > 0 {
        let before = lines.drop_last();
        lemma_lowest(before, running);
        lemma_lowest(before, true);
        lemma_lowest(before, false);
        if any_running(before) {
            let k = choose|k: int|
                0 <= k < before.len() && (#[trigger] before[k]).1.status == SpeedStatus::Running;
            assert(lines[k] == before[k]);
        }
        if any_running(lines) && lines.last().1.status != SpeedStatus::Running {
            let k = choose|k: int|
                0 <= k < lines.len() && (#[trigger] lines[k]).1.status == SpeedStatus::Running;
            assert(before[k] == lines[k]);
        }
        if lines.last().1.status == SpeedStatus::Running {
            assert(lines[lines.len() - 1].1.status == SpeedStatus::Running);
        }
    }
}

/// A running test is always the one on display.
pub proof fn running_tests_are_shown(board: SpeedBoardView)
    ensures
        any_running(board.lines) ==> 0 <= board.shown() < board.lines.len()
            && board.lines[board.shown()].1.status == SpeedStatus::Running,
{
    lemma_lowest(board.lines, true);
}

impl SpeedBoard {
    /// A board without tests.
    pub fn new() -> (board: SpeedBoard)
        ensures
            board@.lines.len() == 0,
            board@.peer is None,
            board@.until is None,
    {
        SpeedBoard { lines: Vec::new(), peer: None, until: None }
    }

    /// Whether any test runs.
    pub fn is_running(&self) -> (running: bool)
        ensures
            running == any_running(self@.lines),
    {
        let ghost views = self@.lines;
        let mut index: usize = 0;
        while index < self.lines.len()
            invariant
                views == speed_views(self.lines@),
                index <= self.lines@.len(),
                forall|i: int|
                    0 <= i < index ==> (#[trigger] views[i]).1.status != SpeedStatus::Running,
            decreases self.lines.len() - index,
        {
            assert(views[index as int].1 == self.lines@[index as int].snapshot@);
            if self.lines[index].snapshot.status == SpeedStatus::Running {
                return true;
            }
            index = index + 1;
        }
        false
    }

    /// Whether a request waits for an answer.
    pub fn is_waiting(&self) -> (waiting: bool)
        ensures
            waiting == self@.until is Some,
    {
        self.until.is_some()
    }

    fn lowest_line(&self, running: bool) -> (at: Option<usize>)
        ensures
            match at {
                None => lowest(self@.lines, running) < 0,
                Some(found) => found == lowest(self@.lines, running) && found < self.lines@.len(),
            },
    {
        let ghost views = self@.lines;
        let mut at: Option<usize> = None;
        let mut index: usize = 0;
        while index < self.lines.len()
            invariant
                views == speed_views(self.lines@),
                index <= self.lines@.len(),
                match at {
                    None => lowest(views.take(index as int), running) < 0,
                    Some(found) => found < index && found == lowest(
                        views.take(index as int),
                        running,
                    ),
                },
            decreases self.lines.len() - index,
        {
            let ghost next = views.take(index + 1);
            assert(next.drop_last() =~= views.take(index as int));
            assert(next.last() == (
                self.lines@[index as int].peer,
                self.lines@[index as int].snapshot@,
            ));
            if !running || self.lines[index].snapshot.status == SpeedStatus::Running {
                match at {
                    None => {
                        at = Some(index);
                    },
                    Some(found) => {
                        assert(next[found as int].0 == self.lines@[found as int].peer);
                        if self.lines[index].peer.value < self.lines[found].peer.value {
                            at = Some(index);
                        }
                    },
                }
            }
            index = index + 1;
        }
        assert(views.take(index as int) =~= views);
        at
    }

    /// The test on display.
    pub fn displayed(&self) -> (line: Option<&SpeedLine>)
        ensures
            match line {
                None => self@.lines.len() == 0,
                Some(found) => 0 <= self@.shown() < self@.lines.len()
                    && self@.lines[self@.shown()] == (found.peer, found.snapshot@),
            },
    {
        let ghost views = self@.lines;
        proof {
            lemma_lowest(views, true);
            lemma_lowest(views, false);
        }
        if let Some(at) = self.lowest_line(true) {
            return Some(&self.lines[at]);
        }
        let ghost wanted = |line: (NodeId, SnapshotView)| self.peer == Some(line.0);
        let mut index: usize = 0;
        while index < self.lines.len()
            invariant
                views == speed_views(self.lines@),
                self@.lines == views,
                self@.peer == self.peer,
                wanted == (|line: (NodeId, SnapshotView)| self.peer == Some(line.0)),
                index <= self.lines@.len(),
                lowest(views, true) < 0,
                forall|i: int| 0 <= i < index ==> !wanted(#[trigger] views[i]),
            decreases self.lines.len() - index,
        {
            assert(views[index as int] == (
                self.lines@[index as int].peer,
                self.lines@[index as int].snapshot@,
            ));
            if self.peer == Some(self.lines[index].peer) {
                proof {
                    lemma_is_first_index(views, wanted, index as int);
                }
                return Some(&self.lines[index]);
            }
            index = index + 1;
        }
        proof {
            lemma_is_first_index(views, wanted, index as int);
        }
        match self.lowest_line(false) {
            None => None,
            Some(at) => Some(&self.lines[at]),
        }
    }

    /// Notes that a test was asked for.
    pub fn asked(&mut self, peer: NodeId, now_ms: u64)
        ensures
            final(self)@ == (SpeedBoardView {
                peer: Some(peer),
                until: Some(
                    if now_ms + SPEED_REQUEST_MS > u64::MAX {
                        u64::MAX
                    } else {
                        (now_ms + SPEED_REQUEST_MS) as u64
                    },
                ),
                ..old(self)@
            }),
    {
        self.peer = Some(peer);
        self.until = Some(now_ms.saturating_add(SPEED_REQUEST_MS));
    }

    /// Notes that a request was answered; one to another peer is left waiting.
    pub fn answered(&mut self, peer: NodeId)
        ensures
            final(self)@ == (if old(self)@.peer == Some(peer) {
                SpeedBoardView { until: None, ..old(self)@ }
            } else {
                old(self)@
            }),
    {
        if self.peer == Some(peer) {
            self.until = None;
        }
    }

    /// Shows these tests. A request stops waiting when its time is over or a test runs.
    pub fn update(&mut self, lines: Vec<SpeedLine>, now_ms: u64)
        ensures
            final(self)@ == (SpeedBoardView {
                lines: speed_views(lines@),
                until: match old(self)@.until {
                    Some(until) if now_ms < until && !any_running(speed_views(lines@)) => Some(
                        until,
                    ),
                    _ => None,
                },
                ..old(self)@
            }),
    {
        self.lines = lines;
        let running = self.is_running();
        if let Some(until) = self.until {
            if now_ms >= until || running {
                self.until = None;
            }
        }
    }
}

proof fn lemma_put_holds(nodes: Seq<NodeId>, node: NodeId, wanted: NodeId)
    ensures
        put_in_order(nodes, node).contains(wanted) <==> nodes.contains(wanted) || wanted == node,
        put_in_order(nodes, node).len() == nodes.len() + 1,
    decreases nodes.len(),
{
    let after = put_in_order(nodes, node);
    if nodes.len() == 0 || nodes.last().value <= node.value {
        assert(after[nodes.len() as int] == node);
        if nodes.contains(wanted) {
            let k = choose|k: int| 0 <= k < nodes.len() && nodes[k] == wanted;
            assert(after[k] == wanted);
        }
    } else {
        let front = nodes.drop_last();
        lemma_put_holds(front, node, wanted);
        let inner = put_in_order(front, node);
        if inner.contains(wanted) {
            let k = choose|k: int| 0 <= k < inner.len() && inner[k] == wanted;
            assert(after[k] == wanted);
        }
        if nodes.contains(wanted) {
            let k = choose|k: int| 0 <= k < nodes.len() && nodes[k] == wanted;
            if k < front.len() {
                assert(front[k] == wanted);
            } else {
                assert(after[inner.len() as int] == wanted);
            }
        }
        if after.contains(wanted) {
            let k = choose|k: int| 0 <= k < after.len() && after[k] == wanted;
            if k < inner.len() {
                assert(inner[k] == wanted);
            } else {
                assert(nodes[nodes.len() - 1] == wanted);
            }
        }
        if front.contains(wanted) {
            let k = choose|k: int| 0 <= k < front.len() && front[k] == wanted;
            assert(nodes[k] == wanted);
        }
    }
}

/// Exactly the connected peers are listed as connected.
pub proof fn connected_peers_are_listed(lines: Seq<LineView>, peer: NodeId)
    ensures
        connected_nodes(lines).contains(peer) <==> exists|k: int|
            0 <= k < lines.len() && (#[trigger] lines[k]).peer == peer && lines[k].state
                == PeerStateView::Connected,
    decreases lines.len(),
{
    if lines.len() > 0 {
        let front = lines.drop_last();
        connected_peers_are_listed(front, peer);
        if lines.last().state is Connected {
            lemma_put_holds(connected_nodes(front), lines.last().peer, peer);
            if lines.last().peer == peer {
                assert(lines[lines.len() - 1].peer == peer);
            }
        }
        if exists|k: int|
            0 <= k < front.len() && (#[trigger] front[k]).peer == peer && front[k].state
                == PeerStateView::Connected {
            let k = choose|k: int|
                0 <= k < front.len() && (#[trigger] front[k]).peer == peer && front[k].state
                    == PeerStateView::Connected;
            assert(lines[k] == front[k]);
        }
        if exists|k: int|
            0 <= k < lines.len() && (#[trigger] lines[k]).peer == peer && lines[k].state
                == PeerStateView::Connected {
            let k = choose|k: int|
                0 <= k < lines.len() && (#[trigger] lines[k]).peer == peer && lines[k].state
                    == PeerStateView::Connected;
            if k < front.len() {
                assert(front[k] == lines[k]);
            }
        }
    }
}

/// A connection that stands or is over ends the waiting for it, and only that waiting; any
/// other report ends none.
pub proof fn reports_end_the_waiting(board: BoardView, line: LineView, other: NodeId)
    ensures
        line.state is Connected || line.state is Disconnected || line.state is Failed ==> held_for(
            board.reported(line).held,
            line.peer,
        ).len() == 0,
        other != line.peer ==> held_for(board.reported(line).held, other) == held_for(
            board.held,
            other,
        ),
        line.state is PeerPending || line.state is Punching || line.state is Authenticating
            || line.state is Negotiating ==> board.reported(line).held == board.held,
{
    lemma_held_parts(board.held, line.peer, other);
}

proof fn lemma_held_parts(held: Seq<(NodeId, Seq<char>)>, peer: NodeId, other: NodeId)
    ensures
        held_for(held_for_others(held, peer), peer).len() == 0,
        other != peer ==> held_for(held_for_others(held, peer), other) == held_for(held, other),
    decreases held.len(),
{
    if held.len() > 0 {
        let front = held.drop_last();
        lemma_held_parts(front, peer, other);
        let kept = held_for_others(held, peer);
        if held.last().0 != peer {
            assert(kept.drop_last() =~= held_for_others(front, peer));
        }
    }
}

/// A task that waits for its peer is found there, once.
pub proof fn held_tasks_wait(board: BoardView, peer: NodeId, id: Seq<char>)
    ensures
        board.holding(peer, id).held.contains((peer, id)),
        held_for(board.holding(peer, id).held, peer).contains(id),
        board.holding(peer, id).holding(peer, id) == board.holding(peer, id),
        board.holding(peer, id).lines == board.lines,
{
    let after = board.holding(peer, id).held;
    if board.held.contains((peer, id)) {
        lemma_held_found(board.held, peer, id);
    } else {
        assert(after[board.held.len() as int] == (peer, id));
        lemma_held_found(after, peer, id);
    }
}

proof fn lemma_held_found(held: Seq<(NodeId, Seq<char>)>, peer: NodeId, id: Seq<char>)
    requires
        held.contains((peer, id)),
    ensures
        held_for(held, peer).contains(id),
    decreases held.len(),
{
    let at = choose|at: int| 0 <= at < held.len() && held[at] == (peer, id);
    let front = held.drop_last();
    let found = held_for(held, peer);
    if at < front.len() {
        assert(front[at] == (peer, id));
        lemma_held_found(front, peer, id);
        let inner = held_for(front, peer);
        let k = choose|k: int| 0 <= k < inner.len() && inner[k] == id;
        assert(found[k] == id);
    } else {
        assert(found[found.len() - 1] == id);
    }
}

/// The tasks on display are counted in their order, each once, and only they.
pub proof fn tasks_stand_in_order(rows: Seq<RowView>, row: nat)
    ensures
        task_places(rows).contains(row) <==> row < rows.len() && rows[row as int] is Task,
        forall|j: int, k: int|
            0 <= j < k < task_places(rows).len() ==> (#[trigger] task_places(rows)[j]) < (
            #[trigger] task_places(rows)[k]),
    decreases rows.len(),
{
    if rows.len() > 0 {
        let front = rows.drop_last();
        tasks_stand_in_order(front, row);
        lemma_task_places(front);
        let before = task_places(front);
        let after = task_places(rows);
        if rows.last() is Task {
            if before.contains(row) {
                let k = choose|k: int| 0 <= k < before.len() && before[k] == row;
                assert(after[k] == row);
            }
            assert(after[before.len() as int] == (rows.len() - 1) as nat);
            if after.contains(row) {
                let k = choose|k: int| 0 <= k < after.len() && after[k] == row;
                if k < before.len() {
                    assert(before[k] == row);
                }
            }
        }
    }
}

/// The directories on display are those of the rows.
pub proof fn groups_are_those_of_the_rows(rows: Seq<RowView>, id: Seq<char>)
    ensures
        group_ids(rows).contains(id) <==> exists|k: int|
            0 <= k < rows.len() && (#[trigger] rows[k] matches RowView::Group { id: own, .. } && own
                == id),
    decreases rows.len(),
{
    if rows.len() > 0 {
        let front = rows.drop_last();
        groups_are_those_of_the_rows(front, id);
        if exists|k: int|
            0 <= k < front.len() && (#[trigger] front[k] matches RowView::Group { id: own, .. }
                && own == id) {
            let k = choose|k: int|
                0 <= k < front.len() && (#[trigger] front[k] matches RowView::Group { id: own, .. }
                    && own == id);
            assert(rows[k] == front[k]);
        }
        if exists|k: int|
            0 <= k < rows.len() && (#[trigger] rows[k] matches RowView::Group { id: own, .. } && own
                == id) {
            let k = choose|k: int|
                0 <= k < rows.len() && (#[trigger] rows[k] matches RowView::Group { id: own, .. }
                    && own == id);
            if k < front.len() {
                assert(front[k] == rows[k]);
            }
        }
        assert(rows[rows.len() - 1] == rows.last());
    }
}

/// Stepping goes round: to the next place, to the one before, and to the first where none
/// is current.
pub proof fn steps_go_round(count: nat, place: nat)
    requires
        place < count,
    ensures
        next_place(count, None, false) == 0,
        next_place(count, None, true) == 0,
        next_place(count, Some(place), false) == (place + 1) % count,
        next_place(count, Some(place), true) == (place + count - 1) as nat % count,
{
    if place + 1 == count {
        assert((place + 1) % count == 0) by (nonlinear_arith)
            requires
                place + 1 == count,
                count > 0,
        ;
    } else {
        assert((place + 1) % count == place + 1) by (nonlinear_arith)
            requires
                place + 1 < count,
        ;
    }
    let back = (place + count - 1) as nat;
    if place == 0 {
        assert(back % count == count - 1) by (nonlinear_arith)
            requires
                back == count - 1,
                count > 0,
        ;
    } else {
        assert(back % count == place - 1) by (nonlinear_arith)
            requires
                back == count + place - 1,
                0 < place < count,
        ;
    }
}

/// Reports are taken in the order of their generations: an older one is recognized, a later
/// or equal one is not, and of an unknown peer none is old.
pub proof fn older_reports_are_recognized(board: BoardView, line: LineView, generation: u64)
    requires
        board.valid(),
    ensures
        board.reported(line).stale(line.peer, generation) <==> generation < line.generation,
        (forall|k: int| 0 <= k < board.lines.len() ==> (#[trigger] board.lines[k]).peer != line.peer)
            ==> !board.stale(line.peer, generation),
{
    lemma_first_index(board.lines, about(line.peer));
    let after = board.lines_after(line);
    if board.knows(line.peer) {
        assert(about(line.peer)(board.lines[board.place(line.peer)]));
        assert forall|k: int| 0 <= k < board.place(line.peer) implies !about(line.peer)(
            #[trigger] after[k],
        ) by {
            assert(!about(line.peer)(board.lines[k]));
        }
        lemma_is_first_index(after, about(line.peer), board.place(line.peer));
    } else {
        lemma_oldest(board.lines);
        assert forall|k: int| 0 <= k < after.len() - 1 implies !about(line.peer)(
            #[trigger] after[k],
        ) by {
            if board.lines.len() >= MAX_PEERS {
                let from = if k < oldest(board.lines) {
                    k
                } else {
                    k + 1
                };
                assert(!about(line.peer)(board.lines[from]));
            } else {
                assert(!about(line.peer)(board.lines[k]));
            }
        }
        lemma_is_first_index(after, about(line.peer), after.len() - 1);
    }
}

/// The line that is shown has the lowest identity of those that it is chosen from.
pub proof fn lowest_lines_are_lowest(
    lines: Seq<(NodeId, SnapshotView)>,
    running: bool,
    other: int,
)
    requires
        0 <= other < lines.len(),
        running ==> lines[other].1.status == SpeedStatus::Running,
    ensures
        0 <= lowest(lines, running) < lines.len(),
        lines[lowest(lines, running)].0.value <= lines[other].0.value,
        running ==> lines[lowest(lines, running)].1.status == SpeedStatus::Running,
    decreases lines.len(),
{
    let front = lines.drop_last();
    lemma_lowest_in_range(front, running);
    if other < front.len() {
        lowest_lines_are_lowest(front, running, other);
    }
}

proof fn lemma_lowest_in_range(lines: Seq<(NodeId, SnapshotView)>, running: bool)
    ensures
        -1 <= lowest(lines, running) < lines.len(),
        lowest(lines, running) >= 0 && running ==> lines[lowest(lines, running)].1.status
            == SpeedStatus::Running,
    decreases lines.len(),
{
    if lines.len() > 0 {
        lemma_lowest_in_range(lines.drop_last(), running);
    }
}

/// Some test is shown wherever there is one: a running one, else the one that was asked for
/// last, else any.
pub proof fn some_test_is_shown(board: SpeedBoardView, at: int)
    requires
        0 <= at < board.lines.len(),
    ensures
        0 <= board.shown() < board.lines.len(),
        !any_running(board.lines) && board.peer == Some(board.lines[at].0)
            ==> board.lines[board.shown()].0 == board.lines[at].0,
        board.lines[at].1.status == SpeedStatus::Running ==> board.lines[board.shown()].1.status
            == SpeedStatus::Running,
{
    lemma_lowest_in_range(board.lines, true);
    lowest_lines_are_lowest(board.lines, false, at);
    if board.lines[at].1.status == SpeedStatus::Running {
        lowest_lines_are_lowest(board.lines, true, at);
    }
    let wanted = |line: (NodeId, SnapshotView)| board.peer == Some(line.0);
    lemma_first_index(board.lines, wanted);
    if board.peer == Some(board.lines[at].0) {
        assert(wanted(board.lines[at]));
    }
    if !any_running(board.lines) && lowest(board.lines, true) >= 0 {
        assert(board.lines[lowest(board.lines, true)].1.status == SpeedStatus::Running);
    }
}

/// A test runs or was asked for: then no other is asked for.
pub proof fn boards_are_busy_with_tests(board: SpeedBoardView)
    ensures
        board.busy() <==> board.until is Some || exists|k: int|
            0 <= k < board.lines.len() && (#[trigger] board.lines[k]).1.status
                == SpeedStatus::Running,
{
}

} // verus!
