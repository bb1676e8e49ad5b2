//! The window's state: what each input, answer and event does to it, and what is
//! asked of the session because of it.

use vstd::prelude::*;

use crate::boards::{
    any_running, change_label, change_text, cycle, held_for, next_place, row_views, speed_views,
    task_places, BoardView, LineView, ListRow, PeerBoard, RowView, SpeedBoard, SpeedBoardView,
    SpeedLine, TaskList, TaskListView,
};
use crate::config::{HostForm, SettingsDraft, SpeedtestDirection};
use crate::identity::{be_value, hex_bytes, NodeId};
use crate::network_state::{short_name, LifecycleView, NetworkLifecycle, PeerStateView};
use crate::session::{SessionEvent, SessionEventView};
use crate::speed::{SnapshotView, SpeedSnapshot, SpeedStatus};
use crate::speed_control::SpeedDirection;
use crate::startup::{server_spec, signal_server_spec, DesktopStartup};
use crate::task_model::{LocalPath, PathView, TaskId};
use crate::task_record::path_view;
use crate::task_recovery::id_views;
use crate::text::{decimal, decimal_text, join_text, same_text, trim_text, trimmed};

verus! {

/// A draft of settings, as mathematical values.
#[verifier::ext_equal]
pub ghost struct DraftView {
    pub host: Seq<char>,
    pub port: Seq<char>,
    pub directory: Option<PathView>,
    pub concurrency: u8,
    pub seconds: u16,
    pub direction: SpeedtestDirection,
}

impl View for SettingsDraft {
    type V = DraftView;

    open spec fn view(&self) -> DraftView {
        DraftView {
            host: self.signal_host@,
            port: self.signal_port@,
            directory: path_view(self.receive_directory),
            concurrency: self.send_concurrency,
            seconds: self.speedtest_seconds,
            direction: self.speedtest_direction,
        }
    }
}

fn copy_path(path: &Option<LocalPath>) -> (copy: Option<LocalPath>)
    ensures
        path_view(copy) == path_view(*path),
{
    match path {
        None => None,
        Some(found) => Some(found.duplicate()),
    }
}

impl SettingsDraft {
    /// A draft with the same entries.
    pub fn duplicate(&self) -> (copy: SettingsDraft)
        ensures
            copy@ == self@,
    {
        SettingsDraft {
            signal_host: self.signal_host.clone(),
            signal_port: self.signal_port.clone(),
            receive_directory: copy_path(&self.receive_directory),
            send_concurrency: self.send_concurrency,
            speedtest_seconds: self.speedtest_seconds,
            speedtest_direction: self.speedtest_direction,
        }
    }
}

/// An input field.
#[derive(Clone, Copy, Debug, PartialEq, Eq, Structural)]
pub enum Field {
    Host,
    Port,
    Peer,
}

/// The fields on display, in the order in which they are visited.
pub open spec fn fields(show_settings: bool) -> Seq<Field> {
    if show_settings {
        seq![Field::Host, Field::Port, Field::Peer]
    } else {
        seq![Field::Peer]
    }
}

/// Where a field stands among those on display.
pub open spec fn field_place(show_settings: bool, focused: Option<Field>) -> Option<nat> {
    match focused {
        None => None,
        Some(field) => if !show_settings {
            if field == Field::Peer {
                Some(0)
            } else {
                None
            }
        } else {
            match field {
                Field::Host => Some(0),
                Field::Port => Some(1),
                Field::Peer => Some(2),
            }
        },
    }
}

/// What is asked of the session for a task.
#[derive(Debug, PartialEq, Eq)]
pub enum TaskCommand {
    /// Connect the peer; the task goes on once it is connected.
    Connect { peer: NodeId, id: TaskId },
    Resume { peer: NodeId, id: TaskId },
    Pause { id: TaskId },
}

/// What is asked of the session for a task, as mathematical values.
pub enum CommandView {
    Connect { peer: NodeId, id: Seq<char> },
    Resume { peer: NodeId, id: Seq<char> },
    Pause { id: Seq<char> },
}

impl View for TaskCommand {
    type V = CommandView;

    open spec fn view(&self) -> CommandView {
        match self {
            TaskCommand::Connect { peer, id } => CommandView::Connect { peer: *peer, id: id@ },
            TaskCommand::Resume { peer, id } => CommandView::Resume { peer: *peer, id: id@ },
            TaskCommand::Pause { id } => CommandView::Pause { id: id@ },
        }
    }
}

/// A test to ask for.
#[derive(Clone, Copy, Debug, PartialEq, Eq, Structural)]
pub struct SpeedRequest {
    pub peer: NodeId,
    pub direction: SpeedDirection,
    pub seconds: u16,
}

/// Settings that are being saved.
#[derive(Debug)]
pub struct SavePlan {
    pub draft: SettingsDraft,
    pub server: String,
    pub signal_changed: bool,
}

/// What follows saved settings.
#[derive(Clone, Copy, Debug, PartialEq, Eq, Structural)]
pub enum SaveStep {
    /// The session goes on as it is.
    Keep,
    /// The running session gets a new server.
    Reconfigure,
    /// A new session is started.
    Restart,
}

/// What a file dialogue gave.
#[derive(Debug)]
pub enum Picked {
    /// So many paths, and whether all of them are text.
    Paths { count: usize, exact: bool },
    Cancelled,
    Failed { detail: String },
    Dropped,
}

/// What a dialogue for one directory gave.
#[derive(Debug)]
pub enum PickedDirectory {
    Chosen(LocalPath),
    Empty,
    Cancelled,
    Failed { detail: String },
    Dropped,
}

/// The state of the send queue.
#[derive(Clone, Copy, Debug, PartialEq, Eq, Structural)]
pub struct QueueFacts {
    pub pending: usize,
    pub active_files: usize,
    pub limit: usize,
    pub converging: bool,
}

/// What is shown of the send queue.
pub open spec fn queue_text(facts: QueueFacts) -> Seq<char> {
    "排队 "@ + decimal(facts.pending as nat) + " · 活动文件 "@ + decimal(
        facts.active_files as nat,
    ) + "/"@ + decimal(facts.limit as nat) + (if facts.converging {
        " · 正在收敛到新并发数"@
    } else {
        ""@
    })
}

/// What is shown of the send queue.
pub fn queue_status(facts: QueueFacts) -> (text: String)
    ensures
        text@ == queue_text(facts),
{
    let text = join_text("排队 ", &decimal_text(facts.pending as u64));
    let text = join_text(&text, " · 活动文件 ");
    let text = join_text(&text, &decimal_text(facts.active_files as u64));
    let text = join_text(&text, "/");
    let text = join_text(&text, &decimal_text(facts.limit as u64));
    join_text(
        &text,
        if facts.converging {
            " · 正在收敛到新并发数"
        } else {
            ""
        },
    )
}

/// The model of the window.
#[verifier::ext_equal]
pub ghost struct ShellView {
    pub identity: Option<NodeId>,
    pub identity_status: Seq<char>,
    pub has_store: bool,
    pub has_session: bool,
    pub settings: DraftView,
    pub config_note: Seq<char>,
    pub can_save: bool,
    pub saving: bool,
    pub network_status: Seq<char>,
    pub peer_status: Seq<char>,
    pub status: Seq<char>,
    pub queue_status: Seq<char>,
    pub epoch: u64,
    pub peers: BoardView,
    pub tasks: TaskListView,
    pub speeds: SpeedBoardView,
    pub show_settings: bool,
    pub applied_root: Option<PathView>,
}

/// The peer that an entered text names.
pub open spec fn entered_peer(entered: Seq<char>) -> Option<NodeId> {
    let text = trimmed(entered);
    if NodeId::accepts(text) {
        Some(NodeId { value: be_value(hex_bytes(text)) as u128 })
    } else {
        None
    }
}

/// The protocol's word for a direction.
pub open spec fn wire_direction(direction: SpeedtestDirection) -> SpeedDirection {
    match direction {
        SpeedtestDirection::Upload => SpeedDirection::Upload,
        SpeedtestDirection::Download => SpeedDirection::Download,
    }
}

/// The duration that follows in the round of durations.
pub open spec fn next_seconds(seconds: u16) -> u16 {
    if seconds == 30 {
        60
    } else if seconds >= 600 {
        30
    } else {
        (seconds + 60) as u16
    }
}

impl ShellView {
    /// The peers are kept in order.
    pub open spec fn valid(self) -> bool {
        self.peers.valid()
    }

    /// With another status.
    pub open spec fn says(self, status: Seq<char>) -> ShellView {
        ShellView { status, ..self }
    }

    /// Why nothing can be sent to the entered peer, if so.
    pub open spec fn peer_refusal(self, entered: Seq<char>) -> Option<Seq<char>> {
        match entered_peer(entered) {
            None => Some("请先输入有效的完整对端 ID 并连接"@),
            Some(peer) => if !self.peers.connected(peer) {
                Some("请先连接并等待对端身份认证完成"@)
            } else if !self.has_store {
                Some("任务存储不可用"@)
            } else {
                None
            },
        }
    }

    /// Why no test can be asked for, if so.
    pub open spec fn speed_refusal(self, entered: Seq<char>) -> Option<Seq<char>> {
        if self.speeds.busy() {
            Some("测速正在进行，请先取消或等待完成"@)
        } else if self.peer_refusal(entered) is Some {
            self.peer_refusal(entered)
        } else if !self.has_session {
            Some("网络会话已关闭"@)
        } else {
            None
        }
    }

    /// Why no file can be picked, if so.
    pub open spec fn pick_refusal(self, entered: Seq<char>) -> Option<Seq<char>> {
        if any_running(self.speeds.lines) {
            Some("测速正在进行，请先取消或等待完成后添加文件"@)
        } else {
            self.peer_refusal(entered)
        }
    }

    /// Why the entered peer cannot be connected, if so.
    pub open spec fn connect_refusal(self, entered: Seq<char>) -> Option<Seq<char>> {
        match entered_peer(entered) {
            None => Some("对端 Node ID 无效："@ + "节点 ID 必须是 32 位十六进制字符"@),
            Some(peer) => if self.identity == Some(peer) {
                Some("不能连接本机 Node ID"@)
            } else if !self.has_session {
                Some("请先保存有效的信令配置；网络会话尚未启动"@)
            } else {
                None
            },
        }
    }

    /// Why a task cannot be paused or resumed, if so.
    pub open spec fn task_refusal(self, id: Seq<char>, resume: bool) -> Option<Seq<char>> {
        let at = self.tasks.row_of(id);
        if at >= self.tasks.rows.len() {
            Some("请展开目录并选择要操作的任务"@)
        } else {
            match self.tasks.rows[at] {
                RowView::Group { .. } => Some("请展开目录并选择要操作的任务"@),
                RowView::Task { can_pause, can_continue, .. } => if (resume && !can_continue) || (
                !resume && !can_pause) {
                    Some("该任务当前不能执行此操作"@)
                } else if !self.has_session {
                    Some("请先保存信令配置，启动网络会话"@)
                } else {
                    None
                },
            }
        }
    }

    /// What is asked of the session for a task that may be paused or resumed.
    pub open spec fn task_command(self, id: Seq<char>, resume: bool) -> CommandView {
        let peer = self.tasks.rows[self.tasks.row_of(id)]->peer;
        if !resume {
            CommandView::Pause { id }
        } else if self.peers.connected(peer) {
            CommandView::Resume { peer, id }
        } else {
            CommandView::Connect { peer, id }
        }
    }

    /// After a new session was started: nothing is known of any peer.
    pub open spec fn restarted(self) -> ShellView {
        ShellView {
            epoch: if self.epoch == u64::MAX {
                0
            } else {
                (self.epoch + 1) as u64
            },
            peers: BoardView { lines: Seq::empty(), held: Seq::empty() },
            has_session: true,
            network_status: "正在准备 UDP 并连接信令"@,
            status: "正在准备 UDP 并连接信令"@,
            ..self
        }
    }

    /// After an event of the session.
    pub open spec fn told(self, event: SessionEventView) -> ShellView {
        match event {
            SessionEventView::Lifecycle(lifecycle) => {
                let label = lifecycle.text();
                ShellView {
                    network_status: if shows_in_header(lifecycle) {
                        label
                    } else {
                        self.network_status
                    },
                    status: label,
                    ..self
                }
            },
            SessionEventView::PeerState { peer, generation, state } => if self.peers.stale(
                peer,
                generation,
            ) {
                self
            } else {
                let message = "对端 "@ + short_name(peer) + "："@ + change_text(state);
                ShellView {
                    peers: self.peers.reported(LineView { peer, generation, state }),
                    peer_status: message,
                    status: message,
                    ..self
                }
            },
            SessionEventView::SignalIdentityRegistered(node) => {
                let label = "信令在线；已登记本机身份 "@ + short_name(node);
                ShellView { network_status: label, status: label, ..self }
            },
            SessionEventView::Diagnostic(detail) => if detail == "信令心跳已确认"@ {
                self
            } else {
                self.says(detail)
            },
        }
    }

    /// The tasks that go on because of an event.
    pub open spec fn resumed_by(self, event: SessionEventView) -> Seq<Seq<char>> {
        match event {
            SessionEventView::PeerState { peer, generation, state } => if state is Connected
                && !self.peers.stale(peer, generation) {
                held_for(self.peers.held, peer)
            } else {
                Seq::empty()
            },
            _ => Seq::empty(),
        }
    }

    /// The settings with the entered server.
    pub open spec fn edited(self, host: Seq<char>, port: Seq<char>) -> DraftView {
        DraftView { host, port, ..self.settings }
    }
}

/// Whether a state of the session is shown in the header.
pub open spec fn shows_in_header(lifecycle: LifecycleView) -> bool {
    ||| lifecycle is Unconfigured
    ||| lifecycle is ConnectingSignal
    ||| lifecycle is SignalOnline
    ||| lifecycle is ReconnectingSignal
    ||| lifecycle is Failed
}

/// The window.
#[derive(Debug)]
pub struct DesktopShell {
    identity: Option<NodeId>,
    identity_status: String,
    has_store: bool,
    has_session: bool,
    settings: SettingsDraft,
    config_note: String,
    can_save: bool,
    saving: bool,
    network_status: String,
    peer_status: String,
    status: String,
    queue_status: String,
    epoch: u64,
    peers: PeerBoard,
    tasks: TaskList,
    speeds: SpeedBoard,
    show_settings: bool,
    applied_root: Option<LocalPath>,
}

impl View for DesktopShell {
    type V = ShellView;

    closed spec fn view(&self) -> ShellView {
        ShellView {
            identity: self.identity,
            identity_status: self.identity_status@,
            has_store: self.has_store,
            has_session: self.has_session,
            settings: self.settings@,
            config_note: self.config_note@,
            can_save: self.can_save,
            saving: self.saving,
            network_status: self.network_status@,
            peer_status: self.peer_status@,
            status: self.status@,
            queue_status: self.queue_status@,
            epoch: self.epoch,
            peers: self.peers@,
            tasks: self.tasks@,
            speeds: self.speeds@,
            show_settings: self.show_settings,
            applied_root: path_view(self.applied_root),
        }
    }
}

impl DesktopShell {
    /// The window after a start.
    pub fn new(startup: DesktopStartup) -> (shell: DesktopShell)
        ensures
            shell@.valid(),
            shell@ == (ShellView {
                identity: startup.identity,
                identity_status: startup.identity_status@,
                has_store: startup.has_store,
                has_session: false,
                settings: startup.settings@,
                config_note: startup.config_note@,
                can_save: startup.can_save_settings,
                saving: false,
                network_status: startup.first_network_status(),
                peer_status: "尚未连接对端"@,
                status: startup.first_status(),
                queue_status: "正在载入任务…"@,
                epoch: 0,
                peers: BoardView { lines: Seq::empty(), held: Seq::empty() },
                tasks: TaskListView { rows: Seq::empty(), expanded: Set::empty(), selected: None },
                speeds: SpeedBoardView { lines: Seq::empty(), peer: None, until: None },
                show_settings: !startup.has_saved_network_config,
                applied_root: path_view(startup.settings.receive_directory),
            }),
    {
        let network_status = startup.initial_network_status();
        let status = startup.initial_status();
        let applied_root = copy_path(&startup.settings.receive_directory);
        let shell = DesktopShell {
            identity: startup.identity,
            identity_status: startup.identity_status,
            has_store: startup.has_store,
            has_session: false,
            settings: startup.settings,
            config_note: startup.config_note,
            can_save: startup.can_save_settings,
            saving: false,
            network_status,
            peer_status: "尚未连接对端".to_owned(),
            status,
            queue_status: "正在载入任务…".to_owned(),
            epoch: 0,
            peers: PeerBoard::new(),
            tasks: TaskList::new(),
            speeds: SpeedBoard::new(),
            show_settings: !startup.has_saved_network_config,
            applied_root,
        };
        proof {
            assert(shell@.peers.lines =~= Seq::<LineView>::empty());
            assert(shell@.peers.held =~= Seq::<(NodeId, Seq<char>)>::empty());
            assert(shell@.tasks.rows =~= Seq::<RowView>::empty());
            assert(shell@.speeds.lines =~= Seq::<(NodeId, SnapshotView)>::empty());
        }
        shell
    }

    /// The status line.
    pub fn status(&self) -> (text: &str)
        ensures
            text@ == self@.status,
    {
        self.status.as_str()
    }

    /// What the header says of the network.
    pub fn network_status(&self) -> (text: &str)
        ensures
            text@ == self@.network_status,
    {
        self.network_status.as_str()
    }

    /// What was last said of a peer.
    pub fn peer_status(&self) -> (text: &str)
        ensures
            text@ == self@.peer_status,
    {
        self.peer_status.as_str()
    }

    /// What is said of the queue.
    pub fn queue_status(&self) -> (text: &str)
        ensures
            text@ == self@.queue_status,
    {
        self.queue_status.as_str()
    }

    /// What is said of the settings.
    pub fn config_note(&self) -> (text: &str)
        ensures
            text@ == self@.config_note,
    {
        self.config_note.as_str()
    }

    /// What is said of the identity.
    pub fn identity_status(&self) -> (text: &str)
        ensures
            text@ == self@.identity_status,
    {
        self.identity_status.as_str()
    }

    /// The settings as they are edited.
    pub fn settings(&self) -> (settings: &SettingsDraft)
        ensures
            settings@ == self@.settings,
    {
        &self.settings
    }

    /// Which session events are about.
    pub fn epoch(&self) -> (epoch: u64)
        ensures
            epoch == self@.epoch,
    {
        self.epoch
    }

    /// The tasks on display.
    pub fn tasks(&self) -> (tasks: &TaskList)
        ensures
            tasks@ == self@.tasks,
    {
        &self.tasks
    }

    /// The speed tests on display.
    pub fn speeds(&self) -> (speeds: &SpeedBoard)
        ensures
            speeds@ == self@.speeds,
    {
        &self.speeds
    }

    /// Whether the settings are on display.
    pub fn shows_settings(&self) -> (shown: bool)
        ensures
            shown == self@.show_settings,
    {
        self.show_settings
    }

    /// What is shown below the entered identity.
    pub fn current_peer_label(&self, entered: &str) -> (text: String)
        ensures
            text@ == PeerBoard::label_text(self@.peers, entered@),
    {
        self.peers.current_peer_label(entered)
    }

    /// Shows a status.
    pub fn set_status(&mut self, status: &str)
        ensures
            final(self)@ == old(self)@.says(status@),
    {
        self.status = status.to_owned();
    }

    /// Shows or hides the settings, and names the field to focus.
    pub fn toggle_settings(&mut self) -> (field: Field)
        ensures
            final(self)@ == (ShellView {
                show_settings: !old(self)@.show_settings,
                ..old(self)@
            }),
            field == fields(final(self)@.show_settings)[0],
    {
        self.show_settings = !self.show_settings;
        if self.show_settings {
            Field::Host
        } else {
            Field::Peer
        }
    }

    /// The field to focus next.
    pub fn focus_field(&self, focused: Option<Field>, backwards: bool) -> (field: Field)
        ensures
            ({
                let all = fields(self@.show_settings);
                field == all[next_place(
                    all.len(),
                    field_place(self@.show_settings, focused),
                    backwards,
                ) as int]
            }),
    {
        if !self.show_settings {
            return Field::Peer;
        }
        let current: Option<usize> = match focused {
            None => None,
            Some(Field::Host) => Some(0),
            Some(Field::Port) => Some(1),
            Some(Field::Peer) => Some(2),
        };
        let next: usize = cycle(3, current, backwards);
        if next == 0 {
            Field::Host
        } else if next == 1 {
            Field::Port
        } else {
            Field::Peer
        }
    }

    /// Selects the next task and returns its row.
    pub fn select_task(&mut self, backwards: bool) -> (row: Option<usize>)
        ensures
            if task_places(old(self)@.tasks.rows).len() == 0 {
                row is None && final(self)@ == old(self)@.says(
                    "暂无可选文件任务；Ctrl/⌘+E 展开目录"@,
                )
            } else {
                &&& row matches Some(at) && at == old(self)@.tasks.next_row(backwards)
                &&& old(self)@.tasks.rows[old(self)@.tasks.next_row(
                    backwards,
                ) as int] matches RowView::Task { id, .. } && final(self)@ == (ShellView {
                    tasks: TaskListView { selected: Some(id), ..old(self)@.tasks },
                    ..old(self)@
                })
            },
    {
        let row = self.tasks.select_next(backwards);
        if row.is_none() {
            self.status = "暂无可选文件任务；Ctrl/⌘+E 展开目录".to_owned();
        }
        row
    }

    /// Selects a task.
    pub fn click_task(&mut self, id: TaskId)
        ensures
            final(self)@ == (ShellView {
                tasks: TaskListView { selected: Some(id@), ..old(self)@.tasks },
                ..old(self)@
            }),
    {
        self.tasks.select(id);
    }

    /// Opens or closes a directory.
    pub fn toggle_group(&mut self, id: TaskId)
        ensures
            final(self)@ == (ShellView {
                tasks: TaskListView {
                    expanded: if old(self)@.tasks.expanded.contains(id@) {
                        old(self)@.tasks.expanded.remove(id@)
                    } else {
                        old(self)@.tasks.expanded.insert(id@)
                    },
                    ..old(self)@.tasks
                },
                ..old(self)@
            }),
    {
        self.tasks.toggle_group(id);
    }

    /// Closes all directories when every one of them is open, and opens them otherwise.
    pub fn expand_groups(&mut self)
        ensures
            final(self)@ == (ShellView {
                tasks: TaskListView {
                    expanded: if crate::boards::group_ids(old(self)@.tasks.rows).subset_of(
                        old(self)@.tasks.expanded,
                    ) {
                        Set::empty()
                    } else {
                        old(self)@.tasks.expanded.union(
                            crate::boards::group_ids(old(self)@.tasks.rows),
                        )
                    },
                    ..old(self)@.tasks
                },
                ..old(self)@
            }),
    {
        self.tasks.expand_groups();
    }

    /// Notes that the stored tasks cannot be shown at all.
    pub fn tasks_unavailable(&mut self)
        ensures
            final(self)@ == (ShellView { queue_status: "任务存储不可用"@, ..old(self)@ }),
    {
        self.queue_status = "任务存储不可用".to_owned();
    }

    /// Shows a fresh picture of queue, tasks and tests.
    pub fn observe_tasks(
        &mut self,
        facts: QueueFacts,
        rows: Vec<ListRow>,
        speeds: Vec<SpeedLine>,
        now_ms: u64,
    )
        ensures
            final(self)@ == (ShellView {
                queue_status: queue_text(facts),
                tasks: TaskListView { rows: row_views(rows@), ..old(self)@.tasks },
                speeds: SpeedBoardView {
                    lines: speed_views(speeds@),
                    until: match old(self)@.speeds.until {
                        Some(until) if now_ms < until && !any_running(
                            speed_views(speeds@),
                        ) => Some(until),
                        _ => None,
                    },
                    ..old(self)@.speeds
                },
                ..old(self)@
            }),
    {
        self.queue_status = queue_status(facts);
        self.tasks.set_rows(rows);
        self.speeds.update(speeds, now_ms);
    }

    /// Notes that the tasks could not be read this time.
    pub fn observe_failed(&mut self, detail: &str)
        ensures
            final(self)@ == (ShellView {
                queue_status: "无法读取任务："@ + detail@,
                ..old(self)@
            }),
    {
        self.queue_status = join_text("无法读取任务：", detail);
    }

    fn named_peer(entered: &str) -> (peer: Option<NodeId>)
        ensures
            peer == entered_peer(entered@),
    {
        let entered = trim_text(entered);
        match NodeId::from_hex(&entered) {
            Ok(peer) => Some(peer),
            Err(_) => None,
        }
    }

    /// The entered peer, once it is connected and tasks can be stored.
    pub fn authenticated_peer(&mut self, entered: &str) -> (peer: Option<NodeId>)
        ensures
            match old(self)@.peer_refusal(entered@) {
                Some(message) => peer is None && final(self)@ == old(self)@.says(message),
                None => peer is Some && peer == entered_peer(entered@) && final(self)@
                    == old(self)@,
            },
    {
        match DesktopShell::named_peer(entered) {
            None => {
                self.set_status("请先输入有效的完整对端 ID 并连接");
                None
            },
            Some(peer) => {
                if !self.peers.is_connected(peer) {
                    self.set_status("请先连接并等待对端身份认证完成");
                    return None;
                }
                if !self.has_store {
                    self.set_status("任务存储不可用");
                    return None;
                }
                Some(peer)
            },
        }
    }

    /// The test to ask for, unless one runs, is asked for or cannot be asked for.
    pub fn start_speed_ui(&mut self, entered: &str) -> (request: Option<SpeedRequest>)
        ensures
            match old(self)@.speed_refusal(entered@) {
                Some(message) => request is None && final(self)@ == old(self)@.says(message),
                None => {
                    &&& final(self)@ == old(self)@
                    &&& request matches Some(asked) && Some(asked.peer) == entered_peer(entered@)
                        && asked.direction == wire_direction(old(self)@.settings.direction)
                        && asked.seconds == old(self)@.settings.seconds
                },
            },
    {
        if self.speeds.is_waiting() || self.speeds.is_running() {
            self.set_status("测速正在进行，请先取消或等待完成");
            return None;
        }
        match self.authenticated_peer(entered) {
            None => None,
            Some(peer) => {
                if !self.has_session {
                    self.set_status("网络会话已关闭");
                    return None;
                }
                let direction = match self.settings.speedtest_direction {
                    SpeedtestDirection::Upload => SpeedDirection::Upload,
                    SpeedtestDirection::Download => SpeedDirection::Download,
                };
                Some(SpeedRequest { peer, direction, seconds: self.settings.speedtest_seconds })
            },
        }
    }

    /// Notes whether the session took the request for a test.
    pub fn speed_requested(
        &mut self,
        peer: NodeId,
        result: std::result::Result<(), String>,
        now_ms: u64,
    )
        ensures
            match result {
                Ok(_) => final(self)@ == (ShellView {
                    speeds: SpeedBoardView {
                        peer: Some(peer),
                        until: Some(
                            if now_ms + crate::boards::SPEED_REQUEST_MS > u64::MAX {
                                u64::MAX
                            } else {
                                (now_ms + crate::boards::SPEED_REQUEST_MS) as u64
                            },
                        ),
                        ..old(self)@.speeds
                    },
                    status: "正在请求测速；有文件活动时需先暂停，不会自动暂停任务"@,
                    ..old(self)@
                }),
                Err(detail) => final(self)@ == old(self)@.says(detail@),
            },
    {
        match result {
            Ok(_) => {
                self.speeds.asked(peer, now_ms);
                self.set_status("正在请求测速；有文件活动时需先暂停，不会自动暂停任务");
            },
            Err(detail) => {
                self.set_status(&detail);
            },
        }
    }

    /// The test to cancel: the one on display, if it runs.
    pub fn cancel_speed_ui(&mut self) -> (test: Option<(NodeId, TaskId)>)
        ensures
            ({
                let shown = old(self)@.speeds.lines[old(self)@.speeds.shown()];
                if !any_running(old(self)@.speeds.lines) {
                    test is None && final(self)@ == old(self)@.says("当前没有已获得授权的测速"@)
                } else if !old(self)@.has_session {
                    test is None && final(self)@ == old(self)@.says("网络会话已关闭"@)
                } else {
                    &&& final(self)@ == old(self)@
                    &&& test matches Some((peer, id)) && peer == shown.0 && id@ == shown.1.test_id
                }
            }),
    {
        proof {
            crate::boards::running_tests_are_shown(self@.speeds);
        }
        let test = match self.speeds.displayed() {
            None => None,
            Some(line) => {
                if line.snapshot.status == SpeedStatus::Running {
                    Some((line.peer, line.snapshot.test_id.clone()))
                } else {
                    None
                }
            },
        };
        match test {
            None => {
                self.set_status("当前没有已获得授权的测速");
                None
            },
            Some(found) => {
                if !self.has_session {
                    self.set_status("网络会话已关闭");
                    return None;
                }
                Some(found)
            },
        }
    }

    /// Notes whether the session took the cancellation.
    pub fn speed_cancelled(&mut self, result: std::result::Result<(), String>)
        ensures
            final(self)@ == old(self)@.says(
                match result {
                    Ok(_) => "正在取消测速，等待对端确认与清理"@,
                    Err(detail) => detail@,
                },
            ),
    {
        match result {
            Ok(_) => self.set_status("正在取消测速，等待对端确认与清理"),
            Err(detail) => self.set_status(&detail),
        }
    }

    /// What to ask of the session to pause or resume a task.
    pub fn task_action(&mut self, id: &TaskId, resume: bool) -> (command: Option<TaskCommand>)
        ensures
            match old(self)@.task_refusal(id@, resume) {
                Some(message) => command is None && final(self)@ == old(self)@.says(message),
                None => {
                    &&& final(self)@ == old(self)@
                    &&& command matches Some(asked) && asked@ == old(self)@.task_command(
                        id@,
                        resume,
                    )
                },
            },
    {
        proof {
            crate::lists::lemma_first_index(
                self@.tasks.rows,
                crate::boards::names_task(id@),
            );
        }
        let (peer, can_pause, can_continue) = match self.tasks.find(id) {
            None => {
                self.set_status("请展开目录并选择要操作的任务");
                return None;
            },
            Some(row) => (row.peer, row.can_pause, row.can_continue),
        };
        if (resume && !can_continue) || (!resume && !can_pause) {
            self.set_status("该任务当前不能执行此操作");
            return None;
        }
        if !self.has_session {
            self.set_status("请先保存信令配置，启动网络会话");
            return None;
        }
        if !resume {
            Some(TaskCommand::Pause { id: id.clone() })
        } else if self.peers.is_connected(peer) {
            Some(TaskCommand::Resume { peer, id: id.clone() })
        } else {
            Some(TaskCommand::Connect { peer, id: id.clone() })
        }
    }

    /// As `task_action`, for the selected task.
    pub fn selected_action(&mut self, resume: bool) -> (command: Option<TaskCommand>)
        ensures
            match old(self)@.tasks.selected {
                None => command is None && final(self)@ == old(self)@.says(
                    "先点击任务行选择任务"@,
                ),
                Some(id) => match old(self)@.task_refusal(id, resume) {
                    Some(message) => command is None && final(self)@ == old(self)@.says(message),
                    None => {
                        &&& final(self)@ == old(self)@
                        &&& command matches Some(asked) && asked@ == old(self)@.task_command(
                            id,
                            resume,
                        )
                    },
                },
            },
    {
        match self.tasks.selected() {
            None => {
                self.set_status("先点击任务行选择任务");
                None
            },
            Some(id) => self.task_action(&id, resume),
        }
    }

    /// Notes whether the session took a command. A task whose peer is being connected
    /// waits for it.
    pub fn command_done(
        &mut self,
        command: &TaskCommand,
        result: std::result::Result<(), String>,
    )
        requires
            old(self)@.valid(),
        ensures
            final(self)@.valid(),
            match result {
                Err(detail) => final(self)@ == old(self)@.says(detail@),
                Ok(_) => match command@ {
                    CommandView::Connect { peer, id } => final(self)@ == (ShellView {
                        peers: old(self)@.peers.holding(peer, id),
                        ..old(self)@
                    }).says("已请求继续；任务使用原先绑定的对端"@),
                    CommandView::Resume { .. } => final(self)@ == old(self)@.says(
                        "已请求继续；任务使用原先绑定的对端"@,
                    ),
                    CommandView::Pause { .. } => final(self)@ == old(self)@.says(
                        "正在暂停，等待持久化和双方确认"@,
                    ),
                },
            },
    {
        match result {
            Err(detail) => self.set_status(&detail),
            Ok(_) => match command {
                TaskCommand::Connect { peer, id } => {
                    self.peers.hold(*peer, id);
                    self.set_status("已请求继续；任务使用原先绑定的对端");
                },
                TaskCommand::Resume { .. } => {
                    self.set_status("已请求继续；任务使用原先绑定的对端");
                },
                TaskCommand::Pause { .. } => {
                    self.set_status("正在暂停，等待持久化和双方确认");
                },
            },
        }
    }

    /// Whether a session can be started: it needs an identity.
    pub fn start_network_session(&mut self) -> (possible: bool)
        ensures
            possible == old(self)@.identity is Some,
            final(self)@ == (if old(self)@.identity is Some {
                old(self)@
            } else {
                ShellView {
                    network_status: "本机身份不可用；网络会话未启动"@,
                    status: "本机身份不可用；网络会话未启动"@,
                    ..old(self)@
                }
            }),
    {
        if self.identity.is_none() {
            self.network_status = "本机身份不可用；网络会话未启动".to_owned();
            self.set_status("本机身份不可用；网络会话未启动");
            return false;
        }
        true
    }

    /// A new session was started; its events carry the returned epoch.
    pub fn session_started(&mut self) -> (epoch: u64)
        ensures
            final(self)@.valid(),
            final(self)@ == old(self)@.restarted(),
            epoch == final(self)@.epoch,
    {
        self.epoch = self.epoch.wrapping_add(1);
        self.peers = PeerBoard::new();
        self.has_session = true;
        self.network_status = "正在准备 UDP 并连接信令".to_owned();
        self.set_status("正在准备 UDP 并连接信令");
        proof {
            assert(self@.peers.lines =~= Seq::<LineView>::empty());
            assert(self@.peers.held =~= Seq::<(NodeId, Seq<char>)>::empty());
        }
        self.epoch
    }

    /// No session could be made.
    pub fn session_failed(&mut self, detail: &str)
        ensures
            final(self)@ == (ShellView {
                network_status: "创建网络会话失败："@ + detail@,
                status: "创建网络会话失败："@ + detail@,
                ..old(self)@
            }),
    {
        let text = join_text("创建网络会话失败：", detail);
        self.set_status(&text);
        self.network_status = text;
    }

    /// Takes an event of the session with this epoch; events of an earlier session are
    /// ignored. Returns the peer and the tasks that go on.
    pub fn on_event(&mut self, epoch: u64, event: SessionEvent) -> (resumed: Vec<TaskId>)
        requires
            old(self)@.valid(),
        ensures
            final(self)@.valid(),
            if epoch != old(self)@.epoch {
                final(self)@ == old(self)@ && resumed@.len() == 0
            } else {
                final(self)@ == old(self)@.told(event@) && id_views(resumed@)
                    == old(self)@.resumed_by(event@)
            },
    {
        let none: Vec<TaskId> = Vec::new();
        assert(id_views(none@) =~= Seq::<Seq<char>>::empty());
        if self.epoch != epoch {
            return none;
        }
        match event {
            SessionEvent::Lifecycle(lifecycle) => {
                let label = lifecycle.label();
                let header = matches!(
                    lifecycle,
                    NetworkLifecycle::Unconfigured | NetworkLifecycle::ConnectingSignal
                        | NetworkLifecycle::SignalOnline
                        | NetworkLifecycle::ReconnectingSignal { .. }
                        | NetworkLifecycle::Failed { .. }
                );
                if header {
                    self.network_status = label.clone();
                }
                self.set_status(&label);
                none
            },
            SessionEvent::PeerState { peer, generation, state } => {
                let label = change_label(&state);
                match self.peers.report(peer, generation, state) {
                    None => none,
                    Some(ids) => {
                        let front = join_text("对端 ", &peer.short());
                        let middle = join_text(&front, "：");
                        let message = join_text(&middle, &label);
                        self.set_status(&message);
                        self.peer_status = message;
                        ids
                    },
                }
            },
            SessionEvent::SignalIdentityRegistered(node) => {
                let label = join_text("信令在线；已登记本机身份 ", &node.short());
                self.set_status(&label);
                self.network_status = label;
                none
            },
            SessionEvent::Diagnostic(detail) => {
                if !same_text(&detail, "信令心跳已确认") {
                    self.set_status(&detail);
                }
                none
            },
        }
    }

    /// A scan has ended and its entries wait in the queue.
    pub fn selection_queued(&mut self, epoch: u64, peer: NodeId, count: usize)
        ensures
            final(self)@ == (if epoch != old(self)@.epoch {
                old(self)@
            } else {
                old(self)@.says(
                    "扫描已完成，"@ + decimal(count as nat) + " 项已入队，绑定对端 "@
                        + peer.hex(),
                )
            }),
    {
        if self.epoch == epoch {
            let text = join_text("扫描已完成，", &decimal_text(count as u64));
            let text = join_text(&text, " 项已入队，绑定对端 ");
            let text = join_text(&text, &peer.to_hex());
            self.set_status(&text);
        }
    }

    /// A request for a test was answered.
    pub fn speed_request_ended(&mut self, epoch: u64, peer: NodeId)
        ensures
            final(self)@ == (if epoch != old(self)@.epoch || old(self)@.speeds.peer != Some(peer) {
                old(self)@
            } else {
                ShellView {
                    speeds: SpeedBoardView { until: None, ..old(self)@.speeds },
                    ..old(self)@
                }
            }),
    {
        if self.epoch == epoch {
            self.speeds.answered(peer);
        }
    }

    /// The entered peer, unless it cannot be connected.
    pub fn connect_current_peer(&mut self, entered: &str) -> (peer: Option<NodeId>)
        ensures
            match old(self)@.connect_refusal(entered@) {
                Some(message) => peer is None && final(self)@ == old(self)@.says(message),
                None => peer is Some && peer == entered_peer(entered@) && final(self)@
                    == old(self)@,
            },
    {
        match DesktopShell::named_peer(entered) {
            None => {
                let text = join_text("对端 Node ID 无效：", "节点 ID 必须是 32 位十六进制字符");
                self.set_status(&text);
                None
            },
            Some(peer) => {
                if self.identity == Some(peer) {
                    self.set_status("不能连接本机 Node ID");
                    return None;
                }
                if !self.has_session {
                    self.set_status("请先保存有效的信令配置；网络会话尚未启动");
                    return None;
                }
                Some(peer)
            },
        }
    }

    /// Notes whether the session took the request to connect.
    pub fn connect_requested(&mut self, peer: NodeId, result: std::result::Result<(), String>)
        ensures
            final(self)@ == old(self)@.says(
                match result {
                    Ok(_) => "已提交对端 "@ + short_name(peer) + " 的连接请求"@,
                    Err(detail) => detail@,
                },
            ),
    {
        match result {
            Ok(_) => {
                let front = join_text("已提交对端 ", &peer.short());
                let text = join_text(&front, " 的连接请求");
                self.set_status(&text);
            },
            Err(detail) => self.set_status(&detail),
        }
    }

    /// The identity to copy, if there is one.
    pub fn copy_node_id(&mut self) -> (text: Option<String>)
        ensures
            match old(self)@.identity {
                None => text is None && final(self)@ == old(self)@,
                Some(node) => {
                    &&& text matches Some(copied) && copied@ == node.hex()
                    &&& final(self)@ == old(self)@.says("已复制完整本机 Node ID"@)
                },
            },
    {
        match self.identity {
            None => None,
            Some(node) => {
                self.set_status("已复制完整本机 Node ID");
                Some(node.to_hex())
            },
        }
    }

    /// The own identifier to copy by the keyboard.
    pub fn copy_identity(&mut self) -> (text: Option<String>)
        ensures
            match old(self)@.identity {
                None => text is None && final(self)@ == old(self)@,
                Some(node) => {
                    &&& text matches Some(copied) && copied@ == node.hex()
                    &&& final(self)@ == old(self)@.says("已复制完整本机 ID"@)
                },
            },
    {
        match self.identity {
            None => None,
            Some(node) => {
                self.set_status("已复制完整本机 ID");
                Some(node.to_hex())
            },
        }
    }

    /// The next number of files that are sent at once; not while settings are saved.
    pub fn change_concurrency(&mut self)
        ensures
            final(self)@ == (if old(self)@.saving {
                old(self)@
            } else {
                ShellView {
                    settings: DraftView {
                        concurrency: (old(self)@.settings.concurrency % 3 + 1) as u8,
                        ..old(self)@.settings
                    },
                    ..old(self)@
                }
            }),
    {
        if !self.saving {
            self.settings.send_concurrency = self.settings.send_concurrency % 3 + 1;
        }
    }

    /// The next duration of a test; not while settings are saved.
    pub fn change_duration(&mut self)
        ensures
            final(self)@ == (if old(self)@.saving {
                old(self)@
            } else {
                ShellView {
                    settings: DraftView {
                        seconds: next_seconds(old(self)@.settings.seconds),
                        ..old(self)@.settings
                    },
                    ..old(self)@
                }
            }),
    {
        if !self.saving {
            let seconds: u16 = self.settings.speedtest_seconds;
            self.settings.speedtest_seconds = if seconds == 30 {
                60
            } else if seconds >= 600 {
                30
            } else {
                seconds + 60
            };
        }
    }

    /// The other direction of a test; not while settings are saved.
    pub fn change_direction(&mut self)
        ensures
            final(self)@ == (if old(self)@.saving {
                old(self)@
            } else {
                ShellView {
                    settings: DraftView {
                        direction: match old(self)@.settings.direction {
                            SpeedtestDirection::Upload => SpeedtestDirection::Download,
                            SpeedtestDirection::Download => SpeedtestDirection::Upload,
                        },
                        ..old(self)@.settings
                    },
                    ..old(self)@
                }
            }),
    {
        if !self.saving {
            self.settings.speedtest_direction = match self.settings.speedtest_direction {
                SpeedtestDirection::Upload => SpeedtestDirection::Download,
                SpeedtestDirection::Download => SpeedtestDirection::Upload,
            };
        }
    }
}

impl DesktopShell {
    /// The settings to save: the edited ones with the entered server. Nothing while
    /// settings must not or are just being saved.
    pub fn persist_settings(&mut self, host: &str, port: &str, form: HostForm) -> (plan: Option<
        SavePlan,
    >)
        ensures
            if !old(self)@.can_save || old(self)@.saving {
                plan is None && final(self)@ == old(self)@.says(
                    "当前配置不可保存；请检查配置诊断信息"@,
                )
            } else {
                &&& final(self)@ == (ShellView { saving: true, ..old(self)@ }).says(
                    "正在验证并保存设置…"@,
                )
                &&& plan matches Some(made) && made.draft@ == old(self)@.edited(host@, port@)
                    && made.server@ == server_spec(host@, port@, form) && made.signal_changed == (
                host@ != old(self)@.settings.host || port@ != old(self)@.settings.port)
            },
    {
        if !self.can_save || self.saving {
            self.set_status("当前配置不可保存；请检查配置诊断信息");
            return None;
        }
        let mut draft = self.settings.duplicate();
        draft.signal_host = host.to_owned();
        draft.signal_port = port.to_owned();
        let server = signal_server_spec(host, port, form);
        let signal_changed = !same_text(host, &self.settings.signal_host) || !same_text(
            port,
            &self.settings.signal_port,
        );
        self.saving = true;
        self.set_status("正在验证并保存设置…");
        Some(SavePlan { draft, server, signal_changed })
    }

    /// The settings could not be saved; the edited ones stay as they were.
    pub fn save_failed(&mut self, detail: &str)
        ensures
            final(self)@ == (ShellView { saving: false, ..old(self)@ }).says(
                "设置未保存："@ + detail@,
            ),
    {
        self.saving = false;
        let text = join_text("设置未保存：", detail);
        self.set_status(&text);
    }

    /// The settings were saved and are in force for new tasks.
    pub fn settings_saved(&mut self, plan: &SavePlan)
        ensures
            final(self)@ == (ShellView {
                saving: false,
                settings: plan.draft@,
                applied_root: plan.draft@.directory,
                config_note: "设置已保存；接收目录写能力检查通过。"@,
                ..old(self)@
            }),
    {
        self.saving = false;
        self.settings = plan.draft.duplicate();
        self.applied_root = copy_path(&plan.draft.receive_directory);
        self.config_note = "设置已保存；接收目录写能力检查通过。".to_owned();
    }

    /// What follows saved settings: a running session keeps its tasks and connections,
    /// with a new server where that has changed; otherwise a session is started.
    pub fn after_save(&mut self, plan: &SavePlan, running: bool) -> (step: SaveStep)
        ensures
            if old(self)@.has_session && running {
                if plan.signal_changed {
                    step == SaveStep::Reconfigure && final(self)@ == old(self)@
                } else {
                    step == SaveStep::Keep && final(self)@ == old(self)@.says(
                        "设置已保存；现有任务和连接继续运行"@,
                    )
                }
            } else {
                step == SaveStep::Restart && final(self)@ == (ShellView {
                    has_session: false,
                    ..old(self)@
                })
            },
    {
        if self.has_session && running {
            if plan.signal_changed {
                return SaveStep::Reconfigure;
            }
            self.set_status("设置已保存；现有任务和连接继续运行");
            return SaveStep::Keep;
        }
        self.has_session = false;
        SaveStep::Restart
    }

    /// Notes whether the running session took the new server.
    pub fn reconfigured(&mut self, result: std::result::Result<(), String>)
        ensures
            match result {
                Ok(_) => final(self)@ == (ShellView {
                    network_status: "正在使用新信令配置重连"@,
                    ..old(self)@
                }).says("正在使用新信令配置重连"@),
                Err(detail) => final(self)@ == old(self)@.says(
                    "设置已保存；网络重配置失败："@ + detail@,
                ),
            },
    {
        match result {
            Ok(_) => {
                self.network_status = "正在使用新信令配置重连".to_owned();
                self.set_status("正在使用新信令配置重连");
            },
            Err(detail) => {
                let text = join_text("设置已保存；网络重配置失败：", &detail);
                self.set_status(&text);
            },
        }
    }

    /// The peer and the session that picked files are for; nothing while a test runs or
    /// the peer cannot be sent to.
    pub fn begin_pick(&mut self, entered: &str) -> (target: Option<(NodeId, u64)>)
        ensures
            match old(self)@.pick_refusal(entered@) {
                Some(message) => target is None && final(self)@ == old(self)@.says(message),
                None => {
                    &&& final(self)@ == old(self)@
                    &&& target matches Some((peer, epoch)) && Some(peer) == entered_peer(entered@)
                        && epoch == old(self)@.epoch
                },
            },
    {
        if self.speeds.is_running() {
            self.set_status("测速正在进行，请先取消或等待完成后添加文件");
            return None;
        }
        match self.authenticated_peer(entered) {
            None => None,
            Some(peer) => Some((peer, self.epoch)),
        }
    }

    /// Why picked files are not sent, if so.
    pub open spec fn files_refusal(shell: ShellView, picked: Picked, epoch: u64) -> Option<
        Seq<char>,
    > {
        match picked {
            Picked::Paths { count, exact } => if !exact {
                Some("所选文件路径编码不受支持；未保存或转换该路径"@)
            } else if count == 0 {
                Some("未选择文件"@)
            } else if shell.epoch != epoch {
                Some("选择期间网络会话已重建，请重新选择"@)
            } else if !shell.has_session {
                Some("文件提交未全部完成："@ + "网络会话已关闭"@ + "；已提交项将在任务列表中显示"@)
            } else {
                None
            },
            Picked::Cancelled => Some("已取消文件选择"@),
            Picked::Failed { detail } => Some("文件选择失败："@ + detail@),
            Picked::Dropped => Some("文件选择任务已取消"@),
        }
    }

    /// Whether the picked files are sent now: only within the session for which they
    /// were picked.
    pub fn files_picked(&mut self, picked: &Picked, epoch: u64) -> (send: bool)
        ensures
            match DesktopShell::files_refusal(old(self)@, *picked, epoch) {
                Some(message) => !send && final(self)@ == old(self)@.says(message),
                None => send && final(self)@ == old(self)@,
            },
    {
        match picked {
            Picked::Paths { count, exact } => {
                if !*exact {
                    self.set_status("所选文件路径编码不受支持；未保存或转换该路径");
                    return false;
                }
                if *count == 0 {
                    self.set_status("未选择文件");
                    return false;
                }
                if self.epoch != epoch {
                    self.set_status("选择期间网络会话已重建，请重新选择");
                    return false;
                }
                if !self.has_session {
                    let front = join_text("文件提交未全部完成：", "网络会话已关闭");
                    let text = join_text(&front, "；已提交项将在任务列表中显示");
                    self.set_status(&text);
                    return false;
                }
                true
            },
            Picked::Cancelled => {
                self.set_status("已取消文件选择");
                false
            },
            Picked::Failed { detail } => {
                let text = join_text("文件选择失败：", detail);
                self.set_status(&text);
                false
            },
            Picked::Dropped => {
                self.set_status("文件选择任务已取消");
                false
            },
        }
    }

    /// Notes whether the session took all of the files.
    pub fn files_sent(
        &mut self,
        count: usize,
        peer: NodeId,
        result: std::result::Result<(), String>,
    )
        ensures
            final(self)@ == old(self)@.says(
                match result {
                    Ok(_) => "正在后台扫描 "@ + decimal(count as nat) + " 个文件；发送对象 "@
                        + peer.hex() + " 已固定"@,
                    Err(detail) => "文件提交未全部完成："@ + detail@
                        + "；已提交项将在任务列表中显示"@,
                },
            ),
    {
        match result {
            Ok(_) => {
                let text = join_text("正在后台扫描 ", &decimal_text(count as u64));
                let text = join_text(&text, " 个文件；发送对象 ");
                let text = join_text(&text, &peer.to_hex());
                let text = join_text(&text, " 已固定");
                self.set_status(&text);
            },
            Err(detail) => {
                let text = join_text("文件提交未全部完成：", &detail);
                let text = join_text(&text, "；已提交项将在任务列表中显示");
                self.set_status(&text);
            },
        }
    }

    /// Why a picked directory is not sent, if so.
    pub open spec fn folder_refusal(
        shell: ShellView,
        picked: PickedDirectory,
        epoch: u64,
    ) -> Option<Seq<char>> {
        match picked {
            PickedDirectory::Chosen(path) => if !path@.exact {
                Some("所选目录路径编码不受支持；未保存或转换该路径"@)
            } else if shell.epoch != epoch {
                Some("选择期间网络会话已重建，请重新选择"@)
            } else if !shell.has_session {
                Some("网络会话已关闭"@)
            } else {
                None
            },
            PickedDirectory::Empty => Some("未选择目录"@),
            PickedDirectory::Cancelled => Some("已取消目录选择"@),
            PickedDirectory::Failed { detail } => Some("目录选择失败："@ + detail@),
            PickedDirectory::Dropped => Some("目录选择任务已取消"@),
        }
    }

    /// Whether the picked directory is sent now.
    pub fn folder_picked(&mut self, picked: &PickedDirectory, epoch: u64) -> (send: bool)
        ensures
            match DesktopShell::folder_refusal(old(self)@, *picked, epoch) {
                Some(message) => !send && final(self)@ == old(self)@.says(message),
                None => send && final(self)@ == old(self)@,
            },
    {
        match picked {
            PickedDirectory::Chosen(path) => {
                if !path.is_exact() {
                    self.set_status("所选目录路径编码不受支持；未保存或转换该路径");
                    return false;
                }
                if self.epoch != epoch {
                    self.set_status("选择期间网络会话已重建，请重新选择");
                    return false;
                }
                if !self.has_session {
                    self.set_status("网络会话已关闭");
                    return false;
                }
                true
            },
            PickedDirectory::Empty => {
                self.set_status("未选择目录");
                false
            },
            PickedDirectory::Cancelled => {
                self.set_status("已取消目录选择");
                false
            },
            PickedDirectory::Failed { detail } => {
                let text = join_text("目录选择失败：", detail);
                self.set_status(&text);
                false
            },
            PickedDirectory::Dropped => {
                self.set_status("目录选择任务已取消");
                false
            },
        }
    }

    /// Notes whether the session took the directory.
    pub fn folder_sent(
        &mut self,
        path: &LocalPath,
        peer: NodeId,
        result: std::result::Result<(), String>,
    )
        ensures
            final(self)@ == old(self)@.says(
                match result {
                    Ok(_) => "正在后台扫描目录 "@ + path@.text + "；发送对象 "@ + peer.hex()
                        + " 已固定"@,
                    Err(detail) => detail@,
                },
            ),
    {
        match result {
            Ok(_) => {
                let text = join_text("正在后台扫描目录 ", path.text());
                let text = join_text(&text, "；发送对象 ");
                let text = join_text(&text, &peer.to_hex());
                let text = join_text(&text, " 已固定");
                self.set_status(&text);
            },
            Err(detail) => self.set_status(&detail),
        }
    }

    /// Takes a picked receive directory into the edited settings; it is in force once
    /// these are saved.
    pub fn receive_directory_picked(&mut self, picked: PickedDirectory)
        ensures
            final(self)@ == (match picked {
                PickedDirectory::Chosen(path) => if path@.exact {
                    (ShellView {
                        settings: DraftView { directory: Some(path@), ..old(self)@.settings },
                        config_note: "已选择新接收目录；保存时重新验证写能力，仅影响新任务"@,
                        ..old(self)@
                    }).says("接收目录已选择 "@ + path@.text + "；保存后用于新任务"@)
                } else {
                    old(self)@.says("所选接收目录路径编码不受支持；请改选其它目录"@)
                },
                PickedDirectory::Empty => old(self)@.says("未选择接收目录"@),
                PickedDirectory::Cancelled => old(self)@.says("已取消接收目录选择"@),
                PickedDirectory::Failed { detail } => old(self)@.says(
                    "接收目录选择失败："@ + detail@,
                ),
                PickedDirectory::Dropped => old(self)@.says("接收目录选择任务已取消"@),
            }),
    {
        match picked {
            PickedDirectory::Chosen(path) => {
                if path.is_exact() {
                    let front = join_text("接收目录已选择 ", path.text());
                    let text = join_text(&front, "；保存后用于新任务");
                    self.settings.receive_directory = Some(path);
                    self.config_note =
                    "已选择新接收目录；保存时重新验证写能力，仅影响新任务".to_owned();
                    self.set_status(&text);
                } else {
                    self.set_status("所选接收目录路径编码不受支持；请改选其它目录");
                }
            },
            PickedDirectory::Empty => self.set_status("未选择接收目录"),
            PickedDirectory::Cancelled => self.set_status("已取消接收目录选择"),
            PickedDirectory::Failed { detail } => {
                let text = join_text("接收目录选择失败：", &detail);
                self.set_status(&text);
            },
            PickedDirectory::Dropped => self.set_status("接收目录选择任务已取消"),
        }
    }

    /// Whether files can be picked for the entered peer.
    pub fn can_pick(&self, entered: &str) -> (enabled: bool)
        ensures
            enabled == (entered_peer(entered@) matches Some(peer) && self@.peers.connected(peer)
                && !any_running(self@.speeds.lines)),
    {
        match DesktopShell::named_peer(entered) {
            None => false,
            Some(peer) => self.peers.is_connected(peer) && !self.speeds.is_running(),
        }
    }

    /// Whether a test can be started with the entered peer.
    pub fn can_start_speed(&self, entered: &str) -> (enabled: bool)
        ensures
            enabled == (entered_peer(entered@) matches Some(peer) && self@.peers.connected(peer)
                && !self@.speeds.busy()),
    {
        self.can_pick(entered) && !self.speeds.is_waiting()
    }

    /// Whether settings can be saved now, and what the button says.
    pub fn save_button(&self) -> (button: (bool, &'static str))
        ensures
            button.0 == (self@.can_save && !self@.saving),
            button.1@ == (if !self@.can_save {
                "保存已禁用"@
            } else if self@.saving {
                "正在保存…"@
            } else {
                "保存设置"@
            }),
    {
        (
            self.can_save && !self.saving,
            if !self.can_save {
                "保存已禁用"
            } else if self.saving {
                "正在保存…"
            } else {
                "保存设置"
            },
        )
    }

    /// Whether a peer can be connected at all, and what the button says.
    pub fn connect_button(&self) -> (button: (bool, &'static str))
        ensures
            button.0 == (self@.identity is Some && self@.has_session),
            button.1@ == (if button.0 {
                "连接"@
            } else {
                "先保存信令配置"@
            }),
    {
        if self.identity.is_some() && self.has_session {
            (true, "连接")
        } else {
            (false, "先保存信令配置")
        }
    }

    /// Whether the own identifier can be copied, and what the button says.
    pub fn copy_button(&self) -> (button: (bool, &'static str))
        ensures
            button.0 == (self@.identity is Some),
            button.1@ == (if self@.identity is Some {
                "复制完整 ID"@
            } else {
                "复制（身份不可用）"@
            }),
    {
        if self.identity.is_some() {
            (true, "复制完整 ID")
        } else {
            (false, "复制（身份不可用）")
        }
    }

    /// The own identifier, in full.
    pub fn identity_text(&self) -> (text: String)
        ensures
            text@ == (match self@.identity {
                Some(node) => node.hex(),
                None => "身份不可用"@,
            }),
    {
        match self.identity {
            Some(node) => node.to_hex(),
            None => "身份不可用".to_owned(),
        }
    }

    /// The line on the signal server.
    pub fn signal_line(&self) -> (text: String)
        ensures
            text@ == "信令："@ + self@.network_status,
    {
        join_text("信令：", &self.network_status)
    }

    /// What the button that shows or hides the settings says.
    pub fn settings_button(&self) -> (text: &'static str)
        ensures
            text@ == (if self@.show_settings {
                "收起设置"@
            } else {
                "设置"@
            }),
    {
        if self.show_settings {
            "收起设置"
        } else {
            "设置"
        }
    }

    /// Whether the number of files at once can be changed, and what the button says.
    pub fn concurrency_button(&self) -> (button: (bool, String))
        ensures
            button.0 == !self@.saving,
            button.1@ == "同时发送："@ + decimal(self@.settings.concurrency as nat)
                + "（保存后生效）"@,
    {
        let front = join_text(
            "同时发送：",
            &decimal_text(self.settings.send_concurrency as u64),
        );
        (!self.saving, join_text(&front, "（保存后生效）"))
    }

    /// Whether the direction of tests can be changed, and what the button says.
    pub fn direction_button(&self) -> (button: (bool, String))
        ensures
            button.0 == !self@.saving,
            button.1@ == "方向："@ + (match self@.settings.direction {
                SpeedtestDirection::Upload => "发送"@,
                SpeedtestDirection::Download => "接收"@,
            }),
    {
        (!self.saving, join_text("方向：", self.settings.speedtest_direction.label()))
    }

    /// Whether the duration of tests can be changed, and what the button says.
    pub fn duration_button(&self) -> (button: (bool, String))
        ensures
            button.0 == !self@.saving,
            button.1@ == "时长："@ + decimal(self@.settings.seconds as nat) + " 秒"@,
    {
        let front = join_text("时长：", &decimal_text(self.settings.speedtest_seconds as u64));
        (!self.saving, join_text(&front, " 秒"))
    }

    /// Whether a test can be started, and what the button says.
    pub fn start_button(&self, entered: &str) -> (button: (bool, &'static str))
        ensures
            button.0 == (entered_peer(entered@) matches Some(peer) && self@.peers.connected(peer)
                && !self@.speeds.busy()),
            button.1@ == (if self@.speeds.until is Some {
                "等待授权…"@
            } else {
                "开始"@
            }),
    {
        (
            self.can_start_speed(entered),
            if self.speeds.is_waiting() {
                "等待授权…"
            } else {
                "开始"
            },
        )
    }

    /// Whether there is a test to cancel.
    pub fn can_cancel_speed(&self) -> (enabled: bool)
        ensures
            enabled == any_running(self@.speeds.lines),
    {
        self.speeds.is_running()
    }

    /// The label of a path line.
    pub fn path_label(label: &str) -> (text: String)
        ensures
            text@ == label@ + "："@,
    {
        join_text(label, "：")
    }

    /// Whether this node sends the data of a test.
    pub fn is_sending(&self, snapshot: &SpeedSnapshot) -> (sending: bool)
        ensures
            sending == (self@.identity matches Some(node) && (match snapshot.direction {
                SpeedDirection::Upload => node == snapshot.owner,
                SpeedDirection::Download => node != snapshot.owner,
            })),
    {
        match self.identity {
            None => false,
            Some(node) => match snapshot.direction {
                SpeedDirection::Upload => node == snapshot.owner,
                SpeedDirection::Download => node != snapshot.owner,
            },
        }
    }

    /// What a path line shows.
    pub fn path_text(path: Option<&LocalPath>) -> (text: String)
        ensures
            text@ == (match path {
                None => "尚未选择"@,
                Some(found) => if found@.exact {
                    found@.text
                } else {
                    "路径编码不受支持"@
                },
            }),
    {
        match path {
            None => "尚未选择".to_owned(),
            Some(found) => if found.is_exact() {
                found.text().to_owned()
            } else {
                "路径编码不受支持".to_owned()
            },
        }
    }

    /// The directory that new tasks are received in.
    pub fn applied_root(&self) -> (root: Option<&LocalPath>)
        ensures
            match self@.applied_root {
                None => root is None,
                Some(path) => root matches Some(found) && found@ == path,
            },
    {
        match &self.applied_root {
            None => None,
            Some(path) => Some(path),
        }
    }
}

/// How a test stands, in words.
pub open spec fn speed_status_text(status: SpeedStatus) -> Seq<char> {
    match status {
        SpeedStatus::Running => "测速中"@,
        SpeedStatus::Completed => "已完成"@,
        SpeedStatus::Cancelled => "已取消"@,
        SpeedStatus::Interrupted => "已中断"@,
    }
}

/// How a test stands, in words.
pub fn speed_status_label(status: SpeedStatus) -> (text: &'static str)
    ensures
        text@ == speed_status_text(status),
{
    match status {
        SpeedStatus::Running => "测速中",
        SpeedStatus::Completed => "已完成",
        SpeedStatus::Cancelled => "已取消",
        SpeedStatus::Interrupted => "已中断",
    }
}

/// What is shown of tests when the one on display reads `shown`: a request that waits
/// is said first.
pub open spec fn speed_panel(board: SpeedBoardView, shown: Option<Seq<char>>) -> Seq<char> {
    let waiting = "等待双方授权；文件活动会明确拒绝测速"@;
    let last = match shown {
        Some(text) => text,
        None => if board.until is Some {
            waiting
        } else {
            "尚未测速；使用已认证直连，不读取或生成文件"@
        },
    };
    if board.until is Some && !any_running(board.lines) {
        waiting + "\n上次结果："@ + last
    } else {
        last
    }
}

/// What is shown of tests.
pub fn speed_panel_text(board: &SpeedBoard, shown: Option<&str>) -> (text: String)
    ensures
        text@ == speed_panel(
            board@,
            match shown {
                None => None,
                Some(found) => Some(found@),
            },
        ),
{
    let waiting = board.is_waiting();
    let last = match shown {
        Some(found) => found.to_owned(),
        None => if waiting {
            "等待双方授权；文件活动会明确拒绝测速".to_owned()
        } else {
            "尚未测速；使用已认证直连，不读取或生成文件".to_owned()
        },
    };
    if waiting && !board.is_running() {
        let front = join_text("等待双方授权；文件活动会明确拒绝测速", "\n上次结果：");
        join_text(&front, &last)
    } else {
        last
    }
}

/// Changing settings step by step only passes usable values.
pub proof fn steps_keep_settings_usable(seconds: u16, concurrency: u8)
    requires
        crate::config::seconds_refusal(seconds) is None,
    ensures
        crate::config::seconds_refusal(next_seconds(seconds)) is None,
        crate::config::concurrency_refusal((concurrency % 3 + 1) as u8) is None,
{
}

/// A report that is older than what is known changes nothing.
pub proof fn older_reports_change_nothing(
    shell: ShellView,
    peer: NodeId,
    generation: u64,
    state: PeerStateView,
)
    requires
        shell.peers.stale(peer, generation),
    ensures
        shell.told(SessionEventView::PeerState { peer, generation, state }) == shell,
        shell.resumed_by(SessionEventView::PeerState { peer, generation, state }).len() == 0,
{
}

/// A task that waited for its peer goes on once: nothing waits after the peer was
/// reported connected.
pub proof fn waiting_tasks_go_on_once(shell: ShellView, peer: NodeId, generation: u64)
    requires
        !shell.peers.stale(peer, generation),
    ensures
        ({
            let event = SessionEventView::PeerState {
                peer,
                generation,
                state: PeerStateView::Connected,
            };
            &&& shell.resumed_by(event) == held_for(shell.peers.held, peer)
            &&& held_for(shell.told(event).peers.held, peer).len() == 0
        }),
{
    lemma_none_held(shell.peers.held, peer);
}

proof fn lemma_none_held(held: Seq<(NodeId, Seq<char>)>, peer: NodeId)
    ensures
        held_for(crate::boards::held_for_others(held, peer), peer).len() == 0,
    decreases held.len(),
{
    if held.len() > 0 {
        lemma_none_held(held.drop_last(), peer);
        let others = crate::boards::held_for_others(held.drop_last(), peer);
        assert(others.push(held.last()).drop_last() =~= others);
    }
}

/// A new session starts with no known peers, and events of the one before are fenced
/// off by its epoch.
pub proof fn restarts_forget_peers(shell: ShellView, peer: NodeId)
    ensures
        shell.restarted().epoch != shell.epoch,
        !shell.restarted().peers.knows(peer),
        shell.restarted().settings == shell.settings,
        shell.restarted().tasks == shell.tasks,
{
}

/// Something can be sent to the entered peer exactly if the entered text names a connected
/// peer and tasks can be stored.
pub proof fn sending_needs_a_connected_peer(shell: ShellView, entered: Seq<char>)
    ensures
        shell.peer_refusal(entered) is None <==> (entered_peer(entered) matches Some(peer)
            && shell.peers.state(peer) == Some(PeerStateView::Connected) && shell.has_store),
        shell.pick_refusal(entered) is None <==> !any_running(shell.speeds.lines)
            && shell.peer_refusal(entered) is None,
        shell.speed_refusal(entered) is None <==> shell.speeds.until is None && !any_running(
            shell.speeds.lines,
        ) && shell.has_session && shell.peer_refusal(entered) is None,
{
}

/// A peer can be connected exactly if the entered text names another node and a session
/// runs.
pub proof fn others_can_be_connected(shell: ShellView, entered: Seq<char>)
    ensures
        shell.connect_refusal(entered) is None <==> (entered_peer(entered) matches Some(peer)
            && shell.identity != Some(peer) && shell.has_session),
{
}

/// A task on display can be paused or resumed exactly as its row says while a session
/// runs; one whose peer is not connected is resumed by way of connecting it.
pub proof fn tasks_are_controlled_as_shown(shell: ShellView, id: Seq<char>, at: int, resume: bool)
    requires
        0 <= at < shell.tasks.rows.len(),
        shell.tasks.rows[at] matches RowView::Task { id: own, .. } && own == id,
        forall|k: int|
            0 <= k < at ==> !(#[trigger] shell.tasks.rows[k] matches RowView::Task { id: own, .. }
                && own == id),
    ensures
        shell.tasks.rows[at] matches RowView::Task { peer, can_pause, can_continue, .. } && {
            &&& shell.task_refusal(id, resume) is None <==> shell.has_session && if resume {
                can_continue
            } else {
                can_pause
            }
            &&& shell.task_command(id, false) == (CommandView::Pause { id })
            &&& shell.task_command(id, true) == if shell.peers.state(peer) == Some(
                PeerStateView::Connected,
            ) {
                CommandView::Resume { peer, id }
            } else {
                CommandView::Connect { peer, id }
            }
        },
{
    let wanted = crate::boards::names_task(id);
    assert forall|k: int| 0 <= k < at implies !wanted(#[trigger] shell.tasks.rows[k]) by {}
    assert(wanted(shell.tasks.rows[at]));
    crate::lists::lemma_is_first_index(shell.tasks.rows, wanted, at);
}

/// What is not on display cannot be controlled.
pub proof fn hidden_tasks_are_not_controlled(shell: ShellView, id: Seq<char>, resume: bool)
    requires
        forall|k: int|
            0 <= k < shell.tasks.rows.len() ==> !(
            #[trigger] shell.tasks.rows[k] matches RowView::Task { id: own, .. } && own == id),
    ensures
        shell.task_refusal(id, resume) is Some,
{
    let wanted = crate::boards::names_task(id);
    assert forall|k: int| 0 <= k < shell.tasks.rows.len() implies !wanted(
        #[trigger] shell.tasks.rows[k],
    ) by {}
    crate::lists::lemma_is_first_index(shell.tasks.rows, wanted, shell.tasks.rows.len() as int);
}

/// A report of a peer that is not old is what is known of that peer from now on, is told,
/// and changes nothing else.
pub proof fn reports_are_taken(
    shell: ShellView,
    peer: NodeId,
    generation: u64,
    state: PeerStateView,
)
    requires
        shell.valid(),
        !shell.peers.stale(peer, generation),
    ensures
        ({
            let after = shell.told(SessionEventView::PeerState { peer, generation, state });
            &&& after.peers.state(peer) == Some(state)
            &&& after.status == after.peer_status
            &&& after.status == "对端 "@ + short_name(peer) + "："@ + change_text(state)
            &&& after == (ShellView {
                peers: after.peers,
                peer_status: after.peer_status,
                status: after.status,
                ..shell
            })
        }),
{
    crate::boards::reports_keep_boards_valid(shell.peers, LineView { peer, generation, state });
}

/// What the session says of itself is shown; in the header only what concerns the
/// connection to the server. A heartbeat disturbs nothing, and any other note is shown.
pub proof fn session_news_are_shown(shell: ShellView, lifecycle: LifecycleView, detail: Seq<char>)
    ensures
        shell.told(SessionEventView::Lifecycle(lifecycle)).status == lifecycle.text(),
        lifecycle is SignalOnline || lifecycle is Failed || lifecycle is ReconnectingSignal
            || lifecycle is ConnectingSignal || lifecycle is Unconfigured ==> shell.told(
            SessionEventView::Lifecycle(lifecycle),
        ).network_status == lifecycle.text(),
        shell.told(SessionEventView::Lifecycle(lifecycle)).peers == shell.peers,
        detail == "信令心跳已确认"@ ==> shell.told(SessionEventView::Diagnostic(detail)) == shell,
        detail != "信令心跳已确认"@ ==> shell.told(SessionEventView::Diagnostic(detail)) == (
        ShellView { status: detail, ..shell }),
{
}

/// What was picked is sent exactly if it is there, can be told as text, and the session for
/// which it was picked still runs.
pub proof fn picks_belong_to_their_session(
    shell: ShellView,
    picked: Picked,
    chosen: PickedDirectory,
    epoch: u64,
)
    ensures
        DesktopShell::files_refusal(shell, picked, epoch) is None <==> (
        picked matches Picked::Paths { count, exact } && count > 0 && exact && shell.epoch == epoch
            && shell.has_session),
        DesktopShell::folder_refusal(shell, chosen, epoch) is None <==> (
        chosen matches PickedDirectory::Chosen(path) && path@.exact && shell.epoch == epoch
            && shell.has_session),
        DesktopShell::files_refusal(shell.restarted(), picked, shell.epoch) is Some,
        DesktopShell::folder_refusal(shell.restarted(), chosen, shell.epoch) is Some,
{
}

/// Each field on display has its place, and the others have none.
pub proof fn fields_have_their_places(show_settings: bool, field: Field)
    ensures
        fields(show_settings).contains(field) <==> show_settings || field == Field::Peer,
        field_place(show_settings, None) is None,
        match field_place(show_settings, Some(field)) {
            Some(place) => place < fields(show_settings).len() && fields(
                show_settings,
            )[place as int] == field,
            None => !fields(show_settings).contains(field),
        },
{
    let all = fields(show_settings);
    if show_settings {
        assert(all[0] == Field::Host && all[1] == Field::Port && all[2] == Field::Peer);
    } else {
        assert(all[0] == Field::Peer);
    }
}

/// Durations go round: half a minute, then each whole minute up to ten, then half a minute
/// again. A direction keeps its meaning towards the peer.
pub proof fn durations_go_round(minutes: u16, direction: SpeedtestDirection)
    requires
        1 <= minutes <= 9,
    ensures
        next_seconds(30) == 60,
        next_seconds((60 * minutes) as u16) == 60 * minutes + 60,
        next_seconds(600) == 30,
        wire_direction(direction) == SpeedDirection::Upload <==> direction
            == SpeedtestDirection::Upload,
{
}

/// A new session is there to be used.
pub proof fn restarted_sessions_run(shell: ShellView)
    ensures
        shell.restarted().has_session,
        shell.restarted().peers.held.len() == 0,
        shell.restarted().has_store == shell.has_store,
        shell.restarted().identity == shell.identity,
        shell.epoch < u64::MAX ==> shell.restarted().epoch == shell.epoch + 1,
{
}

/// An identity that is entered as it is shown names its node.
pub proof fn shown_identities_can_be_entered(node: NodeId)
    ensures
        entered_peer(node.hex()) == Some(node),
{
    crate::identity::node_hex_names_the_node(node);
    let text = node.hex();
    assert(text.len() == 32);
    assert(crate::identity::is_canonical_char(text[0]));
    assert(crate::identity::is_canonical_char(text[text.len() - 1]));
    assert(trimmed(text) == text);
}

} // verus!
