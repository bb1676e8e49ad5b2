use p2p_desktop::boards::{
    change_label, cycle, ListRow, PeerBoard, SpeedBoard, SpeedLine, TaskList, TaskRow,
    SPEED_REQUEST_MS,
};
use p2p_desktop::config::{HostForm, SettingsDraft, SpeedtestDirection};
use p2p_desktop::identity::NodeId;
use p2p_desktop::network_state::{NetworkLifecycle, PeerLifecycle};
use p2p_desktop::session::SessionEvent;
use p2p_desktop::shell::{
    queue_status, speed_panel_text, speed_status_label, DesktopShell, Field, Picked,
    PickedDirectory, QueueFacts, SaveStep, TaskCommand,
};
use p2p_desktop::speed::{SpeedSnapshot, SpeedStatus};
use p2p_desktop::speed_control::SpeedDirection;
use p2p_desktop::startup::{
    identity_status, signal_server_spec, startup_failure, store_status, ConfigOpening,
    DesktopStartup, IdentityOpening, StartupStep, StoreOpening,
};
use p2p_desktop::task_model::{LocalPath, TaskDirection, TaskId};

fn node(byte: u8) -> NodeId {
    NodeId::from_hex(&format!("{byte:02x}{}", "00".repeat(15))).unwrap()
}

fn saved() -> ConfigOpening {
    let mut settings = SettingsDraft::defaults(Some(LocalPath::new("/srv/Downloads")));
    settings.signal_host = "relay.example.test".to_string();
    settings.signal_port = "7000".to_string();
    ConfigOpening::Saved { settings, note: "已载入".to_string(), can_save: true }
}

fn startup(config: ConfigOpening) -> DesktopStartup {
    DesktopStartup::load(
        StoreOpening::Opened { interrupted: 0 },
        IdentityOpening::Ready { node: node(5) },
        config,
        Some(LocalPath::new("/srv/Downloads")),
    )
}

fn connected_shell() -> DesktopShell {
    let mut shell = DesktopShell::new(startup(saved()));
    assert!(shell.start_network_session());
    let epoch = shell.session_started();
    connect(&mut shell, epoch, 1);
    shell
}

fn connect(shell: &mut DesktopShell, epoch: u64, generation: u64) -> Vec<TaskId> {
    let state = PeerLifecycle::Connected;
    shell.on_event(epoch, SessionEvent::PeerState { peer: node(2), generation, state })
}

fn row(id: &TaskId, can_continue: bool) -> ListRow {
    ListRow::Task(TaskRow {
        id: id.clone(),
        peer: node(2),
        name: "a.bin".to_string(),
        direction: TaskDirection::Send,
        state_label: "传输中".to_string(),
        confirmed: 3,
        total: 10,
        diagnostic: None,
        can_pause: !can_continue,
        can_continue,
    })
}

fn group(id: &TaskId) -> ListRow {
    ListRow::Group { id: id.clone(), label: "目录".to_string() }
}

fn snapshot(status: SpeedStatus) -> SpeedSnapshot {
    SpeedSnapshot {
        test_id: TaskId::generate(),
        direction: SpeedDirection::Upload,
        owner: node(5),
        seconds: 30,
        status,
        bytes: 1,
        elapsed_ns: 2,
        rtt_ns: 3,
        measured: true,
    }
}

fn idle() -> QueueFacts {
    QueueFacts { pending: 0, active_files: 0, limit: 3, converging: false }
}

#[test]
fn servers_are_written_with_their_port() {
    assert_eq!(signal_server_spec("relay", "7000", HostForm::Other), "relay:7000");
    assert_eq!(signal_server_spec("192.0.2.1", "7000", HostForm::Ipv4), "192.0.2.1:7000");
    assert_eq!(signal_server_spec("2001:db8::1", "7000", HostForm::Ipv6), "[2001:db8::1]:7000");
}

#[test]
fn startup_explains_what_it_found() {
    assert_eq!(store_status(&StoreOpening::Opened { interrupted: 0 }), "本机任务记录已就绪");
    assert_eq!(
        store_status(&StoreOpening::Opened { interrupted: 2 }),
        "上次退出时有 2 个任务中断；等待用户选择后续操作"
    );
    assert_eq!(
        store_status(&StoreOpening::Failed { detail: "x".to_string() }),
        "任务记录不可用，原文件已保留：x"
    );
    assert_eq!(
        identity_status(&IdentityOpening::Failed { detail: "x".to_string() }),
        "本机身份不可用：x"
    );
    assert_eq!(startup_failure(StartupStep::ConfigDirectory, "x"), "无法准备配置目录：x");
    let ready = startup(saved());
    assert!(ready.has_saved_network_config);
    assert_eq!(ready.initial_status(), "信令设置已保存；正在启动会话");
    assert_eq!(
        ready.session_server(HostForm::Other),
        Some("relay.example.test:7000".to_string())
    );
    let absent = startup(ConfigOpening::Absent);
    assert!(absent.can_save_settings);
    assert_eq!(absent.initial_status(), "未配置有效信令；请保存设置后上线");
    assert_eq!(absent.session_server(HostForm::Other), None);
    let corrupt = startup(ConfigOpening::Corrupt { detail: "bad".to_string() });
    assert!(!corrupt.can_save_settings);
    assert_eq!(corrupt.config_note, "配置损坏，原文件已保留；保存已禁用：bad");
}

#[test]
fn older_peer_reports_are_ignored() {
    let mut board = PeerBoard::new();
    assert_eq!(board.report(node(2), 5, PeerLifecycle::Connected), Some(Vec::new()));
    assert_eq!(board.report(node(2), 4, PeerLifecycle::Disconnected), None);
    assert!(board.is_connected(node(2)));
    board.report(node(1), 6, PeerLifecycle::Connected);
    assert_eq!(
        board.current_peer_label(""),
        format!("已认证直连：{}、{}；可被动接收", node(1).to_hex(), node(2).to_hex())
    );
    assert_eq!(
        board.current_peer_label(&node(3).to_hex()),
        format!("对端 {}：尚未连接", node(3).to_hex())
    );
    assert_eq!(change_label(&PeerLifecycle::Failed("no".to_string())), "连接失败：no");
    let id = TaskId::generate();
    board.hold(node(7), &id);
    assert_eq!(board.report(node(7), 7, PeerLifecycle::Connected), Some(vec![id]));
    assert_eq!(board.report(node(7), 8, PeerLifecycle::Connected), Some(Vec::new()));
}

#[test]
fn tasks_are_selected_in_turn() {
    assert_eq!(cycle(3, None, false), 0);
    assert_eq!(cycle(3, Some(2), false), 0);
    assert_eq!(cycle(3, Some(0), true), 2);
    let (directory, first, second) =
        (TaskId::generate(), TaskId::generate(), TaskId::generate());
    let mut list = TaskList::new();
    assert_eq!(list.select_next(false), None);
    list.set_rows(vec![group(&directory), row(&first, false), row(&second, true)]);
    assert_eq!(list.select_next(false), Some(1));
    assert_eq!(list.selected(), Some(first.clone()));
    assert_eq!(list.select_next(false), Some(2));
    assert_eq!(list.select_next(false), Some(1));
    assert_eq!(list.select_next(true), Some(2));
    assert!(!list.is_expanded(&directory));
    list.toggle_group(directory.clone());
    assert!(list.is_expanded(&directory));
    list.toggle_group(directory.clone());
    assert!(!list.is_expanded(&directory));
    list.expand_groups();
    assert!(list.is_expanded(&directory));
    let found = list.find(&first).unwrap();
    assert_eq!(found.title(), "a.bin · 发送");
    assert_eq!(
        found.detail(),
        format!("传输中 · 对端 {} · 3 / 10 字节", node(2).to_hex())
    );
    assert_eq!(found.diagnosis(), "已校验进度；异常退出后可能回退到已持久化进度");
    assert!(list.find(&TaskId::generate()).is_none());
}

#[test]
fn running_tests_are_shown_first() {
    let mut board = SpeedBoard::new();
    board.asked(node(2), 100);
    assert!(board.is_waiting());
    board.update(Vec::new(), 100 + SPEED_REQUEST_MS - 1);
    assert!(board.is_waiting());
    board.update(Vec::new(), 100 + SPEED_REQUEST_MS);
    assert!(!board.is_waiting());
    let ended = SpeedLine { peer: node(2), snapshot: snapshot(SpeedStatus::Completed) };
    let running = SpeedLine { peer: node(3), snapshot: snapshot(SpeedStatus::Running) };
    board.update(vec![ended, running], 0);
    assert!(board.is_running());
    assert_eq!(board.displayed().unwrap().peer, node(3));
    let ended = SpeedLine { peer: node(2), snapshot: snapshot(SpeedStatus::Completed) };
    let other = SpeedLine { peer: node(1), snapshot: snapshot(SpeedStatus::Cancelled) };
    board.update(vec![other, ended], 0);
    assert_eq!(board.displayed().unwrap().peer, node(2));
    board.asked(node(4), 0);
    board.answered(node(3));
    assert!(board.is_waiting());
    board.answered(node(4));
    assert!(!board.is_waiting());
    assert_eq!(speed_status_label(SpeedStatus::Interrupted), "已中断");
    assert_eq!(
        speed_panel_text(&SpeedBoard::new(), None),
        "尚未测速；使用已认证直连，不读取或生成文件"
    );
}

#[test]
fn waiting_tasks_go_on_when_their_peer_connects() {
    let mut shell = DesktopShell::new(startup(saved()));
    let id = TaskId::generate();
    assert_eq!(shell.selected_action(true), None);
    assert_eq!(shell.status(), "先点击任务行选择任务");
    shell.observe_tasks(idle(), vec![row(&id, true)], Vec::new(), 0);
    assert_eq!(shell.task_action(&id, true), None);
    assert_eq!(shell.status(), "请先保存信令配置，启动网络会话");
    let epoch = shell.session_started();
    assert_eq!(shell.task_action(&id, false), None);
    assert_eq!(shell.status(), "该任务当前不能执行此操作");
    let command = shell.task_action(&id, true).unwrap();
    assert_eq!(command, TaskCommand::Connect { peer: node(2), id: id.clone() });
    shell.command_done(&command, Ok(()));
    assert_eq!(shell.status(), "已请求继续；任务使用原先绑定的对端");
    assert_eq!(connect(&mut shell, epoch, 1), vec![id.clone()]);
    assert_eq!(connect(&mut shell, epoch, 2), Vec::<TaskId>::new());
    assert_eq!(
        shell.task_action(&id, true),
        Some(TaskCommand::Resume { peer: node(2), id: id.clone() })
    );
    shell.observe_tasks(idle(), vec![row(&id, false)], Vec::new(), 0);
    assert_eq!(shell.task_action(&id, false), Some(TaskCommand::Pause { id }));
}

#[test]
fn events_of_an_earlier_session_change_nothing() {
    let mut shell = connected_shell();
    let old = shell.epoch();
    let epoch = shell.session_started();
    assert_eq!(epoch, old + 1);
    assert!(!shell.can_pick(&node(2).to_hex()));
    connect(&mut shell, old, 9);
    assert!(!shell.can_pick(&node(2).to_hex()));
    shell.on_event(epoch, SessionEvent::Lifecycle(NetworkLifecycle::SignalOnline));
    let header = shell.network_status().to_string();
    shell.on_event(epoch, SessionEvent::Diagnostic("信令心跳已确认".to_string()));
    assert_eq!(shell.status(), header);
    shell.on_event(epoch, SessionEvent::Diagnostic("其他".to_string()));
    assert_eq!(shell.status(), "其他");
    assert_eq!(shell.network_status(), header);
    connect(&mut shell, epoch, 3);
    assert_eq!(shell.peer_status(), "对端 02000000：已认证直连");
    assert!(shell.can_pick(&node(2).to_hex()));
    shell.selection_queued(epoch, node(2), 3);
    assert!(shell.status().starts_with("扫描已完成，3 项已入队，绑定对端 "));
}

#[test]
fn settings_are_changed_and_saved() {
    let mut shell = DesktopShell::new(startup(saved()));
    assert_eq!(shell.settings().send_concurrency, 1);
    for expected in [2, 3, 1] {
        shell.change_concurrency();
        assert_eq!(shell.settings().send_concurrency, expected);
    }
    shell.change_duration();
    assert_eq!(shell.settings().speedtest_seconds, 60);
    for _ in 0..9 {
        shell.change_duration();
    }
    assert_eq!(shell.settings().speedtest_seconds, 600);
    shell.change_duration();
    assert_eq!(shell.settings().speedtest_seconds, 30);
    shell.change_direction();
    assert_eq!(shell.settings().speedtest_direction, SpeedtestDirection::Download);
    assert_eq!(shell.save_button(), (true, "保存设置"));
    let plan = shell.persist_settings("other.test", "7000", HostForm::Other).unwrap();
    assert_eq!(plan.server, "other.test:7000");
    assert!(plan.signal_changed);
    assert!(!shell.save_button().0);
    assert!(shell.persist_settings("x", "1", HostForm::Other).is_none());
    shell.settings_saved(&plan);
    assert_eq!(shell.settings().signal_host, "other.test");
    assert_eq!(shell.after_save(&plan, false), SaveStep::Restart);
    shell.session_started();
    assert_eq!(shell.after_save(&plan, true), SaveStep::Reconfigure);
    let same = shell.persist_settings("other.test", "7000", HostForm::Other).unwrap();
    assert!(!same.signal_changed);
    assert_eq!(shell.after_save(&same, true), SaveStep::Keep);
    shell.save_failed("磁盘");
    assert_eq!(shell.status(), "设置未保存：磁盘");
    let corrupt = ConfigOpening::Corrupt { detail: "bad".to_string() };
    let mut shell = DesktopShell::new(startup(corrupt));
    assert_eq!(shell.save_button(), (false, "保存已禁用"));
    assert!(shell.persist_settings("x", "1", HostForm::Other).is_none());
}

#[test]
fn speed_tests_and_files_exclude_each_other() {
    let mut shell = connected_shell();
    let entered = node(2).to_hex();
    assert!(shell.can_start_speed(&entered));
    let request = shell.start_speed_ui(&entered).unwrap();
    assert_eq!(request.peer, node(2));
    assert_eq!(request.direction, SpeedDirection::Upload);
    assert_eq!(request.seconds, 30);
    shell.speed_requested(node(2), Ok(()), 0);
    assert!(shell.start_speed_ui(&entered).is_none());
    assert_eq!(shell.status(), "测速正在进行，请先取消或等待完成");
    assert!(shell.cancel_speed_ui().is_none());
    let running = snapshot(SpeedStatus::Running);
    let id = running.test_id.clone();
    assert!(shell.is_sending(&running));
    let lines = vec![SpeedLine { peer: node(2), snapshot: running }];
    shell.observe_tasks(idle(), Vec::new(), lines, 1);
    assert!(shell.begin_pick(&entered).is_none());
    assert_eq!(shell.status(), "测速正在进行，请先取消或等待完成后添加文件");
    assert_eq!(shell.cancel_speed_ui(), Some((node(2), id)));
    shell.observe_tasks(idle(), Vec::new(), Vec::new(), 2);
    let (peer, epoch) = shell.begin_pick(&entered).unwrap();
    assert_eq!(peer, node(2));
    assert!(shell.files_picked(&Picked::Paths { count: 2, exact: true }, epoch));
    assert!(!shell.files_picked(&Picked::Paths { count: 2, exact: false }, epoch));
    assert!(!shell.files_picked(&Picked::Cancelled, epoch));
    assert_eq!(shell.status(), "已取消文件选择");
    assert!(!shell.files_picked(&Picked::Paths { count: 2, exact: true }, epoch + 1));
    assert_eq!(shell.status(), "选择期间网络会话已重建，请重新选择");
    shell.files_sent(2, node(2), Ok(()));
    assert_eq!(
        shell.status(),
        format!("正在后台扫描 2 个文件；发送对象 {} 已固定", node(2).to_hex())
    );
    let folder = PickedDirectory::Chosen(LocalPath::new("/home/user/top"));
    assert!(shell.folder_picked(&folder, epoch));
    assert!(!shell.folder_picked(&PickedDirectory::Empty, epoch));
    shell.receive_directory_picked(PickedDirectory::Chosen(LocalPath::new("/srv/new")));
    assert_eq!(shell.status(), "接收目录已选择 /srv/new；保存后用于新任务");
    assert_eq!(DesktopShell::path_text(None), "尚未选择");
}

#[test]
fn peers_are_connected_by_their_full_id() {
    let mut shell = connected_shell();
    assert!(shell.connect_current_peer("短").is_none());
    assert_eq!(shell.status(), "对端 Node ID 无效：节点 ID 必须是 32 位十六进制字符");
    assert!(shell.connect_current_peer(&node(5).to_hex()).is_none());
    assert_eq!(shell.status(), "不能连接本机 Node ID");
    assert_eq!(shell.connect_current_peer(&node(3).to_hex()), Some(node(3)));
    shell.connect_requested(node(3), Ok(()));
    assert_eq!(shell.status(), "已提交对端 03000000 的连接请求");
    assert_eq!(shell.copy_node_id(), Some(node(5).to_hex()));
    assert_eq!(shell.authenticated_peer(&node(3).to_hex()), None);
    assert_eq!(shell.status(), "请先连接并等待对端身份认证完成");
    assert_eq!(shell.authenticated_peer(&node(2).to_hex()), Some(node(2)));
    assert_eq!(shell.connect_button(), (true, "连接"));
    assert_eq!(shell.copy_button(), (true, "复制完整 ID"));
}

#[test]
fn the_focus_moves_through_the_fields() {
    let mut shell = DesktopShell::new(startup(saved()));
    assert!(!shell.shows_settings());
    assert_eq!(shell.focus_field(Some(Field::Peer), false), Field::Peer);
    assert_eq!(shell.toggle_settings(), Field::Host);
    assert_eq!(shell.focus_field(Some(Field::Host), false), Field::Port);
    assert_eq!(shell.toggle_settings(), Field::Peer);
    let facts = QueueFacts { pending: 2, active_files: 1, limit: 3, converging: true };
    assert_eq!(queue_status(facts), "排队 2 · 活动文件 1/3 · 正在收敛到新并发数");
}

#[test]
fn outcomes_of_commands_are_shown() {
    let mut shell = connected_shell();
    let epoch = shell.epoch();
    shell.tasks_unavailable();
    assert_eq!(shell.queue_status(), "任务存储不可用");
    shell.observe_failed("锁");
    assert_eq!(shell.queue_status(), "无法读取任务：锁");
    shell.speed_cancelled(Ok(()));
    assert_eq!(shell.status(), "正在取消测速，等待对端确认与清理");
    shell.speed_cancelled(Err("关闭".to_string()));
    assert_eq!(shell.status(), "关闭");
    shell.speed_requested(node(2), Ok(()), 0);
    assert!(shell.speeds().is_waiting());
    shell.speed_request_ended(epoch + 1, node(2));
    assert!(shell.speeds().is_waiting());
    shell.speed_request_ended(epoch, node(2));
    assert!(!shell.speeds().is_waiting());
    let folder = LocalPath::new("/home/user/top");
    shell.folder_sent(&folder, node(2), Ok(()));
    assert_eq!(
        shell.status(),
        format!("正在后台扫描目录 /home/user/top；发送对象 {} 已固定", node(2).to_hex())
    );
    assert_eq!(shell.select_task(false), None);
    assert_eq!(shell.status(), "暂无可选文件任务；Ctrl/⌘+E 展开目录");
    let id = TaskId::generate();
    shell.observe_tasks(idle(), vec![row(&id, true)], Vec::new(), 0);
    shell.click_task(id.clone());
    assert_eq!(shell.tasks().selected(), Some(id.clone()));
    assert_eq!(
        shell.selected_action(true),
        Some(TaskCommand::Resume { peer: node(2), id })
    );
    shell.session_failed("端口");
    assert_eq!(shell.network_status(), "创建网络会话失败：端口");
}

#[test]
fn rows_are_shown_as_they_are_observed() {
    let mut shell = connected_shell();
    assert_eq!(
        shell.tasks().empty_hint(),
        Some("暂无任务。选择文件或目录发送；收到的新任务会自动显示。")
    );
    let (directory, first, second) =
        (TaskId::generate(), TaskId::generate(), TaskId::generate());
    let stopped = ListRow::Task(TaskRow {
        id: second.clone(),
        peer: node(3),
        name: "b.bin".to_string(),
        direction: TaskDirection::Receive,
        state_label: "已中断".to_string(),
        confirmed: 4,
        total: 9,
        diagnostic: Some("磁盘已满".to_string()),
        can_pause: false,
        can_continue: true,
    });
    let rows = vec![group(&directory), row(&first, false), stopped];
    shell.observe_tasks(idle(), rows, Vec::new(), 0);
    assert_eq!(shell.tasks().empty_hint(), None);
    let shown = shell.tasks().rows();
    assert_eq!(shown.len(), 3);
    let ListRow::Group { id, label } = &shown[0] else { panic!("a directory") };
    assert_eq!((id, label.as_str()), (&directory, "目录"));
    assert_eq!(shell.tasks().group_line(id, label), "▸ 目录");
    let ListRow::Task(running) = &shown[1] else { panic!("a task") };
    assert_eq!((&running.id, running.name.as_str()), (&first, "a.bin"));
    assert_eq!((running.confirmed, running.total), (3, 10));
    assert_eq!(running.state_label, "传输中");
    assert!(running.can_pause && !running.can_continue);
    let ListRow::Task(ended) = &shown[2] else { panic!("a task") };
    assert_eq!((ended.peer, ended.direction), (node(3), TaskDirection::Receive));
    assert_eq!(ended.diagnostic.as_deref(), Some("磁盘已满"));
    assert_eq!(ended.diagnosis(), "磁盘已满");
    assert_eq!(ended.title(), "b.bin · 接收");
    shell.click_task(second.clone());
    assert!(shell.tasks().is_selected(&second));
    assert!(!shell.tasks().is_selected(&first));
    let mut list = TaskList::new();
    list.toggle_group(directory.clone());
    assert_eq!(list.group_line(&directory, "目录"), "▾ 目录");
}

#[test]
fn lines_and_buttons_say_what_they_stand_for() {
    let mut shell = connected_shell();
    let entered = node(2).to_hex();
    assert_eq!(shell.identity_text(), node(5).to_hex());
    assert_eq!(shell.signal_line(), format!("信令：{}", shell.network_status()));
    assert_eq!(shell.settings_button(), "设置");
    shell.toggle_settings();
    assert_eq!(shell.settings_button(), "收起设置");
    assert_eq!(shell.concurrency_button(), (true, "同时发送：1（保存后生效）".to_string()));
    assert_eq!(shell.direction_button(), (true, "方向：发送".to_string()));
    assert_eq!(shell.duration_button(), (true, "时长：30 秒".to_string()));
    assert_eq!(shell.start_button(&entered), (true, "开始"));
    assert_eq!(shell.start_button("短"), (false, "开始"));
    assert_eq!(DesktopShell::path_label("接收目录"), "接收目录：");
    assert_eq!(shell.copy_identity(), Some(node(5).to_hex()));
    assert_eq!(shell.status(), "已复制完整本机 ID");
    assert!(!shell.can_cancel_speed());
    shell.speed_requested(node(2), Ok(()), 0);
    assert_eq!(shell.start_button(&entered), (false, "等待授权…"));
    let running = SpeedLine { peer: node(2), snapshot: snapshot(SpeedStatus::Running) };
    shell.observe_tasks(idle(), Vec::new(), vec![running], 1);
    assert!(shell.can_cancel_speed());
    shell.persist_settings("other.test", "7000", HostForm::Other).unwrap();
    assert!(!shell.concurrency_button().0);
    assert!(!shell.direction_button().0);
    assert!(!shell.duration_button().0);
}

#[test]
fn identities_that_failed_to_open_are_not_copied() {
    let failed = DesktopStartup::load(
        StoreOpening::Opened { interrupted: 0 },
        IdentityOpening::Failed { detail: "x".to_string() },
        saved(),
        None,
    );
    let mut shell = DesktopShell::new(failed);
    let status = shell.status().to_string();
    assert_eq!(shell.identity_text(), "身份不可用");
    assert_eq!(shell.copy_identity(), None);
    assert_eq!(shell.status(), status);
}
