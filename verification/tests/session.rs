use p2p_desktop::identity::NodeId;
use p2p_desktop::network_state::{
    Delay, NetworkLifecycle, PeerLifecycle, PeerRegistry, PEER_LOOKUP_TIMEOUT_MS,
};
use p2p_desktop::session::{
    check_candidates, check_identity, command_failure, continuation, enqueue_pending_lookups,
    is_current_signal_generation, jitter_of, punch_step, reconnect_jitter, CommandKind,
    Continuation, DesktopSessionConfig, JobKind, Jobs, ProbeOutcome, PunchStep, Session,
    SessionAction, SessionEvent, MAX_CANDIDATES, MAX_CONTINUATION_JOBS, MAX_SELECTION_JOBS,
    PUNCH_ATTEMPTS,
};
use p2p_desktop::task_model::TaskDirection;

fn node(byte: u8) -> NodeId {
    NodeId::from_hex(&format!("{byte:02x}{}", "00".repeat(15))).unwrap()
}

fn session() -> Session {
    let (session, actions) = Session::new(node(5), DesktopSessionConfig::new("relay:7000"));
    assert_eq!(
        actions,
        vec![
            lifecycle(NetworkLifecycle::ConnectingSignal),
            SessionAction::ConnectSignal { generation: 0 },
        ]
    );
    session
}

fn lifecycle(state: NetworkLifecycle) -> SessionAction {
    SessionAction::Emit(SessionEvent::Lifecycle(state))
}

fn peer_state(peer: NodeId, generation: u64, state: PeerLifecycle) -> SessionAction {
    SessionAction::Emit(SessionEvent::PeerState { peer, generation, state })
}

fn says(text: &str) -> SessionAction {
    SessionAction::Emit(SessionEvent::Diagnostic(text.to_string()))
}

#[test]
fn stale_signal_connect_result_is_fenced_by_configuration_generation() {
    let old = 7u64;
    let new = old.wrapping_add(1);
    assert!(is_current_signal_generation(old, old));
    assert!(!is_current_signal_generation(new, old));
}

#[test]
fn results_of_an_earlier_configuration_change_nothing() {
    let mut session = session();
    session.reconfigure("other:7000".to_string());
    assert!(session.signal_online(0, node(5)).is_empty());
    assert!(!session.is_online());
    assert!(session.signal_failed(0, "late".to_string(), 0).is_empty());
    assert_eq!(
        session.signal_online(1, node(5)),
        vec![
            SessionAction::Emit(SessionEvent::SignalIdentityRegistered(node(5))),
            lifecycle(NetworkLifecycle::SignalOnline),
        ]
    );
    assert!(session.is_online());
    assert_eq!(session.server(), "other:7000");
}

#[test]
fn lookups_wait_until_the_signal_server_is_there() {
    let mut session = session();
    assert_eq!(session.connect_peer(node(5), 0), vec![says("不能连接本机 Node ID")]);
    assert_eq!(
        session.connect_peer(node(2), 0),
        vec![
            peer_state(node(2), 1, PeerLifecycle::PeerPending),
            lifecycle(NetworkLifecycle::PeerPending { peer: node(2) }),
        ]
    );
    assert_eq!(
        session.connect_peer(node(2), 0),
        vec![says("已存在对端 02000000 的连接请求，忽略重复点击")]
    );
    session.signal_online(0, node(5));
    assert_eq!(session.next_lookup(), Some((node(2), 1)));
    assert_eq!(session.next_lookup(), None);
    let asked = session.connect_peer(node(3), 0);
    assert_eq!(asked[2], SessionAction::RequestLookup { peer: node(3), generation: 2 });
    let actions = session.lookup_failed(node(3), 2, true, "gone".to_string(), 0);
    assert_eq!(actions[0], SessionAction::DropSignal);
    assert_eq!(
        actions[1],
        SessionAction::RetryLater { delay: Delay { millis: 1000 }, detail: "gone".to_string() }
    );
    assert!(!session.is_online());
    assert_eq!(session.next_lookup(), None);
    session.signal_online(0, node(5));
    assert_eq!(session.next_lookup(), Some((node(3), 2)));
}

#[test]
fn a_connection_survives_the_loss_of_the_signal_server() {
    let mut session = session();
    session.signal_online(0, node(5));
    session.connect_peer(node(2), 0);
    session.connect_peer(node(3), 0);
    let attempt = session.start_peer_attempt(node(2), 1, 0);
    assert_eq!(attempt[2], SessionAction::StartAttempt { peer: node(2), generation: 1 });
    assert!(session.accept_incoming(Some((node(2), 1))));
    assert!(!session.accept_incoming(Some((node(2), 2))));
    assert!(!session.accept_incoming(None));
    let connected = session.peer_connected(node(2), 1);
    assert_eq!(connected[0], peer_state(node(2), 1, PeerLifecycle::Connected));
    assert_eq!(connected[2], SessionAction::ServePeer { peer: node(2), generation: 1 });
    session.attempt_ended();
    assert_eq!(session.peer_connected(node(2), 1), vec![SessionAction::CloseDuplicate]);
    let lost = session.signal_lost("eof".to_string(), 0);
    assert_eq!(lost[0], SessionAction::DropSignal);
    assert_eq!(session.connections(), &vec![(node(2), 1)]);
    assert_eq!(
        session.retry(),
        vec![
            lifecycle(NetworkLifecycle::ReconnectingSignal {
                attempt: 1,
                delay: Delay { millis: 0 }
            }),
            SessionAction::ConnectSignal { generation: 0 },
        ]
    );
    session.signal_online(0, node(5));
    assert_eq!(session.next_lookup(), Some((node(3), 2)));
    assert!(session.peer_closed(node(2), 9, "late".to_string()).is_empty());
    assert_eq!(
        session.peer_closed(node(2), 1, "bye".to_string()),
        vec![
            peer_state(node(2), 1, PeerLifecycle::Disconnected),
            lifecycle(NetworkLifecycle::Disconnected {
                peer: Some(node(2)),
                detail: "bye".to_string()
            }),
        ]
    );
    assert!(session.connections().is_empty());
}

#[test]
fn reconfiguring_ends_everything_of_the_old_server() {
    let mut session = session();
    session.signal_online(0, node(5));
    session.connect_peer(node(2), 0);
    session.start_peer_attempt(node(2), 1, 0);
    session.peer_connected(node(2), 1);
    session.connect_peer(node(3), 0);
    let actions = session.reconfigure("other:7000".to_string());
    let failed = PeerLifecycle::Failed("网络配置已更改，请重新连接".to_string());
    assert!(actions.contains(&peer_state(node(2), 1, failed)));
    assert!(actions.contains(&SessionAction::CloseConnections));
    assert_eq!(actions.last(), Some(&SessionAction::ConnectSignal { generation: 1 }));
    assert!(session.connections().is_empty());
    assert_eq!(session.next_lookup(), None);
    assert!(!session.is_online());
}

#[test]
fn waiting_peers_fail_when_lookups_are_refused_or_expire() {
    let mut session = session();
    session.signal_online(0, node(5));
    session.connect_peer(node(2), 0);
    assert_eq!(session.peer_pending(node(2)).len(), 2);
    assert!(session.peer_pending(node(3)).is_empty());
    assert_eq!(
        session.signal_refused("limit"),
        vec![
            peer_state(node(2), 1, PeerLifecycle::Failed("信令查询失败：limit".to_string())),
            says("信令服务拒绝请求：limit"),
        ]
    );
    session.connect_peer(node(2), 10);
    assert!(session.maintain(10).is_empty());
    let expired = session.maintain(10 + PEER_LOOKUP_TIMEOUT_MS);
    assert_eq!(
        expired,
        vec![peer_state(
            node(2),
            2,
            PeerLifecycle::Failed("目标离线或候选等待超时，请重试连接".to_string())
        )]
    );
}

#[test]
fn peers_that_cannot_be_reached_fail_at_once() {
    let mut session = session();
    session.signal_online(0, node(5));
    session.connect_peer(node(2), 0);
    let detail = "对端候选地址与本机 UDP 地址族不匹配".to_string();
    assert_eq!(
        session.start_peer_attempt(node(2), 0, 0),
        vec![peer_state(node(2), 1, PeerLifecycle::Failed(detail))]
    );
    assert!(session.start_peer_attempt(node(5), 1, 0).is_empty());
    let actions = session.start_peer_attempt(node(7), 1, 0);
    assert_eq!(actions[0], peer_state(node(7), 2, PeerLifecycle::Punching));
    assert_eq!(
        session.peer_progress(node(7), 2, PeerLifecycle::Authenticating),
        vec![
            peer_state(node(7), 2, PeerLifecycle::Authenticating),
            lifecycle(NetworkLifecycle::Authenticating { peer: node(7) }),
        ]
    );
    assert_eq!(
        session.peer_failed(node(7), 2, "no"),
        vec![peer_state(node(7), 2, PeerLifecycle::Failed("no".to_string()))]
    );
    assert!(session.peer_failed(node(7), 2, "again").is_empty());
    assert_eq!(session.peer_connected(node(7), 2), vec![SessionAction::CloseStale]);
}

#[test]
fn pending_lookups_are_queued_once() {
    let mut peers = PeerRegistry::default();
    peers.begin_attempt(node(2), 0);
    peers.begin_attempt(node(3), 0);
    let mut queue = vec![(node(3), 2)];
    enqueue_pending_lookups(&peers, &mut queue);
    assert_eq!(queue, vec![(node(3), 2), (node(2), 1)]);
    enqueue_pending_lookups(&peers, &mut queue);
    assert_eq!(queue.len(), 2);
}

#[test]
fn jitter_stays_within_a_fifth() {
    assert_eq!(jitter_of(0), -200);
    assert_eq!(jitter_of(400), 200);
    assert_eq!(jitter_of(401), -200);
    let values: Vec<i32> = (0..64).map(|_| reconnect_jitter()).collect();
    assert!(values.iter().all(|value| (-200..=200).contains(value)));
    assert!(values.iter().any(|value| *value != values[0]));
}

#[test]
fn file_commands_are_bounded() {
    let mut jobs = Jobs::new();
    let refused = jobs.take_on(JobKind::Selection, false, node(1), node(2));
    assert_eq!(refused.unwrap_err().text(), "任务存储尚未就绪");
    let refused = jobs.take_on(JobKind::Selection, true, node(1), node(1));
    assert_eq!(refused.unwrap_err().text(), "不能向本机发送任务");
    for _ in 0..MAX_SELECTION_JOBS {
        jobs.take_on(JobKind::Selection, true, node(1), node(2)).unwrap();
    }
    for _ in 0..MAX_CONTINUATION_JOBS {
        jobs.take_on(JobKind::Continuation, true, node(1), node(2)).unwrap();
    }
    let full = "文件命令排队已达上限，请稍后重试";
    let refused = jobs.take_on(JobKind::Selection, true, node(1), node(2));
    assert_eq!(refused.unwrap_err().text(), full);
    let refused = jobs.take_on(JobKind::Continuation, true, node(1), node(2));
    assert_eq!(refused.unwrap_err().text(), full);
    jobs.end(JobKind::Continuation);
    assert!(jobs.take_on(JobKind::Continuation, true, node(1), node(2)).is_ok());
}

#[test]
fn punching_ends_after_its_rounds() {
    assert!(check_candidates(MAX_CANDIDATES).is_ok());
    assert_eq!(
        check_candidates(MAX_CANDIDATES + 1).unwrap_err().text(),
        "对端候选地址超过桌面连接上限"
    );
    assert_eq!(punch_step(1, 3, ProbeOutcome::Answered), PunchStep::Reply);
    assert_eq!(punch_step(1, 3, ProbeOutcome::Silent), PunchStep::ProbeAgain);
    let PunchStep::GiveUp(error) = punch_step(PUNCH_ATTEMPTS, 3, ProbeOutcome::Silent) else {
        panic!("the last round gives up")
    };
    assert_eq!(error.text(), "打洞超时：未收到带正确令牌的探测回应（3 个候选）");
    let PunchStep::GiveUp(error) = punch_step(1, 3, ProbeOutcome::Closed) else {
        panic!("a closed receiver gives up")
    };
    assert_eq!(error.text(), "打洞令牌接收器已关闭");
}

#[test]
fn unexpected_nodes_are_named() {
    assert!(check_identity(node(1), node(1), false).is_ok());
    assert_eq!(
        check_identity(node(1), node(2), false).unwrap_err(),
        "对端身份不符：期待 01000000，实际 02000000"
    );
    assert_eq!(
        check_identity(node(1), node(2), true).unwrap_err(),
        "入站身份不符：期待 01000000，实际 02000000"
    );
}

#[test]
fn commands_that_fail_are_explained() {
    assert_eq!(command_failure(CommandKind::Connect, "full"), "网络会话暂时无法接收连接请求：full");
    assert_eq!(
        command_failure(CommandKind::Reconfigure, "full"),
        "网络会话暂时无法接收配置变更：full"
    );
    assert_eq!(command_failure(CommandKind::Transfer, "full"), "传输命令队列已满或会话已关闭");
    assert_eq!(command_failure(CommandKind::Speed, "full"), "测速命令队列已满或会话已关闭");
}

#[test]
fn tasks_continue_by_direction() {
    assert_eq!(continuation(TaskDirection::Send, true).unwrap(), Continuation::Enqueue);
    assert_eq!(continuation(TaskDirection::Receive, true).unwrap(), Continuation::AskPeer);
    assert_eq!(
        continuation(TaskDirection::Receive, false).unwrap_err().text(),
        "请先连接任务绑定的对端"
    );
}
