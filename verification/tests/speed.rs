use p2p_desktop::activity::Activity;
use p2p_desktop::identity::NodeId;
use p2p_desktop::protocol::{Frame, Message};
use p2p_desktop::speed::{
    check_control, check_grant, check_ready, grants_itself, read_opening, result_millis, DataRole,
    Measured, RunAction, RunEvent, RunStage, SpeedPeer, SpeedRun, SpeedStatus,
};
use p2p_desktop::speed_control::{SpeedControl, SpeedDirection, SpeedLease};
use p2p_desktop::task_model::TaskId;

fn node(byte: u8) -> NodeId {
    NodeId::from_hex(&format!("{byte:02x}{}", "00".repeat(15))).unwrap()
}

fn lease(owner: NodeId) -> SpeedLease {
    SpeedLease {
        test_id: TaskId::generate(),
        owner,
        direction: SpeedDirection::Upload,
        seconds: 60,
        stream_token: 77,
    }
}

fn result_of(lease: &SpeedLease, bytes: u64, elapsed_ms: u64) -> RunEvent {
    RunEvent::Control(SpeedControl::Result { lease: lease.clone(), bytes, elapsed_ms })
}

fn frame(message: Message, request_id: u64) -> Frame {
    Frame { request_id, message }
}

#[test]
fn both_ends_of_a_completed_test_agree() {
    let granted = lease(node(1));
    let mut sender = SpeedRun::new(granted.clone(), false);
    let mut receiver = SpeedRun::new(granted.clone(), true);
    let actions = sender.take(RunEvent::DataDone(Measured { bytes: 500, elapsed_ms: 60000 }));
    let Some(RunAction::Send(3, reported)) = actions.into_iter().next() else {
        panic!("the sender reports its result")
    };
    assert_eq!(sender.stage(), RunStage::AwaitingResult);
    receiver.take(RunEvent::Control(reported));
    let actions = receiver.take(RunEvent::DataDone(Measured { bytes: 500, elapsed_ms: 60100 }));
    assert_eq!(actions.len(), 3);
    assert!(matches!(actions[1], RunAction::MarkFinishing));
    assert!(matches!(actions[2], RunAction::Send(4, SpeedControl::Finished(_))));
    assert_eq!(receiver.stage(), RunStage::AwaitingFinish);
    sender.take(result_of(&granted, 500, 60100));
    sender.take(RunEvent::Control(SpeedControl::Finished(granted.clone())));
    receiver.take(RunEvent::Control(SpeedControl::Finished(granted.clone())));
    assert_eq!(sender.status(), SpeedStatus::Completed);
    assert_eq!(receiver.status(), SpeedStatus::Completed);
    assert_eq!(sender.result(), receiver.result());
    assert_eq!(sender.result(), Some(Measured { bytes: 500, elapsed_ms: 60100 }));
    assert_eq!(sender.outcome().unwrap().unwrap(), Measured { bytes: 500, elapsed_ms: 60100 });
    assert!(sender.take(RunEvent::CancelRequested).is_empty());
    assert_eq!(sender.stage(), RunStage::Completed);
}

#[test]
fn results_that_differ_fail_the_test() {
    let granted = lease(node(1));
    for (bytes, elapsed_ms) in [(499, 60000), (500, 0), (500, 120001)] {
        let mut run = SpeedRun::new(granted.clone(), false);
        run.take(RunEvent::DataDone(Measured { bytes: 500, elapsed_ms: 60000 }));
        run.take(result_of(&granted, bytes, elapsed_ms));
        assert_eq!(run.stage(), RunStage::Failed);
        assert_eq!(run.problem(), Some("测速结果字节数或耗时不符"));
        assert_eq!(run.result(), None);
        assert_eq!(run.outcome().unwrap().unwrap_err().text(), "测速结果字节数或耗时不符");
        assert_eq!(run.status(), SpeedStatus::Interrupted);
    }
    let mut run = SpeedRun::new(granted.clone(), false);
    run.take(RunEvent::DataDone(Measured { bytes: 500, elapsed_ms: 60000 }));
    run.take(result_of(&granted, 500, 120000));
    assert_eq!(run.stage(), RunStage::AwaitingFinish);
}

#[test]
fn either_end_can_cancel() {
    let granted = lease(node(1));
    let mut asking = SpeedRun::new(granted.clone(), false);
    let mut asked = SpeedRun::new(granted.clone(), true);
    let actions = asking.take(RunEvent::CancelRequested);
    assert!(matches!(actions[0], RunAction::MarkFinishing));
    assert!(matches!(actions[1], RunAction::Send(3, SpeedControl::Cancel(_))));
    let actions = asked.take(RunEvent::Control(SpeedControl::Cancel(granted.clone())));
    assert!(matches!(actions[1], RunAction::Send(3, SpeedControl::Finished(_))));
    assert!(matches!(actions[2], RunAction::CloseStream));
    assert_eq!(asked.status(), SpeedStatus::Cancelled);
    assert!(asking.take(result_of(&granted, 1, 1)).is_empty());
    asking.take(RunEvent::Control(SpeedControl::Finished(granted)));
    assert_eq!(asking.status(), SpeedStatus::Cancelled);
    for run in [&asking, &asked] {
        assert_eq!(run.problem(), Some("测速已取消"));
        assert_eq!(run.result(), None);
        assert_eq!(run.outcome().unwrap().unwrap_err().text(), "测速已取消");
    }
}

#[test]
fn streams_that_end_early_are_named_by_their_stage() {
    let granted = lease(node(1));
    let mut run = SpeedRun::new(granted.clone(), false);
    assert!(run.outcome().is_none());
    assert_eq!(run.stage().lost_stream(), "测速控制流关闭");
    run.take(RunEvent::DataDone(Measured { bytes: 5, elapsed_ms: 5 }));
    assert_eq!(run.stage().lost_stream(), "测速结果流关闭");
    run.take(result_of(&granted, 5, 5));
    assert_eq!(run.stage().lost_stream(), "测速完成流关闭");
    let mut run = SpeedRun::new(granted, false);
    run.take(RunEvent::CancelRequested);
    assert!(run.outcome().is_none());
    assert_eq!(run.stage().lost_stream(), "测速取消确认流关闭");
}

#[test]
fn controls_of_another_test_are_refused() {
    let granted = lease(node(1));
    let other = lease(node(1));
    let cases = [
        (RunEvent::Control(SpeedControl::Cancel(other.clone())), "测速数据阶段收到非法控制消息"),
        (result_of(&other, 1, 1), "测速数据阶段收到非法控制消息"),
    ];
    for (event, problem) in cases {
        let mut run = SpeedRun::new(granted.clone(), false);
        run.take(event);
        assert_eq!(run.problem(), Some(problem));
    }
    let mut run = SpeedRun::new(granted.clone(), false);
    run.take(RunEvent::DataDone(Measured { bytes: 5, elapsed_ms: 5 }));
    run.take(RunEvent::Control(SpeedControl::Finished(granted.clone())));
    assert_eq!(run.problem(), Some("测速结果身份或顺序不符"));
    let mut run = SpeedRun::new(granted.clone(), false);
    run.take(RunEvent::DataDone(Measured { bytes: 5, elapsed_ms: 5 }));
    run.take(result_of(&granted, 5, 5));
    run.take(result_of(&granted, 5, 5));
    assert_eq!(run.problem(), Some("测速完成身份或顺序不符"));
    let mut run = SpeedRun::new(granted.clone(), false);
    run.take(RunEvent::CancelRequested);
    run.take(RunEvent::Control(SpeedControl::Finished(other)));
    assert_eq!(run.problem(), Some("测速取消确认身份不符"));
}

#[test]
fn the_lower_node_prepares_its_own_tests() {
    let (lower, higher) = (node(1), node(2));
    assert!(grants_itself(lower, higher));
    assert!(!grants_itself(higher, lower));
    let mut activity = Activity::new();
    let mut peer = SpeedPeer::new(lower, higher);
    peer.begin_request().unwrap();
    assert_eq!(peer.begin_request().unwrap_err().text(), "测速请求正在进行");
    peer.end_request();
    let id = TaskId::generate();
    assert_eq!(peer.cancel(&id).unwrap_err().text(), "当前没有测速");
    let (granted, permit) = peer
        .prepare(&mut activity, lower, id.clone(), SpeedDirection::Upload, 60, None)
        .unwrap();
    assert_eq!(granted.test_id, id);
    assert_eq!(peer.source(&granted), lower);
    assert_eq!(peer.snapshot().unwrap().status, SpeedStatus::Running);
    assert!(activity.file(higher).is_err());
    let again = peer.prepare(
        &mut activity,
        lower,
        TaskId::generate(),
        SpeedDirection::Upload,
        60,
        None,
    );
    assert!(again.is_err());
    assert_eq!(peer.data_role(&granted, false).unwrap(), DataRole::Send);
    assert_eq!(
        peer.data_role(&granted, false).unwrap_err().text(),
        "测速数据流归属或令牌不符"
    );
    assert!(peer.observe(&granted, 10, 1_000_000_000, 400_000, false));
    assert!(!peer.observe(&granted, 20, 1_999_999_999, 400_000, false));
    assert!(peer.observe(&granted, 30, 2_000_000_000, 400_000, false));
    assert!(peer.observe(&granted, 40, 2_000_000_001, 400_000, true));
    let shown = peer.snapshot().unwrap();
    assert_eq!((shown.bytes, shown.elapsed_ns, shown.rtt_ns), (40, 2_000_000_001, 400_000));
    assert_eq!(peer.cancel(&TaskId::generate()).unwrap_err().text(), "测速任务已改变");
    peer.cancel(&id).unwrap();
    assert!(!peer.end(&lease(lower)));
    assert!(peer.end(&granted));
    activity.release_speed(permit);
    assert_eq!(peer.snapshot().unwrap().status, SpeedStatus::Interrupted);
    assert!(activity.file(higher).is_ok());
}

#[test]
fn the_higher_node_follows_a_grant() {
    let (lower, higher) = (node(1), node(2));
    let mut activity = Activity::new();
    let mut peer = SpeedPeer::new(higher, lower);
    let granted = lease(lower);
    let refused = peer.prepare(
        &mut activity,
        higher,
        TaskId::generate(),
        SpeedDirection::Upload,
        60,
        None,
    );
    assert!(refused.is_err());
    peer.prepare(
        &mut activity,
        lower,
        granted.test_id.clone(),
        SpeedDirection::Upload,
        60,
        Some(granted.clone()),
    )
    .unwrap();
    assert!(!peer.claim_stream(&SpeedControl::Granted(lease(lower))));
    assert!(!peer.claim_stream(&SpeedControl::Cancel(granted.clone())));
    assert_eq!(peer.data_role(&granted, true).unwrap(), DataRole::Receive);
    assert_eq!(peer.data_role(&granted, false).unwrap_err().text(), "测速接收归属不符");
    assert!(peer.claim_stream(&SpeedControl::Granted(granted.clone())));
    assert!(!peer.claim_stream(&SpeedControl::Granted(granted.clone())));
    peer.finishing(&granted);
    assert!(peer.is_finishing());
    peer.note_outcome(SpeedStatus::Completed);
    assert!(peer.end(&granted));
    assert_eq!(peer.snapshot().unwrap().status, SpeedStatus::Completed);
}

#[test]
fn answers_belong_to_their_request() {
    let local = node(1);
    let granted = lease(local);
    let id = granted.test_id.clone();
    let asked = |answer| check_grant(local, &id, SpeedDirection::Upload, 60, answer);
    assert_eq!(asked(SpeedControl::Granted(granted.clone())).unwrap().stream_token, 77);
    assert_eq!(
        asked(SpeedControl::Granted(lease(local))).unwrap_err().text(),
        "测速授权身份或顺序不符"
    );
    assert_eq!(
        asked(SpeedControl::Busy { test_id: id.clone() }).unwrap_err().text(),
        "对端文件或测速正在进行"
    );
    assert!(check_ready(&granted, &SpeedControl::Ready(granted.clone())).is_ok());
    assert_eq!(
        check_ready(&granted, &SpeedControl::Ready(lease(local))).unwrap_err().text(),
        "测速 Ready 身份或顺序不符"
    );
    let control = frame(Message::Speed(SpeedControl::Ready(granted.clone())), 2);
    assert_eq!(check_control(control, 3).unwrap_err().text(), "测速控制编号不符");
    let control = frame(Message::Speed(SpeedControl::Ready(granted)), 3);
    assert!(check_control(control, 3).is_ok());
    assert_eq!(result_millis(7), 7);
    assert_eq!(result_millis(u128::MAX), u64::MAX);
}

#[test]
fn tests_are_opened_by_the_right_end() {
    let (lower, higher) = (node(1), node(2));
    let request = || {
        Message::Speed(SpeedControl::Request {
            test_id: TaskId::generate(),
            direction: SpeedDirection::Download,
            seconds: 30,
        })
    };
    let opening = read_opening(lower, higher, frame(request(), 1)).unwrap();
    assert_eq!(opening.seconds, 30);
    assert!(opening.grant.is_none());
    assert_eq!(
        read_opening(higher, lower, frame(request(), 1)).unwrap_err().text(),
        "测速请求协调者或归属不符"
    );
    assert_eq!(
        read_opening(lower, higher, frame(request(), 2)).unwrap_err().text(),
        "测速首帧编号非法"
    );
    let granted = frame(Message::Speed(SpeedControl::Granted(lease(lower))), 1);
    assert!(read_opening(higher, lower, granted).unwrap().grant.is_some());
    let stranger = frame(Message::Speed(SpeedControl::Granted(lease(node(3)))), 1);
    assert!(read_opening(higher, lower, stranger).is_err());
}

#[test]
fn every_running_test_can_be_cancelled_at_once() {
    let (lower, higher) = (node(1), node(2));
    let mut activity = Activity::new();
    let mut peer = SpeedPeer::new(higher, lower);
    peer.cancel_all();
    let granted = lease(lower);
    peer.prepare(
        &mut activity,
        lower,
        granted.test_id.clone(),
        SpeedDirection::Upload,
        60,
        Some(granted.clone()),
    )
    .unwrap();
    assert!(activity.state.speed_active(lower));
    peer.cancel_all();
    assert!(!peer.claim_stream(&SpeedControl::Granted(granted)));
}
