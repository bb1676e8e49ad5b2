use p2p_desktop::chunker::manifest_from_bytes;
use p2p_desktop::error::{Error, IoErrorKind};
use p2p_desktop::identity::NodeId;
use p2p_desktop::manifest::{ChunkBitmap, ChunkHash, FileManifest, MIN_CHUNK_SIZE};
use p2p_desktop::protocol::{Entry, ErrorCode, Frame, Message, WireTaskState};
use p2p_desktop::secure_fs::{EntryKind, FileIdentity};
use p2p_desktop::task_model::{
    LocalPath, TaskDiagnostic, TaskDirection, TaskErrorCode, TaskId, TaskState,
};
use p2p_desktop::task_record::TaskRecord;
use p2p_desktop::task_store::{TaskStore, WriteOutcome};
use p2p_desktop::transfer::{
    check_continue_response, check_epoch, check_sendable, check_single_offer, continue_frame,
    continue_refusal, error_code, finish_error, input_timeout, is_storage_error, may_serve, receive_start,
    refusal_frame, remote_error, resume_plan, send_start, silence_error, stream_start, tasks_to_interrupt, ActiveTransfers, ReceiveStart, ResumePlan,
    SendStart, StreamStart, IDLE_TIMEOUT_MS, MAX_ACTIVE, MAX_STREAMS, PAUSE_TIMEOUT_MS, WINDOW,
};
use p2p_desktop::transfer_files::{
    accept_directory, accept_entry, accept_offer, begin_attempt, bound_task, check_bounded,
    check_source_chunk, check_source_path, cleanup_staging, open_download, plan_source_chunk, receive_selection_root, regular_file, select_file,
    source_below, source_parent, stage_parts, validate_single_file, verify_source, Acceptance,
    SourceParent, SourceReading,
};
use p2p_desktop::transfer_loops::{
    bytes_for, notes_progress, Receiver, Sender, TransferAction, TransferInput,
};

const HERE: FileIdentity = FileIdentity { volume: 1, index: 2 };
const ELSEWHERE: FileIdentity = FileIdentity { volume: 1, index: 3 };

fn node(byte: u8) -> NodeId {
    NodeId::from_hex(&format!("{byte:02x}{}", "00".repeat(15))).unwrap()
}

fn protocol(text: &str) -> Error {
    Error::Protocol(text.to_string())
}

fn io(kind: IoErrorKind) -> Error {
    Error::Io { kind, text: "broken".to_string() }
}

fn store() -> TaskStore {
    TaskStore::open(None, 0).unwrap().0
}

fn create(store: &mut TaskStore, record: TaskRecord) {
    let plan = store.plan_create(record).unwrap();
    store.finish(plan, WriteOutcome::Written).unwrap();
}

fn content(chunks: usize) -> Vec<u8> {
    (0..chunks * MIN_CHUNK_SIZE as usize - 1000).map(|at| (at % 251) as u8).collect()
}

fn manifest(name: &str, chunks: usize) -> FileManifest {
    manifest_from_bytes(name, MIN_CHUNK_SIZE, &content(chunks)).unwrap()
}

fn chunk(data: &[u8], index: u32) -> Vec<u8> {
    data.chunks(MIN_CHUNK_SIZE as usize).nth(index as usize).unwrap().to_vec()
}

/// Two ends and the frames between them.
struct Exchange {
    data: Vec<u8>,
    written: Vec<u32>,
    states: Vec<TaskState>,
    published: bool,
    receipt: bool,
    checkpoints: usize,
    sequence: u64,
}

impl Exchange {
    fn new(data: Vec<u8>) -> Exchange {
        Exchange {
            data,
            written: Vec::new(),
            states: Vec::new(),
            published: false,
            receipt: false,
            checkpoints: 0,
            sequence: 0,
        }
    }

    /// Does the steps and gives the frames that they send.
    fn perform(&mut self, id: &TaskId, actions: Vec<TransferAction>) -> Vec<Frame> {
        let mut frames = Vec::new();
        for action in actions {
            match action {
                TransferAction::Send(message) => {
                    self.sequence += 1;
                    frames.push(Frame { request_id: self.sequence, message });
                }
                TransferAction::SendChunk(index) => {
                    self.sequence += 1;
                    let data = chunk(&self.data, index);
                    let message = Message::Chunk { task_id: id.clone(), index, data };
                    frames.push(Frame { request_id: self.sequence, message });
                }
                TransferAction::WriteChunk(index, data) => {
                    assert_eq!(data, chunk(&self.data, index));
                    self.written.push(index);
                }
                TransferAction::Checkpoint => self.checkpoints += 1,
                TransferAction::SetState(state) => self.states.push(state),
                TransferAction::Publish => self.published = true,
                TransferAction::CommitReceipt => self.receipt = true,
                TransferAction::NoteProgress(_) | TransferAction::Finish => {}
            }
        }
        frames
    }
}

#[test]
fn a_file_is_sent_chunk_by_chunk() {
    let data = content(20);
    let manifest = manifest("a.bin", 20);
    let id = TaskId::generate();
    let mut exchange = Exchange::new(data);
    let mut present = ChunkBitmap::new(20);
    present.insert(3);
    let mut sender = Sender::new(id.clone(), manifest.duplicate());
    let (mut receiver, actions) = Receiver::begin(id.clone(), manifest.duplicate(), present);
    assert!(matches!(actions[1], TransferAction::NoteProgress(16384)));
    let mut to_sender = exchange.perform(&id, actions);
    while !exchange.receipt {
        let actions = receiver.turn();
        let mut frames = exchange.perform(&id, actions);
        to_sender.append(&mut frames);
        let mut to_receiver = Vec::new();
        for frame in std::mem::take(&mut to_sender) {
            let actions = sender.take(TransferInput::Received(frame), false).unwrap();
            to_receiver.append(&mut exchange.perform(&id, actions));
        }
        for frame in to_receiver {
            let actions = receiver.take(TransferInput::Received(frame), false).unwrap();
            to_sender.append(&mut exchange.perform(&id, actions));
        }
    }
    assert_eq!(exchange.written.len(), 19);
    assert!(!exchange.written.contains(&3));
    assert!(exchange.published);
    assert_eq!(exchange.states, vec![TaskState::Finalizing, TaskState::Finalizing]);
}

#[test]
fn progress_is_noted_with_chunks_only() {
    let id = TaskId::generate();
    let input = |message| TransferInput::Received(Frame { request_id: 1, message });
    assert!(notes_progress(&input(Message::ChunkAck { task_id: id.clone(), index: 0 })));
    assert!(notes_progress(&input(Message::Chunk {
        task_id: id.clone(),
        index: 0,
        data: vec![1],
    })));
    assert!(!notes_progress(&input(Message::Pause { task_id: id })));
    assert!(!notes_progress(&TransferInput::PauseRequested));
}

#[test]
fn requests_stay_within_the_window() {
    let manifest = manifest("a.bin", 40);
    let id = TaskId::generate();
    let (mut receiver, _) =
        Receiver::begin(id.clone(), manifest.duplicate(), ChunkBitmap::new(40));
    assert_eq!(receiver.turn().len(), WINDOW);
    assert!(receiver.turn().is_empty());
    let mut sender = Sender::new(id.clone(), manifest);
    let resume = Message::Resume {
        task_id: id.clone(),
        root_hash: ChunkHash::of(b"x"),
        have: vec![0; 5],
    };
    let input = |message| TransferInput::Received(Frame { request_id: 1, message });
    let ask = |index| Message::RequestChunk { task_id: id.clone(), index };
    assert_eq!(
        sender.take(input(ask(0)), false).unwrap_err().text(),
        "重复或未授权分片请求"
    );
    sender.take(input(resume), false).unwrap();
    for index in 0..WINDOW as u32 {
        sender.take(input(ask(index)), false).unwrap();
    }
    assert_eq!(
        sender.take(input(ask(WINDOW as u32)), false).unwrap_err().text(),
        "重复或未授权分片请求"
    );
    let acknowledge = |index| Message::ChunkAck { task_id: id.clone(), index };
    sender.take(input(acknowledge(0)), false).unwrap();
    assert_eq!(
        sender.take(input(acknowledge(0)), false).unwrap_err().text(),
        "重复或未知分片确认"
    );
    assert_eq!(sender.take(input(ask(40)), false).unwrap_err().text(), "分片索引非法");
    let failed = Message::Error { task_id: id.clone(), code: ErrorCode::Storage };
    assert_eq!(sender.take(input(failed), false).unwrap_err().text(), "对端存储不可用");
    let odd = Message::Chunk { task_id: id.clone(), index: 0, data: vec![1] };
    assert_eq!(sender.take(input(odd), false).unwrap_err().text(), "发送任务收到非法消息");
    let short = Message::Resume {
        task_id: id.clone(),
        root_hash: ChunkHash::of(b"x"),
        have: vec![0; 4],
    };
    assert_eq!(
        sender.take(input(short), false).unwrap_err().text(),
        "恢复位图长度或未用位非法"
    );
}

#[test]
fn chunks_are_checked_when_they_come() {
    let data = content(2);
    let manifest = manifest("a.bin", 2);
    let id = TaskId::generate();
    let (mut receiver, _) = Receiver::begin(id.clone(), manifest, ChunkBitmap::new(2));
    let input = |index, data| {
        let message = Message::Chunk { task_id: id.clone(), index, data };
        TransferInput::Received(Frame { request_id: 1, message })
    };
    assert_eq!(
        receiver.take(input(0, chunk(&data, 0)), false).unwrap_err().text(),
        "收到未请求或重复的分片"
    );
    receiver.turn();
    let mut damaged = chunk(&data, 0);
    damaged[5] ^= 1;
    assert_eq!(
        receiver.take(input(0, damaged), false).unwrap_err().text(),
        "接收分片校验失败"
    );
    let actions = receiver.take(input(0, chunk(&data, 0)), true).unwrap();
    assert!(matches!(actions[2], TransferAction::NoteProgress(16384)));
    let message = Message::RequestChunk { task_id: id.clone(), index: 0 };
    let odd = TransferInput::Received(Frame { request_id: 1, message });
    assert_eq!(receiver.take(odd, false).unwrap_err().text(), "接收任务收到非法消息");
}

#[test]
fn a_pause_waits_for_the_checkpoint() {
    let data = content(2);
    let manifest = manifest("a.bin", 2);
    let id = TaskId::generate();
    let mut exchange = Exchange::new(data.clone());
    let (mut receiver, _) = Receiver::begin(id.clone(), manifest, ChunkBitmap::new(2));
    receiver.turn();
    let pause = Frame { request_id: 9, message: Message::Pause { task_id: id.clone() } };
    let actions = receiver.take(TransferInput::Received(pause), false).unwrap();
    assert!(exchange.perform(&id, actions).is_empty());
    assert_eq!(exchange.states, vec![TaskState::Pausing]);
    assert!(receiver.is_pausing());
    assert!(receiver.turn().is_empty());
    for index in [0, 1] {
        if index == 1 {
            assert!(receiver.settle(Some(WireTaskState::Paused)).is_empty());
        }
        let message = Message::Chunk { task_id: id.clone(), index, data: chunk(&data, index) };
        let input = TransferInput::Received(Frame { request_id: 10, message });
        let actions = receiver.take(input, false).unwrap();
        exchange.perform(&id, actions);
    }
    let actions = receiver.turn();
    exchange.perform(&id, actions);
    assert!(exchange.published);

    let manifest = self::manifest("a.bin", 40);
    let data = content(40);
    let (mut receiver, _) = Receiver::begin(id.clone(), manifest, ChunkBitmap::new(40));
    let mut exchange = Exchange::new(data.clone());
    receiver.turn();
    let pause = Frame { request_id: 9, message: Message::Pause { task_id: id.clone() } };
    receiver.take(TransferInput::Received(pause), false).unwrap();
    for index in 0..WINDOW as u32 {
        let message = Message::Chunk { task_id: id.clone(), index, data: chunk(&data, index) };
        let input = TransferInput::Received(Frame { request_id: 10, message });
        receiver.take(input, false).unwrap();
    }
    let actions = receiver.turn();
    let frames = exchange.perform(&id, actions);
    assert_eq!(exchange.checkpoints, 1);
    assert_eq!(
        frames[0].message,
        Message::Paused { task_id: id.clone(), pause_request_id: 9 }
    );
    let actions = receiver.settle(Some(WireTaskState::Paused));
    exchange.perform(&id, actions);
    assert_eq!(exchange.states, vec![TaskState::Paused]);
}

#[test]
fn a_sender_that_pauses_early_asks_after_the_receiver_spoke() {
    let manifest = manifest("a.bin", 2);
    let id = TaskId::generate();
    let mut sender = Sender::new(id.clone(), manifest.duplicate());
    let actions = sender.take(TransferInput::PauseRequested, false).unwrap();
    assert_eq!(actions.len(), 1);
    let (_, actions) = Receiver::begin(id.clone(), manifest, ChunkBitmap::new(2));
    let mut exchange = Exchange::new(Vec::new());
    let frame = exchange.perform(&id, actions).remove(0);
    let actions = sender.take(TransferInput::Received(frame), false).unwrap();
    assert!(matches!(actions[1], TransferAction::Send(Message::Pause { .. })));
    assert!(sender.is_pausing());
    assert!(sender.before_input(Some(WireTaskState::Paused)).len() == 2);
    assert!(sender.before_input(None).is_empty());
}

#[test]
fn marked_chunks_are_counted_by_bytes() {
    let manifest = manifest("a.bin", 3);
    let mut present = ChunkBitmap::new(3);
    assert_eq!(bytes_for(&manifest, &present), 0);
    present.insert(2);
    assert_eq!(bytes_for(&manifest, &present), 15384);
    present.insert(0);
    present.insert(1);
    assert_eq!(bytes_for(&manifest, &present), manifest.total_len);
}

#[test]
fn failures_have_codes_that_keep_their_meaning() {
    let cases = [
        (protocol("源文件内容已变化或超过资源上限"), ErrorCode::SourceChanged),
        (protocol("源文件不可用"), ErrorCode::SourceMissing),
        (protocol("存储条目不是普通文件"), ErrorCode::Storage),
        (protocol("发布内容校验失败"), ErrorCode::Storage),
        (io(IoErrorKind::PermissionDenied), ErrorCode::Storage),
        (io(IoErrorKind::ConnectionReset), ErrorCode::Interrupted),
        (protocol("对端离线"), ErrorCode::Interrupted),
    ];
    for (error, code) in cases {
        assert_eq!(error_code(&error), code);
        assert_eq!(error_code(&remote_error(code)), code);
    }
    assert!(is_storage_error(&protocol("接收根目录变化")));
    assert!(!is_storage_error(&io(IoErrorKind::UnexpectedEof)));
    assert_eq!(remote_error(ErrorCode::UnknownTask).text(), "对端传输中断");
}

#[test]
fn failed_transfers_can_be_tried_again_unless_the_source_changed() {
    let outcome = finish_error(TaskState::Transferring, &protocol("源文件内容已变化")).unwrap();
    assert_eq!(outcome.state, TaskState::Failed);
    assert_eq!(
        outcome.diagnostic,
        TaskDiagnostic { code: TaskErrorCode::SourceChanged, retryable: false }
    );
    let outcome = finish_error(TaskState::Transferring, &protocol("源文件不可用")).unwrap();
    assert!(outcome.diagnostic.retryable);
    let outcome = finish_error(TaskState::Pausing, &silence_error(true)).unwrap();
    assert_eq!(outcome.state, TaskState::Interrupted);
    assert_eq!(outcome.diagnostic.code, TaskErrorCode::NetworkInterrupted);
    assert!(finish_error(TaskState::Completed, &silence_error(false)).is_none());
    assert!(finish_error(TaskState::Interrupted, &silence_error(false)).is_none());
}

#[test]
fn one_peer_has_one_transfer() {
    let mut transfers = ActiveTransfers::new();
    let ids: Vec<TaskId> = (0..=MAX_ACTIVE).map(|_| TaskId::generate()).collect();
    for at in 0..MAX_ACTIVE {
        transfers.claim(node(at as u8 + 1), &ids[at]).unwrap();
    }
    assert!(transfers.is_active(&ids[0]));
    assert_eq!(
        transfers.claim(node(99), &ids[MAX_ACTIVE]).unwrap_err().text(),
        "已有文件任务活动，请稍后继续"
    );
    transfers.release(&ids[0]);
    assert!(!transfers.is_active(&ids[0]));
    assert!(transfers.claim(node(2), &ids[0]).is_err());
    transfers.claim(node(1), &ids[0]).unwrap();
    assert!(check_epoch(3, 3).is_ok());
    assert_eq!(check_epoch(3, 4).unwrap_err().text(), "旧传输会话已取消");
    assert!(may_serve(MAX_STREAMS - 1));
    assert!(!may_serve(MAX_STREAMS));
}

#[test]
fn waiting_is_bounded() {
    assert_eq!(input_timeout(None).unwrap(), IDLE_TIMEOUT_MS);
    assert_eq!(input_timeout(Some(100)).unwrap(), PAUSE_TIMEOUT_MS - 100);
    assert_eq!(input_timeout(Some(PAUSE_TIMEOUT_MS)).unwrap_err().text(), "暂停确认超时");
    assert_eq!(silence_error(false).text(), "文件传输超时");
}

#[test]
fn streams_start_with_an_offer_or_a_continue() {
    let id = TaskId::generate();
    let file = |group_id| Message::Offer {
        task_id: id.clone(),
        group_id,
        relative_path: "a.bin".to_string(),
        entry: Entry::File(manifest("a.bin", 1)),
    };
    let offer = Frame { request_id: 1, message: file(None) };
    assert_eq!(stream_start(&offer).unwrap(), StreamStart::Receive);
    assert!(check_single_offer(&offer).is_ok());
    let grouped = Frame { request_id: 1, message: file(Some(TaskId::generate())) };
    assert_eq!(check_single_offer(&grouped).unwrap_err().text(), "本阶段仅接受单文件任务");
    let again = |request_id| Frame {
        request_id,
        message: Message::ResumeTask { task_id: id.clone() },
    };
    assert_eq!(stream_start(&again(1)).unwrap(), StreamStart::Continue);
    assert!(stream_start(&again(2)).is_err());
    assert!(check_continue_response(&id, &again(1)).is_ok());
    assert_eq!(
        check_continue_response(&TaskId::generate(), &again(1)).unwrap_err().text(),
        "继续响应身份不符"
    );
    assert!(check_continue_response(&id, &continue_frame(&id)).is_ok());
    let refused = refusal_frame(&id, ErrorCode::SourceChanged);
    assert_eq!(check_continue_response(&id, &refused).unwrap_err().text(), "源文件内容已变化");
}

#[test]
fn tasks_are_continued_by_their_sender() {
    let source = LocalPath::new("/home/user/a.bin");
    let mut record = select_file(node(2), source, manifest("a.bin", 1), 10).unwrap();
    assert_eq!(record.direction(), TaskDirection::Send);
    assert!(check_sendable(&record).is_ok());
    let SendStart::Offer(Message::Offer { task_id, group_id, relative_path, entry }) =
        send_start(&record).unwrap()
    else {
        panic!("a file is offered")
    };
    assert_eq!(&task_id, record.task_id());
    assert_eq!(group_id, None);
    assert_eq!(relative_path, "a.bin");
    assert_eq!(entry, Entry::File(manifest("a.bin", 1)));
    assert_eq!(continue_refusal(None), Some(ErrorCode::UnknownTask));
    assert_eq!(continue_refusal(Some(&record)), Some(ErrorCode::InvalidState));
    assert_eq!(resume_plan(&record).unwrap(), ResumePlan::SendAgain);
    record.transition_to(TaskState::Interrupted, None, 11).unwrap();
    assert_eq!(continue_refusal(Some(&record)), None);
    let mut failed = select_file(
        node(2),
        LocalPath::new("/home/user/a.bin"),
        manifest("a.bin", 1),
        10,
    )
    .unwrap();
    let diagnostic = TaskDiagnostic { code: TaskErrorCode::SourceChanged, retryable: false };
    failed.transition_to(TaskState::Failed, Some(diagnostic), 11).unwrap();
    assert_eq!(continue_refusal(Some(&failed)), Some(ErrorCode::SourceChanged));
}

#[test]
fn running_tasks_are_interrupted_when_the_session_ends() {
    let mut store = store();
    let record = select_file(
        node(2),
        LocalPath::new("/home/user/a.bin"),
        manifest("a.bin", 1),
        10,
    )
    .unwrap();
    let id = record.task_id().clone();
    create(&mut store, record);
    assert_eq!(tasks_to_interrupt(&store), vec![id.clone()]);
    let plan = store.plan_transition(&id, TaskState::Interrupted, None, 20).unwrap();
    store.finish(plan, WriteOutcome::Written).unwrap();
    assert!(tasks_to_interrupt(&store).is_empty());
}

#[test]
fn changed_missing_source_and_wrong_peer_are_rejected() {
    let mut store = store();
    let described = manifest("selected.bin", 2);
    let source = LocalPath::new("/home/user/selected.bin");
    let record = select_file(node(2), source, described.duplicate(), 10).unwrap();
    let id = record.task_id().clone();
    let same = SourceReading {
        length: described.total_len,
        manifest: described.duplicate(),
        opened: HERE,
        current: HERE,
    };
    assert!(verify_source(&record, &same).is_ok());
    let changed = SourceReading {
        manifest: manifest_from_bytes("selected.bin", MIN_CHUNK_SIZE, &b"replacement".to_vec()).unwrap(),
        ..same
    };
    assert_eq!(verify_source(&record, &changed).unwrap_err().text(), "源文件内容已变化");
    let replaced = SourceReading {
        length: described.total_len,
        manifest: described.duplicate(),
        opened: HERE,
        current: ELSEWHERE,
    };
    assert_eq!(verify_source(&record, &replaced).unwrap_err().text(), "源文件内容已变化");
    create(&mut store, record);
    assert_eq!(
        bound_task(&store, node(3), &id).unwrap_err().text(),
        "任务未授权给该对端"
    );
    assert_eq!(bound_task(&store, node(2), &id).unwrap().task_id(), &id);
    assert!(bound_task(&store, node(2), &TaskId::generate()).is_err());
}

#[test]
fn longest_portable_basename_uses_fixed_staging_names() {
    let name = format!("{}.bin", "a".repeat(251));
    assert_eq!(name.len(), 255);
    let described = manifest_from_bytes(&name, MIN_CHUNK_SIZE, &vec![7]).unwrap();
    validate_single_file(&described, &name).unwrap();
    let accepted = accept_offer(
        &store(),
        node(2),
        &TaskId::generate(),
        &LocalPath::new("/home/user/receive"),
        name,
        described,
        10,
    )
    .unwrap();
    let Acceptance::Create(record) = accepted else {
        panic!("a new task")
    };
    assert_eq!(
        stage_parts(&record),
        vec![
            ".p2p-desktop".to_string(),
            node(2).to_hex(),
            record.task_id().as_str().to_string()
        ]
    );
    assert_eq!(
        cleanup_staging(&record).unwrap(),
        vec!["publish.json", "data.part", "data.bitmap"]
    );
    assert_eq!(send_start(&record).unwrap_err().text(), "只能发送本机已选择任务");
    assert!(matches!(receive_start(&record).unwrap(), ReceiveStart::Download));
    let (parts, staged) = open_download(&record).unwrap();
    assert_eq!(parts, stage_parts(&record));
    assert_eq!(staged.total_len, 1);
}

#[test]
fn offers_are_accepted_once_and_resumed_after() {
    let mut store = store();
    let root = LocalPath::new("/home/user/receive");
    let moved = LocalPath::new("/home/user/other");
    let id = TaskId::generate();
    let group = TaskId::generate();
    let offered = |store: &TaskStore, peer, name: &str, group: Option<TaskId>| {
        accept_entry(
            store,
            peer,
            &id,
            &root,
            name.to_string(),
            manifest("a.bin", 1),
            group,
            10,
        )
    };
    let Acceptance::Create(record) =
        offered(&store, node(2), "top/a.bin", Some(group.clone())).unwrap()
    else {
        panic!("a new task")
    };
    create(&mut store, record);
    assert!(matches!(
        offered(&store, node(2), "top/a.bin", Some(group.clone())),
        Ok(Acceptance::Resume(_))
    ));
    assert_eq!(
        offered(&store, node(2), "other/a.bin", Some(group.clone())).unwrap_err().text(),
        "已有任务与 Offer 身份不符"
    );
    assert_eq!(
        offered(&store, node(3), "top/a.bin", Some(group.clone())).unwrap_err().text(),
        "任务未授权给该对端"
    );
    let directory = accept_directory(
        &store,
        node(2),
        &id,
        &root,
        "top/a.bin".to_string(),
        Some(group.clone()),
        10,
    );
    assert_eq!(directory.unwrap_err().text(), "已有目录任务与 Offer 不符");
    let chosen = receive_selection_root(&store, node(2), &Some(group), &moved);
    assert_eq!(format!("{chosen:?}"), format!("{root:?}"));
    let chosen = receive_selection_root(&store, node(2), &None, &moved);
    assert_eq!(format!("{chosen:?}"), format!("{moved:?}"));
}

#[test]
fn receipts_are_told_again_instead_of_published_twice() {
    let mut store = store();
    let id = TaskId::generate();
    let root = LocalPath::new("/home/user/receive");
    let described = manifest("a.bin", 1);
    let root_hash = described.root_hash;
    let Acceptance::Create(record) =
        accept_offer(&store, node(2), &id, &root, "a.bin".to_string(), described, 10).unwrap()
    else {
        panic!("a new task")
    };
    create(&mut store, record);
    let mut now = 10;
    for state in [
        TaskState::Queued,
        TaskState::Connecting,
        TaskState::Negotiating,
        TaskState::Transferring,
        TaskState::Finalizing,
    ] {
        now += 1;
        let plan = store.plan_transition(&id, state, None, now).unwrap();
        store.finish(plan, WriteOutcome::Written).unwrap();
    }
    let plan = store.plan_commit_receipt(&id, 20).unwrap();
    store.finish(plan, WriteOutcome::Written).unwrap();
    let record = store.task(&id).unwrap();
    assert_eq!(record.state(), TaskState::Completed);
    let ReceiveStart::Replay(message) = receive_start(&record).unwrap() else {
        panic!("the receipt is told again")
    };
    assert_eq!(message, Message::Completed { task_id: id, root_hash, receipt_version: 1 });
}

#[test]
fn attempts_start_over_from_where_the_task_stands() {
    assert!(begin_attempt(TaskState::Completed).is_empty());
    assert_eq!(
        begin_attempt(TaskState::Paused),
        vec![TaskState::Queued, TaskState::Connecting, TaskState::Negotiating]
    );
    assert_eq!(
        begin_attempt(TaskState::Queued),
        vec![TaskState::Connecting, TaskState::Negotiating]
    );
}

#[test]
fn sources_are_read_where_they_were_selected() {
    let root = LocalPath::new("/home/user/top");
    let local = LocalPath::new("/home/user/top/nested/a.bin");
    let (parts, name) = source_below("top/nested/a.bin", &root, &local).unwrap();
    assert_eq!(parts, vec!["nested".to_string()]);
    assert_eq!(name, "a.bin");
    let record =
        select_file(node(2), local.duplicate(), manifest("a.bin", 1), 10).unwrap();
    assert!(matches!(source_parent(&record).unwrap(), SourceParent::Alone { .. }));
    let outside = LocalPath::new("/home/user/a.bin");
    assert_eq!(
        source_below("top/nested/a.bin", &root, &outside).unwrap_err().text(),
        "目录源绑定非法"
    );
    assert_eq!(
        check_source_path(&LocalPath::new("a.bin")).unwrap_err().text(),
        "源路径必须为绝对 UTF-8 路径"
    );
    assert!(regular_file(EntryKind::File).is_ok());
    assert!(regular_file(EntryKind::Link).is_err());
    assert!(check_bounded(10, 10).is_ok());
    assert!(check_bounded(11, 10).is_err());
    let data = content(2);
    let described = manifest("a.bin", 2);
    assert_eq!(
        plan_source_chunk(&described, 1, described.total_len, HERE, HERE).unwrap(),
        (16384, 15384)
    );
    assert!(plan_source_chunk(&described, 2, described.total_len, HERE, HERE).is_err());
    assert_eq!(
        plan_source_chunk(&described, 1, described.total_len, HERE, ELSEWHERE)
            .unwrap_err()
            .text(),
        "源文件内容已变化"
    );
    assert!(check_source_chunk(&described, 0, &chunk(&data, 0)).is_ok());
    assert!(check_source_chunk(&described, 1, &chunk(&data, 0)).is_err());
}
