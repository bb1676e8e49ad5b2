use p2p_desktop::error::Error;
use p2p_desktop::identity::NodeId;
use p2p_desktop::manifest::{root_hash_of, ChunkBitmap, ChunkHash, FileManifest, MIN_CHUNK_SIZE};
use p2p_desktop::protocol::{
    hello_frame, ready_frame, Actor, Entry, ErrorCode, Frame, Message, Negotiation, TaskProtocol,
    WireTaskState, CAP_TASK_PROTOCOL, MAX_CHUNKS, MAX_FRAME_BYTES, MAX_TASKS_PER_PEER,
    REQUIRED_CAPABILITIES, VERSION,
};
use p2p_desktop::speed_control::{SpeedArbiter, SpeedControl, SpeedDirection, SpeedLease};
use p2p_desktop::task_model::TaskId;
use p2p_desktop::wire::{frame_header, read_header};

const MAGIC: &[u8; 5] = b"P2PD\x01";

fn node() -> NodeId {
    NodeId { value: rand::random() }
}

fn task() -> TaskId {
    TaskId::parse("00112233445566778899aabbccddeeff").unwrap()
}

fn offer(id: TaskId) -> Frame {
    Frame {
        request_id: 1,
        message: Message::Offer {
            task_id: id,
            group_id: None,
            relative_path: "选定目录/empty.txt".into(),
            entry: Entry::File(
                FileManifest::new("empty.txt", 0, MIN_CHUNK_SIZE, vec![]).unwrap(),
            ),
        },
    }
}

fn pause(request_id: u64) -> Frame {
    Frame { request_id, message: Message::Pause { task_id: task() } }
}

fn transferring() -> (NodeId, TaskProtocol, ChunkHash) {
    let peer = node();
    let mut gate = TaskProtocol::new(peer);
    let frame = offer(task());
    let root = if let Message::Offer { entry, relative_path, .. } = &frame.message {
        entry.identity(relative_path).0
    } else {
        unreachable!()
    };
    gate.observe(peer, Actor::Local, &frame).unwrap();
    gate.observe(
        peer,
        Actor::Remote,
        &Frame {
            request_id: 1,
            message: Message::Resume { task_id: task(), root_hash: root, have: vec![] },
        },
    )
    .unwrap();
    (peer, gate, root)
}

#[test]
fn golden_desktop_frames_and_legacy_discriminants_are_stable() {
    let hello = Frame {
        request_id: 0,
        message: Message::Hello { version: VERSION, capabilities: REQUIRED_CAPABILITIES },
    };
    assert_eq!(hello.encode().unwrap(), b"P2PD\x01\x00\x00\x01\x0f");
    assert_eq!(
        Frame { request_id: 0, message: Message::Ready }.encode().unwrap(),
        b"P2PD\x01\x00\x01"
    );
    let resume = Frame { request_id: 7, message: Message::ResumeTask { task_id: task() } };
    let mut expected = b"P2PD\x01\x07\x06\x20".to_vec();
    expected.extend_from_slice(task().as_str().as_bytes());
    assert_eq!(resume.encode().unwrap(), expected);
    assert_eq!(Frame::decode(&expected).unwrap(), resume);
    for legacy in [vec![3], vec![15], vec![17], vec![18, 1, 2]] {
        assert!(Frame::decode(&legacy).is_err());
    }
}

#[test]
fn malicious_manifest_path_trailing_bytes_and_bitmap_are_rejected() {
    let root_hash = root_hash_of("empty.txt", 0, 0, &vec![]);
    let mut root = [0u8; 32];
    root.copy_from_slice(&root_hash.to_bytes());
    let file = ("empty.txt", 0u64, 0u32, Vec::<[u8; 32]>::new(), root);
    let offered = (task().as_str().to_string(), None::<String>, "选定目录/empty.txt", 0u32, file);
    let mut raw = MAGIC.to_vec();
    raw.extend(postcard::to_allocvec(&(1u64, 2u32, offered)).unwrap());
    assert!(Frame::decode(&raw).is_err());
    let mut valid = offer(task()).encode().unwrap();
    valid.push(0);
    assert!(Frame::decode(&valid).is_err());
    let mut frame = offer(task());
    if let Message::Offer { relative_path, .. } = &mut frame.message {
        *relative_path = "private/other.txt".into();
    }
    assert!(frame.encode().is_err());
    assert!(
        Frame {
            request_id: 1,
            message: Message::Resume {
                task_id: task(),
                root_hash: ChunkHash::of(b"x"),
                have: vec![0; MAX_CHUNKS.div_ceil(8) + 1]
            }
        }
        .encode()
        .is_err()
    );
}

#[test]
fn oversized_length_header_fails_without_waiting_for_payload() {
    let error = read_header((MAX_FRAME_BYTES + 1).to_le_bytes()).unwrap_err();
    assert!(matches!(error, Error::Protocol(_)));
    assert_eq!(read_header(MAX_FRAME_BYTES.to_le_bytes()).unwrap(), MAX_FRAME_BYTES);
    assert_eq!(frame_header(0x0102_0304), [4, 3, 2, 1]);
}

#[test]
fn capability_exchange_requires_both_hello_and_ready() {
    let first = Frame::decode(&hello_frame().encode().unwrap()).unwrap();
    let second = Frame::decode(&ready_frame().encode().unwrap()).unwrap();
    let waiting = Negotiation::AwaitHello.receive(&first.message).unwrap();
    assert_eq!(waiting, Negotiation::AwaitReady);
    assert_eq!(waiting.receive(&second.message).unwrap(), Negotiation::Agreed);
    assert!(waiting.receive(&first.message).is_err());
    assert!(Negotiation::AwaitHello.receive(&second.message).is_err());
    assert!(Negotiation::Agreed.receive(&second.message).is_err());
}

#[test]
fn unsupported_version_missing_capability_and_old_cli_are_explicit_errors() {
    for message in [
        Message::Hello { version: 99, capabilities: REQUIRED_CAPABILITIES },
        Message::Hello { version: VERSION, capabilities: CAP_TASK_PROTOCOL },
    ] {
        let bytes = Frame { request_id: 0, message }.encode().unwrap();
        let received = Frame::decode(&bytes).unwrap();
        assert!(matches!(
            Negotiation::AwaitHello.receive(&received.message),
            Err(Error::Protocol(_))
        ));
    }
    assert!(matches!(Frame::decode(&[3]), Err(Error::Protocol(_))));
}

fn round_trip(request_id: u64, message: Message, kind: u32, fields: Vec<u8>) {
    let frame = Frame { request_id, message };
    let mut expected = MAGIC.to_vec();
    expected.extend(postcard::to_allocvec(&(request_id, kind)).unwrap());
    expected.extend(fields);
    let bytes = frame.encode().unwrap();
    assert_eq!(bytes, expected);
    assert_eq!(Frame::decode(&bytes).unwrap(), frame);
    let mut longer = bytes.clone();
    longer.push(0);
    assert!(Frame::decode(&longer).is_err());
    assert!(Frame::decode(&bytes[..bytes.len() - 1]).is_err());
}

#[test]
fn every_message_is_written_field_by_field_and_reads_back() {
    let id = || task().as_str().to_string();
    let hash = ChunkHash::of(b"content");
    let mut root = [0u8; 32];
    root.copy_from_slice(&hash.to_bytes());
    round_trip(
        3,
        Message::Resume { task_id: task(), root_hash: hash, have: vec![255, 1] },
        3,
        postcard::to_allocvec(&(id(), root, vec![255u8, 1])).unwrap(),
    );
    round_trip(
        300,
        Message::Paused { task_id: task(), pause_request_id: u64::MAX },
        5,
        postcard::to_allocvec(&(id(), u64::MAX)).unwrap(),
    );
    round_trip(
        9,
        Message::Completed { task_id: task(), root_hash: hash, receipt_version: 1 },
        7,
        postcard::to_allocvec(&(id(), root, 1u16)).unwrap(),
    );
    round_trip(
        9,
        Message::Error { task_id: task(), code: ErrorCode::Storage },
        8,
        postcard::to_allocvec(&(id(), 10u32)).unwrap(),
    );
    round_trip(
        9,
        Message::Chunk { task_id: task(), index: 70_000, data: vec![7; 1000] },
        11,
        postcard::to_allocvec(&(id(), 70_000u32, vec![7u8; 1000])).unwrap(),
    );
    round_trip(
        9,
        Message::RequestChunk { task_id: task(), index: 5 },
        10,
        postcard::to_allocvec(&(id(), 5u32)).unwrap(),
    );
    round_trip(
        9,
        Message::ChunkAck { task_id: task(), index: 5 },
        12,
        postcard::to_allocvec(&(id(), 5u32)).unwrap(),
    );
    let manifest = FileManifest::new("a.bin", 20_000, MIN_CHUNK_SIZE, vec![hash, hash]).unwrap();
    let mut whole = [0u8; 32];
    whole.copy_from_slice(&manifest.root_hash.to_bytes());
    let file = ("a.bin", 20_000u64, MIN_CHUNK_SIZE, vec![root, root], whole);
    round_trip(
        1,
        Message::Offer {
            task_id: task(),
            group_id: Some(task()),
            relative_path: "目录/a.bin".into(),
            entry: Entry::File(manifest),
        },
        2,
        postcard::to_allocvec(&(id(), Some(id()), "目录/a.bin", 0u32, file)).unwrap(),
    );
    round_trip(
        1,
        Message::Offer {
            task_id: task(),
            group_id: None,
            relative_path: "目录".into(),
            entry: Entry::Directory,
        },
        2,
        postcard::to_allocvec(&(id(), None::<String>, "目录", 1u32)).unwrap(),
    );
    let owner = NodeId { value: 0x0102_0304_0506_0708_090a_0b0c_0d0e_0f10 };
    let lease = SpeedLease {
        test_id: task(),
        owner,
        direction: SpeedDirection::Download,
        seconds: 600,
        stream_token: 9,
    };
    let plain = (id(), owner.value.to_be_bytes(), 1u32, 600u16, 9u128.to_be_bytes());
    round_trip(
        2,
        Message::Speed(SpeedControl::Result { lease: lease.clone(), bytes: 1, elapsed_ms: 2 }),
        9,
        postcard::to_allocvec(&(6u32, plain.clone(), 1u64, 2u64)).unwrap(),
    );
    round_trip(
        2,
        Message::Speed(SpeedControl::Cancel(lease)),
        9,
        postcard::to_allocvec(&(3u32, plain)).unwrap(),
    );
    round_trip(
        1,
        Message::Speed(SpeedControl::Request {
            test_id: task(),
            direction: SpeedDirection::Upload,
            seconds: 30,
        }),
        9,
        postcard::to_allocvec(&(0u32, id(), 0u32, 30u16)).unwrap(),
    );
    round_trip(
        1,
        Message::Speed(SpeedControl::Busy { test_id: task() }),
        9,
        postcard::to_allocvec(&(2u32, id())).unwrap(),
    );
}

#[test]
fn damaged_frames_are_refused_as_such() {
    let text = |bytes: &[u8]| Frame::decode(bytes).unwrap_err().text().to_string();
    assert_eq!(text(b"P2PX\x01\x00\x01"), "对端不支持桌面协议");
    assert_eq!(text(b"P2PD\x01\x00"), "桌面帧编码非法");
    assert_eq!(text(b"P2PD\x01\x00\x0d"), "桌面帧编码非法");
    assert_eq!(text(b"P2PD\x01\x00\x01\x00"), "桌面帧含多余字节");
    assert_eq!(text(b"P2PD\x01\x01\x01"), "桌面请求编号非法");
    assert_eq!(text(&vec![0; MAX_FRAME_BYTES as usize + 1]), "桌面帧超限");
    // A number may be longer than it has to be, as long as it fits its type.
    assert_eq!(
        Frame::decode(b"P2PD\x01\x80\x00\x81\x00").unwrap(),
        Frame { request_id: 0, message: Message::Ready }
    );
    assert_eq!(text(b"P2PD\x01\x00\x81\x80\x80\x80\x80\x00"), "桌面帧编码非法");
    let mut wrong_id = b"P2PD\x01\x07\x06\x20".to_vec();
    wrong_id.extend_from_slice(b"00112233445566778899AABBCCDDEEFF");
    assert_eq!(text(&wrong_id), "桌面帧编码非法");
    let mut not_text = b"P2PD\x01\x07\x06\x01".to_vec();
    not_text.push(0xff);
    assert_eq!(text(&not_text), "桌面帧编码非法");
}

#[test]
fn frames_above_the_limit_are_not_written() {
    let frame = Frame {
        request_id: 1,
        message: Message::Chunk {
            task_id: task(),
            index: 0,
            data: vec![0; MAX_FRAME_BYTES as usize],
        },
    };
    assert_eq!(frame.encode().unwrap_err().text(), "桌面帧超限");
}

#[test]
fn bitmaps_of_received_chunks_are_checked() {
    let mut bitmap = ChunkBitmap::new(10);
    assert!(bitmap.insert(9));
    assert!(!bitmap.insert(9));
    assert_eq!(bitmap.to_bytes(), vec![0, 2]);
    assert_eq!(bitmap.count_set(), 1);
    assert!(ChunkBitmap::from_bytes(10, &vec![0, 4]).is_err());
    assert!(ChunkBitmap::from_bytes(10, &vec![0]).is_err());
    assert!(ChunkBitmap::from_bytes(10, &vec![0, 2]).unwrap().has(9));
}

#[test]
fn peer_task_sequence_and_direction_are_enforced_without_mutating_on_error() {
    let (peer, mut gate, root) = transferring();
    let pause = pause(2);
    assert!(
        gate.observe(node(), Actor::Remote, &pause)
            .is_err()
    );
    assert!(
        gate.observe(
            peer,
            Actor::Local,
            &self::pause(4)
        )
        .is_err()
    );
    assert!(
        gate.observe(
            peer,
            Actor::Remote,
            &Frame {
                request_id: 2,
                message: Message::Pause {
                    task_id: TaskId::generate()
                }
            }
        )
        .is_err()
    );
    assert!(
        gate.observe(
            peer,
            Actor::Local,
            &Frame {
                request_id: 2,
                message: Message::Completed {
                    task_id: task(),
                    root_hash: root,
                    receipt_version: 1
                }
            }
        )
        .is_err()
    );
    assert_eq!(gate.state(&task()), Some(WireTaskState::Transferring));
    gate.observe(peer, Actor::Local, &pause).unwrap();
    assert!(gate.observe(peer, Actor::Local, &pause).is_err());
    assert!(
        gate.observe(
            peer,
            Actor::Remote,
            &Frame {
                request_id: 2,
                message: Message::Paused {
                    task_id: task(),
                    pause_request_id: 99
                }
            }
        )
        .is_err()
    );
    assert_eq!(gate.state(&task()), Some(WireTaskState::Pausing));
    gate.observe(
        peer,
        Actor::Remote,
        &Frame {
            request_id: 2,
            message: Message::Paused {
                task_id: task(),
                pause_request_id: 2,
            },
        },
    )
    .unwrap();
    assert_eq!(gate.state(&task()), Some(WireTaskState::Paused));
    gate.observe(
        peer,
        Actor::Remote,
        &Frame {
            request_id: 3,
            message: Message::ResumeTask { task_id: task() },
        },
    )
    .unwrap();
    assert_eq!(gate.state(&task()), Some(WireTaskState::ResumeRequested));
}

#[test]
fn simultaneous_pause_requires_both_bound_acknowledgements_and_completion_wins_race() {
    let (peer, mut gate, root) = transferring();
    for actor in [Actor::Local, Actor::Remote] {
        gate.observe(
            peer,
            actor,
            &Frame {
                request_id: 2,
                message: Message::Pause { task_id: task() },
            },
        )
        .unwrap();
    }
    gate.observe(
        peer,
        Actor::Local,
        &Frame {
            request_id: 3,
            message: Message::Paused {
                task_id: task(),
                pause_request_id: 2,
            },
        },
    )
    .unwrap();
    assert_eq!(gate.state(&task()), Some(WireTaskState::Pausing));
    gate.observe(
        peer,
        Actor::Remote,
        &Frame {
            request_id: 3,
            message: Message::Paused {
                task_id: task(),
                pause_request_id: 2,
            },
        },
    )
    .unwrap();
    assert_eq!(gate.state(&task()), Some(WireTaskState::Paused));
    let (peer, mut gate, _) = transferring();
    gate.observe(
        peer,
        Actor::Local,
        &Frame {
            request_id: 2,
            message: Message::Pause { task_id: task() },
        },
    )
    .unwrap();
    gate.observe(
        peer,
        Actor::Remote,
        &Frame {
            request_id: 2,
            message: Message::Completed {
                task_id: task(),
                root_hash: root,
                receipt_version: 1,
            },
        },
    )
    .unwrap();
    assert_eq!(gate.state(&task()), Some(WireTaskState::Completed));
    assert!(
        gate.observe(
            peer,
            Actor::Remote,
            &Frame {
                request_id: 3,
                message: Message::Paused {
                    task_id: task(),
                    pause_request_id: 2
                }
            }
        )
        .is_err()
    );
}

#[test]
fn resume_only_uses_pre_authorized_ids_and_bounds_task_resources() {
    let peer = node();
    let mut gate = TaskProtocol::new(peer);
    let resume = Frame {
        request_id: 1,
        message: Message::ResumeTask { task_id: task() },
    };
    assert!(gate.observe(peer, Actor::Remote, &resume).is_err());
    gate.restore(task(), Actor::Local, ChunkHash::of(b"content"), 1, true)
        .unwrap();
    gate.observe(peer, Actor::Remote, &resume).unwrap();
    for _ in 1..MAX_TASKS_PER_PEER {
        gate.observe(peer, Actor::Local, &offer(TaskId::generate()))
            .unwrap();
    }
    assert!(
        gate.observe(peer, Actor::Local, &offer(TaskId::generate()))
            .is_err()
    );
}

#[test]
fn resume_bitmap_checks_identity_exact_length_and_unused_bits() {
    let peer = node();
    let mut gate = TaskProtocol::new(peer);
    let root = ChunkHash::of(b"content");
    gate.restore(task(), Actor::Local, root, 1, false).unwrap();
    for (root_hash, have) in [
        (ChunkHash::of(b"wrong"), vec![1]),
        (root, vec![]),
        (root, vec![2]),
        (root, vec![1, 0]),
    ] {
        assert!(
            gate.observe(
                peer,
                Actor::Remote,
                &Frame {
                    request_id: 1,
                    message: Message::Resume {
                        task_id: task(),
                        root_hash,
                        have
                    }
                }
            )
            .is_err()
        );
    }
    gate.observe(
        peer,
        Actor::Remote,
        &Frame {
            request_id: 1,
            message: Message::Resume {
                task_id: task(),
                root_hash: root,
                have: vec![1],
            },
        },
    )
    .unwrap();
}

#[test]
fn only_one_speed_coordinator_can_grant_and_stream_claim_is_bound() {
    let a = node();
    let b = node();
    let (lower, higher) = if a < b { (a, b) } else { (b, a) };
    let mut coordinator = SpeedArbiter::new(lower, higher);
    let mut follower = SpeedArbiter::new(higher, lower);
    assert!(
        follower
            .request(higher, task(), SpeedDirection::Upload, 30, 0)
            .is_err()
    );
    assert!(
        coordinator
            .request(higher, task(), SpeedDirection::Upload, 30, 1)
            .is_err()
    );
    assert!(
        coordinator
            .request(higher, task(), SpeedDirection::Upload, 31, 0)
            .is_err()
    );
    let lease = coordinator
        .request(higher, task(), SpeedDirection::Upload, 600, 0)
        .unwrap();
    assert!(!coordinator.can_start_file());
    assert!(
        coordinator
            .request(lower, TaskId::generate(), SpeedDirection::Download, 30, 0)
            .is_err()
    );
    let mut stale = lease.clone();
    stale.stream_token ^= 1;
    assert!(coordinator.claim_stream(higher, &stale).is_err());
    assert!(coordinator.claim_stream(lower, &lease).is_err());
    coordinator.claim_stream(higher, &lease).unwrap();
    assert!(coordinator.claim_stream(higher, &lease).is_err());
    assert!(coordinator.finish(higher, &stale).is_err());
    assert!(
        coordinator
            .finish(node(), &lease)
            .is_err()
    );
    follower.accept_grant(lower, lease.clone(), 0).unwrap();
    assert!(!follower.can_start_file());
    assert!(follower.accept_grant(lower, lease.clone(), 0).is_err());
    coordinator.finish(higher, &lease).unwrap();
    follower.finish(lower, &lease).unwrap();
    let new_lease = coordinator
        .request(higher, task(), SpeedDirection::Upload, 30, 0)
        .unwrap();
    assert!(coordinator.finish(higher, &lease).is_err());
    coordinator.finish(higher, &new_lease).unwrap();
    assert!(coordinator.can_start_file());
}
