use p2p_desktop::error::IoErrorKind;
use p2p_desktop::fair_writes::{
    FairWrites, StreamAnswer, WriteOutcome, WriteTicket, BYTE_QUANTUM, MAX_DATA_WRITERS,
};
use p2p_desktop::identity::NodeId;
use p2p_desktop::progress::{group_progress, RateSampler};
use p2p_desktop::queue::{QueueEntry, TaskQueue, MAX_QUEUED};
use p2p_desktop::task_model::{
    LocalPath, ManifestIdentity, PeerId, ProgressHint, TaskId, TaskState,
};
use p2p_desktop::task_record::TaskRecord;

fn node() -> NodeId {
    NodeId { value: rand::random() }
}

fn entry(peer: NodeId, metadata: bool) -> QueueEntry {
    QueueEntry { id: TaskId::generate(), peer, metadata }
}

fn bytes_per_second(sample: &RateSampler, now_ms: u64, transferring: bool) -> f64 {
    match sample.rate_parts(now_ms, transferring) {
        None => 0.0,
        Some((bytes, elapsed_ms)) => bytes as f64 * 1000.0 / elapsed_ms as f64,
    }
}

#[test]
fn fifo_skips_offline_peer_and_preserves_order_for_ready_tasks() {
    let offline = node();
    let ready = node();
    let entries = vec![entry(offline, false), entry(ready, false), entry(ready, false)];
    let mut q = TaskQueue::default();
    q.enqueue(entries.clone()).unwrap();
    let first = q.dispatch(|p| p == ready).unwrap();
    assert_eq!(first, entries[1]);
    assert!(q.dispatch(|_| true).is_none());
    q.finish(&first.id);
    assert_eq!(q.dispatch(|p| p == ready).unwrap(), entries[2]);
    q.finish(&entries[2].id);
    assert_eq!(q.dispatch(|_| true).unwrap(), entries[0]);
}

#[test]
fn lowering_three_to_one_does_not_kill_or_refill_excess_activity() {
    let peer = node();
    let entries = (0..5).map(|_| entry(peer, false)).collect::<Vec<_>>();
    let mut q = TaskQueue::default();
    q.set_limit(3).unwrap();
    q.enqueue(entries.clone()).unwrap();
    for expected in &entries[..3] {
        assert_eq!(&q.dispatch(|_| true).unwrap(), expected);
    }
    q.set_limit(1).unwrap();
    assert!(q.metrics().converging);
    assert_eq!(q.metrics().active_files, 3);
    for expected in &entries[..2] {
        q.finish(&expected.id);
        assert!(q.dispatch(|_| true).is_none());
    }
    q.finish(&entries[2].id);
    assert_eq!(q.dispatch(|_| true).unwrap(), entries[3]);
    for invalid in [0, 4, 255] {
        assert!(q.set_limit(invalid).is_err());
        assert_eq!(q.metrics().limit, 1);
    }
}

#[test]
fn directory_metadata_does_not_consume_a_file_slot_and_pause_removes_pending() {
    let peer = node();
    let entries = vec![entry(peer, false), entry(peer, true), entry(peer, false)];
    let mut q = TaskQueue::default();
    q.enqueue(entries.clone()).unwrap();
    q.dispatch(|_| true).unwrap();
    assert_eq!(q.dispatch(|_| true).unwrap(), entries[1]);
    assert_eq!(q.metrics().active_files, 1);
    assert_eq!(q.metrics().active_metadata, 1);
    assert_eq!(q.remove_queued(&entries[2].id), Some(entries[2].clone()));
    assert!(!q.is_queued(&entries[2].id));
    assert_eq!(q.metrics().pending, 0);
}

#[test]
fn bounded_batch_admission_is_atomic_and_cannot_rebind_an_id() {
    let peer = node();
    let entries = (0..MAX_QUEUED - 1).map(|_| entry(peer, false)).collect::<Vec<_>>();
    let mut q = TaskQueue::default();
    q.enqueue(entries.clone()).unwrap();
    assert!(q.enqueue(vec![entry(peer, false), entry(peer, false)]).is_err());
    assert_eq!(q.metrics().pending, MAX_QUEUED - 1);
    let mut changed = entries[0].clone();
    changed.peer = node();
    assert!(q.enqueue(vec![changed]).is_err());
    q.enqueue(vec![entries[0].clone()]).unwrap();
    assert_eq!(q.metrics().pending, MAX_QUEUED - 1);
}

#[test]
fn stale_completion_cannot_release_a_retried_task_slot() {
    let mut q = TaskQueue::default();
    let entry = entry(node(), false);
    let first = q.reserve_direct(entry.clone()).unwrap();
    q.finish_if(&entry.id, first);
    let second = q.reserve_direct(entry.clone()).unwrap();
    assert_ne!(first, second);
    q.finish_if(&entry.id, first);
    assert_eq!(q.metrics().active_files, 1);
    q.clear();
    let third = q.reserve_direct(entry.clone()).unwrap();
    assert_ne!(second, third);
    q.finish_if(&entry.id, second);
    assert_eq!(q.metrics().active_files, 1);
    q.finish_if(&entry.id, third);
    assert_eq!(q.metrics().active_files, 0);
}

#[test]
fn rate_uses_confirmed_delta_not_resume_baseline_and_paused_or_idle_is_zero() {
    let mut sample = RateSampler::default();
    sample.reset(100, 64 * 1024 * 1024);
    assert_eq!(bytes_per_second(&sample, 100, true), 0.0);
    sample.observe(1100, 64 * 1024 * 1024 + 1000);
    assert_eq!(bytes_per_second(&sample, 1100, true), 1000.0);
    assert_eq!(bytes_per_second(&sample, 1100, false), 0.0);
    assert_eq!(bytes_per_second(&sample, 3100, true), 0.0);
    sample.reset(4000, u64::MAX - 1000);
    sample.observe(5000, u64::MAX);
    assert_eq!(bytes_per_second(&sample, 5000, true), 1000.0);
    sample.observe(4900, 7);
    assert_eq!(bytes_per_second(&sample, 4900, true), 0.0);
}

#[test]
fn group_progress_adds_up_its_children() {
    let peer = PeerId::from_node_id(NodeId { value: 1 });
    let mut records = Vec::new();
    for total in [10u64, 30] {
        let identity = ManifestIdentity::blake3([7; 32], total, 4).unwrap();
        records.push(
            TaskRecord::new_sender(
                PeerId::parse(peer.as_str()).unwrap(),
                LocalPath::new("/a"),
                identity,
            )
            .unwrap(),
        );
    }
    records[1].set_progress_hint(ProgressHint::new(12, 5)).unwrap();
    for state in [
        TaskState::Queued,
        TaskState::Connecting,
        TaskState::Negotiating,
        TaskState::Transferring,
        TaskState::Finalizing,
        TaskState::Completed,
    ] {
        records[0].transition_to(state, None, 9).unwrap();
    }
    let group = group_progress(&records);
    assert_eq!(group.children, 2);
    assert_eq!(group.completed, 1);
    assert_eq!(group.total_bytes, 40);
    assert_eq!(group.confirmed_bytes, 22);
    assert!(!group.complete);
}

struct ReadyWriter {
    limit: usize,
    bytes: usize,
    ready: bool,
}

fn poll_write(
    ticket: &WriteTicket,
    scheduler: &mut FairWrites,
    writer: &mut ReadyWriter,
    length: usize,
) -> Option<usize> {
    let allowance = ticket.begin_write(scheduler, length)?;
    if !writer.ready {
        ticket.end_write(scheduler, WriteOutcome::Stopped);
        return None;
    }
    let count = allowance.min(writer.limit);
    writer.bytes += count;
    ticket.end_write(scheduler, WriteOutcome::Wrote(count));
    Some(count)
}

#[test]
fn continuously_ready_writers_have_a_byte_bound_even_with_different_short_writes() {
    for limits in [
        [137, 4093, BYTE_QUANTUM],
        [BYTE_QUANTUM; 3],
        [BYTE_QUANTUM, 137, 4093],
    ] {
        for n in 1..=3 {
            let mut scheduler = FairWrites::default();
            let tickets = (0..n)
                .map(|_| scheduler.ticket(TaskId::generate()).unwrap())
                .collect::<Vec<_>>();
            let mut writers = limits
                .into_iter()
                .take(n)
                .map(|limit| ReadyWriter { limit, bytes: 0, ready: true })
                .collect::<Vec<_>>();
            for _ in 0..20_000 {
                for (index, ticket) in tickets.iter().enumerate() {
                    let _ = poll_write(ticket, &mut scheduler, &mut writers[index], BYTE_QUANTUM);
                    let min = writers.iter().map(|w| w.bytes).min().unwrap();
                    let max = writers.iter().map(|w| w.bytes).max().unwrap();
                    assert!(max - min <= BYTE_QUANTUM, "unfair acceptedbytes: {min}..{max}");
                }
            }
            assert!(writers.iter().all(|w| w.bytes >= 10 * BYTE_QUANTUM));
        }
    }
}

#[test]
fn blocked_writer_releases_turn_and_unused_share_is_borrowed_without_credit_growth() {
    let mut scheduler = FairWrites::default();
    let a = scheduler.ticket(TaskId::generate()).unwrap();
    let b = scheduler.ticket(TaskId::generate()).unwrap();
    let mut slow = ReadyWriter { limit: BYTE_QUANTUM, bytes: 0, ready: false };
    let mut fast = ReadyWriter { limit: BYTE_QUANTUM, bytes: 0, ready: true };
    assert!(poll_write(&a, &mut scheduler, &mut slow, BYTE_QUANTUM).is_none());
    for _ in 0..100 {
        assert_eq!(
            poll_write(&b, &mut scheduler, &mut fast, BYTE_QUANTUM),
            Some(BYTE_QUANTUM)
        );
    }
    assert_eq!(fast.bytes, 100 * BYTE_QUANTUM);
    assert_eq!(slow.bytes, 0);
    slow.ready = true;
    for _ in 0..100 {
        let _ = poll_write(&a, &mut scheduler, &mut slow, BYTE_QUANTUM);
        let _ = poll_write(&b, &mut scheduler, &mut fast, BYTE_QUANTUM);
    }
    assert!(slow.bytes >= 99 * BYTE_QUANTUM);
    assert!(fast.bytes <= 201 * BYTE_QUANTUM);
    a.close(&mut scheduler);
    b.close(&mut scheduler);
    assert!(scheduler.is_empty());
}

#[test]
fn a_stream_of_new_tiny_tasks_cannot_jump_ahead_of_ready_existing_tasks() {
    let mut fair = FairWrites::default();
    let tickets = [
        fair.ticket(TaskId::generate()).unwrap(),
        fair.ticket(TaskId::generate()).unwrap(),
    ];
    let mut writers = [
        ReadyWriter { limit: BYTE_QUANTUM, bytes: 0, ready: true },
        ReadyWriter { limit: BYTE_QUANTUM, bytes: 0, ready: true },
    ];
    for index in 0..2 {
        let _ = poll_write(&tickets[index], &mut fair, &mut writers[index], BYTE_QUANTUM);
    }
    for _ in 0..100 {
        let fresh = fair.ticket(TaskId::generate()).unwrap();
        let mut tiny = ReadyWriter { limit: 1, bytes: 0, ready: true };
        assert!(poll_write(&fresh, &mut fair, &mut tiny, 1).is_none());
        for index in 0..2 {
            let _ = poll_write(&tickets[index], &mut fair, &mut writers[index], BYTE_QUANTUM);
        }
        assert_eq!(poll_write(&fresh, &mut fair, &mut tiny, 1), Some(1));
        fresh.close(&mut fair);
    }
    assert!(writers.iter().all(|writer| writer.bytes >= 100 * BYTE_QUANTUM));
}

#[test]
fn writer_registration_is_bounded_and_a_dropped_slot_is_reusable() {
    let mut fair = FairWrites::default();
    let mut held = (0..MAX_DATA_WRITERS)
        .map(|_| fair.ticket(TaskId::generate()).unwrap())
        .collect::<Vec<_>>();
    assert!(fair.ticket(TaskId::generate()).is_err());
    held.pop().unwrap().close(&mut fair);
    assert!(fair.ticket(TaskId::generate()).is_ok());
    assert!(fair.ticket(held[0].id().clone()).is_err());
}

#[test]
fn streams_that_take_nothing_have_failed_and_give_up_the_turn() {
    assert_eq!(StreamAnswer::Took(7).outcome(), WriteOutcome::Wrote(7));
    assert_eq!(StreamAnswer::Took(7).result(), Some(Ok(7)));
    assert_eq!(StreamAnswer::Took(0).outcome(), WriteOutcome::Stopped);
    assert_eq!(StreamAnswer::Took(0).result(), Some(Err(IoErrorKind::WriteZero)));
    assert_eq!(StreamAnswer::NotReady.outcome(), WriteOutcome::Stopped);
    assert_eq!(StreamAnswer::NotReady.result(), None);
    let failed = StreamAnswer::Failed(IoErrorKind::BrokenPipe);
    assert_eq!(failed.outcome(), WriteOutcome::Stopped);
    assert_eq!(failed.result(), Some(Err(IoErrorKind::BrokenPipe)));
}

#[test]
fn slots_last_from_start_to_end_with_generations_of_their_own() {
    let mut queue = TaskQueue::default();
    let entries: Vec<QueueEntry> = (0..3).map(|_| entry(node(), false)).collect();
    queue.set_limit(3).unwrap();
    queue.enqueue(entries.clone()).unwrap();
    let mut seen: Vec<u64> = Vec::new();
    for round in 0..4 {
        for started in &entries {
            if round == 0 {
                assert_eq!(queue.dispatch(|_| true).unwrap(), *started);
            } else {
                queue.reserve_direct(started.clone()).unwrap();
            }
            let generation = queue.slot_generation(&started.id).unwrap();
            assert!(!seen.contains(&generation));
            seen.push(generation);
        }
        assert_eq!(queue.metrics().active_files + queue.metrics().active_metadata, 3);
        if round == 2 {
            queue.clear();
        } else {
            for started in &entries {
                queue.finish(&started.id);
            }
        }
        assert!(entries.iter().all(|entry| queue.slot_generation(&entry.id).is_none()));
    }
}

#[test]
fn a_parked_writer_leaves_its_turn_to_the_others() {
    let mut scheduler = FairWrites::default();
    let a = scheduler.ticket(TaskId::generate()).unwrap();
    let b = scheduler.ticket(TaskId::generate()).unwrap();
    let mut left = ReadyWriter { limit: BYTE_QUANTUM, bytes: 0, ready: true };
    let mut right = ReadyWriter { limit: BYTE_QUANTUM, bytes: 0, ready: true };
    for _ in 0..4 {
        let _ = poll_write(&a, &mut scheduler, &mut left, BYTE_QUANTUM);
        let _ = poll_write(&b, &mut scheduler, &mut right, BYTE_QUANTUM);
    }
    a.park(&mut scheduler);
    let before = right.bytes;
    for _ in 0..10 {
        let _ = poll_write(&b, &mut scheduler, &mut right, BYTE_QUANTUM);
    }
    assert_eq!(right.bytes - before, 10 * BYTE_QUANTUM);
}
