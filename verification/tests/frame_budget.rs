use p2p_desktop::frame_budget::{FrameBudget, Pool, DATA_BYTES, GLOBAL_BYTES, TASK_BYTES, UNIT};
use p2p_desktop::protocol::{Frame, Message, MAX_FRAME_BYTES};
use p2p_desktop::task_model::TaskId;
use p2p_desktop::wire::{frame_header, read_header};

const LARGEST: usize = MAX_FRAME_BYTES as usize;

fn units(bytes: usize) -> u32 {
    (bytes / UNIT) as u32
}

#[test]
fn global_data_cap_leaves_control_room_and_cancel_returns_every_permit() {
    let mut budget = FrameBudget::default();
    let mut held = Vec::new();
    for _ in 0..7 {
        let frame = budget.reserve(LARGEST, None).unwrap();
        assert!(budget.is_held(&frame));
        held.push(frame);
    }
    assert_eq!(budget.free(Pool::Data), 0);
    let blocked = budget.reserve(LARGEST, None).unwrap();
    assert!(!budget.is_held(&blocked));
    let control = budget.reserve(1024, None).unwrap();
    assert!(budget.is_held(&control));
    assert_eq!(budget.free(Pool::All), units(GLOBAL_BYTES - DATA_BYTES) - 1);
    budget.release(blocked);
    budget.release(control);
    for frame in held {
        budget.release(frame);
    }
    assert_eq!(budget.free(Pool::All), units(GLOBAL_BYTES));
    assert_eq!(budget.free(Pool::Data), units(DATA_BYTES));
}

#[test]
fn per_task_cap_and_invalid_header_do_not_allocate_or_leak() {
    let mut budget = FrameBudget::default();
    let task = budget.task_limit();
    let pool = Pool::Task(task.key);
    let held = budget.reserve(LARGEST, Some(task)).unwrap();
    assert!(budget.is_held(&held));
    let second = budget.reserve(1, Some(task)).unwrap();
    assert!(!budget.is_held(&second));
    budget.release(held);
    assert!(budget.is_held(&second));
    budget.release(second);
    assert_eq!(budget.free(pool), units(TASK_BYTES));
    assert!(read_header((MAX_FRAME_BYTES + 1).to_le_bytes()).is_err());
    assert_eq!(
        budget.reserve(LARGEST + 1, Some(task)).unwrap_err().text(),
        "桌面帧长度超出资源上限"
    );
    assert!(budget.reserve(0, Some(task)).is_err());
    assert_eq!(budget.free(Pool::All), units(GLOBAL_BYTES));
}

#[test]
fn decoded_payload_keeps_budget_until_processing_and_bad_body_releases_it() {
    let mut budget = FrameBudget::default();
    let task = budget.task_limit();
    let pool = Pool::Task(task.key);
    let frame = Frame {
        request_id: 1,
        message: Message::Chunk {
            task_id: TaskId::generate(),
            index: 0,
            data: vec![7; 1024 * 1024],
        },
    };
    let encoded = frame.encode().unwrap();
    let needed = (encoded.len() * 2).div_ceil(UNIT) as u32;
    let length = read_header(frame_header(encoded.len() as u32)).unwrap();
    let reservation = budget.reserve(length as usize, Some(task)).unwrap();
    assert!(budget.is_held(&reservation));
    assert_eq!(Frame::decode(&encoded).unwrap(), frame);
    assert_eq!(budget.free(pool), units(TASK_BYTES) - needed);
    assert_eq!(budget.free(Pool::All), units(GLOBAL_BYTES) - needed);
    budget.release(reservation);
    assert_eq!(budget.free(Pool::All), units(GLOBAL_BYTES));
    let length = read_header([1, 0, 0, 0]).unwrap();
    let reservation = budget.reserve(length as usize, Some(task)).unwrap();
    assert!(budget.is_held(&reservation));
    assert!(Frame::decode(&[255]).is_err());
    budget.release(reservation);
    assert_eq!(budget.free(pool), units(TASK_BYTES));
    assert_eq!(budget.free(Pool::All), units(GLOBAL_BYTES));
    let frame = Frame { request_id: 1, message: Message::Pause { task_id: TaskId::generate() } };
    let encoded = frame.encode().unwrap();
    let length = read_header(frame_header(encoded.len() as u32)).unwrap();
    assert_eq!(length as usize, encoded.len());
    assert_eq!(Frame::decode(&encoded).unwrap(), frame);
}

#[test]
fn memory_goes_to_the_frame_that_asked_first() {
    let mut budget = FrameBudget::default();
    let task = budget.task_limit();
    let other = budget.task_limit();
    let held = budget.reserve(LARGEST - UNIT, Some(task)).unwrap();
    let large = budget.reserve(LARGEST, Some(task)).unwrap();
    let small = budget.reserve(1, Some(task)).unwrap();
    let elsewhere = budget.reserve(1, Some(other)).unwrap();
    assert_eq!(budget.free(Pool::Task(task.key)), 2);
    assert!(!budget.is_held(&large));
    assert!(!budget.is_held(&small));
    assert!(budget.is_held(&elsewhere));
    budget.release(held);
    assert!(budget.is_held(&large));
    assert!(!budget.is_held(&small));
    budget.release(large);
    assert!(budget.is_held(&small));
    budget.release(small);
    budget.release(elsewhere);
    assert_eq!(budget.free(Pool::All), units(GLOBAL_BYTES));
}
