//! How frames are written and read: the prefix, the number, the kind of message and
//! its fields in order.

use vstd::prelude::*;
use vstd::slice::slice_subrange;
use vstd::utf8::encode_utf8;

use crate::codec::{
    blob_bytes, hash_list_bytes, lemma_take_blob, lemma_take_hash, lemma_take_hash_list,
    lemma_take_id, lemma_take_maybe_id, lemma_take_number, lemma_take_text, lemma_take_wide,
    maybe_id_bytes, most_of_length, number_bytes, put_blob, put_hash, put_hash_list,
    put_maybe_id, put_number, put_text, put_wide, read_blob, read_hash, read_hash_list, read_id,
    read_length, read_maybe_id, read_number, read_text, read_wide, take_blob, take_hash,
    take_hash_list, take_id, take_maybe_id, take_number, take_text, take_wide, text_bytes,
    MOST_16, MOST_32, MOST_64,
};
use crate::error::{decided, Result};
use crate::identity::{be_bytes, is_canonical, NodeId};
use crate::manifest::{pieces_needed, ChunkHash, FileManifest, ManifestView};
use crate::paths::path_refusal;
use crate::protocol::{
    invalid, Entry, ErrorCode, Frame, Message, MAX_CHUNKS, MAX_FILE_BYTES, MAX_FRAME_BYTES,
    RECEIPT_VERSION,
};
use crate::speed_control::{
    seconds_refusal, LeaseView, SpeedControl, SpeedDirection, SpeedLease,
};
use crate::task_model::TaskId;
use crate::task_record::{base_name, id_view};

verus! {

/// What every frame starts with: the name of the protocol and its layout.
pub open spec fn frame_prefix() -> Seq<u8> {
    seq![0x50u8, 0x32u8, 0x50u8, 0x44u8, 0x01u8]
}

/// An offered entry, as mathematical values.
pub enum EntryView {
    File(ManifestView),
    Directory,
}

/// A speed-test control message, as mathematical values.
pub enum ControlView {
    Request { test_id: Seq<char>, direction: SpeedDirection, seconds: u16 },
    Granted(LeaseView),
    Busy { test_id: Seq<char> },
    Cancel(LeaseView),
    Finished(LeaseView),
    Ready(LeaseView),
    Result { lease: LeaseView, bytes: u64, elapsed_ms: u64 },
}

/// A message, as mathematical values.
pub enum MessageView {
    Hello { version: u16, capabilities: u64 },
    Ready,
    Offer {
        task_id: Seq<char>,
        group_id: Option<Seq<char>>,
        relative_path: Seq<char>,
        entry: EntryView,
    },
    Resume { task_id: Seq<char>, root_hash: ChunkHash, have: Seq<u8> },
    Pause { task_id: Seq<char> },
    Paused { task_id: Seq<char>, pause_request_id: u64 },
    ResumeTask { task_id: Seq<char> },
    Completed { task_id: Seq<char>, root_hash: ChunkHash, receipt_version: u16 },
    Error { task_id: Seq<char>, code: ErrorCode },
    Speed(ControlView),
    RequestChunk { task_id: Seq<char>, index: u32 },
    Chunk { task_id: Seq<char>, index: u32, data: Seq<u8> },
    ChunkAck { task_id: Seq<char>, index: u32 },
}

/// A frame, as mathematical values.
pub struct FrameView {
    pub request_id: u64,
    pub message: MessageView,
}

impl View for Entry {
    type V = EntryView;

    open spec fn view(&self) -> EntryView {
        match self {
            Entry::File(manifest) => EntryView::File(manifest@),
            Entry::Directory => EntryView::Directory,
        }
    }
}

impl View for SpeedControl {
    type V = ControlView;

    open spec fn view(&self) -> ControlView {
        match self {
            SpeedControl::Request { test_id, direction, seconds } => ControlView::Request {
                test_id: test_id@,
                direction: *direction,
                seconds: *seconds,
            },
            SpeedControl::Granted(lease) => ControlView::Granted(lease@),
            SpeedControl::Busy { test_id } => ControlView::Busy { test_id: test_id@ },
            SpeedControl::Cancel(lease) => ControlView::Cancel(lease@),
            SpeedControl::Finished(lease) => ControlView::Finished(lease@),
            SpeedControl::Ready(lease) => ControlView::Ready(lease@),
            SpeedControl::Result { lease, bytes, elapsed_ms } => ControlView::Result {
                lease: lease@,
                bytes: *bytes,
                elapsed_ms: *elapsed_ms,
            },
        }
    }
}

impl View for Message {
    type V = MessageView;

    open spec fn view(&self) -> MessageView {
        match self {
            Message::Hello { version, capabilities } => MessageView::Hello {
                version: *version,
                capabilities: *capabilities,
            },
            Message::Ready => MessageView::Ready,
            Message::Offer { task_id, group_id, relative_path, entry } => MessageView::Offer {
                task_id: task_id@,
                group_id: id_view(*group_id),
                relative_path: relative_path@,
                entry: entry@,
            },
            Message::Resume { task_id, root_hash, have } => MessageView::Resume {
                task_id: task_id@,
                root_hash: *root_hash,
                have: have@,
            },
            Message::Pause { task_id } => MessageView::Pause { task_id: task_id@ },
            Message::Paused { task_id, pause_request_id } => MessageView::Paused {
                task_id: task_id@,
                pause_request_id: *pause_request_id,
            },
            Message::ResumeTask { task_id } => MessageView::ResumeTask { task_id: task_id@ },
            Message::Completed { task_id, root_hash, receipt_version } => MessageView::Completed {
                task_id: task_id@,
                root_hash: *root_hash,
                receipt_version: *receipt_version,
            },
            Message::Error { task_id, code } => MessageView::Error {
                task_id: task_id@,
                code: *code,
            },
            Message::Speed(control) => MessageView::Speed(control@),
            Message::RequestChunk { task_id, index } => MessageView::RequestChunk {
                task_id: task_id@,
                index: *index,
            },
            Message::Chunk { task_id, index, data } => MessageView::Chunk {
                task_id: task_id@,
                index: *index,
                data: data@,
            },
            Message::ChunkAck { task_id, index } => MessageView::ChunkAck {
                task_id: task_id@,
                index: *index,
            },
        }
    }
}

impl View for Frame {
    type V = FrameView;

    open spec fn view(&self) -> FrameView {
        FrameView { request_id: self.request_id, message: self.message@ }
    }
}

/// The number that stands for a direction.
pub open spec fn direction_number(direction: SpeedDirection) -> nat {
    match direction {
        SpeedDirection::Upload => 0,
        SpeedDirection::Download => 1,
    }
}

/// The direction that a number stands for.
pub open spec fn direction_of(number: nat) -> Option<SpeedDirection> {
    if number == 0 {
        Some(SpeedDirection::Upload)
    } else if number == 1 {
        Some(SpeedDirection::Download)
    } else {
        None
    }
}

/// The number that stands for an error code.
pub open spec fn code_number(code: ErrorCode) -> nat {
    match code {
        ErrorCode::UnsupportedVersion => 0,
        ErrorCode::UnsupportedCapability => 1,
        ErrorCode::UnknownTask => 2,
        ErrorCode::WrongPeer => 3,
        ErrorCode::InvalidState => 4,
        ErrorCode::InvalidPath => 5,
        ErrorCode::InvalidManifest => 6,
        ErrorCode::Busy => 7,
        ErrorCode::SourceChanged => 8,
        ErrorCode::SourceMissing => 9,
        ErrorCode::Storage => 10,
        ErrorCode::Interrupted => 11,
    }
}

/// The error code that a number stands for.
pub open spec fn code_of(number: nat) -> Option<ErrorCode> {
    if number == 0 {
        Some(ErrorCode::UnsupportedVersion)
    } else if number == 1 {
        Some(ErrorCode::UnsupportedCapability)
    } else if number == 2 {
        Some(ErrorCode::UnknownTask)
    } else if number == 3 {
        Some(ErrorCode::WrongPeer)
    } else if number == 4 {
        Some(ErrorCode::InvalidState)
    } else if number == 5 {
        Some(ErrorCode::InvalidPath)
    } else if number == 6 {
        Some(ErrorCode::InvalidManifest)
    } else if number == 7 {
        Some(ErrorCode::Busy)
    } else if number == 8 {
        Some(ErrorCode::SourceChanged)
    } else if number == 9 {
        Some(ErrorCode::SourceMissing)
    } else if number == 10 {
        Some(ErrorCode::Storage)
    } else if number == 11 {
        Some(ErrorCode::Interrupted)
    } else {
        None
    }
}

/// A 16-bit number in front.
pub open spec fn take_short(bytes: Seq<u8>) -> Option<(u16, Seq<u8>)> {
    match take_number(bytes, MOST_16 as nat, u16::MAX as nat) {
        None => None,
        Some((value, rest)) => Some((value as u16, rest)),
    }
}

/// A 32-bit number in front.
pub open spec fn take_int(bytes: Seq<u8>) -> Option<(u32, Seq<u8>)> {
    match take_number(bytes, MOST_32 as nat, u32::MAX as nat) {
        None => None,
        Some((value, rest)) => Some((value as u32, rest)),
    }
}

/// A 64-bit number in front.
pub open spec fn take_long(bytes: Seq<u8>) -> Option<(u64, Seq<u8>)> {
    match take_number(bytes, MOST_64 as nat, u64::MAX as nat) {
        None => None,
        Some((value, rest)) => Some((value as u64, rest)),
    }
}

fn read_short(bytes: &[u8]) -> (result: Option<(u16, &[u8])>)
    ensures
        match take_short(bytes@) {
            None => result is None,
            Some((value, rest)) => result matches Some((number, left)) && number == value
                && left@ == rest,
        },
{
    match read_number(bytes, MOST_16, u16::MAX as u64) {
        None => None,
        Some((number, left)) => Some((number as u16, left)),
    }
}

fn read_int(bytes: &[u8]) -> (result: Option<(u32, &[u8])>)
    ensures
        match take_int(bytes@) {
            None => result is None,
            Some((value, rest)) => result matches Some((number, left)) && number == value
                && left@ == rest,
        },
{
    match read_number(bytes, MOST_32, u32::MAX as u64) {
        None => None,
        Some((number, left)) => Some((number as u32, left)),
    }
}

fn read_long(bytes: &[u8]) -> (result: Option<(u64, &[u8])>)
    ensures
        match take_long(bytes@) {
            None => result is None,
            Some((value, rest)) => result matches Some((number, left)) && number == value
                && left@ == rest,
        },
{
    read_number(bytes, MOST_64, u64::MAX)
}

proof fn lemma_take_short(value: u16, rest: Seq<u8>)
    ensures
        take_short(number_bytes(value as nat) + rest) == Some((value, rest)),
{
    lemma_take_number(value as nat, rest, MOST_16 as nat, u16::MAX as nat);
}

proof fn lemma_take_int(value: u32, rest: Seq<u8>)
    ensures
        take_int(number_bytes(value as nat) + rest) == Some((value, rest)),
{
    lemma_take_number(value as nat, rest, MOST_32 as nat, u32::MAX as nat);
}

proof fn lemma_take_long(value: u64, rest: Seq<u8>)
    ensures
        take_long(number_bytes(value as nat) + rest) == Some((value, rest)),
{
    lemma_take_number(value as nat, rest, MOST_64 as nat, u64::MAX as nat);
}

/// The bytes of a manifest: name, length, chunk size, digests, root digest.
pub open spec fn manifest_bytes(manifest: ManifestView) -> Seq<u8> {
    text_bytes(manifest.file_name) + (number_bytes(manifest.total_len as nat) + (number_bytes(
        manifest.chunk_size as nat,
    ) + (number_bytes(manifest.chunks.len()) + (hash_list_bytes(manifest.chunks)
        + manifest.root_hash.bytes()))))
}

/// The manifest in front.
pub open spec fn take_manifest(bytes: Seq<u8>) -> Option<(ManifestView, Seq<u8>)> {
    match take_text(bytes) {
        None => None,
        Some((file_name, rest)) => match take_long(rest) {
            None => None,
            Some((total_len, rest)) => match take_int(rest) {
                None => None,
                Some((chunk_size, rest)) => match take_number(
                    rest,
                    most_of_length(),
                    usize::MAX as nat,
                ) {
                    None => None,
                    Some((count, rest)) => match take_hash_list(rest, count) {
                        None => None,
                        Some((chunks, rest)) => match take_hash(rest) {
                            None => None,
                            Some((root_hash, rest)) => Some(
                                (
                                    ManifestView {
                                        file_name,
                                        total_len,
                                        chunk_size,
                                        chunks,
                                        root_hash,
                                    },
                                    rest,
                                ),
                            ),
                        },
                    },
                },
            },
        },
    }
}

fn put_manifest(out: &mut Vec<u8>, manifest: &FileManifest)
    ensures
        final(out)@ == old(out)@ + manifest_bytes(manifest@),
{
    put_text(out, manifest.file_name.as_str());
    put_number(out, manifest.total_len);
    put_number(out, manifest.chunk_size as u64);
    put_number(out, manifest.chunks.len() as u64);
    put_hash_list(out, &manifest.chunks);
    put_hash(out, &manifest.root_hash);
    assert(out@ =~= old(out)@ + manifest_bytes(manifest@));
}

fn read_manifest(bytes: &[u8]) -> (result: Option<(FileManifest, &[u8])>)
    ensures
        match take_manifest(bytes@) {
            None => result is None,
            Some((manifest, rest)) => result matches Some((found, left)) && found@ == manifest
                && left@ == rest,
        },
{
    let (file_name, left) = read_text(bytes)?;
    let (total_len, left) = read_long(left)?;
    let (chunk_size, left) = read_int(left)?;
    let (count, left) = read_length(left)?;
    let (chunks, left) = read_hash_list(left, count)?;
    let (root_hash, left) = read_hash(left)?;
    Some((FileManifest { file_name, total_len, chunk_size, chunks, root_hash }, left))
}

proof fn lemma_take_manifest(manifest: ManifestView, rest: Seq<u8>)
    requires
        encode_utf8(manifest.file_name).len() <= usize::MAX,
        manifest.chunks.len() <= usize::MAX,
    ensures
        take_manifest(manifest_bytes(manifest) + rest) == Some((manifest, rest)),
{
    let after_list = manifest.root_hash.bytes() + rest;
    let after_count = hash_list_bytes(manifest.chunks) + after_list;
    let after_size = number_bytes(manifest.chunks.len()) + after_count;
    let after_length = number_bytes(manifest.chunk_size as nat) + after_size;
    let after_name = number_bytes(manifest.total_len as nat) + after_length;
    assert(manifest_bytes(manifest) + rest =~= text_bytes(manifest.file_name) + after_name);
    lemma_take_text(manifest.file_name, after_name);
    lemma_take_long(manifest.total_len, after_length);
    lemma_take_int(manifest.chunk_size, after_size);
    lemma_take_number(
        manifest.chunks.len(),
        after_count,
        most_of_length(),
        usize::MAX as nat,
    );
    lemma_take_hash_list(manifest.chunks, after_list);
    lemma_take_hash(manifest.root_hash, rest);
}

/// The bytes of an entry.
pub open spec fn entry_bytes(entry: EntryView) -> Seq<u8> {
    match entry {
        EntryView::File(manifest) => number_bytes(0) + manifest_bytes(manifest),
        EntryView::Directory => number_bytes(1),
    }
}

/// The entry in front.
pub open spec fn take_entry(bytes: Seq<u8>) -> Option<(EntryView, Seq<u8>)> {
    match take_int(bytes) {
        None => None,
        Some((kind, rest)) => if kind == 0 {
            match take_manifest(rest) {
                None => None,
                Some((manifest, rest)) => Some((EntryView::File(manifest), rest)),
            }
        } else if kind == 1 {
            Some((EntryView::Directory, rest))
        } else {
            None
        },
    }
}

fn put_entry(out: &mut Vec<u8>, entry: &Entry)
    ensures
        final(out)@ == old(out)@ + entry_bytes(entry@),
{
    match entry {
        Entry::File(manifest) => {
            put_number(out, 0);
            put_manifest(out, manifest);
        },
        Entry::Directory => {
            put_number(out, 1);
        },
    }
    assert(out@ =~= old(out)@ + entry_bytes(entry@));
}

fn read_entry(bytes: &[u8]) -> (result: Option<(Entry, &[u8])>)
    ensures
        match take_entry(bytes@) {
            None => result is None,
            Some((entry, rest)) => result matches Some((found, left)) && found@ == entry && left@
                == rest,
        },
{
    let (kind, left) = read_int(bytes)?;
    if kind == 0 {
        let (manifest, left) = read_manifest(left)?;
        Some((Entry::File(manifest), left))
    } else if kind == 1 {
        Some((Entry::Directory, left))
    } else {
        None
    }
}

/// Whether an entry's texts and lists have lengths that a machine can hold.
pub open spec fn entry_fits(entry: EntryView) -> bool {
    entry matches EntryView::File(manifest) ==> encode_utf8(manifest.file_name).len() <= usize::MAX
        && manifest.chunks.len() <= usize::MAX
}

proof fn lemma_take_entry(entry: EntryView, rest: Seq<u8>)
    requires
        entry_fits(entry),
    ensures
        take_entry(entry_bytes(entry) + rest) == Some((entry, rest)),
{
    match entry {
        EntryView::File(manifest) => {
            let behind = manifest_bytes(manifest) + rest;
            assert(entry_bytes(entry) + rest =~= number_bytes(0) + behind);
            lemma_take_int(0, behind);
            lemma_take_manifest(manifest, rest);
        },
        EntryView::Directory => {
            lemma_take_int(1, rest);
        },
    }
}

/// The bytes of a lease.
pub open spec fn lease_bytes(lease: LeaseView) -> Seq<u8> {
    text_bytes(lease.test_id) + (be_bytes(lease.owner.value as nat, 16) + (number_bytes(
        direction_number(lease.direction),
    ) + (number_bytes(lease.seconds as nat) + be_bytes(lease.stream_token as nat, 16))))
}

/// The direction in front.
pub open spec fn take_direction(bytes: Seq<u8>) -> Option<(SpeedDirection, Seq<u8>)> {
    match take_int(bytes) {
        None => None,
        Some((number, rest)) => match direction_of(number as nat) {
            None => None,
            Some(direction) => Some((direction, rest)),
        },
    }
}

/// The lease in front.
pub open spec fn take_lease(bytes: Seq<u8>) -> Option<(LeaseView, Seq<u8>)> {
    match take_id(bytes) {
        None => None,
        Some((test_id, rest)) => match take_wide(rest) {
            None => None,
            Some((owner, rest)) => match take_direction(rest) {
                None => None,
                Some((direction, rest)) => match take_short(rest) {
                    None => None,
                    Some((seconds, rest)) => match take_wide(rest) {
                        None => None,
                        Some((stream_token, rest)) => Some(
                            (
                                LeaseView {
                                    test_id,
                                    owner: NodeId { value: owner },
                                    direction,
                                    seconds,
                                    stream_token,
                                },
                                rest,
                            ),
                        ),
                    },
                },
            },
        },
    }
}

fn put_direction(out: &mut Vec<u8>, direction: SpeedDirection)
    ensures
        final(out)@ == old(out)@ + number_bytes(direction_number(direction)),
{
    match direction {
        SpeedDirection::Upload => put_number(out, 0),
        SpeedDirection::Download => put_number(out, 1),
    }
}

fn read_direction(bytes: &[u8]) -> (result: Option<(SpeedDirection, &[u8])>)
    ensures
        match take_direction(bytes@) {
            None => result is None,
            Some((direction, rest)) => result matches Some((found, left)) && found == direction
                && left@ == rest,
        },
{
    let (number, left) = read_int(bytes)?;
    if number == 0 {
        Some((SpeedDirection::Upload, left))
    } else if number == 1 {
        Some((SpeedDirection::Download, left))
    } else {
        None
    }
}

fn put_lease(out: &mut Vec<u8>, lease: &SpeedLease)
    ensures
        final(out)@ == old(out)@ + lease_bytes(lease@),
{
    put_text(out, lease.test_id.as_str());
    put_wide(out, lease.owner.value);
    put_direction(out, lease.direction);
    put_number(out, lease.seconds as u64);
    put_wide(out, lease.stream_token);
    assert(out@ =~= old(out)@ + lease_bytes(lease@));
}

fn read_lease(bytes: &[u8]) -> (result: Option<(SpeedLease, &[u8])>)
    ensures
        match take_lease(bytes@) {
            None => result is None,
            Some((lease, rest)) => result matches Some((found, left)) && found@ == lease && left@
                == rest,
        },
{
    let (test_id, left) = read_id(bytes)?;
    let (owner, left) = read_wide(left)?;
    let (direction, left) = read_direction(left)?;
    let (seconds, left) = read_short(left)?;
    let (stream_token, left) = read_wide(left)?;
    let owner = NodeId { value: owner };
    Some((SpeedLease { test_id, owner, direction, seconds, stream_token }, left))
}

proof fn lemma_take_direction(direction: SpeedDirection, rest: Seq<u8>)
    ensures
        take_direction(number_bytes(direction_number(direction)) + rest) == Some((direction, rest)),
{
    lemma_take_int(direction_number(direction) as u32, rest);
}

proof fn lemma_take_lease(lease: LeaseView, rest: Seq<u8>)
    requires
        is_canonical(lease.test_id, 32),
    ensures
        take_lease(lease_bytes(lease) + rest) == Some((lease, rest)),
{
    let after_seconds = be_bytes(lease.stream_token as nat, 16) + rest;
    let after_direction = number_bytes(lease.seconds as nat) + after_seconds;
    let after_owner = number_bytes(direction_number(lease.direction)) + after_direction;
    let after_id = be_bytes(lease.owner.value as nat, 16) + after_owner;
    assert(lease_bytes(lease) + rest =~= text_bytes(lease.test_id) + after_id);
    lemma_take_id(lease.test_id, after_id);
    lemma_take_wide(lease.owner.value, after_owner);
    lemma_take_direction(lease.direction, after_direction);
    lemma_take_short(lease.seconds, after_seconds);
    lemma_take_wide(lease.stream_token, rest);
}

/// The bytes of a speed-test control message.
pub open spec fn control_bytes(control: ControlView) -> Seq<u8> {
    match control {
        ControlView::Request { test_id, direction, seconds } => number_bytes(0) + (text_bytes(
            test_id,
        ) + (number_bytes(direction_number(direction)) + number_bytes(seconds as nat))),
        ControlView::Granted(lease) => number_bytes(1) + lease_bytes(lease),
        ControlView::Busy { test_id } => number_bytes(2) + text_bytes(test_id),
        ControlView::Cancel(lease) => number_bytes(3) + lease_bytes(lease),
        ControlView::Finished(lease) => number_bytes(4) + lease_bytes(lease),
        ControlView::Ready(lease) => number_bytes(5) + lease_bytes(lease),
        ControlView::Result { lease, bytes, elapsed_ms } => number_bytes(6) + (lease_bytes(lease)
            + (number_bytes(bytes as nat) + number_bytes(elapsed_ms as nat))),
    }
}

/// The request for a test in front, behind its kind.
pub open spec fn take_speed_request(bytes: Seq<u8>) -> Option<(ControlView, Seq<u8>)> {
    match take_id(bytes) {
        None => None,
        Some((test_id, rest)) => match take_direction(rest) {
            None => None,
            Some((direction, rest)) => match take_short(rest) {
                None => None,
                Some((seconds, rest)) => Some(
                    (ControlView::Request { test_id, direction, seconds }, rest),
                ),
            },
        },
    }
}

/// The result of a test in front, behind its kind.
pub open spec fn take_speed_result(bytes: Seq<u8>) -> Option<(ControlView, Seq<u8>)> {
    match take_lease(bytes) {
        None => None,
        Some((lease, rest)) => match take_long(rest) {
            None => None,
            Some((bytes, rest)) => match take_long(rest) {
                None => None,
                Some((elapsed_ms, rest)) => Some(
                    (ControlView::Result { lease, bytes, elapsed_ms }, rest),
                ),
            },
        },
    }
}

/// The speed-test control message in front.
pub open spec fn take_control(bytes: Seq<u8>) -> Option<(ControlView, Seq<u8>)> {
    match take_int(bytes) {
        None => None,
        Some((kind, rest)) => if kind == 0 {
            take_speed_request(rest)
        } else if kind == 2 {
            match take_id(rest) {
                None => None,
                Some((test_id, rest)) => Some((ControlView::Busy { test_id }, rest)),
            }
        } else if kind == 6 {
            take_speed_result(rest)
        } else if kind > 6 {
            None
        } else {
            match take_lease(rest) {
                None => None,
                Some((lease, rest)) => Some(
                    (
                        if kind == 1 {
                            ControlView::Granted(lease)
                        } else if kind == 3 {
                            ControlView::Cancel(lease)
                        } else if kind == 4 {
                            ControlView::Finished(lease)
                        } else {
                            ControlView::Ready(lease)
                        },
                        rest,
                    ),
                ),
            }
        },
    }
}

fn put_control(out: &mut Vec<u8>, control: &SpeedControl)
    ensures
        final(out)@ == old(out)@ + control_bytes(control@),
{
    match control {
        SpeedControl::Request { test_id, direction, seconds } => {
            put_number(out, 0);
            put_text(out, test_id.as_str());
            put_direction(out, *direction);
            put_number(out, *seconds as u64);
        },
        SpeedControl::Granted(lease) => {
            put_number(out, 1);
            put_lease(out, lease);
        },
        SpeedControl::Busy { test_id } => {
            put_number(out, 2);
            put_text(out, test_id.as_str());
        },
        SpeedControl::Cancel(lease) => {
            put_number(out, 3);
            put_lease(out, lease);
        },
        SpeedControl::Finished(lease) => {
            put_number(out, 4);
            put_lease(out, lease);
        },
        SpeedControl::Ready(lease) => {
            put_number(out, 5);
            put_lease(out, lease);
        },
        SpeedControl::Result { lease, bytes, elapsed_ms } => {
            put_number(out, 6);
            put_lease(out, lease);
            put_number(out, *bytes);
            put_number(out, *elapsed_ms);
        },
    }
    assert(out@ =~= old(out)@ + control_bytes(control@));
}

fn read_speed_request(bytes: &[u8]) -> (result: Option<(SpeedControl, &[u8])>)
    ensures
        match take_speed_request(bytes@) {
            None => result is None,
            Some((control, rest)) => result matches Some((found, left)) && found@ == control
                && left@ == rest,
        },
{
    let (test_id, left) = read_id(bytes)?;
    let (direction, left) = read_direction(left)?;
    let (seconds, left) = read_short(left)?;
    Some((SpeedControl::Request { test_id, direction, seconds }, left))
}

fn read_speed_result(bytes: &[u8]) -> (result: Option<(SpeedControl, &[u8])>)
    ensures
        match take_speed_result(bytes@) {
            None => result is None,
            Some((control, rest)) => result matches Some((found, left)) && found@ == control
                && left@ == rest,
        },
{
    let (lease, left) = read_lease(bytes)?;
    let (bytes, left) = read_long(left)?;
    let (elapsed_ms, left) = read_long(left)?;
    Some((SpeedControl::Result { lease, bytes, elapsed_ms }, left))
}

fn read_control(bytes: &[u8]) -> (result: Option<(SpeedControl, &[u8])>)
    ensures
        match take_control(bytes@) {
            None => result is None,
            Some((control, rest)) => result matches Some((found, left)) && found@ == control
                && left@ == rest,
        },
{
    let (kind, left) = read_int(bytes)?;
    if kind == 0 {
        return read_speed_request(left);
    }
    if kind == 2 {
        let (test_id, left) = read_id(left)?;
        return Some((SpeedControl::Busy { test_id }, left));
    }
    if kind == 6 {
        return read_speed_result(left);
    }
    if kind > 6 {
        return None;
    }
    let (lease, left) = read_lease(left)?;
    let control = if kind == 1 {
        SpeedControl::Granted(lease)
    } else if kind == 3 {
        SpeedControl::Cancel(lease)
    } else if kind == 4 {
        SpeedControl::Finished(lease)
    } else {
        SpeedControl::Ready(lease)
    };
    Some((control, left))
}

/// The identifier that a control message holds.
pub open spec fn control_id(control: ControlView) -> Seq<char> {
    match control {
        ControlView::Request { test_id, .. } => test_id,
        ControlView::Granted(lease) => lease.test_id,
        ControlView::Busy { test_id } => test_id,
        ControlView::Cancel(lease) => lease.test_id,
        ControlView::Finished(lease) => lease.test_id,
        ControlView::Ready(lease) => lease.test_id,
        ControlView::Result { lease, .. } => lease.test_id,
    }
}

proof fn lemma_take_lease_control(control: ControlView, kind: u32, lease: LeaseView, rest: Seq<u8>)
    requires
        is_canonical(lease.test_id, 32),
        kind == 1 && control == ControlView::Granted(lease) || kind == 3 && control
            == ControlView::Cancel(lease) || kind == 4 && control == ControlView::Finished(lease)
            || kind == 5 && control == ControlView::Ready(lease),
    ensures
        take_control((number_bytes(kind as nat) + lease_bytes(lease)) + rest) == Some(
            (control, rest),
        ),
{
    let behind = lease_bytes(lease) + rest;
    assert((number_bytes(kind as nat) + lease_bytes(lease)) + rest =~= number_bytes(kind as nat)
        + behind);
    lemma_take_int(kind, behind);
    lemma_take_lease(lease, rest);
}

proof fn lemma_take_speed_request(
    test_id: Seq<char>,
    direction: SpeedDirection,
    seconds: u16,
    rest: Seq<u8>,
)
    requires
        is_canonical(test_id, 32),
    ensures
        ({
            let control = ControlView::Request { test_id, direction, seconds };
            take_control(control_bytes(control) + rest) == Some((control, rest))
        }),
{
    let control = ControlView::Request { test_id, direction, seconds };
    let after_direction = number_bytes(seconds as nat) + rest;
    let after_id = number_bytes(direction_number(direction)) + after_direction;
    let after_kind = text_bytes(test_id) + after_id;
    assert(control_bytes(control) + rest =~= number_bytes(0) + after_kind);
    lemma_take_int(0, after_kind);
    lemma_take_id(test_id, after_id);
    lemma_take_direction(direction, after_direction);
    lemma_take_short(seconds, rest);
}

proof fn lemma_take_speed_result(lease: LeaseView, bytes: u64, elapsed_ms: u64, rest: Seq<u8>)
    requires
        is_canonical(lease.test_id, 32),
    ensures
        ({
            let control = ControlView::Result { lease, bytes, elapsed_ms };
            take_control(control_bytes(control) + rest) == Some((control, rest))
        }),
{
    let control = ControlView::Result { lease, bytes, elapsed_ms };
    let after_bytes = number_bytes(elapsed_ms as nat) + rest;
    let after_lease = number_bytes(bytes as nat) + after_bytes;
    let after_kind = lease_bytes(lease) + after_lease;
    assert(control_bytes(control) + rest =~= number_bytes(6) + after_kind);
    lemma_take_int(6, after_kind);
    lemma_take_lease(lease, after_lease);
    lemma_take_long(bytes, after_bytes);
    lemma_take_long(elapsed_ms, rest);
}

proof fn lemma_take_busy(test_id: Seq<char>, rest: Seq<u8>)
    requires
        is_canonical(test_id, 32),
    ensures
        ({
            let control = ControlView::Busy { test_id };
            take_control(control_bytes(control) + rest) == Some((control, rest))
        }),
{
    let behind = text_bytes(test_id) + rest;
    assert(control_bytes(ControlView::Busy { test_id }) + rest =~= number_bytes(2) + behind);
    lemma_take_int(2, behind);
    lemma_take_id(test_id, rest);
}

proof fn lemma_take_control(control: ControlView, rest: Seq<u8>)
    requires
        is_canonical(control_id(control), 32),
    ensures
        take_control(control_bytes(control) + rest) == Some((control, rest)),
{
    match control {
        ControlView::Request { test_id, direction, seconds } => {
            lemma_take_speed_request(test_id, direction, seconds, rest);
        },
        ControlView::Granted(lease) => {
            lemma_take_lease_control(control, 1, lease, rest);
        },
        ControlView::Busy { test_id } => {
            lemma_take_busy(test_id, rest);
        },
        ControlView::Cancel(lease) => {
            lemma_take_lease_control(control, 3, lease, rest);
        },
        ControlView::Finished(lease) => {
            lemma_take_lease_control(control, 4, lease, rest);
        },
        ControlView::Ready(lease) => {
            lemma_take_lease_control(control, 5, lease, rest);
        },
        ControlView::Result { lease, bytes, elapsed_ms } => {
            lemma_take_speed_result(lease, bytes, elapsed_ms, rest);
        },
    }
}

/// The number that stands for a kind of message.
pub open spec fn message_kind(message: MessageView) -> nat {
    match message {
        MessageView::Hello { .. } => 0,
        MessageView::Ready => 1,
        MessageView::Offer { .. } => 2,
        MessageView::Resume { .. } => 3,
        MessageView::Pause { .. } => 4,
        MessageView::Paused { .. } => 5,
        MessageView::ResumeTask { .. } => 6,
        MessageView::Completed { .. } => 7,
        MessageView::Error { .. } => 8,
        MessageView::Speed(_) => 9,
        MessageView::RequestChunk { .. } => 10,
        MessageView::Chunk { .. } => 11,
        MessageView::ChunkAck { .. } => 12,
    }
}

/// The bytes of a message behind its kind.
pub open spec fn field_bytes(message: MessageView) -> Seq<u8> {
    match message {
        MessageView::Hello { version, capabilities } => number_bytes(version as nat)
            + number_bytes(capabilities as nat),
        MessageView::Ready => Seq::empty(),
        MessageView::Offer { task_id, group_id, relative_path, entry } => text_bytes(task_id) + (
        maybe_id_bytes(group_id) + (text_bytes(relative_path) + entry_bytes(entry))),
        MessageView::Resume { task_id, root_hash, have } => text_bytes(task_id) + (
        root_hash.bytes() + blob_bytes(have)),
        MessageView::Pause { task_id } => text_bytes(task_id),
        MessageView::Paused { task_id, pause_request_id } => text_bytes(task_id) + number_bytes(
            pause_request_id as nat,
        ),
        MessageView::ResumeTask { task_id } => text_bytes(task_id),
        MessageView::Completed { task_id, root_hash, receipt_version } => text_bytes(task_id) + (
        root_hash.bytes() + number_bytes(receipt_version as nat)),
        MessageView::Error { task_id, code } => text_bytes(task_id) + number_bytes(
            code_number(code),
        ),
        MessageView::Speed(control) => control_bytes(control),
        MessageView::RequestChunk { task_id, index } => text_bytes(task_id) + number_bytes(
            index as nat,
        ),
        MessageView::Chunk { task_id, index, data } => text_bytes(task_id) + (number_bytes(
            index as nat,
        ) + blob_bytes(data)),
        MessageView::ChunkAck { task_id, index } => text_bytes(task_id) + number_bytes(
            index as nat,
        ),
    }
}

/// The bytes of a frame behind its prefix.
pub open spec fn frame_bytes(frame: FrameView) -> Seq<u8> {
    number_bytes(frame.request_id as nat) + (number_bytes(message_kind(frame.message))
        + field_bytes(frame.message))
}

/// Version and capabilities in front.
pub open spec fn take_hello(bytes: Seq<u8>) -> Option<(MessageView, Seq<u8>)> {
    match take_short(bytes) {
        None => None,
        Some((version, rest)) => match take_long(rest) {
            None => None,
            Some((capabilities, rest)) => Some(
                (MessageView::Hello { version, capabilities }, rest),
            ),
        },
    }
}

/// The fields of an offer behind its task.
pub open spec fn take_offer(task_id: Seq<char>, bytes: Seq<u8>) -> Option<(MessageView, Seq<u8>)> {
    match take_maybe_id(bytes) {
        None => None,
        Some((group_id, rest)) => match take_text(rest) {
            None => None,
            Some((relative_path, rest)) => match take_entry(rest) {
                None => None,
                Some((entry, rest)) => Some(
                    (MessageView::Offer { task_id, group_id, relative_path, entry }, rest),
                ),
            },
        },
    }
}

/// The fields of a resumption behind its task.
pub open spec fn take_resume(task_id: Seq<char>, bytes: Seq<u8>) -> Option<
    (MessageView, Seq<u8>),
> {
    match take_hash(bytes) {
        None => None,
        Some((root_hash, rest)) => match take_blob(rest) {
            None => None,
            Some((have, rest)) => Some((MessageView::Resume { task_id, root_hash, have }, rest)),
        },
    }
}

/// The fields of a receipt behind its task.
pub open spec fn take_completed(task_id: Seq<char>, bytes: Seq<u8>) -> Option<
    (MessageView, Seq<u8>),
> {
    match take_hash(bytes) {
        None => None,
        Some((root_hash, rest)) => match take_short(rest) {
            None => None,
            Some((receipt_version, rest)) => Some(
                (MessageView::Completed { task_id, root_hash, receipt_version }, rest),
            ),
        },
    }
}

/// The fields of a chunk behind its task.
pub open spec fn take_chunk(task_id: Seq<char>, bytes: Seq<u8>) -> Option<(MessageView, Seq<u8>)> {
    match take_int(bytes) {
        None => None,
        Some((index, rest)) => match take_blob(rest) {
            None => None,
            Some((data, rest)) => Some((MessageView::Chunk { task_id, index, data }, rest)),
        },
    }
}

/// The error code in front.
pub open spec fn take_code(bytes: Seq<u8>) -> Option<(ErrorCode, Seq<u8>)> {
    match take_int(bytes) {
        None => None,
        Some((number, rest)) => match code_of(number as nat) {
            None => None,
            Some(code) => Some((code, rest)),
        },
    }
}

/// The fields of a message about a task, behind that task.
pub open spec fn take_task_fields(kind: u32, task_id: Seq<char>, bytes: Seq<u8>) -> Option<
    (MessageView, Seq<u8>),
> {
    if kind == 2 {
        take_offer(task_id, bytes)
    } else if kind == 3 {
        take_resume(task_id, bytes)
    } else if kind == 4 {
        Some((MessageView::Pause { task_id }, bytes))
    } else if kind == 5 {
        match take_long(bytes) {
            None => None,
            Some((pause_request_id, rest)) => Some(
                (MessageView::Paused { task_id, pause_request_id }, rest),
            ),
        }
    } else if kind == 6 {
        Some((MessageView::ResumeTask { task_id }, bytes))
    } else if kind == 7 {
        take_completed(task_id, bytes)
    } else if kind == 8 {
        match take_code(bytes) {
            None => None,
            Some((code, rest)) => Some((MessageView::Error { task_id, code }, rest)),
        }
    } else if kind == 11 {
        take_chunk(task_id, bytes)
    } else {
        match take_int(bytes) {
            None => None,
            Some((index, rest)) => Some(
                (
                    if kind == 10 {
                        MessageView::RequestChunk { task_id, index }
                    } else {
                        MessageView::ChunkAck { task_id, index }
                    },
                    rest,
                ),
            ),
        }
    }
}

/// The fields of a message behind its kind.
pub open spec fn take_fields(kind: u32, bytes: Seq<u8>) -> Option<(MessageView, Seq<u8>)> {
    if kind == 0 {
        take_hello(bytes)
    } else if kind == 1 {
        Some((MessageView::Ready, bytes))
    } else if kind == 9 {
        match take_control(bytes) {
            None => None,
            Some((control, rest)) => Some((MessageView::Speed(control), rest)),
        }
    } else if kind > 12 {
        None
    } else {
        match take_id(bytes) {
            None => None,
            Some((task_id, rest)) => take_task_fields(kind, task_id, rest),
        }
    }
}

/// The frame in front.
pub open spec fn take_frame(bytes: Seq<u8>) -> Option<(FrameView, Seq<u8>)> {
    match take_long(bytes) {
        None => None,
        Some((request_id, rest)) => match take_int(rest) {
            None => None,
            Some((kind, rest)) => match take_fields(kind, rest) {
                None => None,
                Some((message, rest)) => Some((FrameView { request_id, message }, rest)),
            },
        },
    }
}

fn put_code(out: &mut Vec<u8>, code: ErrorCode)
    ensures
        final(out)@ == old(out)@ + number_bytes(code_number(code)),
{
    let number: u64 = match code {
        ErrorCode::UnsupportedVersion => 0,
        ErrorCode::UnsupportedCapability => 1,
        ErrorCode::UnknownTask => 2,
        ErrorCode::WrongPeer => 3,
        ErrorCode::InvalidState => 4,
        ErrorCode::InvalidPath => 5,
        ErrorCode::InvalidManifest => 6,
        ErrorCode::Busy => 7,
        ErrorCode::SourceChanged => 8,
        ErrorCode::SourceMissing => 9,
        ErrorCode::Storage => 10,
        ErrorCode::Interrupted => 11,
    };
    put_number(out, number);
}

fn read_code(bytes: &[u8]) -> (result: Option<(ErrorCode, &[u8])>)
    ensures
        match take_code(bytes@) {
            None => result is None,
            Some((code, rest)) => result matches Some((found, left)) && found == code && left@
                == rest,
        },
{
    let (number, left) = read_int(bytes)?;
    let code = match number {
        0 => ErrorCode::UnsupportedVersion,
        1 => ErrorCode::UnsupportedCapability,
        2 => ErrorCode::UnknownTask,
        3 => ErrorCode::WrongPeer,
        4 => ErrorCode::InvalidState,
        5 => ErrorCode::InvalidPath,
        6 => ErrorCode::InvalidManifest,
        7 => ErrorCode::Busy,
        8 => ErrorCode::SourceChanged,
        9 => ErrorCode::SourceMissing,
        10 => ErrorCode::Storage,
        11 => ErrorCode::Interrupted,
        _ => {
            return None;
        },
    };
    Some((code, left))
}

/// Appends the kind of a message and its fields.
#[verifier::rlimit(40)]
fn put_message(out: &mut Vec<u8>, message: &Message)
    ensures
        final(out)@ == old(out)@ + (number_bytes(message_kind(message@)) + field_bytes(message@)),
{
    match message {
        Message::Hello { version, capabilities } => {
            put_number(out, 0);
            put_number(out, *version as u64);
            put_number(out, *capabilities);
        },
        Message::Ready => {
            put_number(out, 1);
        },
        Message::Offer { task_id, group_id, relative_path, entry } => {
            put_number(out, 2);
            put_text(out, task_id.as_str());
            put_maybe_id(out, group_id);
            put_text(out, relative_path.as_str());
            put_entry(out, entry);
        },
        Message::Resume { task_id, root_hash, have } => {
            put_number(out, 3);
            put_text(out, task_id.as_str());
            put_hash(out, root_hash);
            put_blob(out, have.as_slice());
        },
        Message::Pause { task_id } => {
            put_number(out, 4);
            put_text(out, task_id.as_str());
        },
        Message::Paused { task_id, pause_request_id } => {
            put_number(out, 5);
            put_text(out, task_id.as_str());
            put_number(out, *pause_request_id);
        },
        Message::ResumeTask { task_id } => {
            put_number(out, 6);
            put_text(out, task_id.as_str());
        },
        Message::Completed { task_id, root_hash, receipt_version } => {
            put_number(out, 7);
            put_text(out, task_id.as_str());
            put_hash(out, root_hash);
            put_number(out, *receipt_version as u64);
        },
        Message::Error { task_id, code } => {
            put_number(out, 8);
            put_text(out, task_id.as_str());
            put_code(out, *code);
        },
        Message::Speed(control) => {
            put_number(out, 9);
            put_control(out, control);
        },
        Message::RequestChunk { task_id, index } => {
            put_number(out, 10);
            put_text(out, task_id.as_str());
            put_number(out, *index as u64);
        },
        Message::Chunk { task_id, index, data } => {
            put_number(out, 11);
            put_text(out, task_id.as_str());
            put_number(out, *index as u64);
            put_blob(out, data.as_slice());
        },
        Message::ChunkAck { task_id, index } => {
            put_number(out, 12);
            put_text(out, task_id.as_str());
            put_number(out, *index as u64);
        },
    }
    assert(out@ =~= old(out)@ + (number_bytes(message_kind(message@)) + field_bytes(message@)));
}

fn read_hello(bytes: &[u8]) -> (result: Option<(Message, &[u8])>)
    ensures
        match take_hello(bytes@) {
            None => result is None,
            Some((message, rest)) => result matches Some((found, left)) && found@ == message
                && left@ == rest,
        },
{
    let (version, left) = read_short(bytes)?;
    let (capabilities, left) = read_long(left)?;
    Some((Message::Hello { version, capabilities }, left))
}

fn read_offer<'a>(task_id: TaskId, bytes: &'a [u8]) -> (result: Option<(Message, &'a [u8])>)
    ensures
        match take_offer(task_id@, bytes@) {
            None => result is None,
            Some((message, rest)) => result matches Some((found, left)) && found@ == message
                && left@ == rest,
        },
{
    let (group_id, left) = read_maybe_id(bytes)?;
    let (relative_path, left) = read_text(left)?;
    let (entry, left) = read_entry(left)?;
    Some((Message::Offer { task_id, group_id, relative_path, entry }, left))
}

fn read_resume<'a>(task_id: TaskId, bytes: &'a [u8]) -> (result: Option<(Message, &'a [u8])>)
    ensures
        match take_resume(task_id@, bytes@) {
            None => result is None,
            Some((message, rest)) => result matches Some((found, left)) && found@ == message
                && left@ == rest,
        },
{
    let (root_hash, left) = read_hash(bytes)?;
    let (have, left) = read_blob(left)?;
    Some((Message::Resume { task_id, root_hash, have }, left))
}

fn read_completed<'a>(task_id: TaskId, bytes: &'a [u8]) -> (result: Option<(Message, &'a [u8])>)
    ensures
        match take_completed(task_id@, bytes@) {
            None => result is None,
            Some((message, rest)) => result matches Some((found, left)) && found@ == message
                && left@ == rest,
        },
{
    let (root_hash, left) = read_hash(bytes)?;
    let (receipt_version, left) = read_short(left)?;
    Some((Message::Completed { task_id, root_hash, receipt_version }, left))
}

fn read_chunk<'a>(task_id: TaskId, bytes: &'a [u8]) -> (result: Option<(Message, &'a [u8])>)
    ensures
        match take_chunk(task_id@, bytes@) {
            None => result is None,
            Some((message, rest)) => result matches Some((found, left)) && found@ == message
                && left@ == rest,
        },
{
    let (index, left) = read_int(bytes)?;
    let (data, left) = read_blob(left)?;
    Some((Message::Chunk { task_id, index, data }, left))
}

fn read_task_fields<'a>(kind: u32, task_id: TaskId, bytes: &'a [u8]) -> (result: Option<
    (Message, &'a [u8]),
>)
    ensures
        match take_task_fields(kind, task_id@, bytes@) {
            None => result is None,
            Some((message, rest)) => result matches Some((found, left)) && found@ == message
                && left@ == rest,
        },
{
    if kind == 2 {
        return read_offer(task_id, bytes);
    }
    if kind == 3 {
        return read_resume(task_id, bytes);
    }
    if kind == 4 {
        return Some((Message::Pause { task_id }, bytes));
    }
    if kind == 5 {
        let (pause_request_id, left) = read_long(bytes)?;
        return Some((Message::Paused { task_id, pause_request_id }, left));
    }
    if kind == 6 {
        return Some((Message::ResumeTask { task_id }, bytes));
    }
    if kind == 7 {
        return read_completed(task_id, bytes);
    }
    if kind == 8 {
        let (code, left) = read_code(bytes)?;
        return Some((Message::Error { task_id, code }, left));
    }
    if kind == 11 {
        return read_chunk(task_id, bytes);
    }
    let (index, left) = read_int(bytes)?;
    if kind == 10 {
        Some((Message::RequestChunk { task_id, index }, left))
    } else {
        Some((Message::ChunkAck { task_id, index }, left))
    }
}

fn read_fields(kind: u32, bytes: &[u8]) -> (result: Option<(Message, &[u8])>)
    ensures
        match take_fields(kind, bytes@) {
            None => result is None,
            Some((message, rest)) => result matches Some((found, left)) && found@ == message
                && left@ == rest,
        },
{
    if kind == 0 {
        return read_hello(bytes);
    }
    if kind == 1 {
        return Some((Message::Ready, bytes));
    }
    if kind == 9 {
        let (control, left) = read_control(bytes)?;
        return Some((Message::Speed(control), left));
    }
    if kind > 12 {
        return None;
    }
    let (task_id, left) = read_id(bytes)?;
    read_task_fields(kind, task_id, left)
}

fn read_frame(bytes: &[u8]) -> (result: Option<(Frame, &[u8])>)
    ensures
        match take_frame(bytes@) {
            None => result is None,
            Some((frame, rest)) => result matches Some((found, left)) && found@ == frame && left@
                == rest,
        },
{
    let (request_id, left) = read_long(bytes)?;
    let (kind, left) = read_int(left)?;
    let (message, left) = read_fields(kind, left)?;
    Some((Frame { request_id, message }, left))
}

impl EntryView {
    /// Why an entry is refused under this path, if it is.
    pub open spec fn refusal(self, relative_path: Seq<char>) -> Option<Seq<char>> {
        if path_refusal(relative_path) is Some {
            path_refusal(relative_path)
        } else {
            match self {
                EntryView::Directory => None,
                EntryView::File(manifest) => if manifest.refusal() is Some {
                    manifest.refusal()
                } else if manifest.chunks.len() > MAX_CHUNKS || manifest.total_len > MAX_FILE_BYTES
                    || manifest.file_name != base_name(relative_path) {
                    Some("桌面清单超限或文件名与相对路径不一致"@)
                } else {
                    None
                },
            }
        }
    }
}

impl ControlView {
    /// Why a control message is refused, if it is.
    pub open spec fn refusal(self) -> Option<Seq<char>> {
        match self {
            ControlView::Request { seconds, .. } => seconds_refusal(seconds),
            ControlView::Granted(lease) => seconds_refusal(lease.seconds),
            ControlView::Busy { .. } => None,
            ControlView::Cancel(lease) => seconds_refusal(lease.seconds),
            ControlView::Finished(lease) => seconds_refusal(lease.seconds),
            ControlView::Ready(lease) => seconds_refusal(lease.seconds),
            ControlView::Result { lease, .. } => seconds_refusal(lease.seconds),
        }
    }
}

impl FrameView {
    /// Whether the message is about a task or a test.
    pub open spec fn has_subject(self) -> bool {
        !(self.message is Hello || self.message is Ready)
    }

    /// Why a frame is refused, if it is.
    pub open spec fn refusal(self) -> Option<Seq<char>> {
        if self.has_subject() != (self.request_id != 0) {
            Some("桌面请求编号非法"@)
        } else {
            match self.message {
                MessageView::Offer { relative_path, entry, .. } => entry.refusal(relative_path),
                MessageView::Speed(control) => control.refusal(),
                MessageView::Resume { have, .. } => if have.len() > pieces_needed(
                    MAX_CHUNKS as nat,
                    8,
                ) {
                    Some("桌面恢复位图超限"@)
                } else {
                    None
                },
                MessageView::Completed { receipt_version, .. } => if receipt_version
                    != RECEIPT_VERSION {
                    Some("不支持的完成回执版本"@)
                } else {
                    None
                },
                _ => None,
            }
        }
    }

    /// Whether identifiers are canonical and lengths are what a machine can hold, as
    /// they are in every frame that exists.
    pub open spec fn sound(self) -> bool {
        match self.message {
            MessageView::Hello { .. } => true,
            MessageView::Ready => true,
            MessageView::Offer { task_id, group_id, relative_path, entry } => {
                &&& is_canonical(task_id, 32)
                &&& group_id matches Some(group) ==> is_canonical(group, 32)
                &&& encode_utf8(relative_path).len() <= usize::MAX
                &&& entry_fits(entry)
            },
            MessageView::Resume { task_id, have, .. } => is_canonical(task_id, 32) && have.len()
                <= usize::MAX,
            MessageView::Pause { task_id } => is_canonical(task_id, 32),
            MessageView::Paused { task_id, .. } => is_canonical(task_id, 32),
            MessageView::ResumeTask { task_id } => is_canonical(task_id, 32),
            MessageView::Completed { task_id, .. } => is_canonical(task_id, 32),
            MessageView::Error { task_id, .. } => is_canonical(task_id, 32),
            MessageView::Speed(control) => is_canonical(control_id(control), 32),
            MessageView::RequestChunk { task_id, .. } => is_canonical(task_id, 32),
            MessageView::Chunk { task_id, data, .. } => is_canonical(task_id, 32) && data.len()
                <= usize::MAX,
            MessageView::ChunkAck { task_id, .. } => is_canonical(task_id, 32),
        }
    }
}

/// A frame is refused for what it holds.
pub proof fn frames_are_judged_by_content(frame: Frame)
    ensures
        frame.refusal() == frame@.refusal(),
{
}

/// What a frame is written as, or why it is not written.
pub open spec fn encoding(frame: FrameView) -> std::result::Result<Seq<u8>, Seq<char>> {
    let bytes = frame_prefix() + frame_bytes(frame);
    match frame.refusal() {
        Some(refusal) => Err(refusal),
        None => if bytes.len() > MAX_FRAME_BYTES {
            Err("桌面帧超限"@)
        } else {
            Ok(bytes)
        },
    }
}

/// What some bytes are read as, or why they are not read.
pub open spec fn decoding(bytes: Seq<u8>) -> std::result::Result<FrameView, Seq<char>> {
    let size = frame_prefix().len() as int;
    if bytes.len() > MAX_FRAME_BYTES {
        Err("桌面帧超限"@)
    } else if bytes.len() < size || bytes.take(size) != frame_prefix() {
        Err("对端不支持桌面协议"@)
    } else {
        match take_frame(bytes.skip(size)) {
            None => Err("桌面帧编码非法"@),
            Some((frame, rest)) => if rest.len() > 0 {
                Err("桌面帧含多余字节"@)
            } else {
                match frame.refusal() {
                    Some(refusal) => Err(refusal),
                    None => Ok(frame),
                }
            },
        }
    }
}

impl Frame {
    /// Writes a frame: checked, behind the prefix and within the limit.
    pub fn encode(&self) -> (result: Result<Vec<u8>>)
        ensures
            match encoding(self@) {
                Ok(bytes) => result matches Ok(written) && written@ == bytes,
                Err(message) => result matches Err(error) && error.refuses(message),
            },
    {
        proof {
            frames_are_judged_by_content(*self);
        }
        self.validate()?;
        let mut bytes: Vec<u8> = Vec::new();
        bytes.push(0x50);
        bytes.push(0x32);
        bytes.push(0x50);
        bytes.push(0x44);
        bytes.push(0x01);
        assert(bytes@ =~= frame_prefix());
        put_number(&mut bytes, self.request_id);
        put_message(&mut bytes, &self.message);
        assert(bytes@ =~= frame_prefix() + frame_bytes(self@));
        if bytes.len() > MAX_FRAME_BYTES as usize {
            return Err(invalid("桌面帧超限"));
        }
        Ok(bytes)
    }

    /// Reads a frame: within the limit, behind the prefix, with nothing left over, and
    /// checked.
    pub fn decode(bytes: &[u8]) -> (result: Result<Frame>)
        ensures
            match decoding(bytes@) {
                Ok(frame) => result matches Ok(read) && read@ == frame,
                Err(message) => result matches Err(error) && error.refuses(message),
            },
    {
        if bytes.len() > MAX_FRAME_BYTES as usize {
            return Err(invalid("桌面帧超限"));
        }
        if bytes.len() < 5 || bytes[0] != 0x50 || bytes[1] != 0x32 || bytes[2] != 0x50 || bytes[3]
            != 0x44 || bytes[4] != 0x01 {
            proof {
                if bytes@.len() >= 5 && bytes@.take(5) == frame_prefix() {
                    assert(bytes@.take(5)[0] == 0x50);
                    assert(bytes@.take(5)[1] == 0x32);
                    assert(bytes@.take(5)[2] == 0x50);
                    assert(bytes@.take(5)[3] == 0x44);
                    assert(bytes@.take(5)[4] == 0x01);
                }
            }
            return Err(invalid("对端不支持桌面协议"));
        }
        assert(bytes@.take(5) =~= frame_prefix());
        let payload = slice_subrange(bytes, 5, bytes.len());
        assert(payload@ =~= bytes@.skip(5));
        match read_frame(payload) {
            None => Err(invalid("桌面帧编码非法")),
            Some((frame, trailing)) => {
                if trailing.len() > 0 {
                    return Err(invalid("桌面帧含多余字节"));
                }
                proof {
                    frames_are_judged_by_content(frame);
                }
                frame.validate()?;
                Ok(frame)
            },
        }
    }
}

proof fn lemma_take_offer(message: MessageView, rest: Seq<u8>)
    requires
        message is Offer,
        (FrameView { request_id: 1, message }).sound(),
    ensures
        take_fields(2, field_bytes(message) + rest) == Some((message, rest)),
{
    match message {
        MessageView::Offer { task_id, group_id, relative_path, entry } => {
            let after_path = entry_bytes(entry) + rest;
            let after_group = text_bytes(relative_path) + after_path;
            let after_id = maybe_id_bytes(group_id) + after_group;
            assert(field_bytes(message) + rest =~= text_bytes(task_id) + after_id);
            lemma_take_id(task_id, after_id);
            lemma_take_maybe_id(group_id, after_group);
            lemma_take_text(relative_path, after_path);
            lemma_take_entry(entry, rest);
        },
        _ => {},
    }
}

proof fn lemma_take_hash_messages(message: MessageView, rest: Seq<u8>)
    requires
        message is Resume || message is Completed,
        (FrameView { request_id: 1, message }).sound(),
    ensures
        take_fields(message_kind(message) as u32, field_bytes(message) + rest) == Some(
            (message, rest),
        ),
{
    match message {
        MessageView::Resume { task_id, root_hash, have } => {
            let after_hash = blob_bytes(have) + rest;
            let after_id = root_hash.bytes() + after_hash;
            assert(field_bytes(message) + rest =~= text_bytes(task_id) + after_id);
            lemma_take_id(task_id, after_id);
            lemma_take_hash(root_hash, after_hash);
            lemma_take_blob(have, rest);
        },
        MessageView::Completed { task_id, root_hash, receipt_version } => {
            let after_hash = number_bytes(receipt_version as nat) + rest;
            let after_id = root_hash.bytes() + after_hash;
            assert(field_bytes(message) + rest =~= text_bytes(task_id) + after_id);
            lemma_take_id(task_id, after_id);
            lemma_take_hash(root_hash, after_hash);
            lemma_take_short(receipt_version, rest);
        },
        _ => {},
    }
}

proof fn lemma_take_chunk_messages(message: MessageView, rest: Seq<u8>)
    requires
        message is RequestChunk || message is Chunk || message is ChunkAck,
        (FrameView { request_id: 1, message }).sound(),
    ensures
        take_fields(message_kind(message) as u32, field_bytes(message) + rest) == Some(
            (message, rest),
        ),
{
    match message {
        MessageView::RequestChunk { task_id, index } => {
            let after_id = number_bytes(index as nat) + rest;
            assert(field_bytes(message) + rest =~= text_bytes(task_id) + after_id);
            lemma_take_id(task_id, after_id);
            lemma_take_int(index, rest);
        },
        MessageView::Chunk { task_id, index, data } => {
            let after_index = blob_bytes(data) + rest;
            let after_id = number_bytes(index as nat) + after_index;
            assert(field_bytes(message) + rest =~= text_bytes(task_id) + after_id);
            lemma_take_id(task_id, after_id);
            lemma_take_int(index, after_index);
            lemma_take_blob(data, rest);
        },
        MessageView::ChunkAck { task_id, index } => {
            let after_id = number_bytes(index as nat) + rest;
            assert(field_bytes(message) + rest =~= text_bytes(task_id) + after_id);
            lemma_take_id(task_id, after_id);
            lemma_take_int(index, rest);
        },
        _ => {},
    }
}

proof fn lemma_take_short_messages(message: MessageView, rest: Seq<u8>)
    requires
        message is Pause || message is Paused || message is ResumeTask || message is Error,
        (FrameView { request_id: 1, message }).sound(),
    ensures
        take_fields(message_kind(message) as u32, field_bytes(message) + rest) == Some(
            (message, rest),
        ),
{
    match message {
        MessageView::Pause { task_id } => {
            lemma_take_id(task_id, rest);
        },
        MessageView::ResumeTask { task_id } => {
            lemma_take_id(task_id, rest);
        },
        MessageView::Paused { task_id, pause_request_id } => {
            let after_id = number_bytes(pause_request_id as nat) + rest;
            assert(field_bytes(message) + rest =~= text_bytes(task_id) + after_id);
            lemma_take_id(task_id, after_id);
            lemma_take_long(pause_request_id, rest);
        },
        MessageView::Error { task_id, code } => {
            let after_id = number_bytes(code_number(code)) + rest;
            assert(field_bytes(message) + rest =~= text_bytes(task_id) + after_id);
            lemma_take_id(task_id, after_id);
            lemma_take_int(code_number(code) as u32, rest);
        },
        _ => {},
    }
}

/// The fields of a message read back.
proof fn lemma_take_fields(message: MessageView, rest: Seq<u8>)
    requires
        (FrameView { request_id: 1, message }).sound(),
    ensures
        take_fields(message_kind(message) as u32, field_bytes(message) + rest) == Some(
            (message, rest),
        ),
{
    match message {
        MessageView::Hello { version, capabilities } => {
            let after_version = number_bytes(capabilities as nat) + rest;
            assert(field_bytes(message) + rest =~= number_bytes(version as nat) + after_version);
            lemma_take_short(version, after_version);
            lemma_take_long(capabilities, rest);
        },
        MessageView::Ready => {
            assert(field_bytes(message) + rest =~= rest);
        },
        MessageView::Speed(control) => {
            lemma_take_control(control, rest);
        },
        MessageView::Offer { .. } => {
            lemma_take_offer(message, rest);
        },
        MessageView::Resume { .. } => {
            lemma_take_hash_messages(message, rest);
        },
        MessageView::Completed { .. } => {
            lemma_take_hash_messages(message, rest);
        },
        MessageView::RequestChunk { .. } => {
            lemma_take_chunk_messages(message, rest);
        },
        MessageView::Chunk { .. } => {
            lemma_take_chunk_messages(message, rest);
        },
        MessageView::ChunkAck { .. } => {
            lemma_take_chunk_messages(message, rest);
        },
        _ => {
            lemma_take_short_messages(message, rest);
        },
    }
}

/// A frame in front reads back, whatever follows it.
proof fn lemma_take_frame(frame: FrameView, rest: Seq<u8>)
    requires
        frame.sound(),
    ensures
        take_frame(frame_bytes(frame) + rest) == Some((frame, rest)),
{
    let kind = message_kind(frame.message);
    let after_kind = field_bytes(frame.message) + rest;
    let after_number = number_bytes(kind) + after_kind;
    assert(frame_bytes(frame) + rest =~= number_bytes(frame.request_id as nat) + after_number);
    lemma_take_long(frame.request_id, after_number);
    lemma_take_int(kind as u32, after_kind);
    lemma_take_fields(frame.message, rest);
}

/// Reading a written frame gives the frame back.
pub proof fn written_frames_read_back(frame: FrameView)
    requires
        frame.sound(),
    ensures
        encoding(frame) matches Ok(bytes) ==> decoding(bytes) == Ok::<FrameView, Seq<char>>(frame),
{
    let bytes = frame_prefix() + frame_bytes(frame);
    let size = frame_prefix().len() as int;
    assert(bytes.take(size) =~= frame_prefix());
    assert(bytes.skip(size) =~= frame_bytes(frame) + Seq::<u8>::empty());
    lemma_take_frame(frame, Seq::empty());
}

/// A written frame with anything behind it is refused.
pub proof fn trailing_bytes_are_refused(frame: FrameView, extra: Seq<u8>)
    requires
        frame.sound(),
        extra.len() > 0,
    ensures
        encoding(frame) matches Ok(bytes) ==> decoding(bytes + extra) is Err,
{
    let bytes = frame_prefix() + frame_bytes(frame);
    let size = frame_prefix().len() as int;
    assert((bytes + extra).take(size) =~= frame_prefix());
    assert((bytes + extra).skip(size) =~= frame_bytes(frame) + extra);
    lemma_take_frame(frame, extra);
}

/// Two frames are never written alike.
pub proof fn frames_are_written_apart(left: FrameView, right: FrameView)
    requires
        left.sound(),
        right.sound(),
        encoding(left) is Ok,
        encoding(left) == encoding(right),
    ensures
        left == right,
{
    written_frames_read_back(left);
    written_frames_read_back(right);
}

/// Only checked frames are read.
pub proof fn read_frames_are_valid(bytes: Seq<u8>)
    ensures
        decoding(bytes) matches Ok(frame) ==> frame.refusal() is None,
{
}

/// The length in front of a frame on a stream: four bytes, low end first.
pub open spec fn header_length(header: Seq<u8>) -> nat {
    header[0] as nat + 256 * (header[1] as nat) + 65536 * (header[2] as nat) + 16777216 * (
    header[3] as nat)
}

/// The four bytes in front of a frame of this length.
pub fn frame_header(length: u32) -> (header: [u8; 4])
    ensures
        header_length(header@) == length,
{
    let header: [u8; 4] = [
        (length % 256) as u8,
        (length / 256 % 256) as u8,
        (length / 65536 % 256) as u8,
        (length / 16777216) as u8,
    ];
    header
}

/// Reads the length in front of a frame; one above the limit is refused before
/// anything else is read.
pub fn read_header(header: [u8; 4]) -> (result: Result<u32>)
    ensures
        decided(
            result,
            if header_length(header@) > MAX_FRAME_BYTES {
                Some("桌面帧超限"@)
            } else {
                None
            },
        ),
        result matches Ok(length) ==> length == header_length(header@),
{
    let length: u64 = header[0] as u64 + 256 * (header[1] as u64) + 65536 * (header[2] as u64)
        + 16777216 * (header[3] as u64);
    if length > MAX_FRAME_BYTES as u64 {
        Err(invalid("桌面帧超限"))
    } else {
        Ok(length as u32)
    }
}

/// The numbers on the wire stay what they are: those of the messages, of the errors and of
/// the directions, and the five bytes in front of every frame.
pub proof fn numbers_on_the_wire_are_fixed(
    message: MessageView,
    code: ErrorCode,
    direction: SpeedDirection,
)
    ensures
        frame_prefix() == seq![0x50u8, 0x32u8, 0x50u8, 0x44u8, 0x01u8],
        message is Hello ==> message_kind(message) == 0,
        message is Ready ==> message_kind(message) == 1,
        message is Offer ==> message_kind(message) == 2,
        message is Resume ==> message_kind(message) == 3,
        message is Pause ==> message_kind(message) == 4,
        message is Paused ==> message_kind(message) == 5,
        message is ResumeTask ==> message_kind(message) == 6,
        message is Completed ==> message_kind(message) == 7,
        message is Error ==> message_kind(message) == 8,
        message is Speed ==> message_kind(message) == 9,
        message is RequestChunk ==> message_kind(message) == 10,
        message is Chunk ==> message_kind(message) == 11,
        message is ChunkAck ==> message_kind(message) == 12,
        code == ErrorCode::UnsupportedVersion ==> code_number(code) == 0,
        code == ErrorCode::UnsupportedCapability ==> code_number(code) == 1,
        code == ErrorCode::UnknownTask ==> code_number(code) == 2,
        code == ErrorCode::WrongPeer ==> code_number(code) == 3,
        code == ErrorCode::InvalidState ==> code_number(code) == 4,
        code == ErrorCode::InvalidPath ==> code_number(code) == 5,
        code == ErrorCode::InvalidManifest ==> code_number(code) == 6,
        code == ErrorCode::Busy ==> code_number(code) == 7,
        code == ErrorCode::SourceChanged ==> code_number(code) == 8,
        code == ErrorCode::SourceMissing ==> code_number(code) == 9,
        code == ErrorCode::Storage ==> code_number(code) == 10,
        code == ErrorCode::Interrupted ==> code_number(code) == 11,
        direction_number(direction) == 0 <==> direction == SpeedDirection::Upload,
        direction_number(direction) <= 1,
{
}

/// The length in front of a frame is told with its lowest byte first, so different lengths
/// have different headers and none is lost.
pub proof fn headers_tell_the_length(header: Seq<u8>, other: Seq<u8>)
    requires
        header.len() == 4,
        other.len() == 4,
    ensures
        header_length(header) < 4294967296,
        header_length(header) % 256 == header[0],
        header_length(header) / 256 % 256 == header[1],
        header_length(header) / 65536 % 256 == header[2],
        header_length(header) / 16777216 == header[3],
        header_length(header) == header_length(other) ==> header == other,
{
    assert(header_length(header) == header_length(other) ==> header[0] == other[0] && header[1]
        == other[1] && header[2] == other[2] && header[3] == other[3]);
    if header_length(header) == header_length(other) {
        assert(header =~= other);
    }
}

} // verus!
