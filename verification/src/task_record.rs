//! The durable record of one task and the only ways in which it may change.

use vstd::prelude::*;
use vstd::utf8::encode_utf8;

use crate::manifest::{
    count_pieces, validate_chunk_size, ChunkHash, FileManifest, ManifestView, DEFAULT_CHUNK_SIZE,
};
use crate::paths::{is_portable, validate_relative_path};
use crate::task_model::{
    IdentityView, LocalPath, LocalTaskPath, ManifestIdentity, PathView, PeerId, ProgressHint,
    TaskDiagnostic, TaskDirection, TaskId, TaskModelError, TaskPathView, TaskState,
    TASK_RECORD_SCHEMA_VERSION,
};
use crate::text::{pieces, split_text, views};

verus! {

/// The file that a task moves, as mathematical values.
pub struct FileView {
    pub relative_path: Seq<char>,
    pub manifest: ManifestView,
    pub source_root: Option<PathView>,
    pub receipt_committed: bool,
}

/// The directory that a task creates, as mathematical values.
pub struct DirectoryView {
    pub relative_path: Seq<char>,
    pub receipt_committed: bool,
}

/// What a task moves, as mathematical values.
pub enum DetailsView {
    Content,
    File(FileView),
    Directory(DirectoryView),
}

/// The file that a task moves.
#[derive(Debug)]
pub struct FileDetails {
    pub relative_path: String,
    pub manifest: FileManifest,
    pub source_root: Option<LocalPath>,
    pub receipt_committed: bool,
}

/// The directory that a task creates.
#[derive(Debug)]
pub struct DirectoryDetails {
    pub relative_path: String,
    pub receipt_committed: bool,
}

/// What a task moves.
#[derive(Debug)]
pub enum TaskDetails {
    Content,
    File(FileDetails),
    Directory(DirectoryDetails),
}

/// The view of an optional path.
pub open spec fn path_view(path: Option<LocalPath>) -> Option<PathView> {
    match path {
        Some(found) => Some(found@),
        None => None,
    }
}

/// The view of an optional task identifier.
pub open spec fn id_view(id: Option<TaskId>) -> Option<Seq<char>> {
    match id {
        Some(found) => Some(found@),
        None => None,
    }
}

impl View for FileDetails {
    type V = FileView;

    open spec fn view(&self) -> FileView {
        FileView {
            relative_path: self.relative_path@,
            manifest: self.manifest@,
            source_root: path_view(self.source_root),
            receipt_committed: self.receipt_committed,
        }
    }
}

impl View for DirectoryDetails {
    type V = DirectoryView;

    open spec fn view(&self) -> DirectoryView {
        DirectoryView {
            relative_path: self.relative_path@,
            receipt_committed: self.receipt_committed,
        }
    }
}

impl View for TaskDetails {
    type V = DetailsView;

    open spec fn view(&self) -> DetailsView {
        match self {
            TaskDetails::Content => DetailsView::Content,
            TaskDetails::File(file) => DetailsView::File(file@),
            TaskDetails::Directory(directory) => DetailsView::Directory(directory@),
        }
    }
}

impl DetailsView {
    /// The relative path, where there is one.
    pub open spec fn relative_path(self) -> Option<Seq<char>> {
        match self {
            DetailsView::Content => None,
            DetailsView::File(file) => Some(file.relative_path),
            DetailsView::Directory(directory) => Some(directory.relative_path),
        }
    }

    /// Whether the receiver's receipt is committed.
    pub open spec fn receipt(self) -> bool {
        match self {
            DetailsView::Content => false,
            DetailsView::File(file) => file.receipt_committed,
            DetailsView::Directory(directory) => directory.receipt_committed,
        }
    }

    /// The same details with the receipt committed.
    pub open spec fn with_receipt(self) -> DetailsView {
        match self {
            DetailsView::Content => DetailsView::Content,
            DetailsView::File(file) => DetailsView::File(
                FileView { receipt_committed: true, ..file },
            ),
            DetailsView::Directory(directory) => DetailsView::Directory(
                DirectoryView { receipt_committed: true, ..directory },
            ),
        }
    }

    /// Whether two details bind the same thing; the receipt is no part of that.
    pub open spec fn same_binding(self, other: DetailsView) -> bool {
        match (self, other) {
            (DetailsView::Content, DetailsView::Content) => true,
            (DetailsView::File(left), DetailsView::File(right)) => left.relative_path
                == right.relative_path && left.manifest == right.manifest,
            (DetailsView::Directory(left), DetailsView::Directory(right)) => left.relative_path
                == right.relative_path,
            _ => false,
        }
    }
}

/// A task, as mathematical values.
pub struct TaskView {
    pub schema_version: u32,
    pub task_id: Seq<char>,
    pub peer_id: Seq<char>,
    pub direction: TaskDirection,
    pub local_path: TaskPathView,
    pub manifest_identity: IdentityView,
    pub state: TaskState,
    pub created_at: i64,
    pub updated_at: i64,
    pub diagnostic: Option<TaskDiagnostic>,
    pub progress_hint: Option<ProgressHint>,
    pub details: DetailsView,
    pub group_id: Option<Seq<char>>,
}

/// The last component of a relative path.
pub open spec fn base_name(path: Seq<char>) -> Seq<char> {
    pieces(path, '/').last()
}

/// The content identity of a directory: its name, and nothing else.
pub open spec fn directory_identity(relative_path: Seq<char>) -> IdentityView {
    IdentityView::of_content(
        ChunkHash::digest(encode_utf8(relative_path)).bytes(),
        0,
        DEFAULT_CHUNK_SIZE,
    )
}

/// Whether a progress sample fits the content.
pub open spec fn hint_fits(hint: ProgressHint, identity: IdentityView) -> bool {
    hint.verified_bytes <= identity.total_bytes && hint.sampled_at_unix_ms >= 0
}

impl TaskView {
    /// What is wrong with the details, if something is.
    pub open spec fn details_refusal(self) -> Option<TaskModelError> {
        match self.details {
            DetailsView::Content => None,
            DetailsView::File(file) => if !is_portable(file.relative_path) {
                Some(TaskModelError::InvalidRelativePath)
            } else if !file.manifest.shaped() || file.manifest.file_name != base_name(
                file.relative_path,
            ) || self.manifest_identity != IdentityView::of_manifest(file.manifest) {
                Some(TaskModelError::InvalidManifestIdentity)
            } else if file.receipt_committed && self.state != TaskState::Completed {
                Some(TaskModelError::InvalidReceipt)
            } else {
                None
            },
            DetailsView::Directory(directory) => if !is_portable(directory.relative_path) {
                Some(TaskModelError::InvalidRelativePath)
            } else if self.manifest_identity != directory_identity(directory.relative_path) {
                Some(TaskModelError::InvalidManifestIdentity)
            } else if directory.receipt_committed && self.state != TaskState::Completed {
                Some(TaskModelError::InvalidReceipt)
            } else {
                None
            },
        }
    }

    /// What is wrong with the record, if something is.
    pub open spec fn refusal(self) -> Option<TaskModelError> {
        if self.schema_version != TASK_RECORD_SCHEMA_VERSION {
            Some(TaskModelError::UnsupportedSchemaVersion(self.schema_version))
        } else if !self.manifest_identity.valid() {
            Some(TaskModelError::InvalidManifestIdentity)
        } else if !self.local_path.path().absolute {
            Some(TaskModelError::RelativeLocalPath)
        } else if (self.direction == TaskDirection::Send) != (self.local_path is Source) {
            Some(TaskModelError::DirectionPathMismatch)
        } else if self.created_at < 0 || self.updated_at < self.created_at {
            Some(TaskModelError::InvalidTimestamps)
        } else if self.progress_hint is Some && !hint_fits(
            self.progress_hint->0,
            self.manifest_identity,
        ) {
            Some(TaskModelError::InvalidProgressHint)
        } else if self.state == TaskState::Failed && self.diagnostic is None {
            Some(TaskModelError::MissingFailureDiagnostic)
        } else {
            self.details_refusal()
        }
    }

    /// Whether the record is sound.
    pub open spec fn valid(self) -> bool {
        self.refusal() is None
    }

    /// Whether the last failure may be tried again.
    pub open spec fn retryable(self) -> bool {
        self.diagnostic is Some && self.diagnostic->0.retryable
    }

    /// The record after a transition: the state, the diagnostic and the time change,
    /// nothing else.
    pub open spec fn moved(
        self,
        next: TaskState,
        diagnostic: Option<TaskDiagnostic>,
        now: i64,
    ) -> TaskView {
        TaskView {
            state: next,
            diagnostic: if next == TaskState::Queued {
                None
            } else if diagnostic is Some {
                diagnostic
            } else {
                self.diagnostic
            },
            updated_at: later(later(now, self.created_at), self.updated_at),
            ..self
        }
    }

    /// Why a transition is refused, if it is.
    pub open spec fn transition_refusal(
        self,
        next: TaskState,
        diagnostic: Option<TaskDiagnostic>,
        now: i64,
    ) -> Option<TaskModelError> {
        if !self.state.may_become(next, self.retryable()) {
            Some(TaskModelError::InvalidTransition { from: self.state, to: next })
        } else if next == TaskState::Failed && diagnostic is None {
            Some(TaskModelError::MissingFailureDiagnostic)
        } else {
            self.moved(next, diagnostic, now).refusal()
        }
    }

    /// Whether two records bind the same task, peer, place and content.
    pub open spec fn same_binding(self, other: TaskView) -> bool {
        &&& self.task_id == other.task_id
        &&& self.peer_id == other.peer_id
        &&& self.direction == other.direction
        &&& self.local_path.same_binding(other.local_path)
        &&& self.manifest_identity == other.manifest_identity
        &&& self.details.same_binding(other.details)
        &&& self.group_id == other.group_id
    }

    /// A record as it is created: scanning, without diagnostic or progress.
    pub open spec fn fresh(
        task_id: Seq<char>,
        peer_id: Seq<char>,
        direction: TaskDirection,
        local_path: TaskPathView,
        manifest_identity: IdentityView,
        now: i64,
        details: DetailsView,
        group_id: Option<Seq<char>>,
    ) -> TaskView {
        TaskView {
            schema_version: TASK_RECORD_SCHEMA_VERSION,
            task_id,
            peer_id,
            direction,
            local_path,
            manifest_identity,
            state: TaskState::Scanning,
            created_at: now,
            updated_at: now,
            diagnostic: None,
            progress_hint: None,
            details,
            group_id,
        }
    }

    /// Whether the user may continue the task.
    pub open spec fn continuable(self) -> bool {
        self.state == TaskState::Paused || self.state == TaskState::Interrupted || (self.state
            == TaskState::Failed && self.retryable())
    }
}

/// The later of two times.
pub open spec fn later(left: i64, right: i64) -> i64 {
    if left >= right {
        left
    } else {
        right
    }
}

/// The path that a direction binds.
pub open spec fn bound_path(direction: TaskDirection, path: PathView) -> TaskPathView {
    match direction {
        TaskDirection::Send => TaskPathView::Source(path),
        TaskDirection::Receive => TaskPathView::ReceiveRoot(path),
    }
}

/// The durable record of one task.
#[derive(Debug)]
pub struct TaskRecord {
    schema_version: u32,
    task_id: TaskId,
    peer_id: PeerId,
    direction: TaskDirection,
    local_path: LocalTaskPath,
    manifest_identity: ManifestIdentity,
    state: TaskState,
    created_at_unix_ms: i64,
    updated_at_unix_ms: i64,
    diagnostic: Option<TaskDiagnostic>,
    progress_hint: Option<ProgressHint>,
    details: TaskDetails,
    group_id: Option<TaskId>,
}

impl View for TaskRecord {
    type V = TaskView;

    closed spec fn view(&self) -> TaskView {
        TaskView {
            schema_version: self.schema_version,
            task_id: self.task_id@,
            peer_id: self.peer_id@,
            direction: self.direction,
            local_path: self.local_path@,
            manifest_identity: self.manifest_identity@,
            state: self.state,
            created_at: self.created_at_unix_ms,
            updated_at: self.updated_at_unix_ms,
            diagnostic: self.diagnostic,
            progress_hint: self.progress_hint,
            details: self.details@,
            group_id: id_view(self.group_id),
        }
    }
}

fn later_of(left: i64, right: i64) -> (latest: i64)
    ensures
        latest == later(left, right),
{
    if left >= right {
        left
    } else {
        right
    }
}

fn copy_id(id: &Option<TaskId>) -> (copy: Option<TaskId>)
    ensures
        id_view(copy) == id_view(*id),
{
    match id {
        Some(found) => Some(found.clone()),
        None => None,
    }
}

/// Whether two optional identifiers are the same.
pub fn same_id(left: &Option<TaskId>, right: &Option<TaskId>) -> (same: bool)
    ensures
        same == (id_view(*left) == id_view(*right)),
{
    match (left, right) {
        (Some(l), Some(r)) => l.same(r),
        (None, None) => true,
        _ => false,
    }
}

impl FileDetails {
    fn duplicate(&self) -> (copy: FileDetails)
        ensures
            copy@ == self@,
    {
        FileDetails {
            relative_path: self.relative_path.clone(),
            manifest: self.manifest.duplicate(),
            source_root: match &self.source_root {
                Some(root) => Some(root.duplicate()),
                None => None,
            },
            receipt_committed: self.receipt_committed,
        }
    }
}

impl TaskDetails {
    fn duplicate(&self) -> (copy: TaskDetails)
        ensures
            copy@ == self@,
    {
        match self {
            TaskDetails::Content => TaskDetails::Content,
            TaskDetails::File(file) => TaskDetails::File(file.duplicate()),
            TaskDetails::Directory(directory) => TaskDetails::Directory(
                DirectoryDetails {
                    relative_path: directory.relative_path.clone(),
                    receipt_committed: directory.receipt_committed,
                },
            ),
        }
    }

    fn same_binding(&self, other: &TaskDetails) -> (same: bool)
        ensures
            same == self@.same_binding(other@),
    {
        match (self, other) {
            (TaskDetails::Content, TaskDetails::Content) => true,
            (TaskDetails::File(left), TaskDetails::File(right)) => left.relative_path
                == right.relative_path && left.manifest.same_as(&right.manifest),
            (TaskDetails::Directory(left), TaskDetails::Directory(right)) => left.relative_path
                == right.relative_path,
            _ => false,
        }
    }
}

/// Whether a name is the last component of a relative path.
pub fn is_base_name(path: &str, name: &str) -> (matches: bool)
    ensures
        matches == (base_name(path@) == name@),
{
    let parts = split_text(path, '/');
    proof {
        crate::text::lemma_pieces_nonempty(path@, '/');
        assert(views(parts@)[parts@.len() - 1] == parts@[parts@.len() - 1]@);
    }
    crate::text::same_text(&parts[parts.len() - 1], name)
}

/// The identity of a manifest's content.
fn manifest_identity_of(manifest: &FileManifest) -> (result: Result<
    ManifestIdentity,
    TaskModelError,
>)
    ensures
        result is Ok <==> manifest@.chunk_size > 0,
        result matches Ok(identity) ==> identity@ == IdentityView::of_manifest(manifest@)
            && identity@.valid(),
        result matches Err(error) ==> error == TaskModelError::InvalidManifestIdentity,
{
    proof {
        crate::manifest::digest_bytes_make_the_digest(manifest.root_hash);
    }
    let root = manifest.root_hash.to_bytes();
    ManifestIdentity::of_root(&root, manifest.total_len, manifest.chunk_size)
}

/// The identity of a directory's content.
fn directory_identity_of(relative_path: &str) -> (result: Result<ManifestIdentity, TaskModelError>)
    ensures
        result matches Ok(identity) && identity@ == directory_identity(relative_path@)
            && identity@.valid(),
{
    let hash = ChunkHash::of(relative_path.as_bytes());
    proof {
        crate::manifest::digest_bytes_make_the_digest(hash);
    }
    let root = hash.to_bytes();
    ManifestIdentity::of_root(&root, 0, DEFAULT_CHUNK_SIZE)
}

/// The identity of content with a root of thirty-two bytes is always valid.
pub proof fn lemma_content_identity_valid(root: Seq<u8>, total_bytes: u64, chunk_size: u32)
    requires
        root.len() == 32,
        chunk_size > 0,
    ensures
        IdentityView::of_content(root, total_bytes, chunk_size).valid(),
{
    crate::identity::lemma_hex_roundtrip(root);
    let length = total_bytes as int;
    let size = chunk_size as int;
    if length >= 1 {
        assert((length + size - 1) / size <= length) by (nonlinear_arith)
            requires
                length >= 1,
                size >= 1,
        ;
    } else {
        assert((size - 1) / size == 0) by (nonlinear_arith)
            requires
                size >= 1,
        ;
    }
}

/// `std::time::SystemTime`, a reading of the clock.
#[verifier::external_type_specification]
#[verifier::external_body]
pub struct ExSystemTime(std::time::SystemTime);

/// `SystemTime::now` reads the clock, which says whatever the machine says.
#[verifier::external_body]
fn clock() -> std::time::SystemTime {
    std::time::SystemTime::now()
}

/// `SystemTime::duration_since` gives the time since the Unix epoch, and nothing for a
/// clock that stands before it. A reading is opaque, so nothing is said of the result.
#[verifier::external_body]
fn since_epoch(time: std::time::SystemTime) -> Option<std::time::Duration> {
    time.duration_since(std::time::UNIX_EPOCH).ok()
}

/// `Duration::as_millis` counts the whole milliseconds. A duration is opaque, so nothing
/// is said of the result.
#[verifier::external_body]
fn whole_millis(elapsed: std::time::Duration) -> u128 {
    elapsed.as_millis()
}

/// The time for a clock reading: refused before the epoch and beyond 64 bits.
pub fn unix_ms(reading: Option<u128>) -> (result: Result<i64, TaskModelError>)
    ensures
        result is Ok <==> reading is Some && reading->0 <= i64::MAX,
        result matches Ok(now) ==> now == reading->0,
        result matches Err(error) ==> error == TaskModelError::ClockOutOfRange,
{
    match reading {
        Some(millis) => {
            if millis <= i64::MAX as u128 {
                Ok(millis as i64)
            } else {
                Err(TaskModelError::ClockOutOfRange)
            }
        },
        None => Err(TaskModelError::ClockOutOfRange),
    }
}

/// The current time in milliseconds since the Unix epoch.
pub fn system_time_unix_ms() -> (result: Result<i64, TaskModelError>)
    ensures
        result matches Ok(now) ==> now >= 0,
        result matches Err(error) ==> error == TaskModelError::ClockOutOfRange,
{
    match since_epoch(clock()) {
        Some(elapsed) => unix_ms(Some(whole_millis(elapsed))),
        None => unix_ms(None),
    }
}

impl TaskRecord {
    /// A new task that sends content from an absolute local path.
    pub fn new_sender(
        peer_id: PeerId,
        source_path: LocalPath,
        manifest_identity: ManifestIdentity,
    ) -> (result: Result<TaskRecord, TaskModelError>)
        ensures
            !source_path@.absolute ==> result == Err::<TaskRecord, _>(
                TaskModelError::RelativeLocalPath,
            ),
            result matches Ok(record) ==> record@.valid() && record@ == TaskView::fresh(
                record@.task_id,
                peer_id@,
                TaskDirection::Send,
                TaskPathView::Source(source_path@),
                manifest_identity@,
                record@.created_at,
                DetailsView::Content,
                None,
            ),
            result matches Err(error) ==> error == TaskModelError::ClockOutOfRange
                || !source_path@.absolute || !manifest_identity@.valid() && error
                == TaskModelError::InvalidManifestIdentity,
    {
        let path = match LocalTaskPath::source(source_path) {
            Ok(path) => path,
            Err(error) => {
                return Err(error);
            },
        };
        let now = match system_time_unix_ms() {
            Ok(now) => now,
            Err(error) => {
                return Err(error);
            },
        };
        TaskRecord::new(
            TaskId::generate(),
            peer_id,
            TaskDirection::Send,
            path,
            manifest_identity,
            now,
        )
    }

    /// A new task that receives content below an absolute local directory.
    pub fn new_receiver(
        peer_id: PeerId,
        receive_root: LocalPath,
        manifest_identity: ManifestIdentity,
    ) -> (result: Result<TaskRecord, TaskModelError>)
        ensures
            !receive_root@.absolute ==> result == Err::<TaskRecord, _>(
                TaskModelError::RelativeLocalPath,
            ),
            result matches Ok(record) ==> record@.valid() && record@ == TaskView::fresh(
                record@.task_id,
                peer_id@,
                TaskDirection::Receive,
                TaskPathView::ReceiveRoot(receive_root@),
                manifest_identity@,
                record@.created_at,
                DetailsView::Content,
                None,
            ),
            result matches Err(error) ==> error == TaskModelError::ClockOutOfRange
                || !receive_root@.absolute || !manifest_identity@.valid() && error
                == TaskModelError::InvalidManifestIdentity,
    {
        let path = match LocalTaskPath::receive_root(receive_root) {
            Ok(path) => path,
            Err(error) => {
                return Err(error);
            },
        };
        let now = match system_time_unix_ms() {
            Ok(now) => now,
            Err(error) => {
                return Err(error);
            },
        };
        TaskRecord::new(
            TaskId::generate(),
            peer_id,
            TaskDirection::Receive,
            path,
            manifest_identity,
            now,
        )
    }

    /// A record in its first state, if it is sound.
    pub fn new(
        task_id: TaskId,
        peer_id: PeerId,
        direction: TaskDirection,
        local_path: LocalTaskPath,
        manifest_identity: ManifestIdentity,
        now: i64,
    ) -> (result: Result<TaskRecord, TaskModelError>)
        ensures
            ({
                let fresh = TaskView::fresh(
                    task_id@,
                    peer_id@,
                    direction,
                    local_path@,
                    manifest_identity@,
                    now,
                    DetailsView::Content,
                    None,
                );
                match result {
                    Ok(record) => record@ == fresh && fresh.valid(),
                    Err(error) => fresh.refusal() == Some(error),
                }
            }),
    {
        TaskRecord::with_details(
            task_id,
            peer_id,
            direction,
            local_path,
            manifest_identity,
            now,
            TaskDetails::Content,
            None,
        )
    }

    fn with_details(
        task_id: TaskId,
        peer_id: PeerId,
        direction: TaskDirection,
        local_path: LocalTaskPath,
        manifest_identity: ManifestIdentity,
        now: i64,
        details: TaskDetails,
        group_id: Option<TaskId>,
    ) -> (result: Result<TaskRecord, TaskModelError>)
        ensures
            ({
                let fresh = TaskView::fresh(
                    task_id@,
                    peer_id@,
                    direction,
                    local_path@,
                    manifest_identity@,
                    now,
                    details@,
                    id_view(group_id),
                );
                match result {
                    Ok(record) => record@ == fresh && fresh.valid(),
                    Err(error) => fresh.refusal() == Some(error),
                }
            }),
    {
        let record = TaskRecord {
            schema_version: TASK_RECORD_SCHEMA_VERSION,
            task_id,
            peer_id,
            direction,
            local_path,
            manifest_identity,
            state: TaskState::Scanning,
            created_at_unix_ms: now,
            updated_at_unix_ms: now,
            diagnostic: None,
            progress_hint: None,
            details,
            group_id,
        };
        match record.validate() {
            Ok(()) => Ok(record),
            Err(error) => Err(error),
        }
    }

    /// A new task for one file with a checked manifest.
    pub fn new_file(
        task_id: TaskId,
        peer_id: PeerId,
        direction: TaskDirection,
        path: LocalPath,
        relative_path: String,
        manifest: FileManifest,
        now: i64,
    ) -> (result: Result<TaskRecord, TaskModelError>)
        ensures
            ({
                let fresh = TaskView::fresh(
                    task_id@,
                    peer_id@,
                    direction,
                    bound_path(direction, path@),
                    IdentityView::of_manifest(manifest@),
                    now,
                    DetailsView::File(
                        FileView {
                            relative_path: relative_path@,
                            manifest: manifest@,
                            source_root: None,
                            receipt_committed: false,
                        },
                    ),
                    None,
                );
                match result {
                    Ok(record) => record@ == fresh && fresh.valid() && manifest@.valid(),
                    Err(error) => if !path@.absolute {
                        error == TaskModelError::RelativeLocalPath
                    } else if !manifest@.valid() {
                        error == TaskModelError::InvalidManifestIdentity
                    } else {
                        fresh.refusal() == Some(error)
                    },
                }
            }),
    {
        let local_path = match TaskRecord::bind_path(direction, path) {
            Ok(local_path) => local_path,
            Err(error) => {
                return Err(error);
            },
        };
        if manifest.validate().is_err() {
            return Err(TaskModelError::InvalidManifestIdentity);
        }
        let identity = match manifest_identity_of(&manifest) {
            Ok(identity) => identity,
            Err(error) => {
                return Err(error);
            },
        };
        TaskRecord::with_details(
            task_id,
            peer_id,
            direction,
            local_path,
            identity,
            now,
            TaskDetails::File(
                FileDetails { relative_path, manifest, source_root: None, receipt_committed: false },
            ),
            None,
        )
    }

    /// A new task for one directory.
    pub fn new_directory(
        task_id: TaskId,
        peer_id: PeerId,
        direction: TaskDirection,
        path: LocalPath,
        relative_path: String,
        group_id: Option<TaskId>,
        now: i64,
    ) -> (result: Result<TaskRecord, TaskModelError>)
        ensures
            ({
                let fresh = TaskView::fresh(
                    task_id@,
                    peer_id@,
                    direction,
                    bound_path(direction, path@),
                    directory_identity(relative_path@),
                    now,
                    DetailsView::Directory(
                        DirectoryView {
                            relative_path: relative_path@,
                            receipt_committed: false,
                        },
                    ),
                    id_view(group_id),
                );
                match result {
                    Ok(record) => record@ == fresh && fresh.valid(),
                    Err(error) => fresh.refusal() == Some(error),
                }
            }),
    {
        let identity = match directory_identity_of(&relative_path) {
            Ok(identity) => identity,
            Err(error) => {
                return Err(error);
            },
        };
        let local_path = match TaskRecord::bind_path(direction, path) {
            Ok(local_path) => local_path,
            Err(error) => {
                return Err(error);
            },
        };
        TaskRecord::with_details(
            task_id,
            peer_id,
            direction,
            local_path,
            identity,
            now,
            TaskDetails::Directory(DirectoryDetails { relative_path, receipt_committed: false }),
            group_id,
        )
    }

    fn bind_path(direction: TaskDirection, path: LocalPath) -> (result: Result<
        LocalTaskPath,
        TaskModelError,
    >)
        ensures
            result is Ok <==> path@.absolute,
            result matches Ok(bound) ==> bound@ == bound_path(direction, path@),
            result matches Err(error) ==> error == TaskModelError::RelativeLocalPath,
    {
        match direction {
            TaskDirection::Send => LocalTaskPath::source(path),
            TaskDirection::Receive => LocalTaskPath::receive_root(path),
        }
    }

    /// A stored record, as read; `validate` decides whether it is sound.
    pub fn from_parts(
        schema_version: u32,
        task_id: TaskId,
        peer_id: PeerId,
        direction: TaskDirection,
        local_path: LocalTaskPath,
        manifest_identity: ManifestIdentity,
        state: TaskState,
        created_at_unix_ms: i64,
        updated_at_unix_ms: i64,
        diagnostic: Option<TaskDiagnostic>,
        progress_hint: Option<ProgressHint>,
        details: TaskDetails,
        group_id: Option<TaskId>,
    ) -> (record: TaskRecord)
        ensures
            record@ == (TaskView {
                schema_version,
                task_id: task_id@,
                peer_id: peer_id@,
                direction,
                local_path: local_path@,
                manifest_identity: manifest_identity@,
                state,
                created_at: created_at_unix_ms,
                updated_at: updated_at_unix_ms,
                diagnostic,
                progress_hint,
                details: details@,
                group_id: id_view(group_id),
            }),
    {
        TaskRecord {
            schema_version,
            task_id,
            peer_id,
            direction,
            local_path,
            manifest_identity,
            state,
            created_at_unix_ms,
            updated_at_unix_ms,
            diagnostic,
            progress_hint,
            details,
            group_id,
        }
    }

    /// The record layout.
    pub fn schema_version(&self) -> (version: u32)
        ensures
            version == self@.schema_version,
    {
        self.schema_version
    }

    /// The task.
    pub fn task_id(&self) -> (id: &TaskId)
        ensures
            id@ == self@.task_id,
    {
        &self.task_id
    }

    /// The task, to keep.
    pub fn task_id_owned(&self) -> (id: TaskId)
        ensures
            id@ == self@.task_id,
    {
        self.task_id.clone()
    }

    /// The peer that the task is bound to.
    pub fn peer_id(&self) -> (peer: &PeerId)
        ensures
            peer@ == self@.peer_id,
    {
        &self.peer_id
    }

    /// Whether the task sends or receives.
    pub fn direction(&self) -> (direction: TaskDirection)
        ensures
            direction == self@.direction,
    {
        self.direction
    }

    /// The local source or receive root.
    pub fn local_path(&self) -> (path: &LocalPath)
        ensures
            path@ == self@.local_path.path(),
    {
        self.local_path.path()
    }

    /// What the content is.
    pub fn manifest_identity(&self) -> (identity: &ManifestIdentity)
        ensures
            identity@ == self@.manifest_identity,
    {
        &self.manifest_identity
    }

    /// Where the task is in its life.
    pub fn state(&self) -> (state: TaskState)
        ensures
            state == self@.state,
    {
        self.state
    }

    /// When the task was made.
    pub fn created_at_unix_ms(&self) -> (time: i64)
        ensures
            time == self@.created_at,
    {
        self.created_at_unix_ms
    }

    /// When the task last changed its state.
    pub fn updated_at_unix_ms(&self) -> (time: i64)
        ensures
            time == self@.updated_at,
    {
        self.updated_at_unix_ms
    }

    /// What went wrong, if something did.
    pub fn diagnostic(&self) -> (diagnostic: Option<TaskDiagnostic>)
        ensures
            diagnostic == self@.diagnostic,
    {
        self.diagnostic
    }

    /// The last progress sample.
    pub fn progress_hint(&self) -> (hint: Option<ProgressHint>)
        ensures
            hint == self@.progress_hint,
    {
        self.progress_hint
    }

    /// What the task moves.
    pub fn details(&self) -> (details: &TaskDetails)
        ensures
            details@ == self@.details,
    {
        &self.details
    }

    /// The file that the task moves, if it moves one.
    pub fn file_details(&self) -> (details: Option<&FileDetails>)
        ensures
            details is Some <==> self@.details is File,
            details matches Some(file) ==> self@.details == DetailsView::File(file@),
    {
        match &self.details {
            TaskDetails::File(file) => Some(file),
            _ => None,
        }
    }

    /// The directory that the task creates, if it creates one.
    pub fn directory_details(&self) -> (details: Option<&DirectoryDetails>)
        ensures
            details is Some <==> self@.details is Directory,
            details matches Some(directory) ==> self@.details == DetailsView::Directory(
                directory@,
            ),
    {
        match &self.details {
            TaskDetails::Directory(directory) => Some(directory),
            _ => None,
        }
    }

    /// The relative path, where there is one.
    pub fn relative_path(&self) -> (path: Option<&str>)
        ensures
            path is Some <==> self@.details.relative_path() is Some,
            path matches Some(text) ==> self@.details.relative_path() == Some(text@),
    {
        match &self.details {
            TaskDetails::Content => None,
            TaskDetails::File(file) => Some(file.relative_path.as_str()),
            TaskDetails::Directory(directory) => Some(directory.relative_path.as_str()),
        }
    }

    /// The selection that the task belongs to.
    pub fn group_id(&self) -> (group: &Option<TaskId>)
        ensures
            id_view(*group) == self@.group_id,
    {
        &self.group_id
    }

    /// Whether the receiver's receipt is committed.
    pub fn receipt_committed(&self) -> (committed: bool)
        ensures
            committed == self@.details.receipt(),
    {
        match &self.details {
            TaskDetails::Content => false,
            TaskDetails::File(file) => file.receipt_committed,
            TaskDetails::Directory(directory) => directory.receipt_committed,
        }
    }

    /// Whether the user may continue the task.
    pub fn can_continue(&self) -> (possible: bool)
        ensures
            possible == self@.continuable(),
    {
        let retryable = match self.diagnostic {
            Some(diagnostic) => diagnostic.is_retryable(),
            None => false,
        };
        matches!(self.state, TaskState::Paused | TaskState::Interrupted) || (self.state
            == TaskState::Failed && retryable)
    }

    /// A record that says the same.
    pub fn duplicate(&self) -> (copy: TaskRecord)
        ensures
            copy@ == self@,
    {
        TaskRecord {
            schema_version: self.schema_version,
            task_id: self.task_id.clone(),
            peer_id: self.peer_id.clone(),
            direction: self.direction,
            local_path: self.local_path.duplicate(),
            manifest_identity: self.manifest_identity.clone(),
            state: self.state,
            created_at_unix_ms: self.created_at_unix_ms,
            updated_at_unix_ms: self.updated_at_unix_ms,
            diagnostic: self.diagnostic,
            progress_hint: self.progress_hint,
            details: self.details.duplicate(),
            group_id: copy_id(&self.group_id),
        }
    }

    fn validate_details(&self) -> (result: Result<(), TaskModelError>)
        ensures
            match result {
                Ok(()) => self@.details_refusal() is None,
                Err(error) => self@.details_refusal() == Some(error),
            },
    {
        match &self.details {
            TaskDetails::Content => Ok(()),
            TaskDetails::File(file) => {
                if validate_relative_path(&file.relative_path).is_err() {
                    return Err(TaskModelError::InvalidRelativePath);
                }
                if validate_chunk_size(file.manifest.chunk_size).is_err()
                    || file.manifest.chunks.len() as u64 != count_pieces(
                    file.manifest.total_len,
                    file.manifest.chunk_size as u64,
                ) || !is_base_name(&file.relative_path, &file.manifest.file_name) {
                    return Err(TaskModelError::InvalidManifestIdentity);
                }
                match manifest_identity_of(&file.manifest) {
                    Ok(identity) => {
                        if !self.manifest_identity.same(&identity) {
                            return Err(TaskModelError::InvalidManifestIdentity);
                        }
                    },
                    Err(error) => {
                        return Err(error);
                    },
                }
                if file.receipt_committed && self.state != TaskState::Completed {
                    return Err(TaskModelError::InvalidReceipt);
                }
                Ok(())
            },
            TaskDetails::Directory(directory) => {
                if validate_relative_path(&directory.relative_path).is_err() {
                    return Err(TaskModelError::InvalidRelativePath);
                }
                match directory_identity_of(&directory.relative_path) {
                    Ok(identity) => {
                        if !self.manifest_identity.same(&identity) {
                            return Err(TaskModelError::InvalidManifestIdentity);
                        }
                    },
                    Err(error) => {
                        return Err(error);
                    },
                }
                if directory.receipt_committed && self.state != TaskState::Completed {
                    return Err(TaskModelError::InvalidReceipt);
                }
                Ok(())
            },
        }
    }

    /// Checks the whole record.
    pub fn validate(&self) -> (result: Result<(), TaskModelError>)
        ensures
            match result {
                Ok(()) => self@.valid(),
                Err(error) => self@.refusal() == Some(error),
            },
    {
        if self.schema_version != TASK_RECORD_SCHEMA_VERSION {
            return Err(TaskModelError::UnsupportedSchemaVersion(self.schema_version));
        }
        match self.manifest_identity.validate() {
            Ok(()) => {},
            Err(error) => {
                return Err(error);
            },
        }
        if !self.local_path.path().is_absolute() {
            return Err(TaskModelError::RelativeLocalPath);
        }
        if (self.direction == TaskDirection::Send) != self.local_path.is_sender_source() {
            return Err(TaskModelError::DirectionPathMismatch);
        }
        if self.created_at_unix_ms < 0 || self.updated_at_unix_ms < self.created_at_unix_ms {
            return Err(TaskModelError::InvalidTimestamps);
        }
        match self.progress_hint {
            Some(hint) => {
                if hint.verified_bytes > self.manifest_identity.total_bytes()
                    || hint.sampled_at_unix_ms < 0 {
                    return Err(TaskModelError::InvalidProgressHint);
                }
            },
            None => {},
        }
        if self.state == TaskState::Failed && self.diagnostic.is_none() {
            return Err(TaskModelError::MissingFailureDiagnostic);
        }
        self.validate_details()
    }

    /// Refuses a record that is bound otherwise than the stored one.
    pub fn validate_binding_unchanged(&self, current: &TaskRecord) -> (result: Result<
        (),
        TaskModelError,
    >)
        ensures
            result is Ok <==> self@.same_binding(current@),
            result matches Err(error) ==> error == TaskModelError::ImmutableBinding,
    {
        if !self.task_id.same(&current.task_id) || !self.peer_id.same(&current.peer_id)
            || self.direction != current.direction || self.local_path.is_sender_source()
            != current.local_path.is_sender_source() || !self.local_path.path().same_place(
            current.local_path.path(),
        ) || !self.manifest_identity.same(&current.manifest_identity)
            || !self.details.same_binding(&current.details) || !same_id(
            &self.group_id,
            &current.group_id,
        ) {
            return Err(TaskModelError::ImmutableBinding);
        }
        Ok(())
    }

    /// Moves the task to another state. A refused move changes nothing.
    pub fn transition_to(
        &mut self,
        next: TaskState,
        diagnostic: Option<TaskDiagnostic>,
        now: i64,
    ) -> (result: Result<(), TaskModelError>)
        ensures
            match result {
                Ok(()) => old(self)@.transition_refusal(next, diagnostic, now) is None
                    && final(self)@ == old(self)@.moved(next, diagnostic, now),
                Err(error) => old(self)@.transition_refusal(next, diagnostic, now) == Some(error)
                    && final(self)@ == old(self)@,
            },
    {
        let retryable = match self.diagnostic {
            Some(found) => found.is_retryable(),
            None => false,
        };
        if !self.state.allows(next, retryable) {
            return Err(TaskModelError::InvalidTransition { from: self.state, to: next });
        }
        if next == TaskState::Failed && diagnostic.is_none() {
            return Err(TaskModelError::MissingFailureDiagnostic);
        }
        let mut updated = self.duplicate();
        updated.state = next;
        if next == TaskState::Queued {
            updated.diagnostic = None;
        } else if diagnostic.is_some() {
            updated.diagnostic = diagnostic;
        }
        updated.updated_at_unix_ms =
        later_of(later_of(now, updated.created_at_unix_ms), updated.updated_at_unix_ms);
        match updated.validate() {
            Ok(()) => {
                *self = updated;
                Ok(())
            },
            Err(error) => Err(error),
        }
    }

    /// Keeps a progress sample that fits the content. A refused one changes nothing.
    pub fn set_progress_hint(&mut self, hint: ProgressHint) -> (result: Result<(), TaskModelError>)
        ensures
            result is Ok <==> hint_fits(hint, old(self)@.manifest_identity),
            match result {
                Ok(()) => final(self)@ == (TaskView { progress_hint: Some(hint), ..old(self)@ }),
                Err(error) => error == TaskModelError::InvalidProgressHint && final(self)@
                    == old(self)@,
            },
    {
        if hint.verified_bytes > self.manifest_identity.total_bytes() || hint.sampled_at_unix_ms
            < 0 {
            return Err(TaskModelError::InvalidProgressHint);
        }
        self.progress_hint = Some(hint);
        Ok(())
    }

    /// Binds a scanned file to its selection and, for a directory selection, to the
    /// selected directory. Only a file that is still being scanned can be bound.
    pub fn set_selection_binding(
        &mut self,
        group_id: Option<TaskId>,
        source_root: Option<LocalPath>,
    ) -> (result: Result<(), TaskModelError>)
        ensures
            result is Ok <==> old(self)@.state == TaskState::Scanning && old(self)@.details is File,
            match result {
                Ok(()) => final(self)@ == old(self)@.selected(
                    id_view(group_id),
                    path_view(source_root),
                ),
                Err(error) => error == TaskModelError::ImmutableBinding && final(self)@
                    == old(self)@,
            },
    {
        if self.state != TaskState::Scanning {
            return Err(TaskModelError::ImmutableBinding);
        }
        match &mut self.details {
            TaskDetails::File(file) => {
                file.source_root = source_root;
            },
            _ => {
                return Err(TaskModelError::ImmutableBinding);
            },
        }
        self.group_id = group_id;
        Ok(())
    }

    /// Allows publication only of a file or directory that is being finalized.
    pub fn prepare_publication(&self) -> (result: Result<(), TaskModelError>)
        ensures
            result is Ok <==> self@.publishable(),
            result matches Err(error) ==> error == (TaskModelError::InvalidTransition {
                from: self@.state,
                to: TaskState::Finalizing,
            }),
    {
        if self.state != TaskState::Finalizing || matches!(self.details, TaskDetails::Content) {
            return Err(
                TaskModelError::InvalidTransition {
                    from: self.state,
                    to: TaskState::Finalizing,
                },
            );
        }
        Ok(())
    }

    /// Completes a published task and commits the receipt with it. A refused commit
    /// changes nothing.
    pub fn commit_receipt(&mut self, now: i64) -> (result: Result<(), TaskModelError>)
        ensures
            match result {
                Ok(()) => old(self)@.receipt_refusal(now) is None && final(self)@ == old(
                    self,
                )@.received(now),
                Err(error) => old(self)@.receipt_refusal(now) == Some(error) && final(self)@
                    == old(self)@,
            },
    {
        if matches!(self.details, TaskDetails::Content) {
            return Err(TaskModelError::InvalidReceipt);
        }
        match self.transition_to(TaskState::Completed, None, now) {
            Ok(()) => {},
            Err(error) => {
                return Err(error);
            },
        }
        match &mut self.details {
            TaskDetails::Content => {},
            TaskDetails::File(file) => {
                file.receipt_committed = true;
            },
            TaskDetails::Directory(directory) => {
                directory.receipt_committed = true;
            },
        }
        Ok(())
    }
}

impl TaskView {
    /// Whether the task's content may be published.
    pub open spec fn publishable(self) -> bool {
        self.state == TaskState::Finalizing && !(self.details is Content)
    }

    /// The record once the receipt is committed.
    pub open spec fn received(self, now: i64) -> TaskView {
        TaskView {
            details: self.details.with_receipt(),
            ..self.moved(TaskState::Completed, None, now)
        }
    }

    /// Why a receipt is refused, if it is.
    pub open spec fn receipt_refusal(self, now: i64) -> Option<TaskModelError> {
        if self.details is Content {
            Some(TaskModelError::InvalidReceipt)
        } else {
            self.transition_refusal(TaskState::Completed, None, now)
        }
    }
}

/// For a sound record the transition table and the need for a diagnostic decide
/// alone, and the record stays sound, bound as before and never older.
pub proof fn transitions_follow_the_table(
    task: TaskView,
    next: TaskState,
    diagnostic: Option<TaskDiagnostic>,
    now: i64,
)
    requires
        task.valid(),
    ensures
        task.transition_refusal(next, diagnostic, now) is None <==> task.state.may_become(
            next,
            task.retryable(),
        ) && (next == TaskState::Failed ==> diagnostic is Some),
        task.transition_refusal(next, diagnostic, now) is None ==> {
            let after = task.moved(next, diagnostic, now);
            &&& after.valid()
            &&& after.same_binding(task)
            &&& after.updated_at >= task.updated_at
            &&& after.created_at == task.created_at
            &&& after.progress_hint == task.progress_hint
            &&& after.details == task.details
        },
{
}

/// A completed task never changes its state again; a failed one only returns to
/// the queue, and only where its failure is retryable.
pub proof fn terminal_tasks_stay(
    task: TaskView,
    next: TaskState,
    diagnostic: Option<TaskDiagnostic>,
    now: i64,
)
    requires
        task.state.terminal(),
        task.transition_refusal(next, diagnostic, now) is None,
    ensures
        task.state == TaskState::Failed,
        task.retryable(),
        next == TaskState::Queued,
{
}

/// Queueing a task again clears its diagnostic.
pub proof fn queueing_clears_the_diagnostic(
    task: TaskView,
    diagnostic: Option<TaskDiagnostic>,
    now: i64,
)
    ensures
        task.moved(TaskState::Queued, diagnostic, now).diagnostic is None,
{
}

/// A committed receipt completes a sound, finalizing file or directory task, leaves
/// it sound and bound as before, and is never taken back by a transition.
pub proof fn receipts_are_final(task: TaskView, now: i64, next: TaskState, at: i64)
    requires
        task.valid(),
        task.publishable(),
    ensures
        task.receipt_refusal(now) is None,
        task.received(now).valid(),
        task.received(now).details.receipt(),
        task.received(now).state == TaskState::Completed,
        task.received(now).same_binding(task),
        task.received(now).transition_refusal(next, None, at) is Some,
{
}

/// A task that changes its state has the new one, is at least as late as the change, and
/// keeps the reason that it was given; a reason that was there stays until the task is
/// queued again.
pub proof fn transitions_take_effect(
    task: TaskView,
    next: TaskState,
    diagnostic: Option<TaskDiagnostic>,
    now: i64,
)
    ensures
        ({
            let after = task.moved(next, diagnostic, now);
            &&& after.state == next
            &&& after.updated_at >= now
            &&& after.updated_at >= task.updated_at
            &&& after.updated_at == now || after.updated_at == task.updated_at || after.updated_at
                == task.created_at
            &&& next != TaskState::Queued && diagnostic is Some ==> after.diagnostic == diagnostic
            &&& next != TaskState::Queued && diagnostic is None ==> after.diagnostic
                == task.diagnostic
            &&& next == TaskState::Queued ==> after.diagnostic is None
        }),
{
}

/// A task begins with its scan: no progress, no reason and no receipt, and as late as it
/// was made.
pub proof fn tasks_begin_with_their_scan(
    task_id: Seq<char>,
    peer_id: Seq<char>,
    direction: TaskDirection,
    path: PathView,
    identity: IdentityView,
    now: i64,
    details: DetailsView,
    group: Option<Seq<char>>,
)
    ensures
        ({
            let task = TaskView::fresh(
                task_id,
                peer_id,
                direction,
                bound_path(direction, path),
                identity,
                now,
                details,
                group,
            );
            &&& task.state == TaskState::Scanning
            &&& task.task_id == task_id
            &&& task.peer_id == peer_id
            &&& task.direction == direction
            &&& task.local_path.path() == path
            &&& (task.local_path is Source) == (direction == TaskDirection::Send)
            &&& task.manifest_identity == identity
            &&& task.created_at == now
            &&& task.updated_at == now
            &&& task.diagnostic is None
            &&& task.progress_hint is None
            &&& task.details == details
            &&& task.group_id == group
            &&& task.schema_version == 1
        }),
{
}

/// A sound record holds together: its place is absolute and fits its direction, its times
/// and its progress are possible, a failure has a reason, and a receipt stands only for a
/// completed task.
pub proof fn sound_records_hold_together(task: TaskView)
    requires
        task.valid(),
    ensures
        task.schema_version == 1,
        task.local_path.path().absolute,
        (task.direction == TaskDirection::Send) == (task.local_path is Source),
        0 <= task.created_at <= task.updated_at,
        task.progress_hint matches Some(hint) ==> hint.verified_bytes
            <= task.manifest_identity.total_bytes && hint.sampled_at_unix_ms >= 0,
        task.state == TaskState::Failed ==> task.diagnostic is Some,
        task.details.receipt() ==> task.state == TaskState::Completed,
        task.details matches DetailsView::File(file) ==> is_portable(file.relative_path)
            && file.manifest.shaped() && file.manifest.file_name == base_name(file.relative_path)
            && task.manifest_identity.total_bytes == file.manifest.total_len,
        task.details matches DetailsView::Directory(directory) ==> is_portable(
            directory.relative_path,
        ) && task.manifest_identity.total_bytes == 0,
{
}

/// A task that rests without being completed may be continued, unless it failed in a way
/// that cannot be tried again.
pub proof fn resting_tasks_can_be_continued(task: TaskView)
    ensures
        task.continuable() <==> task.state == TaskState::Paused || task.state
            == TaskState::Interrupted || (task.state == TaskState::Failed && (
        task.diagnostic matches Some(diagnostic) && diagnostic.retryable)),
        task.continuable() ==> task.state.may_become(TaskState::Queued, task.retryable()),
{
}

/// Records of one binding agree on the task, the peer, the direction, the place and the
/// content, whatever their state and progress.
pub proof fn bindings_are_kept(task: TaskView, other: TaskView)
    requires
        task.same_binding(other),
    ensures
        task.task_id == other.task_id,
        task.peer_id == other.peer_id,
        task.direction == other.direction,
        task.manifest_identity == other.manifest_identity,
        task.group_id == other.group_id,
        task.details matches DetailsView::File(file) ==> (other.details matches DetailsView::File(
            same,
        ) && same.relative_path == file.relative_path && same.manifest == file.manifest),
        task.details matches DetailsView::Directory(directory) ==> (other.details matches
            DetailsView::Directory(same) && same.relative_path == directory.relative_path),
        task.details is Content ==> other.details is Content,
        other.same_binding(task),
        task.same_binding(task),
{
}

/// Only a file or a directory that is being finalized gets a receipt, and a receipt for a
/// file is one for the same file.
pub proof fn receipts_need_finalizing(task: TaskView, now: i64)
    requires
        task.valid(),
    ensures
        task.receipt_refusal(now) is None <==> task.state == TaskState::Finalizing
            && task.details !is Content,
        task.publishable() <==> task.state == TaskState::Finalizing && task.details !is Content,
        task.details matches DetailsView::File(file) ==> task.received(now).details
            == DetailsView::File(FileView { receipt_committed: true, ..file }),
{
}

/// The last component of a path is its name: a path without a slash is its own name.
pub proof fn plain_names_are_their_own(path: Seq<char>)
    requires
        forall|i: int| 0 <= i < path.len() ==> path[i] != '/',
    ensures
        base_name(path) == path,
{
    crate::text::lemma_pieces_nonempty(path, '/');
    crate::text::unbroken_texts_are_one_piece(path, '/');
}

/// A record is sound exactly if each part of it is: an identity, an absolute path on the
/// side of its direction, times in order from zero on, no more progress than there is
/// content, a diagnostic of every failure, and sound details.
pub proof fn records_are_judged_part_by_part(task: TaskView)
    ensures
        task.refusal() is None <==> {
            &&& task.schema_version == TASK_RECORD_SCHEMA_VERSION
            &&& task.manifest_identity.valid()
            &&& task.local_path.path().absolute
            &&& task.direction == TaskDirection::Send <==> task.local_path is Source
            &&& 0 <= task.created_at <= task.updated_at
            &&& task.progress_hint matches Some(hint) ==> hint.verified_bytes
                <= task.manifest_identity.total_bytes && hint.sampled_at_unix_ms >= 0
            &&& task.state == TaskState::Failed ==> task.diagnostic is Some
            &&& task.details_refusal() is None
        },
{
}

/// Of two times the later one counts.
pub proof fn times_do_not_run_backwards(left: i64, right: i64)
    ensures
        later(left, right) >= left,
        later(left, right) >= right,
        later(left, right) == left || later(left, right) == right,
{
}

impl TaskView {
    /// The task as part of a selection, with the directory that was selected.
    pub open spec fn selected(
        self,
        group_id: Option<Seq<char>>,
        source_root: Option<PathView>,
    ) -> TaskView {
        TaskView {
            group_id,
            details: DetailsView::File(FileView { source_root, ..self.details->File_0 }),
            ..self
        }
    }
}

/// A file that becomes part of a selection keeps everything else: its path, its manifest,
/// its peer and its place.
pub proof fn selected_files_keep_their_binding(
    task: TaskView,
    group_id: Option<Seq<char>>,
    source_root: Option<PathView>,
)
    requires
        task.details is File,
    ensures
        ({
            let after = task.selected(group_id, source_root);
            &&& after.group_id == group_id
            &&& after.details matches DetailsView::File(file) && file.source_root == source_root
                && file.relative_path == task.details->File_0.relative_path && file.manifest
                == task.details->File_0.manifest && file.receipt_committed
                == task.details->File_0.receipt_committed
            &&& after.task_id == task.task_id && after.peer_id == task.peer_id && after.direction
                == task.direction && after.local_path == task.local_path && after.state
                == task.state && after.manifest_identity == task.manifest_identity
        }),
{
}

} // verus!
