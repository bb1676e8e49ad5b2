//! Durable task identities, records and their lifecycle.
//!
//! This module holds local domain data only. Recovery works from a task ID and
//! the stored local source or receive root; no remote file system path ever
//! enters a record.

use vstd::prelude::*;

use crate::identity::{
    canonical_hex, hex_decode, hex_encode, hex_text, is_canonical, random_number, u128_to_bytes,
    NodeId,
};
use crate::manifest::{count_pieces, pieces_needed, ManifestView};
use crate::text::{decimal, decimal_text, join_text, views};

verus! {

/// The record layout that this version writes and reads.
pub const TASK_RECORD_SCHEMA_VERSION: u32 = 1;

/// Why a task value or a change to it is refused.
#[derive(Clone, Copy, Debug, PartialEq, Eq, Structural)]
pub enum TaskModelError {
    InvalidTaskId,
    InvalidPeerId,
    InvalidManifestIdentity,
    RelativeLocalPath,
    DirectionPathMismatch,
    UnsupportedSchemaVersion(u32),
    InvalidTimestamps,
    InvalidProgressHint,
    MissingFailureDiagnostic,
    NewTaskMustStartScanning,
    InvalidTransition { from: TaskState, to: TaskState },
    WrongDirection,
    NotRecoverable,
    ImmutableBinding,
    ClockOutOfRange,
    InvalidRelativePath,
    InvalidReceipt,
}

impl TaskModelError {
    /// The message shown for this error.
    pub open spec fn text(self) -> Seq<char> {
        match self {
            TaskModelError::InvalidTaskId =>
                "task ID must be 32 lowercase hexadecimal characters"@,
            TaskModelError::InvalidPeerId => "peer ID is invalid"@,
            TaskModelError::InvalidManifestIdentity => "manifest identity is invalid"@,
            TaskModelError::RelativeLocalPath => "local task path must be an absolute path"@,
            TaskModelError::DirectionPathMismatch =>
                "local task path does not match the task direction"@,
            TaskModelError::UnsupportedSchemaVersion(version) =>
                "task record has an unsupported schema version: "@ + decimal(version as nat),
            TaskModelError::InvalidTimestamps => "task record timestamps are invalid"@,
            TaskModelError::InvalidProgressHint => "task progress hint fields are invalid"@,
            TaskModelError::MissingFailureDiagnostic => "a Failed task requires a diagnostic"@,
            TaskModelError::NewTaskMustStartScanning =>
                "a new task must be persisted in Scanning before it can be queued"@,
            TaskModelError::InvalidTransition { from, to } =>
                "task state transition is not allowed: "@ + from.name_text() + " -> "@
                    + to.name_text(),
            TaskModelError::WrongDirection =>
                "task direction does not match the requested recovery API"@,
            TaskModelError::NotRecoverable => "task is not in a recoverable state"@,
            TaskModelError::ImmutableBinding => "task binding fields are immutable"@,
            TaskModelError::ClockOutOfRange =>
                "system clock is outside the supported timestamp range"@,
            TaskModelError::InvalidRelativePath => "task relative path is invalid"@,
            TaskModelError::InvalidReceipt => "task receipt does not match its state"@,
        }
    }

    /// The message shown for this error.
    pub fn message(&self) -> (text: String)
        ensures
            text@ == self.text(),
    {
        let fixed = match self {
            TaskModelError::InvalidTaskId => "task ID must be 32 lowercase hexadecimal characters",
            TaskModelError::InvalidPeerId => "peer ID is invalid",
            TaskModelError::InvalidManifestIdentity => "manifest identity is invalid",
            TaskModelError::RelativeLocalPath => "local task path must be an absolute path",
            TaskModelError::DirectionPathMismatch =>
                "local task path does not match the task direction",
            TaskModelError::UnsupportedSchemaVersion(version) => {
                return join_text(
                    "task record has an unsupported schema version: ",
                    &decimal_text(*version as u64),
                );
            },
            TaskModelError::InvalidTimestamps => "task record timestamps are invalid",
            TaskModelError::InvalidProgressHint => "task progress hint fields are invalid",
            TaskModelError::MissingFailureDiagnostic => "a Failed task requires a diagnostic",
            TaskModelError::NewTaskMustStartScanning =>
                "a new task must be persisted in Scanning before it can be queued",
            TaskModelError::InvalidTransition { from, to } => {
                let front = join_text("task state transition is not allowed: ", from.name());
                let middle = join_text(&front, " -> ");
                return join_text(&middle, to.name());
            },
            TaskModelError::WrongDirection =>
                "task direction does not match the requested recovery API",
            TaskModelError::NotRecoverable => "task is not in a recoverable state",
            TaskModelError::ImmutableBinding => "task binding fields are immutable",
            TaskModelError::ClockOutOfRange =>
                "system clock is outside the supported timestamp range",
            TaskModelError::InvalidRelativePath => "task relative path is invalid",
            TaskModelError::InvalidReceipt => "task receipt does not match its state",
        };
        fixed.to_owned()
    }
}

/// Stable, random 128-bit task identifier, rendered as canonical lowercase hex.
#[derive(Debug, PartialEq, Eq, PartialOrd, Ord, Hash)]
pub struct TaskId {
    value: String,
}

impl View for TaskId {
    type V = Seq<char>;

    closed spec fn view(&self) -> Seq<char> {
        self.value@
    }
}

impl Clone for TaskId {
    fn clone(&self) -> (copy: TaskId)
        ensures
            copy == *self,
    {
        proof {
            use_type_invariant(self);
        }
        TaskId { value: self.value.clone() }
    }
}

impl TaskId {
    #[verifier::type_invariant]
    spec fn canonical(self) -> bool {
        is_canonical(self.value@, 32)
    }

    /// A fresh random identifier.
    pub fn generate() -> (id: TaskId)
        ensures
            is_canonical(id@, 32),
    {
        let bytes = u128_to_bytes(random_number());
        TaskId::from_random(&bytes)
    }

    /// The identifier made of sixteen random bytes.
    pub fn from_random(bytes: &Vec<u8>) -> (id: TaskId)
        requires
            bytes@.len() == 16,
        ensures
            id@ == hex_text(bytes@),
            is_canonical(id@, 32),
    {
        let value = hex_encode(bytes);
        proof {
            crate::identity::lemma_hex_roundtrip(bytes@);
        }
        TaskId { value }
    }

    /// Accepts exactly 32 lowercase hexadecimal digits.
    pub fn parse(value: &str) -> (result: Result<TaskId, TaskModelError>)
        ensures
            result is Ok <==> is_canonical(value@, 32),
            result matches Ok(id) ==> id@ == value@,
            result matches Err(error) ==> error == TaskModelError::InvalidTaskId,
    {
        if !canonical_hex(value, 32) {
            return Err(TaskModelError::InvalidTaskId);
        }
        proof {
            crate::identity::lemma_canonical_roundtrip(value@, 16);
        }
        match hex_decode(value) {
            Some(bytes) => {
                if bytes.len() != 16 {
                    return Err(TaskModelError::InvalidTaskId);
                }
            },
            None => {
                return Err(TaskModelError::InvalidTaskId);
            },
        }
        Ok(TaskId { value: value.to_owned() })
    }

    /// The 32 lowercase hexadecimal digits.
    pub fn as_str(&self) -> (text: &str)
        ensures
            text@ == self@,
            is_canonical(text@, 32),
    {
        proof {
            use_type_invariant(self);
        }
        self.value.as_str()
    }

    /// Whether two identifiers are the same.
    pub fn same(&self, other: &TaskId) -> (same: bool)
        ensures
            same == (self@ == other@),
    {
        self.value == other.value
    }
}

/// A validated, stable peer binding: the canonical form of a node identity.
#[derive(Debug, PartialEq, Eq, PartialOrd, Ord, Hash)]
pub struct PeerId {
    value: String,
}

impl View for PeerId {
    type V = Seq<char>;

    closed spec fn view(&self) -> Seq<char> {
        self.value@
    }
}

impl Clone for PeerId {
    fn clone(&self) -> (copy: PeerId)
        ensures
            copy == *self,
    {
        proof {
            use_type_invariant(self);
        }
        PeerId { value: self.value.clone() }
    }
}

impl PeerId {
    #[verifier::type_invariant]
    spec fn canonical(self) -> bool {
        is_canonical(self.value@, 32)
    }

    /// The binding to a node.
    pub fn from_node_id(node_id: NodeId) -> (peer: PeerId)
        ensures
            peer@ == node_id.hex(),
    {
        proof {
            crate::identity::node_hex_names_the_node(node_id);
        }
        PeerId { value: node_id.to_hex() }
    }

    /// Accepts exactly 32 lowercase hexadecimal digits.
    pub fn parse(value: &str) -> (result: Result<PeerId, TaskModelError>)
        ensures
            result is Ok <==> is_canonical(value@, 32),
            result matches Ok(peer) ==> peer@ == value@,
            result matches Err(error) ==> error == TaskModelError::InvalidPeerId,
    {
        match hex_decode(value) {
            Some(decoded) => {
                if decoded.len() != 16 || !canonical_hex(value, 32) {
                    return Err(TaskModelError::InvalidPeerId);
                }
                Ok(PeerId { value: value.to_owned() })
            },
            None => {
                proof {
                    if is_canonical(value@, 32) {
                        crate::identity::lemma_canonical_roundtrip(value@, 16);
                    }
                }
                Err(TaskModelError::InvalidPeerId)
            },
        }
    }

    /// The 32 lowercase hexadecimal digits.
    pub fn as_str(&self) -> (text: &str)
        ensures
            text@ == self@,
            is_canonical(text@, 32),
    {
        proof {
            use_type_invariant(self);
        }
        self.value.as_str()
    }

    /// Whether two bindings are the same.
    pub fn same(&self, other: &PeerId) -> (same: bool)
        ensures
            same == (self@ == other@),
    {
        self.value == other.value
    }
}

/// How the content digest was made.
#[derive(Clone, Copy, Debug, PartialEq, Eq, Structural)]
pub enum ManifestHashAlgorithm {
    Blake3V1,
}

/// What a manifest identity says, as mathematical values.
pub struct IdentityView {
    pub algorithm: ManifestHashAlgorithm,
    pub root_hash: Seq<char>,
    pub total_bytes: u64,
    pub chunk_size: u32,
    pub chunk_count: u64,
}

impl IdentityView {
    /// A 64-digit root, a positive chunk size and the chunk count that follows.
    pub open spec fn valid(self) -> bool {
        &&& is_canonical(self.root_hash, 64)
        &&& self.chunk_size > 0
        &&& self.chunk_count == pieces_needed(self.total_bytes as nat, self.chunk_size as nat)
    }

    /// The identity of a manifest.
    pub open spec fn of_manifest(manifest: ManifestView) -> IdentityView {
        IdentityView::of_content(
            manifest.root_hash.bytes(),
            manifest.total_len,
            manifest.chunk_size,
        )
    }

    /// The identity of content with this root digest.
    pub open spec fn of_content(root: Seq<u8>, total_bytes: u64, chunk_size: u32) -> IdentityView {
        IdentityView {
            algorithm: ManifestHashAlgorithm::Blake3V1,
            root_hash: hex_text(root),
            total_bytes,
            chunk_size,
            chunk_count: pieces_needed(total_bytes as nat, chunk_size as nat) as u64,
        }
    }
}

/// Stable reference to the content manifest, without embedding file contents.
#[derive(Debug)]
pub struct ManifestIdentity {
    algorithm: ManifestHashAlgorithm,
    root_hash: String,
    total_bytes: u64,
    chunk_size: u32,
    chunk_count: u64,
}

impl View for ManifestIdentity {
    type V = IdentityView;

    closed spec fn view(&self) -> IdentityView {
        IdentityView {
            algorithm: self.algorithm,
            root_hash: self.root_hash@,
            total_bytes: self.total_bytes,
            chunk_size: self.chunk_size,
            chunk_count: self.chunk_count,
        }
    }
}

impl Clone for ManifestIdentity {
    fn clone(&self) -> (copy: ManifestIdentity)
        ensures
            copy == *self,
    {
        ManifestIdentity {
            algorithm: self.algorithm,
            root_hash: self.root_hash.clone(),
            total_bytes: self.total_bytes,
            chunk_size: self.chunk_size,
            chunk_count: self.chunk_count,
        }
    }
}

fn array_to_vec(bytes: [u8; 32]) -> (list: Vec<u8>)
    ensures
        list@ == bytes@,
{
    let mut list: Vec<u8> = Vec::new();
    let mut i: usize = 0;
    while i < 32
        invariant
            i <= 32,
            list@ == bytes@.take(i as int),
        decreases 32 - i,
    {
        list.push(bytes[i]);
        i = i + 1;
        assert(list@ =~= bytes@.take(i as int));
    }
    assert(bytes@.take(32) =~= bytes@);
    list
}

impl ManifestIdentity {
    /// The identity of content with this root digest and these sizes.
    pub fn blake3(
        root_hash: [u8; 32],
        total_bytes: u64,
        chunk_size: u32,
    ) -> (result: Result<ManifestIdentity, TaskModelError>)
        ensures
            result is Ok <==> chunk_size > 0,
            result matches Ok(identity) ==> identity@ == IdentityView::of_content(
                root_hash@,
                total_bytes,
                chunk_size,
            ) && identity@.valid(),
            result matches Err(error) ==> error == TaskModelError::InvalidManifestIdentity,
    {
        let root = array_to_vec(root_hash);
        ManifestIdentity::of_root(&root, total_bytes, chunk_size)
    }

    /// The identity of content whose root digest has these 32 bytes.
    pub fn of_root(
        root: &Vec<u8>,
        total_bytes: u64,
        chunk_size: u32,
    ) -> (result: Result<ManifestIdentity, TaskModelError>)
        requires
            root@.len() == 32,
        ensures
            result is Ok <==> chunk_size > 0,
            result matches Ok(identity) ==> identity@ == IdentityView::of_content(
                root@,
                total_bytes,
                chunk_size,
            ) && identity@.valid(),
            result matches Err(error) ==> error == TaskModelError::InvalidManifestIdentity,
    {
        if chunk_size == 0 {
            return Err(TaskModelError::InvalidManifestIdentity);
        }
        let identity = ManifestIdentity {
            algorithm: ManifestHashAlgorithm::Blake3V1,
            root_hash: hex_encode(root),
            total_bytes,
            chunk_size,
            chunk_count: count_pieces(total_bytes, chunk_size as u64),
        };
        proof {
            crate::identity::lemma_hex_roundtrip(root@);
        }
        match identity.validate() {
            Ok(()) => Ok(identity),
            Err(error) => Err(error),
        }
    }

    /// A stored identity, as read; `validate` decides whether it is sound.
    pub fn from_parts(
        algorithm: ManifestHashAlgorithm,
        root_hash: String,
        total_bytes: u64,
        chunk_size: u32,
        chunk_count: u64,
    ) -> (identity: ManifestIdentity)
        ensures
            identity@ == (IdentityView {
                algorithm,
                root_hash: root_hash@,
                total_bytes,
                chunk_size,
                chunk_count,
            }),
    {
        ManifestIdentity { algorithm, root_hash, total_bytes, chunk_size, chunk_count }
    }

    /// How the digest was made.
    pub fn algorithm(&self) -> (algorithm: ManifestHashAlgorithm)
        ensures
            algorithm == self@.algorithm,
    {
        self.algorithm
    }

    /// The root digest in hexadecimal.
    pub fn root_hash_hex(&self) -> (text: &str)
        ensures
            text@ == self@.root_hash,
    {
        self.root_hash.as_str()
    }

    /// The length of the content.
    pub fn total_bytes(&self) -> (bytes: u64)
        ensures
            bytes == self@.total_bytes,
    {
        self.total_bytes
    }

    /// The length of a full chunk.
    pub fn chunk_size(&self) -> (size: u32)
        ensures
            size == self@.chunk_size,
    {
        self.chunk_size
    }

    /// The number of chunks.
    pub fn chunk_count(&self) -> (count: u64)
        ensures
            count == self@.chunk_count,
    {
        self.chunk_count
    }

    /// Checks the digest form and that the chunk count follows from the sizes.
    pub fn validate(&self) -> (result: Result<(), TaskModelError>)
        ensures
            result is Ok <==> self@.valid(),
            result matches Err(error) ==> error == TaskModelError::InvalidManifestIdentity,
    {
        if !canonical_hex(&self.root_hash, 64) || self.chunk_size == 0 || self.chunk_count
            != count_pieces(self.total_bytes, self.chunk_size as u64) {
            return Err(TaskModelError::InvalidManifestIdentity);
        }
        proof {
            crate::identity::lemma_canonical_roundtrip(self.root_hash@, 32);
        }
        match hex_decode(&self.root_hash) {
            Some(bytes) => {
                if bytes.len() != 32 {
                    return Err(TaskModelError::InvalidManifestIdentity);
                }
            },
            None => {
                return Err(TaskModelError::InvalidManifestIdentity);
            },
        }
        Ok(())
    }

    /// Whether two identities say the same.
    pub fn same(&self, other: &ManifestIdentity) -> (same: bool)
        ensures
            same == (self@ == other@),
    {
        self.algorithm == other.algorithm && self.root_hash == other.root_hash && self.total_bytes
            == other.total_bytes && self.chunk_size == other.chunk_size && self.chunk_count
            == other.chunk_count
    }
}

/// Whether a task sends or receives.
#[derive(Clone, Copy, Debug, PartialEq, Eq, Structural)]
pub enum TaskDirection {
    Send,
    Receive,
}

/// What a local path is, as mathematical values.
pub struct PathView {
    pub text: Seq<char>,
    pub exact: bool,
    pub absolute: bool,
    pub components: Seq<Seq<char>>,
}

impl PathView {
    /// Whether two paths name the same place: their components agree.
    pub open spec fn same_place(self, other: PathView) -> bool {
        self.components == other.components
    }
}

/// `Path::is_absolute` says whether a path is independent of the current
/// directory. What counts as absolute differs between operating systems, so
/// nothing is said of the result.
#[verifier::external_body]
fn path_is_absolute(text: &str) -> bool {
    std::path::Path::new(text).is_absolute()
}

/// `Path::components` lists the parts by which paths are compared. How a path is
/// cut differs between operating systems, so nothing is said of the result.
#[verifier::external_body]
fn path_components(text: &str) -> Vec<String> {
    std::path::Path::new(text).components().map(
        |part| part.as_os_str().to_string_lossy().into_owned(),
    ).collect()
}

/// A local path with what the operating system says of it. The text is exact unless
/// the path is not Unicode.
#[derive(Debug)]
pub struct LocalPath {
    text: String,
    exact: bool,
    absolute: bool,
    components: Vec<String>,
}

impl View for LocalPath {
    type V = PathView;

    closed spec fn view(&self) -> PathView {
        PathView {
            text: self.text@,
            exact: self.exact,
            absolute: self.absolute,
            components: views(self.components@),
        }
    }
}

fn copy_texts(texts: &Vec<String>) -> (copy: Vec<String>)
    ensures
        views(copy@) == views(texts@),
{
    let mut copy: Vec<String> = Vec::new();
    let mut i: usize = 0;
    while i < texts.len()
        invariant
            i <= texts@.len(),
            copy@.len() == i,
            forall|k: int| 0 <= k < i ==> #[trigger] copy@[k]@ == texts@[k]@,
        decreases texts@.len() - i,
    {
        copy.push(texts[i].clone());
        i = i + 1;
    }
    assert(views(copy@) =~= views(texts@));
    copy
}

fn same_texts(left: &Vec<String>, right: &Vec<String>) -> (same: bool)
    ensures
        same == (views(left@) == views(right@)),
{
    if left.len() != right.len() {
        assert(views(left@).len() != views(right@).len());
        return false;
    }
    let mut i: usize = 0;
    while i < left.len()
        invariant
            i <= left@.len(),
            left@.len() == right@.len(),
            forall|k: int| 0 <= k < i ==> #[trigger] left@[k]@ == right@[k]@,
        decreases left@.len() - i,
    {
        if left[i] != right[i] {
            assert(views(left@)[i as int] != views(right@)[i as int]);
            return false;
        }
        i = i + 1;
    }
    assert(views(left@) =~= views(right@));
    true
}

impl LocalPath {
    /// A path as this machine sees it.
    pub fn new(text: &str) -> (path: LocalPath)
        ensures
            path@.text == text@,
            path@.exact,
    {
        let absolute = path_is_absolute(text);
        let components = path_components(text);
        LocalPath::from_parts(text.to_owned(), true, absolute, components)
    }

    /// A path with what is known of it.
    pub fn from_parts(
        text: String,
        exact: bool,
        absolute: bool,
        components: Vec<String>,
    ) -> (path: LocalPath)
        ensures
            path@ == (PathView { text: text@, exact, absolute, components: views(components@) }),
    {
        LocalPath { text, exact, absolute, components }
    }

    /// Whether the text is the whole path.
    pub fn is_exact(&self) -> (exact: bool)
        ensures
            exact == self@.exact,
    {
        self.exact
    }

    /// The path as text.
    pub fn text(&self) -> (text: &str)
        ensures
            text@ == self@.text,
    {
        self.text.as_str()
    }

    /// Whether the path is absolute.
    pub fn is_absolute(&self) -> (absolute: bool)
        ensures
            absolute == self@.absolute,
    {
        self.absolute
    }

    /// The parts by which paths are compared.
    pub fn components(&self) -> (components: Vec<String>)
        ensures
            views(components@) == self@.components,
    {
        copy_texts(&self.components)
    }

    /// Whether two paths name the same place.
    pub fn same_place(&self, other: &LocalPath) -> (same: bool)
        ensures
            same == self@.same_place(other@),
    {
        same_texts(&self.components, &other.components)
    }

    /// The same path again.
    pub fn duplicate(&self) -> (copy: LocalPath)
        ensures
            copy@ == self@,
    {
        LocalPath {
            text: self.text.clone(),
            exact: self.exact,
            absolute: self.absolute,
            components: copy_texts(&self.components),
        }
    }
}

/// A locally authorized path and what it is for, as mathematical values.
pub enum TaskPathView {
    Source(PathView),
    ReceiveRoot(PathView),
}

impl TaskPathView {
    /// The path itself.
    pub open spec fn path(self) -> PathView {
        match self {
            TaskPathView::Source(path) => path,
            TaskPathView::ReceiveRoot(path) => path,
        }
    }

    /// Whether two paths have the same purpose and name the same place.
    pub open spec fn same_binding(self, other: TaskPathView) -> bool {
        (self is Source) == (other is Source) && self.path().same_place(other.path())
    }
}

/// Locally authorized path only. This type is never constructed from protocol data.
#[derive(Debug)]
pub enum LocalTaskPath {
    Source(LocalPath),
    ReceiveRoot(LocalPath),
}

impl View for LocalTaskPath {
    type V = TaskPathView;

    open spec fn view(&self) -> TaskPathView {
        match self {
            LocalTaskPath::Source(path) => TaskPathView::Source(path@),
            LocalTaskPath::ReceiveRoot(path) => TaskPathView::ReceiveRoot(path@),
        }
    }
}

impl LocalTaskPath {
    /// The file or directory to send; it must be absolute.
    pub fn source(path: LocalPath) -> (result: Result<LocalTaskPath, TaskModelError>)
        ensures
            result is Ok <==> path@.absolute,
            result matches Ok(bound) ==> bound@ == TaskPathView::Source(path@),
            result matches Err(error) ==> error == TaskModelError::RelativeLocalPath,
    {
        if !path.is_absolute() {
            return Err(TaskModelError::RelativeLocalPath);
        }
        Ok(LocalTaskPath::Source(path))
    }

    /// The directory to receive into; it must be absolute.
    pub fn receive_root(path: LocalPath) -> (result: Result<LocalTaskPath, TaskModelError>)
        ensures
            result is Ok <==> path@.absolute,
            result matches Ok(bound) ==> bound@ == TaskPathView::ReceiveRoot(path@),
            result matches Err(error) ==> error == TaskModelError::RelativeLocalPath,
    {
        if !path.is_absolute() {
            return Err(TaskModelError::RelativeLocalPath);
        }
        Ok(LocalTaskPath::ReceiveRoot(path))
    }

    /// The path itself.
    pub fn path(&self) -> (path: &LocalPath)
        ensures
            path@ == self@.path(),
    {
        match self {
            LocalTaskPath::Source(path) => path,
            LocalTaskPath::ReceiveRoot(path) => path,
        }
    }

    /// Whether this is something to send.
    pub fn is_sender_source(&self) -> (source: bool)
        ensures
            source == (self@ is Source),
    {
        matches!(self, LocalTaskPath::Source(_))
    }

    /// The same path again.
    pub fn duplicate(&self) -> (copy: LocalTaskPath)
        ensures
            copy@ == self@,
    {
        match self {
            LocalTaskPath::Source(path) => LocalTaskPath::Source(path.duplicate()),
            LocalTaskPath::ReceiveRoot(path) => LocalTaskPath::ReceiveRoot(path.duplicate()),
        }
    }
}

/// Where a task is in its life.
#[derive(Clone, Copy, Debug, PartialEq, Eq, Structural)]
pub enum TaskState {
    Scanning,
    Queued,
    Connecting,
    Negotiating,
    Transferring,
    Pausing,
    Paused,
    Finalizing,
    Completed,
    Interrupted,
    Failed,
}

impl TaskState {
    /// The name of the state.
    pub open spec fn name_text(self) -> Seq<char> {
        match self {
            TaskState::Scanning => "Scanning"@,
            TaskState::Queued => "Queued"@,
            TaskState::Connecting => "Connecting"@,
            TaskState::Negotiating => "Negotiating"@,
            TaskState::Transferring => "Transferring"@,
            TaskState::Pausing => "Pausing"@,
            TaskState::Paused => "Paused"@,
            TaskState::Finalizing => "Finalizing"@,
            TaskState::Completed => "Completed"@,
            TaskState::Interrupted => "Interrupted"@,
            TaskState::Failed => "Failed"@,
        }
    }

    /// The name of the state.
    pub fn name(self) -> (name: &'static str)
        ensures
            name@ == self.name_text(),
    {
        match self {
            TaskState::Scanning => "Scanning",
            TaskState::Queued => "Queued",
            TaskState::Connecting => "Connecting",
            TaskState::Negotiating => "Negotiating",
            TaskState::Transferring => "Transferring",
            TaskState::Pausing => "Pausing",
            TaskState::Paused => "Paused",
            TaskState::Finalizing => "Finalizing",
            TaskState::Completed => "Completed",
            TaskState::Interrupted => "Interrupted",
            TaskState::Failed => "Failed",
        }
    }

    /// Whether the state is an end of the task's life.
    pub open spec fn terminal(self) -> bool {
        self == TaskState::Completed || self == TaskState::Failed
    }

    /// Whether work was under way in this state.
    pub open spec fn active(self) -> bool {
        match self {
            TaskState::Paused | TaskState::Completed | TaskState::Interrupted
            | TaskState::Failed => false,
            _ => true,
        }
    }

    /// The transition table.
    pub open spec fn may_become(self, next: TaskState, retryable_failure: bool) -> bool {
        match (self, next) {
            (TaskState::Failed, TaskState::Queued) => retryable_failure,
            (TaskState::Failed, _) => false,
            (TaskState::Completed, _) => false,
            (_, TaskState::Failed) => true,
            (TaskState::Interrupted, TaskState::Queued) => true,
            (TaskState::Interrupted, _) => false,
            (_, TaskState::Interrupted) => true,
            (TaskState::Scanning, TaskState::Queued) => true,
            (TaskState::Queued, TaskState::Connecting | TaskState::Pausing) => true,
            (TaskState::Connecting, TaskState::Negotiating | TaskState::Pausing) => true,
            (TaskState::Negotiating, TaskState::Transferring | TaskState::Pausing) => true,
            (TaskState::Transferring, TaskState::Pausing | TaskState::Finalizing) => true,
            (TaskState::Pausing, TaskState::Paused) => true,
            (TaskState::Paused, TaskState::Queued) => true,
            (TaskState::Finalizing, TaskState::Completed) => true,
            _ => false,
        }
    }

    /// Whether the state is an end of the task's life.
    pub fn is_terminal(self) -> (terminal: bool)
        ensures
            terminal == self.terminal(),
    {
        matches!(self, TaskState::Completed | TaskState::Failed)
    }

    /// Whether a task found in this state at startup was interrupted.
    pub fn needs_startup_recovery(self) -> (needed: bool)
        ensures
            needed == self.active(),
    {
        matches!(
            self,
            TaskState::Scanning | TaskState::Queued | TaskState::Connecting
                | TaskState::Negotiating | TaskState::Transferring | TaskState::Pausing
                | TaskState::Finalizing
        )
    }

    /// The transition table.
    pub fn allows(self, next: TaskState, retryable_failure: bool) -> (allowed: bool)
        ensures
            allowed == self.may_become(next, retryable_failure),
    {
        match (self, next) {
            (
                TaskState::Scanning,
                TaskState::Queued | TaskState::Interrupted | TaskState::Failed,
            ) => true,
            (
                TaskState::Queued,
                TaskState::Connecting | TaskState::Pausing | TaskState::Interrupted
                | TaskState::Failed,
            ) => true,
            (
                TaskState::Connecting,
                TaskState::Negotiating | TaskState::Pausing | TaskState::Interrupted
                | TaskState::Failed,
            ) => true,
            (
                TaskState::Negotiating,
                TaskState::Transferring | TaskState::Pausing | TaskState::Interrupted
                | TaskState::Failed,
            ) => true,
            (
                TaskState::Transferring,
                TaskState::Pausing | TaskState::Finalizing | TaskState::Interrupted
                | TaskState::Failed,
            ) => true,
            (
                TaskState::Pausing,
                TaskState::Paused | TaskState::Interrupted | TaskState::Failed,
            ) => true,
            (
                TaskState::Paused,
                TaskState::Queued | TaskState::Interrupted | TaskState::Failed,
            ) => true,
            (
                TaskState::Finalizing,
                TaskState::Completed | TaskState::Interrupted | TaskState::Failed,
            ) => true,
            (TaskState::Interrupted, TaskState::Queued | TaskState::Failed) => true,
            (TaskState::Failed, TaskState::Queued) => retryable_failure,
            _ => false,
        }
    }
}

/// What went wrong, as a fixed code.
#[derive(Clone, Copy, Debug, PartialEq, Eq, Structural)]
pub enum TaskErrorCode {
    SourceUnavailable,
    SourceChanged,
    PeerUnavailable,
    PermissionDenied,
    DiskFull,
    IntegrityMismatch,
    InvalidRemoteData,
    UnsupportedPeer,
    NetworkInterrupted,
    ApplicationRestarted,
    StorageUnavailable,
    UserCancelled,
    Other,
}

impl TaskErrorCode {
    /// The message shown for this code.
    pub open spec fn text(self) -> Seq<char> {
        match self {
            TaskErrorCode::SourceUnavailable => "本机源文件不可用"@,
            TaskErrorCode::SourceChanged => "本机源文件内容已变化"@,
            TaskErrorCode::PeerUnavailable => "对端当前不可用"@,
            TaskErrorCode::PermissionDenied => "本机目录权限不足"@,
            TaskErrorCode::DiskFull => "本机磁盘空间不足"@,
            TaskErrorCode::IntegrityMismatch => "内容完整性校验失败"@,
            TaskErrorCode::InvalidRemoteData => "对端数据无效"@,
            TaskErrorCode::UnsupportedPeer => "对端不支持此任务能力"@,
            TaskErrorCode::NetworkInterrupted => "网络连接中断"@,
            TaskErrorCode::ApplicationRestarted => "应用退出时任务被中断"@,
            TaskErrorCode::StorageUnavailable => "任务存储不可用"@,
            TaskErrorCode::UserCancelled => "任务已取消"@,
            TaskErrorCode::Other => "任务失败，详情不可用"@,
        }
    }
}

/// Safe diagnostic classification. Only a code and a retryability bit are kept,
/// never raw errors, paths, secrets, or transfer contents.
#[derive(Clone, Copy, Debug, PartialEq, Eq, Structural)]
pub struct TaskDiagnostic {
    pub code: TaskErrorCode,
    pub retryable: bool,
}

impl TaskDiagnostic {
    /// A diagnostic with this code.
    pub fn new(code: TaskErrorCode, retryable: bool) -> (diagnostic: TaskDiagnostic)
        ensures
            diagnostic == (TaskDiagnostic { code, retryable }),
    {
        TaskDiagnostic { code, retryable }
    }

    /// What went wrong.
    pub fn code(self) -> (code: TaskErrorCode)
        ensures
            code == self.code,
    {
        self.code
    }

    /// Whether trying again may help.
    pub fn is_retryable(self) -> (retryable: bool)
        ensures
            retryable == self.retryable,
    {
        self.retryable
    }

    /// A fixed message that never holds a raw error.
    pub fn safe_message(self) -> (text: &'static str)
        ensures
            text@ == self.code.text(),
    {
        match self.code {
            TaskErrorCode::SourceUnavailable => "本机源文件不可用",
            TaskErrorCode::SourceChanged => "本机源文件内容已变化",
            TaskErrorCode::PeerUnavailable => "对端当前不可用",
            TaskErrorCode::PermissionDenied => "本机目录权限不足",
            TaskErrorCode::DiskFull => "本机磁盘空间不足",
            TaskErrorCode::IntegrityMismatch => "内容完整性校验失败",
            TaskErrorCode::InvalidRemoteData => "对端数据无效",
            TaskErrorCode::UnsupportedPeer => "对端不支持此任务能力",
            TaskErrorCode::NetworkInterrupted => "网络连接中断",
            TaskErrorCode::ApplicationRestarted => "应用退出时任务被中断",
            TaskErrorCode::StorageUnavailable => "任务存储不可用",
            TaskErrorCode::UserCancelled => "任务已取消",
            TaskErrorCode::Other => "任务失败，详情不可用",
        }
    }
}

/// A display-only progress estimate. The receiver's checkpoint is authoritative.
#[derive(Clone, Copy, Debug, PartialEq, Eq, Structural)]
pub struct ProgressHint {
    pub verified_bytes: u64,
    pub sampled_at_unix_ms: i64,
}

impl ProgressHint {
    /// A sample.
    pub fn new(verified_bytes: u64, sampled_at_unix_ms: i64) -> (hint: ProgressHint)
        ensures
            hint == (ProgressHint { verified_bytes, sampled_at_unix_ms }),
    {
        ProgressHint { verified_bytes, sampled_at_unix_ms }
    }

    /// How many bytes were verified.
    pub fn verified_bytes(self) -> (bytes: u64)
        ensures
            bytes == self.verified_bytes,
    {
        self.verified_bytes
    }

    /// When the sample was taken.
    pub fn sampled_at_unix_ms(self) -> (time: i64)
        ensures
            time == self.sampled_at_unix_ms,
    {
        self.sampled_at_unix_ms
    }
}

/// A task can go from its scan to its completion, and be paused on the way before it is
/// being finalized; what was paused or interrupted can be queued again, and so can what
/// failed in a way that may be tried again.
pub proof fn tasks_can_run_to_the_end(retryable: bool)
    ensures
        TaskState::Scanning.may_become(TaskState::Queued, retryable),
        TaskState::Queued.may_become(TaskState::Connecting, retryable),
        TaskState::Connecting.may_become(TaskState::Negotiating, retryable),
        TaskState::Negotiating.may_become(TaskState::Transferring, retryable),
        TaskState::Transferring.may_become(TaskState::Finalizing, retryable),
        TaskState::Finalizing.may_become(TaskState::Completed, retryable),
        forall|state: TaskState|
            state == TaskState::Queued || state == TaskState::Connecting || state
                == TaskState::Negotiating || state == TaskState::Transferring
                ==> #[trigger] state.may_become(TaskState::Pausing, retryable),
        TaskState::Pausing.may_become(TaskState::Paused, retryable),
        TaskState::Paused.may_become(TaskState::Queued, retryable),
        TaskState::Interrupted.may_become(TaskState::Queued, retryable),
        TaskState::Failed.may_become(TaskState::Queued, retryable) <==> retryable,
{
}

/// What is not over may fail, and what is neither over nor interrupted may be
/// interrupted.
pub proof fn unfinished_tasks_can_stop(state: TaskState, retryable: bool)
    ensures
        state.may_become(TaskState::Failed, retryable) <==> state != TaskState::Completed && state
            != TaskState::Failed,
        state.may_become(TaskState::Interrupted, retryable) <==> state != TaskState::Completed
            && state != TaskState::Failed && state != TaskState::Interrupted,
{
}

/// Each step of a task follows the one before it, and no state is skipped.
pub proof fn states_follow_each_other(state: TaskState, next: TaskState, retryable: bool)
    requires
        state.may_become(next, retryable),
    ensures
        next == TaskState::Completed ==> state == TaskState::Finalizing,
        next == TaskState::Finalizing ==> state == TaskState::Transferring,
        next == TaskState::Transferring ==> state == TaskState::Negotiating,
        next == TaskState::Negotiating ==> state == TaskState::Connecting,
        next == TaskState::Connecting ==> state == TaskState::Queued,
        next == TaskState::Paused ==> state == TaskState::Pausing,
        next == TaskState::Queued ==> state == TaskState::Scanning || state == TaskState::Paused
            || state == TaskState::Interrupted || state == TaskState::Failed,
        next != TaskState::Scanning,
        next != state,
{
}

/// Work is under way in every state but the four in which a task rests.
pub proof fn resting_states_are_four(state: TaskState)
    ensures
        state.active() <==> !(state == TaskState::Paused || state == TaskState::Completed || state
            == TaskState::Interrupted || state == TaskState::Failed),
        state.terminal() <==> state == TaskState::Completed || state == TaskState::Failed,
{
}

/// The identity of a content names its root and its sizes: different ones have different
/// identities.
pub proof fn identities_name_their_content(
    root: Seq<u8>,
    total_bytes: u64,
    chunk_size: u32,
    other_root: Seq<u8>,
    other_bytes: u64,
    other_size: u32,
)
    requires
        root.len() == other_root.len(),
        IdentityView::of_content(root, total_bytes, chunk_size) == IdentityView::of_content(
            other_root,
            other_bytes,
            other_size,
        ),
    ensures
        root == other_root,
        total_bytes == other_bytes,
        chunk_size == other_size,
{
    crate::identity::lemma_hex_roundtrip(root);
    crate::identity::lemma_hex_roundtrip(other_root);
}

} // verus!
