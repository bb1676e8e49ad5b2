//! Which files a task may touch: what is offered, accepted, read and staged.

use vstd::prelude::*;

use crate::error::{decided, failure, Error, Result};
use crate::identity::NodeId;
use crate::lists::{first_index, lemma_first_index, lemma_is_first_index};
use crate::manifest::{FileManifest, ManifestView};
use crate::paths::{path_refusal, validate_relative_path};
use crate::protocol::MAX_CHUNKS;
use crate::secure_fs::{split_parent, EntryKind, FileIdentity};
use crate::task_model::{
    LocalPath, PathView, PeerId, TaskDirection, TaskId, TaskModelError, TaskState,
};
use crate::task_record::{
    base_name, bound_path, directory_identity, id_view, is_base_name, same_id, DetailsView,
    DirectoryView, FileView, TaskDetails, TaskRecord, TaskView,
};
use crate::task_recovery::task_views;
use crate::task_store::{StoreView, TaskStore};
use crate::text::{from_chars, pieces, same_text, split_text, to_chars, views};

verus! {

/// The largest chunk of a desktop task.
pub const MAX_DESKTOP_CHUNK: u32 = 1048576;

/// Why a file cannot be a task of its own.
pub open spec fn single_file_refusal(manifest: ManifestView, relative: Seq<char>) -> Option<
    Seq<char>,
> {
    if path_refusal(relative) is Some {
        path_refusal(relative)
    } else if manifest.refusal() is Some {
        manifest.refusal()
    } else if base_name(relative) != manifest.file_name || manifest.chunk_size > MAX_DESKTOP_CHUNK
        || manifest.chunks.len() > MAX_CHUNKS {
        Some("单文件任务清单或名称不受支持"@)
    } else {
        None
    }
}

/// Whether a file can be a task of its own.
pub fn validate_single_file(manifest: &FileManifest, relative: &str) -> (result: Result<()>)
    ensures
        decided(result, single_file_refusal(manifest@, relative@)),
{
    validate_relative_path(relative)?;
    manifest.validate()?;
    if !is_base_name(relative, &manifest.file_name) || manifest.chunk_size > MAX_DESKTOP_CHUNK
        || manifest.chunks.len() > MAX_CHUNKS {
        return Err(failure("单文件任务清单或名称不受支持"));
    }
    Ok(())
}

/// Whether an entry may be a source or a target.
pub fn regular_file(kind: EntryKind) -> (result: Result<()>)
    ensures
        decided(
            result,
            if kind == EntryKind::File {
                None
            } else {
                Some("源或目标必须是普通文件"@)
            },
        ),
{
    if kind == EntryKind::File {
        Ok(())
    } else {
        Err(failure("源或目标必须是普通文件"))
    }
}

/// Whether a selected path may be a source.
pub fn check_source_path(path: &LocalPath) -> (result: Result<()>)
    ensures
        decided(
            result,
            if path@.absolute && path@.exact {
                None
            } else {
                Some("源路径必须为绝对 UTF-8 路径"@)
            },
        ),
{
    if path.is_absolute() && path.is_exact() {
        Ok(())
    } else {
        Err(failure("源路径必须为绝对 UTF-8 路径"))
    }
}

/// Whether as much was read of a file as was announced, and no more.
pub fn check_bounded(length: u64, limit: u64) -> (result: Result<()>)
    ensures
        decided(
            result,
            if length <= limit {
                None
            } else {
                Some("源文件内容已变化或超过资源上限"@)
            },
        ),
{
    if length > limit {
        return Err(failure("源文件内容已变化或超过资源上限"));
    }
    Ok(())
}

/// The failure with the text of another error.
pub fn local_error(text: &str) -> (error: Error)
    ensures
        error.refuses(text@),
{
    failure(text)
}

/// Why no task can be made for a sound file or directory: where it is, or when.
pub open spec fn creation_refusal(path: PathView, now: i64) -> Option<Seq<char>> {
    if !path.absolute {
        Some(TaskModelError::RelativeLocalPath.text())
    } else if now < 0 {
        Some(TaskModelError::InvalidTimestamps.text())
    } else {
        None
    }
}

/// The task for a file that the user selected.
pub fn select_file(
    peer: NodeId,
    source: LocalPath,
    manifest: FileManifest,
    now: i64,
) -> (result: Result<TaskRecord>)
    ensures
        decided(
            result,
            if !source@.absolute || !source@.exact {
                Some("源路径必须为绝对 UTF-8 路径"@)
            } else if single_file_refusal(manifest@, manifest@.file_name) is Some {
                single_file_refusal(manifest@, manifest@.file_name)
            } else {
                creation_refusal(source@, now)
            },
        ),
        result matches Ok(record) ==> record@.valid() && record@ == TaskView::fresh(
            record@.task_id,
            peer.hex(),
            TaskDirection::Send,
            bound_path(TaskDirection::Send, source@),
            crate::task_model::IdentityView::of_manifest(manifest@),
            now,
            plain_file(manifest@.file_name, manifest@),
            None,
        ),
{
    check_source_path(&source)?;
    validate_single_file(&manifest, &manifest.file_name)?;
    proof {
        crate::manifest::digest_bytes_make_the_digest(manifest@.root_hash);
        crate::task_record::lemma_content_identity_valid(
            manifest@.root_hash.bytes(),
            manifest@.total_len,
            manifest@.chunk_size,
        );
    }
    let relative = manifest.file_name.clone();
    match TaskRecord::new_file(
        TaskId::generate(),
        PeerId::from_node_id(peer),
        TaskDirection::Send,
        source,
        relative,
        manifest,
        now,
    ) {
        Ok(record) => Ok(record),
        Err(error) => Err(local_error(&error.message())),
    }
}

/// Whether a task belongs to a peer and moves a file or a directory.
pub open spec fn is_bound(task: TaskView, peer: NodeId) -> bool {
    task.peer_id == peer.hex() && !(task.details is Content)
}

/// Why a peer may not act on a task.
pub open spec fn bound_refusal(store: StoreView, peer: NodeId, id: Seq<char>) -> Option<Seq<char>> {
    if !store.has(id) {
        Some(crate::task_store::TaskStoreError::TaskNotFound.text())
    } else if !is_bound(store.task(id), peer) {
        Some("任务未授权给该对端"@)
    } else {
        None
    }
}

/// The task with which a peer may act.
pub fn bound_task(store: &TaskStore, peer: NodeId, id: &TaskId) -> (result: Result<TaskRecord>)
    ensures
        decided(result, bound_refusal(store@, peer, id@)),
        result matches Ok(record) ==> record@ == store@.task(id@),
{
    let record = match store.task(id) {
        Ok(record) => record,
        Err(error) => {
            return Err(local_error(&error.message()));
        },
    };
    let owner = PeerId::from_node_id(peer);
    let has_content = match record.details() {
        TaskDetails::Content => false,
        _ => true,
    };
    if !record.peer_id().same(&owner) || !has_content {
        return Err(failure("任务未授权给该对端"));
    }
    Ok(record)
}

/// The states that a task goes through to be attempted again.
pub open spec fn attempt_path(state: TaskState) -> Seq<TaskState> {
    if state == TaskState::Completed {
        Seq::empty()
    } else if state == TaskState::Paused || state == TaskState::Interrupted || state
        == TaskState::Failed {
        seq![TaskState::Queued, TaskState::Connecting, TaskState::Negotiating]
    } else {
        seq![TaskState::Connecting, TaskState::Negotiating]
    }
}

/// The states that a task goes through to be attempted again; none for one that is
/// complete.
pub fn begin_attempt(state: TaskState) -> (path: Vec<TaskState>)
    ensures
        path@ == attempt_path(state),
{
    let mut path: Vec<TaskState> = Vec::new();
    if state == TaskState::Completed {
        assert(path@ =~= attempt_path(state));
        return path;
    }
    if state == TaskState::Paused || state == TaskState::Interrupted || state == TaskState::Failed {
        path.push(TaskState::Queued);
    }
    path.push(TaskState::Connecting);
    path.push(TaskState::Negotiating);
    assert(path@ =~= attempt_path(state));
    path
}

/// Whether every step along some states is allowed.
pub open spec fn steps_allowed(from: TaskState, path: Seq<TaskState>, retryable: bool) -> bool
    decreases path.len(),
{
    path.len() == 0 || (from.may_become(path[0], retryable) && steps_allowed(
        path[0],
        path.skip(1),
        retryable,
    ))
}

/// A task that is queued, paused, interrupted or failed in a way that may be tried
/// again can be attempted, and so can a completed one, by nothing.
pub proof fn attempts_are_allowed(state: TaskState, retryable: bool)
    requires
        state == TaskState::Queued || state == TaskState::Paused || state == TaskState::Interrupted
            || state == TaskState::Completed || (state == TaskState::Failed && retryable),
    ensures
        steps_allowed(state, attempt_path(state), retryable),
{
    reveal_with_fuel(steps_allowed, 4);
    let path = attempt_path(state);
    if path.len() == 3 {
        assert(path.skip(1)[0] == TaskState::Connecting);
        assert(path.skip(1).skip(1)[0] == TaskState::Negotiating);
    } else if path.len() == 2 {
        assert(path.skip(1)[0] == TaskState::Negotiating);
    }
}

/// Finds a received task of the same selection and peer.
pub open spec fn of_selection(peer: NodeId, group: Seq<char>) -> spec_fn(TaskView) -> bool {
    |task: TaskView|
        task.direction == TaskDirection::Receive && task.peer_id == peer.hex() && task.group_id
            == Some(group)
}

/// Where the entries of a selection are received: where the first one was, also after
/// the configured directory changed.
pub open spec fn selection_root(
    tasks: Seq<TaskView>,
    peer: NodeId,
    group: Option<Seq<char>>,
    root: PathView,
) -> PathView {
    match group {
        None => root,
        Some(found) => {
            let at = first_index(tasks, of_selection(peer, found));
            if at < tasks.len() {
                tasks[at].local_path.path()
            } else {
                root
            }
        },
    }
}

/// Where the entries of a selection are received.
pub fn receive_selection_root(
    store: &TaskStore,
    peer: NodeId,
    group: &Option<TaskId>,
    root: &LocalPath,
) -> (path: LocalPath)
    ensures
        path@ == selection_root(store@.tasks, peer, id_view(*group), root@),
{
    let wanted = match group {
        Some(id) => id,
        None => {
            return root.duplicate();
        },
    };
    let owner = PeerId::from_node_id(peer);
    let tasks = store.list();
    let mut i: usize = 0;
    while i < tasks.len()
        invariant
            i <= tasks@.len(),
            task_views(tasks@) == store@.tasks,
            owner@ == peer.hex(),
            *group == Some(*wanted),
            forall|k: int|
                0 <= k < i ==> !of_selection(peer, wanted@)(#[trigger] store@.tasks[k]),
        decreases tasks@.len() - i,
    {
        assert(store@.tasks[i as int] == tasks@[i as int]@);
        let same_group = match tasks[i].group_id() {
            Some(found) => found.same(wanted),
            None => false,
        };
        if tasks[i].direction() == TaskDirection::Receive && tasks[i].peer_id().same(&owner)
            && same_group {
            proof {
                assert(of_selection(peer, wanted@)(store@.tasks[i as int]));
                lemma_is_first_index(store@.tasks, of_selection(peer, wanted@), i as int);
            }
            return tasks[i].local_path().duplicate();
        }
        i = i + 1;
    }
    proof {
        assert(store@.tasks.len() == tasks@.len());
        lemma_is_first_index(store@.tasks, of_selection(peer, wanted@), i as int);
    }
    root.duplicate()
}

/// What accepting an offered entry comes to.
#[derive(Debug)]
pub enum Acceptance {
    Create(TaskRecord),
    Resume(TaskRecord),
}

/// The task for an entry that is received.
pub open spec fn received_task(
    store: StoreView,
    peer: NodeId,
    id: Seq<char>,
    root: PathView,
    identity: crate::task_model::IdentityView,
    details: DetailsView,
    group: Option<Seq<char>>,
    now: i64,
) -> TaskView {
    TaskView::fresh(
        id,
        peer.hex(),
        TaskDirection::Receive,
        bound_path(TaskDirection::Receive, selection_root(store.tasks, peer, group, root)),
        identity,
        now,
        details,
        group,
    )
}

/// The details of a file without a receipt that was selected on its own or is received.
pub open spec fn plain_file(relative: Seq<char>, manifest: ManifestView) -> DetailsView {
    DetailsView::File(
        FileView {
            relative_path: relative,
            manifest,
            source_root: None,
            receipt_committed: false,
        },
    )
}

/// Why an offered file is not accepted under an identifier that is in use.
pub open spec fn known_file_refusal(
    store: StoreView,
    peer: NodeId,
    id: Seq<char>,
    relative: Seq<char>,
    manifest: ManifestView,
    group: Option<Seq<char>>,
) -> Option<Seq<char>> {
    let task = store.task(id);
    if bound_refusal(store, peer, id) is Some {
        bound_refusal(store, peer, id)
    } else {
        match task.details {
            DetailsView::File(file) => if task.direction != TaskDirection::Receive
                || file.relative_path != relative || file.manifest != manifest || task.group_id
                != group {
                Some("已有任务与 Offer 身份不符"@)
            } else {
                None
            },
            _ => Some("已有目录任务不能变成文件"@),
        }
    }
}

/// Accepts an offered file: as a new task, or as one that is already known and the same.
pub fn accept_entry(
    store: &TaskStore,
    peer: NodeId,
    id: &TaskId,
    root: &LocalPath,
    relative: String,
    manifest: FileManifest,
    group: Option<TaskId>,
    now: i64,
) -> (result: Result<Acceptance>)
    ensures
        decided(
            result,
            if single_file_refusal(manifest@, relative@) is Some {
                single_file_refusal(manifest@, relative@)
            } else if store@.has(id@) {
                known_file_refusal(store@, peer, id@, relative@, manifest@, id_view(group))
            } else {
                creation_refusal(selection_root(store@.tasks, peer, id_view(group), root@), now)
            },
        ),
        result matches Ok(Acceptance::Create(record)) ==> !store@.has(id@) && record@.valid()
            && record@ == received_task(
            store@,
            peer,
            id@,
            root@,
            crate::task_model::IdentityView::of_manifest(manifest@),
            plain_file(relative@, manifest@),
            id_view(group),
            now,
        ),
        result matches Ok(Acceptance::Resume(record)) ==> store@.has(id@) && record@ == store@.task(
            id@,
        ),
{
    validate_single_file(&manifest, &relative)?;
    match store.task(id) {
        Ok(_) => {
            let existing = bound_task(store, peer, id)?;
            match existing.details() {
                TaskDetails::File(file) => {
                    if existing.direction() != TaskDirection::Receive || !same_text(
                        &file.relative_path,
                        &relative,
                    ) || !file.manifest.same_as(&manifest) || !same_id(existing.group_id(), &group) {
                        return Err(failure("已有任务与 Offer 身份不符"));
                    }
                },
                _ => {
                    return Err(failure("已有目录任务不能变成文件"));
                },
            }
            Ok(Acceptance::Resume(existing))
        },
        Err(_) => {
            proof {
                crate::manifest::digest_bytes_make_the_digest(manifest@.root_hash);
                crate::task_record::lemma_content_identity_valid(
                    manifest@.root_hash.bytes(),
                    manifest@.total_len,
                    manifest@.chunk_size,
                );
            }
            let path = receive_selection_root(store, peer, &group, root);
            let mut record = match TaskRecord::new_file(
                id.clone(),
                PeerId::from_node_id(peer),
                TaskDirection::Receive,
                path,
                relative,
                manifest,
                now,
            ) {
                Ok(record) => record,
                Err(error) => {
                    return Err(local_error(&error.message()));
                },
            };
            match record.set_selection_binding(group, None) {
                Ok(_) => Ok(Acceptance::Create(record)),
                Err(error) => Err(local_error(&error.message())),
            }
        },
    }
}

/// Accepts an offered file that belongs to no selection.
pub fn accept_offer(
    store: &TaskStore,
    peer: NodeId,
    id: &TaskId,
    root: &LocalPath,
    relative: String,
    manifest: FileManifest,
    now: i64,
) -> (result: Result<Acceptance>)
    ensures
        decided(
            result,
            if single_file_refusal(manifest@, relative@) is Some {
                single_file_refusal(manifest@, relative@)
            } else if store@.has(id@) {
                known_file_refusal(store@, peer, id@, relative@, manifest@, None)
            } else {
                creation_refusal(root@, now)
            },
        ),
        result matches Ok(Acceptance::Create(record)) ==> !store@.has(id@) && record@.valid()
            && record@ == received_task(
            store@,
            peer,
            id@,
            root@,
            crate::task_model::IdentityView::of_manifest(manifest@),
            plain_file(relative@, manifest@),
            None,
            now,
        ),
        result matches Ok(Acceptance::Resume(record)) ==> store@.has(id@) && record@ == store@.task(
            id@,
        ),
{
    accept_entry(store, peer, id, root, relative, manifest, None, now)
}

/// Why an offered directory is not accepted under an identifier that is in use.
pub open spec fn known_directory_refusal(
    store: StoreView,
    peer: NodeId,
    id: Seq<char>,
    relative: Seq<char>,
    group: Option<Seq<char>>,
) -> Option<Seq<char>> {
    let task = store.task(id);
    if bound_refusal(store, peer, id) is Some {
        bound_refusal(store, peer, id)
    } else if task.direction != TaskDirection::Receive || !(task.details matches
        DetailsView::Directory(directory) && directory.relative_path == relative) || task.group_id
        != group {
        Some("已有目录任务与 Offer 不符"@)
    } else {
        None
    }
}

/// Accepts an offered directory: as a new task, or as one that is already known and
/// the same.
pub fn accept_directory(
    store: &TaskStore,
    peer: NodeId,
    id: &TaskId,
    root: &LocalPath,
    relative: String,
    group: Option<TaskId>,
    now: i64,
) -> (result: Result<Acceptance>)
    ensures
        decided(
            result,
            if path_refusal(relative@) is Some {
                path_refusal(relative@)
            } else if store@.has(id@) {
                known_directory_refusal(store@, peer, id@, relative@, id_view(group))
            } else {
                creation_refusal(selection_root(store@.tasks, peer, id_view(group), root@), now)
            },
        ),
        result matches Ok(Acceptance::Create(record)) ==> !store@.has(id@) && record@.valid()
            && record@ == received_task(
            store@,
            peer,
            id@,
            root@,
            directory_identity(relative@),
            DetailsView::Directory(
                DirectoryView { relative_path: relative@, receipt_committed: false },
            ),
            id_view(group),
            now,
        ),
        result matches Ok(Acceptance::Resume(record)) ==> store@.has(id@) && record@ == store@.task(
            id@,
        ),
{
    validate_relative_path(&relative)?;
    match store.task(id) {
        Ok(_) => {
            let existing = bound_task(store, peer, id)?;
            let same_path = match existing.details() {
                TaskDetails::Directory(directory) => same_text(&directory.relative_path, &relative),
                _ => false,
            };
            if existing.direction() != TaskDirection::Receive || !same_path || !same_id(
                existing.group_id(),
                &group,
            ) {
                return Err(failure("已有目录任务与 Offer 不符"));
            }
            Ok(Acceptance::Resume(existing))
        },
        Err(_) => {
            proof {
                let hash = crate::manifest::ChunkHash::digest(
                    vstd::utf8::encode_utf8(relative@),
                );
                crate::manifest::digest_bytes_make_the_digest(hash);
                crate::task_record::lemma_content_identity_valid(
                    hash.bytes(),
                    0,
                    crate::manifest::DEFAULT_CHUNK_SIZE,
                );
            }
            let path = receive_selection_root(store, peer, &group, root);
            match TaskRecord::new_directory(
                id.clone(),
                PeerId::from_node_id(peer),
                TaskDirection::Receive,
                path,
                relative,
                group,
                now,
            ) {
                Ok(record) => Ok(Acceptance::Create(record)),
                Err(error) => Err(local_error(&error.message())),
            }
        },
    }
}

/// Everything that is received of one selection goes to where its first entry went.
pub proof fn selections_stay_together(
    store: StoreView,
    peer: NodeId,
    group: Seq<char>,
    at: int,
    root: PathView,
    other_root: PathView,
)
    requires
        0 <= at < store.tasks.len(),
        of_selection(peer, group)(store.tasks[at]),
    ensures
        selection_root(store.tasks, peer, Some(group), root) == selection_root(
            store.tasks,
            peer,
            Some(group),
            other_root,
        ),
{
    lemma_first_index(store.tasks, of_selection(peer, group));
}

/// The first slash of a path; the length where there is none.
pub open spec fn first_slash(path: Seq<char>) -> int {
    first_index(path, |ch: char| ch == '/')
}

/// Why a source below a selected directory is not where its task says.
pub open spec fn source_below_refusal(
    relative: Seq<char>,
    root: PathView,
    local: PathView,
) -> Option<Seq<char>> {
    let cut = first_slash(relative);
    if cut >= relative.len() {
        Some("目录源绑定非法"@)
    } else {
        let rest = relative.skip(cut + 1);
        if local.components != root.components + pieces(rest, '/') {
            Some("目录源绑定非法"@)
        } else {
            path_refusal(rest)
        }
    }
}

fn find_slash(chars: &Vec<char>) -> (at: usize)
    ensures
        at == first_slash(chars@),
        at <= chars@.len(),
{
    let mut i: usize = 0;
    while i < chars.len()
        invariant
            i <= chars@.len(),
            forall|k: int| 0 <= k < i ==> #[trigger] chars@[k] != '/',
        decreases chars@.len() - i,
    {
        if chars[i] == '/' {
            proof {
                lemma_is_first_index(chars@, |ch: char| ch == '/', i as int);
            }
            return i;
        }
        i = i + 1;
    }
    proof {
        lemma_is_first_index(chars@, |ch: char| ch == '/', i as int);
    }
    i
}

fn components_are(path: &LocalPath, root: &LocalPath, rest: &Vec<String>) -> (same: bool)
    ensures
        same == (path@.components == root@.components + views(rest@)),
{
    let whole = path.components();
    let front = root.components();
    let ghost expected = views(front@) + views(rest@);
    if whole.len() < front.len() || whole.len() - front.len() != rest.len() {
        assert(views(whole@).len() != expected.len());
        return false;
    }
    let mut i: usize = 0;
    while i < whole.len()
        invariant
            i <= whole@.len(),
            whole@.len() == front@.len() + rest@.len(),
            expected == views(front@) + views(rest@),
            views(whole@) == path@.components,
            views(front@) == root@.components,
            forall|k: int| 0 <= k < i ==> #[trigger] whole@[k]@ == expected[k],
        decreases whole@.len() - i,
    {
        assert(views(whole@)[i as int] == whole@[i as int]@);
        if i < front.len() {
            assert(expected[i as int] == front@[i as int]@);
            if !same_text(&whole[i], &front[i]) {
                return false;
            }
        } else {
            assert(expected[i as int] == rest@[i - front@.len()]@);
            if !same_text(&whole[i], &rest[i - front.len()]) {
                return false;
            }
        }
        i = i + 1;
    }
    assert(views(whole@) =~= expected);
    true
}

/// Where a source below a selected directory is: the directories that lead to it from
/// there, and its name.
pub fn source_below(
    relative: &str,
    root: &LocalPath,
    local: &LocalPath,
) -> (result: Result<(Vec<String>, String)>)
    ensures
        decided(result, source_below_refusal(relative@, root@, local@)),
        result matches Ok((parts, name)) ==> views(parts@).push(name@) == pieces(
            relative@.skip(first_slash(relative@) + 1),
            '/',
        ),
{
    let chars = to_chars(relative);
    let cut: usize = find_slash(&chars);
    if cut >= chars.len() {
        return Err(failure("目录源绑定非法"));
    }
    let rest = from_chars(&chars, cut + 1, chars.len());
    assert(rest@ =~= relative@.skip(cut + 1));
    let parts = split_text(&rest, '/');
    if !components_are(local, root, &parts) {
        return Err(failure("目录源绑定非法"));
    }
    split_parent(&rest)
}

/// Where the source of a file task is.
#[derive(Debug)]
pub enum SourceParent {
    /// Below a selected directory: the directories that lead to it from there, and its
    /// name.
    Below { root: LocalPath, parts: Vec<String>, name: String },
    /// At its own path.
    Alone { path: LocalPath },
}

/// Why the source of a task is nowhere.
pub open spec fn source_parent_refusal(task: TaskView) -> Option<Seq<char>> {
    match task.details {
        DetailsView::File(file) => match file.source_root {
            Some(root) => source_below_refusal(file.relative_path, root, task.local_path.path()),
            None => None,
        },
        _ => Some("缺少文件任务绑定"@),
    }
}

/// Where the source of a file task is: one that was selected with a directory is only
/// reached through that directory.
pub fn source_parent(record: &TaskRecord) -> (result: Result<SourceParent>)
    ensures
        decided(result, source_parent_refusal(record@)),
        result matches Ok(found) ==> match found {
            SourceParent::Below { root, parts, name } => {
                &&& record@.details->File_0.source_root == Some(root@)
                &&& views(parts@).push(name@) == pieces(
                    record@.details->File_0.relative_path.skip(
                        first_slash(record@.details->File_0.relative_path) + 1,
                    ),
                    '/',
                )
            },
            SourceParent::Alone { path } => record@.details->File_0.source_root is None && path@
                == record@.local_path.path(),
        },
{
    match record.details() {
        TaskDetails::File(file) => match &file.source_root {
            Some(root) => {
                let (parts, name) = source_below(&file.relative_path, root, record.local_path())?;
                Ok(SourceParent::Below { root: root.duplicate(), parts, name })
            },
            None => Ok(SourceParent::Alone { path: record.local_path().duplicate() }),
        },
        _ => Err(failure("缺少文件任务绑定")),
    }
}

/// What was found when a source was read again.
#[derive(Debug)]
pub struct SourceReading {
    pub length: u64,
    pub manifest: FileManifest,
    pub opened: FileIdentity,
    pub current: FileIdentity,
}

/// Why a task has no source that may be read.
pub open spec fn source_task_refusal(task: TaskView) -> Option<Seq<char>> {
    if task.direction != TaskDirection::Send {
        Some("任务不是本机发送任务"@)
    } else if !(task.details is File) {
        Some("源文件不可用"@)
    } else {
        None
    }
}

/// Whether a task has a source that may be read.
pub fn check_source_task(record: &TaskRecord) -> (result: Result<()>)
    ensures
        decided(result, source_task_refusal(record@)),
{
    if record.direction() != TaskDirection::Send {
        return Err(failure("任务不是本机发送任务"));
    }
    match record.details() {
        TaskDetails::File(_) => Ok(()),
        _ => Err(failure("源文件不可用")),
    }
}

/// Whether a source still is what was selected: its length and content are the same,
/// and the file of that name is the one that was read.
pub fn verify_source(record: &TaskRecord, reading: &SourceReading) -> (result: Result<()>)
    ensures
        decided(
            result,
            reading_refusal(
                record@,
                reading.length,
                reading.manifest@,
                reading.opened,
                reading.current,
            ),
        ),
{
    check_source_task(record)?;
    match record.details() {
        TaskDetails::File(file) => {
            if reading.length != file.manifest.total_len || !reading.manifest.same_as(
                &file.manifest,
            ) || reading.opened != reading.current {
                return Err(failure("源文件内容已变化"));
            }
            Ok(())
        },
        _ => Err(failure("源文件不可用")),
    }
}

/// Where a chunk of a source is read, if the source still is the file that was opened.
pub fn plan_source_chunk(
    manifest: &FileManifest,
    index: u32,
    length: u64,
    opened: FileIdentity,
    current: FileIdentity,
) -> (result: Result<(u64, u32)>)
    requires
        manifest@.shaped(),
    ensures
        decided(
            result,
            place_refusal(manifest@, index, length, opened, current),
        ),
        result matches Ok((offset, size)) ==> (offset as nat, size as nat)
            == crate::manifest::chunk_extent(
            manifest@.total_len as nat,
            manifest@.chunk_size as nat,
            index as nat,
        ),
{
    if opened != current || length != manifest.total_len {
        return Err(failure("源文件内容已变化"));
    }
    match manifest.chunk_range(index) {
        Some(range) => Ok(range),
        None => Err(failure("分片索引非法")),
    }
}

/// Whether a chunk that was read still is the one that was announced.
pub fn check_source_chunk(manifest: &FileManifest, index: u32, data: &[u8]) -> (result: Result<()>)
    ensures
        decided(
            result,
            chunk_refusal(manifest@, index, data@),
        ),
{
    if manifest.verify_chunk(index, data) {
        Ok(())
    } else {
        Err(failure("源文件内容已变化"))
    }
}

/// The private directories below a receive root in which a task is staged.
pub fn stage_parts(record: &TaskRecord) -> (parts: Vec<String>)
    ensures
        views(parts@) == seq![".p2p-desktop"@, record@.peer_id, record@.task_id],
{
    let mut parts: Vec<String> = Vec::new();
    parts.push(".p2p-desktop".to_owned());
    parts.push(record.peer_id().as_str().to_owned());
    parts.push(record.task_id().as_str().to_owned());
    assert(views(parts@) =~= seq![".p2p-desktop"@, record@.peer_id, record@.task_id]);
    parts
}

/// Why a source that was read again is not what was selected.
pub open spec fn reading_refusal(
    task: TaskView,
    length: u64,
    manifest: ManifestView,
    opened: FileIdentity,
    current: FileIdentity,
) -> Option<Seq<char>> {
    if source_task_refusal(task) is Some {
        source_task_refusal(task)
    } else if length != task.details->File_0.manifest.total_len || manifest
        != task.details->File_0.manifest || opened != current {
        Some("源文件内容已变化"@)
    } else {
        None
    }
}

/// Why no chunk is read from a source.
pub open spec fn place_refusal(
    manifest: ManifestView,
    index: u32,
    length: u64,
    opened: FileIdentity,
    current: FileIdentity,
) -> Option<Seq<char>> {
    if opened != current || length != manifest.total_len {
        Some("源文件内容已变化"@)
    } else if index >= manifest.chunks.len() {
        Some("分片索引非法"@)
    } else {
        None
    }
}

/// Why data that were read are not the chunk that was announced.
pub open spec fn chunk_refusal(manifest: ManifestView, index: u32, data: Seq<u8>) -> Option<
    Seq<char>,
> {
    if index < manifest.chunks.len() && manifest.chunks[index as int]
        == crate::manifest::ChunkHash::digest(data) {
        None
    } else {
        Some("源文件内容已变化"@)
    }
}

/// Why nothing is staged for a task.
pub open spec fn staging_refusal(task: TaskView) -> Option<Seq<char>> {
    if task.details is File {
        None
    } else {
        Some("缺少文件任务绑定"@)
    }
}

/// Where the content of a task is put together, and what it will be.
pub fn open_download(record: &TaskRecord) -> (result: Result<(Vec<String>, FileManifest)>)
    ensures
        decided(result, staging_refusal(record@)),
        result matches Ok((parts, manifest)) ==> views(parts@) == seq![
            ".p2p-desktop"@,
            record@.peer_id,
            record@.task_id,
        ] && manifest@ == record@.details->File_0.manifest,
{
    match record.details() {
        TaskDetails::File(file) => Ok((stage_parts(record), file.manifest.duplicate())),
        _ => Err(failure("缺少文件任务绑定")),
    }
}

/// The files that are removed from the staging directory of a task after its receipt.
pub fn cleanup_staging(record: &TaskRecord) -> (result: Result<Vec<String>>)
    ensures
        decided(result, staging_refusal(record@)),
        result matches Ok(names) ==> views(names@) == seq![
            "publish.json"@,
            "data.part"@,
            "data.bitmap"@,
        ],
{
    match record.details() {
        TaskDetails::File(_) => {},
        _ => {
            return Err(failure("缺少文件任务绑定"));
        },
    }
    let mut names: Vec<String> = Vec::new();
    names.push("publish.json".to_owned());
    names.push("data.part".to_owned());
    names.push("data.bitmap".to_owned());
    assert(views(names@) =~= seq!["publish.json"@, "data.part"@, "data.bitmap"@]);
    Ok(names)
}

/// No offered path reaches the private directory in which tasks are staged.
pub proof fn staging_is_out_of_reach(manifest: ManifestView, relative: Seq<char>)
    requires
        single_file_refusal(manifest, relative) is None,
    ensures
        pieces(relative, '/')[0] != ".p2p-desktop"@,
{
    crate::text::lemma_pieces_nonempty(relative, '/');
    crate::paths::portable_paths_have_portable_components(relative, 0);
    reveal_strlit(".p2p-desktop");
    reveal_strlit(".P2P-DESKTOP");
    let upper = crate::paths::upper(".p2p-desktop"@);
    assert(upper =~= ".P2P-DESKTOP"@);
}

/// A file is a task of its own under a portable path that ends in its name, with a sound
/// manifest of no more and no larger chunks than are allowed.
pub proof fn single_files_are_judged(manifest: ManifestView, relative: Seq<char>)
    ensures
        single_file_refusal(manifest, relative) is None <==> path_refusal(relative) is None
            && manifest.valid() && base_name(relative) == manifest.file_name
            && manifest.chunk_size <= 1048576 && manifest.chunks.len() <= 65536,
{
}

/// A peer may act on the tasks that are bound to it, and only one peer may act on a task.
pub proof fn tasks_belong_to_one_peer(store: StoreView, peer: NodeId, other: NodeId, id: Seq<char>)
    requires
        bound_refusal(store, peer, id) is None,
        other != peer,
    ensures
        store.has(id),
        store.task(id).peer_id == peer.hex(),
        store.task(id).details !is Content,
        bound_refusal(store, other, id) is Some,
{
    if bound_refusal(store, other, id) is None {
        crate::identity::node_hex_is_injective(peer, other);
    }
}

/// An attempt leads every task that is not complete to the point where the ends agree on
/// it, through the queue if it rested.
pub proof fn attempts_lead_to_agreement(state: TaskState)
    ensures
        state == TaskState::Completed ==> attempt_path(state).len() == 0,
        state != TaskState::Completed ==> attempt_path(state).last() == TaskState::Negotiating,
        state == TaskState::Paused || state == TaskState::Interrupted || state == TaskState::Failed
            ==> attempt_path(state)[0] == TaskState::Queued,
{
}

/// What is received belongs to the peer that offered it, goes below the receive root of its
/// selection, and has no receipt yet.
pub proof fn received_tasks_are_bound(
    store: StoreView,
    peer: NodeId,
    id: Seq<char>,
    root: PathView,
    relative: Seq<char>,
    manifest: ManifestView,
    group: Option<Seq<char>>,
    now: i64,
)
    ensures
        ({
            let task = received_task(
                store,
                peer,
                id,
                root,
                crate::task_model::IdentityView::of_manifest(manifest),
                plain_file(relative, manifest),
                group,
                now,
            );
            &&& task.task_id == id
            &&& task.direction == TaskDirection::Receive
            &&& task.peer_id == peer.hex()
            &&& task.local_path.path() == selection_root(store.tasks, peer, group, root)
            &&& group is None ==> task.local_path.path() == root
            &&& task.details matches DetailsView::File(file) && file.relative_path == relative
                && file.manifest == manifest && !file.receipt_committed && file.source_root is None
            &&& task.group_id == group
            &&& is_bound(task, peer)
        }),
{
}

/// An offer is recognized when it comes again: the same file under the same path, from the
/// same peer and in the same selection; with anything else it is refused.
pub proof fn offers_are_recognized(
    store: StoreView,
    peer: NodeId,
    id: Seq<char>,
    relative: Seq<char>,
    manifest: ManifestView,
    group: Option<Seq<char>>,
)
    requires
        store.has(id),
    ensures
        known_file_refusal(store, peer, id, relative, manifest, group) is None <==> {
            let task = store.task(id);
            &&& task.peer_id == peer.hex()
            &&& task.direction == TaskDirection::Receive
            &&& task.group_id == group
            &&& task.details matches DetailsView::File(file) && file.relative_path == relative
                && file.manifest == manifest
        },
        known_directory_refusal(store, peer, id, relative, group) is None <==> {
            let task = store.task(id);
            &&& task.peer_id == peer.hex()
            &&& task.direction == TaskDirection::Receive
            &&& task.group_id == group
            &&& task.details matches DetailsView::Directory(directory) && directory.relative_path
                == relative
        },
{
}

/// A selection whose first entry is still to come goes below the configured root.
pub proof fn first_entries_choose_the_root(
    tasks: Seq<TaskView>,
    peer: NodeId,
    group: Seq<char>,
    root: PathView,
)
    ensures
        selection_root(tasks, peer, None, root) == root,
        (forall|k: int|
            0 <= k < tasks.len() ==> !((#[trigger] tasks[k]).direction == TaskDirection::Receive
                && tasks[k].peer_id == peer.hex() && tasks[k].group_id == Some(group)))
            ==> selection_root(tasks, peer, Some(group), root) == root,
        forall|k: int|
            0 <= k < tasks.len() && (#[trigger] tasks[k]).direction == TaskDirection::Receive
                && tasks[k].peer_id == peer.hex() && tasks[k].group_id == Some(group) && (forall|
                j: int,
            |
                0 <= j < k ==> !((#[trigger] tasks[j]).direction == TaskDirection::Receive
                    && tasks[j].peer_id == peer.hex() && tasks[j].group_id == Some(group)))
                ==> selection_root(tasks, peer, Some(group), root) == tasks[k].local_path.path(),
{
    let wanted = of_selection(peer, group);
    lemma_first_index(tasks, wanted);
    let at = first_index(tasks, wanted);
    if at < tasks.len() {
        assert(wanted(tasks[at]));
    }
    assert forall|k: int|
        0 <= k < tasks.len() && (#[trigger] tasks[k]).direction == TaskDirection::Receive
            && tasks[k].peer_id == peer.hex() && tasks[k].group_id == Some(group) && (forall|j: int|
            0 <= j < k ==> !((#[trigger] tasks[j]).direction == TaskDirection::Receive
                && tasks[j].peer_id == peer.hex() && tasks[j].group_id == Some(group)))
    implies selection_root(tasks, peer, Some(group), root) == tasks[k].local_path.path() by {
        assert(wanted(tasks[k]));
        assert(at <= k);
    }
}

/// A source below a selected directory is exactly where its relative path leads from
/// there.
pub proof fn sources_stay_below_their_root(relative: Seq<char>, root: PathView, local: PathView)
    requires
        source_below_refusal(relative, root, local) is None,
    ensures
        first_slash(relative) < relative.len(),
        local.components == root.components + pieces(
            relative.skip(first_slash(relative) + 1),
            '/',
        ),
        local.components.len() > root.components.len(),
        path_refusal(relative.skip(first_slash(relative) + 1)) is None,
{
    crate::text::lemma_pieces_nonempty(relative.skip(first_slash(relative) + 1), '/');
}

/// Only a file that this end sends has a source that may be read.
pub proof fn only_sent_files_have_sources(task: TaskView)
    ensures
        source_task_refusal(task) is None <==> task.direction == TaskDirection::Send
            && task.details is File,
{
}

/// A task can be made for every absolute path at every time from zero on, and what is
/// staged or read belongs to files alone.
pub proof fn files_are_created_and_staged(task: TaskView, path: PathView, now: i64)
    ensures
        creation_refusal(path, now) is None <==> path.absolute && now >= 0,
        staging_refusal(task) is None <==> task.details is File,
        source_parent_refusal(task) is None ==> task.details is File,
        task.details matches DetailsView::File(file) ==> (file.source_root is None
            ==> source_parent_refusal(task) is None),
        task.details matches DetailsView::File(file) ==> (file.source_root matches Some(root)
            ==> source_parent_refusal(task) == source_below_refusal(
            file.relative_path,
            root,
            task.local_path.path(),
        )),
{
}

/// A source is sent from only while it is what was selected: the same file under its name,
/// with the announced length and content, down to each chunk that is sent.
pub proof fn changed_sources_are_not_sent(
    task: TaskView,
    manifest: ManifestView,
    index: u32,
    length: u64,
    data: Seq<u8>,
    opened: FileIdentity,
    current: FileIdentity,
)
    ensures
        reading_refusal(task, length, manifest, opened, current) is None <==> (task.direction
            == TaskDirection::Send && opened == current && (
        task.details matches DetailsView::File(file) && file.manifest == manifest && length
            == manifest.total_len)),
        place_refusal(manifest, index, length, opened, current) is None <==> opened == current
            && length == manifest.total_len && index < manifest.chunks.len(),
        chunk_refusal(manifest, index, data) is None <==> index < manifest.chunks.len()
            && crate::manifest::ChunkHash::digest(data) == manifest.chunks[index as int],
{
}

} // verus!
