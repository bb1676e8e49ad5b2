//! A bounded selection scan that can be cancelled. It changes nothing that lasts.

use std::sync::atomic::AtomicBool;
use std::sync::Arc;

use vstd::prelude::*;

use crate::error::{decided, failure, Error, IoErrorKind, Result};
use crate::identity::NodeId;
use crate::manifest::{count_pieces, pieces_needed, FileManifest, DEFAULT_CHUNK_SIZE};
use crate::paths::{path_refusal, validate_relative_path};
use crate::protocol::MAX_CHUNKS;
use crate::publish::text_view;
use crate::secure_fs::{key_of, name_key, EntryKind, FileIdentity};
use crate::task_model::{
    IdentityView, LocalPath, PathView, PeerId, TaskDirection, TaskId, TaskModelError,
};
use crate::task_record::{
    bound_path, directory_identity, lemma_content_identity_valid, DetailsView, DirectoryView,
    FileView, TaskRecord, TaskView,
};
use crate::task_recovery::task_views;
use crate::text::{
    join_text, lemma_text_less_irreflexive, lemma_text_less_transitive, same_text, text_before,
    text_less, views,
};

verus! {

/// The most entries of one selection.
pub const MAX_SELECTION_ENTRIES: usize = 4096;

/// The most chunks of one selection.
pub const MAX_SELECTION_CHUNKS: usize = 131072;

/// A request to end a scan. Every clone is the same request: once it was made through
/// one of them, it stands for all of them and is never taken back.
#[derive(Debug)]
pub struct ScanCancellation {
    flag: Arc<AtomicBool>,
}

impl Default for ScanCancellation {
    fn default() -> (cancel: ScanCancellation) {
        ScanCancellation { flag: Arc::new(AtomicBool::new(false)) }
    }
}

impl Clone for ScanCancellation {
    fn clone(&self) -> (same: ScanCancellation)
        ensures
            same == *self,
    {
        ScanCancellation { flag: self.flag.clone() }
    }
}

/// Why a scan does not go on, from whether its end was asked for.
pub open spec fn cancel_refusal(cancelled: bool) -> Option<Seq<char>> {
    if cancelled {
        Some("目录扫描已取消"@)
    } else {
        None
    }
}

/// Fails where the end of the scan was asked for.
pub fn check_cancelled(cancelled: bool) -> (result: Result<()>)
    ensures
        decided(result, cancel_refusal(cancelled)),
{
    if cancelled {
        Err(failure("目录扫描已取消"))
    } else {
        Ok(())
    }
}

impl ScanCancellation {
    /// Asks the scan to end.
    pub fn cancel(&self) {
        self.flag.store(true, std::sync::atomic::Ordering::Release);
    }

    /// Whether the scan was asked to end. Another thread may ask at any time, so nothing
    /// is said of the answer; what follows from it is said where it is handed on.
    pub fn is_cancelled(&self) -> (cancelled: bool) {
        self.flag.load(std::sync::atomic::Ordering::Acquire)
    }

    /// Fails once the scan was asked to end.
    pub fn check(&self) -> (result: Result<()>)
        ensures
            result matches Err(error) ==> error.refuses("目录扫描已取消"@),
    {
        check_cancelled(self.is_cancelled())
    }

    /// Reads on unless the scan was asked to end.
    pub fn read<F: FnOnce() -> Result<usize>>(&self, inner: F) -> (result: Result<usize>)
        requires
            call_requires(inner, ()),
        ensures
            call_ensures(inner, (), result) || (result matches Err(Error::Io { kind, text }) && kind
                == IoErrorKind::Other && text@ == "selection scan cancelled"@),
    {
        read_unless(self.is_cancelled(), inner)
    }
}

/// Reads on unless the end of the scan was asked for. The inner reader is not read
/// after that, and the failure is not one after which a read is tried again.
pub fn read_unless<F: FnOnce() -> Result<usize>>(cancelled: bool, inner: F) -> (result: Result<
    usize,
>)
    requires
        call_requires(inner, ()),
    ensures
        if cancelled {
            &&& result matches Err(Error::Io { kind, text })
            &&& kind == IoErrorKind::Other
            &&& text@ == "selection scan cancelled"@
        } else {
            call_ensures(inner, (), result)
        },
{
    if cancelled {
        return Err(
            Error::Io { kind: IoErrorKind::Other, text: "selection scan cancelled".to_owned() },
        );
    }
    inner()
}

/// Why a file is too large.
pub open spec fn length_refusal(length: u64) -> Option<Seq<char>> {
    if pieces_needed(length as nat, DEFAULT_CHUNK_SIZE as nat) > MAX_CHUNKS {
        Some("文件超过桌面清单资源上限"@)
    } else {
        None
    }
}

/// Whether the manifest of a file of this length may be made.
pub fn check_scan_length(length: u64) -> (result: Result<()>)
    ensures
        decided(result, length_refusal(length)),
{
    if count_pieces(length, DEFAULT_CHUNK_SIZE as u64) > MAX_CHUNKS as u64 {
        return Err(failure("文件超过桌面清单资源上限"));
    }
    Ok(())
}

/// Why a file that was read is not taken: it changed meanwhile.
pub open spec fn change_refusal(
    length: u64,
    read: u64,
    current_length: u64,
    before: FileIdentity,
    current: FileIdentity,
) -> Option<Seq<char>> {
    if read != length || current_length != length || current != before {
        Some("源文件内容已变化"@)
    } else {
        None
    }
}

/// Whether a file stayed the same while it was read: the length that was announced was
/// read, and the file of that name still is the one that was opened.
pub fn check_scan_result(
    length: u64,
    manifest: &FileManifest,
    current_length: u64,
    before: FileIdentity,
    current: FileIdentity,
) -> (result: Result<()>)
    ensures
        decided(
            result,
            change_refusal(length, manifest@.total_len, current_length, before, current),
        ),
{
    if manifest.total_len != length || current_length != length || current != before {
        return Err(failure("源文件内容已变化"));
    }
    Ok(())
}

/// The names in a directory that were accepted so far.
#[derive(Debug)]
pub struct NameList {
    names: Vec<String>,
    keys: Vec<String>,
}

impl View for NameList {
    type V = Seq<Seq<char>>;

    closed spec fn view(&self) -> Seq<Seq<char>> {
        views(self.names@)
    }
}

/// Whether a name would be confused with one in a list.
pub open spec fn is_taken(names: Seq<Seq<char>>, name: Seq<char>) -> bool {
    exists|k: int| 0 <= k < names.len() && key_of(#[trigger] names[k]) == key_of(name)
}

/// Whether the names in a list are in order.
pub open spec fn in_order(names: Seq<Seq<char>>) -> bool {
    forall|i: int, j: int|
        0 <= i < j < names.len() ==> !text_less(#[trigger] names[j], #[trigger] names[i])
}

/// Why an entry of a directory ends the scan.
pub open spec fn name_refusal(
    cancelled: bool,
    records: nat,
    relative: Seq<char>,
    names: Seq<Seq<char>>,
    name: Option<Seq<char>>,
) -> Option<Seq<char>> {
    if cancelled {
        Some("目录扫描已取消"@)
    } else {
        match name {
            None => Some("源目录包含非 UTF-8 名称"@),
            Some(text) => if names.len() + records >= MAX_SELECTION_ENTRIES {
                Some("目录清单条目超过上限"@)
            } else if path_refusal(relative + "/"@ + text) is Some {
                path_refusal(relative + "/"@ + text)
            } else if is_taken(names, text) {
                Some("源目录存在大小写或 Unicode 规范化冲突"@)
            } else {
                None
            },
        }
    }
}

/// A name with the path of its directory in front.
pub fn child_path(relative: &str, name: &str) -> (path: String)
    ensures
        path@ == relative@ + "/"@ + name@,
{
    let front = join_text(relative, "/");
    join_text(&front, name)
}

impl NameList {
    /// Every name has its key, and no two are the same.
    pub closed spec fn valid(self) -> bool {
        &&& self.names@.len() == self.keys@.len()
        &&& forall|k: int|
            0 <= k < self.keys@.len() ==> #[trigger] self.keys@[k]@ == key_of(self.names@[k]@)
    }

    /// No name yet.
    pub fn new() -> (list: NameList)
        ensures
            list.valid(),
            list@.len() == 0,
    {
        NameList { names: Vec::new(), keys: Vec::new() }
    }

    /// Takes the next entry of a directory; one whose name is not Unicode has none.
    pub fn take_name(
        &mut self,
        cancelled: bool,
        records: usize,
        relative: &str,
        name: Option<String>,
    ) -> (result: Result<()>)
        requires
            old(self).valid(),
        ensures
            final(self).valid(),
            decided(
                result,
                name_refusal(
                    cancelled,
                    records as nat,
                    relative@,
                    old(self)@,
                    match name {
                        Some(text) => Some(text@),
                        None => None,
                    },
                ),
            ),
            final(self)@ == if result is Ok {
                old(self)@.push(name->0@)
            } else {
                old(self)@
            },
    {
        check_cancelled(cancelled)?;
        let text = match name {
            Some(text) => text,
            None => {
                return Err(failure("源目录包含非 UTF-8 名称"));
            },
        };
        if records >= MAX_SELECTION_ENTRIES || self.names.len() >= MAX_SELECTION_ENTRIES - records {
            return Err(failure("目录清单条目超过上限"));
        }
        let path = child_path(relative, &text);
        validate_relative_path(&path)?;
        let key = name_key(&text);
        let ghost names = views(self.names@);
        let mut i: usize = 0;
        while i < self.keys.len()
            invariant
                i <= self.keys@.len(),
                self.names@.len() == self.keys@.len(),
                names == views(self.names@),
                *self == *old(self),
                old(self).valid(),
                key@ == key_of(text@),
                !cancelled,
                names.len() + records < MAX_SELECTION_ENTRIES,
                path_refusal(relative@ + "/"@ + text@) is None,
                name == Some(text),
                forall|k: int|
                    0 <= k < self.keys@.len() ==> #[trigger] self.keys@[k]@ == key_of(
                        self.names@[k]@,
                    ),
                forall|k: int| 0 <= k < i ==> key_of(#[trigger] names[k]) != key_of(text@),
            decreases self.keys@.len() - i,
        {
            assert(names[i as int] == self.names@[i as int]@);
            assert(self.keys@[i as int]@ == key_of(self.names@[i as int]@));
            if same_text(&self.keys[i], &key) {
                assert(key_of(names[i as int]) == key_of(text@));
                return Err(failure("源目录存在大小写或 Unicode 规范化冲突"));
            }
            i = i + 1;
        }
        let ghost before = self.names@;
        self.names.push(text);
        self.keys.push(key);
        assert(views(self.names@) =~= views(before).push(text@));
        Ok(())
    }

    /// The accepted names in order.
    pub fn sorted(self) -> (names: Vec<String>)
        ensures
            in_order(views(names@)),
            views(names@).to_multiset() == self@.to_multiset(),
    {
        let mut names: Vec<String> = Vec::new();
        let mut i: usize = 0;
        let all = self.names;
        assert(views(names@) =~= views(all@.take(0)));
        while i < all.len()
            invariant
                i <= all@.len(),
                in_order(views(names@)),
                views(names@).to_multiset() == views(all@.take(i as int)).to_multiset(),
            decreases all@.len() - i,
        {
            let ghost before = views(names@);
            insert_name(&mut names, all[i].clone());
            proof {
                broadcast use vstd::seq_lib::group_to_multiset_ensures;

                assert(views(all@.take(i + 1)) =~= views(all@.take(i as int)).push(all@[i as int]@));
            }
            i = i + 1;
        }
        assert(all@.take(i as int) =~= all@);
        names
    }
}

fn insert_name(names: &mut Vec<String>, name: String)
    requires
        in_order(views(old(names)@)),
    ensures
        in_order(views(final(names)@)),
        views(final(names)@).to_multiset() == views(old(names)@).to_multiset().insert(name@),
{
    let ghost before = views(names@);
    let ghost text = name@;
    let mut at: usize = 0;
    while at < names.len() && !text_before(&name, &names[at])
        invariant
            at <= names@.len(),
            name@ == text,
            before == views(names@),
            forall|k: int| 0 <= k < at ==> !text_less(text, #[trigger] before[k]),
        decreases names@.len() - at,
    {
        assert(before[at as int] == names@[at as int]@);
        at = at + 1;
    }
    proof {
        if at < names@.len() {
            assert(before[at as int] == names@[at as int]@);
        }
    }
    names.insert(at, name);
    proof {
        broadcast use vstd::seq_lib::group_to_multiset_ensures;

        let after = views(names@);
        assert(after =~= before.insert(at as int, text));
        assert(after.remove(at as int) =~= before);
        assert(after[at as int] == text);
        assert(after.to_multiset().remove(text) == before.to_multiset());
        assert(after.contains(text));
        assert(after.to_multiset().count(text) > 0);
        assert(after.to_multiset() =~= before.to_multiset().insert(text));
        assert forall|i: int, j: int| 0 <= i < j < after.len() implies !text_less(
            #[trigger] after[j],
            #[trigger] after[i],
        ) by {
            if j < at {
                assert(!text_less(before[j], before[i]));
            } else if j == at {
                assert(!text_less(text, before[i]));
            } else if i == at {
                // Everything behind stands after the new name.
                assert(text_less(text, before[at as int]));
                if text_less(before[j - 1], text) {
                    lemma_text_less_transitive(before[j - 1], text, before[at as int]);
                    if j - 1 > at {
                        assert(!text_less(before[j - 1], before[at as int]));
                    } else {
                        lemma_text_less_irreflexive(before[at as int]);
                    }
                }
            } else if i < at {
                assert(!text_less(before[j - 1], before[i]));
            } else {
                assert(!text_less(before[j - 1], before[i - 1]));
            }
        }
    }
}

/// A directory with the entries that are still to be visited, as mathematical values.
pub struct PendingView {
    pub relative: Seq<char>,
    pub names: Seq<Seq<char>>,
}

/// An entry that is visited next, as mathematical values.
pub struct VisitView {
    pub depth: nat,
    pub name: Seq<char>,
    pub path: Seq<char>,
}

/// The path of an entry below a directory.
pub open spec fn path_below(relative: Seq<char>, name: Seq<char>) -> Seq<char> {
    relative + "/"@ + name
}

/// The entry that is visited next and what is left: the first one of the directory
/// that was entered last and has any left.
pub open spec fn walked(open: Seq<PendingView>) -> (Seq<PendingView>, Option<VisitView>)
    decreases open.len(),
{
    if open.len() == 0 {
        (open, None)
    } else if open.last().names.len() == 0 {
        walked(open.drop_last())
    } else {
        let last = open.last();
        (
            open.drop_last().push(PendingView { names: last.names.skip(1), ..last }),
            Some(
                VisitView {
                    depth: open.len(),
                    name: last.names[0],
                    path: path_below(last.relative, last.names[0]),
                },
            ),
        )
    }
}

#[derive(Debug)]
struct PendingDirectory {
    relative: String,
    names: Vec<String>,
}

/// An entry that is visited next: how many directories are open around it, its name,
/// and its path from the selected directory on.
#[derive(Debug, PartialEq, Eq)]
pub struct WalkEntry {
    pub depth: usize,
    pub name: String,
    pub path: String,
}

impl View for WalkEntry {
    type V = VisitView;

    open spec fn view(&self) -> VisitView {
        VisitView { depth: self.depth as nat, name: self.name@, path: self.path@ }
    }
}

/// The way through a selected directory, as mathematical values.
pub struct WalkView {
    pub top: Option<Seq<char>>,
    pub open: Seq<PendingView>,
}

impl WalkView {
    /// The entry that is visited next and what is left: the selected directory itself
    /// comes first.
    pub open spec fn next(self) -> (WalkView, Option<VisitView>) {
        match self.top {
            Some(top) => (
                WalkView { top: None, ..self },
                Some(VisitView { depth: 0, name: top, path: top }),
            ),
            None => (WalkView { open: walked(self.open).0, ..self }, walked(self.open).1),
        }
    }
}

/// The way through a selected directory.
#[derive(Debug)]
pub struct Walk {
    top: Option<String>,
    open: Vec<PendingDirectory>,
}

spec fn pending_views(open: Seq<PendingDirectory>) -> Seq<PendingView> {
    open.map_values(
        |directory: PendingDirectory|
            PendingView { relative: directory.relative@, names: views(directory.names@) },
    )
}

impl View for Walk {
    type V = WalkView;

    closed spec fn view(&self) -> WalkView {
        WalkView { top: text_view(self.top), open: pending_views(self.open@) }
    }
}

impl Walk {
    /// Starts with the selected directory.
    pub fn new(top: String) -> (walk: Walk)
        ensures
            walk@ == (WalkView { top: Some(top@), open: Seq::empty() }),
    {
        let walk = Walk { top: Some(top), open: Vec::new() };
        assert(walk@.open =~= Seq::<PendingView>::empty());
        walk
    }

    /// Goes into a directory with these entries, which are visited in order.
    pub fn open(&mut self, relative: String, names: NameList)
        ensures
            final(self)@.top == old(self)@.top,
            final(self)@.open.len() == old(self)@.open.len() + 1,
            final(self)@.open.drop_last() == old(self)@.open,
            final(self)@.open.last().relative == relative@,
            in_order(final(self)@.open.last().names),
            final(self)@.open.last().names.to_multiset() == names@.to_multiset(),
    {
        let ghost before = self@;
        let names = names.sorted();
        self.open.push(PendingDirectory { relative, names });
        assert(self@.open.drop_last() =~= before.open);
    }

    /// The entry to visit next.
    pub fn next(&mut self) -> (entry: Option<WalkEntry>)
        ensures
            final(self)@ == old(self)@.next().0,
            match entry {
                Some(found) => old(self)@.next().1 == Some(found@),
                None => old(self)@.next().1 is None,
            },
    {
        if let Some(top) = self.top.take() {
            return Some(WalkEntry { depth: 0, name: top.clone(), path: top });
        }
        while self.open.len() > 0
            invariant
                self@.top is None,
                old(self)@.top is None,
                walked(self@.open) == walked(old(self)@.open),
            decreases self.open@.len(),
        {
            let depth: usize = self.open.len();
            let ghost all = self@.open;
            let mut last = match self.open.pop() {
                Some(last) => last,
                None => PendingDirectory { relative: String::new(), names: Vec::new() },
            };
            let ghost rest = self@.open;
            let ghost before = rest.push(
                PendingView { relative: last.relative@, names: views(last.names@) },
            );
            proof {
                assert(before.drop_last() =~= rest);
                assert(all =~= before);
            }
            if last.names.len() > 0 {
                let ghost listed = views(last.names@);
                let name = last.names.remove(0);
                let path = child_path(&last.relative, &name);
                assert(listed[0] == name@);
                assert(views(last.names@) =~= listed.skip(1));
                self.open.push(last);
                assert(self@.open =~= walked(before).0);
                return Some(WalkEntry { depth, name, path });
            }
        }
        assert(self@.open =~= Seq::<PendingView>::empty());
        None
    }
}

/// Something that is selected: a file, or a directory with what is in it.
pub enum Tree {
    File(Seq<char>),
    Directory(Seq<char>, Seq<Tree>),
}

impl Tree {
    /// Its name.
    pub open spec fn name(self) -> Seq<char> {
        match self {
            Tree::File(name) => name,
            Tree::Directory(name, _) => name,
        }
    }

    /// The paths of everything in it, itself first and each directory before its
    /// content.
    pub open spec fn paths(self, relative: Seq<char>) -> Seq<Seq<char>>
        decreases self,
    {
        let path = path_below(relative, self.name());
        match self {
            Tree::File(_) => seq![path],
            Tree::Directory(_, content) => seq![path] + all_paths(path, content),
        }
    }
}

/// The paths of everything in some trees, one tree after the other.
pub open spec fn all_paths(relative: Seq<char>, trees: Seq<Tree>) -> Seq<Seq<char>>
    decreases trees,
{
    if trees.len() == 0 {
        Seq::empty()
    } else {
        trees[0].paths(relative) + all_paths(relative, trees.skip(1))
    }
}

/// The names of some trees.
pub open spec fn tree_names(trees: Seq<Tree>) -> Seq<Seq<char>> {
    trees.map_values(|tree: Tree| tree.name())
}

/// A directory with the trees in it that are still to be visited.
pub struct PendingTrees {
    pub relative: Seq<char>,
    pub trees: Seq<Tree>,
}

/// What a walk knows of the trees that are still to be visited.
pub open spec fn known_of(open: Seq<PendingTrees>) -> Seq<PendingView> {
    open.map_values(
        |directory: PendingTrees|
            PendingView { relative: directory.relative, names: tree_names(directory.trees) },
    )
}

/// The paths that are still to be visited, those of the directory entered last first.
pub open spec fn paths_left(open: Seq<PendingTrees>) -> Seq<Seq<char>>
    decreases open.len(),
{
    if open.len() == 0 {
        Seq::empty()
    } else {
        all_paths(open.last().relative, open.last().trees) + paths_left(open.drop_last())
    }
}

/// The trees that are still to be visited after the next entry, which is gone into
/// where it is a directory.
pub open spec fn left_after(open: Seq<PendingTrees>) -> Seq<PendingTrees>
    decreases open.len(),
{
    if open.len() == 0 {
        open
    } else if open.last().trees.len() == 0 {
        left_after(open.drop_last())
    } else {
        let last = open.last();
        let rest = open.drop_last().push(PendingTrees { trees: last.trees.skip(1), ..last });
        match last.trees[0] {
            Tree::File(_) => rest,
            Tree::Directory(name, content) => rest.push(
                PendingTrees { relative: path_below(last.relative, name), trees: content },
            ),
        }
    }
}

/// A walk visits the paths of what is selected in their order: a directory before its
/// content, entries of a directory one after the other with all their content, and
/// nothing is left out or visited twice.
pub proof fn walks_follow_the_tree(open: Seq<PendingTrees>)
    ensures
        match walked(known_of(open)).1 {
            Some(entry) => {
                &&& paths_left(open) == seq![entry.path] + paths_left(left_after(open))
                &&& known_of(left_after(open)).len() >= walked(known_of(open)).0.len()
                &&& known_of(left_after(open)).take(walked(known_of(open)).0.len() as int)
                    == walked(known_of(open)).0
            },
            None => paths_left(open).len() == 0,
        },
    decreases open.len(),
{
    if open.len() > 0 {
        let last = open.last();
        assert(known_of(open).drop_last() =~= known_of(open.drop_last()));
        assert(known_of(open).last().names =~= tree_names(last.trees));
        if last.trees.len() == 0 {
            walks_follow_the_tree(open.drop_last());
            assert(paths_left(open) =~= paths_left(open.drop_last()));
        } else {
            let rest = open.drop_last().push(PendingTrees { trees: last.trees.skip(1), ..last });
            let path = path_below(last.relative, last.trees[0].name());
            assert(tree_names(last.trees)[0] == last.trees[0].name());
            assert(tree_names(last.trees.skip(1)) =~= tree_names(last.trees).skip(1));
            assert(known_of(rest) =~= walked(known_of(open)).0);
            assert(rest.drop_last() =~= open.drop_last());
            let later = all_paths(last.relative, last.trees.skip(1));
            let outer = paths_left(open.drop_last());
            assert(all_paths(last.relative, last.trees) == last.trees[0].paths(last.relative)
                + later);
            assert(paths_left(rest) == later + outer);
            match last.trees[0] {
                Tree::File(_) => {
                    assert(known_of(rest).take(known_of(rest).len() as int) =~= known_of(rest));
                    assert(last.trees[0].paths(last.relative) == seq![path]);
                    assert(paths_left(open) =~= seq![path] + paths_left(rest));
                },
                Tree::Directory(name, content) => {
                    let inner = PendingTrees { relative: path, trees: content };
                    let after = rest.push(inner);
                    assert(after.drop_last() =~= rest);
                    assert(known_of(after).take(known_of(rest).len() as int) =~= known_of(rest));
                    assert(last.trees[0].paths(last.relative) == seq![path] + all_paths(
                        path,
                        content,
                    ));
                    assert(paths_left(after) == all_paths(path, content) + paths_left(rest));
                    assert(paths_left(open) =~= seq![path] + paths_left(after));
                },
            }
        }
    }
}

/// Everything that is visited lies below the directory that was selected.
pub proof fn walks_stay_below(relative: Seq<char>, trees: Seq<Tree>, at: int)
    requires
        0 <= at < all_paths(relative, trees).len(),
    ensures
        (relative + "/"@).is_prefix_of(all_paths(relative, trees)[at]),
    decreases trees,
{
    let first = trees[0].paths(relative);
    let path = path_below(relative, trees[0].name());
    let front = relative + "/"@;
    assert(front.is_prefix_of(path));
    if at >= first.len() {
        walks_stay_below(relative, trees.skip(1), at - first.len());
    } else if at > 0 {
        match trees[0] {
            Tree::File(_) => {},
            Tree::Directory(_, content) => {
                walks_stay_below(path, content, at - 1);
                let found = all_paths(path, content)[at - 1];
                assert(first[at] == found);
                assert forall|i: int| 0 <= i < front.len() implies front[i] == found[i] by {
                    assert(found[i] == (path + "/"@)[i]);
                    assert(path[i] == front[i]);
                }
            },
        }
    }
}

/// What to do with an entry.
#[derive(Clone, Copy, Debug, PartialEq, Eq, Structural)]
pub enum Visit {
    Enter,
    Read,
}

/// What to do with an entry of this kind.
pub open spec fn visit_of(kind: EntryKind) -> Visit {
    if kind == EntryKind::Directory {
        Visit::Enter
    } else {
        Visit::Read
    }
}

/// A selection scan, as mathematical values.
pub struct ScanView {
    pub source: PathView,
    pub peer: Seq<char>,
    pub group: Seq<char>,
    pub records: Seq<TaskView>,
    pub chunks: nat,
}

/// A scan of one selected directory.
#[derive(Debug)]
pub struct Scan {
    source: LocalPath,
    peer: PeerId,
    group: TaskId,
    records: Vec<TaskRecord>,
    chunks: usize,
}

impl View for Scan {
    type V = ScanView;

    closed spec fn view(&self) -> ScanView {
        ScanView {
            source: self.source@,
            peer: self.peer@,
            group: self.group@,
            records: task_views(self.records@),
            chunks: self.chunks as nat,
        }
    }
}

/// How many chunks the files among some tasks have.
pub open spec fn chunks_of(records: Seq<TaskView>) -> nat
    decreases records.len(),
{
    if records.len() == 0 {
        0
    } else {
        chunks_of(records.drop_last()) + match records.last().details {
            DetailsView::File(file) => file.manifest.chunks.len(),
            _ => 0,
        }
    }
}

impl ScanView {
    /// The limits hold, everything is counted, and every task belongs to the same
    /// selection and peer.
    pub open spec fn valid(self) -> bool {
        &&& self.records.len() <= MAX_SELECTION_ENTRIES
        &&& self.chunks == chunks_of(self.records)
        &&& self.chunks <= MAX_SELECTION_CHUNKS
        &&& forall|i: int|
            0 <= i < self.records.len() ==> {
                &&& (#[trigger] self.records[i]).group_id == Some(self.group)
                &&& self.records[i].peer_id == self.peer
                &&& self.records[i].direction == TaskDirection::Send
                &&& self.records[i].valid()
            }
    }

    /// Why a directory of the selection is not entered.
    pub open spec fn entry_refusal(
        self,
        cancelled: bool,
        relative: Seq<char>,
        path: PathView,
        now: i64,
    ) -> Option<Seq<char>> {
        if cancelled {
            Some("目录扫描已取消"@)
        } else if path_refusal(relative) is Some {
            path_refusal(relative)
        } else if self.records.len() >= MAX_SELECTION_ENTRIES {
            Some("目录清单条目超过上限"@)
        } else if !path.absolute {
            Some(TaskModelError::RelativeLocalPath.text())
        } else if now < 0 {
            Some(TaskModelError::InvalidTimestamps.text())
        } else {
            None
        }
    }

    /// Why an entry of this kind ends the scan.
    pub open spec fn kind_refusal(self, cancelled: bool, kind: EntryKind) -> Option<Seq<char>> {
        if cancelled {
            Some("目录扫描已取消"@)
        } else if kind == EntryKind::Link {
            Some("源目录不支持链接或 reparse point"@)
        } else if kind == EntryKind::File && self.records.len() >= MAX_SELECTION_ENTRIES {
            Some("目录清单条目超过上限"@)
        } else if kind == EntryKind::Other {
            Some("源目录包含非普通文件"@)
        } else {
            None
        }
    }

    /// The task for a directory of the selection.
    pub open spec fn directory_task(
        self,
        id: Seq<char>,
        relative: Seq<char>,
        path: PathView,
        now: i64,
    ) -> TaskView {
        TaskView::fresh(
            id,
            self.peer,
            TaskDirection::Send,
            bound_path(TaskDirection::Send, path),
            directory_identity(relative),
            now,
            DetailsView::Directory(
                DirectoryView { relative_path: relative, receipt_committed: false },
            ),
            Some(self.group),
        )
    }

    /// The task for a file of the selection.
    pub open spec fn file_task(
        self,
        id: Seq<char>,
        relative: Seq<char>,
        path: PathView,
        manifest: crate::manifest::ManifestView,
        now: i64,
    ) -> TaskView {
        TaskView::fresh(
            id,
            self.peer,
            TaskDirection::Send,
            bound_path(TaskDirection::Send, path),
            IdentityView::of_manifest(manifest),
            now,
            DetailsView::File(
                FileView {
                    relative_path: relative,
                    manifest,
                    source_root: Some(self.source),
                    receipt_committed: false,
                },
            ),
            Some(self.group),
        )
    }
}

fn model_failure(error: TaskModelError) -> (failed: Error)
    ensures
        failed.refuses(error.text()),
{
    failure(&error.message())
}

impl Scan {
    /// Starts the scan of a directory. Gives the scan and the name of the directory.
    pub fn begin(peer: NodeId, source: LocalPath, top: Option<String>) -> (result: Result<
        (Scan, String),
    >)
        ensures
            decided(
                result,
                if !source@.absolute || !source@.exact {
                    Some("源目录必须为绝对 UTF-8 路径"@)
                } else if top is None {
                    Some("源目录名称不可用"@)
                } else {
                    None
                },
            ),
            result matches Ok((scan, name)) ==> {
                &&& name@ == top->0@
                &&& scan@.source == source@
                &&& scan@.peer == peer.hex()
                &&& scan@.records.len() == 0
                &&& scan@.valid()
            },
    {
        if !source.is_absolute() || !source.is_exact() {
            return Err(failure("源目录必须为绝对 UTF-8 路径"));
        }
        let name = match top {
            Some(name) => name,
            None => {
                return Err(failure("源目录名称不可用"));
            },
        };
        let scan = Scan {
            source,
            peer: PeerId::from_node_id(peer),
            group: TaskId::generate(),
            records: Vec::new(),
            chunks: 0,
        };
        Ok((scan, name))
    }

    /// How many tasks the scan has found.
    pub fn len(&self) -> (count: usize)
        ensures
            count == self@.records.len(),
    {
        self.records.len()
    }

    /// Enters a directory of the selection.
    pub fn enter(
        &mut self,
        cancelled: bool,
        relative: &str,
        path: LocalPath,
        now: i64,
    ) -> (result: Result<()>)
        requires
            old(self)@.valid(),
        ensures
            final(self)@.valid(),
            decided(
                result,
                old(self)@.entry_refusal(cancelled, relative@, path@, now),
            ),
            result is Err ==> final(self)@ == old(self)@,
            result is Ok ==> exists|id: Seq<char>|
                final(self)@ == (ScanView {
                    records: old(self)@.records.push(
                        #[trigger] old(self)@.directory_task(id, relative@, path@, now),
                    ),
                    ..old(self)@
                }),
    {
        check_cancelled(cancelled)?;
        validate_relative_path(relative)?;
        if self.records.len() >= MAX_SELECTION_ENTRIES {
            return Err(failure("目录清单条目超过上限"));
        }
        let id = TaskId::generate();
        let ghost before = self@;
        let ghost id_text = id@;
        let made = TaskRecord::new_directory(
            id,
            self.peer.clone(),
            TaskDirection::Send,
            path,
            relative.to_owned(),
            Some(self.group.clone()),
            now,
        );
        let ghost fresh = before.directory_task(id_text, relative@, path@, now);
        proof {
            let hash = crate::manifest::ChunkHash::digest(vstd::utf8::encode_utf8(relative@));
            crate::manifest::digest_bytes_make_the_digest(hash);
            lemma_content_identity_valid(hash.bytes(), 0, DEFAULT_CHUNK_SIZE);
        }
        match made {
            Ok(record) => {
                let ghost held = self.records@;
                self.records.push(record);
                proof {
                    assert(task_views(self.records@) =~= task_views(held).push(record@));
                    assert(self@.records.drop_last() =~= before.records);
                    assert(record@ == fresh);
                }
                Ok(())
            },
            Err(error) => {
                assert(fresh.refusal() == Some(error));
                Err(model_failure(error))
            },
        }
    }

    /// What to do with an entry of a directory.
    pub fn classify(&self, cancelled: bool, kind: EntryKind) -> (result: Result<Visit>)
        ensures
            decided(
                result,
                self@.kind_refusal(cancelled, kind),
            ),
            result matches Ok(visit) ==> visit == visit_of(kind),
    {
        check_cancelled(cancelled)?;
        match kind {
            EntryKind::Link => Err(failure("源目录不支持链接或 reparse point")),
            EntryKind::Directory => Ok(Visit::Enter),
            EntryKind::File => {
                if self.records.len() >= MAX_SELECTION_ENTRIES {
                    return Err(failure("目录清单条目超过上限"));
                }
                Ok(Visit::Read)
            },
            EntryKind::Other => Err(failure("源目录包含非普通文件")),
        }
    }

    /// Takes a file of the selection once it has been read.
    pub fn add_file(
        &mut self,
        relative: &str,
        path: LocalPath,
        manifest: FileManifest,
        now: i64,
    ) -> (result: Result<()>)
        requires
            old(self)@.valid(),
            old(self)@.records.len() < MAX_SELECTION_ENTRIES,
        ensures
            final(self)@.valid(),
            result is Ok ==> (exists|id: Seq<char>|
                final(self)@ == (ScanView {
                    records: old(self)@.records.push(
                        #[trigger] old(self)@.file_task(id, relative@, path@, manifest@, now),
                    ),
                    chunks: old(self)@.chunks + manifest@.chunks.len(),
                    ..old(self)@
                })),
            result is Err ==> final(self)@ == old(self)@,
            result is Ok <==> old(self)@.chunks + manifest@.chunks.len() <= MAX_SELECTION_CHUNKS
                && path@.absolute && now >= 0 && manifest@.valid() && path_refusal(
                relative@,
            ) is None
                && manifest@.file_name == crate::task_record::base_name(relative@),
            result matches Err(error) ==> error.refuses(
                if old(self)@.chunks + manifest@.chunks.len() > MAX_SELECTION_CHUNKS {
                    "目录清单资源超限"@
                } else if !path@.absolute {
                    TaskModelError::RelativeLocalPath.text()
                } else if manifest@.valid() && now < 0 {
                    TaskModelError::InvalidTimestamps.text()
                } else if manifest@.valid() && path_refusal(relative@) is Some {
                    TaskModelError::InvalidRelativePath.text()
                } else {
                    TaskModelError::InvalidManifestIdentity.text()
                },
            ),
    {
        let added: usize = manifest.chunks.len();
        if added > MAX_SELECTION_CHUNKS || self.chunks > MAX_SELECTION_CHUNKS - added {
            return Err(failure("目录清单资源超限"));
        }
        let id = TaskId::generate();
        let ghost before = self@;
        let ghost id_text = id@;
        let ghost fresh = before.file_task(id_text, relative@, path@, manifest@, now);
        let ghost described = manifest@;
        proof {
            if manifest@.valid() {
                crate::manifest::digest_bytes_make_the_digest(manifest@.root_hash);
                lemma_content_identity_valid(
                    manifest@.root_hash.bytes(),
                    manifest@.total_len,
                    manifest@.chunk_size,
                );
            }
        }
        let made = TaskRecord::new_file(
            id,
            self.peer.clone(),
            TaskDirection::Send,
            path,
            relative.to_owned(),
            manifest,
            now,
        );
        let mut record = match made {
            Ok(record) => record,
            Err(error) => {
                return Err(model_failure(error));
            },
        };
        match record.set_selection_binding(Some(self.group.clone()), Some(self.source.duplicate())) {
            Ok(_) => {},
            Err(error) => {
                return Err(model_failure(error));
            },
        }
        let ghost held = self.records@;
        self.records.push(record);
        self.chunks = self.chunks + added;
        proof {
            assert(task_views(self.records@) =~= task_views(held).push(record@));
            assert(record@ == fresh);
            assert(self@.records.drop_last() =~= before.records);
        }
        Ok(())
    }

    /// The tasks of the selection once every entry was visited.
    pub fn finish(self, cancelled: bool) -> (result: Result<Vec<TaskRecord>>)
        ensures
            decided(result, cancel_refusal(cancelled)),
            result matches Ok(records) ==> task_views(records@) == self@.records,
    {
        check_cancelled(cancelled)?;
        Ok(self.records)
    }
}

/// A file is taken exactly if nothing about it changed while it was read.
pub proof fn changed_files_are_refused(
    length: u64,
    read: u64,
    current_length: u64,
    before: FileIdentity,
    current: FileIdentity,
)
    ensures
        change_refusal(length, read, current_length, before, current) is None <==> read == length
            && current_length == length && current == before,
{
}

/// The chunks of a file of any length that is taken can be counted, and the longest such
/// file has 64 GiB.
pub proof fn files_are_taken_up_to_a_length(length: u64)
    ensures
        length_refusal(length) is None <==> length <= 68719476736,
{
}

/// Once its end is asked for, a scan takes nothing more: no name, no directory, no entry,
/// and no result.
pub proof fn cancelled_scans_take_nothing(
    scan: ScanView,
    names: Seq<Seq<char>>,
    name: Option<Seq<char>>,
    relative: Seq<char>,
    path: PathView,
    kind: EntryKind,
    now: i64,
)
    ensures
        cancel_refusal(true) is Some,
        cancel_refusal(false) is None,
        name_refusal(true, scan.records.len(), relative, names, name) is Some,
        scan.entry_refusal(true, relative, path, now) is Some,
        scan.kind_refusal(true, kind) is Some,
{
}

/// A name is taken exactly if it is Unicode, there is room for its task, its path is
/// portable, and it cannot be confused with a name beside it.
pub proof fn names_are_taken_once(
    records: nat,
    relative: Seq<char>,
    names: Seq<Seq<char>>,
    name: Seq<char>,
)
    ensures
        name_refusal(false, records, relative, names, None) is Some,
        name_refusal(false, records, relative, names, Some(name)) is None <==> {
            &&& names.len() + records < 4096
            &&& path_refusal(relative + "/"@ + name) is None
            &&& forall|k: int|
                0 <= k < names.len() ==> key_of(#[trigger] names[k]) != key_of(name)
        },
        names.contains(name) ==> name_refusal(false, records, relative, names, Some(name)) is Some,
{
    if names.contains(name) {
        let k = choose|k: int| 0 <= k < names.len() && names[k] == name;
        assert(key_of(names[k]) == key_of(name));
    }
}

/// A directory is entered exactly if its path is portable, there is room for its task, and
/// the task can be made.
pub proof fn directories_are_entered(
    scan: ScanView,
    relative: Seq<char>,
    path: PathView,
    now: i64,
)
    ensures
        scan.entry_refusal(false, relative, path, now) is None <==> path_refusal(relative) is None
            && scan.records.len() < 4096 && path.absolute && now >= 0,
{
}

/// Directories are entered and plain files are read while there is room; nothing else is
/// followed.
pub proof fn only_files_and_directories_are_taken(scan: ScanView, kind: EntryKind)
    ensures
        scan.kind_refusal(false, kind) is None <==> kind == EntryKind::Directory || (kind
            == EntryKind::File && scan.records.len() < 4096),
        scan.kind_refusal(false, kind) is None ==> (visit_of(kind) == Visit::Enter <==> kind
            == EntryKind::Directory),
{
}

/// The tasks of a scan are sends to its peer, in its selection, of what was found under
/// their paths; a file also names the directory that was selected.
pub proof fn scanned_tasks_are_bound(
    scan: ScanView,
    id: Seq<char>,
    relative: Seq<char>,
    path: PathView,
    manifest: crate::manifest::ManifestView,
    now: i64,
)
    ensures
        ({
            let file = scan.file_task(id, relative, path, manifest, now);
            let directory = scan.directory_task(id, relative, path, now);
            &&& file.task_id == id && directory.task_id == id
            &&& file.direction == TaskDirection::Send && directory.direction == TaskDirection::Send
            &&& file.peer_id == scan.peer && directory.peer_id == scan.peer
            &&& file.group_id == Some(scan.group) && directory.group_id == Some(scan.group)
            &&& file.local_path.path() == path && directory.local_path.path() == path
            &&& file.manifest_identity == IdentityView::of_manifest(manifest)
            &&& file.details matches DetailsView::File(details) && details.relative_path
                == relative && details.manifest == manifest && details.source_root == Some(
                scan.source,
            ) && !details.receipt_committed
            &&& directory.details matches DetailsView::Directory(details)
                && details.relative_path == relative && !details.receipt_committed
        }),
{
}

} // verus!
