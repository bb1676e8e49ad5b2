//! A scan and its walk together: what is recorded of a selected directory.

use vstd::prelude::*;
use vstd::relations::{sorted_by, total_ordering};
use vstd::seq_lib::lemma_sorted_unique;

use crate::files::{
    all_paths, in_order, known_of, left_after, path_below, paths_left, tree_names, walked,
    walks_follow_the_tree, PendingTrees, PendingView, ScanView, Tree, WalkView,
};
use crate::manifest::ManifestView;
use crate::task_model::PathView;
use crate::task_record::{DetailsView, TaskView};
use crate::text::{
    lemma_text_less_irreflexive, lemma_text_less_total, lemma_text_less_transitive, text_less,
};

verus! {

/// A scan with the way that it still has to go.
pub struct SelectionView {
    pub scan: ScanView,
    pub walk: WalkView,
}

/// The path of a task from the selected directory on.
pub open spec fn relative_of(task: TaskView) -> Seq<char> {
    match task.details {
        DetailsView::File(file) => file.relative_path,
        DetailsView::Directory(directory) => directory.relative_path,
        _ => Seq::empty(),
    }
}

/// The paths of some tasks.
pub open spec fn record_paths(records: Seq<TaskView>) -> Seq<Seq<char>> {
    records.map_values(|task: TaskView| relative_of(task))
}

/// Whether a directory was entered: it is recorded under its path, and its entries,
/// which were listed in whatever order, are to be visited next and in order.
pub open spec fn enters(
    before: SelectionView,
    after: SelectionView,
    listed: Seq<Seq<char>>,
    id: Seq<char>,
    path: PathView,
    now: i64,
) -> bool {
    let (walk, entry) = before.walk.next();
    let last = after.walk.open.last();
    &&& entry is Some
    &&& after.scan == (ScanView {
        records: before.scan.records.push(
            before.scan.directory_task(id, entry->0.path, path, now),
        ),
        ..before.scan
    })
    &&& after.walk.top == walk.top
    &&& after.walk.open.len() == walk.open.len() + 1
    &&& after.walk.open.drop_last() == walk.open
    &&& last.relative == entry->0.path
    &&& in_order(last.names)
    &&& last.names.to_multiset() == listed.to_multiset()
}

/// Whether a file was read: it is recorded under its path.
pub open spec fn reads(
    before: SelectionView,
    after: SelectionView,
    id: Seq<char>,
    path: PathView,
    manifest: ManifestView,
    now: i64,
) -> bool {
    let (walk, entry) = before.walk.next();
    &&& entry is Some
    &&& after.scan == (ScanView {
        records: before.scan.records.push(
            before.scan.file_task(id, entry->0.path, path, manifest, now),
        ),
        chunks: before.scan.chunks + manifest.chunks.len(),
        ..before.scan
    })
    &&& after.walk == walk
}

/// Whether a step of the scan visited the next entry and found what stands there.
pub open spec fn visits(before: SelectionView, after: SelectionView, found: Tree) -> bool {
    match found {
        Tree::Directory(_, content) => exists|id: Seq<char>, path: PathView, now: i64|
            #[trigger] enters(before, after, tree_names(content), id, path, now),
        Tree::File(_) => exists|id: Seq<char>, path: PathView, manifest: ManifestView, now: i64|
            #[trigger] reads(before, after, id, path, manifest, now),
    }
}

/// What stands where the walk goes next.
pub open spec fn next_tree(open: Seq<PendingTrees>) -> Option<Tree>
    decreases open.len(),
{
    if open.len() == 0 {
        None
    } else if open.last().trees.len() == 0 {
        next_tree(open.drop_last())
    } else {
        Some(open.last().trees[0])
    }
}

/// What is left of a selected directory after the directory itself and so many of the
/// entries in it.
pub open spec fn left_in(top: Seq<char>, content: Seq<Tree>, count: nat) -> Seq<PendingTrees>
    decreases count,
{
    if count == 0 {
        seq![PendingTrees { relative: top, trees: content }]
    } else {
        left_after(left_in(top, content, (count - 1) as nat))
    }
}

/// Whether the content of each directory is written down in the order of its names.
pub open spec fn in_name_order(trees: Seq<Tree>) -> bool
    decreases trees,
{
    if trees.len() == 0 {
        true
    } else {
        &&& in_order(tree_names(trees))
        &&& in_name_order(trees.skip(1))
        &&& match trees[0] {
            Tree::File(_) => true,
            Tree::Directory(_, content) => in_name_order(content),
        }
    }
}

/// A scan of a selected directory, step by step: the directory itself, and each entry
/// as it stands where the walk goes.
pub open spec fn scans(states: Seq<SelectionView>, top: Seq<char>, content: Seq<Tree>) -> bool {
    &&& states.len() >= 2
    &&& states[0].scan.records.len() == 0
    &&& states[0].walk == (WalkView { top: Some(top), open: Seq::empty() })
    &&& visits(states[0], states[1], Tree::Directory(top, content))
    &&& forall|k: int|
        1 <= k < states.len() - 1 ==> match #[trigger] next_tree(
            left_in(top, content, (k - 1) as nat),
        ) {
            Some(found) => visits(states[k], states[k + 1], found),
            None => false,
        }
}

/// Names in order are determined by which names they are.
pub proof fn sorted_names_are_unique(left: Seq<Seq<char>>, right: Seq<Seq<char>>)
    requires
        in_order(left),
        in_order(right),
        left.to_multiset() == right.to_multiset(),
    ensures
        left == right,
{
    let leq = |a: Seq<char>, b: Seq<char>| !text_less(b, a);
    assert(total_ordering(leq)) by {
        assert forall|x: Seq<char>| #[trigger] leq(x, x) by {
            lemma_text_less_irreflexive(x);
        }
        assert forall|x: Seq<char>, y: Seq<char>| #[trigger] leq(x, y) && #[trigger] leq(
            y,
            x,
        ) implies x == y by {
            lemma_text_less_total(x, y);
        }
        assert forall|x: Seq<char>, y: Seq<char>| #[trigger] leq(x, y) || #[trigger] leq(y, x) by {
            if text_less(x, y) && text_less(y, x) {
                lemma_text_less_transitive(x, y, x);
                lemma_text_less_irreflexive(x);
            }
        }
        assert forall|x: Seq<char>, y: Seq<char>, z: Seq<char>| #[trigger] leq(x, y)
            && #[trigger] leq(y, z) implies leq(x, z) by {
            if text_less(z, x) {
                lemma_text_less_total(x, y);
                if text_less(x, y) {
                    lemma_text_less_transitive(z, x, y);
                }
            }
        }
    }
    assert(sorted_by(left, leq)) by {
        assert forall|i: int, j: int| 0 <= i < j < left.len() implies #[trigger] leq(
            left[i],
            left[j],
        ) by {
            assert(!text_less(left[j], left[i]));
        }
    }
    assert(sorted_by(right, leq)) by {
        assert forall|i: int, j: int| 0 <= i < j < right.len() implies #[trigger] leq(
            right[i],
            right[j],
        ) by {
            assert(!text_less(right[j], right[i]));
        }
    }
    lemma_sorted_unique(left, right, leq);
}

proof fn lemma_names_in_order(trees: Seq<Tree>)
    requires
        in_name_order(trees),
    ensures
        in_order(tree_names(trees)),
{
    if trees.len() == 0 {
        assert(tree_names(trees).len() == 0);
    }
}

spec fn open_in_order(open: Seq<PendingTrees>) -> bool {
    forall|k: int| 0 <= k < open.len() ==> in_name_order((#[trigger] open[k]).trees)
}

proof fn lemma_next(open: Seq<PendingTrees>)
    requires
        open_in_order(open),
    ensures
        open_in_order(left_after(open)),
        (next_tree(open) is Some) == (walked(known_of(open)).1 is Some),
        next_tree(open) matches Some(found) ==> {
            let (rest, entry) = walked(known_of(open));
            match found {
                Tree::File(_) => known_of(left_after(open)) == rest,
                Tree::Directory(_, content) => known_of(left_after(open)) == rest.push(
                    PendingView { relative: entry->0.path, names: tree_names(content) },
                ) && in_name_order(content) && in_order(tree_names(content)),
            }
        },
    decreases open.len(),
{
    if open.len() > 0 {
        let last = open.last();
        let front = open.drop_last();
        assert(in_name_order(open[open.len() - 1].trees));
        assert forall|k: int| 0 <= k < front.len() implies in_name_order(
            (#[trigger] front[k]).trees,
        ) by {
            assert(in_name_order(open[k].trees));
        }
        assert(known_of(open).drop_last() =~= known_of(front));
        assert(known_of(open).last().names =~= tree_names(last.trees));
        if last.trees.len() == 0 {
            lemma_next(front);
        } else {
            let rest = front.push(PendingTrees { trees: last.trees.skip(1), ..last });
            assert(tree_names(last.trees)[0] == last.trees[0].name());
            assert(tree_names(last.trees.skip(1)) =~= tree_names(last.trees).skip(1));
            assert(known_of(rest) =~= walked(known_of(open)).0);
            assert(open_in_order(rest)) by {
                assert forall|k: int| 0 <= k < rest.len() implies in_name_order(
                    (#[trigger] rest[k]).trees,
                ) by {
                    if k < front.len() {
                        assert(in_name_order(front[k].trees));
                    }
                }
            }
            if let Tree::Directory(name, content) = last.trees[0] {
                let inner = PendingTrees {
                    relative: path_below(last.relative, name),
                    trees: content,
                };
                let after = rest.push(inner);
                assert(known_of(after) =~= known_of(rest).push(
                    PendingView {
                        relative: path_below(last.relative, name),
                        names: tree_names(content),
                    },
                ));
                assert forall|k: int| 0 <= k < after.len() implies in_name_order(
                    (#[trigger] after[k]).trees,
                ) by {
                    if k < rest.len() {
                        assert(in_name_order(rest[k].trees));
                    }
                }
                lemma_names_in_order(content);
            }
        }
    }
}

proof fn lemma_recorded(before: Seq<TaskView>, task: TaskView)
    ensures
        record_paths(before.push(task)) == record_paths(before).push(relative_of(task)),
{
    assert(record_paths(before.push(task)) =~= record_paths(before).push(relative_of(task)));
}

proof fn lemma_visited(before: SelectionView, after: SelectionView, found: Tree)
    requires
        visits(before, after, found),
    ensures
        before.walk.next().1 is Some,
        record_paths(after.scan.records) == record_paths(before.scan.records).push(
            before.walk.next().1->0.path,
        ),
{
    let path = before.walk.next().1->0.path;
    match found {
        Tree::Directory(_, content) => {
            let (id, place, now) = choose|id: Seq<char>, place: PathView, now: i64|
                #[trigger] enters(before, after, tree_names(content), id, place, now);
            lemma_recorded(before.scan.records, before.scan.directory_task(id, path, place, now));
        },
        Tree::File(_) => {
            let (id, place, manifest, now) = choose|
                id: Seq<char>,
                place: PathView,
                manifest: ManifestView,
                now: i64,
            | #[trigger] reads(before, after, id, place, manifest, now);
            lemma_recorded(
                before.scan.records,
                before.scan.file_task(id, path, place, manifest, now),
            );
        },
    }
}

proof fn lemma_scanned(
    states: Seq<SelectionView>,
    top: Seq<char>,
    content: Seq<Tree>,
    at: int,
)
    requires
        scans(states, top, content),
        in_name_order(content),
        1 <= at < states.len(),
    ensures
        ({
            let left = left_in(top, content, (at - 1) as nat);
            &&& open_in_order(left)
            &&& states[at].walk == (WalkView { top: None, open: known_of(left) })
            &&& record_paths(states[at].scan.records) + paths_left(left) == seq![top] + all_paths(
                top,
                content,
            )
        }),
    decreases at,
{
    let left = left_in(top, content, (at - 1) as nat);
    if at == 1 {
        lemma_visited(states[0], states[1], Tree::Directory(top, content));
        let (id, place, now) = choose|id: Seq<char>, place: PathView, now: i64|
            #[trigger] enters(states[0], states[1], tree_names(content), id, place, now);
        lemma_names_in_order(content);
        let last = states[1].walk.open.last();
        sorted_names_are_unique(last.names, tree_names(content));
        assert(states[1].walk.open =~= known_of(left));
        assert(record_paths(states[0].scan.records) =~= Seq::<Seq<char>>::empty());
        assert(left.drop_last() =~= Seq::<PendingTrees>::empty());
        assert(paths_left(left.drop_last()) == Seq::<Seq<char>>::empty());
        assert(paths_left(left) =~= all_paths(top, content));
        assert(record_paths(states[1].scan.records) =~= seq![top]);
    } else {
        let before = left_in(top, content, (at - 2) as nat);
        lemma_scanned(states, top, content, at - 1);
        assert(next_tree(left_in(top, content, (at - 1 - 1) as nat)) is Some);
        let found = next_tree(before)->0;
        assert(visits(states[at - 1], states[at - 1 + 1], found));
        lemma_next(before);
        lemma_visited(states[at - 1], states[at], found);
        walks_follow_the_tree(before);
        let path = walked(known_of(before)).1->0.path;
        if let Tree::Directory(_, inner) = found {
            let (id, place, now) = choose|id: Seq<char>, place: PathView, now: i64|
                #[trigger] enters(states[at - 1], states[at], tree_names(inner), id, place, now);
            let last = states[at].walk.open.last();
            sorted_names_are_unique(last.names, tree_names(inner));
            assert(states[at].walk.open =~= known_of(left));
        }
        assert(record_paths(states[at].scan.records) + paths_left(left) =~= record_paths(
            states[at - 1].scan.records,
        ) + (seq![path] + paths_left(left)));
    }
}

/// A scan records the selected directory and everything in it exactly once: the
/// directory first, each directory before its content, and the entries of a directory in
/// the order of their names.
pub proof fn scans_record_the_selection(
    states: Seq<SelectionView>,
    top: Seq<char>,
    content: Seq<Tree>,
)
    requires
        scans(states, top, content),
        in_name_order(content),
        states.last().walk.next().1 is None,
    ensures
        record_paths(states.last().scan.records) == seq![top] + all_paths(top, content),
{
    let at = states.len() - 1;
    let left = left_in(top, content, (at - 1) as nat);
    lemma_scanned(states, top, content, at);
    walks_follow_the_tree(left);
    assert(record_paths(states[at].scan.records) + paths_left(left) =~= record_paths(
        states[at].scan.records,
    ));
}

/// Before a scan is over, what it has recorded is the beginning of that, and what its
/// walk still has to visit is the rest.
pub proof fn scans_leave_nothing_out(
    states: Seq<SelectionView>,
    top: Seq<char>,
    content: Seq<Tree>,
    at: int,
)
    requires
        scans(states, top, content),
        in_name_order(content),
        1 <= at < states.len(),
    ensures
        record_paths(states[at].scan.records) + paths_left(left_in(top, content, (at - 1) as nat))
            == seq![top] + all_paths(top, content),
{
    lemma_scanned(states, top, content, at);
}

} // verus!
