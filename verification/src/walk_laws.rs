//! What holds of a walk that copies a directory.

use crate::error::{ErrorView, FxError};
use crate::laws::walk_place;
use crate::path::{behind_drops_first, join_leads_on, PathView};
use crate::route::{slashed, DOT};
use crate::tree::{
    copy_of, first_walk_step, next_walk_step, progress, TreeStepView, TreeView, TreeWalkView,
    WalkEntry, WalkEvent,
};
use vstd::prelude::*;

verus! {

/// Something was done.
pub open spec fn succeeds(event: WalkEvent) -> bool {
    event matches WalkEvent::Did(outcome) && outcome is Ok
}

/// Something failed.
pub open spec fn fails(event: WalkEvent) -> bool {
    event is Failed || (event matches WalkEvent::Did(outcome) && outcome is Err)
}

/// `entry` is what the names lead to from `root`.
pub open spec fn is_under(root: PathView, names: Seq<Seq<u8>>, entry: PathView) -> bool {
    &&& root.route().count() > 0
    &&& names.len() > 0 ==> names.first() != seq![DOT]
    &&& entry.route().rooted == root.route().rooted
    &&& entry.route().parts == root.route().parts + names
}

/// `to` lies under the target of a copy as `entry` lies under its root: whatever names lead
/// from the root to the entry lead from the target to it.
pub open spec fn is_counterpart(tree: TreeView, entry: PathView, to: PathView) -> bool {
    forall|names: Seq<Seq<u8>>| #[trigger]
        is_under(tree.root, names, entry) ==> to.route().rooted == tree.target.route().rooted
            && to.route().parts == tree.target.route().parts + names
}

/// The place of a copy lies under the target as the entry lies under the root.
proof fn copy_is_counterpart(tree: TreeView, entry: PathView)
    ensures
        is_counterpart(tree, entry, copy_of(tree.root, tree.target, entry)),
{
    assert forall|names: Seq<Seq<u8>>| #[trigger] is_under(tree.root, names, entry) implies ({
        let to = copy_of(tree.root, tree.target, entry);
        &&& to.route().rooted == tree.target.route().rooted
        &&& to.route().parts == tree.target.route().parts + names
    }) by {
        behind_drops_first(entry, tree.root);
        join_leads_on(tree.target, entry.behind(tree.root));
        assert(entry.route().skip(tree.root.route().count()).parts == names);
    }
}

/// The step is about an entry, which goes to its counterpart.
pub open spec fn handles(tree: TreeView, walk: TreeWalkView, entry: WalkEntry) -> bool {
    walk matches TreeWalkView::Entry { step, tree: t } && t == tree && match step {
        TreeStepView::CreateDirAll(to) => entry.is_dir && is_counterpart(tree, entry.path@, to),
        TreeStepView::CheckParent { parent, from, to } => !entry.is_dir && from == entry.path@
            && is_counterpart(tree, entry.path@, to) && from.parent() == Some(parent),
        TreeStepView::CreateParent { parent, from, to } => !entry.is_dir && from == entry.path@
            && is_counterpart(tree, entry.path@, to) && from.parent() == Some(parent),
        TreeStepView::Copy { from, to } => !entry.is_dir && from == entry.path@ && is_counterpart(
            tree,
            entry.path@,
            to,
        ),
        TreeStepView::Done(_) => false,
    }
}

/// Every entry that a walk comes to, whatever its name, is created or copied at its
/// counterpart before the walk goes on: the step is about it until it is done or fails.
pub proof fn entry_is_handled(tree: TreeView, entry: WalkEntry, walk: TreeWalkView, event: WalkEvent)
    ensures
        handles(
            tree,
            next_walk_step(TreeWalkView::Next { tree, started: true }, WalkEvent::Entry(entry)),
            entry,
        ),
        handles(tree, walk, entry) ==> ({
            let next = next_walk_step(walk, event);
            let step = walk->Entry_step;
            ||| handles(tree, next, entry)
            ||| next == (TreeWalkView::Next { tree, started: true }) && succeeds(event) && (
            step is CreateDirAll || step is Copy)
            ||| next is Failed && fails(event)
        }),
{
    copy_is_counterpart(tree, entry.path@);
}

/// What an entry begins with: a directory is created, and for any other it is found out
/// first whether its parent exists, if it has one.
pub proof fn entry_begins_by_kind(tree: TreeView, entry: WalkEntry)
    ensures
        ({
            let next = next_walk_step(
                TreeWalkView::Next { tree, started: true },
                WalkEvent::Entry(entry),
            );
            let step = next->Entry_step;
            let parent = entry.path@.parent();
            &&& next is Entry
            &&& entry.is_dir ==> step is CreateDirAll
            &&& !entry.is_dir && parent is Some ==> step is CheckParent
                && step->CheckParent_parent == parent->0
            &&& !entry.is_dir && parent is None ==> step is Copy
        }),
{
}

/// The place of a copy is written behind the target with the names that lead from the root to
/// the entry.
pub proof fn place_of_copy(tree: TreeView, names: Seq<Seq<u8>>, entry: PathView)
    requires
        is_under(tree.root, names, entry),
    ensures
        copy_of(tree.root, tree.target, entry) == tree.target.join(
            PathView { text: slashed(names) },
        ),
{
    assert(entry.route().skip(tree.root.route().count()).parts == names);
}

/// A walk waits for the answer to what is to be done: anything else that happens changes
/// nothing, and nothing happens to a walk that is over.
pub proof fn walk_waits_for_answer(
    tree: TreeView,
    path: PathView,
    step: TreeStepView,
    started: bool,
    e: ErrorView,
    event: WalkEvent,
)
    ensures
        ({
            let next = TreeWalkView::Next { tree, started };
            let root = TreeWalkView::CreateRoot { path, tree };
            let entry = TreeWalkView::Entry { step, tree };
            &&& event !is Entry && event !is Failed && event !is End ==> next_walk_step(next, event)
                == next
            &&& !started && event is Entry ==> next_walk_step(next, event) == next
            &&& event !is Did ==> next_walk_step(root, event) == root
            &&& (step is CreateDirAll || step is CreateParent || step is Copy) && event !is Did
                ==> next_walk_step(entry, event) == entry
            &&& step is CheckParent && event !is Exists ==> next_walk_step(entry, event) == entry
            &&& next_walk_step(TreeWalkView::Ended { tree }, event) == (TreeWalkView::Ended { tree })
            &&& next_walk_step(TreeWalkView::Failed(e), event) == TreeWalkView::Failed(e)
        }),
{
}

/// Each answer brings a step on: a directory that was created or a file that was copied is
/// done with, a file is copied once its parent exists, and a failure ends the walk with its
/// error, or with that of the file that could not be copied.
pub proof fn answers_bring_on(
    tree: TreeView,
    parent: PathView,
    from: PathView,
    to: PathView,
    event: WalkEvent,
    e: FxError,
)
    ensures
        ({
            let next = |step: TreeStepView, event: WalkEvent|
                next_walk_step(TreeWalkView::Entry { step, tree }, event);
            let onward = TreeWalkView::Next { tree, started: true };
            let create = TreeStepView::CreateDirAll(to);
            let check = TreeStepView::CheckParent { parent, from, to };
            let create_parent = TreeStepView::CreateParent { parent, from, to };
            let copy = TreeStepView::Copy { from, to };
            &&& succeeds(event) ==> next(create, event) == onward
            &&& succeeds(event) ==> next(copy, event) == onward
            &&& next(check, WalkEvent::Exists(true)) == (TreeWalkView::Entry { step: copy, tree })
            &&& next(check, WalkEvent::Exists(false)) == (TreeWalkView::Entry {
                step: create_parent,
                tree,
            })
            &&& succeeds(event) ==> next(create_parent, event) == (TreeWalkView::Entry {
                step: copy,
                tree,
            })
        }),
        ({
            let next = |step: TreeStepView|
                next_walk_step(TreeWalkView::Entry { step, tree }, WalkEvent::Did(Err(e)));
            &&& next(TreeStepView::CreateDirAll(to)) == TreeWalkView::Failed(e@)
            &&& next(TreeStepView::CreateParent { parent, from, to }) == TreeWalkView::Failed(e@)
            &&& next(TreeStepView::Copy { from, to }) == TreeWalkView::Failed(
                ErrorView::PutItem(from),
            )
        }),
{
}

/// A walk ends where there are no more entries, fails where the walk itself fails or its
/// root cannot be created, and begins with its first entry once the root is created.
pub proof fn walk_ends_and_fails(
    tree: TreeView,
    path: PathView,
    started: bool,
    event: WalkEvent,
    e: FxError,
)
    ensures
        next_walk_step(TreeWalkView::Next { tree, started }, WalkEvent::End) == (
        TreeWalkView::Ended { tree }),
        succeeds(event) ==> next_walk_step(TreeWalkView::CreateRoot { path, tree }, event) == (
        TreeWalkView::Next { tree, started: true }),
        next_walk_step(TreeWalkView::Next { tree, started }, WalkEvent::Failed(e))
            == TreeWalkView::Failed(e@),
        next_walk_step(TreeWalkView::CreateRoot { path, tree }, WalkEvent::Did(Err(e)))
            == TreeWalkView::Failed(e@),
        first_walk_step() == (TreeWalkView::Next {
            tree: TreeView {
                root: PathView { text: Seq::empty() },
                target: PathView { text: Seq::empty() },
            },
            started: false,
        }),
{
}

/// A walk comes to its end only when there are no more entries, and fails only when
/// something failed; and it always copies to the same target.
pub proof fn walk_keeps_target(walk: TreeWalkView, event: WalkEvent)
    ensures
        next_walk_step(walk, event) is Ended && walk !is Ended ==> walk is Next && event is End,
        next_walk_step(walk, event) is Failed && walk !is Failed && !(walk matches
            TreeWalkView::Entry { step: TreeStepView::Done(_), tree }) ==> fails(event),
        next_walk_step(walk, event) !is Failed ==> walk_place(next_walk_step(walk, event))
            == walk_place(walk),
{
}

/// A walk after a list of events.
pub open spec fn walk_after(walk: TreeWalkView, events: Seq<WalkEvent>) -> TreeWalkView
    decreases events.len(),
{
    if events.len() == 0 {
        walk
    } else {
        next_walk_step(walk_after(walk, events.drop_last()), events.last())
    }
}

/// The entries that a walk came to in a list of events.
pub open spec fn seen_entries(walk: TreeWalkView, events: Seq<WalkEvent>) -> Seq<WalkEntry>
    decreases events.len(),
{
    if events.len() == 0 {
        Seq::empty()
    } else {
        let before = seen_entries(walk, events.drop_last());
        match (walk_after(walk, events.drop_last()), events.last()) {
            (TreeWalkView::Next { tree, started }, WalkEvent::Entry(entry)) => before.push(entry),
            _ => before,
        }
    }
}

/// A directory that was created, or a file that was copied from a path.
pub struct MadeCopy {
    pub from: Option<PathView>,
    pub to: PathView,
}

/// The copies that were made in a list of events: the steps to create a directory or to copy
/// a file that succeeded.
pub open spec fn made_copies(walk: TreeWalkView, events: Seq<WalkEvent>) -> Seq<MadeCopy>
    decreases events.len(),
{
    if events.len() == 0 {
        Seq::empty()
    } else {
        let before = made_copies(walk, events.drop_last());
        match walk_after(walk, events.drop_last()) {
            TreeWalkView::Entry { step: TreeStepView::CreateDirAll(to), tree } => if succeeds(
                events.last(),
            ) {
                before.push(MadeCopy { from: None, to })
            } else {
                before
            },
            TreeWalkView::Entry { step: TreeStepView::Copy { from, to }, tree } => if succeeds(
                events.last(),
            ) {
                before.push(MadeCopy { from: Some(from), to })
            } else {
                before
            },
            _ => before,
        }
    }
}

/// The copy of an entry: a directory is created, and any other entry copied, at its
/// counterpart.
pub open spec fn is_copy(tree: TreeView, entry: WalkEntry, made: MadeCopy) -> bool {
    &&& entry.is_dir <==> made.from is None
    &&& made.from matches Some(from) ==> from == entry.path@
    &&& is_counterpart(tree, entry.path@, made.to)
}

/// The copies are those of the entries, one by one.
pub open spec fn are_copies(tree: TreeView, entries: Seq<WalkEntry>, made: Seq<MadeCopy>) -> bool {
    &&& made.len() <= entries.len()
    &&& forall|k: int| 0 <= k < made.len() ==> is_copy(tree, entries[k], #[trigger] made[k])
}

/// Where a walk has come to its end, every entry that it came to has a copy that was made,
/// in the order of the entries and at its counterpart. Before that, only the entry that is
/// being handled lacks one.
pub proof fn walk_copies_every_entry(tree: TreeView, events: Seq<WalkEvent>)
    ensures
        ({
            let start = TreeWalkView::Next { tree, started: true };
            let walk = walk_after(start, events);
            let entries = seen_entries(start, events);
            let made = made_copies(start, events);
            &&& walk matches TreeWalkView::Ended { tree: t } ==> t == tree && made.len()
                == entries.len() && are_copies(tree, entries, made)
            &&& walk is Next ==> walk == start && made.len() == entries.len()
            &&& walk !is Failed ==> are_copies(tree, entries, made)
            &&& walk is Entry ==> made.len() + 1 == entries.len() && handles(
                tree,
                walk,
                entries.last(),
            )
            &&& walk !is CreateRoot
        }),
    decreases events.len(),
{
    let start = TreeWalkView::Next { tree, started: true };
    if events.len() > 0 {
        let before = events.drop_last();
        let event = events.last();
        walk_copies_every_entry(tree, before);
        let walk = walk_after(start, before);
        let entries = seen_entries(start, before);
        let made = made_copies(start, before);
        match walk {
            TreeWalkView::Next { tree: t, started } => {
                if let WalkEvent::Entry(entry) = event {
                    entry_is_handled(tree, entry, walk, event);
                    let more = entries.push(entry);
                    assert forall|k: int| 0 <= k < made.len() implies is_copy(
                        tree,
                        more[k],
                        #[trigger] made[k],
                    ) by {
                        assert(more[k] == entries[k]);
                    }
                }
            },
            TreeWalkView::Entry { step, tree: t } => {
                let entry = entries.last();
                entry_is_handled(tree, entry, walk, event);
                let after = made_copies(start, events);
                assert forall|k: int| 0 <= k < after.len() implies is_copy(
                    tree,
                    entries[k],
                    #[trigger] after[k],
                ) by {
                    if k < made.len() {
                        assert(after[k] == made[k]);
                    }
                }
            },
            _ => {},
        }
    }
}

/// How far a walk has come is told by marks, one for each fifth that lies behind, up to
/// four. In the first fifth only the first entry is told of.
pub proof fn progress_marks_fifths(i: nat, total: nat, first: Seq<char>)
    ensures
        total / 5 * 4 < i ==> progress(i, total, first) == Some("[»»»»-]"@),
        total / 5 * 3 < i <= total / 5 * 4 ==> progress(i, total, first) == Some("[»»»--]"@),
        total / 5 * 2 < i <= total / 5 * 3 ==> progress(i, total, first) == Some("[»»---]"@),
        total / 5 < i <= total / 5 * 2 ==> progress(i, total, first) == Some("[»----]"@),
        0 < i <= total / 5 ==> progress(i, total, first) is None,
        progress(0, total, first) == Some(first),
{
}

} // verus!
