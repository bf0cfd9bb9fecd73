//! What holds of whole runs: moving items to the trash, putting items, and removing what was
//! put.

use crate::error::{ErrorView, FxError};
use crate::history::{next_unput, unput_at, UnputEvent, UnputView};
use crate::item::{FileType, ItemView};
use crate::op::{OpView, Operation};
use crate::path::PathView;
use crate::put::{
    destination, dir_started, dir_target, entry_names, file_started, is_moved_link, is_trashed,
    name_or_empty, names_of, next_put, put_at, put_name, put_recorded, renames, starts_dir,
    starts_file, DirPutView, PutStepView, PutView,
};
use crate::remove::{
    next_removal, registered_next, removal_at, removal_recorded, trash_name, DirStepView,
    FileStepView, RemovalStepView, RemovalView,
};
use crate::state::{moved, State};
use crate::text::signed_decimal;
use crate::tree::{next_walk_step, TreeStepView, TreeView, TreeWalkView, WalkEntry, WalkEvent};
use crate::walk_laws::{fails, succeeds, walk_keeps_target};
use vstd::hash_set::StringHashSet;
use vstd::prelude::*;
use vstd::string::*;
use vstd::utf8::{decode_utf8, valid_utf8};

verus! {

/// The removal of what was put, after a list of events.
pub open spec fn unput_after(paths: Seq<PathView>, events: Seq<UnputEvent>) -> UnputView
    decreases events.len(),
{
    if events.len() == 0 {
        unput_at(paths.len(), 0)
    } else {
        next_unput(paths, unput_after(paths, events.drop_last()), events.last())
    }
}

/// Something was removed.
pub open spec fn is_removed(event: UnputEvent) -> bool {
    event matches UnputEvent::Did(outcome) && outcome is Ok
}

/// The paths that were removed in a list of events, and how: the steps to remove a path that
/// succeeded.
pub open spec fn removed_paths(paths: Seq<PathView>, events: Seq<UnputEvent>) -> Seq<(PathView, bool)>
    decreases events.len(),
{
    if events.len() == 0 {
        Seq::empty()
    } else {
        let before = removed_paths(paths, events.drop_last());
        match unput_after(paths, events.drop_last()) {
            UnputView::Remove { at, path, is_dir } => if is_removed(events.last()) {
                before.push((path, is_dir))
            } else {
                before
            },
            _ => before,
        }
    }
}

/// The answers to the question whether a path is a directory, in a list of events.
pub open spec fn told_kinds(paths: Seq<PathView>, events: Seq<UnputEvent>) -> Seq<bool>
    decreases events.len(),
{
    if events.len() == 0 {
        Seq::empty()
    } else {
        let before = told_kinds(paths, events.drop_last());
        match (unput_after(paths, events.drop_last()), events.last()) {
            (UnputView::Check { at }, UnputEvent::IsDir(is_dir)) => before.push(is_dir),
            _ => before,
        }
    }
}

/// The removed paths are the first of those that were put, each as the kind that it was told
/// to be.
pub open spec fn are_removed(
    paths: Seq<PathView>,
    kinds: Seq<bool>,
    removed: Seq<(PathView, bool)>,
) -> bool {
    &&& removed.len() <= paths.len()
    &&& removed.len() <= kinds.len()
    &&& forall|k: int|
        0 <= k < removed.len() ==> (#[trigger] removed[k]).0 == paths[k] && removed[k].1 == kinds[k]
}

/// Undoing a put succeeds only after every path that was put was removed, in order, files
/// and directories alike and each as what it is.
pub proof fn undone_put_removes_all(paths: Seq<PathView>, events: Seq<UnputEvent>)
    ensures
        ({
            let step = unput_after(paths, events);
            let removed = removed_paths(paths, events);
            let kinds = told_kinds(paths, events);
            &&& are_removed(paths, kinds, removed)
            &&& step == UnputView::Done(Ok(())) ==> removed.len() == paths.len()
            &&& step matches UnputView::Check { at } ==> at == removed.len() && at < paths.len()
                && kinds.len() == at
            &&& step matches UnputView::Remove { at, path, is_dir } ==> at == removed.len() && at
                < paths.len() && path == paths[at as int] && kinds.len() == at + 1 && is_dir
                == kinds[at as int]
        }),
    decreases events.len(),
{
    if events.len() > 0 {
        undone_put_removes_all(paths, events.drop_last());
        let removed = removed_paths(paths, events.drop_last());
        let after = removed_paths(paths, events);
        let kinds = told_kinds(paths, events.drop_last());
        let kinds_after = told_kinds(paths, events);
        assert forall|k: int| 0 <= k < after.len() implies (#[trigger] after[k]).0 == paths[k]
            && after[k].1 == kinds_after[k] by {
            if k < removed.len() {
                assert(after[k] == removed[k]);
                assert(kinds_after[k] == kinds[k]);
            }
        }
    }
}

/// After a path was removed, whatever it was, the next one is looked at, and there is an end
/// only where there is none. An error ends it with that error, and nothing else does.
pub proof fn unput_goes_on(paths: Seq<PathView>, at: nat, path: PathView, is_dir: bool, event: UnputEvent)
    requires
        at < paths.len(),
    ensures
        ({
            let step = UnputView::Remove { at, path, is_dir };
            let next = next_unput(paths, step, event);
            &&& is_removed(event) && at + 1 < paths.len() ==> next == (UnputView::Check { at: at + 1 })
            &&& is_removed(event) && at + 1 == paths.len() ==> next == UnputView::Done(Ok(()))
            &&& event is IsDir ==> next == step
            &&& event is Did && !is_removed(event) ==> next == UnputView::Done(
                Err(event->Did_0->Err_0@),
            )
        }),
        event is IsDir ==> next_unput(paths, UnputView::Check { at }, event) == (
        UnputView::Remove { at, path: paths[at as int], is_dir: event->IsDir_0 }),
        event is Did ==> next_unput(paths, UnputView::Check { at }, event) == (UnputView::Check {
            at,
        }),
{
}

/// How many of the items a putting is done with.
pub open spec fn put_position(count: nat, run: PutView) -> nat {
    match run.step {
        PutStepView::Begin { at } => at,
        PutStepView::File { at, to, name, link } => at,
        PutStepView::Dir { at, step } => at,
        PutStepView::Done => count,
    }
}

/// `next` is what comes behind a putting of items, for some name that is found where one is
/// needed.
pub open spec fn put_leads_to(
    trash_dir: PathView,
    dir: PathView,
    targets: Seq<ItemView>,
    run: PutView,
    event: WalkEvent,
    next: PutView,
) -> bool {
    &&& starts_file(targets, run, event) ==> exists|found: Seq<char>|
        next == #[trigger] file_started(
            run,
            dir,
            found,
            is_moved_link(targets[run.step->Begin_at as int], trash_dir, event->DeadLink_0),
        )
    &&& starts_dir(run, event) ==> exists|found: Seq<char>|
        next == dir_started(
            run,
            #[trigger] dir_target(dir, targets[run.step->Dir_at as int], trash_dir, found),
            event->Entry_0.path@,
            found,
        )
    &&& !starts_file(targets, run, event) && !starts_dir(run, event) ==> next == next_put(
        targets,
        run,
        event,
    )
}

/// A file that is being put is done with when it was put or could not be.
pub open spec fn ends_file(run: PutView, event: WalkEvent) -> bool {
    run.step is File && event is Did
}

/// A directory that is being put is done with when its walk has ended or failed.
pub open spec fn ends_dir(run: PutView, event: WalkEvent) -> bool {
    run.step matches PutStepView::Dir { at, step: DirPutView::Walk(walk) } && (
    next_walk_step(walk, event) is Ended || next_walk_step(walk, event) is Failed)
}

/// A putting in which no walk is over yet: one that is over is left at once.
pub open spec fn is_going(run: PutView) -> bool {
    match run.step {
        PutStepView::Dir { at, step: DirPutView::Done(_) } => false,
        PutStepView::Dir { at, step: DirPutView::Walk(TreeWalkView::Ended { tree }) } => false,
        PutStepView::Dir { at, step: DirPutView::Walk(TreeWalkView::Failed(e)) } => false,
        PutStepView::Dir {
            at,
            step: DirPutView::Walk(TreeWalkView::Entry { step: TreeStepView::Done(_), tree }),
        } => false,
        _ => true,
    }
}

/// Putting goes through the items one by one: whatever came of an item, file or directory,
/// put or not, the next one is begun, and there is an end only where there is none. An item
/// is left only when it is done with, and what was put is added then and only then.
pub proof fn put_goes_through_items(
    trash_dir: PathView,
    dir: PathView,
    targets: Seq<ItemView>,
    run: PutView,
    event: WalkEvent,
    next: PutView,
)
    requires
        run.well_formed(targets.len()),
        is_going(run),
        put_leads_to(trash_dir, dir, targets, run, event, next),
    ensures
        ({
            let count = targets.len();
            let at = put_position(count, run);
            let ends = ends_file(run, event) || ends_dir(run, event);
            &&& ends && at + 1 < count ==> next.step == (PutStepView::Begin { at: at + 1 })
            &&& ends && at + 1 == count ==> next.step is Done
            &&& !ends ==> put_position(count, next) == at && next.put == run.put && (next.step
                is Done <==> run.step is Done) && (next.step is Begin ==> next == run)
            &&& ends_file(run, event) && succeeds(event) ==> next.put == run.put.push(
                run.step->File_to,
            )
            &&& ends_file(run, event) && succeeds(event) ==> next.names == run.names.insert(
                run.step->File_name,
            )
            &&& ends_file(run, event) && fails(event) ==> next.put == run.put && next.names
                == run.names
            &&& ends_dir(run, event) && fails(event) ==> next.put == run.put
            &&& ends_dir(run, event) && !fails(event) ==> next.put.len() == run.put.len() + 1
                && next.put.drop_last() == run.put
            &&& is_going(next)
            &&& next.well_formed(count)
        }),
{
    match run.step {
        PutStepView::Dir { at, step: DirPutView::Walk(walk) } => {
            walk_keeps_target(walk, event);
            if let TreeWalkView::Ended { tree } = next_walk_step(walk, event) {
                assert(run.put.push(tree.target).drop_last() == run.put);
            }
        },
        _ => {},
    }
}

/// Putting begins with the first item, and waits for the answer to what is to be done:
/// anything else that happens changes nothing, and nothing happens when all is done.
pub proof fn put_waits_for_answer(
    targets: Seq<ItemView>,
    names: Set<Seq<char>>,
    run: PutView,
    event: WalkEvent,
)
    ensures
        targets.len() > 0 ==> put_at(targets.len(), names, Seq::empty(), 0).step == (
        PutStepView::Begin { at: 0 }),
        put_at(0, names, Seq::empty(), 0).step is Done,
        put_at(targets.len(), names, Seq::empty(), 0).names == names,
        put_at(targets.len(), names, Seq::empty(), 0).put.len() == 0,
        run.step is Begin && event !is DeadLink ==> !starts_file(targets, run, event) && next_put(
            targets,
            run,
            event,
        ) == run,
        run.step is File && event !is Did ==> !starts_file(targets, run, event) && next_put(
            targets,
            run,
            event,
        ) == run,
        run.step is Done ==> !starts_file(targets, run, event) && next_put(targets, run, event)
            == run,
        run.step !is Dir || event !is Entry ==> !starts_dir(run, event),
{
}

/// What an item begins with: a directory with a walk that waits for its first entry, and
/// anything else with a name in the directory that it goes to.
pub proof fn put_begins_by_kind(
    trash_dir: PathView,
    dir: PathView,
    targets: Seq<ItemView>,
    run: PutView,
    dead_link: bool,
    next: PutView,
)
    requires
        run.step is Begin,
        run.step->Begin_at < targets.len(),
        put_leads_to(trash_dir, dir, targets, run, WalkEvent::DeadLink(dead_link), next),
    ensures
        ({
            let at = run.step->Begin_at;
            let item = targets[at as int];
            &&& next.names == run.names
            &&& next.put == run.put
            &&& item.file_type == FileType::Directory ==> next.step == (PutStepView::Dir {
                at,
                step: DirPutView::Walk(
                    TreeWalkView::Next {
                        tree: TreeView {
                            root: PathView { text: Seq::empty() },
                            target: PathView { text: Seq::empty() },
                        },
                        started: false,
                    },
                ),
            })
            &&& item.file_type != FileType::Directory ==> exists|name: Seq<char>|
                next.step == (PutStepView::File {
                    at,
                    to: #[trigger] dir.join_name(name),
                    name,
                    link: dead_link && item.file_path.parent() is Some
                        && item.file_path.parent()->0.same_as(trash_dir),
                })
        }),
{
}

/// A directory gets its place with the first entry of the walk through it: its root is
/// created there, where all that is in it goes, and the name that was found is taken.
pub proof fn put_roots_directory(
    trash_dir: PathView,
    dir: PathView,
    targets: Seq<ItemView>,
    run: PutView,
    at: nat,
    tree: TreeView,
    entry: WalkEntry,
    next: PutView,
)
    requires
        run.step == (PutStepView::Dir {
            at,
            step: DirPutView::Walk(TreeWalkView::Next { tree, started: false }),
        }),
        at < targets.len(),
        put_leads_to(trash_dir, dir, targets, run, WalkEvent::Entry(entry), next),
    ensures
        exists|found: Seq<char>|
            #![trigger run.names.insert(found)]
            {
                let item = targets[at as int];
                let in_trash = item.file_path.parent() is Some
                    && item.file_path.parent()->0.same_as(trash_dir);
                let target = if in_trash {
                    dir.join_name(put_name(item, trash_dir))
                } else {
                    dir.join_name(found)
                };
                &&& next.names == run.names.insert(found)
                &&& next.put == run.put
                &&& next.step == (PutStepView::Dir {
                    at,
                    step: DirPutView::Walk(
                        TreeWalkView::CreateRoot {
                            path: target,
                            tree: TreeView { root: entry.path@, target },
                        },
                    ),
                })
            },
{
    let found = choose|found: Seq<char>|
        next == dir_started(
            run,
            #[trigger] dir_target(dir, targets[at as int], trash_dir, found),
            entry.path@,
            found,
        );
    assert(next.names == run.names.insert(found));
}

/// Once its root is given, putting a directory is the walk through it: it goes on as the walk
/// does, and comes to its target where the walk has ended.
pub proof fn put_follows_walk(
    targets: Seq<ItemView>,
    run: PutView,
    at: nat,
    walk: TreeWalkView,
    event: WalkEvent,
)
    requires
        run.step == (PutStepView::Dir { at, step: DirPutView::Walk(walk) }),
        !(walk matches TreeWalkView::Next { tree, started: false } && event is Entry),
    ensures
        ({
            let next = next_put(targets, run, event);
            let after = next_walk_step(walk, event);
            &&& next.names == run.names
            &&& after !is Ended && after !is Failed ==> next.step == (PutStepView::Dir {
                at,
                step: DirPutView::Walk(after),
            }) && next.put == run.put
            &&& after matches TreeWalkView::Ended { tree } ==> next.put == run.put.push(
                after->Ended_tree.target,
            )
            &&& after is Failed ==> next.put == run.put
        }),
{
}

/// A putting of items as it goes: the states that it is in, and the events between them.
pub open spec fn is_put_run(
    trash_dir: PathView,
    dir: PathView,
    targets: Seq<ItemView>,
    names: Set<Seq<char>>,
    runs: Seq<PutView>,
    events: Seq<WalkEvent>,
) -> bool {
    &&& runs.len() == events.len() + 1
    &&& runs[0] == put_at(targets.len(), names, Seq::empty(), 0)
    &&& forall|i: int|
        0 <= i < events.len() ==> put_leads_to(
            trash_dir,
            dir,
            targets,
            #[trigger] runs[i],
            events[i],
            runs[i + 1],
        )
}

/// A putting has come to the item at a position.
pub open spec fn begins_at(runs: Seq<PutView>, k: nat) -> bool {
    exists|i: int| 0 <= i < runs.len() && (#[trigger] runs[i]).step == (PutStepView::Begin { at: k })
}

/// A putting that is finished has begun every item, and if nothing failed, as many were put
/// as there are items.
pub proof fn finished_put_began_all(
    trash_dir: PathView,
    dir: PathView,
    targets: Seq<ItemView>,
    names: Set<Seq<char>>,
    runs: Seq<PutView>,
    events: Seq<WalkEvent>,
)
    requires
        is_put_run(trash_dir, dir, targets, names, runs, events),
    ensures
        ({
            let run = runs.last();
            let at = put_position(targets.len(), run);
            let has_failed = exists|i: int| 0 <= i < events.len() && fails(#[trigger] events[i]);
            &&& run.well_formed(targets.len())
            &&& is_going(run)
            &&& forall|k: nat| k < at ==> #[trigger] begins_at(runs, k)
            &&& run.step is Begin ==> begins_at(runs, at)
            &&& run.step is File || run.step is Dir ==> begins_at(runs, at)
            &&& !has_failed ==> run.put.len() == at
            &&& run.step is Done && !has_failed ==> run.put.len() == targets.len()
        }),
    decreases events.len(),
{
    let count = targets.len();
    if events.len() == 0 {
        assert(runs.last() == runs[0]);
        if count > 0 {
            assert(runs[0].step == (PutStepView::Begin { at: 0 }));
            assert(begins_at(runs, 0));
        }
    } else {
        let before = runs.drop_last();
        let earlier = events.drop_last();
        assert forall|i: int| 0 <= i < earlier.len() implies put_leads_to(
            trash_dir,
            dir,
            targets,
            #[trigger] before[i],
            earlier[i],
            before[i + 1],
        ) by {
            assert(before[i] == runs[i] && before[i + 1] == runs[i + 1]);
            assert(earlier[i] == events[i]);
        }
        assert(before[0] == runs[0]);
        finished_put_began_all(trash_dir, dir, targets, names, before, earlier);
        let run = before.last();
        let event = events.last();
        let next = runs.last();
        assert(runs[events.len() - 1] == run);
        put_goes_through_items(trash_dir, dir, targets, run, event, next);
        assert forall|k: nat| begins_at(before, k) implies #[trigger] begins_at(runs, k) by {
            let i = choose|i: int|
                0 <= i < before.len() && (#[trigger] before[i]).step == (PutStepView::Begin { at: k });
            assert(runs[i] == before[i]);
        }
        assert(runs[runs.len() - 1] == next);
        if next.step is Begin {
            assert(begins_at(runs, next.step->Begin_at));
        }
        assert forall|k: nat| k < put_position(count, next) implies #[trigger] begins_at(runs, k) by {
            if k < put_position(count, run) {
                assert(begins_at(before, k));
            } else {
                assert(begins_at(before, k));
            }
        }
        let had_failed = exists|i: int| 0 <= i < earlier.len() && fails(#[trigger] earlier[i]);
        let has_failed = exists|i: int| 0 <= i < events.len() && fails(#[trigger] events[i]);
        if had_failed {
            let i = choose|i: int| 0 <= i < earlier.len() && fails(#[trigger] earlier[i]);
            assert(events[i] == earlier[i]);
        }
        if fails(event) {
            assert(fails(events[events.len() - 1]));
        }
    }
}

/// The names that are taken at the beginning are those of the listing.
pub proof fn taken_names_are_listed(list: Seq<ItemView>, name: Seq<char>)
    ensures
        names_of(list).contains(name) <==> exists|k: int|
            0 <= k < list.len() && (#[trigger] list[k]).file_name == name,
{
    if exists|k: int| 0 <= k < list.len() && (#[trigger] list[k]).file_name == name {
        let k = choose|k: int| 0 <= k < list.len() && (#[trigger] list[k]).file_name == name;
        assert(list[k].file_name == name);
    }
}

/// An entry is known by a name: its own where that is text, and none otherwise.
pub open spec fn is_known_by(entry: Result<Vec<u8>, FxError>, name: Seq<char>) -> bool {
    &&& entry is Ok
    &&& valid_utf8(entry->Ok_0@) ==> decode_utf8(entry->Ok_0@) == name
    &&& !valid_utf8(entry->Ok_0@) ==> name.len() == 0
}

/// The names that are taken in a target directory are those of its entries that can be read.
pub proof fn taken_names_are_entries(entries: Seq<Result<Vec<u8>, FxError>>, name: Seq<char>)
    ensures
        entry_names(entries).contains(name) <==> exists|k: int|
            0 <= k < entries.len() && is_known_by(#[trigger] entries[k], name),
{
    if exists|k: int| 0 <= k < entries.len() && is_known_by(#[trigger] entries[k], name) {
        let k = choose|k: int| 0 <= k < entries.len() && is_known_by(#[trigger] entries[k], name);
        assert(entries[k] is Ok && name_or_empty(entries[k]->Ok_0@) =~= name);
    }
    if entry_names(entries).contains(name) {
        let k = choose|k: int|
            0 <= k < entries.len() && (#[trigger] entries[k]) is Ok && name_or_empty(
                entries[k]->Ok_0@,
            ) == name;
        assert(is_known_by(entries[k], name));
    }
}

/// An item that is not in the trash is put under its own name, and one that is, under what
/// follows the first eleven characters. Items go to the target directory, or else to the
/// current one.
pub proof fn name_to_put(item: ItemView, trash_dir: PathView, current_dir: PathView, dir: PathView)
    ensures
        ({
            let in_trash = item.file_path.parent() is Some
                && item.file_path.parent()->0.same_as(trash_dir);
            let name = put_name(item, trash_dir);
            &&& is_trashed(item, trash_dir) == in_trash
            &&& !in_trash ==> name == item.file_name
            &&& in_trash && item.file_name.len() <= 11 ==> name.len() == 0
            &&& in_trash && item.file_name.len() > 11 ==> item.file_name.take(11) + name
                == item.file_name
        }),
        destination(current_dir, Some(dir)) == dir,
        destination(current_dir, None) == current_dir,
{
    assert(item.file_name.len() > 11 ==> item.file_name.take(11) + item.file_name.skip(11)
        =~= item.file_name);
}

/// A name that is found is what is made of the name under which an item is to be put.
pub proof fn found_name_is_made_of_name<R: Fn(&String, &StringHashSet) -> String>(
    rename: &R,
    name: Seq<char>,
    names: &StringHashSet,
    found: Seq<char>,
)
    ensures
        renames(rename, name, names, found) <==> exists|from: String, to: String| #[trigger]
            call_ensures(rename, (&from, names), to) && from@ == name && to@ == found,
{
}

/// What was put is recorded when a putting into the current directory has just ended, with
/// all its items, and at no other time.
pub proof fn put_is_recorded_at_its_end(
    state: State,
    operations: Operation,
    targets: Seq<ItemView>,
    new_op: bool,
    ended_before: bool,
    now: PutView,
)
    requires
        put_recorded(state, operations, targets, new_op, ended_before, now),
    ensures
        new_op && !ended_before && now.step is Done ==> {
            &&& operations.pos == 0
            &&& operations.op_list@.drop_last() == state.operations.op_list@.take(
                state.operations.op_list@.len() - state.operations.pos,
            )
            &&& operations.op_list@.len() > 0
            &&& operations.op_list@.last()@ == (OpView::Put {
                original: targets,
                put: now.put,
                dir: state.current_dir@,
            })
        },
        !new_op || ended_before || now.step !is Done ==> operations == state.operations,
{
}

/// A deletion is recorded when it has just ended without an error, with all its items, and
/// at no other time.
pub proof fn deletion_is_recorded_at_its_end(
    state: State,
    operations: Operation,
    targets: Seq<ItemView>,
    new_op: bool,
    ended_before: bool,
    now: RemovalView,
)
    requires
        removal_recorded(state, operations, targets, new_op, ended_before, now),
    ensures
        new_op && !ended_before && now.step == RemovalStepView::Done(Ok(())) ==> {
            &&& operations.pos == 0
            &&& operations.op_list@.drop_last() == state.operations.op_list@.take(
                state.operations.op_list@.len() - state.operations.pos,
            )
            &&& operations.op_list@.len() > 0
            &&& operations.op_list@.last()@ == (OpView::Delete {
                trash: now.trash,
                original: targets,
                dir: state.current_dir@,
            })
        },
        !new_op || ended_before || now.step != RemovalStepView::Done(Ok(()))
            ==> operations == state.operations,
{
}

/// The name of an item in the trash is the time, an underscore and its name.
pub proof fn trash_name_holds_name(stamp: i64, name: Seq<char>)
    ensures
        trash_name(stamp, name) == signed_decimal(stamp as int) + seq!['_'] + name,
{
    reveal_strlit("_");
    assert("_"@ =~= seq!['_']);
}

/// A removal begins with the first item, and each item with what its kind asks for: a
/// directory of a new deletion with a walk, a link that leads nowhere with being moved, and
/// any other with a copy. A deletion that is done again removes at once.
pub proof fn removal_begins_by_kind(
    trash_dir: PathView,
    targets: Seq<ItemView>,
    new_op: bool,
    removal: RemovalView,
    exists_there: bool,
    stamp: i64,
)
    requires
        removal.step is Begin,
        removal.step->Begin_at < targets.len(),
    ensures
        targets.len() > 0 ==> removal_at(targets.len(), Seq::empty()).step == (
        RemovalStepView::Begin { at: 0 }),
        removal_at(0, Seq::empty()).step == RemovalStepView::Done(Ok(())),
        ({
            let at = removal.step->Begin_at;
            let item = targets[at as int];
            let is_dir = item.file_type == FileType::Directory;
            let next = next_removal(
                trash_dir,
                targets,
                new_op,
                removal,
                WalkEvent::Exists(exists_there),
                stamp,
            );
            let name = trash_name(stamp, item.file_name);
            let to = trash_dir.join_name(name);
            let nowhere = PathView { text: Seq::empty() };
            &&& next.trash == removal.trash
            &&& is_dir && new_op ==> (next.step matches RemovalStepView::Dir {
                at: a,
                dir: DirStepView::Walk { walk, name: n },
            } && a == at && n.len() == 0 && walk == (TreeWalkView::Next {
                tree: TreeView { root: nowhere, target: nowhere },
                started: false,
            }))
            &&& is_dir && !new_op ==> next.step == (RemovalStepView::Dir {
                at,
                dir: DirStepView::RemoveAll { target: nowhere },
            })
            &&& !is_dir && !new_op ==> next.step == (RemovalStepView::File {
                at,
                file: FileStepView::Remove { to: nowhere },
            })
            &&& !is_dir && new_op && item.file_type == FileType::Symlink && !exists_there
                ==> next.step == (RemovalStepView::File {
                at,
                file: FileStepView::MoveLink { to, name },
            })
            &&& !is_dir && new_op && (item.file_type != FileType::Symlink || exists_there)
                ==> next.step == (RemovalStepView::File { at, file: FileStepView::Copy { to, name } })
        }),
{
}

/// An item is done with only by a deed that succeeded: a file that was removed, a link that
/// was moved, or a directory that was removed with all that is in it. Its place is then that
/// of the deed, and the next item is begun, or it ends where there is none.
pub proof fn item_is_done_by_a_deed(
    trash_dir: PathView,
    targets: Seq<ItemView>,
    new_op: bool,
    removal: RemovalView,
    event: WalkEvent,
    stamp: i64,
)
    requires
        removal.well_formed(targets.len()),
        !(removal.step matches RemovalStepView::File { at, file: FileStepView::Done(_) }),
        !(removal.step matches RemovalStepView::Dir { at, dir: DirStepView::Done(_) }),
    ensures
        ({
            let next = next_removal(trash_dir, targets, new_op, removal, event, stamp);
            let deed = match removal.step {
                RemovalStepView::File { at, file: FileStepView::Remove { to } } => Some(to),
                RemovalStepView::File { at, file: FileStepView::MoveLink { to, name } } => Some(to),
                RemovalStepView::Dir { at, dir: DirStepView::RemoveAll { target } } => Some(target),
                _ => None,
            };
            let at = removal.trash.len();
            &&& deed matches Some(place) ==> {
                &&& succeeds(event) ==> next.trash == removal.trash.push(deed->0)
                &&& succeeds(event) && at + 1 < targets.len() ==> next.step == (
                RemovalStepView::Begin { at: at + 1 })
                &&& succeeds(event) && at + 1 == targets.len() ==> next.step
                    == RemovalStepView::Done(Ok(()))
            }
            &&& deed is None || !succeeds(event) ==> next.trash == removal.trash && (
            next.step == RemovalStepView::Done(Ok(())) <==> removal.step == RemovalStepView::Done(
                Ok(()),
            ))
            &&& !(next.step matches RemovalStepView::File { at, file: FileStepView::Done(_) })
            &&& !(next.step matches RemovalStepView::Dir { at, dir: DirStepView::Done(_) })
        }),
{
}

/// A file is removed after its copy succeeded, and its place is that of the copy; each
/// failure ends the removal with the error of what failed.
pub proof fn file_steps_follow(
    trash_dir: PathView,
    targets: Seq<ItemView>,
    new_op: bool,
    trash: Seq<PathView>,
    at: nat,
    to: PathView,
    name: Seq<char>,
    event: WalkEvent,
    stamp: i64,
)
    requires
        at < targets.len(),
    ensures
        ({
            let next = |file: FileStepView|
                next_removal(
                    trash_dir,
                    targets,
                    new_op,
                    RemovalView { trash, step: RemovalStepView::File { at, file } },
                    event,
                    stamp,
                );
            let path = targets[at as int].file_path;
            let ends_with = |e: ErrorView|
                RemovalView { trash, step: RemovalStepView::Done(Err(e)) };
            let is_failure = event is Did && !succeeds(event);
            &&& succeeds(event) ==> next(FileStepView::Copy { to, name }) == (RemovalView {
                trash,
                step: RemovalStepView::File { at, file: FileStepView::Remove { to } },
            })
            &&& is_failure ==> next(FileStepView::Copy { to, name }) == ends_with(
                ErrorView::PutItem(path),
            )
            &&& is_failure ==> next(FileStepView::MoveLink { to, name }) == ends_with(
                ErrorView::PutItem(path),
            )
            &&& is_failure ==> next(FileStepView::Remove { to }) == ends_with(
                ErrorView::RemoveItem(path),
            )
            &&& event !is Did ==> next(FileStepView::Copy { to, name }).step == (
            RemovalStepView::File { at, file: FileStepView::Copy { to, name } })
        }),
{
}

/// A directory goes to the trash under the time and the name of the first entry of the walk
/// through it, which is created there; all that the walk comes to goes under it.
pub proof fn directory_gets_its_place(
    trash_dir: PathView,
    targets: Seq<ItemView>,
    new_op: bool,
    trash: Seq<PathView>,
    at: nat,
    tree: TreeView,
    name: Seq<char>,
    entry: WalkEntry,
    stamp: i64,
)
    requires
        at < targets.len(),
    ensures
        ({
            let removal = RemovalView {
                trash,
                step: RemovalStepView::Dir {
                    at,
                    dir: DirStepView::Walk {
                        walk: TreeWalkView::Next { tree, started: false },
                        name,
                    },
                },
            };
            let next = next_removal(
                trash_dir,
                targets,
                new_op,
                removal,
                WalkEvent::Entry(entry),
                stamp,
            );
            let kept = signed_decimal(stamp as int) + seq!['_'] + decode_utf8(entry.name@);
            let target = trash_dir.join_name(kept);
            &&& next.trash == trash
            &&& !valid_utf8(entry.name@) ==> next.step == RemovalStepView::Done(
                Err(ErrorView::Encode),
            )
            &&& valid_utf8(entry.name@) ==> next.step == (RemovalStepView::Dir {
                at,
                dir: DirStepView::Walk {
                    walk: TreeWalkView::CreateRoot {
                        path: trash_dir.join(target),
                        tree: TreeView { root: entry.path@, target },
                    },
                    name: kept,
                },
            })
        }),
{
    trash_name_holds_name(stamp, decode_utf8(entry.name@));
}

/// Moving a directory to the trash follows the walk through it: it is removed only where the
/// walk has ended, and a walk that fails leaves it alone and ends the removal with its error.
/// A directory that cannot be removed is reported.
pub proof fn directory_follows_walk(
    trash_dir: PathView,
    targets: Seq<ItemView>,
    new_op: bool,
    trash: Seq<PathView>,
    at: nat,
    walk: TreeWalkView,
    name: Seq<char>,
    target: PathView,
    event: WalkEvent,
    stamp: i64,
)
    requires
        at < targets.len(),
        !(walk matches TreeWalkView::Next { tree, started: false } && event is Entry),
    ensures
        ({
            let next = |dir: DirStepView|
                next_removal(
                    trash_dir,
                    targets,
                    new_op,
                    RemovalView { trash, step: RemovalStepView::Dir { at, dir } },
                    event,
                    stamp,
                );
            let after = next_walk_step(walk, event);
            let walking = next(DirStepView::Walk { walk, name });
            &&& walking.trash == trash
            &&& after is Ended ==> walking.step == (RemovalStepView::Dir {
                at,
                dir: DirStepView::RemoveAll { target: after->Ended_tree.target },
            })
            &&& after is Failed ==> walking.step == RemovalStepView::Done(Err(after->Failed_0))
            &&& after !is Ended && after !is Failed ==> walking.step == (RemovalStepView::Dir {
                at,
                dir: DirStepView::Walk { walk: after, name },
            })
            &&& event is Did && !succeeds(event) ==> next(DirStepView::RemoveAll { target }) == (
            RemovalView {
                trash,
                step: RemovalStepView::Done(
                    Err(ErrorView::RemoveItem(targets[at as int].file_path)),
                ),
            })
        }),
{
}

/// A removal waits for the answer to what is to be done: anything else that happens changes
/// nothing, and nothing happens when it is over.
pub proof fn removal_waits_for_answer(
    trash_dir: PathView,
    targets: Seq<ItemView>,
    new_op: bool,
    removal: RemovalView,
    event: WalkEvent,
    stamp: i64,
)
    ensures
        ({
            let next = next_removal(trash_dir, targets, new_op, removal, event, stamp);
            &&& removal.step is Begin && event !is Exists ==> next == removal
            &&& removal.step is File && event !is Did ==> next == removal
            &&& (removal.step matches RemovalStepView::Dir {
                at,
                dir: DirStepView::RemoveAll { target },
            }) && event !is Did ==> next == removal
            &&& removal.step is Done ==> next == removal
        }),
{
}

/// What is registered grows by the item when it was copied or moved to the trash, under its
/// place and name there, and at no other time.
pub proof fn registered_when_in_trash(
    registered: Seq<ItemView>,
    targets: Seq<ItemView>,
    removal: RemovalView,
    event: WalkEvent,
)
    ensures
        ({
            let after = registered_next(registered, targets, removal, event);
            match removal.step {
                RemovalStepView::File { at, file: FileStepView::Copy { to, name } }
                | RemovalStepView::File { at, file: FileStepView::MoveLink { to, name } } => {
                    if succeeds(event) {
                        after == registered.push(
                            ItemView {
                                file_path: to,
                                file_name: name,
                                selected: false,
                                ..targets[at as int]
                            },
                        )
                    } else {
                        after == registered
                    }
                },
                RemovalStepView::Dir { at, dir: DirStepView::Walk { walk, name } } => {
                    let walked = next_walk_step(walk, event);
                    if walked is Ended {
                        after == registered.push(
                            ItemView {
                                file_path: walked->Ended_tree.target,
                                file_name: name,
                                selected: false,
                                ..targets[at as int]
                            },
                        )
                    } else {
                        after == registered
                    }
                },
                _ => after == registered,
            }
        }),
{
}

} // verus!
