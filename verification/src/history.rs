//! Undoing and redoing operations.

use crate::draw::{draw, draw_all, draw_views, Draw, DrawView};
use crate::error::{plain_outcome, ErrorView, FxError};
use crate::item::{
    copy_items, is_item_of, is_timely, item_views, make_item, timely_entry, Entry, ItemInfo,
    ItemView,
};
use crate::layout::{Num, BEGINNING_ROW};
use crate::op::{OpKind, OpView};
use crate::order::is_listing;
use crate::path::{copy_paths, path_views, routes, FilePath, PathView};
use crate::state::{are_items_of, are_timely, is_first_error, State};
use crate::view::Screen;
use vstd::prelude::*;
use vstd::string::*;

verus! {

/// What is to be done with the files to undo or redo an operation.
pub enum Plan {
    /// Rename an item.
    Rename { from: FilePath, to: FilePath },
    /// Remove what was put.
    Unput { paths: Vec<FilePath> },
    /// Put back, into a directory, what is in the trash.
    PutBack { trash: Vec<FilePath>, dir: FilePath },
    /// Put items into a directory again.
    PutAgain { items: Vec<ItemInfo>, dir: FilePath },
    /// Remove items again.
    RemoveAgain { items: Vec<ItemInfo> },
}

/// What a plan is.
pub enum PlanView {
    Rename { from: PathView, to: PathView },
    Unput { paths: Seq<PathView> },
    PutBack { trash: Seq<PathView>, dir: PathView },
    PutAgain { items: Seq<ItemView>, dir: PathView },
    RemoveAgain { items: Seq<ItemView> },
}

impl View for Plan {
    type V = PlanView;

    open spec fn view(&self) -> PlanView {
        match self {
            Plan::Rename { from, to } => PlanView::Rename { from: from@, to: to@ },
            Plan::Unput { paths } => PlanView::Unput { paths: path_views(paths@) },
            Plan::PutBack { trash, dir } => PlanView::PutBack {
                trash: path_views(trash@),
                dir: dir@,
            },
            Plan::PutAgain { items, dir } => PlanView::PutAgain {
                items: item_views(items@),
                dir: dir@,
            },
            Plan::RemoveAgain { items } => PlanView::RemoveAgain { items: item_views(items@) },
        }
    }
}

/// How an operation is undone.
pub open spec fn undoing(op: OpView) -> PlanView {
    match op {
        OpView::Rename { original_name, new_name } => PlanView::Rename {
            from: new_name,
            to: original_name,
        },
        OpView::Put { original, put, dir } => PlanView::Unput { paths: put },
        OpView::Delete { trash, original, dir } => PlanView::PutBack { trash, dir },
    }
}

/// How an operation is redone.
pub open spec fn redoing(op: OpView) -> PlanView {
    match op {
        OpView::Rename { original_name, new_name } => PlanView::Rename {
            from: original_name,
            to: new_name,
        },
        OpView::Put { original, put, dir } => PlanView::PutAgain { items: original, dir },
        OpView::Delete { trash, original, dir } => PlanView::RemoveAgain { items: original },
    }
}

/// What is said after an operation was undone.
pub open spec fn undone_message(op: OpView) -> Seq<char> {
    match op {
        OpView::Rename { .. } => "UNDONE: RENAME"@,
        OpView::Put { .. } => "UNDONE: PUT"@,
        OpView::Delete { .. } => "UNDONE: DELETE"@,
    }
}

/// What is said after an operation was redone.
pub open spec fn redone_message(op: OpView) -> Seq<char> {
    match op {
        OpView::Rename { .. } => "REDONE: RENAME"@,
        OpView::Put { .. } => "REDONE: PUT"@,
        OpView::Delete { .. } => "REDONE DELETE"@,
    }
}

/// Plans how to undo an operation.
pub fn undo_plan(op: &OpKind) -> (plan: Plan)
    ensures
        plan@ == undoing(op@),
{
    match op {
        OpKind::Rename(op) => Plan::Rename {
            from: op.new_name.clone(),
            to: op.original_name.clone(),
        },
        OpKind::Put(op) => Plan::Unput { paths: copy_paths(&op.put) },
        OpKind::Delete(op) => Plan::PutBack { trash: copy_paths(&op.trash), dir: op.dir.clone() },
    }
}

/// Plans how to redo an operation.
pub fn redo_plan(op: &OpKind) -> (plan: Plan)
    ensures
        plan@ == redoing(op@),
{
    match op {
        OpKind::Rename(op) => Plan::Rename {
            from: op.original_name.clone(),
            to: op.new_name.clone(),
        },
        OpKind::Put(op) => Plan::PutAgain {
            items: copy_items(op.original.as_slice()),
            dir: op.dir.clone(),
        },
        OpKind::Delete(op) => Plan::RemoveAgain { items: copy_items(op.original.as_slice()) },
    }
}

/// How a path that was put is removed.
#[derive(Debug, PartialEq, Eq)]
pub enum Unput {
    /// With all that is in it.
    DirAll(FilePath),
    File(FilePath),
}

/// What is to be done next to remove what was put.
#[derive(Debug, PartialEq, Eq)]
pub enum UnputStep {
    /// Find out whether the path at `at` is a directory.
    Check { at: usize },
    /// Remove the path at `at`.
    Remove { at: usize, removal: Unput },
    /// Nothing any more.
    Done(Result<(), FxError>),
}

/// What happened when a step was done.
pub enum UnputEvent {
    /// The path is a directory or is none.
    IsDir(bool),
    /// The path was removed, or could not be.
    Did(Result<(), FxError>),
}

/// What a step is.
pub enum UnputView {
    Check { at: nat },
    Remove { at: nat, path: PathView, is_dir: bool },
    Done(Result<(), ErrorView>),
}

impl View for UnputStep {
    type V = UnputView;

    open spec fn view(&self) -> UnputView {
        match self {
            UnputStep::Check { at } => UnputView::Check { at: *at as nat },
            UnputStep::Remove { at, removal: Unput::DirAll(path) } => UnputView::Remove {
                at: *at as nat,
                path: path@,
                is_dir: true,
            },
            UnputStep::Remove { at, removal: Unput::File(path) } => UnputView::Remove {
                at: *at as nat,
                path: path@,
                is_dir: false,
            },
            UnputStep::Done(outcome) => UnputView::Done(plain_outcome(*outcome)),
        }
    }
}

impl UnputView {
    /// The step is about one of `count` paths, or the last one.
    pub open spec fn well_formed(self, count: nat) -> bool {
        match self {
            UnputView::Check { at } => at < count,
            UnputView::Remove { at, path, is_dir } => at < count,
            UnputView::Done(_) => true,
        }
    }
}

/// The step that comes to the path at `at` of `count`.
pub open spec fn unput_at(count: nat, at: nat) -> UnputView {
    if at < count {
        UnputView::Check { at }
    } else {
        UnputView::Done(Ok(()))
    }
}

/// The step behind another. One path after the other is removed, and the first error ends
/// it. An event that does not answer the step changes nothing.
pub open spec fn next_unput(paths: Seq<PathView>, step: UnputView, event: UnputEvent) -> UnputView {
    match (step, event) {
        (UnputView::Check { at }, UnputEvent::IsDir(is_dir)) => UnputView::Remove {
            at,
            path: paths[at as int],
            is_dir,
        },
        (UnputView::Remove { at, path, is_dir }, UnputEvent::Did(outcome)) => match outcome {
            Ok(()) => unput_at(paths.len(), at + 1),
            Err(e) => UnputView::Done(Err(e@)),
        },
        _ => step,
    }
}

/// Begins to remove what was put.
pub fn begin_unput(paths: &[FilePath]) -> (step: UnputStep)
    ensures
        step@ == unput_at(paths@.len(), 0),
        step@.well_formed(paths@.len()),
{
    if paths.len() > 0 {
        UnputStep::Check { at: 0 }
    } else {
        UnputStep::Done(Ok(()))
    }
}

/// Goes on after what happened.
pub fn unput_next(paths: &[FilePath], step: UnputStep, event: UnputEvent) -> (next: UnputStep)
    requires
        step@.well_formed(paths@.len()),
    ensures
        next@ == next_unput(path_views(paths@), step@, event),
        next@.well_formed(paths@.len()),
{
    match (step, event) {
        (UnputStep::Check { at }, UnputEvent::IsDir(is_dir)) => {
            assert(path_views(paths@)[at as int] == paths@[at as int]@);
            let path = paths[at].clone();
            UnputStep::Remove {
                at,
                removal: if is_dir {
                    Unput::DirAll(path)
                } else {
                    Unput::File(path)
                },
            }
        },
        (UnputStep::Remove { at, removal: _ }, UnputEvent::Did(outcome)) => match outcome {
            Ok(()) => if at < paths.len() - 1 {
                UnputStep::Check { at: at + 1 }
            } else {
                UnputStep::Done(Ok(()))
            },
            Err(e) => UnputStep::Done(Err(e)),
        },
        (step, _) => step,
    }
}

/// The entries whose paths are wanted, up to the one with which as many are found as are
/// wanted. An entry before that which cannot be read is an error.
pub open spec fn wanted_entries(
    entries: Seq<Result<Entry, FxError>>,
    wanted: Seq<PathView>,
    found: nat,
) -> Result<Seq<Entry>, FxError>
    decreases entries.len(),
{
    if entries.len() == 0 {
        Ok(Seq::empty())
    } else {
        match entries.first() {
            Err(e) => Err(e),
            Ok(entry) => if !routes(wanted).contains(entry.path@.route()) {
                wanted_entries(entries.drop_first(), wanted, found)
            } else if found + 1 == wanted.len() {
                Ok(seq![entry])
            } else {
                match wanted_entries(entries.drop_first(), wanted, found + 1) {
                    Ok(rest) => Ok(seq![entry] + rest),
                    Err(e) => Err(e),
                }
            },
        }
    }
}

/// The entries of which items are made on the way: those whose paths are wanted, up to the
/// one with which as many are found as are wanted, or up to the first one that cannot be
/// read.
pub open spec fn made_entries(
    entries: Seq<Result<Entry, FxError>>,
    wanted: Seq<PathView>,
    found: nat,
) -> Seq<Entry>
    decreases entries.len(),
{
    if entries.len() == 0 {
        Seq::empty()
    } else {
        match entries.first() {
            Err(_) => Seq::empty(),
            Ok(entry) => if !routes(wanted).contains(entry.path@.route()) {
                made_entries(entries.drop_first(), wanted, found)
            } else if found + 1 == wanted.len() {
                seq![entry]
            } else {
                seq![entry] + made_entries(entries.drop_first(), wanted, found + 1)
            },
        }
    }
}

/// The times of all entries of which items are made can be written out.
pub open spec fn are_made_timely(
    entries: Seq<Result<Entry, FxError>>,
    wanted: Seq<PathView>,
) -> bool {
    forall|k: int|
        0 <= k < made_entries(entries, wanted, 0).len() ==> is_timely(
            #[trigger] made_entries(entries, wanted, 0)[k],
        )
}

/// The items of the entries of the trash whose paths are wanted.
pub fn trash_to_info(entries: Vec<Result<Entry, FxError>>, wanted: &[FilePath]) -> (result: Result<
    Vec<ItemInfo>,
    FxError,
>)
    requires
        are_made_timely(entries@, path_views(wanted@)),
    ensures
        match (result, wanted_entries(entries@, path_views(wanted@), 0)) {
            (Ok(items), Ok(found)) => items@.len() == found.len() && forall|k: int|
                0 <= k < found.len() ==> is_item_of(#[trigger] items@[k]@, found[k]),
            (Err(e), Err(first)) => e == first,
            _ => false,
        },
{
    let ghost paths = path_views(wanted@);
    let ghost made = made_entries(entries@, paths, 0);
    let mut items: Vec<ItemInfo> = Vec::new();
    let ghost mut taken: Seq<Entry> = Seq::empty();
    let mut count: usize = 0;
    assert(entries@.skip(0) == entries@);
    assert(entries@.len() == entries.len());
    assert(taken + made == made);
    for entry in it: entries
        invariant
            it.seq() == entries@,
            paths == path_views(wanted@),
            forall|k: int| 0 <= k < made.len() ==> is_timely(#[trigger] made[k]),
            items@.len() == taken.len(),
            count == taken.len(),
            count <= it.index(),
            it.index() <= entries@.len() <= usize::MAX,
            forall|k: int| 0 <= k < taken.len() ==> is_item_of(#[trigger] items@[k]@, taken[k]),
            made == taken + made_entries(entries@.skip(it.index()), paths, count as nat),
            wanted_entries(entries@, paths, 0) == match wanted_entries(
                entries@.skip(it.index()),
                paths,
                count as nat,
            ) {
                Ok(rest) => Ok(taken + rest),
                Err(e) => Err(e),
            },
    {
        assert(entries@.skip(it.index()).drop_first() == entries@.skip(it.index() + 1));
        assert(entries@.skip(it.index()).first() == entries@[it.index()]);
        match entry {
            Err(e) => {
                return Err(e);
            },
            Ok(entry) => {
                if contains_path(wanted, &entry.path) {
                    assert(made[taken.len() as int] == entry);
                    items.push(make_item(&entry));
                    let ghost before = taken;
                    proof {
                        taken = taken.push(entry);
                        assert forall|rest: Seq<Entry>| #[trigger]
                            (before + (seq![entry] + rest)) == taken + rest by {}
                    }
                    count += 1;
                    if count == wanted.len() {
                        assert(before + seq![entry] == taken);
                        return Ok(items);
                    }
                }
            },
        }
    }
    assert(entries@.skip(entries@.len() as int) == Seq::<Result<Entry, FxError>>::empty());
    assert(taken + Seq::empty() == taken);
    Ok(items)
}

/// Whether the times of all entries of which items are made can be written out.
pub fn made_timely(entries: &Vec<Result<Entry, FxError>>, wanted: &[FilePath]) -> (fits: bool)
    ensures
        fits == are_made_timely(entries@, path_views(wanted@)),
{
    let ghost paths = path_views(wanted@);
    let ghost made = made_entries(entries@, paths, 0);
    let ghost mut taken: Seq<Entry> = Seq::empty();
    let mut count: usize = 0;
    let mut at: usize = 0;
    assert(entries@.skip(0) == entries@);
    assert(taken + made == made);
    while at < entries.len()
        invariant
            paths == path_views(wanted@),
            made == made_entries(entries@, paths, 0),
            at <= entries@.len(),
            count == taken.len(),
            count <= at,
            forall|k: int| 0 <= k < taken.len() ==> is_timely(#[trigger] taken[k]),
            made == taken + made_entries(entries@.skip(at as int), paths, count as nat),
        decreases entries@.len() - at,
    {
        assert(entries@.skip(at as int).drop_first() == entries@.skip(at + 1));
        assert(entries@.skip(at as int).first() == entries@[at as int]);
        match &entries[at] {
            Err(_) => {
                assert(made == taken);
                return true;
            },
            Ok(entry) => {
                if contains_path(wanted, &entry.path) {
                    assert(made[taken.len() as int] == entry);
                    if !timely_entry(entry) {
                        return false;
                    }
                    let ghost before = taken;
                    proof {
                        taken = taken.push(*entry);
                        assert forall|rest: Seq<Entry>| #[trigger]
                            (before + (seq![*entry] + rest)) == taken + rest by {}
                    }
                    count += 1;
                    if count == wanted.len() {
                        assert(before + seq![*entry] == taken);
                        return true;
                    }
                }
            },
        }
        at += 1;
    }
    assert(entries@.skip(entries@.len() as int) == Seq::<Result<Entry, FxError>>::empty());
    assert(made == taken);
    true
}

/// Whether a path is among others.
fn contains_path(paths: &[FilePath], path: &FilePath) -> (found: bool)
    ensures
        found == routes(path_views(paths@)).contains(path@.route()),
{
    let mut at: usize = 0;
    while at < paths.len()
        invariant
            at <= paths@.len(),
            forall|k: int| 0 <= k < at ==> !(#[trigger] paths@[k]@).same_as(path@),
        decreases paths@.len() - at,
    {
        if paths[at].same(path) {
            assert(routes(path_views(paths@))[at as int] == path@.route());
            return true;
        }
        at += 1;
    }
    false
}

impl State {
    /// The steps that draw the screen with a message.
    pub open spec fn message_steps(self, screen: Screen, nums: Num, message: Seq<char>) -> Seq<
        DrawView,
    > {
        self.headline_steps(screen.head) + self.list_steps(screen.widths, nums.skip) + seq![
            DrawView::Info { message, y: BEGINNING_ROW },
        ]
    }

    /// Lists the entries of the current directory anew and draws the screen with a message.
    fn show_message(
        &mut self,
        entries: Vec<Result<Entry, FxError>>,
        nums: &Num,
        screen: &Screen,
        message: String,
    ) -> (result: Result<Vec<Draw>, FxError>)
        requires
            are_timely(entries@),
            old(self).entries_fit(entries@, screen.widths, nums.skip),
        ensures
            result matches Err(e) ==> *final(self) == *old(self) && exists|at: int|
                is_first_error(entries@, at, e),
            result matches Ok(steps) ==> {
                &&& exists|items: Seq<ItemView>| #[trigger]
                    are_items_of(items, entries@) && is_listing(
                        item_views(final(self).list@),
                        items,
                        old(self).sort_by,
                        old(self).show_hidden,
                    )
                &&& *final(self) == (State { list: final(self).list, ..*old(self) })
                &&& draw_views(steps@) == final(self).message_steps(*screen, *nums, message@)
            },
    {
        match self.update_list(entries) {
            Ok(()) => {},
            Err(e) => {
                return Err(e);
            },
        }
        let mut steps = self.clear_and_show_headline(&screen.head);
        let rows = self.list_up(nums.skip, &screen.widths);
        draw_all(&mut steps, rows);
        draw(&mut steps, Draw::Info { message, y: BEGINNING_ROW });
        assert(draw_views(steps@) == self.message_steps(*screen, *nums, message@));
        Ok(steps)
    }

    /// Steps back in the history after the plan that undoes an operation was carried out,
    /// or failed: `done`. The entries of the current directory are then listed anew.
    pub fn undo(
        &mut self,
        nums: &Num,
        op: &OpKind,
        done: Result<(), FxError>,
        entries: Vec<Result<Entry, FxError>>,
        screen: &Screen,
    ) -> (result: Result<Vec<Draw>, FxError>)
        requires
            done is Ok ==> {
                &&& old(self).operations.pos < usize::MAX
                &&& are_timely(entries@)
                &&& old(self).entries_fit(entries@, screen.widths, nums.skip)
            },
        ensures
            done matches Err(e) ==> result == Err::<Vec<Draw>, FxError>(e)
                && *final(self) == *old(self),
            done is Ok ==> final(self).operations.pos == old(self).operations.pos + 1
                && final(self).operations.op_list == old(self).operations.op_list
                && listed_anew(*old(self), *final(self), result, entries@)
                && (result matches Ok(steps) ==> draw_views(steps@) == final(self).message_steps(
                *screen,
                *nums,
                undone_message(op@),
            )),
    {
        match done {
            Ok(()) => {},
            Err(e) => {
                return Err(e);
            },
        }
        let message = match op {
            OpKind::Rename(_) => String::from_str("UNDONE: RENAME"),
            OpKind::Put(_) => String::from_str("UNDONE: PUT"),
            OpKind::Delete(_) => String::from_str("UNDONE: DELETE"),
        };
        self.operations.pos += 1;
        self.show_message(entries, nums, screen, message)
    }

    /// Steps forward in the history after the plan that redoes an operation was carried
    /// out, or failed: `done`. The entries of the current directory are then listed anew.
    pub fn redo(
        &mut self,
        nums: &Num,
        op: &OpKind,
        done: Result<(), FxError>,
        entries: Vec<Result<Entry, FxError>>,
        screen: &Screen,
    ) -> (result: Result<Vec<Draw>, FxError>)
        requires
            done is Ok ==> {
                &&& old(self).operations.pos > 0
                &&& are_timely(entries@)
                &&& old(self).entries_fit(entries@, screen.widths, nums.skip)
            },
        ensures
            done matches Err(e) ==> result == Err::<Vec<Draw>, FxError>(e)
                && *final(self) == *old(self),
            done is Ok ==> final(self).operations.pos == old(self).operations.pos - 1
                && final(self).operations.op_list == old(self).operations.op_list
                && listed_anew(*old(self), *final(self), result, entries@)
                && (result matches Ok(steps) ==> draw_views(steps@) == final(self).message_steps(
                *screen,
                *nums,
                redone_message(op@),
            )),
    {
        match done {
            Ok(()) => {},
            Err(e) => {
                return Err(e);
            },
        }
        let message = match op {
            OpKind::Rename(_) => String::from_str("REDONE: RENAME"),
            OpKind::Put(_) => String::from_str("REDONE: PUT"),
            OpKind::Delete(_) => String::from_str("REDONE DELETE"),
        };
        self.operations.pos -= 1;
        self.show_message(entries, nums, screen, message)
    }
}

/// The entries of the current directory were listed, and nothing but the history changed
/// otherwise; or one of them could not be read, and the listing is as it was.
pub open spec fn listed_anew(
    before: State,
    after: State,
    result: Result<Vec<Draw>, FxError>,
    entries: Seq<Result<Entry, FxError>>,
) -> bool {
    match result {
        Ok(_) => {
            &&& exists|items: Seq<ItemView>| #[trigger]
                are_items_of(items, entries) && is_listing(
                    item_views(after.list@),
                    items,
                    before.sort_by,
                    before.show_hidden,
                )
            &&& after == (State { list: after.list, operations: after.operations, ..before })
        },
        Err(e) => {
            &&& exists|at: int| is_first_error(entries, at, e)
            &&& after == (State { operations: after.operations, ..before })
        },
    }
}

} // verus!
