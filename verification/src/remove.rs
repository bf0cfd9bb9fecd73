//! Moving items to the trash.

use crate::clock::now;
use crate::error::{path_outcome, plain_outcome, ErrorView, FxError};
use crate::item::{copy_items, item_views, FileType, ItemInfo, ItemView};
use crate::op::{DeletedFiles, OpKind, OpView, Operation};
use crate::path::{copy_paths, empty_path, path_views, FilePath, PathView};
use crate::state::{moved, State};
use crate::text::{signed_decimal, signed_decimal_text, utf8_text};
use crate::tree::{
    first_walk_step, next_walk_step, TreeCopy, TreeView, TreeWalk, TreeWalkView, WalkEntry, WalkEvent,
};
use vstd::prelude::*;
use vstd::string::*;
use vstd::utf8::{decode_utf8, valid_utf8};

verus! {

/// The name of an item in the trash: when it went there, and its name.
pub open spec fn trash_name(stamp: i64, name: Seq<char>) -> Seq<char> {
    signed_decimal(stamp as int) + "_"@ + name
}

/// The name in the trash of an item that goes there at a time.
pub fn trash_name_at(stamp: i64, name: &str) -> (text: String)
    ensures
        text@ == trash_name(stamp, name@),
{
    let mut rename = signed_decimal_text(stamp);
    rename.append("_");
    rename.append(name);
    rename
}

/// What is to be done next to move a file to the trash.
pub enum FileStep {
    /// Move the item, a link that leads nowhere, to the trash, where it has another name.
    MoveLink { to: FilePath, name: String },
    /// Copy the item to the trash, where it has another name.
    Copy { to: FilePath, name: String },
    /// Remove the item, which is at `to` in the trash.
    Remove { to: FilePath },
    /// Nothing any more.
    Done(Result<FilePath, FxError>),
}

/// What a step is.
pub enum FileStepView {
    MoveLink { to: PathView, name: Seq<char> },
    Copy { to: PathView, name: Seq<char> },
    Remove { to: PathView },
    Done(Result<PathView, ErrorView>),
}

impl View for FileStep {
    type V = FileStepView;

    open spec fn view(&self) -> FileStepView {
        match self {
            FileStep::MoveLink { to, name } => FileStepView::MoveLink { to: to@, name: name@ },
            FileStep::Copy { to, name } => FileStepView::Copy { to: to@, name: name@ },
            FileStep::Remove { to } => FileStepView::Remove { to: to@ },
            FileStep::Done(outcome) => FileStepView::Done(path_outcome(*outcome)),
        }
    }
}

/// The first step to move a file to the trash. A link that leads nowhere cannot be copied,
/// and is moved itself. An operation that is done again needs no new copy.
pub open spec fn first_file_step(
    trash_dir: PathView,
    item: ItemView,
    new_op: bool,
    exists: bool,
    stamp: i64,
) -> FileStepView {
    if new_op {
        let name = trash_name(stamp, item.file_name);
        let to = trash_dir.join_name(name);
        if item.file_type == FileType::Symlink && !exists {
            FileStepView::MoveLink { to, name }
        } else {
            FileStepView::Copy { to, name }
        }
    } else {
        FileStepView::Remove { to: empty_path() }
    }
}

/// The step behind another that was done or failed.
pub open spec fn next_file_step(step: FileStepView, item: ItemView, ok: bool) -> FileStepView {
    match step {
        FileStepView::MoveLink { to, name } => if ok {
            FileStepView::Done(Ok(to))
        } else {
            FileStepView::Done(Err(ErrorView::PutItem(item.file_path)))
        },
        FileStepView::Copy { to, name } => if ok {
            FileStepView::Remove { to }
        } else {
            FileStepView::Done(Err(ErrorView::PutItem(item.file_path)))
        },
        FileStepView::Remove { to } => if ok {
            FileStepView::Done(Ok(to))
        } else {
            FileStepView::Done(Err(ErrorView::RemoveItem(item.file_path)))
        },
        FileStepView::Done(outcome) => step,
    }
}

/// What is registered after a step: an item that was copied or moved to the trash is added.
pub open spec fn registered_after(
    registered: Seq<ItemView>,
    step: FileStepView,
    item: ItemView,
    ok: bool,
) -> Seq<ItemView> {
    match step {
        FileStepView::MoveLink { to, name } | FileStepView::Copy { to, name } => if ok {
            registered.push(moved(item, to, name))
        } else {
            registered
        },
        _ => registered,
    }
}

/// What is to be done next to move a directory to the trash.
pub enum DirStep {
    /// Copy the directory to the trash, where it has another name.
    Walk { walk: TreeWalk, name: String },
    /// Remove the directory and all that is in it. Its copy is at `target`.
    RemoveAll { target: FilePath },
    /// Nothing any more.
    Done(Result<FilePath, FxError>),
}

/// What a step is.
pub enum DirStepView {
    Walk { walk: TreeWalkView, name: Seq<char> },
    RemoveAll { target: PathView },
    Done(Result<PathView, ErrorView>),
}

impl View for DirStep {
    type V = DirStepView;

    open spec fn view(&self) -> DirStepView {
        match self {
            DirStep::Walk { walk, name } => DirStepView::Walk { walk: walk@, name: name@ },
            DirStep::RemoveAll { target } => DirStepView::RemoveAll { target: target@ },
            DirStep::Done(outcome) => DirStepView::Done(path_outcome(*outcome)),
        }
    }
}

/// The first step to move a directory to the trash. An operation that is done again needs
/// no new copy.
pub open spec fn first_dir_step(new_op: bool) -> DirStepView {
    if new_op {
        DirStepView::Walk { walk: first_walk_step(), name: Seq::empty() }
    } else {
        DirStepView::RemoveAll { target: empty_path() }
    }
}

/// The step behind the first entry of the walk, which is the directory itself. It goes to
/// the trash at a time.
pub open spec fn root_dir_step(trash_dir: PathView, entry: WalkEntry, stamp: i64) -> DirStepView {
    if valid_utf8(entry.name@) {
        let name = trash_name(stamp, decode_utf8(entry.name@));
        let target = trash_dir.join_name(name);
        DirStepView::Walk {
            walk: TreeWalkView::CreateRoot {
                path: trash_dir.join(target),
                tree: TreeView { root: entry.path@, target },
            },
            name,
        }
    } else {
        DirStepView::Done(Err(ErrorView::Encode))
    }
}

/// The step behind another.
pub open spec fn next_dir_step(
    trash_dir: PathView,
    item: ItemView,
    step: DirStepView,
    event: WalkEvent,
    stamp: i64,
) -> DirStepView {
    match step {
        DirStepView::Walk { walk, name } => match (walk, event) {
            (TreeWalkView::Next { tree, started: false }, WalkEvent::Entry(entry)) => root_dir_step(
                trash_dir,
                entry,
                stamp,
            ),
            _ => match next_walk_step(walk, event) {
                TreeWalkView::Ended { tree } => DirStepView::RemoveAll { target: tree.target },
                TreeWalkView::Failed(e) => DirStepView::Done(Err(e)),
                walk => DirStepView::Walk { walk, name },
            },
        },
        DirStepView::RemoveAll { target } => match event {
            WalkEvent::Did(Ok(())) => DirStepView::Done(Ok(target)),
            WalkEvent::Did(Err(_)) => DirStepView::Done(Err(ErrorView::RemoveItem(item.file_path))),
            _ => step,
        },
        DirStepView::Done(outcome) => step,
    }
}

/// What is registered after a step: a directory that was copied to the trash is added.
pub open spec fn registered_after_dir(
    registered: Seq<ItemView>,
    step: DirStepView,
    item: ItemView,
    event: WalkEvent,
) -> Seq<ItemView> {
    match step {
        DirStepView::Walk { walk, name } => match next_walk_step(walk, event) {
            TreeWalkView::Ended { tree } => registered.push(moved(item, tree.target, name)),
            _ => registered,
        },
        _ => registered,
    }
}

/// The history `after` is `before` without what was undone, and with one more operation.
pub open spec fn records(before: Operation, after: Operation, op: OpView) -> bool {
    &&& after.pos == 0
    &&& after.op_list@.len() == before.done().len() + 1
    &&& after.op_list@.drop_last() == before.done()
    &&& after.op_list@.last()@ == op
}

/// What is to be done next to move items to the trash.
pub enum RemovalStep {
    /// Tell of the item at `at`, and find out whether its path, links followed, leads
    /// anywhere.
    Begin { at: usize },
    /// Do the step about the file or link at `at`.
    File { at: usize, file: FileStep },
    /// Do the step about the directory at `at`.
    Dir { at: usize, dir: DirStep },
    /// Nothing any more.
    Done(Result<(), FxError>),
}

/// Items that are being moved to the trash, one by one.
pub struct Removal {
    /// Where those are that are done with.
    pub trash: Vec<FilePath>,
    pub step: RemovalStep,
}

/// What a step is.
pub enum RemovalStepView {
    Begin { at: nat },
    File { at: nat, file: FileStepView },
    Dir { at: nat, dir: DirStepView },
    Done(Result<(), ErrorView>),
}

/// What a removal is.
#[verifier::ext_equal]
pub struct RemovalView {
    pub trash: Seq<PathView>,
    pub step: RemovalStepView,
}

impl View for RemovalStep {
    type V = RemovalStepView;

    open spec fn view(&self) -> RemovalStepView {
        match self {
            RemovalStep::Begin { at } => RemovalStepView::Begin { at: *at as nat },
            RemovalStep::File { at, file } => RemovalStepView::File { at: *at as nat, file: file@ },
            RemovalStep::Dir { at, dir } => RemovalStepView::Dir { at: *at as nat, dir: dir@ },
            RemovalStep::Done(outcome) => RemovalStepView::Done(plain_outcome(*outcome)),
        }
    }
}

impl View for Removal {
    type V = RemovalView;

    open spec fn view(&self) -> RemovalView {
        RemovalView { trash: path_views(self.trash@), step: self.step@ }
    }
}

impl RemovalView {
    /// Of `count` items, one after the other is done with, and each of these has its place
    /// in the trash.
    pub open spec fn well_formed(self, count: nat) -> bool {
        match self.step {
            RemovalStepView::Begin { at } => self.trash.len() == at && at < count,
            RemovalStepView::File { at, file } => self.trash.len() == at && at < count,
            RemovalStepView::Dir { at, dir } => self.trash.len() == at && at < count,
            RemovalStepView::Done(Ok(())) => self.trash.len() == count,
            RemovalStepView::Done(Err(_)) => self.trash.len() < count,
        }
    }
}

/// The removal of `count` items of which so many are done with.
pub open spec fn removal_at(count: nat, trash: Seq<PathView>) -> RemovalView {
    RemovalView {
        trash,
        step: if trash.len() < count {
            RemovalStepView::Begin { at: trash.len() }
        } else {
            RemovalStepView::Done(Ok(()))
        },
    }
}

/// The removal after what came of an item. The first error ends it.
pub open spec fn removal_after(
    count: nat,
    trash: Seq<PathView>,
    outcome: Result<PathView, ErrorView>,
) -> RemovalView {
    match outcome {
        Ok(path) => removal_at(count, trash.push(path)),
        Err(e) => RemovalView { trash, step: RemovalStepView::Done(Err(e)) },
    }
}

/// The removal after what happened. An event that does not answer the step changes
/// nothing. What goes to the trash now goes there at the time `stamp`.
pub open spec fn next_removal(
    trash_dir: PathView,
    targets: Seq<ItemView>,
    new_op: bool,
    removal: RemovalView,
    event: WalkEvent,
    stamp: i64,
) -> RemovalView {
    let trash = removal.trash;
    match removal.step {
        RemovalStepView::Begin { at } => match event {
            WalkEvent::Exists(exists) => if targets[at as int].file_type == FileType::Directory {
                RemovalView {
                    trash,
                    step: RemovalStepView::Dir { at, dir: first_dir_step(new_op) },
                }
            } else {
                let file = first_file_step(trash_dir, targets[at as int], new_op, exists, stamp);
                RemovalView { trash, step: RemovalStepView::File { at, file } }
            },
            _ => removal,
        },
        RemovalStepView::File { at, file } => match event {
            WalkEvent::Did(outcome) => match next_file_step(
                file,
                targets[at as int],
                outcome is Ok,
            ) {
                FileStepView::Done(outcome) => removal_after(targets.len(), trash, outcome),
                file => RemovalView { trash, step: RemovalStepView::File { at, file } },
            },
            _ => removal,
        },
        RemovalStepView::Dir { at, dir } => match next_dir_step(
            trash_dir,
            targets[at as int],
            dir,
            event,
            stamp,
        ) {
            DirStepView::Done(outcome) => removal_after(targets.len(), trash, outcome),
            dir => RemovalView { trash, step: RemovalStepView::Dir { at, dir } },
        },
        RemovalStepView::Done(_) => removal,
    }
}

/// What is registered after what happened: what was copied to the trash is added.
pub open spec fn registered_next(
    registered: Seq<ItemView>,
    targets: Seq<ItemView>,
    removal: RemovalView,
    event: WalkEvent,
) -> Seq<ItemView> {
    match removal.step {
        RemovalStepView::File { at, file } => match event {
            WalkEvent::Did(outcome) => registered_after(
                registered,
                file,
                targets[at as int],
                outcome is Ok,
            ),
            _ => registered,
        },
        RemovalStepView::Dir { at, dir } => registered_after_dir(
            registered,
            dir,
            targets[at as int],
            event,
        ),
        _ => registered,
    }
}

/// The history after a removal has come to `now`: where it has just ended without an
/// error, a new operation is recorded.
pub open spec fn removal_recorded(
    old_state: State,
    operations: Operation,
    targets: Seq<ItemView>,
    new_op: bool,
    ended_before: bool,
    now: RemovalView,
) -> bool {
    if new_op && !ended_before && now.step == RemovalStepView::Done(Ok(())) {
        records(
            old_state.operations,
            operations,
            OpView::Delete { trash: now.trash, original: targets, dir: old_state.current_dir@ },
        )
    } else {
        operations == old_state.operations
    }
}

impl State {
    /// Begins to move a file to the trash at a time. `exists` tells whether the path of
    /// the item, links followed, leads anywhere.
    pub fn remove_and_yank_file(
        &self,
        item: &ItemInfo,
        new_op: bool,
        exists: bool,
        stamp: i64,
    ) -> (step: FileStep)
        ensures
            step@ == first_file_step(self.trash_dir@, item@, new_op, exists, stamp),
    {
        if new_op {
            let name = trash_name_at(stamp, item.file_name.as_str());
            let to = self.trash_dir.join_name(name.as_str());
            if item.file_type == FileType::Symlink && !exists {
                FileStep::MoveLink { to, name }
            } else {
                FileStep::Copy { to, name }
            }
        } else {
            FileStep::Remove { to: FilePath::new() }
        }
    }

    /// Goes on after a step was done or failed.
    pub fn file_removal_next(&mut self, item: &ItemInfo, step: FileStep, ok: bool) -> (next:
        FileStep)
        ensures
            next@ == next_file_step(step@, item@, ok),
            item_views(final(self).registered@) == registered_after(
                item_views(old(self).registered@),
                step@,
                item@,
                ok,
            ),
            *final(self) == (State { registered: final(self).registered, ..*old(self) }),
    {
        match step {
            FileStep::MoveLink { to, name } => if ok {
                self.push_to_registered(item, to.clone(), name);
                FileStep::Done(Ok(to))
            } else {
                FileStep::Done(Err(FxError::PutItem(item.file_path.clone())))
            },
            FileStep::Copy { to, name } => if ok {
                self.push_to_registered(item, to.clone(), name);
                FileStep::Remove { to }
            } else {
                FileStep::Done(Err(FxError::PutItem(item.file_path.clone())))
            },
            FileStep::Remove { to } => if ok {
                FileStep::Done(Ok(to))
            } else {
                FileStep::Done(Err(FxError::RemoveItem(item.file_path.clone())))
            },
            FileStep::Done(outcome) => FileStep::Done(outcome),
        }
    }

    /// Begins to move a directory to the trash.
    pub fn remove_and_yank_dir(&self, new_op: bool) -> (step: DirStep)
        ensures
            step@ == first_dir_step(new_op),
    {
        if new_op {
            DirStep::Walk { walk: TreeWalk::new(), name: String::new() }
        } else {
            DirStep::RemoveAll { target: FilePath::new() }
        }
    }

    /// The step behind the first entry of the walk.
    fn dir_removal_root(&self, entry: &WalkEntry, stamp: i64) -> (step: DirStep)
        ensures
            step@ == root_dir_step(self.trash_dir@, *entry, stamp),
    {
        match utf8_text(entry.name.as_slice()) {
            None => DirStep::Done(Err(FxError::Encode)),
            Some(text) => {
                let name = trash_name_at(stamp, text.as_str());
                let target = self.trash_dir.join_name(name.as_str());
                let path = self.trash_dir.join(&target);
                let tree = TreeCopy { root: entry.path.clone(), target };
                DirStep::Walk { walk: TreeWalk::CreateRoot { path, tree }, name }
            },
        }
    }

    /// Goes on after what happened. If the directory only now gets its name in the trash,
    /// it goes there at the time `stamp`.
    pub fn dir_removal_next(
        &mut self,
        item: &ItemInfo,
        step: DirStep,
        event: WalkEvent,
        stamp: i64,
    ) -> (next: DirStep)
        ensures
            next@ == next_dir_step(old(self).trash_dir@, item@, step@, event, stamp),
            item_views(final(self).registered@) == registered_after_dir(
                item_views(old(self).registered@),
                step@,
                item@,
                event,
            ),
            *final(self) == (State { registered: final(self).registered, ..*old(self) }),
    {
        match step {
            DirStep::Walk { walk, name } => match (walk, event) {
                (
                    TreeWalk::Next { tree: _, started: false },
                    WalkEvent::Entry(entry),
                ) => self.dir_removal_root(&entry, stamp),
                (walk, event) => match walk.next(event) {
                    TreeWalk::Ended { tree } => {
                        self.push_to_registered(item, tree.target.clone(), name);
                        DirStep::RemoveAll { target: tree.target }
                    },
                    TreeWalk::Failed(e) => DirStep::Done(Err(e)),
                    walk => DirStep::Walk { walk, name },
                },
            },
            DirStep::RemoveAll { target } => match event {
                WalkEvent::Did(Ok(())) => DirStep::Done(Ok(target)),
                WalkEvent::Did(Err(_)) => DirStep::Done(
                    Err(FxError::RemoveItem(item.file_path.clone())),
                ),
                _ => DirStep::RemoveAll { target },
            },
            DirStep::Done(outcome) => DirStep::Done(outcome),
        }
    }

    /// Records a deletion.
    fn record_deletion(&mut self, targets: &[ItemInfo], trash: &Vec<FilePath>)
        requires
            old(self).operations.well_formed(),
        ensures
            records(
                old(self).operations,
                final(self).operations,
                OpView::Delete {
                    trash: path_views(trash@),
                    original: item_views(targets@),
                    dir: old(self).current_dir@,
                },
            ),
            *final(self) == (State { operations: final(self).operations, ..*old(self) }),
    {
        self.operations.branch();
        self.operations.push(
            OpKind::Delete(
                DeletedFiles {
                    trash: copy_paths(trash),
                    original: copy_items(targets),
                    dir: self.current_dir.clone(),
                },
            ),
        );
        assert(self.operations.op_list@.drop_last() == old(self).operations.done());
    }

    /// Goes on with the next item, or ends and records a new operation.
    fn removal_continues(&mut self, targets: &[ItemInfo], new_op: bool, trash: Vec<FilePath>) -> (next:
        Removal)
        requires
            trash@.len() <= targets@.len(),
            new_op ==> old(self).operations.well_formed(),
        ensures
            next@ == removal_at(targets@.len(), path_views(trash@)),
            removal_recorded(
                *old(self),
                final(self).operations,
                item_views(targets@),
                new_op,
                false,
                next@,
            ),
            *final(self) == (State { operations: final(self).operations, ..*old(self) }),
    {
        if trash.len() < targets.len() {
            Removal { step: RemovalStep::Begin { at: trash.len() }, trash }
        } else {
            if new_op {
                self.record_deletion(targets, &trash);
            }
            Removal { step: RemovalStep::Done(Ok(())), trash }
        }
    }

    /// Goes on after what came of an item.
    fn removal_goes_on(
        &mut self,
        targets: &[ItemInfo],
        new_op: bool,
        trash: Vec<FilePath>,
        outcome: Result<FilePath, FxError>,
    ) -> (next: Removal)
        requires
            trash@.len() < targets@.len(),
            new_op ==> old(self).operations.well_formed(),
        ensures
            next@ == removal_after(targets@.len(), path_views(trash@), path_outcome(outcome)),
            removal_recorded(
                *old(self),
                final(self).operations,
                item_views(targets@),
                new_op,
                false,
                next@,
            ),
            *final(self) == (State { operations: final(self).operations, ..*old(self) }),
    {
        let mut trash = trash;
        match outcome {
            Ok(path) => {
                let ghost before = trash@;
                trash.push(path);
                assert(path_views(trash@) == path_views(before).push(path@));
                self.removal_continues(targets, new_op, trash)
            },
            Err(e) => Removal { trash, step: RemovalStep::Done(Err(e)) },
        }
    }

    /// Begins to move items to the trash, and forgets what was registered. Where there is
    /// no item, that is all, and a new operation is recorded.
    pub fn remove_and_yank(&mut self, targets: &[ItemInfo], new_op: bool) -> (removal: Removal)
        requires
            new_op ==> old(self).operations.well_formed(),
        ensures
            removal@ == removal_at(targets@.len(), Seq::empty()),
            removal@.well_formed(targets@.len()),
            final(self).registered@ == Seq::<ItemInfo>::empty(),
            removal_recorded(
                *old(self),
                final(self).operations,
                item_views(targets@),
                new_op,
                false,
                removal@,
            ),
            *final(self) == (State {
                registered: final(self).registered,
                operations: final(self).operations,
                ..*old(self)
            }),
    {
        self.registered.clear();
        let trash: Vec<FilePath> = Vec::new();
        assert(path_views(trash@) == Seq::<PathView>::empty());
        self.removal_continues(targets, new_op, trash)
    }

    /// Goes on after what happened. What goes to the trash now goes there at the time
    /// `stamp`. At the end a new operation is recorded, unless there was an error.
    pub fn removal_next_at(
        &mut self,
        targets: &[ItemInfo],
        new_op: bool,
        removal: Removal,
        event: WalkEvent,
        stamp: i64,
    ) -> (next: Removal)
        requires
            removal@.well_formed(targets@.len()),
            new_op ==> old(self).operations.well_formed(),
        ensures
            next@ == next_removal(
                old(self).trash_dir@,
                item_views(targets@),
                new_op,
                removal@,
                event,
                stamp,
            ),
            next@.well_formed(targets@.len()),
            item_views(final(self).registered@) == registered_next(
                item_views(old(self).registered@),
                item_views(targets@),
                removal@,
                event,
            ),
            removal_recorded(
                *old(self),
                final(self).operations,
                item_views(targets@),
                new_op,
                removal@.step is Done,
                next@,
            ),
            *final(self) == (State {
                registered: final(self).registered,
                operations: final(self).operations,
                ..*old(self)
            }),
    {
        let ghost views = item_views(targets@);
        let Removal { trash, step } = removal;
        match step {
            RemovalStep::Begin { at } => {
                assert(views[at as int] == targets@[at as int]@);
                match event {
                    WalkEvent::Exists(exists) => match targets[at].file_type {
                        FileType::Directory => Removal {
                            trash,
                            step: RemovalStep::Dir { at, dir: self.remove_and_yank_dir(new_op) },
                        },
                        FileType::File | FileType::Symlink => Removal {
                            trash,
                            step: RemovalStep::File {
                                at,
                                file: self.remove_and_yank_file(
                                    &targets[at],
                                    new_op,
                                    exists,
                                    stamp,
                                ),
                            },
                        },
                    },
                    _ => Removal { trash, step: RemovalStep::Begin { at } },
                }
            },
            RemovalStep::File { at, file } => {
                assert(views[at as int] == targets@[at as int]@);
                match event {
                    WalkEvent::Did(outcome) => match self.file_removal_next(
                        &targets[at],
                        file,
                        outcome.is_ok(),
                    ) {
                        FileStep::Done(outcome) => self.removal_goes_on(
                            targets,
                            new_op,
                            trash,
                            outcome,
                        ),
                        file => Removal { trash, step: RemovalStep::File { at, file } },
                    },
                    _ => Removal { trash, step: RemovalStep::File { at, file } },
                }
            },
            RemovalStep::Dir { at, dir } => {
                assert(views[at as int] == targets@[at as int]@);
                match self.dir_removal_next(&targets[at], dir, event, stamp) {
                    DirStep::Done(outcome) => self.removal_goes_on(targets, new_op, trash, outcome),
                    dir => Removal { trash, step: RemovalStep::Dir { at, dir } },
                }
            },
            RemovalStep::Done(outcome) => Removal { trash, step: RemovalStep::Done(outcome) },
        }
    }

    /// Goes on after what happened. What goes to the trash now goes there at the present
    /// time.
    pub fn removal_next(
        &mut self,
        targets: &[ItemInfo],
        new_op: bool,
        removal: Removal,
        event: WalkEvent,
    ) -> (next: Removal)
        requires
            removal@.well_formed(targets@.len()),
            new_op ==> old(self).operations.well_formed(),
        ensures
            exists|stamp: i64|
                next@ == #[trigger] next_removal(
                    old(self).trash_dir@,
                    item_views(targets@),
                    new_op,
                    removal@,
                    event,
                    stamp,
                ),
            next@.well_formed(targets@.len()),
            item_views(final(self).registered@) == registered_next(
                item_views(old(self).registered@),
                item_views(targets@),
                removal@,
                event,
            ),
            removal_recorded(
                *old(self),
                final(self).operations,
                item_views(targets@),
                new_op,
                removal@.step is Done,
                next@,
            ),
            *final(self) == (State {
                registered: final(self).registered,
                operations: final(self).operations,
                ..*old(self)
            }),
    {
        let stamp = now();
        self.removal_next_at(targets, new_op, removal, event, stamp)
    }
}

} // verus!
