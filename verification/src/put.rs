//! Putting registered items into a directory.

pub use vstd::hash_set::StringHashSet;

use crate::error::{path_outcome, ErrorView, FxError};
use crate::item::{copy_items, item_views, FileType, ItemInfo, ItemView};
use crate::op::{OpKind, OpView, Operation, PutFiles};
use crate::path::{copy_paths, optional_path, path_views, FilePath, PathView};
use crate::remove::records;
use crate::state::{is_first_error, State};
use crate::text::{skip_chars, suffix, utf8_text};
use crate::tree::{
    first_walk_step, next_walk_step, TreeCopy, TreeView, TreeWalk, TreeWalkView, WalkEvent,
};
use vstd::prelude::*;
use vstd::string::*;
use vstd::utf8::{decode_utf8, valid_utf8};

verus! {

/// How many characters stand before the name of an item in the trash.
pub const STAMP_LEN: usize = 11;

/// The names of a list of items.
pub open spec fn names_of(items: Seq<ItemView>) -> Set<Seq<char>> {
    Set::new(|name: Seq<char>| exists|k: int| 0 <= k < items.len() && items[k].file_name == name)
}

/// A file name as text; one that is no text counts as empty.
pub open spec fn name_or_empty(name: Seq<u8>) -> Seq<char> {
    if valid_utf8(name) {
        decode_utf8(name)
    } else {
        Seq::empty()
    }
}

/// The names of the entries of a directory.
pub open spec fn entry_names(entries: Seq<Result<Vec<u8>, FxError>>) -> Set<Seq<char>> {
    Set::new(
        |name: Seq<char>|
            exists|k: int|
                0 <= k < entries.len() && (#[trigger] entries[k]) is Ok && name_or_empty(
                    entries[k]->Ok_0@,
                ) == name,
    )
}

/// An item in the trash.
pub open spec fn is_trashed(item: ItemView, trash_dir: PathView) -> bool {
    item.file_path.parent() matches Some(parent) && parent.same_as(trash_dir)
}

/// An item that is put by making its link anew: a link in the trash that leads nowhere was
/// moved there itself. Anything else is copied.
pub open spec fn is_moved_link(item: ItemView, trash_dir: PathView, dead_link: bool) -> bool {
    dead_link && is_trashed(item, trash_dir)
}

/// The name under which an item is put, if it is free: in the trash, what follows the
/// time at which it went there.
pub open spec fn put_name(item: ItemView, trash_dir: PathView) -> Seq<char> {
    if is_trashed(item, trash_dir) {
        suffix(item.file_name, STAMP_LEN as nat)
    } else {
        item.file_name
    }
}

/// The directory into which items are put.
pub open spec fn destination(current_dir: PathView, target_dir: Option<PathView>) -> PathView {
    match target_dir {
        Some(dir) => dir,
        None => current_dir,
    }
}

/// `found` is what `rename` makes of a name among others.
pub open spec fn renames<R: Fn(&String, &StringHashSet) -> String>(
    rename: &R,
    name: Seq<char>,
    names: &StringHashSet,
    found: Seq<char>,
) -> bool {
    exists|from: String, to: String| #[trigger]
        call_ensures(rename, (&from, names), to) && from@ == name && to@ == found
}

/// A file that is to be put: where to, and under which name.
pub struct FilePut {
    pub to: FilePath,
    pub name: String,
    /// Whether a link is made anew rather than a file copied.
    pub link: bool,
}

/// What is to be done next to put a directory.
pub enum DirPut {
    /// Copy the directory.
    Walk(TreeWalk),
    /// Nothing any more.
    Done(Result<FilePath, FxError>),
}

/// What a step is.
pub enum DirPutView {
    Walk(TreeWalkView),
    Done(Result<PathView, ErrorView>),
}

impl View for DirPut {
    type V = DirPutView;

    open spec fn view(&self) -> DirPutView {
        match self {
            DirPut::Walk(walk) => DirPutView::Walk(walk@),
            DirPut::Done(outcome) => DirPutView::Done(path_outcome(*outcome)),
        }
    }
}

/// A step that waits for the first entry of a walk, and that entry.
pub open spec fn is_root_entry(step: DirPutView, event: WalkEvent) -> bool {
    step matches DirPutView::Walk(TreeWalkView::Next { tree, started: false })
        && event is Entry
}

/// Where a directory is put: one from the trash under its name, another one under the
/// name that was found for it.
pub open spec fn dir_target(
    dir: PathView,
    item: ItemView,
    trash_dir: PathView,
    found: Seq<char>,
) -> PathView {
    if is_trashed(item, trash_dir) {
        dir.join_name(put_name(item, trash_dir))
    } else {
        dir.join_name(found)
    }
}

/// The step behind the first entry of the walk, which is the directory itself: it is at
/// `root` and goes to `target`.
pub open spec fn root_put(target: PathView, root: PathView) -> DirPutView {
    DirPutView::Walk(TreeWalkView::CreateRoot { path: target, tree: TreeView { root, target } })
}

/// The step behind another that is not the first entry of the walk.
pub open spec fn next_dir_put(step: DirPutView, event: WalkEvent) -> DirPutView {
    match step {
        DirPutView::Walk(walk) => match next_walk_step(walk, event) {
            TreeWalkView::Ended { tree } => DirPutView::Done(Ok(tree.target)),
            TreeWalkView::Failed(e) => DirPutView::Done(Err(e)),
            walk => DirPutView::Walk(walk),
        },
        DirPutView::Done(outcome) => step,
    }
}

/// What is to be done next to put items.
pub enum PutStep {
    /// Show that the item at `at` is next, and find out whether its path is itself a link
    /// that leads nowhere.
    Begin { at: usize },
    /// Copy the file at `at`, or make its link anew.
    File { at: usize, file: FilePut },
    /// Do the step about the directory at `at`.
    Dir { at: usize, step: DirPut },
    /// Nothing any more.
    Done,
}

/// Items that are being put, one by one.
pub struct PutRun {
    /// The names that are taken where items are put.
    pub names: StringHashSet,
    /// What was put so far.
    pub put: Vec<FilePath>,
    pub step: PutStep,
}

/// What a step is.
pub enum PutStepView {
    Begin { at: nat },
    File { at: nat, to: PathView, name: Seq<char>, link: bool },
    Dir { at: nat, step: DirPutView },
    Done,
}

/// What a putting of items is.
#[verifier::ext_equal]
pub struct PutView {
    pub names: Set<Seq<char>>,
    pub put: Seq<PathView>,
    pub step: PutStepView,
}

impl View for PutStep {
    type V = PutStepView;

    open spec fn view(&self) -> PutStepView {
        match self {
            PutStep::Begin { at } => PutStepView::Begin { at: *at as nat },
            PutStep::File { at, file } => PutStepView::File {
                at: *at as nat,
                to: file.to@,
                name: file.name@,
                link: file.link,
            },
            PutStep::Dir { at, step } => PutStepView::Dir { at: *at as nat, step: step@ },
            PutStep::Done => PutStepView::Done,
        }
    }
}

impl View for PutRun {
    type V = PutView;

    open spec fn view(&self) -> PutView {
        PutView { names: self.names@, put: path_views(self.put@), step: self.step@ }
    }
}

impl PutView {
    /// Of `count` items, one after the other is done with, and not more were put than are.
    pub open spec fn well_formed(self, count: nat) -> bool {
        match self.step {
            PutStepView::Begin { at } => self.put.len() <= at && at < count,
            PutStepView::File { at, to, name, link } => self.put.len() <= at && at < count,
            PutStepView::Dir { at, step } => self.put.len() <= at && at < count,
            PutStepView::Done => self.put.len() <= count,
        }
    }
}

/// The putting of `count` items that comes to the position `at`.
pub open spec fn put_at(
    count: nat,
    names: Set<Seq<char>>,
    put: Seq<PathView>,
    at: nat,
) -> PutView {
    PutView {
        names,
        put,
        step: if at < count {
            PutStepView::Begin { at }
        } else {
            PutStepView::Done
        },
    }
}

/// The putting of `count` items after what came of the one at `at`. An item that could not
/// be put is passed over.
pub open spec fn put_after(
    count: nat,
    names: Set<Seq<char>>,
    put: Seq<PathView>,
    at: nat,
    outcome: Result<PathView, ErrorView>,
) -> PutView {
    match outcome {
        Ok(path) => put_at(count, names, put.push(path), at + 1),
        Err(_) => put_at(count, names, put, at + 1),
    }
}

/// What happened starts a file, which needs a name that is not taken.
pub open spec fn starts_file(targets: Seq<ItemView>, run: PutView, event: WalkEvent) -> bool {
    run.step matches PutStepView::Begin { at } && event is DeadLink && targets[at as int].file_type
        != FileType::Directory
}

/// What happened starts a directory, which needs a name that is not taken.
pub open spec fn starts_dir(run: PutView, event: WalkEvent) -> bool {
    run.step matches PutStepView::Dir { at, step } && is_root_entry(step, event)
}

/// The putting after a file got the name `found` in the directory `dir`.
pub open spec fn file_started(
    run: PutView,
    dir: PathView,
    found: Seq<char>,
    link: bool,
) -> PutView {
    PutView {
        step: PutStepView::File {
            at: run.step->Begin_at,
            to: dir.join_name(found),
            name: found,
            link,
        },
        ..run
    }
}

/// The putting after the name `found` was found for a directory that is at `root` and goes
/// to `target`.
pub open spec fn dir_started(
    run: PutView,
    target: PathView,
    root: PathView,
    found: Seq<char>,
) -> PutView {
    PutView {
        names: run.names.insert(found),
        step: PutStepView::Dir { at: run.step->Dir_at, step: root_put(target, root) },
        ..run
    }
}

/// The putting after what happened, where no name is needed. A name that was used is taken
/// from then on. An event that does not answer the step changes nothing.
pub open spec fn next_put(targets: Seq<ItemView>, run: PutView, event: WalkEvent) -> PutView {
    let count = targets.len();
    match run.step {
        PutStepView::Begin { at } => if event is DeadLink {
            let step = DirPutView::Walk(first_walk_step());
            PutView { step: PutStepView::Dir { at, step }, ..run }
        } else {
            run
        },
        PutStepView::File { at, to, name, link } => match event {
            WalkEvent::Did(Ok(())) => put_after(
                count,
                run.names.insert(name),
                run.put,
                at,
                Ok(to),
            ),
            WalkEvent::Did(Err(_)) => put_after(
                count,
                run.names,
                run.put,
                at,
                Err(ErrorView::PutItem(targets[at as int].file_path)),
            ),
            _ => run,
        },
        PutStepView::Dir { at, step } => match next_dir_put(step, event) {
            DirPutView::Done(outcome) => put_after(count, run.names, run.put, at, outcome),
            step => PutView { step: PutStepView::Dir { at, step }, ..run },
        },
        PutStepView::Done => run,
    }
}

/// The history after a putting of items has come to `now`: where it has just ended, what
/// was put is recorded, unless it is a part of undoing or redoing.
pub open spec fn put_recorded(
    old_state: State,
    operations: Operation,
    targets: Seq<ItemView>,
    new_op: bool,
    ended_before: bool,
    now: PutView,
) -> bool {
    if new_op && !ended_before && now.step is Done {
        records(
            old_state.operations,
            operations,
            OpView::Put { original: targets, put: now.put, dir: old_state.current_dir@ },
        )
    } else {
        operations == old_state.operations
    }
}

/// The text of an entry name.
fn text_or_empty(name: &Vec<u8>) -> (text: String)
    ensures
        text@ == name_or_empty(name@),
{
    match utf8_text(name.as_slice()) {
        Some(text) => text,
        None => String::new(),
    }
}

impl State {
    /// The names that are taken where items are put: those of the listing, or of the
    /// entries of a target directory.
    pub fn put_names(
        &self,
        target_dir: &Option<FilePath>,
        entries: Vec<Result<Vec<u8>, FxError>>,
    ) -> (result: Result<StringHashSet, FxError>)
        ensures
            *target_dir is None ==> (result matches Ok(names) && names@ == names_of(
                item_views(self.list@),
            )),
            *target_dir is Some ==> match result {
                Ok(names) => {
                    &&& forall|k: int| 0 <= k < entries@.len() ==> #[trigger] entries@[k] is Ok
                    &&& names@ == entry_names(entries@)
                },
                Err(e) => exists|at: int| is_first_error(entries@, at, e),
            },
    {
        let mut names = StringHashSet::new();
        match target_dir {
            None => {
                let ghost views = item_views(self.list@);
                let mut at: usize = 0;
                assert(names@ == names_of(views.take(0)));
                while at < self.list.len()
                    invariant
                        at <= self.list@.len(),
                        views == item_views(self.list@),
                        names@ == names_of(views.take(at as int)),
                    decreases self.list@.len() - at,
                {
                    names.insert(self.list[at].file_name.clone());
                    at += 1;
                    proof {
                        let shorter = views.take(at - 1);
                        let longer = views.take(at as int);
                        let last = views[at - 1].file_name;
                        assert forall|name: Seq<char>| names@.contains(name) <==> names_of(
                            longer,
                        ).contains(name) by {
                            if names_of(shorter).contains(name) {
                                let k = choose|k: int|
                                    0 <= k < shorter.len() && shorter[k].file_name == name;
                                assert(longer[k].file_name == name);
                            }
                            if name == last {
                                assert(longer[at - 1].file_name == name);
                            }
                            if names_of(longer).contains(name) {
                                let k = choose|k: int|
                                    0 <= k < longer.len() && longer[k].file_name == name;
                                if k < at - 1 {
                                    assert(shorter[k].file_name == name);
                                }
                            }
                        }
                        assert(names@ == names_of(longer));
                    }
                }
                assert(views.take(views.len() as int) == views);
            },
            Some(_) => {
                assert(names@ == entry_names(entries@.take(0)));
                for entry in it: entries
                    invariant
                        it.seq() == entries@,
                        *target_dir is Some,
                        forall|k: int| 0 <= k < it.index() ==> #[trigger] entries@[k] is Ok,
                        names@ == entry_names(entries@.take(it.index())),
                {
                    match entry {
                        Ok(name) => {
                            let text = text_or_empty(&name);
                            names.insert(text);
                            proof {
                                let shorter = entries@.take(it.index());
                                let longer = entries@.take(it.index() + 1);
                                assert(longer[it.index()] == entries@[it.index()]);
                                assert forall|name: Seq<char>| names@.contains(name)
                                    <==> entry_names(longer).contains(name) by {
                                    if entry_names(shorter).contains(name) {
                                        let k = choose|k: int|
                                            0 <= k < shorter.len() && (#[trigger] shorter[k]) is Ok
                                                && name_or_empty(shorter[k]->Ok_0@) == name;
                                        assert(longer[k] == shorter[k]);
                                    }
                                    if entry_names(longer).contains(name) {
                                        let k = choose|k: int|
                                            0 <= k < longer.len() && (#[trigger] longer[k]) is Ok
                                                && name_or_empty(longer[k]->Ok_0@) == name;
                                        if k < it.index() {
                                            assert(shorter[k] == longer[k]);
                                        }
                                    }
                                }
                                assert(names@ == entry_names(longer));
                            }
                        },
                        Err(e) => {
                            assert(is_first_error(entries@, it.index(), e));
                            return Err(e);
                        },
                    }
                }
                assert(entries@.take(entries@.len() as int) == entries@);
            },
        }
        Ok(names)
    }

    /// The directory into which items are put.
    fn put_destination(&self, target_dir: &Option<FilePath>) -> (dir: FilePath)
        ensures
            dir@ == destination(self.current_dir@, optional_path(*target_dir)),
    {
        match target_dir {
            None => self.current_dir.clone(),
            Some(path) => path.clone(),
        }
    }

    /// Whether an item is in the trash.
    fn in_trash(&self, item: &ItemInfo) -> (trashed: bool)
        ensures
            trashed == is_trashed(item@, self.trash_dir@),
    {
        match item.file_path.parent() {
            Some(parent) => parent.same(&self.trash_dir),
            None => false,
        }
    }

    /// The name under which an item is put, if it is free.
    fn wanted_name(&self, item: &ItemInfo) -> (name: String)
        ensures
            name@ == put_name(item@, self.trash_dir@),
    {
        if self.in_trash(item) {
            skip_chars(item.file_name.as_str(), STAMP_LEN)
        } else {
            item.file_name.clone()
        }
    }

    /// Begins to put a file. `dead_link` tells whether its path is itself a link that leads
    /// nowhere, and `rename_file` finds a name that is not taken.
    pub fn put_file<R: Fn(&String, &StringHashSet) -> String>(
        &self,
        item: &ItemInfo,
        target_dir: &Option<FilePath>,
        names: &StringHashSet,
        dead_link: bool,
        rename_file: &R,
    ) -> (put: FilePut)
        requires
            forall|name: String| #[trigger] call_requires(rename_file, (&name, names)),
        ensures
            renames(rename_file, put_name(item@, self.trash_dir@), names, put.name@),
            put.to@ == destination(self.current_dir@, optional_path(*target_dir)).join_name(
                put.name@,
            ),
            put.link == is_moved_link(item@, self.trash_dir@, dead_link),
    {
        let wanted = self.wanted_name(item);
        let name = rename_file(&wanted, names);
        let to = self.put_destination(target_dir).join_name(name.as_str());
        FilePut { to, name, link: dead_link && self.in_trash(item) }
    }

    /// Begins to put a directory.
    pub fn put_dir(&self) -> (step: DirPut)
        ensures
            step@ == DirPutView::Walk(first_walk_step()),
    {
        DirPut::Walk(TreeWalk::new())
    }

    /// Goes on after what happened. `rename_dir` finds a name that is not taken.
    pub fn put_dir_next<R: Fn(&String, &StringHashSet) -> String>(
        &self,
        item: &ItemInfo,
        target_dir: &Option<FilePath>,
        step: DirPut,
        event: WalkEvent,
        names: &mut StringHashSet,
        rename_dir: &R,
    ) -> (next: DirPut)
        requires
            is_root_entry(step@, event) ==> item@.file_path.parent() is Some,
            forall|name: String| #[trigger] call_requires(rename_dir, (&name, old(names))),
        ensures
            is_root_entry(step@, event) ==> exists|found: Seq<char>| #[trigger]
                renames(rename_dir, put_name(item@, self.trash_dir@), old(names), found)
                    && final(names)@ == old(names)@.insert(found)
                    && next@ == root_put(
                    dir_target(
                        destination(self.current_dir@, optional_path(*target_dir)),
                        item@,
                        self.trash_dir@,
                        found,
                    ),
                    event->Entry_0.path@,
                ),
            !is_root_entry(step@, event) ==> next@ == next_dir_put(step@, event) && *final(names)
                == *old(names),
    {
        match step {
            DirPut::Walk(walk) => match (walk, event) {
                (TreeWalk::Next { tree: _, started: false }, WalkEvent::Entry(entry)) => {
                    let wanted = self.wanted_name(item);
                    let dir = self.put_destination(target_dir);
                    let found = rename_dir(&wanted, names);
                    let target = if self.in_trash(item) {
                        dir.join_name(wanted.as_str())
                    } else {
                        dir.join_name(found.as_str())
                    };
                    let ghost text = found@;
                    assert(renames(rename_dir, put_name(item@, self.trash_dir@), old(names), text));
                    names.insert(found);
                    DirPut::Walk(
                        TreeWalk::CreateRoot {
                            path: target.clone(),
                            tree: TreeCopy { root: entry.path, target },
                        },
                    )
                },
                (walk, event) => match walk.next(event) {
                    TreeWalk::Ended { tree } => DirPut::Done(Ok(tree.target)),
                    TreeWalk::Failed(e) => DirPut::Done(Err(e)),
                    walk => DirPut::Walk(walk),
                },
            },
            DirPut::Done(outcome) => DirPut::Done(outcome),
        }
    }

    /// Records what was put.
    fn record_put(&mut self, targets: &[ItemInfo], put: &Vec<FilePath>)
        requires
            old(self).operations.well_formed(),
        ensures
            records(
                old(self).operations,
                final(self).operations,
                OpView::Put {
                    original: item_views(targets@),
                    put: path_views(put@),
                    dir: old(self).current_dir@,
                },
            ),
            *final(self) == (State { operations: final(self).operations, ..*old(self) }),
    {
        self.operations.branch();
        self.operations.push(
            OpKind::Put(
                PutFiles {
                    original: copy_items(targets),
                    put: copy_paths(put),
                    dir: self.current_dir.clone(),
                },
            ),
        );
        assert(self.operations.op_list@.drop_last() == old(self).operations.done());
    }

    /// Goes on with the item at a position, or ends and records what was put.
    fn put_continues(
        &mut self,
        targets: &[ItemInfo],
        target_dir: &Option<FilePath>,
        names: StringHashSet,
        put: Vec<FilePath>,
        at: usize,
    ) -> (next: PutRun)
        requires
            at <= targets@.len(),
            *target_dir is None ==> old(self).operations.well_formed(),
        ensures
            next@ == put_at(targets@.len(), names@, path_views(put@), at as nat),
            put_recorded(
                *old(self),
                final(self).operations,
                item_views(targets@),
                *target_dir is None,
                false,
                next@,
            ),
            *final(self) == (State { operations: final(self).operations, ..*old(self) }),
    {
        if at < targets.len() {
            PutRun { names, put, step: PutStep::Begin { at } }
        } else {
            if target_dir.is_none() {
                self.record_put(targets, &put);
            }
            PutRun { names, put, step: PutStep::Done }
        }
    }

    /// Goes on after what came of the item at a position.
    fn put_goes_on(
        &mut self,
        targets: &[ItemInfo],
        target_dir: &Option<FilePath>,
        names: StringHashSet,
        put: Vec<FilePath>,
        at: usize,
        outcome: Result<FilePath, FxError>,
    ) -> (next: PutRun)
        requires
            at < targets@.len(),
            *target_dir is None ==> old(self).operations.well_formed(),
        ensures
            next@ == put_after(
                targets@.len(),
                names@,
                path_views(put@),
                at as nat,
                path_outcome(outcome),
            ),
            put_recorded(
                *old(self),
                final(self).operations,
                item_views(targets@),
                *target_dir is None,
                false,
                next@,
            ),
            *final(self) == (State { operations: final(self).operations, ..*old(self) }),
    {
        let mut put = put;
        match outcome {
            Ok(path) => {
                let ghost before = put@;
                put.push(path);
                assert(path_views(put@) == path_views(before).push(path@));
            },
            Err(_) => {},
        }
        assert(at < targets.len());
        self.put_continues(targets, target_dir, names, put, at + 1)
    }

    /// Begins to put items into the current directory, or into a target directory whose
    /// entries are given. Only undoing and redoing use a target directory, and that is not
    /// recorded.
    pub fn put_items(
        &mut self,
        targets: &[ItemInfo],
        target_dir: &Option<FilePath>,
        entries: Vec<Result<Vec<u8>, FxError>>,
    ) -> (result: Result<PutRun, FxError>)
        requires
            *target_dir is None ==> old(self).operations.well_formed(),
        ensures
            *target_dir is None ==> (result matches Ok(run) && run@ == put_at(
                targets@.len(),
                names_of(item_views(old(self).list@)),
                Seq::empty(),
                0,
            )),
            *target_dir is Some ==> match result {
                Ok(run) => {
                    &&& forall|k: int| 0 <= k < entries@.len() ==> #[trigger] entries@[k] is Ok
                    &&& run@ == put_at(targets@.len(), entry_names(entries@), Seq::empty(), 0)
                },
                Err(e) => *final(self) == *old(self) && exists|at: int|
                    is_first_error(entries@, at, e),
            },
            result matches Ok(run) ==> run@.well_formed(targets@.len()) && put_recorded(
                *old(self),
                final(self).operations,
                item_views(targets@),
                *target_dir is None,
                false,
                run@,
            ),
            *final(self) == (State { operations: final(self).operations, ..*old(self) }),
    {
        match self.put_names(target_dir, entries) {
            Ok(names) => {
                let put: Vec<FilePath> = Vec::new();
                assert(path_views(put@) == Seq::<PathView>::empty());
                Ok(self.put_continues(targets, target_dir, names, put, 0))
            },
            Err(e) => Err(e),
        }
    }

    /// Goes on after what happened. `rename_file` and `rename_dir` find names that are not
    /// taken. At the end it is recorded what was put; items that could not be put are left
    /// out.
    pub fn put_next<
        R: Fn(&String, &StringHashSet) -> String,
        S: Fn(&String, &StringHashSet) -> String,
    >(
        &mut self,
        targets: &[ItemInfo],
        target_dir: &Option<FilePath>,
        run: PutRun,
        event: WalkEvent,
        rename_file: &R,
        rename_dir: &S,
    ) -> (next: PutRun)
        requires
            run@.well_formed(targets@.len()),
            *target_dir is None ==> old(self).operations.well_formed(),
            starts_dir(run@, event) ==> targets@[run@.step->Dir_at as int]@.file_path.parent() is Some,
            forall|name: String| #[trigger] call_requires(rename_file, (&name, &run.names)),
            forall|name: String| #[trigger] call_requires(rename_dir, (&name, &run.names)),
        ensures
            starts_file(item_views(targets@), run@, event) ==> exists|found: Seq<char>| #[trigger]
                renames(
                    rename_file,
                    put_name(item_views(targets@)[run@.step->Begin_at as int], old(self).trash_dir@),
                    &run.names,
                    found,
                ) && next@ == file_started(
                    run@,
                    destination(old(self).current_dir@, optional_path(*target_dir)),
                    found,
                    is_moved_link(
                        item_views(targets@)[run@.step->Begin_at as int],
                        old(self).trash_dir@,
                        event->DeadLink_0,
                    ),
                ),
            starts_dir(run@, event) ==> exists|found: Seq<char>| #[trigger]
                renames(
                    rename_dir,
                    put_name(item_views(targets@)[run@.step->Dir_at as int], old(self).trash_dir@),
                    &run.names,
                    found,
                ) && next@ == dir_started(
                    run@,
                    dir_target(
                        destination(old(self).current_dir@, optional_path(*target_dir)),
                        item_views(targets@)[run@.step->Dir_at as int],
                        old(self).trash_dir@,
                        found,
                    ),
                    event->Entry_0.path@,
                    found,
                ),
            !starts_file(item_views(targets@), run@, event) && !starts_dir(run@, event) ==> next@
                == next_put(item_views(targets@), run@, event),
            next@.well_formed(targets@.len()),
            put_recorded(
                *old(self),
                final(self).operations,
                item_views(targets@),
                *target_dir is None,
                run@.step is Done,
                next@,
            ),
            *final(self) == (State { operations: final(self).operations, ..*old(self) }),
    {
        let ghost views = item_views(targets@);
        let PutRun { names, put, step } = run;
        let mut names = names;
        match step {
            PutStep::Begin { at } => {
                assert(views[at as int] == targets@[at as int]@);
                match event {
                    WalkEvent::DeadLink(dead_link) => match targets[at].file_type {
                        FileType::Directory => PutRun {
                            names,
                            put,
                            step: PutStep::Dir { at, step: self.put_dir() },
                        },
                        FileType::File | FileType::Symlink => {
                            let file = self.put_file(
                                &targets[at],
                                target_dir,
                                &names,
                                dead_link,
                                rename_file,
                            );
                            PutRun { names, put, step: PutStep::File { at, file } }
                        },
                    },
                    _ => PutRun { names, put, step: PutStep::Begin { at } },
                }
            },
            PutStep::File { at, file } => {
                assert(views[at as int] == targets@[at as int]@);
                match event {
                    WalkEvent::Did(outcome) => {
                        let outcome = file.done(&targets[at], outcome.is_ok(), &mut names);
                        self.put_goes_on(targets, target_dir, names, put, at, outcome)
                    },
                    _ => PutRun { names, put, step: PutStep::File { at, file } },
                }
            },
            PutStep::Dir { at, step } => {
                assert(views[at as int] == targets@[at as int]@);
                match self.put_dir_next(
                    &targets[at],
                    target_dir,
                    step,
                    event,
                    &mut names,
                    rename_dir,
                ) {
                    DirPut::Done(outcome) => self.put_goes_on(
                        targets,
                        target_dir,
                        names,
                        put,
                        at,
                        outcome,
                    ),
                    step => PutRun { names, put, step: PutStep::Dir { at, step } },
                }
            },
            PutStep::Done => PutRun { names, put, step: PutStep::Done },
        }
    }
}

impl FilePut {
    /// What came of putting a file that was put or could not be. A name that was used
    /// is taken from then on.
    pub fn done(self, item: &ItemInfo, done: bool, names: &mut StringHashSet) -> (outcome: Result<
        FilePath,
        FxError,
    >)
        ensures
            path_outcome(outcome) == if done {
                Ok::<PathView, ErrorView>(self.to@)
            } else {
                Err::<PathView, ErrorView>(ErrorView::PutItem(item@.file_path))
            },
            final(names)@ == if done {
                old(names)@.insert(self.name@)
            } else {
                old(names)@
            },
    {
        if done {
            names.insert(self.name);
            Ok(self.to)
        } else {
            Err(FxError::PutItem(item.file_path.clone()))
        }
    }
}

} // verus!
