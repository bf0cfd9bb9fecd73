//! Copying a directory with all that is in it, entry by entry.

use crate::error::{plain_outcome, ErrorView, FxError};
use crate::path::{empty_path, FilePath, PathView};
use vstd::prelude::*;

verus! {

/// How far a walk through a directory has come, in five steps, at the entry `i` of
/// `total`: `first` at the beginning, and nothing where a walk of five entries or more
/// is still in its first step.
pub open spec fn progress(i: nat, total: nat, first: Seq<char>) -> Option<Seq<char>> {
    let unit = total / 5;
    if i > unit * 4 {
        Some("[»»»»-]"@)
    } else if i > unit * 3 {
        Some("[»»»--]"@)
    } else if i > unit * 2 {
        Some("[»»---]"@)
    } else if i > unit {
        Some("[»----]"@)
    } else if i == 0 {
        Some(first)
    } else {
        None
    }
}

/// A bar that tells how far a walk through a directory has come.
pub fn progress_bar(i: usize, total: usize, first: &'static str) -> (bar: Option<&'static str>)
    ensures
        (match bar {
            Some(b) => Some(b@),
            None => None,
        }) == progress(i as nat, total as nat, first@),
{
    let unit: usize = total / 5;
    if i > unit * 4 {
        Some("[»»»»-]")
    } else if i > unit * 3 {
        Some("[»»»--]")
    } else if i > unit * 2 {
        Some("[»»---]")
    } else if i > unit {
        Some("[»----]")
    } else if i == 0 {
        Some(first)
    } else {
        None
    }
}

/// The bar at the beginning of a walk that moves a directory to the trash.
pub const REMOVE_BAR: &'static str = " [-----]";

/// The bar at the beginning of a walk that puts a directory.
pub const PUT_BAR: &'static str = " [»----]";

/// A directory that is being copied: where it is, and where its copy goes.
pub struct TreeCopy {
    pub root: FilePath,
    pub target: FilePath,
}

/// Where the copy of an entry goes: what its path has behind the root, under the target.
pub open spec fn copy_of(root: PathView, target: PathView, entry: PathView) -> PathView {
    target.join(entry.behind(root))
}

/// What is to be done next about an entry of a directory that is being copied.
pub enum TreeStep {
    /// Create a directory and its parents.
    CreateDirAll(FilePath),
    /// Find out whether the parent of the entry exists.
    CheckParent { parent: FilePath, from: FilePath, to: FilePath },
    /// Create the parent.
    CreateParent { parent: FilePath, from: FilePath, to: FilePath },
    /// Copy a file.
    Copy { from: FilePath, to: FilePath },
    /// Nothing any more.
    Done(Result<(), FxError>),
}

/// What a step is.
pub enum TreeStepView {
    CreateDirAll(PathView),
    CheckParent { parent: PathView, from: PathView, to: PathView },
    CreateParent { parent: PathView, from: PathView, to: PathView },
    Copy { from: PathView, to: PathView },
    Done(Result<(), ErrorView>),
}

impl View for TreeStep {
    type V = TreeStepView;

    open spec fn view(&self) -> TreeStepView {
        match self {
            TreeStep::CreateDirAll(path) => TreeStepView::CreateDirAll(path@),
            TreeStep::CheckParent { parent, from, to } => TreeStepView::CheckParent {
                parent: parent@,
                from: from@,
                to: to@,
            },
            TreeStep::CreateParent { parent, from, to } => TreeStepView::CreateParent {
                parent: parent@,
                from: from@,
                to: to@,
            },
            TreeStep::Copy { from, to } => TreeStepView::Copy { from: from@, to: to@ },
            TreeStep::Done(outcome) => TreeStepView::Done(plain_outcome(*outcome)),
        }
    }
}

/// An entry that a walk through a directory comes to.
pub struct WalkEntry {
    pub path: FilePath,
    pub name: Vec<u8>,
    pub is_dir: bool,
}

/// What happened when a step was done.
pub enum WalkEvent {
    /// The walk came to an entry.
    Entry(WalkEntry),
    /// The walk failed.
    Failed(FxError),
    /// The walk came to its end.
    End,
    /// Something exists or does not.
    Exists(bool),
    /// Something was done, or failed.
    Did(Result<(), FxError>),
    /// It was shown which item is next, and its path is itself a link that leads nowhere,
    /// or is none.
    DeadLink(bool),
}

/// The first step about an entry.
pub open spec fn first_tree_step(
    root: PathView,
    target: PathView,
    entry: PathView,
    is_dir: bool,
) -> TreeStepView {
    let to = copy_of(root, target, entry);
    if is_dir {
        TreeStepView::CreateDirAll(to)
    } else {
        match entry.parent() {
            Some(parent) => TreeStepView::CheckParent { parent, from: entry, to },
            None => TreeStepView::Copy { from: entry, to },
        }
    }
}

/// The step behind another. An event that does not answer the step changes nothing.
pub open spec fn next_tree_step(step: TreeStepView, event: WalkEvent) -> TreeStepView {
    match (step, event) {
        (TreeStepView::CreateDirAll(_), WalkEvent::Did(outcome)) => TreeStepView::Done(
            plain_outcome(outcome),
        ),
        (TreeStepView::CheckParent { parent, from, to }, WalkEvent::Exists(exists)) => if exists {
            TreeStepView::Copy { from, to }
        } else {
            TreeStepView::CreateParent { parent, from, to }
        },
        (TreeStepView::CreateParent { parent, from, to }, WalkEvent::Did(outcome)) => match outcome {
            Ok(()) => TreeStepView::Copy { from, to },
            Err(e) => TreeStepView::Done(Err(e@)),
        },
        (TreeStepView::Copy { from, to }, WalkEvent::Did(outcome)) => match outcome {
            Ok(()) => TreeStepView::Done(Ok(())),
            Err(_) => TreeStepView::Done(Err(ErrorView::PutItem(from))),
        },
        _ => step,
    }
}

impl TreeCopy {
    /// The copy of nothing.
    pub fn new() -> (tree: TreeCopy)
        ensures
            tree@ == (TreeView { root: empty_path(), target: empty_path() }),
    {
        TreeCopy { root: FilePath::new(), target: FilePath::new() }
    }

    /// Begins with an entry behind the root.
    pub fn visit(&self, entry: &FilePath, is_dir: bool) -> (step: TreeStep)
        ensures
            step@ == first_tree_step(self.root@, self.target@, entry@, is_dir),
    {
        let to = self.target.join(&entry.behind(&self.root));
        if is_dir {
            TreeStep::CreateDirAll(to)
        } else {
            match entry.parent() {
                Some(parent) => TreeStep::CheckParent { parent, from: entry.clone(), to },
                None => TreeStep::Copy { from: entry.clone(), to },
            }
        }
    }
}

impl TreeStep {
    /// Goes on after what came of a step.
    pub fn next(self, event: WalkEvent) -> (step: TreeStep)
        ensures
            step@ == next_tree_step(self@, event),
    {
        match (self, event) {
            (TreeStep::CreateDirAll(_), WalkEvent::Did(outcome)) => TreeStep::Done(outcome),
            (TreeStep::CheckParent { parent, from, to }, WalkEvent::Exists(exists)) => if exists {
                TreeStep::Copy { from, to }
            } else {
                TreeStep::CreateParent { parent, from, to }
            },
            (TreeStep::CreateParent { parent, from, to }, WalkEvent::Did(outcome)) => match outcome {
                Ok(()) => TreeStep::Copy { from, to },
                Err(e) => TreeStep::Done(Err(e)),
            },
            (TreeStep::Copy { from, to }, WalkEvent::Did(outcome)) => match outcome {
                Ok(()) => TreeStep::Done(Ok(())),
                Err(_) => TreeStep::Done(Err(FxError::PutItem(from))),
            },
            (step, _) => step,
        }
    }
}

/// What a directory that is being copied is.
pub struct TreeView {
    pub root: PathView,
    pub target: PathView,
}

impl View for TreeCopy {
    type V = TreeView;

    open spec fn view(&self) -> TreeView {
        TreeView { root: self.root@, target: self.target@ }
    }
}

/// What is to be done next to copy a directory.
pub enum TreeWalk {
    /// Take the next entry of the walk through the directory. The first one is the
    /// directory itself.
    Next { tree: TreeCopy, started: bool },
    /// Create the copy of the directory itself.
    CreateRoot { path: FilePath, tree: TreeCopy },
    /// Do the step about the present entry.
    Entry { step: TreeStep, tree: TreeCopy },
    /// Nothing any more: all is copied.
    Ended { tree: TreeCopy },
    /// Nothing any more.
    Failed(FxError),
}

/// What a step of a walk is.
pub enum TreeWalkView {
    Next { tree: TreeView, started: bool },
    CreateRoot { path: PathView, tree: TreeView },
    Entry { step: TreeStepView, tree: TreeView },
    Ended { tree: TreeView },
    Failed(ErrorView),
}

impl View for TreeWalk {
    type V = TreeWalkView;

    open spec fn view(&self) -> TreeWalkView {
        match self {
            TreeWalk::Next { tree, started } => TreeWalkView::Next {
                tree: tree@,
                started: *started,
            },
            TreeWalk::CreateRoot { path, tree } => TreeWalkView::CreateRoot {
                path: path@,
                tree: tree@,
            },
            TreeWalk::Entry { step, tree } => TreeWalkView::Entry { step: step@, tree: tree@ },
            TreeWalk::Ended { tree } => TreeWalkView::Ended { tree: tree@ },
            TreeWalk::Failed(e) => TreeWalkView::Failed(e@),
        }
    }
}

/// A walk before its first entry.
pub open spec fn first_walk_step() -> TreeWalkView {
    TreeWalkView::Next {
        tree: TreeView { root: empty_path(), target: empty_path() },
        started: false,
    }
}

/// The step of a walk behind another. Whoever copies the directory decides about its
/// first entry; an event that does not answer the step changes nothing.
pub open spec fn next_walk_step(walk: TreeWalkView, event: WalkEvent) -> TreeWalkView {
    match (walk, event) {
        (TreeWalkView::Next { tree, started }, WalkEvent::Entry(entry)) => if started {
            TreeWalkView::Entry {
                step: first_tree_step(tree.root, tree.target, entry.path@, entry.is_dir),
                tree,
            }
        } else {
            walk
        },
        (TreeWalkView::Next { tree, started }, WalkEvent::Failed(e)) => TreeWalkView::Failed(e@),
        (TreeWalkView::Next { tree, started }, WalkEvent::End) => TreeWalkView::Ended { tree },
        (TreeWalkView::CreateRoot { path, tree }, WalkEvent::Did(outcome)) => match outcome {
            Ok(()) => TreeWalkView::Next { tree, started: true },
            Err(e) => TreeWalkView::Failed(e@),
        },
        (TreeWalkView::Entry { step, tree }, event) => match next_tree_step(step, event) {
            TreeStepView::Done(Ok(())) => TreeWalkView::Next { tree, started: true },
            TreeStepView::Done(Err(e)) => TreeWalkView::Failed(e),
            step => TreeWalkView::Entry { step, tree },
        },
        _ => walk,
    }
}

impl TreeWalk {
    /// A walk before its first entry.
    pub fn new() -> (walk: TreeWalk)
        ensures
            walk@ == first_walk_step(),
    {
        TreeWalk::Next { tree: TreeCopy::new(), started: false }
    }

    /// Goes on after what happened.
    pub fn next(self, event: WalkEvent) -> (walk: TreeWalk)
        ensures
            walk@ == next_walk_step(self@, event),
    {
        match (self, event) {
            (TreeWalk::Next { tree, started }, WalkEvent::Entry(entry)) => if started {
                TreeWalk::Entry { step: tree.visit(&entry.path, entry.is_dir), tree }
            } else {
                TreeWalk::Next { tree, started }
            },
            (TreeWalk::Next { tree: _, started: _ }, WalkEvent::Failed(e)) => TreeWalk::Failed(e),
            (TreeWalk::Next { tree, started: _ }, WalkEvent::End) => TreeWalk::Ended { tree },
            (TreeWalk::CreateRoot { path: _, tree }, WalkEvent::Did(outcome)) => match outcome {
                Ok(()) => TreeWalk::Next { tree, started: true },
                Err(e) => TreeWalk::Failed(e),
            },
            (TreeWalk::Entry { step, tree }, event) => match step.next(event) {
                TreeStep::Done(Ok(())) => TreeWalk::Next { tree, started: true },
                TreeStep::Done(Err(e)) => TreeWalk::Failed(e),
                step => TreeWalk::Entry { step, tree },
            },
            (walk, _) => walk,
        }
    }
}

} // verus!
