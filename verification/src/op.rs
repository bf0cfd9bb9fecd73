//! The history of operations that can be undone and redone.

use crate::item::{item_views, ItemInfo, ItemView};
use crate::path::{path_views, FilePath, PathView};
use vstd::prelude::*;

verus! {

/// A renamed item.
#[derive(Debug)]
pub struct RenamedFile {
    pub original_name: FilePath,
    pub new_name: FilePath,
}

/// Items that were put: what was put, where it went, and in which directory.
#[derive(Debug)]
pub struct PutFiles {
    pub original: Vec<ItemInfo>,
    pub put: Vec<FilePath>,
    pub dir: FilePath,
}

/// Items that were deleted: where they are in the trash, what they were, and in which
/// directory.
#[derive(Debug)]
pub struct DeletedFiles {
    pub trash: Vec<FilePath>,
    pub original: Vec<ItemInfo>,
    pub dir: FilePath,
}

/// An operation that can be undone.
#[derive(Debug)]
pub enum OpKind {
    Delete(DeletedFiles),
    Put(PutFiles),
    Rename(RenamedFile),
}

/// What an operation is.
pub enum OpView {
    Delete { trash: Seq<PathView>, original: Seq<ItemView>, dir: PathView },
    Put { original: Seq<ItemView>, put: Seq<PathView>, dir: PathView },
    Rename { original_name: PathView, new_name: PathView },
}

impl View for OpKind {
    type V = OpView;

    open spec fn view(&self) -> OpView {
        match self {
            OpKind::Delete(op) => OpView::Delete {
                trash: path_views(op.trash@),
                original: item_views(op.original@),
                dir: op.dir@,
            },
            OpKind::Put(op) => OpView::Put {
                original: item_views(op.original@),
                put: path_views(op.put@),
                dir: op.dir@,
            },
            OpKind::Rename(op) => OpView::Rename {
                original_name: op.original_name@,
                new_name: op.new_name@,
            },
        }
    }
}

/// The operations in the order in which they were done. The last `pos` of them are
/// undone.
#[derive(Debug)]
pub struct Operation {
    pub pos: usize,
    pub op_list: Vec<OpKind>,
}

impl Operation {
    /// No more operations are undone than were done.
    pub open spec fn well_formed(self) -> bool {
        self.pos <= self.op_list@.len()
    }

    /// The operations that are not undone.
    pub open spec fn done(self) -> Seq<OpKind> {
        self.op_list@.take(self.op_list@.len() - self.pos)
    }

    /// Forgets the operations that are undone.
    pub fn branch(&mut self)
        requires
            old(self).well_formed(),
        ensures
            final(self).pos == 0,
            final(self).op_list@ == old(self).done(),
    {
        if self.pos == 0 {
            assert(self.op_list@ == self.done());
            return;
        }
        let kept: usize = self.op_list.len() - self.pos;
        self.op_list.truncate(kept);
        self.pos = 0;
    }

    /// Adds an operation.
    pub fn push(&mut self, op: OpKind)
        ensures
            final(self).pos == old(self).pos,
            final(self).op_list@ == old(self).op_list@.push(op),
    {
        self.op_list.push(op);
    }
}

} // verus!
