//! A lightweight reference to one file entry of a worktree, convenient
//! to hand around independently of the tree itself.

use vstd::prelude::*;
use crate::content::{History, SavePlan, Snapshot};
use crate::entry::WtError;
use crate::tree::Worktree;

verus! {

/// A (worktree id, entry id) pair standing for one file.
#[derive(Clone, Copy, PartialEq, Eq, Structural, Debug)]
pub struct FileHandle {
    pub worktree_id: usize,
    pub entry_id: u64,
}

impl FileHandle {
    pub fn new(worktree_id: usize, entry_id: u64) -> (h: FileHandle)
        ensures
            h.worktree_id == worktree_id,
            h.entry_id == entry_id,
    {
        FileHandle { worktree_id, entry_id }
    }

    /// The file's path inside the tree, per `Worktree::entry_path`.
    pub fn path(&self, tree: &Worktree) -> (r: Result<String, WtError>)
        ensures
            ({
                let c = crate::paths::chain_names(
                    tree.entries@,
                    self.entry_id,
                    tree.entries@.dom().len(),
                );
                match r {
                    Ok(s) => c is Some && s@ == crate::paths::join_slash(c->0),
                    Err(e) => c is None && e == WtError::NotFound,
                }
            }),
    {
        tree.entry_path(self.entry_id)
    }

    /// The cached content history of the file, if loaded.
    pub fn load_history(&self, tree: &Worktree) -> (r: Option<History>)
        ensures
            match r {
                Some(h) => tree.histories@.contains_key(self.entry_id) && h.base_text@
                    == tree.histories@[self.entry_id].base_text@,
                None => !tree.histories@.contains_key(self.entry_id),
            },
    {
        tree.load_history(self.entry_id)
    }

    /// Where and how a snapshot of the file is to be written.
    pub fn save(&self, tree: &Worktree, content: &Snapshot) -> (r: Result<SavePlan, WtError>)
        ensures
            ({
                let c = crate::paths::chain_names(
                    tree.entries@,
                    self.entry_id,
                    tree.entries@.dom().len(),
                );
                match r {
                    Ok(p) => c is Some && p.abs_path@ == crate::paths::abs_of(
                        tree.path@,
                        crate::paths::join_slash(c->0),
                    ) && p.buffer_size == if content.spec_char_len() < 10240 {
                        content.spec_char_len() as int
                    } else {
                        10240int
                    },
                    Err(e) => c is None && e == WtError::NotFound,
                }
            }),
    {
        tree.save(self.entry_id, content)
    }

    /// The pair identifying this file across worktrees.
    pub fn entry_id(&self) -> (r: (usize, u64))
        ensures
            r.0 == self.worktree_id,
            r.1 == self.entry_id,
    {
        (self.worktree_id, self.entry_id)
    }
}

} // verus!
