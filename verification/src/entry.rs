//! The records of the in-memory tree: directories and files.

use vstd::prelude::*;

verus! {

/// Status of the background walk that populates a worktree.
#[derive(Clone, Copy, PartialEq, Eq, Structural, Debug)]
pub enum ScanState {
    Scanning,
    Idle,
}

/// Failures reported by the library: an entry id that does not resolve,
/// either because it was never inserted or because its parent chain is
/// broken or cyclic (a structural inconsistency).
#[derive(Clone, Copy, PartialEq, Eq, Structural, Debug)]
pub enum WtError {
    NotFound,
}

/// One record of the tree.  Every non-root entry carries the id of its
/// parent directory; a directory carries the ordered ids of its children
/// once its listing has been finalized.
#[derive(Debug)]
pub enum Entry {
    Dir {
        parent: Option<u64>,
        name: String,
        ino: u64,
        is_symlink: bool,
        is_ignored: bool,
        children: Vec<u64>,
    },
    File {
        parent: Option<u64>,
        name: String,
        ino: u64,
        is_symlink: bool,
        is_ignored: bool,
    },
}

impl Entry {
    pub open spec fn spec_parent(&self) -> Option<u64> {
        match self {
            Entry::Dir { parent, .. } => *parent,
            Entry::File { parent, .. } => *parent,
        }
    }

    pub open spec fn spec_ino(&self) -> u64 {
        match self {
            Entry::Dir { ino, .. } => *ino,
            Entry::File { ino, .. } => *ino,
        }
    }

    pub open spec fn spec_name(&self) -> Seq<char> {
        match self {
            Entry::Dir { name, .. } => name@,
            Entry::File { name, .. } => name@,
        }
    }

    pub open spec fn spec_is_symlink(&self) -> bool {
        match self {
            Entry::Dir { is_symlink, .. } => *is_symlink,
            Entry::File { is_symlink, .. } => *is_symlink,
        }
    }

    pub open spec fn spec_is_ignored(&self) -> bool {
        match self {
            Entry::Dir { is_ignored, .. } => *is_ignored,
            Entry::File { is_ignored, .. } => *is_ignored,
        }
    }

    pub open spec fn spec_is_dir(&self) -> bool {
        match self {
            Entry::Dir { .. } => true,
            Entry::File { .. } => false,
        }
    }

    /// The finalized child list of a directory; a file has none.
    pub open spec fn spec_children(&self) -> Seq<u64> {
        match self {
            Entry::Dir { children, .. } => children@,
            Entry::File { .. } => Seq::empty(),
        }
    }

    pub fn parent(&self) -> (r: Option<u64>)
        ensures
            r == self.spec_parent(),
    {
        match self {
            Entry::Dir { parent, .. } => *parent,
            Entry::File { parent, .. } => *parent,
        }
    }

    pub fn ino(&self) -> (r: u64)
        ensures
            r == self.spec_ino(),
    {
        match self {
            Entry::Dir { ino, .. } => *ino,
            Entry::File { ino, .. } => *ino,
        }
    }

    pub fn name(&self) -> (r: &String)
        ensures
            r@ == self.spec_name(),
    {
        match self {
            Entry::Dir { name, .. } => name,
            Entry::File { name, .. } => name,
        }
    }

    pub fn is_ignored(&self) -> (r: bool)
        ensures
            r == self.spec_is_ignored(),
    {
        match self {
            Entry::Dir { is_ignored, .. } => *is_ignored,
            Entry::File { is_ignored, .. } => *is_ignored,
        }
    }

    pub fn is_dir(&self) -> (r: bool)
        ensures
            r == self.spec_is_dir(),
    {
        match self {
            Entry::Dir { .. } => true,
            Entry::File { .. } => false,
        }
    }

    pub fn is_symlink(&self) -> (r: bool)
        ensures
            r == self.spec_is_symlink(),
    {
        match self {
            Entry::Dir { is_symlink, .. } => *is_symlink,
            Entry::File { is_symlink, .. } => *is_symlink,
        }
    }
}

/// Field-for-field agreement of two entries, with text and child lists
/// compared by their views.
pub open spec fn entry_like(a: Entry, b: Entry) -> bool {
    &&& a.spec_parent() == b.spec_parent()
    &&& a.spec_ino() == b.spec_ino()
    &&& a.spec_name() == b.spec_name()
    &&& a.spec_is_symlink() == b.spec_is_symlink()
    &&& a.spec_is_ignored() == b.spec_is_ignored()
    &&& a.spec_is_dir() == b.spec_is_dir()
    &&& a.spec_children() == b.spec_children()
}

/// An exact copy of a list of ids.
fn copy_ids(v: &Vec<u64>) -> (r: Vec<u64>)
    ensures
        r@ == v@,
{
    let mut r: Vec<u64> = Vec::new();
    let mut i: usize = 0;
    while i < v.len()
        invariant
            i <= v.len(),
            r@ == v@.take(i as int),
        decreases v.len() - i,
    {
        r.push(v[i]);
        proof {
            assert(v@.take(i + 1 as int) =~= v@.take(i as int).push(v@[i as int]));
        }
        i += 1;
    }
    proof {
        assert(v@.take(v@.len() as int) =~= v@);
    }
    r
}

impl Clone for Entry {
    fn clone(&self) -> (r: Self)
        ensures
            entry_like(r, *self),
    {
        match self {
            Entry::Dir { parent, name, ino, is_symlink, is_ignored, children } => Entry::Dir {
                parent: *parent,
                name: name.clone(),
                ino: *ino,
                is_symlink: *is_symlink,
                is_ignored: *is_ignored,
                children: copy_ids(children),
            },
            Entry::File { parent, name, ino, is_symlink, is_ignored } => Entry::File {
                parent: *parent,
                name: name.clone(),
                ino: *ino,
                is_symlink: *is_symlink,
                is_ignored: *is_ignored,
            },
        }
    }
}

} // verus!
