//! The entry store: the authoritative mapping from stable id to entry,
//! with parent/child links, path resolution, and the per-tree state that
//! the scanner populates.

use vstd::prelude::*;
use crate::content::History;
use crate::entry::{Entry, ScanState, WtError};
use crate::search::{char_bag_of, chars_vec, lower_of, lowercase, PathEntry};
use std::collections::HashMap;

verus! {

broadcast use vstd::std_specs::hash::group_hash_axioms;

/// Referential integrity of the stored tree: every id in a finalized
/// child list resolves to an entry whose parent id is the listing
/// directory, and an ignored directory lists only ignored children.
pub open spec fn entries_wf(m: Map<u64, Entry>) -> bool {
    forall|p: u64, i: int|
        #![trigger m[p].spec_children()[i]]
        m.contains_key(p) && 0 <= i < m[p].spec_children().len() ==> {
            let c = m[p].spec_children()[i];
            &&& m.contains_key(c)
            &&& m[c].spec_parent() == Some(p)
            &&& (m[p].spec_is_ignored() ==> m[c].spec_is_ignored())
        }
}

/// Whether a child id may stand in the finalized list of `dir`: it must
/// resolve to an entry naming `dir` as its parent, and may not break the
/// downward monotonicity of the ignored flag.
pub open spec fn keep_child_spec(m: Map<u64, Entry>, dir: u64, c: u64) -> bool {
    &&& m.contains_key(c)
    &&& m[c].spec_parent() == Some(dir)
    &&& (m[dir].spec_is_ignored() ==> m[c].spec_is_ignored())
}

/// The subsequence of `s` whose elements satisfy `keep_child_spec`.
pub open spec fn kept_children(m: Map<u64, Entry>, dir: u64, s: Seq<u64>) -> Seq<u64>
    decreases s.len(),
{
    if s.len() == 0 {
        Seq::empty()
    } else {
        let rest = kept_children(m, dir, s.drop_last());
        if keep_child_spec(m, dir, s.last()) {
            rest.push(s.last())
        } else {
            rest
        }
    }
}

/// On a listing whose ids all satisfy `keep_child_spec`, finalization
/// keeps the list exactly as given.
pub proof fn lemma_kept_children_all(m: Map<u64, Entry>, dir: u64, s: Seq<u64>)
    requires
        forall|i: int| 0 <= i < s.len() ==> keep_child_spec(m, dir, #[trigger] s[i]),
    ensures
        kept_children(m, dir, s) == s,
    decreases s.len(),
{
    if s.len() == 0 {
        assert(kept_children(m, dir, s) =~= s);
    } else {
        assert(forall|i: int|
            0 <= i < s.drop_last().len() ==> keep_child_spec(m, dir, #[trigger] s.drop_last()[i]));
        lemma_kept_children_all(m, dir, s.drop_last());
        assert(keep_child_spec(m, dir, s.last()));
        assert(kept_children(m, dir, s) =~= s);
    }
}

/// Referential integrity, stated for one finalized child: in a
/// well-formed tree every listed child resolves to an entry whose parent
/// id equals the listing directory's id.
pub proof fn lemma_children_resolve(m: Map<u64, Entry>, d: u64, i: int)
    requires
        entries_wf(m),
        m.contains_key(d),
        0 <= i < m[d].spec_children().len(),
    ensures
        m.contains_key(m[d].spec_children()[i]),
        m[m[d].spec_children()[i]].spec_parent() == Some(d),
        m[d].spec_is_ignored() ==> m[m[d].spec_children()[i]].spec_is_ignored(),
{
}

/// A downward path through finalized child lists: each id is listed as a
/// child of the one before it, and all of them resolve.
pub open spec fn is_child_path(m: Map<u64, Entry>, p: Seq<u64>) -> bool {
    &&& p.len() >= 1
    &&& forall|i: int| 0 <= i < p.len() ==> m.contains_key(#[trigger] p[i])
    &&& forall|i: int| #![trigger p[i]] 0 <= i < p.len() - 1 ==> m[p[i]].spec_children().contains(p[i + 1])
}

/// Ignoring is monotone downward: in a well-formed tree, every entry
/// reachable through finalized child lists from an ignored directory is
/// itself ignored; nothing un-ignores a descendant.
pub proof fn lemma_ignore_monotone(m: Map<u64, Entry>, p: Seq<u64>)
    requires
        entries_wf(m),
        is_child_path(m, p),
        m[p[0]].spec_is_ignored(),
    ensures
        m[p.last()].spec_is_ignored(),
    decreases p.len(),
{
    if p.len() == 1 {
    } else {
        let c = p[1];
        assert(m[p[0]].spec_children().contains(c));
        let j = choose|j: int| 0 <= j < m[p[0]].spec_children().len() && m[p[0]].spec_children()[j] == c;
        assert(m[p[0]].spec_children()[j] == c);
        assert(m[c].spec_is_ignored());
        let q = p.drop_first();
        assert(is_child_path(m, q)) by {
            assert(forall|i: int| 0 <= i < q.len() ==> q[i] == p[i + 1]);
            assert(forall|i: int| 0 <= i < q.len() ==> m.contains_key(#[trigger] q[i]));
            assert(forall|i: int| #![trigger q[i]] 0 <= i < q.len() - 1
                ==> m[q[i]].spec_children().contains(q[i + 1]));
        }
        lemma_ignore_monotone(m, q);
        assert(q.last() == p.last());
    }
}

/// A copy of a list of ids with every occurrence of one id removed; the
/// kept elements all come from the given list.
fn filter_out(v: &Vec<u64>, x: u64) -> (r: Vec<u64>)
    ensures
        forall|j: int| 0 <= j < r@.len() ==> r@[j] != x && v@.contains(#[trigger] r@[j]),
{
    let mut r: Vec<u64> = Vec::new();
    let mut i: usize = 0;
    while i < v.len()
        invariant
            i <= v.len(),
            forall|j: int| 0 <= j < r@.len() ==> r@[j] != x && v@.contains(#[trigger] r@[j]),
        decreases v.len() - i,
    {
        if v[i] != x {
            proof {
                assert(v@.contains(v@[i as int]));
            }
            r.push(v[i]);
        }
        i += 1;
    }
    r
}

/// Every stored entry's parent id keys an existing directory entry: the
/// other direction of the data model's links, holding of the state a
/// completed clean scan leaves.
pub open spec fn parents_resolve(m: Map<u64, Entry>) -> bool {
    forall|k: u64|
        #![trigger m[k].spec_parent()]
        m.contains_key(k) && m[k].spec_parent() is Some ==> m.contains_key(m[k].spec_parent()->0)
            && m[m[k].spec_parent()->0].spec_is_dir()
}

/// At most one stored entry is parentless: the data model's unique root.
pub open spec fn at_most_one_root(m: Map<u64, Entry>) -> bool {
    forall|k1: u64, k2: u64|
        #![trigger m[k1].spec_parent(), m[k2].spec_parent()]
        m.contains_key(k1) && m.contains_key(k2) && m[k1].spec_parent() is None
            && m[k2].spec_parent() is None ==> k1 == k2
}

/// The root is the unique entry with no parent: in a well-formed tree
/// whose confirmed root entry is parentless, every parentless entry is
/// the root.
pub proof fn lemma_unique_root(t: &Worktree, k: u64)
    requires
        t.wf(),
        t.root_ino is Some,
        t.entries@[t.root_ino->0].spec_parent() is None,
        t.entries@.contains_key(k),
        t.entries@[k].spec_parent() is None,
    ensures
        k == t.root_ino->0,
{
}

/// The in-memory mirror of one root directory (or single file), plus its
/// scan, search, and content-cache state.
pub struct Worktree {
    pub id: usize,
    pub path: String,
    pub root_ino: Option<u64>,
    pub entries: HashMap<u64, Entry>,
    pub file_paths: Vec<PathEntry>,
    pub histories: HashMap<u64, History>,
    pub scan_state: ScanState,
}

impl Worktree {
    pub open spec fn wf(&self) -> bool {
        &&& entries_wf(self.entries@)
        &&& at_most_one_root(self.entries@)
        &&& match self.root_ino {
            Some(r) => self.entries@.contains_key(r),
            None => true,
        }
    }

    /// A fresh, empty worktree bound to a numeric id and a root path.
    /// The embedding application starts the background scan separately.
    pub fn new(id: usize, path: String) -> (t: Worktree)
        ensures
            t.wf(),
            t.id == id,
            t.path@ == path@,
            t.root_ino is None,
            t.entries@ == Map::<u64, Entry>::empty(),
            t.file_paths@.len() == 0,
            t.histories@ == Map::<u64, History>::empty(),
            t.scan_state == ScanState::Scanning,
    {
        let t = Worktree {
            id,
            path,
            root_ino: None,
            entries: HashMap::new(),
            file_paths: Vec::new(),
            histories: HashMap::new(),
            scan_state: ScanState::Scanning,
        };
        proof {
            assert(t.entries@ =~= Map::<u64, Entry>::empty());
            assert(t.histories@ =~= Map::<u64, History>::empty());
        }
        t
    }

    /// Adds one entry under its id.  If the id is already present under a
    /// parent, the stale occurrence is first detached from that parent's
    /// child list, so that finalized lists keep resolving to entries that
    /// name them as parent.
    fn insert_entry(&mut self, ino: u64, e: Entry)
        requires
            old(self).wf(),
            e.spec_children().len() == 0,
            e.spec_parent() is Some || forall|k: u64|
                old(self).entries@.contains_key(k)
                    ==> (#[trigger] old(self).entries@[k].spec_parent()) is Some,
        ensures
            final(self).wf(),
            forall|p: u64, i: int|
                #![trigger final(self).entries@[p].spec_children()[i]]
                final(self).entries@.contains_key(p) && p != ino
                    && 0 <= i < final(self).entries@[p].spec_children().len()
                    ==> final(self).entries@[p].spec_children()[i] != ino,
            final(self).entries@.contains_key(ino),
            final(self).entries@[ino] == e,
            final(self).entries@.dom() == old(self).entries@.dom().insert(ino),
            forall|k: u64| old(self).entries@.contains_key(k)
                ==> final(self).entries@.contains_key(k),
            !old(self).entries@.contains_key(ino)
                ==> final(self).entries@ == old(self).entries@.insert(ino, e),
            forall|k: u64| #![trigger final(self).entries@[k]]
                old(self).entries@.contains_key(k) && k != ino ==> {
                    let a = final(self).entries@[k];
                    let b = old(self).entries@[k];
                    a.spec_parent() == b.spec_parent()
                    && a.spec_name() == b.spec_name()
                    && a.spec_ino() == b.spec_ino()
                    && a.spec_is_symlink() == b.spec_is_symlink()
                    && a.spec_is_ignored() == b.spec_is_ignored()
                    && a.spec_is_dir() == b.spec_is_dir()
                },
            final(self).id == old(self).id,
            final(self).path == old(self).path,
            final(self).root_ino == old(self).root_ino,
            final(self).file_paths == old(self).file_paths,
            final(self).histories == old(self).histories,
            final(self).scan_state == old(self).scan_state,
    {
        let ghost m = self.entries@;
        let old_parent: Option<u64> = match self.entries.get(&ino) {
            Some(oe) => oe.parent(),
            None => None,
        };
        if let Some(q) = old_parent {
            let repaired: Option<Entry> = match self.entries.get(&q) {
                Some(Entry::Dir { parent, name, ino: qino, is_symlink, is_ignored, children }) => {
                    let kept = filter_out(children, ino);
                    Some(Entry::Dir {
                        parent: *parent,
                        name: name.clone(),
                        ino: *qino,
                        is_symlink: *is_symlink,
                        is_ignored: *is_ignored,
                        children: kept,
                    })
                },
                _ => None,
            };
            if let Some(rq) = repaired {
                self.entries.insert(q, rq);
            }
        }
        let ghost m1 = self.entries@;
        proof {
            // The repaired map is still well formed, and the stale id is
            // no longer listed anywhere.
            assert(entries_wf(m1) && (forall|p: u64, i: int|
                #![trigger m1[p].spec_children()[i]]
                m1.contains_key(p) && 0 <= i < m1[p].spec_children().len()
                    ==> m1[p].spec_children()[i] != ino)) by {
                if m.contains_key(ino) && m[ino].spec_parent() is Some {
                    let q = m[ino].spec_parent()->0;
                    if m.contains_key(q) && m[q].spec_is_dir() {
                        assert forall|p: u64, i: int|
                            #![trigger m1[p].spec_children()[i]]
                            m1.contains_key(p) && 0 <= i < m1[p].spec_children().len()
                        implies ({
                            let c = m1[p].spec_children()[i];
                            m1.contains_key(c) && m1[c].spec_parent() == Some(p)
                            && (m1[p].spec_is_ignored() ==> m1[c].spec_is_ignored())
                            && c != ino
                        }) by {
                            if p == q {
                                let c = m1[q].spec_children()[i];
                                assert(m[q].spec_children().contains(c));
                                let j = choose|j: int| 0 <= j < m[q].spec_children().len()
                                    && m[q].spec_children()[j] == c;
                                assert(m[q].spec_children()[j] == c);
                                assert(c != ino);
                            } else {
                                let c = m1[p].spec_children()[i];
                                assert(m[p].spec_children()[i] == c);
                                if c == ino {
                                    assert(m[c].spec_parent() == Some(p));
                                    assert(false);
                                }
                            }
                        }
                    } else {
                        // q is absent or a file: nothing listed ino, since a
                        // lister would itself be q.
                        assert(m1 == m);
                        assert forall|p: u64, i: int|
                            #![trigger m1[p].spec_children()[i]]
                            m1.contains_key(p) && 0 <= i < m1[p].spec_children().len()
                        implies m1[p].spec_children()[i] != ino by {
                            let c = m[p].spec_children()[i];
                            if c == ino {
                                assert(m[ino].spec_parent() == Some(p));
                                assert(p == q);
                                assert(m[p].spec_children().len() > 0);
                                assert(m[p].spec_is_dir());
                                assert(false);
                            }
                        }
                    }
                } else {
                    assert(m1 == m);
                    assert forall|p: u64, i: int|
                        #![trigger m1[p].spec_children()[i]]
                        m1.contains_key(p) && 0 <= i < m1[p].spec_children().len()
                    implies m1[p].spec_children()[i] != ino by {
                        let c = m[p].spec_children()[i];
                        if c == ino {
                            assert(m[ino].spec_parent() == Some(p));
                            assert(false);
                        }
                    }
                }
            }
        }
        self.entries.insert(ino, e);
        proof {
            let m2 = self.entries@;
            assert(entries_wf(m2)) by {
                assert forall|p: u64, i: int|
                    #![trigger m2[p].spec_children()[i]]
                    m2.contains_key(p) && 0 <= i < m2[p].spec_children().len()
                implies ({
                    let c = m2[p].spec_children()[i];
                    m2.contains_key(c) && m2[c].spec_parent() == Some(p)
                    && (m2[p].spec_is_ignored() ==> m2[c].spec_is_ignored())
                }) by {
                    if p != ino {
                        assert(m2[p] == m1[p]);
                        let c = m1[p].spec_children()[i];
                        assert(m1[p].spec_children()[i] == c);
                        assert(c != ino);
                        assert(m2[c] == m1[c]);
                    }
                }
            }
            assert(m2.dom() =~= m.dom().insert(ino));
            assert(at_most_one_root(m2)) by {
                assert forall|k1: u64, k2: u64|
                    #![trigger m2[k1].spec_parent(), m2[k2].spec_parent()]
                    m2.contains_key(k1) && m2.contains_key(k2) && m2[k1].spec_parent() is None
                        && m2[k2].spec_parent() is None
                implies k1 == k2 by {
                    if k1 != ino && k2 != ino {
                        assert(m1[k1].spec_parent() == m[k1].spec_parent());
                        assert(m1[k2].spec_parent() == m[k2].spec_parent());
                    } else if e.spec_parent() is Some {
                    } else {
                        if k1 != ino {
                            assert(m[k1].spec_parent() is Some);
                        }
                        if k2 != ino {
                            assert(m[k2].spec_parent() is Some);
                        }
                    }
                }
            }
            assert forall|p: u64, i: int|
                #![trigger m2[p].spec_children()[i]]
                m2.contains_key(p) && p != ino && 0 <= i < m2[p].spec_children().len()
            implies m2[p].spec_children()[i] != ino by {
                assert(m2[p] == m1[p]);
                assert(m1[p].spec_children()[i] == m2[p].spec_children()[i]);
            }
            if !m.contains_key(ino) {
                assert(m1 == m);
                assert(m2 =~= m.insert(ino, e));
            }
        }
    }

    /// Adds one directory entry with an empty (not yet known) child list
    /// and marks the tree as scanning.
    pub fn insert_dir(
        &mut self,
        parent: Option<u64>,
        name: String,
        ino: u64,
        is_symlink: bool,
        is_ignored: bool,
    )
        requires
            old(self).wf(),
            parent is Some || forall|k: u64|
                old(self).entries@.contains_key(k)
                    ==> (#[trigger] old(self).entries@[k].spec_parent()) is Some,
        ensures
            final(self).wf(),
            forall|p: u64, i: int|
                #![trigger final(self).entries@[p].spec_children()[i]]
                final(self).entries@.contains_key(p) && p != ino
                    && 0 <= i < final(self).entries@[p].spec_children().len()
                    ==> final(self).entries@[p].spec_children()[i] != ino,
            final(self).scan_state == ScanState::Scanning,
            final(self).entries@.contains_key(ino),
            ({
                let e = final(self).entries@[ino];
                e.spec_parent() == parent && e.spec_name() == name@ && e.spec_ino() == ino
                && e.spec_is_symlink() == is_symlink && e.spec_is_ignored() == is_ignored
                && e.spec_is_dir() && e.spec_children().len() == 0
            }),
            final(self).entries@.dom() == old(self).entries@.dom().insert(ino),
            forall|k: u64| old(self).entries@.contains_key(k)
                ==> final(self).entries@.contains_key(k),
            !old(self).entries@.contains_key(ino) ==> final(self).entries@
                == old(self).entries@.insert(ino, final(self).entries@[ino]),
            forall|k: u64| #![trigger final(self).entries@[k]]
                old(self).entries@.contains_key(k) && k != ino ==> {
                    let a = final(self).entries@[k];
                    let b = old(self).entries@[k];
                    a.spec_parent() == b.spec_parent()
                    && a.spec_name() == b.spec_name()
                    && a.spec_is_symlink() == b.spec_is_symlink()
                    && a.spec_is_ignored() == b.spec_is_ignored()
                    && a.spec_is_dir() == b.spec_is_dir()
                },
            final(self).id == old(self).id,
            final(self).path == old(self).path,
            final(self).root_ino == old(self).root_ino,
            final(self).file_paths == old(self).file_paths,
            final(self).histories == old(self).histories,
    {
        let e = Entry::Dir { parent, name, ino, is_symlink, is_ignored, children: Vec::new() };
        self.insert_entry(ino, e);
        self.scan_state = ScanState::Scanning;
    }

    /// Adds one file entry and appends its search record, built from the
    /// file's path relative to the worktree root; marks the tree as
    /// scanning.
    pub fn insert_file(
        &mut self,
        parent: Option<u64>,
        name: String,
        ino: u64,
        is_symlink: bool,
        is_ignored: bool,
        rel_path: String,
    )
        requires
            old(self).wf(),
            parent is Some || forall|k: u64|
                old(self).entries@.contains_key(k)
                    ==> (#[trigger] old(self).entries@[k].spec_parent()) is Some,
        ensures
            final(self).wf(),
            forall|p: u64, i: int|
                #![trigger final(self).entries@[p].spec_children()[i]]
                final(self).entries@.contains_key(p) && p != ino
                    && 0 <= i < final(self).entries@[p].spec_children().len()
                    ==> final(self).entries@[p].spec_children()[i] != ino,
            final(self).scan_state == ScanState::Scanning,
            final(self).entries@.contains_key(ino),
            ({
                let e = final(self).entries@[ino];
                e.spec_parent() == parent && e.spec_name() == name@ && e.spec_ino() == ino
                && e.spec_is_symlink() == is_symlink && e.spec_is_ignored() == is_ignored
                && !e.spec_is_dir() && e.spec_children().len() == 0
            }),
            final(self).entries@.dom() == old(self).entries@.dom().insert(ino),
            forall|k: u64| old(self).entries@.contains_key(k)
                ==> final(self).entries@.contains_key(k),
            !old(self).entries@.contains_key(ino) ==> final(self).entries@
                == old(self).entries@.insert(ino, final(self).entries@[ino]),
            forall|k: u64| #![trigger final(self).entries@[k]]
                old(self).entries@.contains_key(k) && k != ino ==> {
                    let a = final(self).entries@[k];
                    let b = old(self).entries@[k];
                    a.spec_parent() == b.spec_parent()
                    && a.spec_name() == b.spec_name()
                    && a.spec_is_symlink() == b.spec_is_symlink()
                    && a.spec_is_ignored() == b.spec_is_ignored()
                    && a.spec_is_dir() == b.spec_is_dir()
                },
            final(self).file_paths@.len() == old(self).file_paths@.len() + 1,
            final(self).file_paths@.drop_last() == old(self).file_paths@,
            ({
                let r = final(self).file_paths@.last();
                r.ino == ino && r.path@ == rel_path@ && r.lowercase_path@ == lower_of(rel_path@)
                && r.path_chars.bits == crate::search::bag_of(rel_path@)
                && r.is_ignored == is_ignored
            }),
            final(self).id == old(self).id,
            final(self).path == old(self).path,
            final(self).root_ino == old(self).root_ino,
            final(self).histories == old(self).histories,
    {
        let path_vec = chars_vec(rel_path.as_str());
        let lower = lowercase(rel_path.as_str());
        let lowercase_path = chars_vec(lower.as_str());
        let path_chars = char_bag_of(&path_vec);
        let record = PathEntry {
            ino,
            path_chars,
            path: path_vec,
            lowercase_path,
            is_ignored,
        };
        let e = Entry::File { parent, name, ino, is_symlink, is_ignored };
        self.insert_entry(ino, e);
        self.file_paths.push(record);
        self.scan_state = ScanState::Scanning;
        proof {
            assert(final(self).file_paths@.drop_last() =~= old(self).file_paths@);
        }
    }

    /// Atomically replaces a directory's child list once its full listing
    /// is known.  Ids that do not resolve to an entry naming this
    /// directory as parent — a structural inconsistency — are dropped;
    /// on a listing produced by the scanner nothing is dropped.
    pub fn finalize_children(&mut self, dir_ino: u64, children: Vec<u64>)
        requires
            old(self).wf(),
        ensures
            final(self).wf(),
            final(self).entries@.dom() == old(self).entries@.dom(),
            forall|k: u64| #![trigger final(self).entries@[k]]
                old(self).entries@.contains_key(k) && k != dir_ino
                    ==> final(self).entries@[k] == old(self).entries@[k],
            old(self).entries@.contains_key(dir_ino) && old(self).entries@[dir_ino].spec_is_dir()
                ==> ({
                    let a = final(self).entries@[dir_ino];
                    let b = old(self).entries@[dir_ino];
                    a.spec_parent() == b.spec_parent()
                    && a.spec_name() == b.spec_name()
                    && a.spec_ino() == b.spec_ino()
                    && a.spec_is_symlink() == b.spec_is_symlink()
                    && a.spec_is_ignored() == b.spec_is_ignored()
                    && a.spec_is_dir()
                    && a.spec_children() == kept_children(old(self).entries@, dir_ino, children@)
                }),
            !(old(self).entries@.contains_key(dir_ino)
                && old(self).entries@[dir_ino].spec_is_dir())
                ==> final(self).entries@ == old(self).entries@,
            final(self).id == old(self).id,
            final(self).path == old(self).path,
            final(self).root_ino == old(self).root_ino,
            final(self).file_paths == old(self).file_paths,
            final(self).histories == old(self).histories,
            final(self).scan_state == old(self).scan_state,
    {
        let ghost m = self.entries@;
        let dir_ignored: bool;
        match self.entries.get(&dir_ino) {
            Some(e) => {
                if !e.is_dir() {
                    return ;
                }
                dir_ignored = e.is_ignored();
            },
            None => {
                return ;
            },
        }
        let mut kept: Vec<u64> = Vec::new();
        let mut j: usize = 0;
        while j < children.len()
            invariant
                j <= children.len(),
                self == old(self),
                m == self.entries@,
                m.contains_key(dir_ino),
                m[dir_ino].spec_is_dir(),
                dir_ignored == m[dir_ino].spec_is_ignored(),
                kept@ == kept_children(m, dir_ino, children@.take(j as int)),
                forall|i: int| 0 <= i < kept@.len()
                    ==> keep_child_spec(m, dir_ino, #[trigger] kept@[i]),
            decreases children.len() - j,
        {
            let c = children[j];
            let ok: bool = match self.entries.get(&c) {
                Some(ce) => {
                    match ce.parent() {
                        Some(pp) => pp == dir_ino && (!dir_ignored || ce.is_ignored()),
                        None => false,
                    }
                },
                None => false,
            };
            proof {
                assert(ok == keep_child_spec(m, dir_ino, c));
                assert(children@.take(j + 1 as int).drop_last() =~= children@.take(j as int));
                assert(children@.take(j + 1 as int).last() == children@[j as int]);
            }
            if ok {
                kept.push(c);
            }
            j += 1;
        }
        proof {
            assert(children@.take(children@.len() as int) =~= children@);
        }
        let newdir: Entry = match self.entries.get(&dir_ino) {
            Some(Entry::Dir { parent, name, ino, is_symlink, is_ignored, .. }) => Entry::Dir {
                parent: *parent,
                name: name.clone(),
                ino: *ino,
                is_symlink: *is_symlink,
                is_ignored: *is_ignored,
                children: kept,
            },
            _ => {
                proof {
                    assert(false);
                }
                return ;
            },
        };
        self.entries.insert(dir_ino, newdir);
        proof {
            let m2 = self.entries@;
            assert(entries_wf(m2)) by {
                assert forall|p: u64, i: int|
                    #![trigger m2[p].spec_children()[i]]
                    m2.contains_key(p) && 0 <= i < m2[p].spec_children().len()
                implies ({
                    let c = m2[p].spec_children()[i];
                    m2.contains_key(c) && m2[c].spec_parent() == Some(p)
                    && (m2[p].spec_is_ignored() ==> m2[c].spec_is_ignored())
                }) by {
                    if p == dir_ino {
                        let c = m2[dir_ino].spec_children()[i];
                        assert(keep_child_spec(m, dir_ino, c));
                        if c == dir_ino {
                            assert(m2[c].spec_parent() == m[dir_ino].spec_parent());
                        }
                    } else {
                        assert(m2[p] == m[p]);
                        let c = m[p].spec_children()[i];
                        assert(m[p].spec_children()[i] == c);
                        if c == dir_ino {
                            assert(m2[c].spec_parent() == m[dir_ino].spec_parent());
                            assert(m2[c].spec_is_ignored() == m[dir_ino].spec_is_ignored());
                        } else {
                            assert(m2[c] == m[c]);
                        }
                    }
                }
            }
            assert(m2.dom() =~= m.dom());
        }
    }

    pub fn has_entry(&self, entry_id: u64) -> (r: bool)
        ensures
            r == self.entries@.contains_key(entry_id),
    {
        self.entries.contains_key(&entry_id)
    }

    pub fn entry_count(&self) -> (r: usize)
        ensures
            r == self.entries@.dom().len(),
    {
        self.entries.len()
    }

    pub fn file_count(&self) -> (r: usize)
        ensures
            r == self.file_paths@.len(),
    {
        self.file_paths.len()
    }

    /// Looks an entry up by id; fails with NotFound if the id is absent
    /// (for instance stale after a structural change).
    pub fn lookup(&self, entry_id: u64) -> (r: Result<&Entry, WtError>)
        ensures
            match r {
                Ok(e) => self.entries@.contains_key(entry_id) && *e == self.entries@[entry_id],
                Err(err) => !self.entries@.contains_key(entry_id) && err == WtError::NotFound,
            },
    {
        match self.entries.get(&entry_id) {
            Some(e) => Ok(e),
            None => Err(WtError::NotFound),
        }
    }

    /// The root entry, once the initial scan has confirmed it.
    pub fn root_entry(&self) -> (r: Option<&Entry>)
        ensures
            match r {
                Some(e) => self.root_ino is Some
                    && self.entries@.contains_key(self.root_ino->0)
                    && *e == self.entries@[self.root_ino->0],
                None => match self.root_ino {
                    Some(ri) => !self.entries@.contains_key(ri),
                    None => true,
                },
            },
    {
        match self.root_ino {
            Some(ri) => self.entries.get(&ri),
            None => None,
        }
    }
}

} // verus!
