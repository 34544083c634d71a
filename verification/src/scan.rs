//! The scanner: a job-driven walk of the subtree.  The embedding
//! application stats the root, lists directories, and hands each listing
//! back; every decision — ignore status, entry insertion, child-list
//! finalization, job creation — is made here.

use vstd::prelude::*;
use vstd::string::StrSliceExecFns;
use crate::entry::{ScanState, WtError};
use crate::ignore_rules::{derive_child_status, IgnoreChain};
use crate::paths::{display_name, display_name_str, join_one};
use crate::search::lower_of;
use crate::tree::{lemma_kept_children_all, Worktree};

verus! {

broadcast use vstd::std_specs::hash::group_hash_axioms;

/// What the application learned by statting the root path.
pub struct RootMeta {
    pub ino: u64,
    pub is_dir: bool,
    pub is_symlink: bool,
}

/// What the application learned about one child while listing a
/// directory.
pub struct ChildMeta {
    pub name: String,
    pub ino: u64,
    pub is_dir: bool,
    pub is_symlink: bool,
}

/// One directory whose children have not been listed yet.
pub struct ScanJob {
    pub dir_ino: u64,
    pub abs_path: String,
    pub rel_path: String,
    pub chain: Option<IgnoreChain>,
}

/// The state of one walk: the pending jobs, the root id to confirm when
/// the walk completes, and whether a branch failed.
pub struct Scanner {
    pub jobs: Vec<ScanJob>,
    pub root_ino: u64,
    pub failed: bool,
}

/// The directory children of a listing, in order.
pub open spec fn dirs_of(l: Seq<ChildMeta>) -> Seq<ChildMeta>
    decreases l.len(),
{
    if l.len() == 0 {
        Seq::empty()
    } else {
        let rest = dirs_of(l.drop_last());
        if l.last().is_dir {
            rest.push(l.last())
        } else {
            rest
        }
    }
}

/// The file children of a listing, in order.
pub open spec fn files_of(l: Seq<ChildMeta>) -> Seq<ChildMeta>
    decreases l.len(),
{
    if l.len() == 0 {
        Seq::empty()
    } else {
        let rest = files_of(l.drop_last());
        if l.last().is_dir {
            rest
        } else {
            rest.push(l.last())
        }
    }
}

/// A listing as the scanner expects one from a real directory: the job's
/// directory is a known directory entry, and the children are new ids,
/// distinct from each other and from the directory's own.
pub open spec fn clean_listing(
    m: Map<u64, crate::entry::Entry>,
    d: u64,
    l: Seq<ChildMeta>,
) -> bool {
    &&& m.contains_key(d)
    &&& m[d].spec_is_dir()
    &&& forall|i: int, j: int| #![trigger l[i].ino, l[j].ino] 0 <= i < l.len() && 0 <= j < l.len()
        && i != j ==> l[i].ino != l[j].ino
    &&& forall|i: int| 0 <= i < l.len() ==> (#[trigger] l[i].ino) != d && !m.contains_key(l[i].ino)
}

impl Worktree {
    /// Starts a walk: empties the mirror, inserts the root entry, and
    /// returns the scanner holding the initial job (none when the root
    /// is a plain file — no worker ever runs then).
    pub fn begin_scan(&mut self, root: RootMeta) -> (s: Scanner)
        requires
            old(self).wf(),
        ensures
            final(self).wf(),
            final(self).scan_state == ScanState::Scanning,
            final(self).root_ino is None,
            final(self).entries@.dom().len() == 1,
            final(self).entries@.contains_key(root.ino),
            ({
                let e = final(self).entries@[root.ino];
                e.spec_parent() is None && e.spec_name() == display_name(final(self).path@)
                && e.spec_ino() == root.ino && e.spec_is_symlink() == root.is_symlink
                && e.spec_is_dir() == root.is_dir
            }),
            root.is_dir && display_name(final(self).path@) == ".git"@
                ==> final(self).entries@[root.ino].spec_is_ignored(),
            root.is_dir ==> final(self).file_paths@.len() == 0 && s.jobs@.len() == 1 && ({
                let j = s.jobs@[0];
                j.dir_ino == root.ino && j.abs_path@ == final(self).path@
                && j.rel_path@ == display_name(final(self).path@)
                && (final(self).entries@[root.ino].spec_is_ignored() ==> j.chain is None)
            }),
            !root.is_dir ==> final(self).file_paths@.len() == 1 && s.jobs@.len() == 0 && ({
                let r = final(self).file_paths@[0];
                r.ino == root.ino && r.path@ == display_name(final(self).path@)
                && r.lowercase_path@ == lower_of(display_name(final(self).path@))
            }),
            s.root_ino == root.ino,
            !s.failed,
            crate::tree::parents_resolve(final(self).entries@),
            final(self).id == old(self).id,
            final(self).path == old(self).path,
            final(self).histories == old(self).histories,
    {
        self.entries.clear();
        self.file_paths.clear();
        self.root_ino = None;
        proof {
            assert(self.entries@ =~= Map::<u64, crate::entry::Entry>::empty());
            assert(crate::tree::entries_wf(self.entries@));
        }
        let name = display_name_str(self.path.as_str());
        let ancestors = IgnoreChain::for_ancestors(self.path.as_str());
        let git = String::from_str(".git");
        if root.is_dir {
            let chain = ancestors.descend(self.path.as_str());
            let is_ignored = chain.matched(self.path.as_str(), true) || name.eq(&git);
            self.insert_dir(None, name.clone(), root.ino, root.is_symlink, is_ignored);
            let job = ScanJob {
                dir_ino: root.ino,
                abs_path: self.path.clone(),
                rel_path: name,
                chain: if is_ignored {
                    None
                } else {
                    Some(chain)
                },
            };
            let mut jobs: Vec<ScanJob> = Vec::new();
            jobs.push(job);
            proof {
                assert(self.entries@.dom() =~= Set::<u64>::empty().insert(root.ino));
                assert(self.entries@.dom().len() == 1) by {
                    assert(Set::<u64>::empty().insert(root.ino).len() == 1);
                }
            }
            Scanner { jobs, root_ino: root.ino, failed: false }
        } else {
            let is_ignored = ancestors.matched(self.path.as_str(), false);
            self.insert_file(None, name.clone(), root.ino, root.is_symlink, is_ignored, name);
            proof {
                assert(self.entries@.dom() =~= Set::<u64>::empty().insert(root.ino));
                assert(self.entries@.dom().len() == 1) by {
                    assert(Set::<u64>::empty().insert(root.ino).len() == 1);
                }
                assert(self.file_paths@[0] == self.file_paths@.last());
            }
            Scanner { jobs: Vec::new(), root_ino: root.ino, failed: false }
        }
    }
}

impl Scanner {
    /// Takes one pending job; the caller lists that directory and hands
    /// the listing to `complete_job`, or reports failure to `fail_job`.
    pub fn take_job(&mut self) -> (r: Option<ScanJob>)
        ensures
            old(self).jobs@.len() == 0 ==> r is None && final(self).jobs@ == old(self).jobs@,
            old(self).jobs@.len() > 0 ==> r is Some && r->0 == old(self).jobs@.last()
                && final(self).jobs@ == old(self).jobs@.drop_last(),
            final(self).root_ino == old(self).root_ino,
            final(self).failed == old(self).failed,
    {
        let r = self.jobs.pop();
        match r {
            Some(j) => Some(j),
            None => None,
        }
    }

    /// Records that listing a directory failed; the branch is abandoned
    /// and the walk as a whole will not confirm a root.
    pub fn fail_job(&mut self, job: ScanJob)
        ensures
            final(self).failed,
            final(self).jobs == old(self).jobs,
            final(self).root_ino == old(self).root_ino,
    {
        let _ = job;
        self.failed = true;
    }

    pub fn pending_jobs(&self) -> (r: usize)
        ensures
            r == self.jobs@.len(),
    {
        self.jobs.len()
    }

    /// Applies one directory listing: derives each child's ignore
    /// status, inserts it, finalizes the directory's child list, and
    /// queues a job for each subdirectory.
    pub fn complete_job(&mut self, tree: &mut Worktree, job: ScanJob, listing: &Vec<ChildMeta>)
        requires
            old(tree).wf(),
        ensures
            final(tree).wf(),
            forall|k: u64| old(tree).entries@.contains_key(k)
                ==> final(tree).entries@.contains_key(k),
            final(tree).file_paths@.len() >= old(tree).file_paths@.len(),
            final(tree).file_paths@.take(old(tree).file_paths@.len() as int)
                == old(tree).file_paths@,
            final(self).jobs@.len() >= old(self).jobs@.len(),
            final(self).jobs@.take(old(self).jobs@.len() as int) == old(self).jobs@,
            final(self).root_ino == old(self).root_ino,
            final(self).failed == old(self).failed,
            final(tree).id == old(tree).id,
            final(tree).path == old(tree).path,
            final(tree).root_ino == old(tree).root_ino,
            final(tree).histories == old(tree).histories,
            clean_listing(old(tree).entries@, job.dir_ino, listing@) ==> ({
                let m = old(tree).entries@;
                let l = listing@;
                let d = job.dir_ino;
                let hidden = m[d].spec_is_ignored() || job.chain is None;
                &&& forall|k: u64| #![trigger final(tree).entries@[k]]
                    m.contains_key(k) && k != d ==> final(tree).entries@[k] == m[k]
                &&& forall|k: u64| final(tree).entries@.contains_key(k) && !m.contains_key(k)
                    ==> exists|j: int| 0 <= j < l.len() && l[j].ino == k
                &&& forall|i: int| #![trigger l[i].ino] 0 <= i < l.len() ==> {
                    let e = final(tree).entries@[l[i].ino];
                    &&& final(tree).entries@.contains_key(l[i].ino)
                    &&& e.spec_parent() == Some(d)
                    &&& e.spec_name() == l[i].name@
                    &&& e.spec_ino() == l[i].ino
                    &&& e.spec_is_symlink() == l[i].is_symlink
                    &&& e.spec_is_dir() == l[i].is_dir
                    &&& (hidden ==> e.spec_is_ignored())
                    &&& (l[i].is_dir && l[i].name@ == ".git"@ ==> e.spec_is_ignored())
                }
                &&& final(tree).entries@[d].spec_children() == l.map_values(
                    |c: ChildMeta| c.ino,
                )
                &&& final(tree).entries@[d].spec_is_ignored() == m[d].spec_is_ignored()
                &&& final(tree).entries@[d].spec_is_dir()
                &&& final(tree).file_paths@.len() == old(tree).file_paths@.len() + files_of(
                    l,
                ).len()
                &&& forall|j: int| #![trigger files_of(l)[j]] 0 <= j < files_of(l).len() ==> {
                    let r = final(tree).file_paths@[old(tree).file_paths@.len() + j];
                    &&& r.ino == files_of(l)[j].ino
                    &&& r.path@ == join_one(job.rel_path@, files_of(l)[j].name@)
                    &&& r.lowercase_path@ == lower_of(join_one(job.rel_path@, files_of(l)[j].name@))
                    &&& r.is_ignored == final(tree).entries@[files_of(l)[j].ino].spec_is_ignored()
                }
                &&& final(self).jobs@.len() == old(self).jobs@.len() + dirs_of(l).len()
                &&& forall|j: int| #![trigger dirs_of(l)[j]] 0 <= j < dirs_of(l).len() ==> {
                    let nj = final(self).jobs@[old(self).jobs@.len() + j];
                    &&& nj.dir_ino == dirs_of(l)[j].ino
                    &&& nj.abs_path@ == join_one(job.abs_path@, dirs_of(l)[j].name@)
                    &&& nj.rel_path@ == join_one(job.rel_path@, dirs_of(l)[j].name@)
                    &&& (final(tree).entries@[dirs_of(l)[j].ino].spec_is_ignored()
                        ==> nj.chain is None)
                    &&& (!final(tree).entries@[dirs_of(l)[j].ino].spec_is_ignored()
                        ==> nj.chain is Some)
                }
                &&& (crate::tree::parents_resolve(m) ==> crate::tree::parents_resolve(
                    final(tree).entries@,
                ))
            }),
    {
        let ghost m = tree.entries@;
        let ghost l = listing@;
        let ghost d = job.dir_ino;
        let ghost oldfp = tree.file_paths@;
        let ghost oldjobs = self.jobs@;
        let ghost clean = clean_listing(m, d, l);
        let dir_ignored: bool = match tree.entries.get(&job.dir_ino) {
            Some(e) => e.is_ignored(),
            None => true,
        };
        let eff_chain: Option<IgnoreChain> = if dir_ignored {
            None
        } else {
            job.chain
        };
        let ghost hidden = m.contains_key(d) ==> (m[d].spec_is_ignored() || ({
            let j2 = job;
            j2.chain
        }) is None);
        let mut new_children: Vec<u64> = Vec::new();
        let mut i: usize = 0;
        while i < listing.len()
            invariant
                i <= listing.len(),
                l == listing@,
                oldfp == old(tree).file_paths@,
                oldjobs == old(self).jobs@,
                m == old(tree).entries@,
                d == job.dir_ino,
                clean == clean_listing(m, d, l),
                tree.wf(),
                tree.id == old(tree).id,
                tree.path == old(tree).path,
                tree.root_ino == old(tree).root_ino,
                tree.histories == old(tree).histories,
                forall|k: u64| m.contains_key(k) ==> tree.entries@.contains_key(k),
                tree.file_paths@.len() >= oldfp.len(),
                tree.file_paths@.take(oldfp.len() as int) == oldfp,
                self.jobs@.len() >= oldjobs.len(),
                self.jobs@.take(oldjobs.len() as int) == oldjobs,
                self.root_ino == old(self).root_ino,
                self.failed == old(self).failed,
                clean ==> dir_ignored == m[d].spec_is_ignored(),
                clean ==> (eff_chain is None <==> (m[d].spec_is_ignored() || job.chain is None)),
                clean ==> ({
                    &&& forall|k: u64| #![trigger tree.entries@[k]]
                        m.contains_key(k) && k != d ==> tree.entries@[k] == m[k]
                    &&& forall|k: u64| m.contains_key(k) ==> tree.entries@.contains_key(k)
                    &&& forall|k: u64| tree.entries@.contains_key(k) && !m.contains_key(k)
                        ==> exists|j: int| 0 <= j < i && l[j].ino == k
                    &&& tree.entries@[d] == m[d]
                    &&& forall|j: int| #![trigger l[j].ino] 0 <= j < i ==> {
                        let e = tree.entries@[l[j].ino];
                        &&& tree.entries@.contains_key(l[j].ino)
                        &&& e.spec_parent() == Some(d)
                        &&& e.spec_name() == l[j].name@
                        &&& e.spec_ino() == l[j].ino
                        &&& e.spec_is_symlink() == l[j].is_symlink
                        &&& e.spec_is_dir() == l[j].is_dir
                        &&& ((m[d].spec_is_ignored() || job.chain is None)
                            ==> e.spec_is_ignored())
                        &&& (l[j].is_dir && l[j].name@ == ".git"@ ==> e.spec_is_ignored())
                    }
                    &&& (crate::tree::parents_resolve(m) ==> crate::tree::parents_resolve(
                        tree.entries@,
                    ))
                    &&& new_children@ == l.take(i as int).map_values(|c: ChildMeta| c.ino)
                    &&& tree.file_paths@.len() == oldfp.len() + files_of(l.take(i as int)).len()
                    &&& forall|j: int| #![trigger files_of(l.take(i as int))[j]]
                        0 <= j < files_of(l.take(i as int)).len() ==> {
                            let fl = files_of(l.take(i as int));
                            let r = tree.file_paths@[oldfp.len() + j];
                            &&& exists|j2: int| 0 <= j2 < i && l[j2].ino == fl[j].ino
                            &&& r.ino == fl[j].ino
                            &&& r.path@ == join_one(job.rel_path@, fl[j].name@)
                            &&& r.lowercase_path@ == lower_of(join_one(job.rel_path@, fl[j].name@))
                            &&& r.is_ignored == tree.entries@[fl[j].ino].spec_is_ignored()
                        }
                    &&& self.jobs@.len() == oldjobs.len() + dirs_of(l.take(i as int)).len()
                    &&& forall|j: int| #![trigger dirs_of(l.take(i as int))[j]]
                        0 <= j < dirs_of(l.take(i as int)).len() ==> {
                            let dl = dirs_of(l.take(i as int));
                            let nj = self.jobs@[oldjobs.len() + j];
                            &&& exists|j2: int| 0 <= j2 < i && l[j2].ino == dl[j].ino
                            &&& nj.dir_ino == dl[j].ino
                            &&& nj.abs_path@ == join_one(job.abs_path@, dl[j].name@)
                            &&& nj.rel_path@ == join_one(job.rel_path@, dl[j].name@)
                            &&& (tree.entries@[dl[j].ino].spec_is_ignored() ==> nj.chain is None)
                            &&& (!tree.entries@[dl[j].ino].spec_is_ignored()
                                ==> nj.chain is Some)
                        }
                }),
            decreases listing.len() - i,
        {
            let c = &listing[i];
            let abs = join_path(&job.abs_path, &c.name);
            let rel = join_path(&job.rel_path, &c.name);
            proof {
                assert(l.take(i + 1 as int).drop_last() =~= l.take(i as int));
                assert(l.take(i + 1 as int).last() == l[i as int]);
            }
            let ghost pre_entries = tree.entries@;
            let ghost pre_fp = tree.file_paths@;
            let ghost pre_jobs = self.jobs@;
            if c.is_dir {
                let (ign, child_chain) = derive_child_status(&eff_chain, &abs, &c.name, true);
                tree.insert_dir(Some(job.dir_ino), c.name.clone(), c.ino, c.is_symlink, ign);
                new_children.push(c.ino);
                self.jobs.push(ScanJob {
                    dir_ino: c.ino,
                    abs_path: abs,
                    rel_path: rel,
                    chain: child_chain,
                });
                proof {
                    assert(self.jobs@.take(oldjobs.len() as int) =~= pre_jobs.take(
                        oldjobs.len() as int,
                    ));
                    if clean {
                        assert(!pre_entries.contains_key(c.ino));
                        assert(tree.entries@ == pre_entries.insert(c.ino, tree.entries@[c.ino]));
                        assert(dirs_of(l.take(i + 1 as int)) =~= dirs_of(l.take(i as int)).push(
                            l[i as int],
                        ));
                        assert(files_of(l.take(i + 1 as int)) =~= files_of(l.take(i as int)));
                        assert(new_children@ =~= l.take(i + 1 as int).map_values(
                            |cc: ChildMeta| cc.ino,
                        ));
                    }
                }
            } else {
                let (ign, _nc) = derive_child_status(&eff_chain, &abs, &c.name, false);
                tree.insert_file(
                    Some(job.dir_ino),
                    c.name.clone(),
                    c.ino,
                    c.is_symlink,
                    ign,
                    rel,
                );
                new_children.push(c.ino);
                proof {
                    assert(tree.file_paths@.take(oldfp.len() as int) =~= pre_fp.take(
                        oldfp.len() as int,
                    ));
                    assert(tree.file_paths@.drop_last() == pre_fp);
                    if clean {
                        assert(!pre_entries.contains_key(c.ino));
                        assert(tree.entries@ == pre_entries.insert(c.ino, tree.entries@[c.ino]));
                        assert(files_of(l.take(i + 1 as int)) =~= files_of(l.take(i as int)).push(
                            l[i as int],
                        ));
                        assert(dirs_of(l.take(i + 1 as int)) =~= dirs_of(l.take(i as int)));
                        assert(new_children@ =~= l.take(i + 1 as int).map_values(
                            |cc: ChildMeta| cc.ino,
                        ));
                        assert(tree.file_paths@[oldfp.len() + files_of(l.take(i as int)).len()
                            as int] == tree.file_paths@.last());
                    }
                }
            }
            i += 1;
        }
        proof {
            assert(l.take(l.len() as int) =~= l);
        }
        let ghost pre_fin = tree.entries@;
        tree.finalize_children(job.dir_ino, new_children);
        proof {
            if clean {
                assert(pre_fin.contains_key(d));
                assert(pre_fin[d] == m[d]);
                assert(pre_fin[d].spec_is_dir());
                assert forall|j: int| 0 <= j < new_children@.len()
                implies crate::tree::keep_child_spec(pre_fin, d, #[trigger] new_children@[j]) by {
                    assert(new_children@[j] == l.map_values(|c: ChildMeta| c.ino)[j]);
                    assert(new_children@[j] == l[j].ino);
                }
                lemma_kept_children_all(pre_fin, d, new_children@);
                assert(final(tree).entries@[d].spec_children() == new_children@);
                assert(new_children@ =~= l.map_values(|c: ChildMeta| c.ino));
                assert(final(tree).file_paths@ == tree.file_paths@);
                assert forall|k: u64| #![trigger final(tree).entries@[k]]
                    m.contains_key(k) && k != d
                implies final(tree).entries@[k] == m[k] by {
                    assert(pre_fin[k] == m[k]);
                }
                assert forall|i2: int| #![trigger l[i2].ino] 0 <= i2 < l.len()
                implies final(tree).entries@.contains_key(l[i2].ino)
                    && final(tree).entries@[l[i2].ino] == pre_fin[l[i2].ino] by {
                    assert(l[i2].ino != d);
                }
            }
        }
    }

    /// Ends the walk: flips the scan state to idle, and — when no branch
    /// failed, no job is pending, and the root entry is present and
    /// parentless — confirms the root id.  With the tree's invariant
    /// (`at_most_one_root`), the confirmed root is then the unique entry
    /// with no parent.
    pub fn finish(self, tree: &mut Worktree) -> (r: Result<(), WtError>)
        requires
            old(tree).wf(),
        ensures
            final(tree).wf(),
            final(tree).scan_state == ScanState::Idle,
            final(tree).entries == old(tree).entries,
            final(tree).file_paths == old(tree).file_paths,
            final(tree).histories == old(tree).histories,
            final(tree).id == old(tree).id,
            final(tree).path == old(tree).path,
            r is Ok <==> (!self.failed && self.jobs@.len() == 0
                && old(tree).entries@.contains_key(self.root_ino)
                && old(tree).entries@[self.root_ino].spec_parent() is None),
            r is Ok ==> final(tree).root_ino == Some(self.root_ino)
                && final(tree).entries@[self.root_ino].spec_parent() is None,
            r is Err ==> final(tree).root_ino == old(tree).root_ino,
    {
        let root_ok: bool = match tree.lookup(self.root_ino) {
            Ok(e) => e.parent().is_none(),
            Err(_) => false,
        };
        let ok = !self.failed && self.jobs.len() == 0 && root_ok;
        if ok {
            tree.root_ino = Some(self.root_ino);
        }
        tree.scan_state = ScanState::Idle;
        if ok {
            Ok(())
        } else {
            Err(WtError::NotFound)
        }
    }
}

/// `join_one`, on strings.
fn join_path(pre: &String, name: &String) -> (r: String)
    ensures
        r@ == join_one(pre@, name@),
{
    let mut s = pre.clone();
    let sl = s.as_str().unicode_len();
    let sep = !(sl > 0 && s.as_str().get_char(sl - 1) == '/');
    proof {
        if sl > 0 {
            assert(s@.last() == s@[sl - 1]);
        }
    }
    if sep {
        s.append("/");
    }
    s.append(name.as_str());
    proof {
        reveal_strlit("/");
        assert("/"@ =~= seq!['/']);
    }
    s
}

} // verus!
