//! Path resolution: reconstructing an entry's path from its parent
//! chain, and the string helpers the scanner uses on plain `/`-separated
//! path text.

use vstd::prelude::*;
use vstd::string::{StrSliceExecFns, StringExecFns};
use crate::entry::{Entry, WtError};
use crate::tree::Worktree;

verus! {

broadcast use vstd::std_specs::hash::group_hash_axioms;

/// The names along an entry's parent chain, root first.  `fuel` bounds
/// the number of parent links followed; a chain that is broken (a missing
/// id) or does not reach the root within `fuel` steps — a structural
/// inconsistency — yields `None`.
pub open spec fn chain_names(m: Map<u64, Entry>, id: u64, fuel: nat) -> Option<Seq<Seq<char>>>
    decreases fuel,
{
    if !m.contains_key(id) {
        None
    } else {
        match m[id].spec_parent() {
            None => Some(seq![m[id].spec_name()]),
            Some(p) => if fuel == 0 {
                None
            } else {
                match chain_names(m, p, (fuel - 1) as nat) {
                    None => None,
                    Some(s) => Some(s.push(m[id].spec_name())),
                }
            },
        }
    }
}

/// One more component joined onto a path: a `/` separates them unless
/// the path already ends in one (the root named `/` adds none).
pub open spec fn join_one(pre: Seq<char>, name: Seq<char>) -> Seq<char> {
    if pre.len() > 0 && pre.last() == '/' {
        pre + name
    } else {
        pre + seq!['/'] + name
    }
}

/// Components joined with `/` between each pair.
pub open spec fn join_slash(names: Seq<Seq<char>>) -> Seq<char>
    decreases names.len(),
{
    if names.len() == 0 {
        Seq::empty()
    } else if names.len() == 1 {
        names[0]
    } else {
        join_one(join_slash(names.drop_last()), names.last())
    }
}

pub open spec fn views_of(v: Seq<String>) -> Seq<Seq<char>> {
    v.map_values(|s: String| s@)
}

/// Everything before the last `/` of a path, or empty when it has none.
pub open spec fn dir_part(s: Seq<char>) -> Seq<char>
    decreases s.len(),
{
    if s.len() == 0 {
        s
    } else if s.last() == '/' {
        s.drop_last()
    } else {
        dir_part(s.drop_last())
    }
}

/// Everything after the last `/` of a path; empty when it ends in `/`.
pub open spec fn base_name(s: Seq<char>) -> Seq<char>
    decreases s.len(),
{
    if s.len() == 0 {
        Seq::empty()
    } else if s.last() == '/' {
        Seq::empty()
    } else {
        base_name(s.drop_last()).push(s.last())
    }
}

/// The visible name of a root path: its last component, or `/` when the
/// path has no usable last component.
pub open spec fn display_name(s: Seq<char>) -> Seq<char> {
    if base_name(s).len() == 0 {
        seq!['/']
    } else {
        base_name(s)
    }
}

/// An absolute path: the parent of the root path joined with a path
/// relative to the root.  The parent of a root directly under `/` is
/// `/` itself; a relative root without a parent leaves the relative
/// path as it is.
pub open spec fn abs_of(root: Seq<char>, rel: Seq<char>) -> Seq<char> {
    if dir_part(root).len() > 0 {
        join_one(dir_part(root), rel)
    } else if root.len() > 0 && root[0] == '/' {
        join_one(seq!['/'], rel)
    } else {
        rel
    }
}

/// Component-wise path prefix over `/`-separated text.
pub open spec fn is_path_prefix(a: Seq<char>, b: Seq<char>) -> bool {
    a.len() == 0 || (b.len() >= a.len() && b.take(a.len() as int) == a && (b.len() == a.len()
        || b[a.len() as int] == '/' || a.last() == '/'))
}

/// `dir_part`, on a string.
pub fn dir_part_str(s: &str) -> (r: String)
    ensures
        r@ == dir_part(s@),
{
    let n = s.unicode_len();
    let mut i: usize = n;
    proof {
        assert(s@.take(n as int) =~= s@);
    }
    while i > 0
        invariant
            i <= n,
            n == s@.len(),
            dir_part(s@) == dir_part(s@.take(i as int)),
        decreases i,
    {
        let c = s.get_char(i - 1);
        proof {
            assert(s@.take(i as int).last() == s@[i - 1]);
            assert(s@.take(i as int).drop_last() =~= s@.take(i - 1));
        }
        if c == '/' {
            let ss = s.substring_char(0, i - 1);
            proof {
                assert(ss@ =~= s@.take(i - 1));
            }
            return String::from_str(ss);
        }
        i -= 1;
    }
    proof {
        assert(s@.take(0) =~= Seq::<char>::empty());
    }
    String::new()
}

/// `base_name`, on a string.
pub fn base_name_str(s: &str) -> (r: String)
    ensures
        r@ == base_name(s@),
{
    let n = s.unicode_len();
    let mut i: usize = n;
    proof {
        assert(s@.take(n as int) =~= s@);
        assert(base_name(s@) =~= base_name(s@.take(n as int)) + s@.skip(n as int));
    }
    while i > 0
        invariant
            i <= n,
            n == s@.len(),
            base_name(s@) == base_name(s@.take(i as int)) + s@.skip(i as int),
        decreases i,
    {
        let c = s.get_char(i - 1);
        proof {
            assert(s@.take(i as int).last() == s@[i - 1]);
            assert(s@.take(i as int).drop_last() =~= s@.take(i - 1));
        }
        if c == '/' {
            let ss = s.substring_char(i, n);
            proof {
                assert(base_name(s@.take(i as int)) =~= Seq::<char>::empty());
                assert(ss@ =~= s@.skip(i as int));
                assert(base_name(s@) =~= ss@);
            }
            return String::from_str(ss);
        }
        proof {
            assert(base_name(s@.take(i as int)) =~= base_name(s@.take(i - 1)).push(s@[i - 1]));
            assert(s@.skip(i - 1) =~= seq![s@[i - 1]] + s@.skip(i as int));
            assert(base_name(s@.take(i - 1)).push(s@[i - 1]) + s@.skip(i as int) =~= base_name(
                s@.take(i - 1),
            ) + s@.skip(i - 1));
        }
        i -= 1;
    }
    proof {
        assert(s@.take(0) =~= Seq::<char>::empty());
        assert(base_name(s@.take(0)) =~= Seq::<char>::empty());
        assert(base_name(s@) =~= s@);
    }
    String::from_str(s)
}

/// `display_name`, on a string.
pub fn display_name_str(s: &str) -> (r: String)
    ensures
        r@ == display_name(s@),
{
    let b = base_name_str(s);
    if b.as_str().unicode_len() == 0 {
        let slash = String::from_str("/");
        proof {
            reveal_strlit("/");
            assert(slash@ =~= seq!['/']);
        }
        slash
    } else {
        b
    }
}

/// Components joined with `/`.
pub fn join_components(v: &Vec<String>) -> (r: String)
    ensures
        r@ == join_slash(views_of(v@)),
{
    if v.len() == 0 {
        proof {
            assert(views_of(v@).len() == 0);
        }
        return String::new();
    }
    let mut s: String = v[0].clone();
    let mut i: usize = 1;
    proof {
        assert(views_of(v@).take(1)[0] == v@[0]@);
        assert(s@ == join_slash(views_of(v@).take(1)));
    }
    while i < v.len()
        invariant
            1 <= i <= v.len(),
            s@ == join_slash(views_of(v@).take(i as int)),
        decreases v.len() - i,
    {
        let sl = s.as_str().unicode_len();
        let sep = !(sl > 0 && s.as_str().get_char(sl - 1) == '/');
        proof {
            if sl > 0 {
                assert(s@.last() == s@[sl - 1]);
            }
        }
        if sep {
            s.append("/");
        }
        s.append(v[i].as_str());
        proof {
            reveal_strlit("/");
            let nv = views_of(v@);
            assert(nv.take(i + 1 as int).drop_last() =~= nv.take(i as int));
            assert(nv.take(i + 1 as int).last() == v@[i as int]@);
            assert("/"@ =~= seq!['/']);
        }
        i += 1;
    }
    proof {
        assert(views_of(v@).take(v@.len() as int) =~= views_of(v@));
    }
    s
}

impl Worktree {
    /// The names along the entry's parent chain, leaf-last, if the chain
    /// resolves within `fuel` steps.
    fn entry_path_rec(&self, id: u64, fuel: usize) -> (r: Option<Vec<String>>)
        ensures
            ({
                let c = chain_names(self.entries@, id, fuel as nat);
                match r {
                    Some(v) => c is Some && v@.len() == c->0.len() && forall|i: int|
                        0 <= i < v@.len() ==> v@[i]@ == c->0[i],
                    None => c is None,
                }
            }),
        decreases fuel,
    {
        match self.entries.get(&id) {
            None => None,
            Some(e) => match e.parent() {
                None => {
                    let mut v: Vec<String> = Vec::new();
                    v.push(e.name().clone());
                    Some(v)
                },
                Some(p) => {
                    if fuel == 0 {
                        None
                    } else {
                        match self.entry_path_rec(p, fuel - 1) {
                            None => None,
                            Some(mut v) => {
                                v.push(e.name().clone());
                                Some(v)
                            },
                        }
                    }
                },
            },
        }
    }

    /// The components of an entry's path: the literal names recorded
    /// along its parent chain, root first.
    pub fn entry_path_components(&self, entry_id: u64) -> (r: Result<Vec<String>, WtError>)
        ensures
            ({
                let c = chain_names(self.entries@, entry_id, self.entries@.dom().len());
                match r {
                    Ok(v) => c is Some && v@.len() == c->0.len() && forall|i: int|
                        0 <= i < v@.len() ==> v@[i]@ == c->0[i],
                    Err(e) => c is None && e == WtError::NotFound,
                }
            }),
    {
        let fuel = self.entry_count();
        match self.entry_path_rec(entry_id, fuel) {
            Some(v) => Ok(v),
            None => Err(WtError::NotFound),
        }
    }

    /// Reconstructs the path of an entry: the literal names recorded
    /// along its parent chain, root first, joined with `/`.  Fails with
    /// NotFound when a link of the chain is missing, or when the chain
    /// does not reach the root within as many steps as there are entries
    /// (a cycle left by a structural inconsistency); it never partially
    /// succeeds.
    pub fn entry_path(&self, entry_id: u64) -> (r: Result<String, WtError>)
        ensures
            ({
                let c = chain_names(self.entries@, entry_id, self.entries@.dom().len());
                match r {
                    Ok(s) => c is Some && s@ == join_slash(c->0),
                    Err(e) => c is None && e == WtError::NotFound,
                }
            }),
    {
        let fuel = self.entry_count();
        match self.entry_path_rec(entry_id, fuel) {
            Some(v) => {
                let s = join_components(&v);
                proof {
                    let c = chain_names(self.entries@, entry_id, fuel as nat);
                    assert(views_of(v@) =~= c->0);
                }
                Ok(s)
            },
            None => Err(WtError::NotFound),
        }
    }

    /// The absolute path of an entry: the parent of the configured root
    /// path, joined with the entry's reconstructed relative path.
    pub fn abs_entry_path(&self, entry_id: u64) -> (r: Result<String, WtError>)
        ensures
            ({
                let c = chain_names(self.entries@, entry_id, self.entries@.dom().len());
                match r {
                    Ok(s) => c is Some && s@ == abs_of(self.path@, join_slash(c->0)),
                    Err(e) => c is None && e == WtError::NotFound,
                }
            }),
    {
        let rel = self.entry_path(entry_id)?;
        let mut s = dir_part_str(self.path.as_str());
        if s.as_str().unicode_len() == 0 {
            let pl = self.path.as_str().unicode_len();
            if pl > 0 && self.path.as_str().get_char(0) == '/' {
                let mut abs = String::from_str("/");
                abs.append(rel.as_str());
                proof {
                    reveal_strlit("/");
                    assert("/"@ =~= seq!['/']);
                    assert("/"@.len() > 0 && "/"@.last() == '/');
                }
                return Ok(abs);
            }
            return Ok(rel);
        }
        let sl = s.as_str().unicode_len();
        let sep = !(sl > 0 && s.as_str().get_char(sl - 1) == '/');
        proof {
            if sl > 0 {
                assert(s@.last() == s@[sl - 1]);
            }
        }
        if sep {
            s.append("/");
        }
        s.append(rel.as_str());
        proof {
            reveal_strlit("/");
            assert("/"@ =~= seq!['/']);
        }
        Ok(s)
    }

    /// The configured root path of this worktree.
    pub fn path(&self) -> (r: String)
        ensures
            r@ == self.path@,
    {
        self.path.clone()
    }

    /// Whether a path lies inside this worktree's root, component-wise.
    pub fn contains_path(&self, path: &str) -> (r: bool)
        ensures
            r == is_path_prefix(self.path@, path@),
    {
        let a = self.path.as_str();
        let an = a.unicode_len();
        let bn = path.unicode_len();
        if an == 0 {
            return true;
        }
        if bn < an {
            return false;
        }
        let mut i: usize = 0;
        while i < an
            invariant
                i <= an,
                a@ == self.path@,
                an == self.path@.len(),
                bn == path@.len(),
                an <= bn,
                an > 0,
                forall|j: int| 0 <= j < i ==> self.path@[j] == path@[j],
            decreases an - i,
        {
            if a.get_char(i) != path.get_char(i) {
                proof {
                    assert(path@.take(an as int)[i as int] == path@[i as int]);
                    assert(path@.take(an as int) != self.path@);
                }
                return false;
            }
            i += 1;
        }
        proof {
            assert(path@.take(an as int) =~= self.path@);
        }
        if bn == an {
            return true;
        }
        if path.get_char(an) == '/' {
            return true;
        }
        if a.get_char(an - 1) == '/' {
            proof {
                assert(self.path@.last() == self.path@[an - 1]);
            }
            return true;
        }
        proof {
            assert(self.path@.last() == self.path@[an - 1]);
        }
        false
    }
}

} // verus!
