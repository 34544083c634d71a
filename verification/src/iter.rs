//! Depth-first traversal of the tree: directories entered and left as
//! push/pop events, a files-only view carrying accumulated paths, lookup
//! of an entry by its path components, and a plain-text rendering.

use vstd::prelude::*;
use vstd::string::{StrSliceExecFns, StringExecFns};
use crate::entry::{entry_like, Entry};
use crate::paths::views_of;
use crate::tree::Worktree;

verus! {

broadcast use vstd::std_specs::hash::group_hash_axioms;

pub struct IterStackEntry {
    pub entry_id: u64,
    pub child_idx: usize,
}

/// One step of a depth-first walk: a directory or file entered, or a
/// directory left.
pub enum Traversal {
    Push { entry_id: u64, entry: Entry },
    Pop,
}

/// A resumable depth-first walk over a worktree's entries.
pub struct Iter<'a> {
    pub tree: &'a Worktree,
    pub stack: Vec<IterStackEntry>,
    pub started: bool,
}

impl<'a> Iter<'a> {
    pub open spec fn inv(&self) -> bool {
        &&& self.tree.wf()
        &&& forall|i: int| 0 <= i < self.stack@.len() ==> self.tree.entries@.contains_key(
            #[trigger] self.stack@[i].entry_id,
        )
    }

    /// What one step yields and how the stack moves, as a function of
    /// the starting state: from an unstarted iterator, the confirmed
    /// root is pushed (or the walk is empty); from a started one, the
    /// top of the stack determines the event — its next listed child is
    /// entered, or it is left with a pop.
    pub open spec fn step_spec(
        pre: Iter<'a>,
        post: Iter<'a>,
        r: Option<Traversal>,
    ) -> bool {
        let m = pre.tree.entries@;
        if !pre.started {
            match pre.tree.root_ino {
                Some(root) => if m.contains_key(root) {
                    &&& r matches Some(Traversal::Push { entry_id, entry }) && entry_id == root
                        && entry_like(entry, m[root])
                    &&& post.stack@ == pre.stack@.push(
                        IterStackEntry { entry_id: root, child_idx: 0 },
                    )
                } else {
                    r is None && post.stack@ == pre.stack@
                },
                None => r is None && post.stack@ == pre.stack@,
            }
        } else if pre.stack@.len() == 0 {
            r is None && post.stack@ == pre.stack@
        } else {
            let top = pre.stack@.last();
            let rest = pre.stack@.drop_last();
            if m.contains_key(top.entry_id) && m[top.entry_id].spec_is_dir() && (
            top.child_idx as int) < m[top.entry_id].spec_children().len() {
                let child = m[top.entry_id].spec_children()[top.child_idx as int];
                &&& r matches Some(Traversal::Push { entry_id, entry }) && entry_id == child
                    && entry_like(entry, m[child])
                &&& post.stack@ == rest.push(
                    IterStackEntry { entry_id: top.entry_id, child_idx: (top.child_idx + 1) as usize },
                ).push(IterStackEntry { entry_id: child, child_idx: 0 })
            } else {
                r matches Some(Traversal::Pop) && post.stack@ == rest
            }
        }
    }

    /// The next traversal event, exactly as `step_spec` determines it
    /// from the current state; every pushed entry is a live record of
    /// the tree.
    pub fn next(&mut self) -> (r: Option<Traversal>)
        requires
            old(self).inv(),
        ensures
            final(self).inv(),
            final(self).tree == old(self).tree,
            final(self).started,
            Iter::step_spec(*old(self), *final(self), r),
    {
        let tree = self.tree;
        if !self.started {
            self.started = true;
            match tree.root_ino {
                Some(root) => match tree.entries.get(&root) {
                    Some(e) => {
                        self.stack.push(IterStackEntry { entry_id: root, child_idx: 0 });
                        Some(Traversal::Push { entry_id: root, entry: e.clone() })
                    },
                    None => None,
                },
                None => None,
            }
        } else {
            let n = self.stack.len();
            if n == 0 {
                return None;
            }
            let top = self.stack.pop().unwrap();
            let next_child: Option<u64> = match tree.entries.get(&top.entry_id) {
                Some(e) => match e {
                    Entry::Dir { children, .. } => {
                        if top.child_idx < children.len() {
                            proof {
                                assert(tree.entries@[top.entry_id].spec_children()[
                                    top.child_idx as int] == children@[top.child_idx as int]);
                            }
                            Some(children[top.child_idx])
                        } else {
                            None
                        }
                    },
                    _ => None,
                },
                None => None,
            };
            match next_child {
                Some(child) => {
                    self.stack.push(
                        IterStackEntry { entry_id: top.entry_id, child_idx: top.child_idx + 1 },
                    );
                    self.stack.push(IterStackEntry { entry_id: child, child_idx: 0 });
                    proof {
                        assert(self.stack@ =~= old(self).stack@.drop_last().push(
                            IterStackEntry {
                                entry_id: top.entry_id,
                                child_idx: (top.child_idx + 1) as usize,
                            },
                        ).push(IterStackEntry { entry_id: child, child_idx: 0 }));
                    }
                    match tree.entries.get(&child) {
                        Some(e) => Some(Traversal::Push { entry_id: child, entry: e.clone() }),
                        None => {
                            proof {
                                assert(false);
                            }
                            None
                        },
                    }
                },
                None => Some(Traversal::Pop),
            }
        }
    }
}

/// The step budget of one `FilesIter::next` call: twice the entry
/// count plus two, enough for any walk over a consistent tree.
pub open spec fn files_fuel(m: Map<u64, Entry>) -> nat {
    if m.dom().len() < usize::MAX / 2 - 1 {
        2 * m.dom().len() + 2
    } else {
        usize::MAX as nat
    }
}

/// The next file the walk meets and can resolve, if the walk reaches
/// one within `fuel` steps of `step_spec`: directories and files whose
/// parent chain does not resolve are passed over.
pub open spec fn next_file(
    m: Map<u64, Entry>,
    root_ino: Option<u64>,
    started: bool,
    stack: Seq<IterStackEntry>,
    fuel: nat,
) -> Option<u64>
    decreases fuel,
{
    if fuel == 0 {
        None
    } else if !started {
        match root_ino {
            None => None,
            Some(root) => if !m.contains_key(root) {
                None
            } else {
                let st2 = stack.push(IterStackEntry { entry_id: root, child_idx: 0 });
                if !m[root].spec_is_dir() && crate::paths::chain_names(
                    m,
                    root,
                    m.dom().len(),
                ) is Some {
                    Some(root)
                } else {
                    next_file(m, root_ino, true, st2, (fuel - 1) as nat)
                }
            },
        }
    } else if stack.len() == 0 {
        None
    } else {
        let top = stack.last();
        let rest = stack.drop_last();
        if m.contains_key(top.entry_id) && m[top.entry_id].spec_is_dir() && (
        top.child_idx as int) < m[top.entry_id].spec_children().len() {
            let child = m[top.entry_id].spec_children()[top.child_idx as int];
            let st2 = rest.push(
                IterStackEntry { entry_id: top.entry_id, child_idx: (top.child_idx + 1) as usize },
            ).push(IterStackEntry { entry_id: child, child_idx: 0 });
            if !m[child].spec_is_dir() && crate::paths::chain_names(
                m,
                child,
                m.dom().len(),
            ) is Some {
                Some(child)
            } else {
                next_file(m, root_ino, started, st2, (fuel - 1) as nat)
            }
        } else {
            next_file(m, root_ino, started, rest, (fuel - 1) as nat)
        }
    }
}

/// One file met by a depth-first walk, with its resolved path.
pub struct FilesIterItem {
    pub entry_id: u64,
    pub path: String,
}

/// A files-only view of the depth-first walk: directories are skipped,
/// and each file is yielded with its resolved path.
pub struct FilesIter<'a> {
    pub iter: Iter<'a>,
}

impl<'a> FilesIter<'a> {
    /// The next file of the walk, with `path` equal to what
    /// `entry_path` resolves for it: exactly the file `next_file` finds
    /// from the current state within the step budget.  Directories and
    /// files whose parent chain does not resolve are passed over, and a
    /// walk longer than the budget (possible only under a structural
    /// inconsistency, such as a cycle through child lists) ends early.
    pub fn next(&mut self) -> (r: Option<FilesIterItem>)
        requires
            old(self).iter.inv(),
        ensures
            final(self).iter.inv(),
            final(self).iter.tree == old(self).iter.tree,
            ({
                let m = old(self).iter.tree.entries@;
                let nf = next_file(
                    m,
                    old(self).iter.tree.root_ino,
                    old(self).iter.started,
                    old(self).iter.stack@,
                    files_fuel(m),
                );
                match r {
                    Some(item) => {
                        let c = crate::paths::chain_names(m, item.entry_id, m.dom().len());
                        &&& nf == Some(item.entry_id)
                        &&& m.contains_key(item.entry_id)
                        &&& !m[item.entry_id].spec_is_dir()
                        &&& c is Some
                        &&& item.path@ == crate::paths::join_slash(c->0)
                    },
                    None => nf is None,
                }
            }),
    {
        let ghost m = self.iter.tree.entries@;
        let ghost ri = self.iter.tree.root_ino;
        let count = self.iter.tree.entry_count();
        let mut fuel: usize = if count < usize::MAX / 2 - 1 {
            2 * count + 2
        } else {
            usize::MAX
        };
        let ghost nf0 = next_file(m, ri, self.iter.started, self.iter.stack@, fuel as nat);
        proof {
            assert(fuel as nat == files_fuel(m));
        }
        if fuel == 0 {
            proof {
                assert(nf0 is None);
            }
            return None;
        }
        while fuel > 0
            invariant
                self.iter.inv(),
                self.iter.tree == old(self).iter.tree,
                m == self.iter.tree.entries@,
                ri == self.iter.tree.root_ino,
                nf0 == next_file(m, ri, self.iter.started, self.iter.stack@, fuel as nat),
                nf0 == next_file(
                    m,
                    ri,
                    old(self).iter.started,
                    old(self).iter.stack@,
                    files_fuel(m),
                ),
            decreases fuel,
        {
            let ghost ps = self.iter.started;
            let ghost pst = self.iter.stack@;
            let ghost f = fuel as nat;
            fuel -= 1;
            let ev = self.iter.next();
            match ev {
                Some(Traversal::Push { entry_id, entry }) => {
                    if !entry.is_dir() {
                        match self.iter.tree.entry_path(entry_id) {
                            Ok(path) => {
                                proof {
                                    assert(nf0 == Some(entry_id));
                                }
                                return Some(FilesIterItem { entry_id, path });
                            },
                            Err(_) => {},
                        }
                    }
                },
                Some(Traversal::Pop) => {},
                None => {
                    proof {
                        assert(nf0 is None);
                    }
                    return None;
                },
            }
        }
        proof {
            assert(next_file(m, ri, self.iter.started, self.iter.stack@, 0) is None);
        }
        None
    }
}

/// The first listed child of `ch` whose entry carries `name`.
pub open spec fn first_named(m: Map<u64, Entry>, ch: Seq<u64>, name: Seq<char>) -> Option<u64>
    decreases ch.len(),
{
    if ch.len() == 0 {
        None
    } else if m.contains_key(ch.first()) && m[ch.first()].spec_name() == name {
        Some(ch.first())
    } else {
        first_named(m, ch.drop_first(), name)
    }
}

/// Walking the finalized child lists from `id` along the given name
/// components.
pub open spec fn spec_lookup_path(m: Map<u64, Entry>, id: u64, comps: Seq<Seq<char>>) -> Option<
    u64,
>
    decreases comps.len(),
{
    if comps.len() == 0 {
        Some(id)
    } else if !m.contains_key(id) || !m[id].spec_is_dir() {
        None
    } else {
        match first_named(m, m[id].spec_children(), comps.first()) {
            None => None,
            Some(c) => spec_lookup_path(m, c, comps.drop_first()),
        }
    }
}

impl Worktree {
    /// A fresh depth-first walk over this tree.
    pub fn iter(&self) -> (r: Iter<'_>)
        requires
            self.wf(),
        ensures
            r.inv(),
            r.tree == self,
            !r.started,
            r.stack@.len() == 0,
    {
        Iter { tree: self, stack: Vec::new(), started: false }
    }

    /// A fresh walk yielding only files, with their resolved paths.
    pub fn files(&self) -> (r: FilesIter<'_>)
        requires
            self.wf(),
        ensures
            r.iter.inv(),
            r.iter.tree == self,
            !r.iter.started,
            r.iter.stack@.len() == 0,
    {
        FilesIter { iter: self.iter() }
    }

    /// Finds the entry reached from the confirmed root by following the
    /// given name components through finalized child lists; among
    /// children sharing a name the first listed wins.
    pub fn entry_for_path(&self, components: &Vec<String>) -> (r: Option<u64>)
        ensures
            r == match self.root_ino {
                None => None::<u64>,
                Some(root) => spec_lookup_path(self.entries@, root, views_of(components@)),
            },
    {
        let ghost m = self.entries@;
        let ghost views = views_of(components@);
        let root = match self.root_ino {
            Some(r) => r,
            None => {
                return None;
            },
        };
        let mut cur = root;
        let mut ci: usize = 0;
        proof {
            assert(views.skip(0) =~= views);
        }
        while ci < components.len()
            invariant
                ci <= components@.len(),
                self.root_ino == Some(root),
                m == self.entries@,
                views == views_of(components@),
                views.len() == components@.len(),
                spec_lookup_path(m, root, views) == spec_lookup_path(
                    m,
                    cur,
                    views.skip(ci as int),
                ),
            decreases components@.len() - ci,
        {
            let ghost rest = views.skip(ci as int);
            proof {
                assert(rest.len() > 0);
                assert(rest.first() == views[ci as int]);
                assert(views[ci as int] == components@[ci as int]@);
                assert(rest.drop_first() =~= views.skip(ci + 1 as int));
            }
            let children: &Vec<u64> = match self.entries.get(&cur) {
                Some(e) => match e {
                    Entry::Dir { children, .. } => children,
                    _ => {
                        proof {
                            assert(!m[cur].spec_is_dir());
                            assert(spec_lookup_path(m, cur, rest) is None);
                        }
                        return None;
                    },
                },
                None => {
                    proof {
                        assert(spec_lookup_path(m, cur, rest) is None);
                    }
                    return None;
                },
            };
            let name = &components[ci];
            let mut k: usize = 0;
            let mut found: Option<u64> = None;
            proof {
                assert(children@.skip(0) =~= children@);
            }
            while k < children.len() && found.is_none()
                invariant
                    k <= children@.len(),
                    ci < components@.len(),
                    name@ == components@[ci as int]@,
                    m == self.entries@,
                    children@ == m[cur].spec_children(),
                    m.contains_key(cur),
                    match found {
                        None => first_named(m, children@, name@) == first_named(
                            m,
                            children@.skip(k as int),
                            name@,
                        ),
                        Some(c) => first_named(m, children@, name@) == Some(c),
                    },
                decreases children@.len() - k,
            {
                let c = children[k];
                proof {
                    assert(children@.skip(k as int).first() == children@[k as int]);
                    assert(children@.skip(k as int).drop_first() =~= children@.skip(k + 1 as int));
                }
                let hit: bool = match self.entries.get(&c) {
                    Some(e) => e.name().eq(name),
                    None => false,
                };
                proof {
                    assert(name@ == components@[ci as int]@);
                }
                if hit {
                    found = Some(c);
                }
                k += 1;
            }
            proof {
                assert(name@ == components@[ci as int]@);
                assert(name@ == rest.first());
            }
            match found {
                Some(c) => {
                    proof {
                        assert(first_named(m, m[cur].spec_children(), rest.first()) == Some(c));
                        assert(spec_lookup_path(m, cur, rest) == spec_lookup_path(
                            m,
                            c,
                            rest.drop_first(),
                        ));
                    }
                    cur = c;
                    ci += 1;
                },
                None => {
                    proof {
                        assert(children@.skip(children@.len() as int).len() == 0);
                        assert(first_named(m, children@.skip(children@.len() as int), name@)
                            is None);
                        assert(first_named(m, m[cur].spec_children(), rest.first()) is None);
                        assert(spec_lookup_path(m, cur, rest) is None);
                    }
                    return None;
                },
            }
        }
        proof {
            assert(views.skip(views.len() as int).len() == 0);
            assert(spec_lookup_path(m, cur, views.skip(views.len() as int)) == Some(cur));
        }
        Some(cur)
    }

    /// One line per entry, indented by depth, as a plain rendering of
    /// the tree; directories carry a trailing slash, every entry its id.
    /// One line per entry, indented by depth, as a plain rendering of
    /// the tree from its confirmed root; directories carry a trailing
    /// slash, every entry its decimal id.
    pub fn render(&self) -> (r: String)
        ensures
            self.entries@.dom().len() == 0 ==> r@ == "Empty tree\n"@,
            self.entries@.dom().len() != 0 && self.root_ino is None ==> r@ == Seq::<
                char,
            >::empty(),
            self.entries@.dom().len() != 0 && self.root_ino is Some ==> r@ == render_spec(
                self.entries@,
                self.root_ino->0,
                0,
                render_fuel(self.entries@),
            ),
    {
        if self.entry_count() == 0 {
            return String::from_str("Empty tree\n");
        }
        let count = self.entry_count();
        let fuel: usize = if count < usize::MAX / 2 {
            count + 1
        } else {
            usize::MAX / 2
        };
        match self.root_ino {
            Some(root) => self.render_entry(root, 0, fuel),
            None => String::new(),
        }
    }

    fn render_entry(&self, entry_id: u64, indent: usize, fuel: usize) -> (r: String)
        requires
            indent as int + 2 * (fuel as int) <= usize::MAX as int,
        ensures
            r@ == render_spec(self.entries@, entry_id, indent as nat, fuel as nat),
        decreases fuel,
    {
        let ghost m = self.entries@;
        if fuel == 0 {
            return String::new();
        }
        let mut s = spaces_str(indent);
        match self.entries.get(&entry_id) {
            None => String::new(),
            Some(Entry::Dir { name, children, .. }) => {
                s.append(name.as_str());
                s.append("/ (");
                let d = u64_digits(entry_id);
                s.append(d.as_str());
                s.append(")\n");
                proof {
                    reveal_strlit("/ (");
                    reveal_strlit(")\n");
                    assert("/ ("@ =~= seq!['/', ' ', '(']);
                    assert(")\n"@ =~= seq![')', '\n']);
                }
                let ghost header = s@;
                let mut k: usize = 0;
                proof {
                    assert(children@.skip(0) =~= children@);
                }
                while k < children.len()
                    invariant
                        k <= children@.len(),
                        fuel >= 1,
                        indent as int + 2 * (fuel as int) <= usize::MAX as int,
                        m == self.entries@,
                        m.contains_key(entry_id),
                        m[entry_id].spec_is_dir(),
                        children@ == m[entry_id].spec_children(),
                        header + render_kids(m, children@, (indent + 2) as nat, (fuel - 1) as nat)
                            == s@ + render_kids(
                            m,
                            children@.skip(k as int),
                            (indent + 2) as nat,
                            (fuel - 1) as nat,
                        ),
                    decreases children@.len() - k,
                {
                    proof {
                        assert(children@.skip(k as int).first() == children@[k as int]);
                        assert(children@.skip(k as int).drop_first() =~= children@.skip(
                            k + 1 as int,
                        ));
                    }
                    let sub = self.render_entry(children[k], indent + 2, fuel - 1);
                    s.append(sub.as_str());
                    k += 1;
                }
                proof {
                    assert(children@.skip(children@.len() as int).len() == 0);
                    assert(render_kids(
                        m,
                        children@.skip(children@.len() as int),
                        (indent + 2) as nat,
                        (fuel - 1) as nat,
                    ) =~= Seq::<char>::empty());
                    assert(s@ + Seq::<char>::empty() =~= s@);
                    assert(header + render_kids(m, children@, (indent + 2) as nat, (fuel - 1) as nat)
                        =~= s@);
                }
                s
            },
            Some(Entry::File { name, .. }) => {
                s.append(name.as_str());
                s.append(" (");
                let d = u64_digits(entry_id);
                s.append(d.as_str());
                s.append(")\n");
                proof {
                    reveal_strlit(" (");
                    reveal_strlit(")\n");
                    assert(" ("@ =~= seq![' ', '(']);
                    assert(")\n"@ =~= seq![')', '\n']);
                }
                s
            },
        }
    }
}

/// The fuel the renderer gives itself: one more than the entry count,
/// capped so indentation arithmetic cannot overflow.
pub open spec fn render_fuel(m: Map<u64, Entry>) -> nat {
    if m.dom().len() + 1 < (usize::MAX / 2) as nat {
        m.dom().len() + 1
    } else {
        (usize::MAX / 2) as nat
    }
}

/// The decimal digit characters of an id.
pub open spec fn dec_digits(n: u64) -> Seq<char>
    decreases n,
{
    if n < 10 {
        seq![digit_char(n)]
    } else {
        dec_digits(n / 10).push(digit_char(n % 10))
    }
}

pub open spec fn digit_char(d: u64) -> char {
    if d == 0 {
        '0'
    } else if d == 1 {
        '1'
    } else if d == 2 {
        '2'
    } else if d == 3 {
        '3'
    } else if d == 4 {
        '4'
    } else if d == 5 {
        '5'
    } else if d == 6 {
        '6'
    } else if d == 7 {
        '7'
    } else if d == 8 {
        '8'
    } else {
        '9'
    }
}

/// `n` spaces.
pub open spec fn spaces(n: nat) -> Seq<char>
    decreases n,
{
    if n == 0 {
        Seq::empty()
    } else {
        spaces((n - 1) as nat).push(' ')
    }
}

/// One rendered line per entry of a subtree, depth first: indentation,
/// the name (directories with a trailing slash), and the decimal id in
/// parentheses; a missing id or exhausted fuel renders as nothing.
pub open spec fn render_spec(m: Map<u64, Entry>, id: u64, indent: nat, fuel: nat) -> Seq<char>
    decreases fuel, 0int,
{
    if fuel == 0 {
        Seq::empty()
    } else if !m.contains_key(id) {
        Seq::empty()
    } else if m[id].spec_is_dir() {
        spaces(indent) + m[id].spec_name() + seq!['/', ' ', '('] + dec_digits(id) + seq![')', '\n']
            + render_kids(m, m[id].spec_children(), indent + 2, (fuel - 1) as nat)
    } else {
        spaces(indent) + m[id].spec_name() + seq![' ', '('] + dec_digits(id) + seq![')', '\n']
    }
}

pub open spec fn render_kids(m: Map<u64, Entry>, ch: Seq<u64>, indent: nat, fuel: nat) -> Seq<
    char,
>
    decreases fuel, ch.len(),
{
    if ch.len() == 0 {
        Seq::empty()
    } else {
        render_spec(m, ch.first(), indent, fuel) + render_kids(
            m,
            ch.drop_first(),
            indent,
            fuel,
        )
    }
}

/// `spaces`, as a string.
fn spaces_str(n: usize) -> (r: String)
    ensures
        r@ == spaces(n as nat),
{
    let mut s = String::new();
    let mut pad: usize = 0;
    proof {
        reveal_strlit(" ");
        assert(" "@ =~= seq![' ']);
    }
    while pad < n
        invariant
            pad <= n,
            s@ == spaces(pad as nat),
        decreases n - pad,
    {
        s.append(" ");
        proof {
            reveal_strlit(" ");
            assert(" "@ =~= seq![' ']);
            assert(spaces((pad + 1) as nat) =~= spaces(pad as nat).push(' '));
        }
        pad += 1;
    }
    s
}

fn digit_str(d: u64) -> (r: &'static str)
    requires
        d < 10,
    ensures
        r@ =~= seq![digit_char(d)],
{
    proof {
        reveal_strlit("0");
        reveal_strlit("1");
        reveal_strlit("2");
        reveal_strlit("3");
        reveal_strlit("4");
        reveal_strlit("5");
        reveal_strlit("6");
        reveal_strlit("7");
        reveal_strlit("8");
        reveal_strlit("9");
    }
    if d == 0 {
        "0"
    } else if d == 1 {
        "1"
    } else if d == 2 {
        "2"
    } else if d == 3 {
        "3"
    } else if d == 4 {
        "4"
    } else if d == 5 {
        "5"
    } else if d == 6 {
        "6"
    } else if d == 7 {
        "7"
    } else if d == 8 {
        "8"
    } else {
        "9"
    }
}

/// Decimal digits of an id, for the rendering.
fn u64_digits(n: u64) -> (r: String)
    ensures
        r@ == dec_digits(n),
    decreases n,
{
    if n < 10 {
        return String::from_str(digit_str(n));
    }
    proof {
        assert(n / 10 < n) by (nonlinear_arith)
            requires
                n >= 10,
        ;
        assert(n % 10 < 10) by (nonlinear_arith);
    }
    let mut s = u64_digits(n / 10);
    s.append(digit_str(n % 10));
    proof {
        assert(dec_digits(n / 10) + seq![digit_char(n % 10)] =~= dec_digits(n / 10).push(
            digit_char(n % 10),
        ));
    }
    s
}

} // verus!
