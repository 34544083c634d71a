//! Ignore-rule handling: a chain of per-directory gitignore matchers,
//! narrowed as the scan descends, with the library's policy layered on
//! top (inherited ignoring cannot be reversed; version-control metadata
//! directories are always ignored).

use vstd::prelude::*;
use crate::paths::{dir_part, dir_part_str};

verus! {

#[verifier::external_type_specification]
#[verifier::external_body]
pub struct ExGitignore(ignore::gitignore::Gitignore);

/// What one gitignore matcher says about a path.
#[derive(Clone, Copy, PartialEq, Eq, Structural, Debug)]
pub enum MatchKind {
    NoMatch,
    Ignored,
    Whitelisted,
}

/// Relies on ignore::gitignore::Gitignore::new: loads the patterns of
/// the `.gitignore` file inside `dir`; a missing or unreadable file
/// yields an empty matcher, and I/O errors are dropped.
#[verifier::external_body]
fn load_gitignore(dir: &str) -> (g: ignore::gitignore::Gitignore) {
    let path = std::path::Path::new(dir).join(".gitignore");
    ignore::gitignore::Gitignore::new(path).0
}

/// Relies on ignore::gitignore::Gitignore::matched: reports whether the
/// loaded patterns ignore or whitelist the path; the result depends on
/// the pattern data loaded from disk when the matcher was built.
#[verifier::external_body]
fn gitignore_match(g: &ignore::gitignore::Gitignore, path: &str, is_dir: bool) -> (r: MatchKind) {
    match g.matched(std::path::Path::new(path), is_dir) {
        ignore::Match::None => MatchKind::NoMatch,
        ignore::Match::Ignore(_) => MatchKind::Ignored,
        ignore::Match::Whitelist(_) => MatchKind::Whitelisted,
    }
}

/// The precedence rule over a chain of per-matcher verdicts, innermost
/// verdict last: the innermost verdict that is not `NoMatch` decides —
/// `Ignored` gives true, `Whitelisted` false; a chain with no opinion
/// gives false.
pub open spec fn chain_verdict(vs: Seq<MatchKind>) -> bool
    decreases vs.len(),
{
    if vs.len() == 0 {
        false
    } else {
        match vs.last() {
            MatchKind::Ignored => true,
            MatchKind::Whitelisted => false,
            MatchKind::NoMatch => chain_verdict(vs.drop_last()),
        }
    }
}

/// Decides a chain of verdicts, outermost first: exactly the
/// `chain_verdict` precedence rule.
pub fn decide(verdicts: &Vec<MatchKind>) -> (r: bool)
    ensures
        r == chain_verdict(verdicts@),
{
    let mut i: usize = verdicts.len();
    proof {
        assert(verdicts@.take(verdicts@.len() as int) =~= verdicts@);
    }
    while i > 0
        invariant
            i <= verdicts@.len(),
            chain_verdict(verdicts@) == chain_verdict(verdicts@.take(i as int)),
        decreases i,
    {
        proof {
            assert(verdicts@.take(i as int).last() == verdicts@[i - 1]);
            assert(verdicts@.take(i as int).drop_last() =~= verdicts@.take(i - 1));
        }
        match verdicts[i - 1] {
            MatchKind::Ignored => {
                return true;
            },
            MatchKind::Whitelisted => {
                return false;
            },
            MatchKind::NoMatch => {},
        }
        i -= 1;
    }
    proof {
        assert(verdicts@.take(0) =~= Seq::<MatchKind>::empty());
    }
    false
}

/// Accumulated ignore-pattern state: one matcher per directory from the
/// scanned root's ancestors down to the current directory, innermost
/// last.  The innermost matcher with an opinion decides.  Each matcher
/// reads that directory's `.gitignore` file only; global ignore files
/// and other ignore-file names take no part in the decision.
pub struct IgnoreChain {
    matchers: Vec<ignore::gitignore::Gitignore>,
}

/// How many strict ancestors a path has: one per step of `dir_part`
/// until it empties.
pub open spec fn ancestor_count(s: Seq<char>) -> nat
    decreases s.len() via ancestor_count_decreases
{
    if s.len() == 0 {
        0
    } else {
        1 + ancestor_count(dir_part(s))
    }
}

#[via_fn]
proof fn ancestor_count_decreases(s: Seq<char>) {
    if s.len() != 0 {
        lemma_dir_part_shrinks(s);
    }
}

impl IgnoreChain {
    /// How many matchers the chain holds.
    pub closed spec fn chain_len(&self) -> nat {
        self.matchers@.len()
    }

    /// The chain for the root of a scan: one matcher per ancestor
    /// directory of `path`, outermost first.
    pub(crate) fn for_ancestors(path: &str) -> (r: IgnoreChain)
        ensures
            r.chain_len() == ancestor_count(dir_part(path@)),
    {
        let mut matchers: Vec<ignore::gitignore::Gitignore> = Vec::new();
        let mut dir = dir_part_str(path);
        while dir.as_str().unicode_len() != 0
            invariant
                matchers@.len() + ancestor_count(dir@) == ancestor_count(dir_part(path@)),
            decreases dir@.len(),
        {
            matchers.insert(0, load_gitignore(dir.as_str()));
            let next = dir_part_str(dir.as_str());
            proof {
                lemma_dir_part_shrinks(dir@);
                assert(ancestor_count(dir@) == 1 + ancestor_count(dir_part(dir@)));
            }
            dir = next;
        }
        IgnoreChain { matchers }
    }

    /// A narrowed chain for a child directory: this chain plus the
    /// child's own local ignore file.
    pub(crate) fn descend(&self, dir_abs: &str) -> (r: IgnoreChain)
        ensures
            r.chain_len() == self.chain_len() + 1,
    {
        let mut matchers = self.matchers.clone();
        matchers.push(load_gitignore(dir_abs));
        IgnoreChain { matchers }
    }

    /// Consults every matcher of the chain and decides by the
    /// `chain_verdict` precedence rule: the innermost opinion wins.  The
    /// verdicts themselves depend on the pattern data loaded from disk,
    /// so only the decision rule over them is promised.
    pub(crate) fn matched(&self, path: &str, is_dir: bool) -> (r: bool)
        ensures
            exists|vs: Seq<MatchKind>| vs.len() == self.chain_len() && r == chain_verdict(vs),
    {
        let mut verdicts: Vec<MatchKind> = Vec::new();
        let mut i: usize = 0;
        while i < self.matchers.len()
            invariant
                i <= self.matchers@.len(),
                verdicts@.len() == i,
            decreases self.matchers@.len() - i,
        {
            verdicts.push(gitignore_match(&self.matchers[i], path, is_dir));
            i += 1;
        }
        let r = decide(&verdicts);
        proof {
            assert(verdicts@.len() == self.chain_len() && r == chain_verdict(verdicts@));
        }
        r
    }
}

/// A path shorter than its input: what lets the ancestor walk stop.
proof fn lemma_dir_part_shrinks(s: Seq<char>)
    requires
        s.len() > 0,
    ensures
        dir_part(s).len() < s.len(),
    decreases s.len(),
{
    if s.last() == '/' {
    } else {
        assert(dir_part(s) == dir_part(s.drop_last()));
        if s.len() > 1 {
            lemma_dir_part_shrinks(s.drop_last());
        } else {
            assert(s.drop_last().len() == 0);
            assert(dir_part(s.drop_last()) == s.drop_last());
        }
    }
}

/// Decides whether a child entry is ignored, and the chain its own
/// children inherit.  Without a parent chain the child is ignored and no
/// chain is produced — inherited ignoring cannot be reversed.  A
/// directory literally named `.git` is forced ignored regardless of
/// pattern data, and an ignored directory never hands a chain down.
pub(crate) fn derive_child_status(
    parent: &Option<IgnoreChain>,
    child_abs: &String,
    name: &String,
    is_dir: bool,
) -> (r: (bool, Option<IgnoreChain>))
    ensures
        parent is None ==> r.0 && r.1 is None,
        is_dir && name@ == ".git"@ ==> r.0,
        r.0 ==> r.1 is None,
        !is_dir ==> r.1 is None,
        !r.0 && is_dir && parent is Some ==> r.1 is Some,
{
    match parent {
        None => (true, None),
        Some(chain) => {
            if is_dir {
                let child_chain = chain.descend(child_abs.as_str());
                let git = String::from_str(".git");
                let forced: bool = name.eq(&git);
                let ignored = child_chain.matched(child_abs.as_str(), true) || forced;
                if ignored {
                    (true, None)
                } else {
                    (false, Some(child_chain))
                }
            } else {
                (chain.matched(child_abs.as_str(), false), None)
            }
        },
    }
}

} // verus!
