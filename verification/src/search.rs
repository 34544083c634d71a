//! The fuzzy-search feed: one flat record per file, plus the matcher
//! entry point that assembles a per-tree view and filters records.

use vstd::prelude::*;
use vstd::string::StrSliceExecFns;

verus! {

/// A coarse presence set over the characters of a path, used to reject
/// candidates cheaply before the subsequence test.  Letters are folded to
/// one bit per lower-case letter; digits get their own bits; all other
/// characters are not tracked.
pub struct CharBag {
    pub bits: u64,
}

pub open spec fn char_mask(c: char) -> u64 {
    if 'a' <= c && c <= 'z' {
        1u64 << ((c as u32 - 'a' as u32) as u64)
    } else if 'A' <= c && c <= 'Z' {
        1u64 << ((c as u32 - 'A' as u32) as u64)
    } else if '0' <= c && c <= '9' {
        1u64 << ((c as u32 - '0' as u32 + 26) as u64)
    } else {
        0u64
    }
}

pub open spec fn bag_of(s: Seq<char>) -> u64
    decreases s.len(),
{
    if s.len() == 0 {
        0u64
    } else {
        bag_of(s.drop_last()) | char_mask(s.last())
    }
}

fn mask_of_char(c: char) -> (r: u64)
    ensures
        r == char_mask(c),
{
    if 'a' <= c && c <= 'z' {
        1u64 << ((c as u32 - 'a' as u32) as u64)
    } else if 'A' <= c && c <= 'Z' {
        1u64 << ((c as u32 - 'A' as u32) as u64)
    } else if '0' <= c && c <= '9' {
        1u64 << ((c as u32 - '0' as u32 + 26) as u64)
    } else {
        0u64
    }
}

pub fn char_bag_of(chars: &Vec<char>) -> (r: CharBag)
    ensures
        r.bits == bag_of(chars@),
{
    let mut bits: u64 = 0;
    let mut i: usize = 0;
    while i < chars.len()
        invariant
            i <= chars.len(),
            bits == bag_of(chars@.take(i as int)),
        decreases chars.len() - i,
    {
        bits = bits | mask_of_char(chars[i]);
        proof {
            assert(chars@.take(i + 1 as int).drop_last() =~= chars@.take(i as int));
            assert(chars@.take(i + 1 as int).last() == chars@[i as int]);
        }
        i += 1;
    }
    proof {
        assert(chars@.take(chars@.len() as int) =~= chars@);
    }
    CharBag { bits }
}

/// The flattened, search-optimized record of one file entry's path.
/// Created when the file entry is inserted; never mutated afterwards.
pub struct PathEntry {
    pub ino: u64,
    pub path_chars: CharBag,
    pub path: Vec<char>,
    pub lowercase_path: Vec<char>,
    pub is_ignored: bool,
}

/// One hit of the path matcher, referencing the matched entry.
#[derive(Clone, Copy, PartialEq, Eq, Structural, Debug)]
pub struct PathMatch {
    pub tree_id: usize,
    pub entry_id: u64,
}

/// The case folding performed by the standard library; the result depends
/// on the characters of the input alone.
pub uninterp spec fn lower_of(s: Seq<char>) -> Seq<char>;

/// Relies on str::to_lowercase: a pure case folding of the characters.
#[verifier::external_body]
pub(crate) fn lowercase(s: &str) -> (r: String)
    ensures
        r@ == lower_of(s@),
        s@.len() == 0 ==> r@.len() == 0,
{
    s.to_lowercase()
}

/// The characters of a string, as a vector.
pub fn chars_vec(s: &str) -> (r: Vec<char>)
    ensures
        r@ == s@,
{
    let n = s.unicode_len();
    let mut r: Vec<char> = Vec::new();
    let mut i: usize = 0;
    while i < n
        invariant
            i <= n,
            n == s@.len(),
            r@ == s@.take(i as int),
        decreases n - i,
    {
        r.push(s.get_char(i));
        proof {
            assert(s@.take(i + 1 as int) =~= s@.take(i as int).push(s@[i as int]));
        }
        i += 1;
    }
    proof {
        assert(s@.take(s@.len() as int) =~= s@);
    }
    r
}


/// `q` occurs inside `t` in order (not necessarily contiguously).
pub open spec fn is_subsequence(q: Seq<char>, t: Seq<char>) -> bool
    decreases q.len() + t.len(),
{
    if q.len() == 0 {
        true
    } else if t.len() == 0 {
        false
    } else if q.first() == t.first() {
        is_subsequence(q.drop_first(), t.drop_first())
    } else {
        is_subsequence(q, t.drop_first())
    }
}

/// Greedy two-pointer subsequence test over `t` from `start` on.
fn subsequence_from(q: &Vec<char>, t: &Vec<char>, start: usize) -> (r: bool)
    requires
        start <= t@.len(),
    ensures
        r == is_subsequence(q@, t@.skip(start as int)),
{
    let mut i: usize = start;
    let mut j: usize = 0;
    proof {
        assert(q@.skip(0) =~= q@);
    }
    while i < t.len() && j < q.len()
        invariant
            start <= i <= t@.len(),
            j <= q@.len(),
            is_subsequence(q@, t@.skip(start as int)) == is_subsequence(
                q@.skip(j as int),
                t@.skip(i as int),
            ),
        decreases t@.len() - i,
    {
        let ghost qq = q@.skip(j as int);
        let ghost tt = t@.skip(i as int);
        proof {
            assert(qq.first() == q@[j as int]);
            assert(tt.first() == t@[i as int]);
        }
        if q[j] == t[i] {
            proof {
                assert(qq.drop_first() =~= q@.skip(j + 1 as int));
                assert(tt.drop_first() =~= t@.skip(i + 1 as int));
            }
            j += 1;
        } else {
            proof {
                assert(tt.drop_first() =~= t@.skip(i + 1 as int));
            }
        }
        i += 1;
    }
    if j == q.len() {
        proof {
            assert(q@.skip(j as int).len() == 0);
        }
        true
    } else {
        proof {
            assert(i == t@.len());
            assert(t@.skip(i as int).len() == 0);
            assert(q@.skip(j as int).len() > 0);
        }
        false
    }
}

/// Whether one search record is a hit for a prepared query.
pub open spec fn rec_matches(
    rec: PathEntry,
    skip: int,
    q_used: Seq<char>,
    sensitive: bool,
    include_ignored: bool,
) -> bool {
    let text = if sensitive {
        rec.path@
    } else {
        rec.lowercase_path@
    };
    let start = if skip <= text.len() {
        skip
    } else {
        text.len() as int
    };
    (include_ignored || !rec.is_ignored) && is_subsequence(q_used, text.skip(start))
}

/// The hits of one tree's feed, in feed order.
pub open spec fn tree_matches(
    tid: usize,
    recs: Seq<PathEntry>,
    skip: int,
    q_used: Seq<char>,
    sensitive: bool,
    include_ignored: bool,
) -> Seq<PathMatch>
    decreases recs.len(),
{
    if recs.len() == 0 {
        Seq::empty()
    } else {
        let rest = tree_matches(tid, recs.drop_last(), skip, q_used, sensitive, include_ignored);
        if rec_matches(recs.last(), skip, q_used, sensitive, include_ignored) {
            rest.push(PathMatch { tree_id: tid, entry_id: recs.last().ino })
        } else {
            rest
        }
    }
}

/// The number of leading path characters the matcher skips for one
/// tree: the visible root folder name plus one separator when a single
/// tree is searched and its confirmed root is a directory, else zero.
pub open spec fn spec_skip_prefix(t: &crate::tree::Worktree, single: bool) -> int {
    if !single {
        0
    } else {
        match t.root_ino {
            Some(ri) => if t.entries@.contains_key(ri) && t.entries@[ri].spec_is_dir() {
                if t.entries@[ri].spec_name() == seq!['/'] {
                    1
                } else if t.entries@[ri].spec_name().len() as int + 1 <= usize::MAX as int {
                    t.entries@[ri].spec_name().len() as int + 1
                } else {
                    usize::MAX as int
                }
            } else {
                0
            },
            None => 0,
        }
    }
}

/// The hits of a list of trees, tree after tree, each in feed order.
pub open spec fn all_matches(
    ts: Seq<&crate::tree::Worktree>,
    single: bool,
    q_used: Seq<char>,
    sensitive: bool,
    include_ignored: bool,
) -> Seq<PathMatch>
    decreases ts.len(),
{
    if ts.len() == 0 {
        Seq::empty()
    } else {
        all_matches(ts.drop_last(), single, q_used, sensitive, include_ignored) + tree_matches(
            ts.last().id,
            ts.last().file_paths@,
            spec_skip_prefix(ts.last(), single),
            q_used,
            sensitive,
            include_ignored,
        )
    }
}

fn chars_eq(a: &Vec<char>, b: &Vec<char>) -> (r: bool)
    ensures
        r == (a@ == b@),
{
    if a.len() != b.len() {
        return false;
    }
    let mut i: usize = 0;
    while i < a.len()
        invariant
            i <= a@.len(),
            a@.len() == b@.len(),
            forall|k: int| 0 <= k < i ==> a@[k] == b@[k],
        decreases a@.len() - i,
    {
        if a[i] != b[i] {
            return false;
        }
        i += 1;
    }
    proof {
        assert(a@ =~= b@);
    }
    true
}

/// The matcher entry point over one or more trees: assembles each
/// tree's view (records plus prefix-skip count), keeps the records that
/// contain the query as a subsequence — case-insensitively, unless
/// `smart_case` is set and the query has characters that case folding
/// would change — and returns hits in feed order, capped at
/// `max_results`.  Ignored records are kept only on request.
pub fn match_paths(
    trees: &Vec<&crate::tree::Worktree>,
    query: &str,
    include_ignored: bool,
    smart_case: bool,
    max_results: usize,
) -> (r: Vec<PathMatch>)
    ensures
        ({
            let q = query@;
            let sensitive = smart_case && q != lower_of(q);
            let q_used = if sensitive {
                q
            } else {
                lower_of(q)
            };
            let all = all_matches(trees@, trees@.len() == 1, q_used, sensitive, include_ignored);
            r@ == all.take(
                if max_results as int <= all.len() {
                    max_results as int
                } else {
                    all.len() as int
                },
            )
        }),
{
    let qchars = chars_vec(query);
    let lowq = lowercase(query);
    let lchars = chars_vec(lowq.as_str());
    let sensitive = smart_case && !chars_eq(&qchars, &lchars);
    let used: &Vec<char> = if sensitive {
        &qchars
    } else {
        &lchars
    };
    let single = trees.len() == 1;
    let ghost gq = if sensitive {
        query@
    } else {
        lower_of(query@)
    };
    let mut out: Vec<PathMatch> = Vec::new();
    let mut ti: usize = 0;
    while ti < trees.len()
        invariant
            ti <= trees@.len(),
            used@ == gq,
            single == (trees@.len() == 1),
            out@ == all_matches(trees@.take(ti as int), single, gq, sensitive, include_ignored),
        decreases trees@.len() - ti,
    {
        let t = trees[ti];
        let skip: usize = if !single {
            0
        } else {
            match t.root_entry() {
                Some(e) => {
                    if e.is_dir() {
                        let nm = e.name();
                        let l = nm.as_str().unicode_len();
                        if l == 1 && nm.as_str().get_char(0) == '/' {
                            proof {
                                assert(e.spec_name() =~= seq!['/']);
                            }
                            1
                        } else {
                            proof {
                                if e.spec_name() == seq!['/'] {
                                    assert(e.spec_name().len() == 1);
                                    assert(e.spec_name()[0] == '/');
                                }
                            }
                            if l < usize::MAX {
                                l + 1
                            } else {
                                usize::MAX
                            }
                        }
                    } else {
                        0
                    }
                },
                None => 0,
            }
        };
        proof {
            assert(skip as int == spec_skip_prefix(trees@[ti as int], single));
        }
        let mut ri: usize = 0;
        while ri < t.file_paths.len()
            invariant
                ri <= t.file_paths@.len(),
                ti < trees@.len(),
                t == trees@[ti as int],
                used@ == gq,
                single == (trees@.len() == 1),
                skip as int == spec_skip_prefix(trees@[ti as int], single),
                out@ == all_matches(trees@.take(ti as int), single, gq, sensitive, include_ignored)
                    + tree_matches(
                    t.id,
                    t.file_paths@.take(ri as int),
                    skip as int,
                    gq,
                    sensitive,
                    include_ignored,
                ),
            decreases t.file_paths@.len() - ri,
        {
            let rec = &t.file_paths[ri];
            let text: &Vec<char> = if sensitive {
                &rec.path
            } else {
                &rec.lowercase_path
            };
            let start = if skip <= text.len() {
                skip
            } else {
                text.len()
            };
            let keep = (include_ignored || !rec.is_ignored) && subsequence_from(used, text, start);
            proof {
                assert(keep == rec_matches(
                    t.file_paths@[ri as int],
                    skip as int,
                    gq,
                    sensitive,
                    include_ignored,
                ));
                assert(t.file_paths@.take(ri + 1 as int).drop_last() =~= t.file_paths@.take(
                    ri as int,
                ));
                assert(t.file_paths@.take(ri + 1 as int).last() == t.file_paths@[ri as int]);
            }
            if keep {
                out.push(PathMatch { tree_id: t.id, entry_id: rec.ino });
            }
            ri += 1;
        }
        proof {
            assert(t.file_paths@.take(t.file_paths@.len() as int) =~= t.file_paths@);
            assert(trees@.take(ti + 1 as int).drop_last() =~= trees@.take(ti as int));
            assert(trees@.take(ti + 1 as int).last() == trees@[ti as int]);
        }
        ti += 1;
    }
    proof {
        assert(trees@.take(trees@.len() as int) =~= trees@);
    }
    let ghost all = all_matches(trees@, trees@.len() == 1, gq, sensitive, include_ignored);
    if out.len() > max_results {
        out.truncate(max_results);
    } else {
        proof {
            assert(out@ =~= all.take(all.len() as int));
        }
    }
    out
}

} // verus!
