//! File contents: the cached content history handed to callers, and the
//! snapshot decomposed into chunks when a buffer is saved.

use vstd::prelude::*;
use vstd::string::StrSliceExecFns;

verus! {

/// The content history seeded from a file's text on first load.
pub struct History {
    pub base_text: String,
}

impl History {
    pub fn new(base_text: String) -> (h: History)
        ensures
            h.base_text@ == base_text@,
    {
        History { base_text }
    }
}

impl Clone for History {
    fn clone(&self) -> (r: Self)
        ensures
            r.base_text@ == self.base_text@,
    {
        History { base_text: self.base_text.clone() }
    }
}

/// The text of a sequence of fragments, in order.
pub open spec fn concat_frags(fs: Seq<Seq<char>>) -> Seq<char>
    decreases fs.len(),
{
    if fs.len() == 0 {
        Seq::empty()
    } else {
        concat_frags(fs.drop_last()) + fs.last()
    }
}

/// The byte lengths of a sequence of fragments, summed.
pub open spec fn sum_bytes(fs: Seq<nat>) -> nat
    decreases fs.len(),
{
    if fs.len() == 0 {
        0
    } else {
        sum_bytes(fs.drop_last()) + fs.last()
    }
}

/// A buffer snapshot: an ordered sequence of text chunks whose
/// concatenation is the buffer's text.
pub struct Snapshot {
    pub fragments: Vec<String>,
}

impl Snapshot {
    pub open spec fn frag_views(&self) -> Seq<Seq<char>> {
        self.fragments@.map_values(|s: String| s@)
    }

    pub open spec fn spec_text(&self) -> Seq<char> {
        concat_frags(self.frag_views())
    }

    pub open spec fn spec_byte_len(&self) -> nat {
        sum_bytes(self.fragments@.map_values(|s: String| s@.len()))
    }

    pub fn from_text(text: String) -> (s: Snapshot)
        ensures
            s.spec_text() == text@,
    {
        let ghost t = text@;
        let mut fragments: Vec<String> = Vec::new();
        fragments.push(text);
        let s = Snapshot { fragments };
        proof {
            assert(s.frag_views().len() == 1);
            assert(s.frag_views().last() == t);
            assert(s.frag_views().drop_last() =~= Seq::<Seq<char>>::empty());
            assert(concat_frags(s.frag_views().drop_last()) == Seq::<char>::empty());
            assert(concat_frags(s.frag_views()) == concat_frags(s.frag_views().drop_last())
                + s.frag_views().last());
            assert(concat_frags(s.frag_views()) =~= t);
        }
        s
    }

    /// The whole text of the snapshot, as one string: the bytes a save
    /// writes to disk, chunk after chunk.
    pub fn to_text(&self) -> (r: String)
        ensures
            r@ == self.spec_text(),
    {
        let mut r = String::new();
        let mut i: usize = 0;
        while i < self.fragments.len()
            invariant
                i <= self.fragments.len(),
                r@ == concat_frags(self.frag_views().take(i as int)),
            decreases self.fragments.len() - i,
        {
            r.append(self.fragments[i].as_str());
            proof {
                let fv = self.frag_views();
                assert(fv.take(i + 1 as int).drop_last() =~= fv.take(i as int));
                assert(fv.take(i + 1 as int).last() == fv[i as int]);
            }
            i += 1;
        }
        proof {
            assert(self.frag_views().take(self.frag_views().len() as int) =~= self.frag_views());
        }
        r
    }
}


impl Snapshot {
    /// The buffer size a save uses: the snapshot's estimated byte
    /// length (its character count, exact for ASCII text), capped at
    /// 10 KiB.
    pub fn buffer_size(&self) -> (r: usize)
        ensures
            r == if self.spec_char_len() < 10240 {
                self.spec_char_len() as int
            } else {
                10240int
            },
    {
        let mut acc: usize = 0;
        let mut i: usize = 0;
        while i < self.fragments.len()
            invariant
                i <= self.fragments.len(),
                acc == if sum_bytes(self.char_lens().take(i as int)) < 10240 {
                    sum_bytes(self.char_lens().take(i as int)) as int
                } else {
                    10240int
                },
            decreases self.fragments.len() - i,
        {
            let l = self.fragments[i].as_str().unicode_len();
            proof {
                let cl = self.char_lens();
                assert(cl.take(i + 1 as int).drop_last() =~= cl.take(i as int));
                assert(cl.take(i + 1 as int).last() == cl[i as int]);
            }
            if l >= 10240 {
                acc = 10240;
            } else if acc + l >= 10240 {
                acc = 10240;
            } else {
                acc = acc + l;
            }
            i += 1;
        }
        proof {
            assert(self.char_lens().take(self.char_lens().len() as int) =~= self.char_lens());
        }
        acc
    }

    pub open spec fn char_lens(&self) -> Seq<nat> {
        self.fragments@.map_values(|s: String| s@.len())
    }

    pub open spec fn spec_char_len(&self) -> nat {
        sum_bytes(self.char_lens())
    }
}

/// What a save needs from the library: where to write, and how large a
/// write buffer to use.  The application creates or truncates the file
/// and writes the snapshot's chunks in order.
pub struct SavePlan {
    pub abs_path: String,
    pub buffer_size: usize,
}

impl crate::tree::Worktree {
    /// The cached content history of an entry, if one was loaded.
    pub fn load_history(&self, entry_id: u64) -> (r: Option<History>)
        ensures
            match r {
                Some(h) => self.histories@.contains_key(entry_id) && h.base_text@
                    == self.histories@[entry_id].base_text@,
                None => !self.histories@.contains_key(entry_id),
            },
    {
        match self.histories.get(&entry_id) {
            Some(h) => Some(h.clone()),
            None => None,
        }
    }

    /// Seeds the content cache with the text read for an entry and
    /// returns the resulting history.  A concurrent first load may call
    /// this twice; the last write wins.
    pub fn insert_history(&mut self, entry_id: u64, base_text: String) -> (h: History)
        ensures
            h.base_text@ == base_text@,
            final(self).histories@.contains_key(entry_id),
            final(self).histories@[entry_id].base_text@ == base_text@,
            forall|k: u64| #![trigger final(self).histories@[k]]
                old(self).histories@.contains_key(k) && k != entry_id
                    ==> final(self).histories@.contains_key(k) && final(self).histories@[k]
                        == old(self).histories@[k],
            final(self).entries == old(self).entries,
            final(self).file_paths == old(self).file_paths,
            final(self).id == old(self).id,
            final(self).path == old(self).path,
            final(self).root_ino == old(self).root_ino,
            final(self).scan_state == old(self).scan_state,
    {
        let h = History::new(base_text);
        let out = h.clone();
        self.histories.insert(entry_id, h);
        out
    }

    /// Resolves where a snapshot is to be written and with what buffer
    /// size (the snapshot's character count as the byte estimate, capped
    /// at 10 KiB); fails with NotFound when the entry's parent chain
    /// does not resolve.
    pub fn save(&self, entry_id: u64, content: &Snapshot) -> (r: Result<SavePlan, crate::entry::WtError>)
        ensures
            ({
                let c = crate::paths::chain_names(
                    self.entries@,
                    entry_id,
                    self.entries@.dom().len(),
                );
                match r {
                    Ok(p) => c is Some && p.abs_path@ == crate::paths::abs_of(
                        self.path@,
                        crate::paths::join_slash(c->0),
                    ) && p.buffer_size == if content.spec_char_len() < 10240 {
                        content.spec_char_len() as int
                    } else {
                        10240int
                    },
                    Err(e) => c is None && e == crate::entry::WtError::NotFound,
                }
            }),
    {
        let abs_path = self.abs_entry_path(entry_id)?;
        let buffer_size = content.buffer_size();
        Ok(SavePlan { abs_path, buffer_size })
    }
}

} // verus!
