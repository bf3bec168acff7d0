//! The risk registry: the accumulated mapping from a scanned path to the
//! identifier of the signature it matched. At most one identifier is held
//! per path; a later record for the same path overwrites the earlier one.
use vstd::prelude::*;
use vstd::pervasive::VecAdditionalExecFns;
use crate::bytes::{copy_bytes, bytes_eq};
use crate::kvmap::{
    key_index, has_key, map_val, map_insert, unique_keys, lemma_key_index,
    lemma_key_index_is_first, lemma_map_insert_lookup, lemma_map_insert_unique,
};

verus! {

/// One finding: a path and the identifier of the signature that matched it.
pub struct RiskEntry {
    pub path: Vec<u8>,
    pub id: Vec<u8>,
}

/// The pairs (path, identifier) of an entry list.
pub open spec fn entry_views(s: Seq<RiskEntry>) -> Seq<(Seq<u8>, Seq<u8>)> {
    s.map(|i: int, e: RiskEntry| (e.path@, e.id@))
}

/// The registry of flagged paths, in first-recorded order, paths unique.
pub struct RiskRegistry {
    entries: Vec<RiskEntry>,
}

impl View for RiskRegistry {
    type V = Seq<(Seq<u8>, Seq<u8>)>;

    closed spec fn view(&self) -> Seq<(Seq<u8>, Seq<u8>)> {
        entry_views(self.entries@)
    }
}

impl RiskRegistry {
    /// Paths are unique: at most one identifier is recorded per path.
    pub open spec fn wf(&self) -> bool {
        unique_keys(self@)
    }

    /// An empty registry.
    pub fn new() -> (r: RiskRegistry)
        ensures
            r@ == Seq::<(Seq<u8>, Seq<u8>)>::empty(),
            r.wf(),
    {
        let r = RiskRegistry { entries: Vec::new() };
        assert(r@ =~= Seq::<(Seq<u8>, Seq<u8>)>::empty());
        r
    }

    /// How many paths are recorded.
    pub fn len(&self) -> (r: usize)
        ensures
            r == self@.len(),
    {
        self.entries.len()
    }

    /// Records that `path` matched the signature `id`, inserting the pair or
    /// overwriting the identifier recorded for `path` before.
    pub fn record(&mut self, path: Vec<u8>, id: Vec<u8>)
        ensures
            final(self)@ == map_insert(old(self)@, path@, id@),
            old(self).wf() ==> final(self).wf(),
            has_key(final(self)@, path@) && map_val(final(self)@, path@) == id@,
    {
        let ghost m = self@;
        proof {
            lemma_map_insert_lookup(m, path@, id@);
            if old(self).wf() {
                lemma_map_insert_unique(m, path@, id@);
            }
        }
        let idx = self.find_index(&path);
        if idx < self.entries.len() {
            self.entries.set(idx, RiskEntry { path, id });
            assert(self@ =~= map_insert(m, path@, id@));
        } else {
            self.entries.push(RiskEntry { path, id });
            assert(self@ =~= map_insert(m, path@, id@));
        }
    }

    /// The identifier recorded for `path`, if any.
    pub fn lookup(&self, path: &Vec<u8>) -> (r: Option<Vec<u8>>)
        ensures
            (r is Some) <==> has_key(self@, path@),
            r matches Some(id) ==> id@ == map_val(self@, path@),
    {
        let idx = self.find_index(path);
        proof {
            lemma_key_index(self@, path@);
        }
        if idx < self.entries.len() {
            Some(copy_bytes(&self.entries[idx].id))
        } else {
            None
        }
    }

    /// A point-in-time copy of the recorded findings, in recorded order.
    pub fn snapshot(&self) -> (r: Vec<RiskEntry>)
        ensures
            entry_views(r@) == self@,
    {
        let mut out: Vec<RiskEntry> = Vec::new();
        let mut i: usize = 0;
        while i < self.entries.len()
            invariant
                0 <= i <= self.entries@.len(),
                out@.len() == i,
                entry_views(out@) == self@.take(i as int),
            decreases self.entries@.len() - i,
        {
            let e = &self.entries[i];
            out.push(RiskEntry { path: copy_bytes(&e.path), id: copy_bytes(&e.id) });
            assert(entry_views(out@)[i as int] == self@[i as int]);
            assert(entry_views(out@) =~= self@.take(i + 1 as int));
            i = i + 1;
        }
        assert(self@.take(self.entries@.len() as int) =~= self@);
        out
    }

    /// The first index whose path is `path`, or the length.
    fn find_index(&self, path: &Vec<u8>) -> (r: usize)
        ensures
            r as int == key_index(self@, path@),
    {
        let ghost m = self@;
        let mut i: usize = 0;
        while i < self.entries.len()
            invariant
                0 <= i <= self.entries@.len(),
                m == self@,
                forall|j: int| 0 <= j < i ==> (#[trigger] m[j]).0 != path@,
            decreases self.entries@.len() - i,
        {
            if bytes_eq(&self.entries[i].path, path) {
                proof {
                    lemma_key_index_is_first(m, path@, i as int);
                }
                return i;
            }
            i = i + 1;
        }
        proof {
            lemma_key_index_is_first(m, path@, self.entries@.len() as int);
        }
        self.entries.len()
    }
}

} // verus!
