//! The installation manifest: per-mod records and the mapping from mod id
//! to record that is persisted under the resource-mod directory.

use vstd::prelude::*;

use crate::kvlist::{kv_map, kv_dup_free, lemma_kv_map_dom, lemma_kv_map_at, lemma_kv_map_update, lemma_kv_map_remove, lemma_kv_dup_free_remove};

verus! {

/// Opaque per-mod metadata; the manifest keeps a slot for it but the
/// manager itself never fills it.
#[derive(Debug, Clone, PartialEq, Eq, Structural)]
pub struct Metadata {}

/// One mod's installation record: when it was installed, which version,
/// and every path written under the resource-mod directory, in write
/// order. The path list is the sole source of truth for uninstall.
#[derive(Debug, Clone)]
pub struct Record {
    pub metadata: Option<Metadata>,
    pub update_time: u64,
    pub version: String,
    pub files: Vec<String>,
}

/// Mathematical image of a `Record`.
pub struct RecordV {
    pub metadata: bool,
    pub update_time: u64,
    pub version: Seq<char>,
    pub files: Seq<Seq<char>>,
}

impl View for Record {
    type V = RecordV;

    open spec fn view(&self) -> RecordV {
        RecordV {
            metadata: self.metadata is Some,
            update_time: self.update_time,
            version: self.version@,
            files: self.files.deep_view(),
        }
    }
}

/// The manifest: a mapping from mod id to `Record`, stored as an ordered
/// list of entries with pairwise-distinct keys.
#[derive(Debug, Clone)]
pub struct Records {
    pub records: Vec<(String, Record)>,
}

impl View for Records {
    type V = Map<Seq<char>, RecordV>;

    open spec fn view(&self) -> Map<Seq<char>, RecordV> {
        kv_map(self.records@)
    }
}

impl Records {
    /// Entry keys are pairwise distinct, so the entry list and the mapping
    /// carry the same information.
    pub open spec fn wf(&self) -> bool {
        kv_dup_free(self.records@)
    }

    /// The manifest keys, in entry order.
    pub open spec fn key_seq(&self) -> Seq<Seq<char>> {
        self.records@.map_values(|p: (String, Record)| p.0@)
    }

    /// An empty manifest.
    pub fn new() -> (r: Records)
        ensures
            r.wf(),
            r@ =~= Map::<Seq<char>, RecordV>::empty(),
            r.records@.len() == 0,
    {
        Records { records: Vec::new() }
    }

    /// How many mods the manifest lists.
    pub fn len(&self) -> (n: usize)
        ensures
            n == self.records@.len(),
    {
        self.records.len()
    }

    /// The position of the entry for `id`, if the manifest has one.
    fn position_of(&self, id: &str) -> (r: Option<usize>)
        requires
            self.wf(),
        ensures
            r matches Some(i) ==> i < self.records@.len() && self.records@[i as int].0@ == id@,
            r is None ==> forall|i: int| 0 <= i < self.records@.len()
                ==> (#[trigger] self.records@[i]).0@ != id@,
            r is Some <==> self@.contains_key(id@),
    {
        let mut i: usize = 0;
        let n: usize = self.records.len();
        while i < n
            invariant
                i <= n,
                n == self.records@.len(),
                forall|j: int| 0 <= j < i ==> (#[trigger] self.records@[j]).0@ != id@,
            decreases n - i,
        {
            if crate::text::str_eq(self.records[i].0.as_str(), id) {
                proof {
                    lemma_kv_map_dom(self.records@, id@);
                }
                return Some(i);
            }
            i = i + 1;
        }
        proof {
            lemma_kv_map_dom(self.records@, id@);
        }
        None
    }

    /// Whether the manifest has a record for `id`.
    pub fn contains(&self, id: &str) -> (r: bool)
        requires
            self.wf(),
        ensures
            r == self@.contains_key(id@),
    {
        self.position_of(id).is_some()
    }

    /// The record for `id`, if any.
    pub fn get(&self, id: &str) -> (r: Option<&Record>)
        requires
            self.wf(),
        ensures
            r matches Some(rec) ==> self@.contains_key(id@) && rec@ == self@[id@],
            r is None ==> !self@.contains_key(id@),
    {
        match self.position_of(id) {
            None => None,
            Some(i) => {
                proof {
                    lemma_kv_map_at(self.records@, i as int);
                }
                Some(&self.records[i].1)
            },
        }
    }

    /// Inserts or replaces the record for `id`.
    pub fn insert(&mut self, id: String, rec: Record)
        requires
            old(self).wf(),
        ensures
            final(self).wf(),
            final(self)@ =~= old(self)@.insert(id@, rec@),
    {
        match self.position_of(id.as_str()) {
            Some(i) => {
                proof {
                    lemma_kv_map_update(self.records@, i as int, (id, rec));
                }
                self.records.set(i, (id, rec));
                assert(kv_dup_free(self.records@));
            },
            None => {
                self.records.push((id, rec));
                proof {
                    let s = self.records@;
                    assert(s.drop_last() =~= old(self).records@);
                    assert(kv_dup_free(s));
                }
            },
        }
    }

    /// Removes the record for `id`; does nothing when there is none.
    pub fn remove(&mut self, id: &str)
        requires
            old(self).wf(),
        ensures
            final(self).wf(),
            final(self)@ =~= old(self)@.remove(id@),
    {
        match self.position_of(id) {
            Some(i) => {
                proof {
                    lemma_kv_map_remove(self.records@, i as int);
                    assert(self.records@[i as int].0@ == id@);
                }
                proof {
                    lemma_kv_dup_free_remove(self.records@, i as int);
                }
                self.records.remove(i);
            },
            None => {
                proof {
                    lemma_kv_map_dom(self.records@, id@);
                    assert(!old(self)@.contains_key(id@));
                    assert(old(self)@.remove(id@) =~= old(self)@);
                }
            },
        }
    }

    /// The manifest keys, cloned, in entry order.
    pub fn keys(&self) -> (r: Vec<String>)
        ensures
            r@.len() == self.records@.len(),
            forall|j: int| 0 <= j < r@.len() ==> (#[trigger] r@[j])@ == self.key_seq()[j],
    {
        let mut r: Vec<String> = Vec::new();
        let mut i: usize = 0;
        let n: usize = self.records.len();
        while i < n
            invariant
                i <= n,
                n == self.records@.len(),
                r@.len() == i,
                forall|j: int| 0 <= j < i ==> (#[trigger] r@[j])@ == self.records@[j].0@,
            decreases n - i,
        {
            r.push(self.records[i].0.clone());
            i = i + 1;
        }
        r
    }
}

impl Default for Records {
    /// An empty manifest.
    fn default() -> (r: Records)
        ensures
            r.wf(),
            r@ =~= Map::<Seq<char>, RecordV>::empty(),
            r.records@.len() == 0,
    {
        Records { records: Vec::new() }
    }
}

} // verus!
