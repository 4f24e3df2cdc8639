//! The registry of available mods: a mapping from mod id to listing,
//! supplied wholesale by an outside source.

use vstd::prelude::*;

use crate::kvlist::{kv_map, kv_dup_free, lemma_kv_map_dom, lemma_kv_map_at, lemma_kv_map_update};

verus! {

/// One mod's listing in a registry.
#[derive(Debug, Clone)]
pub struct Mod {
    pub id: String,
    pub version: String,
    pub url: String,
    pub image_url: String,
    pub name: String,
}

/// Mathematical image of a `Mod`.
pub struct ModV {
    pub id: Seq<char>,
    pub version: Seq<char>,
    pub url: Seq<char>,
    pub image_url: Seq<char>,
    pub name: Seq<char>,
}

impl View for Mod {
    type V = ModV;

    open spec fn view(&self) -> ModV {
        ModV {
            id: self.id@,
            version: self.version@,
            url: self.url@,
            image_url: self.image_url@,
            name: self.name@,
        }
    }
}

/// A registry: a mapping from mod id to listing, stored as an ordered list
/// of entries with pairwise-distinct keys. A newly loaded registry always
/// replaces the previous one; registries are never merged.
#[derive(Debug, Clone)]
pub struct Registry {
    pub mods: Vec<(String, Mod)>,
}

impl View for Registry {
    type V = Map<Seq<char>, ModV>;

    open spec fn view(&self) -> Map<Seq<char>, ModV> {
        kv_map(self.mods@)
    }
}

impl Registry {
    /// Entry keys are pairwise distinct.
    pub open spec fn wf(&self) -> bool {
        kv_dup_free(self.mods@)
    }

    /// The listed mod ids, in entry order.
    pub open spec fn key_seq(&self) -> Seq<Seq<char>> {
        self.mods@.map_values(|p: (String, Mod)| p.0@)
    }

    /// An empty registry.
    pub fn new() -> (r: Registry)
        ensures
            r.wf(),
            r@ =~= Map::<Seq<char>, ModV>::empty(),
            r.mods@.len() == 0,
    {
        Registry { mods: Vec::new() }
    }

    /// How many mods the registry lists.
    pub fn len(&self) -> (n: usize)
        ensures
            n == self.mods@.len(),
    {
        self.mods.len()
    }

    /// The position of the entry for `id`, if the registry has one.
    fn position_of(&self, id: &str) -> (r: Option<usize>)
        requires
            self.wf(),
        ensures
            r matches Some(i) ==> i < self.mods@.len() && self.mods@[i as int].0@ == id@,
            r is None ==> forall|i: int| 0 <= i < self.mods@.len()
                ==> (#[trigger] self.mods@[i]).0@ != id@,
            r is Some <==> self@.contains_key(id@),
    {
        let mut i: usize = 0;
        let n: usize = self.mods.len();
        while i < n
            invariant
                i <= n,
                n == self.mods@.len(),
                forall|j: int| 0 <= j < i ==> (#[trigger] self.mods@[j]).0@ != id@,
            decreases n - i,
        {
            if crate::text::str_eq(self.mods[i].0.as_str(), id) {
                proof {
                    lemma_kv_map_dom(self.mods@, id@);
                }
                return Some(i);
            }
            i = i + 1;
        }
        proof {
            lemma_kv_map_dom(self.mods@, id@);
        }
        None
    }

    /// Whether the registry lists `id`.
    pub fn contains(&self, id: &str) -> (r: bool)
        requires
            self.wf(),
        ensures
            r == self@.contains_key(id@),
    {
        self.position_of(id).is_some()
    }

    /// The listing for `id`, if any.
    pub fn get(&self, id: &str) -> (r: Option<&Mod>)
        requires
            self.wf(),
        ensures
            r matches Some(m) ==> self@.contains_key(id@) && m@ == self@[id@],
            r is None ==> !self@.contains_key(id@),
    {
        match self.position_of(id) {
            None => None,
            Some(i) => {
                proof {
                    lemma_kv_map_at(self.mods@, i as int);
                }
                Some(&self.mods[i].1)
            },
        }
    }

    /// Inserts or replaces the listing for `id`.
    pub fn insert(&mut self, id: String, m: Mod)
        requires
            old(self).wf(),
        ensures
            final(self).wf(),
            final(self)@ =~= old(self)@.insert(id@, m@),
    {
        match self.position_of(id.as_str()) {
            Some(i) => {
                proof {
                    lemma_kv_map_update(self.mods@, i as int, (id, m));
                }
                self.mods.set(i, (id, m));
                assert(kv_dup_free(self.mods@));
            },
            None => {
                self.mods.push((id, m));
                proof {
                    let s = self.mods@;
                    assert(s.drop_last() =~= old(self).mods@);
                    assert(kv_dup_free(s));
                }
            },
        }
    }

    /// The listed mod ids, cloned, in entry order.
    pub fn keys(&self) -> (r: Vec<String>)
        ensures
            r@.len() == self.mods@.len(),
            forall|j: int| 0 <= j < r@.len() ==> (#[trigger] r@[j])@ == self.key_seq()[j],
    {
        let mut r: Vec<String> = Vec::new();
        let mut i: usize = 0;
        let n: usize = self.mods.len();
        while i < n
            invariant
                i <= n,
                n == self.mods@.len(),
                r@.len() == i,
                forall|j: int| 0 <= j < i ==> (#[trigger] r@[j])@ == self.mods@[j].0@,
            decreases n - i,
        {
            r.push(self.mods[i].0.clone());
            i = i + 1;
        }
        r
    }
}

impl Default for Registry {
    /// An empty registry.
    fn default() -> (r: Registry)
        ensures
            r.wf(),
            r@ =~= Map::<Seq<char>, ModV>::empty(),
            r.mods@.len() == 0,
    {
        Registry { mods: Vec::new() }
    }
}

} // verus!
