//! Lists of `(key, value)` entries read as mappings. Both the manifest and
//! the registry store their entries this way, keyed by mod id, with
//! pairwise-distinct keys.

use vstd::prelude::*;

verus! {

/// The mapping denoted by an entry list; a later entry for the same key
/// would win, though well-formed lists have no duplicates.
pub open spec fn kv_map<V: View>(s: Seq<(String, V)>) -> Map<Seq<char>, V::V>
    decreases s.len(),
{
    if s.len() == 0 {
        Map::empty()
    } else {
        kv_map(s.drop_last()).insert(s.last().0@, s.last().1@)
    }
}

/// Pairwise-distinct keys.
pub open spec fn kv_dup_free<V: View>(s: Seq<(String, V)>) -> bool {
    forall|i: int, j: int| 0 <= i < j < s.len() ==> (#[trigger] s[i]).0@ != (#[trigger] s[j]).0@
}

/// A key is in the mapping of an entry list exactly when some entry has it.
pub proof fn lemma_kv_map_dom<V: View>(s: Seq<(String, V)>, k: Seq<char>)
    ensures
        kv_map(s).contains_key(k) <==> exists|i: int|
            0 <= i < s.len() && (#[trigger] s[i]).0@ == k,
    decreases s.len(),
{
    if s.len() > 0 {
        lemma_kv_map_dom(s.drop_last(), k);
        if kv_map(s).contains_key(k) && s.last().0@ != k {
            let i = choose|i: int|
                0 <= i < s.drop_last().len() && (#[trigger] s.drop_last()[i]).0@ == k;
            assert(s[i].0@ == k);
        }
        if exists|i: int| 0 <= i < s.len() && (#[trigger] s[i]).0@ == k {
            let i = choose|i: int| 0 <= i < s.len() && (#[trigger] s[i]).0@ == k;
            if i < s.len() - 1 {
                assert(s.drop_last()[i].0@ == k);
            }
        }
    }
}

/// In a duplicate-free entry list, each entry gives the mapping's value at
/// its key.
pub proof fn lemma_kv_map_at<V: View>(s: Seq<(String, V)>, i: int)
    requires
        kv_dup_free(s),
        0 <= i < s.len(),
    ensures
        kv_map(s).contains_key(s[i].0@),
        kv_map(s)[s[i].0@] == s[i].1@,
    decreases s.len(),
{
    if i == s.len() - 1 {
    } else {
        assert(kv_dup_free(s.drop_last()));
        assert(s.drop_last()[i] == s[i]);
        lemma_kv_map_at(s.drop_last(), i);
        assert(s[i].0@ != s.last().0@);
    }
}

/// Replacing the entry that holds a key updates the mapping at that key.
pub proof fn lemma_kv_map_update<V: View>(s: Seq<(String, V)>, i: int, p: (String, V))
    requires
        kv_dup_free(s),
        0 <= i < s.len(),
        s[i].0@ == p.0@,
    ensures
        kv_map(s.update(i, p)) =~= kv_map(s).insert(p.0@, p.1@),
    decreases s.len(),
{
    let t = s.update(i, p);
    if i == s.len() - 1 {
        assert(t.drop_last() =~= s.drop_last());
        assert(t.last() == p);
    } else {
        assert(kv_dup_free(s.drop_last()));
        assert(s.drop_last()[i] == s[i]);
        lemma_kv_map_update(s.drop_last(), i, p);
        assert(t.drop_last() =~= s.drop_last().update(i, p));
        assert(t.last() == s.last());
        assert(s[i].0@ != s.last().0@);
    }
}

/// Removing the entry that holds a key removes the key from the mapping.
pub proof fn lemma_kv_map_remove<V: View>(s: Seq<(String, V)>, i: int)
    requires
        kv_dup_free(s),
        0 <= i < s.len(),
    ensures
        kv_map(s.remove(i)) =~= kv_map(s).remove(s[i].0@),
    decreases s.len(),
{
    let t = s.remove(i);
    if i == s.len() - 1 {
        assert(t =~= s.drop_last());
        lemma_kv_map_dom(s.drop_last(), s[i].0@);
        assert(forall|j: int| 0 <= j < s.drop_last().len()
            ==> (#[trigger] s.drop_last()[j]).0@ != s[i].0@);
        assert(!kv_map(s.drop_last()).contains_key(s[i].0@));
        assert(kv_map(s.drop_last()).remove(s[i].0@) =~= kv_map(s.drop_last()));
    } else {
        assert(kv_dup_free(s.drop_last()));
        assert(s.drop_last()[i] == s[i]);
        lemma_kv_map_remove(s.drop_last(), i);
        assert(t.drop_last() =~= s.drop_last().remove(i));
        assert(t.last() == s.last());
        assert(s[i].0@ != s.last().0@);
    }
}

/// Removing an entry keeps the keys pairwise distinct.
pub proof fn lemma_kv_dup_free_remove<V: View>(s: Seq<(String, V)>, i: int)
    requires
        kv_dup_free(s),
        0 <= i < s.len(),
    ensures
        kv_dup_free(s.remove(i)),
{
    let t = s.remove(i);
    assert forall|a: int, b: int| 0 <= a < b < t.len()
        implies (#[trigger] t[a]).0@ != (#[trigger] t[b]).0@ by {
        if b < i {
            assert(t[a] == s[a] && t[b] == s[b]);
        } else if a < i {
            assert(t[a] == s[a] && t[b] == s[b + 1]);
        } else {
            assert(t[a] == s[a + 1] && t[b] == s[b + 1]);
        }
    }
}

} // verus!
