//! A map keyed by strings that keeps its keys in ascending character order,
//! each key once: the order in which a `BTreeMap<String, _>` walks its entries.
use crate::text::{
    chars_lt, lemma_lt_asymmetric, lemma_lt_total, lemma_lt_transitive, lemma_sorted_list_of,
    sorted_list, strictly_sorted, text_eq, text_lt,
};
use vstd::prelude::*;

verus! {

/// The characters of each string of `s`.
pub open spec fn string_views(s: Seq<String>) -> Seq<Seq<char>> {
    s.map_values(|x: String| x@)
}

pub proof fn lemma_views_push(s: Seq<String>, x: String)
    ensures
        string_views(s.push(x)) == string_views(s).push(x@),
{
    assert(string_views(s.push(x)) =~= string_views(s).push(x@));
}

/// Entries in ascending order of their keys, no key twice.
#[derive(Debug)]
pub struct SortedStrMap<V> {
    entries: Vec<(String, V)>,
}

impl<V> SortedStrMap<V> {
    #[verifier::type_invariant]
    spec fn keys_ascend(self) -> bool {
        strictly_sorted(self.entries@.map_values(|e: (String, V)| e.0@))
    }

    /// The entries, in ascending order of their keys.
    pub closed spec fn entries(self) -> Seq<(String, V)> {
        self.entries@
    }

    /// The characters of each key, in order.
    pub open spec fn keys(self) -> Seq<Seq<char>> {
        self.entries().map_values(|e: (String, V)| e.0@)
    }

    /// The set of keys.
    pub open spec fn key_set(self) -> Set<Seq<char>> {
        self.keys().to_set()
    }

    pub fn new() -> (m: Self)
        ensures
            m.entries() == Seq::<(String, V)>::empty(),
            strictly_sorted(m.keys()),
    {
        SortedStrMap { entries: Vec::new() }
    }

    pub fn len(&self) -> (n: usize)
        ensures
            n == self.entries().len(),
    {
        self.entries.len()
    }

    pub fn key_at(&self, i: usize) -> (k: &String)
        requires
            i < self.entries().len(),
        ensures
            *k == self.entries()[i as int].0,
    {
        &self.entries[i].0
    }

    pub fn value_at(&self, i: usize) -> (v: &V)
        requires
            i < self.entries().len(),
        ensures
            *v == self.entries()[i as int].1,
    {
        &self.entries[i].1
    }

    pub fn contains_key(&self, k: &str) -> (r: bool)
        ensures
            r == self.keys().contains(k@),
    {
        let n = self.entries.len();
        let mut i: usize = 0;
        while i < n
            invariant
                n == self.entries().len(),
                i <= n,
                forall|j: int| 0 <= j < i ==> self.keys()[j] != k@,
            decreases n - i,
        {
            if text_eq(self.entries[i].0.as_str(), k) {
                assert(self.keys()[i as int] == k@);
                return true;
            }
            i = i + 1;
        }
        false
    }

    /// Puts `value` under `key`. An existing key keeps its place and takes the
    /// new value; a new key goes where the order puts it.
    pub fn insert(&mut self, key: String, value: V)
        ensures
            old(self).keys().contains(key@) ==> {
                let i = old(self).keys().index_of(key@);
                final(self).entries() == old(self).entries().update(
                    i,
                    (old(self).entries()[i].0, value),
                )
            },
            !old(self).keys().contains(key@) ==> exists|p: int|
                0 <= p <= old(self).entries().len() && (forall|j: int|
                    0 <= j < p ==> chars_lt(#[trigger] old(self).keys()[j], key@)) && (p < old(
                    self,
                ).entries().len() ==> chars_lt(key@, old(self).keys()[p])) && final(self).entries()
                    == old(self).entries().insert(p, (key, value)),
            final(self).key_set() == old(self).key_set().insert(key@),
            strictly_sorted(final(self).keys()),
    {
        proof {
            use_type_invariant(&*self);
        }
        let ghost old_keys = self.keys();
        let mut e: Vec<(String, V)> = Vec::new();
        std::mem::swap(&mut e, &mut self.entries);
        let ghost orig = e@;
        assert(old_keys == orig.map_values(|x: (String, V)| x.0@));
        let n = e.len();
        let mut p: usize = 0;
        while p < n
            invariant
                n == e@.len(),
                e@ == orig,
                old_keys == orig.map_values(|x: (String, V)| x.0@),
                p <= n,
                forall|j: int| 0 <= j < p ==> chars_lt(#[trigger] old_keys[j], key@),
            ensures
                p <= n,
                p < n ==> !chars_lt(old_keys[p as int], key@),
            decreases n - p,
        {
            if !text_lt(e[p].0.as_str(), key.as_str()) {
                break;
            }
            p = p + 1;
        }
        if p < n && text_eq(e[p].0.as_str(), key.as_str()) {
            proof {
                assert(old_keys[p as int] == key@);
                assert forall|j: int| 0 <= j < old_keys.len() && j != p implies old_keys[j]
                    != key@ by {
                    if j < p {
                        lemma_lt_asymmetric(old_keys[j], key@);
                    } else {
                        lemma_lt_asymmetric(old_keys[p as int], old_keys[j]);
                    }
                }
                assert(old_keys.index_of(key@) == p as int);
            }
            let (k, _) = e.remove(p);
            e.insert(p, (k, value));
            proof {
                assert(e@ =~= orig.update(p as int, (orig[p as int].0, value)));
                assert(e@.map_values(|x: (String, V)| x.0@) =~= old_keys);
                assert(old_keys.to_set().insert(key@) =~= old_keys.to_set());
            }
        } else {
            proof {
                if p < n {
                    lemma_lt_total(old_keys[p as int], key@);
                }
                assert forall|j: int| 0 <= j < old_keys.len() implies old_keys[j] != key@ by {
                    if j < p {
                        lemma_lt_asymmetric(old_keys[j], key@);
                    } else {
                        if j > p {
                            lemma_lt_transitive(key@, old_keys[p as int], old_keys[j]);
                        }
                        lemma_lt_asymmetric(key@, old_keys[j]);
                    }
                }
            }
            let ghost k = key@;
            e.insert(p, (key, value));
            proof {
                let nk = e@.map_values(|x: (String, V)| x.0@);
                assert(nk =~= old_keys.insert(p as int, k));
                assert forall|i: int, j: int| 0 <= i < j < nk.len() implies chars_lt(
                    #[trigger] nk[i],
                    #[trigger] nk[j],
                ) by {
                    if j > p {
                        if j - 1 > p {
                            lemma_lt_transitive(k, old_keys[p as int], old_keys[j - 1]);
                        }
                        assert(chars_lt(k, old_keys[j - 1]));
                        if i < p {
                            lemma_lt_transitive(old_keys[i], k, old_keys[j - 1]);
                        }
                    }
                }
                assert(strictly_sorted(nk));
                assert forall|x: Seq<char>| nk.to_set().contains(x) <==> old_keys.to_set().insert(
                    k,
                ).contains(x) by {
                    if nk.to_set().contains(x) {
                        let m = choose|m: int| 0 <= m < nk.len() && nk[m] == x;
                        if m < p {
                            assert(old_keys[m] == x);
                        } else if m > p {
                            assert(old_keys[m - 1] == x);
                        }
                    }
                    if old_keys.to_set().contains(x) {
                        let m = choose|m: int| 0 <= m < old_keys.len() && old_keys[m] == x;
                        if m < p {
                            assert(nk[m] == x);
                        } else {
                            assert(nk[m + 1] == x);
                        }
                    }
                    if x == k {
                        assert(nk[p as int] == x);
                    }
                }
                assert(nk.to_set() =~= old_keys.to_set().insert(k));
            }
        }
        self.entries = e;
    }

    /// The keys of `self` that `other` does not hold, in ascending order.
    pub fn keys_not_in<W>(&self, other: &SortedStrMap<W>) -> (r: Vec<String>)
        ensures
            string_views(r@) == sorted_list(self.key_set().difference(other.key_set())),
    {
        proof {
            use_type_invariant(self);
        }
        let ghost keys = self.keys();
        let n = self.entries.len();
        let mut r: Vec<String> = Vec::new();
        let mut i: usize = 0;
        while i < n
            invariant
                n == self.entries().len(),
                keys == self.keys(),
                strictly_sorted(keys),
                i <= n,
                strictly_sorted(string_views(r@)),
                forall|x: Seq<char>|
                    #![trigger string_views(r@).contains(x)]
                    string_views(r@).contains(x) <==> (exists|j: int|
                        0 <= j < i && keys[j] == x) && !other.key_set().contains(x),
            decreases n - i,
        {
            let k = &self.entries[i].0;
            if !other.contains_key(k.as_str()) {
                let ghost before = string_views(r@);
                r.push(k.clone());
                proof {
                    let after = string_views(r@);
                    assert(after =~= before.push(keys[i as int]));
                    assert forall|a: int, b: int| 0 <= a < b < after.len() implies chars_lt(
                        #[trigger] after[a],
                        #[trigger] after[b],
                    ) by {
                        if b == before.len() {
                            assert(before.contains(after[a]));
                            let j = choose|j: int| 0 <= j < i && keys[j] == after[a];
                            assert(chars_lt(keys[j], keys[i as int]));
                        }
                    }
                    assert forall|x: Seq<char>| after.contains(x) <==> (exists|j: int|
                        0 <= j < i + 1 && keys[j] == x) && !other.key_set().contains(x) by {
                        if after.contains(x) {
                            let m = choose|m: int| 0 <= m < after.len() && after[m] == x;
                            if m < before.len() {
                                assert(before.contains(x));
                            }
                        }
                        if (exists|j: int| 0 <= j < i + 1 && keys[j] == x) && !other.key_set().contains(x) {
                            let j = choose|j: int| 0 <= j < i + 1 && keys[j] == x;
                            if j < i {
                                assert(before.contains(x));
                                let m = choose|m: int| 0 <= m < before.len() && before[m] == x;
                                assert(after[m] == x);
                            } else {
                                assert(after[before.len() as int] == x);
                            }
                        }
                    }
                }
            } else {
                proof {
                    let v = string_views(r@);
                    assert forall|x: Seq<char>| v.contains(x) <==> (exists|j: int|
                        0 <= j < i + 1 && keys[j] == x) && !other.key_set().contains(x) by {
                        if (exists|j: int| 0 <= j < i + 1 && keys[j] == x) && !other.key_set().contains(x) {
                            let j = choose|j: int| 0 <= j < i + 1 && keys[j] == x;
                            if j == i {
                                assert(other.keys().contains(keys[j]));
                            }
                        }
                    }
                }
            }
            i = i + 1;
        }
        proof {
            let v = string_views(r@);
            assert forall|x: Seq<char>| v.to_set().contains(x) <==> self.key_set().difference(
                other.key_set(),
            ).contains(x) by {
                if self.key_set().contains(x) {
                    let j = choose|j: int| 0 <= j < keys.len() && keys[j] == x;
                    assert(v.contains(x) <==> !other.key_set().contains(keys[j]));
                }
            }
            assert(v.to_set() =~= self.key_set().difference(other.key_set()));
            lemma_sorted_list_of(v);
        }
        r
    }
}

} // verus!
