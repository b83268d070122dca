//! A map from strings to values that keeps its keys in order.

use vstd::prelude::*;

use crate::order::lemma_lex_antisymmetric;
use crate::order::lemma_lex_irreflexive;
use crate::order::lemma_lex_total;
use crate::order::lemma_lex_transitive;
use crate::order::lemma_utf8_injective;
use crate::order::lex_lt;
use crate::order::str_less;
use crate::order::str_lt;
use vstd::utf8::encode_utf8;

verus! {

/// A map from strings to values. Keys come out in the order of their UTF-8 bytes.
pub struct SortedMap<V> {
    entries: Vec<(String, V)>,
}

spec fn sorted<V>(entries: Seq<(String, V)>) -> bool {
    forall|i: int, j: int|
        0 <= i < j < entries.len() ==> str_lt(#[trigger] entries[i].0@, #[trigger] entries[j].0@)
}

spec fn position<V>(entries: Seq<(String, V)>, key: Seq<char>) -> int {
    choose|i: int| 0 <= i < entries.len() && #[trigger] entries[i].0@ == key
}

spec fn has_key<V>(entries: Seq<(String, V)>, key: Seq<char>) -> bool {
    exists|i: int| 0 <= i < entries.len() && #[trigger] entries[i].0@ == key
}

spec fn as_map<V>(entries: Seq<(String, V)>) -> Map<Seq<char>, V> {
    Map::new(
        |k: Seq<char>| has_key(entries, k),
        |k: Seq<char>| entries[position(entries, k)].1,
    )
}

proof fn lemma_as_map<V>(entries: Seq<(String, V)>)
    requires
        sorted(entries),
    ensures
        forall|k: Seq<char>| #[trigger]
            as_map(entries).contains_key(k) <==> has_key(entries, k),
        forall|i: int|
            0 <= i < entries.len() ==> {
                &&& as_map(entries).contains_key(#[trigger] entries[i].0@)
                &&& as_map(entries)[entries[i].0@] == entries[i].1
            },
        as_map(entries).dom().finite(),
        as_map(entries).dom().len() == entries.len(),
{
    let keys = entries.map_values(|e: (String, V)| e.0@);
    assert forall|k: Seq<char>| keys.contains(k) <==> has_key(entries, k) by {
        if keys.contains(k) {
            let i = choose|i: int| 0 <= i < keys.len() && keys[i] == k;
            assert(entries[i].0@ == k);
        }
        if has_key(entries, k) {
            let i = position(entries, k);
            assert(keys[i] == k);
        }
    }
    assert(keys.no_duplicates()) by {
        assert forall|i: int, j: int| 0 <= i < keys.len() && 0 <= j < keys.len() && i
            != j implies keys[i] != keys[j] by {
            if i < j {
                lemma_lex_antisymmetric(
                    encode_utf8(entries[i].0@),
                    encode_utf8(entries[j].0@),
                );
            } else {
                lemma_lex_antisymmetric(
                    encode_utf8(entries[j].0@),
                    encode_utf8(entries[i].0@),
                );
            }
        }
    }
    keys.unique_seq_to_set();
    assert(as_map(entries).dom() =~= keys.to_set());
    assert forall|i: int| 0 <= i < entries.len() implies {
        &&& as_map(entries).contains_key(#[trigger] entries[i].0@)
        &&& as_map(entries)[entries[i].0@] == entries[i].1
    } by {
        let k = entries[i].0@;
        assert(has_key(entries, k));
        let p = position(entries, k);
        assert(keys[p] == keys[i]);
        assert(p == i);
    }
}

impl<V> View for SortedMap<V> {
    type V = Map<Seq<char>, V>;

    closed spec fn view(&self) -> Map<Seq<char>, V> {
        as_map(self.entries@)
    }
}

impl<V> SortedMap<V> {
    #[verifier::type_invariant]
    spec fn inv(self) -> bool {
        sorted(self.entries@)
    }

    /// The empty map.
    pub fn new() -> (r: Self)
        ensures
            r@ == Map::<Seq<char>, V>::empty(),
    {
        let r: Self = SortedMap { entries: Vec::new() };
        proof {
            lemma_as_map(r.entries@);
            assert(r@ =~= Map::<Seq<char>, V>::empty());
        }
        r
    }

    /// The number of keys.
    pub fn len(&self) -> (r: usize)
        ensures
            self@.dom().finite(),
            r == self@.dom().len(),
    {
        proof {
            use_type_invariant(self);
            lemma_as_map(self.entries@);
        }
        self.entries.len()
    }

    /// Moves the entries out, leaving the map empty.
    fn take_entries(&mut self) -> (r: Vec<(String, V)>)
        ensures
            r@ == old(self).entries@,
            sorted(r@),
    {
        let mut taken: Self = SortedMap { entries: Vec::new() };
        std::mem::swap(self, &mut taken);
        proof {
            use_type_invariant(&taken);
        }
        taken.entries
    }

    /// The position of the first key that does not come before `key`.
    fn lower_bound(&self, key: &str) -> (r: usize)
        ensures
            r <= self.entries@.len(),
            forall|i: int| 0 <= i < r ==> str_lt(#[trigger] self.entries@[i].0@, key@),
            forall|i: int|
                r <= i < self.entries@.len() ==> !str_lt(#[trigger] self.entries@[i].0@, key@),
            has_key(self.entries@, key@) <==> (r < self.entries@.len() && self.entries@[r as int].0@
                == key@),
    {
        proof {
            use_type_invariant(self);
        }
        let mut lo: usize = 0;
        let mut hi: usize = self.entries.len();
        while lo < hi
            invariant
                lo <= hi <= self.entries@.len(),
                sorted(self.entries@),
                forall|i: int| 0 <= i < lo ==> str_lt(#[trigger] self.entries@[i].0@, key@),
                forall|i: int|
                    hi <= i < self.entries@.len() ==> !str_lt(#[trigger] self.entries@[i].0@, key@),
            decreases hi - lo,
        {
            let mid: usize = lo + (hi - lo) / 2;
            if str_less(self.entries[mid].0.as_str(), key) {
                proof {
                    assert forall|i: int| 0 <= i < mid + 1 implies str_lt(
                        #[trigger] self.entries@[i].0@,
                        key@,
                    ) by {
                        if i < mid {
                            lemma_lex_transitive(
                                encode_utf8(self.entries@[i].0@),
                                encode_utf8(self.entries@[mid as int].0@),
                                encode_utf8(key@),
                            );
                        }
                    }
                }
                lo = mid + 1;
            } else {
                proof {
                    assert forall|i: int| mid <= i < self.entries@.len() implies !str_lt(
                        #[trigger] self.entries@[i].0@,
                        key@,
                    ) by {
                        if i > mid && str_lt(self.entries@[i].0@, key@) {
                            lemma_lex_transitive(
                                encode_utf8(self.entries@[mid as int].0@),
                                encode_utf8(self.entries@[i].0@),
                                encode_utf8(key@),
                            );
                        }
                    }
                }
                hi = mid;
            }
        }
        proof {
            lemma_lex_irreflexive(encode_utf8(key@));
            if has_key(self.entries@, key@) {
                let p = position(self.entries@, key@);
                if p > lo {
                    // The entry at `lo` would come before the key.
                    assert(str_lt(self.entries@[lo as int].0@, self.entries@[p].0@));
                }
                assert(p == lo);
            }
        }
        lo
    }

    /// The value under `key`, if there is one.
    pub fn get(&self, key: &str) -> (r: Option<&V>)
        ensures
            r is Some <==> self@.contains_key(key@),
            r matches Some(v) ==> *v == self@[key@],
    {
        let at: usize = self.lower_bound(key);
        proof {
            use_type_invariant(self);
            lemma_as_map(self.entries@);
        }
        if at < self.entries.len() && crate::order::str_equal(self.entries[at].0.as_str(), key) {
            Some(&self.entries[at].1)
        } else {
            None
        }
    }

    /// Takes the value under `key` out of the map, if there is one.
    pub fn remove(&mut self, key: &str) -> (r: Option<V>)
        ensures
            r is Some <==> old(self)@.contains_key(key@),
            r matches Some(v) ==> v == old(self)@[key@],
            final(self)@ == old(self)@.remove(key@),
    {
        let at: usize = self.lower_bound(key);
        proof {
            use_type_invariant(&*self);
            lemma_as_map(self.entries@);
        }
        if at < self.entries.len() && crate::order::str_equal(self.entries[at].0.as_str(), key) {
            let ghost before = self.entries@;
            proof {
                lemma_remove_entry(before, at as int);
            }
            let mut entries = self.take_entries();
            let (_, v) = entries.remove(at);
            *self = SortedMap { entries };
            Some(v)
        } else {
            assert(self@ =~= old(self)@.remove(key@));
            None
        }
    }

    /// Puts `value` under `key`, in place of any value there.
    pub fn insert(&mut self, key: String, value: V)
        ensures
            final(self)@ == old(self)@.insert(key@, value),
    {
        let _ = self.remove(key.as_str());
        let at: usize = self.lower_bound(key.as_str());
        proof {
            use_type_invariant(&*self);
            lemma_as_map(self.entries@);
            lemma_insert_entry(self.entries@, at as int, key, value);
            assert(old(self)@.remove(key@).insert(key@, value) =~= old(self)@.insert(key@, value));
        }
        let mut entries = self.take_entries();
        entries.insert(at, (key, value));
        *self = SortedMap { entries };
    }

    /// Takes some entry out of the map, or nothing if it is empty.
    pub fn pop(&mut self) -> (r: Option<(String, V)>)
        ensures
            old(self)@.dom().finite(),
            r is None <==> old(self)@.dom().len() == 0,
            r is None ==> old(self)@ == Map::<Seq<char>, V>::empty() && final(self)@ == old(self)@,
            r matches Some((k, v)) ==> {
                &&& old(self)@.contains_key(k@)
                &&& old(self)@[k@] == v
                &&& final(self)@ == old(self)@.remove(k@)
                &&& final(self)@.dom().len() + 1 == old(self)@.dom().len()
            },
    {
        proof {
            use_type_invariant(&*self);
            lemma_as_map(self.entries@);
        }
        let n: usize = self.entries.len();
        if n == 0 {
            assert(self@ =~= Map::<Seq<char>, V>::empty());
            return None;
        }
        proof {
            lemma_remove_entry(self.entries@, n - 1);
            lemma_as_map(self.entries@.remove(n - 1));
        }
        let mut entries = self.take_entries();
        let entry = entries.remove(n - 1);
        *self = SortedMap { entries };
        Some(entry)
    }

    /// The entry whose key has exactly `index` keys of the map before it.
    pub fn nth(&self, index: usize) -> (r: Option<(&String, &V)>)
        ensures
            self@.dom().finite(),
            r is Some <==> index < self@.dom().len(),
            r matches Some((k, v)) ==> {
                &&& self@.contains_key(k@)
                &&& *v == self@[k@]
                &&& rank(self@.dom(), k@) == index
            },
    {
        proof {
            use_type_invariant(self);
            lemma_as_map(self.entries@);
        }
        if index < self.entries.len() {
            proof {
                lemma_rank(self.entries@, index as int);
            }
            Some((&self.entries[index].0, &self.entries[index].1))
        } else {
            None
        }
    }
}

/// A map has finitely many keys.
pub proof fn lemma_keys_finite<V>(m: SortedMap<V>)
    ensures
        m@.dom().finite(),
{
    let keys = m.entries@.map_values(|e: (String, V)| e.0@);
    assert(m@.dom().subset_of(keys.to_set())) by {
        assert forall|k: Seq<char>| m@.dom().contains(k) implies keys.to_set().contains(k) by {
            let i = position(m.entries@, k);
            assert(keys[i] == k);
        }
    }
    vstd::set_lib::lemma_set_subset_finite(keys.to_set(), m@.dom());
}

/// The number of strings in `keys` that come before `key`.
pub open spec fn rank(keys: Set<Seq<char>>, key: Seq<char>) -> nat {
    keys.filter(|k: Seq<char>| str_lt(k, key)).len()
}

proof fn lemma_rank<V>(entries: Seq<(String, V)>, at: int)
    requires
        sorted(entries),
        0 <= at < entries.len(),
    ensures
        rank(as_map(entries).dom(), entries[at].0@) == at,
{
    lemma_as_map(entries);
    let front = entries.take(at);
    lemma_as_map(front);
    let key = entries[at].0@;
    let below = as_map(entries).dom().filter(|k: Seq<char>| str_lt(k, key));
    assert(below =~= as_map(front).dom()) by {
        assert forall|k: Seq<char>| below.contains(k) <==> as_map(front).dom().contains(k) by {
            if below.contains(k) {
                assert(as_map(entries).contains_key(k));
                let i = position(entries, k);
                if i > at {
                    lemma_lex_antisymmetric(encode_utf8(key), encode_utf8(k));
                } else if i == at {
                    lemma_lex_irreflexive(encode_utf8(key));
                }
                assert(front[i].0@ == k);
                assert(as_map(front).contains_key(k));
            }
            if as_map(front).dom().contains(k) {
                assert(as_map(front).contains_key(k));
                let i = position(front, k);
                assert(entries[i].0@ == k);
                assert(as_map(entries).contains_key(k));
            }
        }
    }
}

proof fn lemma_remove_entry<V>(entries: Seq<(String, V)>, at: int)
    requires
        sorted(entries),
        0 <= at < entries.len(),
    ensures
        sorted(entries.remove(at)),
        as_map(entries.remove(at)) == as_map(entries).remove(entries[at].0@),
{
    let rest = entries.remove(at);
    let key = entries[at].0@;
    assert forall|i: int, j: int| 0 <= i < j < rest.len() implies str_lt(
        #[trigger] rest[i].0@,
        #[trigger] rest[j].0@,
    ) by {
        let i2 = if i < at { i } else { i + 1 };
        let j2 = if j < at { j } else { j + 1 };
        assert(str_lt(entries[i2].0@, entries[j2].0@));
    }
    lemma_as_map(entries);
    lemma_as_map(rest);
    assert forall|k: Seq<char>| as_map(rest).contains_key(k) <==> as_map(entries).remove(
        key,
    ).contains_key(k) by {
        if as_map(rest).contains_key(k) {
            let p = position(rest, k);
            let p2 = if p < at { p } else { p + 1 };
            assert(entries[p2].0@ == k);
            if k == key {
                lemma_lex_irreflexive(encode_utf8(k));
                assert(p2 < at ==> str_lt(entries[p2].0@, entries[at].0@));
                assert(at < p2 ==> str_lt(entries[at].0@, entries[p2].0@));
            }
        }
        if as_map(entries).contains_key(k) && k != key {
            let p = position(entries, k);
            let p2 = if p < at { p } else { p - 1 };
            assert(rest[p2].0@ == k);
            assert(has_key(rest, k));
        }
    }
    assert forall|k: Seq<char>| as_map(rest).contains_key(k) implies as_map(rest)[k] == as_map(
        entries,
    )[k] by {
        let p = position(rest, k);
        let p2 = if p < at { p } else { p + 1 };
        assert(entries[p2].0@ == k && rest[p] == entries[p2]);
    }
    assert(as_map(rest) =~= as_map(entries).remove(key));
}

proof fn lemma_insert_entry<V>(entries: Seq<(String, V)>, at: int, key: String, value: V)
    requires
        sorted(entries),
        0 <= at <= entries.len(),
        !has_key(entries, key@),
        forall|i: int| 0 <= i < at ==> str_lt(#[trigger] entries[i].0@, key@),
        forall|i: int| at <= i < entries.len() ==> !str_lt(#[trigger] entries[i].0@, key@),
    ensures
        sorted(entries.insert(at, (key, value))),
        as_map(entries.insert(at, (key, value))) == as_map(entries).insert(key@, value),
{
    let all = entries.insert(at, (key, value));
    assert forall|i: int| at <= i < entries.len() implies str_lt(
        key@,
        #[trigger] entries[i].0@,
    ) by {
        lemma_lex_total(encode_utf8(key@), encode_utf8(entries[i].0@));
        if encode_utf8(key@) == encode_utf8(entries[i].0@) {
            lemma_utf8_injective(key@, entries[i].0@);
        }
    }
    assert forall|i: int, j: int| 0 <= i < j < all.len() implies str_lt(
        #[trigger] all[i].0@,
        #[trigger] all[j].0@,
    ) by {
        let i2 = if i < at { i } else { i - 1 };
        let j2 = if j < at { j } else { j - 1 };
        if i != at && j != at {
            assert(str_lt(entries[i2].0@, entries[j2].0@));
        } else if i == at {
            assert(all[j] == entries[j2]);
        } else {
            assert(all[i] == entries[i2]);
        }
    }
    lemma_as_map(all);
    lemma_remove_entry(all, at);
    assert(all.remove(at) =~= entries);
    assert(all[at] == (key, value));
    assert(as_map(all).contains_key(all[at].0@) && as_map(all)[all[at].0@] == value);
    assert(as_map(all) =~= as_map(all).remove(key@).insert(key@, value));
}

/// Keys are numbered in the order of their UTF-8 bytes: a key that comes before another has the
/// lower rank.
pub proof fn law_ranks_follow_the_byte_order(keys: Set<Seq<char>>, a: Seq<char>, b: Seq<char>)
    requires
        keys.finite(),
        keys.contains(a),
        lex_lt(encode_utf8(a), encode_utf8(b)),
    ensures
        rank(keys, a) < rank(keys, b),
        rank(keys, b) <= keys.len(),
{
    let below_a = keys.filter(|k: Seq<char>| str_lt(k, a));
    let below_b = keys.filter(|k: Seq<char>| str_lt(k, b));
    lemma_lex_irreflexive(encode_utf8(a));
    assert(!below_a.contains(a));
    assert(below_b.contains(a));
    assert forall|k: Seq<char>| below_a.contains(k) implies below_b.contains(k) by {
        lemma_lex_transitive(encode_utf8(k), encode_utf8(a), encode_utf8(b));
    }
    assert(below_a.insert(a).subset_of(below_b));
    vstd::set_lib::lemma_len_subset(below_a.insert(a), below_b);
    vstd::set_lib::lemma_len_subset(below_b, keys);
}

/// A key that no other comes before has rank 0.
pub proof fn law_least_key_comes_first(keys: Set<Seq<char>>, key: Seq<char>)
    requires
        forall|k: Seq<char>|
            #![trigger keys.contains(k)]
            keys.contains(k) ==> !lex_lt(encode_utf8(k), encode_utf8(key)),
    ensures
        rank(keys, key) == 0,
{
    assert(keys.filter(|k: Seq<char>| str_lt(k, key)) =~= Set::empty());
}

} // verus!
