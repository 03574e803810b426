//! An association list keyed by strings, viewed as a finite map from the keys'
//! characters to the values. Keys never occur twice and are kept in the
//! order of `str`'s `Ord`, as a `BTreeMap` keeps them.
use vstd::prelude::*;
use crate::text::{lemma_text_less_total, lemma_text_less_transitive, same_text, text_less, text_lt};

verus! {

/// No key occurs twice among the entries.
pub open spec fn unique_keys<V>(s: Seq<(String, V)>) -> bool {
    forall|i: int, j: int| 0 <= i < s.len() && 0 <= j < s.len() && i != j ==> s[i].0@ != s[j].0@
}

/// The keys are in strictly increasing order.
pub open spec fn sorted_keys<V>(s: Seq<(String, V)>) -> bool {
    forall|i: int, j: int| 0 <= i < j < s.len() ==> text_less(#[trigger] s[i].0@, #[trigger] s[j].0@)
}

/// `k` is the key of some entry.
pub open spec fn has_key<V>(s: Seq<(String, V)>, k: Seq<char>) -> bool {
    exists|i: int| 0 <= i < s.len() && s[i].0@ == k
}

/// The map that a list of entries with unique keys stands for.
pub open spec fn entries_map<V>(s: Seq<(String, V)>) -> Map<Seq<char>, V> {
    Map::new(
        |k: Seq<char>| has_key(s, k),
        |k: Seq<char>| s[choose|i: int| 0 <= i < s.len() && s[i].0@ == k].1,
    )
}

/// The characters of each string value of a map.
pub open spec fn text_values(m: Map<Seq<char>, String>) -> Map<Seq<char>, Seq<char>> {
    m.map_values(|v: String| v@)
}

pub proof fn lemma_entry_in_map<V>(s: Seq<(String, V)>, i: int)
    requires
        unique_keys(s),
        0 <= i < s.len(),
    ensures
        entries_map(s).contains_key(s[i].0@),
        entries_map(s)[s[i].0@] == s[i].1,
{
    let k = s[i].0@;
    assert(has_key(s, k));
    let c = choose|j: int| 0 <= j < s.len() && s[j].0@ == k;
    assert(c == i);
}

pub proof fn lemma_push_new<V>(s: Seq<(String, V)>, k: String, v: V)
    requires
        unique_keys(s),
        !has_key(s, k@),
    ensures
        unique_keys(s.push((k, v))),
        entries_map(s.push((k, v))) =~= entries_map(s).insert(k@, v),
{
    let t = s.push((k, v));
    assert(unique_keys(t));
    assert forall|x: Seq<char>| entries_map(t).contains_key(x) <==> entries_map(s).insert(k@, v).contains_key(x) by {
        if has_key(t, x) && x != k@ {
            let i = choose|i: int| 0 <= i < t.len() && t[i].0@ == x;
            assert(i < s.len());
            assert(has_key(s, x));
        }
        if has_key(s, x) {
            let i = choose|i: int| 0 <= i < s.len() && s[i].0@ == x;
            assert(t[i].0@ == x);
        }
        if x == k@ {
            assert(t[s.len() as int].0@ == x);
        }
    }
    assert forall|x: Seq<char>| #[trigger] entries_map(t).contains_key(x) implies entries_map(t)[x] == entries_map(s).insert(k@, v)[x] by {
        let i = choose|i: int| 0 <= i < t.len() && t[i].0@ == x;
        lemma_entry_in_map(t, i);
        if i < s.len() {
            lemma_entry_in_map(s, i);
        }
    }
}

pub proof fn lemma_update_at<V>(s: Seq<(String, V)>, i: int, k: String, v: V)
    requires
        unique_keys(s),
        0 <= i < s.len(),
        s[i].0@ == k@,
    ensures
        unique_keys(s.update(i, (k, v))),
        entries_map(s.update(i, (k, v))) =~= entries_map(s).insert(k@, v),
{
    let t = s.update(i, (k, v));
    assert(unique_keys(t));
    assert forall|x: Seq<char>| entries_map(t).contains_key(x) <==> entries_map(s).insert(k@, v).contains_key(x) by {
        if has_key(t, x) {
            let j = choose|j: int| 0 <= j < t.len() && t[j].0@ == x;
            assert(s[j].0@ == x);
        }
        if has_key(s, x) {
            let j = choose|j: int| 0 <= j < s.len() && s[j].0@ == x;
            assert(t[j].0@ == x);
        }
        if x == k@ {
            assert(t[i].0@ == x);
        }
    }
    assert forall|x: Seq<char>| #[trigger] entries_map(t).contains_key(x) implies entries_map(t)[x] == entries_map(s).insert(k@, v)[x] by {
        let j = choose|j: int| 0 <= j < t.len() && t[j].0@ == x;
        lemma_entry_in_map(t, j);
        lemma_entry_in_map(s, j);
    }
}

pub proof fn lemma_remove_at<V>(s: Seq<(String, V)>, i: int)
    requires
        unique_keys(s),
        0 <= i < s.len(),
    ensures
        unique_keys(s.remove(i)),
        entries_map(s.remove(i)) =~= entries_map(s).remove(s[i].0@),
{
    let t = s.remove(i);
    let k = s[i].0@;
    assert forall|a: int, b: int| 0 <= a < t.len() && 0 <= b < t.len() && a != b implies t[a].0@ != t[b].0@ by {
        let a2 = if a < i { a } else { a + 1 };
        let b2 = if b < i { b } else { b + 1 };
        assert(t[a] == s[a2]);
        assert(t[b] == s[b2]);
    }
    assert forall|x: Seq<char>| entries_map(t).contains_key(x) <==> entries_map(s).remove(k).contains_key(x) by {
        if has_key(t, x) {
            let j = choose|j: int| 0 <= j < t.len() && t[j].0@ == x;
            let j2 = if j < i { j } else { j + 1 };
            assert(s[j2].0@ == x);
            assert(j2 != i);
        }
        if has_key(s, x) && x != k {
            let j = choose|j: int| 0 <= j < s.len() && s[j].0@ == x;
            assert(j != i);
            let j2 = if j < i { j } else { j - 1 };
            assert(t[j2].0@ == x);
        }
    }
    assert forall|x: Seq<char>| #[trigger] entries_map(t).contains_key(x) implies entries_map(t)[x] == entries_map(s).remove(k)[x] by {
        let j = choose|j: int| 0 <= j < t.len() && t[j].0@ == x;
        let j2 = if j < i { j } else { j + 1 };
        lemma_entry_in_map(t, j);
        lemma_entry_in_map(s, j2);
    }
}

pub proof fn lemma_insert_new<V>(s: Seq<(String, V)>, p: int, k: String, v: V)
    requires
        unique_keys(s),
        !has_key(s, k@),
        0 <= p <= s.len(),
    ensures
        unique_keys(s.insert(p, (k, v))),
        entries_map(s.insert(p, (k, v))) =~= entries_map(s).insert(k@, v),
{
    let t = s.insert(p, (k, v));
    assert forall|a: int, b: int| 0 <= a < t.len() && 0 <= b < t.len() && a != b implies t[a].0@ != t[b].0@ by {
        if a != p && b != p {
            let a2 = if a < p { a } else { a - 1 };
            let b2 = if b < p { b } else { b - 1 };
            assert(t[a] == s[a2]);
            assert(t[b] == s[b2]);
        } else if a == p {
            let b2 = if b < p { b } else { b - 1 };
            assert(t[b] == s[b2]);
        } else {
            let a2 = if a < p { a } else { a - 1 };
            assert(t[a] == s[a2]);
        }
    }
    assert forall|x: Seq<char>| entries_map(t).contains_key(x) <==> entries_map(s).insert(k@, v).contains_key(x) by {
        if has_key(t, x) && x != k@ {
            let i = choose|i: int| 0 <= i < t.len() && t[i].0@ == x;
            let i2 = if i < p { i } else { i - 1 };
            assert(i != p);
            assert(s[i2].0@ == x);
        }
        if has_key(s, x) {
            let i = choose|i: int| 0 <= i < s.len() && s[i].0@ == x;
            let i2 = if i < p { i } else { i + 1 };
            assert(t[i2].0@ == x);
        }
        if x == k@ {
            assert(t[p].0@ == x);
        }
    }
    assert forall|x: Seq<char>| #[trigger] entries_map(t).contains_key(x) implies entries_map(t)[x] == entries_map(s).insert(k@, v)[x] by {
        let i = choose|i: int| 0 <= i < t.len() && t[i].0@ == x;
        lemma_entry_in_map(t, i);
        if i != p {
            let i2 = if i < p { i } else { i - 1 };
            assert(t[i] == s[i2]);
            lemma_entry_in_map(s, i2);
        }
    }
}

pub proof fn lemma_empty<V>()
    ensures
        entries_map(Seq::<(String, V)>::empty()) =~= Map::empty(),
        unique_keys(Seq::<(String, V)>::empty()),
{
}

/// A map from strings to values that keeps its entries in key order.
#[derive(Debug)]
pub struct StrMap<V> {
    entries: Vec<(String, V)>,
}

impl<V> View for StrMap<V> {
    type V = Map<Seq<char>, V>;

    closed spec fn view(&self) -> Map<Seq<char>, V> {
        entries_map(self.entries@)
    }
}

impl<V> StrMap<V> {
    #[verifier::type_invariant]
    closed spec fn keys_unique(&self) -> bool {
        unique_keys(self.entries@) && sorted_keys(self.entries@)
    }

    /// Where a new key `k` goes: after every smaller key, before every larger one.
    fn position_for(&self, k: &str) -> (p: usize)
        ensures
            p <= self.entries@.len(),
            forall|i: int| 0 <= i < p ==> !text_less(k@, #[trigger] self.entries@[i].0@),
            p < self.entries@.len() ==> text_less(k@, self.entries@[p as int].0@),
    {
        let mut i: usize = 0;
        while i < self.entries.len()
            invariant
                i <= self.entries@.len(),
                forall|j: int| 0 <= j < i ==> !text_less(k@, #[trigger] self.entries@[j].0@),
            decreases self.entries.len() - i,
        {
            if text_lt(k, self.entries[i].0.as_str()) {
                return i;
            }
            i = i + 1;
        }
        i
    }

    /// The entries, in key order.
    pub closed spec fn entry_seq(&self) -> Seq<(String, V)> {
        self.entries@
    }

    /// The map is the one its entries stand for.
    pub proof fn lemma_entries_view(&self)
        ensures
            self@ == entries_map(self.entry_seq()),
    {
    }

    /// The map has finitely many keys.
    pub proof fn lemma_finite(&self)
        ensures
            self@.dom().finite(),
    {
        let s = self.entries@;
        let ks = s.map_values(|e: (String, V)| e.0@);
        let keys = ks.to_set();
        assert(entries_map(s).dom() =~= keys) by {
            assert forall|x: Seq<char>| entries_map(s).dom().contains(x) implies keys.contains(x) by {
                let i = choose|i: int| 0 <= i < s.len() && s[i].0@ == x;
                assert(ks[i] == x);
            }
            assert forall|x: Seq<char>| keys.contains(x) implies entries_map(s).dom().contains(x) by {
                let i = choose|i: int| 0 <= i < ks.len() && ks[i] == x;
                assert(s[i].0@ == x);
            }
        }
        vstd::seq_lib::seq_to_set_is_finite(ks);
    }

    /// An empty map.
    pub fn new() -> (m: Self)
        ensures
            m@ == Map::<Seq<char>, V>::empty(),
            m.entry_seq().len() == 0,
    {
        let m = StrMap { entries: Vec::new() };
        proof {
            lemma_empty::<V>();
        }
        m
    }

    /// Position of the entry with key `k`.
    fn index_of(&self, k: &str) -> (r: Option<usize>)
        ensures
            r matches Some(i) ==> i < self.entries@.len() && self.entries@[i as int].0@ == k@,
            r is None ==> !has_key(self.entries@, k@),
    {
        let mut i: usize = 0;
        while i < self.entries.len()
            invariant
                i <= self.entries@.len(),
                forall|j: int| 0 <= j < i ==> self.entries@[j].0@ != k@,
            decreases self.entries.len() - i,
        {
            if same_text(self.entries[i].0.as_str(), k) {
                return Some(i);
            }
            i = i + 1;
        }
        None
    }

    /// Number of entries.
    pub fn len(&self) -> (n: usize)
        ensures
            n == self@.len(),
            n == self.entry_seq().len(),
    {
        proof {
            use_type_invariant(self);
            self.lemma_finite();
            self.lemma_len();
        }
        self.entries.len()
    }

    proof fn lemma_len(&self)
        requires
            unique_keys(self.entries@),
        ensures
            entries_map(self.entries@).len() == self.entries@.len(),
    {
        let s = self.entries@;
        let f = |e: (String, V)| e.0@;
        let ks = s.map_values(f);
        assert forall|i: int, j: int| 0 <= i < ks.len() && 0 <= j < ks.len() && i != j implies ks[i] != ks[j] by {}
        assert(ks.no_duplicates());
        ks.unique_seq_to_set();
        assert(entries_map(s).dom() =~= ks.to_set()) by {
            assert forall|x: Seq<char>| entries_map(s).dom().contains(x) implies ks.to_set().contains(x) by {
                let i = choose|i: int| 0 <= i < s.len() && s[i].0@ == x;
                assert(ks[i] == x);
            }
            assert forall|x: Seq<char>| ks.to_set().contains(x) implies entries_map(s).dom().contains(x) by {
                let i = choose|i: int| 0 <= i < ks.len() && ks[i] == x;
                assert(s[i].0@ == x);
            }
        }
    }

    /// Whether the map holds the key `k`.
    pub fn contains_key(&self, k: &str) -> (r: bool)
        ensures
            r == self@.contains_key(k@),
    {
        self.index_of(k).is_some()
    }

    /// The value of key `k`.
    pub fn get(&self, k: &str) -> (r: Option<&V>)
        ensures
            r matches Some(v) ==> self@.contains_key(k@) && self@[k@] == *v,
            r is None ==> !self@.contains_key(k@),
    {
        proof {
            use_type_invariant(self);
        }
        match self.index_of(k) {
            Some(i) => {
                proof {
                    lemma_entry_in_map(self.entries@, i as int);
                }
                Some(&self.entries[i].1)
            },
            None => None,
        }
    }

    /// Sets key `k` to `v`, replacing any earlier value; returns the earlier value.
    pub fn insert(&mut self, k: String, v: V) -> (old_v: Option<V>)
        ensures
            final(self)@ == old(self)@.insert(k@, v),
            old(self)@.contains_key(k@) == old_v is Some,
            old_v matches Some(w) ==> w == old(self)@[k@],
    {
        proof {
            use_type_invariant(&*self);
        }
        match self.index_of(k.as_str()) {
            Some(i) => {
                proof {
                    lemma_update_at(self.entries@, i as int, k, v);
                    lemma_entry_in_map(self.entries@, i as int);
                }
                let mut entries: Vec<(String, V)> = Vec::new();
                std::mem::swap(&mut entries, &mut self.entries);
                let ghost before = entries@;
                let mut entry = (k, v);
                std::mem::swap(&mut entry, &mut entries[i]);
                proof {
                    assert(entries@ =~= before.update(i as int, (k, v)));
                }
                self.entries = entries;
                Some(entry.1)
            },
            None => {
                let p = self.position_for(k.as_str());
                let ghost s0 = self.entries@;
                proof {
                    lemma_insert_new(s0, p as int, k, v);
                    let t = s0.insert(p as int, (k, v));
                    assert forall|a: int, b: int| 0 <= a < b < t.len() implies text_less(#[trigger] t[a].0@, #[trigger] t[b].0@) by {
                        if b < p {
                            assert(t[a] == s0[a] && t[b] == s0[b]);
                        } else if a > p {
                            assert(t[a] == s0[a - 1] && t[b] == s0[b - 1]);
                        } else if a == p {
                            assert(t[b] == s0[b - 1]);
                            if b - 1 > p {
                                assert(text_less(s0[p as int].0@, s0[b - 1].0@));
                                lemma_text_less_transitive(k@, s0[p as int].0@, s0[b - 1].0@);
                            }
                        } else if b == p {
                            assert(t[a] == s0[a]);
                            assert(!text_less(k@, s0[a].0@));
                            assert(s0[a].0@ != k@);
                            lemma_text_less_total(k@, s0[a].0@);
                        } else {
                            assert(a < p && p < b);
                            assert(t[a] == s0[a] && t[b] == s0[b - 1]);
                            assert(text_less(s0[a].0@, s0[b - 1].0@));
                        }
                    }
                }
                let mut entries: Vec<(String, V)> = Vec::new();
                std::mem::swap(&mut entries, &mut self.entries);
                entries.insert(p, (k, v));
                self.entries = entries;
                None
            },
        }
    }

    /// Removes key `k`; returns its value.
    pub fn remove(&mut self, k: &str) -> (old_v: Option<V>)
        ensures
            final(self)@ == old(self)@.remove(k@),
            old(self)@.contains_key(k@) == old_v is Some,
            old_v matches Some(w) ==> w == old(self)@[k@],
    {
        proof {
            use_type_invariant(&*self);
        }
        match self.index_of(k) {
            Some(i) => {
                proof {
                    lemma_remove_at(self.entries@, i as int);
                    lemma_entry_in_map(self.entries@, i as int);
                }
                let mut entries: Vec<(String, V)> = Vec::new();
                std::mem::swap(&mut entries, &mut self.entries);
                let e = entries.remove(i);
                self.entries = entries;
                Some(e.1)
            },
            None => {
                proof {
                    assert(self@.remove(k@) =~= self@);
                }
                None
            },
        }
    }

    /// The entries in key order.
    pub fn entries(&self) -> (r: &Vec<(String, V)>)
        ensures
            r@ == self.entry_seq(),
            unique_keys(r@),
            sorted_keys(r@),
            self@ == entries_map(r@),
    {
        proof {
            use_type_invariant(self);
        }
        &self.entries
    }
}

} // verus!

verus! {

pub proof fn lemma_take_push<V>(s: Seq<(String, V)>, i: int)
    requires
        unique_keys(s),
        0 <= i < s.len(),
    ensures
        unique_keys(s.take(i)),
        !has_key(s.take(i), s[i].0@),
        s.take(i + 1) == s.take(i).push(s[i]),
        entries_map(s.take(i + 1)) == entries_map(s.take(i)).insert(s[i].0@, s[i].1),
{
    assert(s.take(i + 1) =~= s.take(i).push(s[i]));
    lemma_push_new(s.take(i), s[i].0, s[i].1);
}

impl StrMap<String> {
    /// Inserts every entry of `other`, later values replacing earlier ones.
    pub fn extend_from(&mut self, other: &StrMap<String>)
        ensures
            final(self)@ == old(self)@.union_prefer_right(other@),
    {
        let entries = other.entries();
        let ghost s = entries@;
        let ghost start = self@;
        let mut i: usize = 0;
        while i < entries.len()
            invariant
                s == entries@,
                unique_keys(s),
                other@ == entries_map(s),
                i <= s.len(),
                self@ == start.union_prefer_right(entries_map(s.take(i as int))),
            decreases entries.len() - i,
        {
            proof {
                lemma_take_push(s, i as int);
            }
            let k = entries[i].0.clone();
            let v = entries[i].1.clone();
            self.insert(k, v);
            assert(self@ =~= start.union_prefer_right(entries_map(s.take(i + 1))));
            i = i + 1;
        }
        assert(s.take(s.len() as int) =~= s);
    }

    /// A copy of the map.
    pub fn copy(&self) -> (r: StrMap<String>)
        ensures
            r@ == self@,
    {
        let mut r = StrMap::new();
        r.extend_from(self);
        assert(r@ =~= self@);
        r
    }
}

} // verus!
