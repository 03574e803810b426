//! Header maps whose keys are compared after trimming and lower-casing.
use vstd::prelude::*;
use crate::strmap::{text_values, StrMap};
use crate::text::{ascii_lower, chars_of, is_space, leading_spaces, trailing_spaces, lemma_leading_spaces_bound, lemma_trailing_spaces_bound, lemma_lower_keeps_spaces, lemma_trim_noop, lemma_trimmed_edges, lower_ascii, string_from, trim_chars, trimmed};

verus! {

/// The form in which a header name is stored: trimmed and ASCII lower-cased.
pub open spec fn header_key(k: Seq<char>) -> Seq<char> {
    ascii_lower(trimmed(k))
}

/// A raw map from header names to values.
pub type HeaderMap = StrMap<String>;

/// Headers keyed by normalised names.
#[derive(Debug)]
pub struct Headers {
    inner: StrMap<String>,
}

impl View for Headers {
    type V = Map<Seq<char>, Seq<char>>;

    closed spec fn view(&self) -> Map<Seq<char>, Seq<char>> {
        text_values(self.inner@)
    }
}

/// Stored names are already in stored form.
pub proof fn lemma_header_key_idempotent(k: Seq<char>)
    ensures
        header_key(header_key(k)) == header_key(k),
{
    let t = trimmed(k);
    lemma_trimmed_edges(k);
    lemma_lower_keeps_spaces(t);
    let l = ascii_lower(t);
    if l.len() > 0 {
        assert(!is_space(l[0]));
        assert(!is_space(l[l.len() - 1]));
    }
    lemma_trim_noop(l);
}

/// The header name in stored form.
pub fn normalize_key(key: &str) -> (r: String)
    ensures
        r@ == header_key(key@),
{
    let chars = chars_of(key);
    let t = trim_chars(&chars);
    let l = lower_ascii(&t);
    string_from(&l, 0, l.len())
}

impl Headers {
    /// Every stored name is already in stored form.
    #[verifier::type_invariant]
    closed spec fn stored_keys(&self) -> bool {
        forall|k: Seq<char>| #[trigger] self.inner@.contains_key(k) ==> header_key(k) == k
    }

    /// The stored pairs in order of their names.
    pub closed spec fn entry_seq(&self) -> Seq<(String, String)> {
        self.inner.entry_seq()
    }

    /// The headers are the pairs they store.
    pub proof fn lemma_entries_view(&self)
        ensures
            self@ == text_values(crate::strmap::entries_map(self.entry_seq())),
    {
        self.inner.lemma_entries_view();
    }
}

impl Clone for Headers {
    fn clone(&self) -> (r: Self)
        ensures
            r@ == self@,
    {
        proof {
            use_type_invariant(self);
        }
        Headers { inner: self.inner.copy() }
    }
}

impl Headers {
    /// No headers.
    pub fn new() -> (h: Headers)
        ensures
            h@ == Map::<Seq<char>, Seq<char>>::empty(),
    {
        let inner = StrMap::new();
        assert(text_values(inner@) =~= Map::<Seq<char>, Seq<char>>::empty());
        Headers { inner }
    }

    /// Sets the header `key` (normalised) to `value`.
    pub fn insert(&mut self, key: String, value: String)
        ensures
            final(self)@ == old(self)@.insert(header_key(key@), value@),
    {
        proof {
            use_type_invariant(&*self);
            lemma_header_key_idempotent(key@);
        }
        let k = normalize_key(key.as_str());
        let mut inner = StrMap::new();
        std::mem::swap(&mut inner, &mut self.inner);
        inner.insert(k, value);
        self.inner = inner;
        assert(self@ =~= old(self)@.insert(header_key(key@), value@));
    }

    /// These headers with `key` set to `value`.
    pub fn with(self, key: String, value: String) -> (h: Headers)
        ensures
            h@ == self@.insert(header_key(key@), value@),
    {
        let mut h = self;
        h.insert(key, value);
        h
    }

    /// The value of header `key`, matched after normalisation.
    pub fn get(&self, key: &str) -> (r: Option<&str>)
        ensures
            match r {
                Some(v) => self@.contains_key(header_key(key@)) && self@[header_key(key@)] == v@,
                None => !self@.contains_key(header_key(key@)),
            },
    {
        let k = normalize_key(key);
        match self.inner.get(k.as_str()) {
            Some(v) => Some(v.as_str()),
            None => None,
        }
    }

    /// Removes header `key`; returns its value.
    pub fn remove(&mut self, key: &str) -> (r: Option<String>)
        ensures
            final(self)@ == old(self)@.remove(header_key(key@)),
            match r {
                Some(v) => old(self)@.contains_key(header_key(key@)) && old(self)@[header_key(key@)] == v@,
                None => !old(self)@.contains_key(header_key(key@)),
            },
    {
        proof {
            use_type_invariant(&*self);
        }
        let k = normalize_key(key);
        let mut inner = StrMap::new();
        std::mem::swap(&mut inner, &mut self.inner);
        let r = inner.remove(k.as_str());
        self.inner = inner;
        assert(self@ =~= old(self)@.remove(header_key(key@)));
        r
    }

    /// Whether header `key` is present.
    pub fn contains_key(&self, key: &str) -> (r: bool)
        ensures
            r == self@.contains_key(header_key(key@)),
    {
        let k = normalize_key(key);
        self.inner.contains_key(k.as_str())
    }

    /// Copies every header of `other` into these, replacing equal names.
    pub fn extend(&mut self, other: &Headers)
        ensures
            final(self)@ == old(self)@.union_prefer_right(other@),
    {
        proof {
            use_type_invariant(&*self);
            use_type_invariant(other);
        }
        let mut inner = StrMap::new();
        std::mem::swap(&mut inner, &mut self.inner);
        inner.extend_from(&other.inner);
        self.inner = inner;
        assert(self@ =~= old(self)@.union_prefer_right(other@));
    }

    /// The stored name/value pairs.
    pub fn iter(&self) -> (r: &Vec<(String, String)>)
        ensures
            r@ == self.entry_seq(),
            crate::strmap::unique_keys(r@),
            crate::strmap::sorted_keys(r@),
            forall|i: int| 0 <= i < r@.len() ==> header_key(#[trigger] r@[i].0@) == r@[i].0@,
            forall|i: int| 0 <= i < r@.len() ==> #[trigger] self@.contains_key(r@[i].0@)
                && self@[r@[i].0@] == r@[i].1@,
            forall|k: Seq<char>| #[trigger] self@.contains_key(k) ==> exists|i: int| 0 <= i < r@.len() && r@[i].0@ == k,
    {
        proof {
            use_type_invariant(self);
        }
        let r = self.inner.entries();
        proof {
            assert forall|i: int| 0 <= i < r@.len() implies header_key(#[trigger] r@[i].0@) == r@[i].0@ by {
                crate::strmap::lemma_entry_in_map(r@, i);
            }
            assert forall|i: int| 0 <= i < r@.len() implies #[trigger] self@.contains_key(r@[i].0@)
                && self@[r@[i].0@] == r@[i].1@ by {
                crate::strmap::lemma_entry_in_map(r@, i);
            }
        }
        r
    }

    /// The underlying map of stored names.
    pub fn into_inner(self) -> (m: HeaderMap)
        ensures
            text_values(m@) == self@,
            forall|k: Seq<char>| #[trigger] m@.contains_key(k) ==> header_key(k) == k,
    {
        proof {
            use_type_invariant(&self);
        }
        self.inner
    }

    /// Headers holding each entry of `map` in key order, names
    /// normalised; of two names with the same stored form the later wins.
    pub fn from_map(map: HeaderMap) -> (h: Headers)
        ensures
            h@ == normalized_entries(map.entry_seq()),
    {
        let mut h = Headers::new();
        let entries = map.entries();
        let mut i: usize = 0;
        while i < entries.len()
            invariant
                i <= entries@.len(),
                entries@ == map.entry_seq(),
                h@ == normalized_entries(entries@.take(i as int)),
            decreases entries.len() - i,
        {
            h.insert(entries[i].0.clone(), entries[i].1.clone());
            assert(entries@.take(i + 1).drop_last() =~= entries@.take(i as int));
            i = i + 1;
        }
        assert(entries@.take(entries@.len() as int) =~= entries@);
        h
    }
}

/// The headers a list of raw pairs gives, inserted in order with names normalised.
pub open spec fn normalized_entries(s: Seq<(String, String)>) -> Map<Seq<char>, Seq<char>>
    decreases s.len(),
{
    if s.len() == 0 {
        Map::empty()
    } else {
        normalized_entries(s.drop_last()).insert(header_key(s.last().0@), s.last().1@)
    }
}

impl Default for Headers {
    fn default() -> (h: Self)
        ensures
            h@ == Map::<Seq<char>, Seq<char>>::empty(),
    {
        Headers::new()
    }
}

} // verus!

verus! {

proof fn lemma_lower_leading(s: Seq<char>)
    ensures
        leading_spaces(ascii_lower(s)) == leading_spaces(s),
    decreases s.len(),
{
    lemma_lower_keeps_spaces(s);
    if s.len() > 0 {
        assert(ascii_lower(s).drop_first() =~= ascii_lower(s.drop_first()));
        lemma_lower_leading(s.drop_first());
        assert(is_space(ascii_lower(s)[0]) == is_space(s[0]));
    }
}

proof fn lemma_lower_trailing(s: Seq<char>)
    ensures
        trailing_spaces(ascii_lower(s)) == trailing_spaces(s),
    decreases s.len(),
{
    lemma_lower_keeps_spaces(s);
    if s.len() > 0 {
        assert(ascii_lower(s).drop_last() =~= ascii_lower(s.drop_last()));
        lemma_lower_trailing(s.drop_last());
        assert(is_space(ascii_lower(s)[s.len() - 1]) == is_space(s[s.len() - 1]));
    }
}

/// Header names are case-insensitive: a name and its ASCII lower-cased form
/// are stored under the same key.
pub proof fn lemma_header_key_ignores_case(k: Seq<char>)
    ensures
        header_key(ascii_lower(k)) == header_key(k),
{
    lemma_lower_leading(k);
    lemma_lower_trailing(k);
    lemma_leading_spaces_bound(k);
    lemma_trailing_spaces_bound(k);
    let l = ascii_lower(k);
    assert(trimmed(l) =~= ascii_lower(trimmed(k)));
    lemma_lower_keeps_spaces(trimmed(k));
}

/// A lookup after an insert: any name with the same stored form reads the
/// value just set; every other name reads what it read before.
pub proof fn lemma_lookup_after_insert(h: Map<Seq<char>, Seq<char>>, set: Seq<char>, value: Seq<char>, read: Seq<char>)
    ensures
        header_key(read) == header_key(set) ==> h.insert(header_key(set), value).contains_key(header_key(read))
            && h.insert(header_key(set), value)[header_key(read)] == value,
        header_key(read) != header_key(set) ==> (h.insert(header_key(set), value).contains_key(header_key(read))
            == h.contains_key(header_key(read))) && (h.contains_key(header_key(read))
            ==> h.insert(header_key(set), value)[header_key(read)] == h[header_key(read)]),
{
}

} // verus!
