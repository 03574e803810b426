//! Order-preserving selections, partitions, rotations and groupings of sequences.
use vstd::prelude::*;

verus! {

/// The elements of `s` that satisfy `p`, in their order.
pub open spec fn keep<T>(s: Seq<T>, p: spec_fn(T) -> bool) -> Seq<T>
    decreases s.len(),
{
    if s.len() == 0 {
        s
    } else {
        let r = keep(s.drop_last(), p);
        if p(s.last()) { r.push(s.last()) } else { r }
    }
}

/// The complement of a predicate.
pub open spec fn negated<T>(p: spec_fn(T) -> bool) -> spec_fn(T) -> bool {
    |x: T| !p(x)
}

/// The elements whose weight is `v`.
pub open spec fn at_weight<T>(w: spec_fn(T) -> int, v: int) -> spec_fn(T) -> bool {
    |x: T| w(x) == v
}

/// The elements that satisfy `p` followed by the others, each group in order.
pub open spec fn stable_split<T>(s: Seq<T>, p: spec_fn(T) -> bool) -> Seq<T> {
    keep(s, p) + keep(s, negated(p))
}

/// `s` rotated left by `k`.
pub open spec fn rotated<T>(s: Seq<T>, k: int) -> Seq<T> {
    s.skip(k) + s.take(k)
}

/// The elements grouped by weight from `hi` down to `lo`, each group in order.
pub open spec fn weight_band<T>(s: Seq<T>, w: spec_fn(T) -> int, lo: int, hi: int) -> Seq<T>
    decreases hi - lo + 1,
{
    if hi < lo {
        Seq::empty()
    } else {
        keep(s, at_weight(w, hi)) + weight_band(s, w, lo, hi - 1)
    }
}

pub proof fn lemma_keep_push<T>(s: Seq<T>, p: spec_fn(T) -> bool, x: T)
    ensures
        keep(s.push(x), p) == if p(x) { keep(s, p).push(x) } else { keep(s, p) },
{
    assert(s.push(x).drop_last() =~= s);
}

pub proof fn lemma_keep_members<T>(s: Seq<T>, p: spec_fn(T) -> bool)
    ensures
        forall|i: int| 0 <= i < keep(s, p).len() ==> p(#[trigger] keep(s, p)[i]) && s.contains(keep(s, p)[i]),
        keep(s, p).len() <= s.len(),
    decreases s.len(),
{
    if s.len() > 0 {
        lemma_keep_members(s.drop_last(), p);
        let r = keep(s.drop_last(), p);
        assert forall|i: int| 0 <= i < keep(s, p).len() implies p(#[trigger] keep(s, p)[i]) && s.contains(keep(s, p)[i]) by {
            if i < r.len() {
                let j = choose|j: int| 0 <= j < s.drop_last().len() && s.drop_last()[j] == r[i];
                assert(s[j] == r[i]);
            } else {
                assert(s[s.len() - 1] == s.last());
            }
        }
    }
}

pub proof fn lemma_keep_none<T>(s: Seq<T>, p: spec_fn(T) -> bool)
    requires
        forall|i: int| 0 <= i < s.len() ==> !p(#[trigger] s[i]),
    ensures
        keep(s, p) == Seq::<T>::empty(),
    decreases s.len(),
{
    if s.len() > 0 {
        assert forall|i: int| 0 <= i < s.drop_last().len() implies !p(#[trigger] s.drop_last()[i]) by {
            assert(s.drop_last()[i] == s[i]);
        }
        lemma_keep_none(s.drop_last(), p);
        assert(!p(s[s.len() - 1]));
    }
}

pub proof fn lemma_keep_all<T>(s: Seq<T>, p: spec_fn(T) -> bool)
    requires
        forall|i: int| 0 <= i < s.len() ==> p(#[trigger] s[i]),
    ensures
        keep(s, p) == s,
    decreases s.len(),
{
    if s.len() > 0 {
        assert forall|i: int| 0 <= i < s.drop_last().len() implies p(#[trigger] s.drop_last()[i]) by {
            assert(s.drop_last()[i] == s[i]);
        }
        lemma_keep_all(s.drop_last(), p);
        assert(p(s[s.len() - 1]));
        assert(s.drop_last().push(s.last()) =~= s);
    }
}

/// Splits `items` by `flags`: flagged items first, then the rest, each in order.
pub fn split_by_flags<T>(items: Vec<T>, flags: &Vec<bool>, Ghost(p): Ghost<spec_fn(T) -> bool>) -> (r: Vec<T>)
    requires
        flags@.len() == items@.len(),
        forall|i: int| 0 <= i < items@.len() ==> flags@[i] == p(#[trigger] items@[i]),
    ensures
        r@ == stable_split(items@, p),
{
    let ghost s = items@;
    let mut rest = items;
    let mut yes: Vec<T> = Vec::new();
    let mut no: Vec<T> = Vec::new();
    let mut i: usize = 0;
    let n = flags.len();
    while i < n
        invariant
            n == flags@.len() == s.len(),
            i <= n,
            forall|j: int| 0 <= j < s.len() ==> flags@[j] == p(#[trigger] s[j]),
            rest@ == s.skip(i as int),
            yes@ == keep(s.take(i as int), p),
            no@ == keep(s.take(i as int), negated(p)),
        decreases n - i,
    {
        let x = rest.remove(0);
        proof {
            assert(x == s[i as int]);
            assert(s.take(i + 1) =~= s.take(i as int).push(s[i as int]));
            lemma_keep_push(s.take(i as int), p, s[i as int]);
            lemma_keep_push(s.take(i as int), negated(p), s[i as int]);
            assert(rest@ =~= s.skip(i + 1));
        }
        if flags[i] {
            yes.push(x);
        } else {
            no.push(x);
        }
        i = i + 1;
    }
    assert(s.take(n as int) =~= s);
    yes.append(&mut no);
    yes
}

/// `v` rotated left by `k` places.
pub fn rotate_left<T>(v: Vec<T>, k: usize) -> (r: Vec<T>)
    requires
        k <= v@.len(),
    ensures
        r@ == rotated(v@, k as int),
{
    let mut head = v;
    let mut tail = head.split_off(k);
    tail.append(&mut head);
    tail
}

pub proof fn lemma_band_empty<T>(s: Seq<T>, w: spec_fn(T) -> int, lo: int, hi: int)
    requires
        forall|i: int| 0 <= i < s.len() ==> !(lo <= w(#[trigger] s[i]) <= hi),
    ensures
        weight_band(s, w, lo, hi) == Seq::<T>::empty(),
    decreases hi - lo + 1,
{
    if hi >= lo {
        let p = at_weight(w, hi);
        assert forall|i: int| 0 <= i < s.len() implies !p(#[trigger] s[i]) by {
            assert(!(lo <= w(s[i]) <= hi));
        }
        lemma_keep_none(s, p);
        lemma_band_empty(s, w, lo, hi - 1);
        assert(weight_band(s, w, lo, hi) == keep(s, p) + weight_band(s, w, lo, hi - 1));
        assert(weight_band(s, w, lo, hi) =~= Seq::<T>::empty());
    }
}

pub proof fn lemma_band_split<T>(s: Seq<T>, w: spec_fn(T) -> int, lo: int, mid: int, hi: int)
    requires
        lo <= mid <= hi + 1,
    ensures
        weight_band(s, w, lo, hi) == weight_band(s, w, mid, hi) + weight_band(s, w, lo, mid - 1),
    decreases hi - mid + 1,
{
    if mid <= hi {
        lemma_band_split(s, w, lo, mid, hi - 1);
        assert(weight_band(s, w, lo, hi) =~= weight_band(s, w, mid, hi) + weight_band(s, w, lo, mid - 1));
    } else {
        assert(weight_band(s, w, mid, hi) =~= Seq::<T>::empty());
        assert(weight_band(s, w, lo, hi) =~= weight_band(s, w, mid, hi) + weight_band(s, w, lo, mid - 1));
    }
}

proof fn lemma_band_push<T>(s: Seq<T>, w: spec_fn(T) -> int, x: T, lo: int, hi: int)
    ensures
        weight_band(s.push(x), w, lo, hi).len() == weight_band(s, w, lo, hi).len() + if lo <= w(x) <= hi { 1int } else { 0int },
    decreases hi - lo + 1,
{
    if hi >= lo {
        lemma_keep_push(s, at_weight(w, hi), x);
        lemma_band_push(s, w, x, lo, hi - 1);
    }
}

/// Grouping by weight keeps every element whose weight is in range.
pub proof fn lemma_band_length<T>(s: Seq<T>, w: spec_fn(T) -> int, lo: int, hi: int)
    requires
        forall|i: int| 0 <= i < s.len() ==> lo <= w(#[trigger] s[i]) <= hi,
    ensures
        weight_band(s, w, lo, hi).len() == s.len(),
    decreases s.len(),
{
    if s.len() == 0 {
        lemma_band_empty(s, w, lo, hi);
    } else {
        let d = s.drop_last();
        assert forall|i: int| 0 <= i < d.len() implies lo <= w(#[trigger] d[i]) <= hi by {
            assert(d[i] == s[i]);
        }
        lemma_band_length(d, w, lo, hi);
        assert(d.push(s.last()) =~= s);
        assert(lo <= w(s[s.len() - 1]) <= hi);
        lemma_band_push(d, w, s.last(), lo, hi);
    }
}


/// The elements that satisfy `p` and those that do not are all the elements.
pub proof fn lemma_split_length<T>(s: Seq<T>, p: spec_fn(T) -> bool)
    ensures
        stable_split(s, p).len() == s.len(),
    decreases s.len(),
{
    if s.len() > 0 {
        lemma_split_length(s.drop_last(), p);
    }
}


/// Some element satisfies `p` exactly when some element is kept.
pub proof fn lemma_keep_nonempty<T>(s: Seq<T>, p: spec_fn(T) -> bool, k: int)
    requires
        0 <= k < s.len(),
        p(s[k]),
    ensures
        keep(s, p).len() > 0,
    decreases s.len(),
{
    if k < s.len() - 1 {
        assert(s.drop_last()[k] == s[k]);
        lemma_keep_nonempty(s.drop_last(), p, k);
    }
}

/// Every element that satisfies `p` is kept.
pub proof fn lemma_keep_contains<T>(s: Seq<T>, p: spec_fn(T) -> bool, k: int)
    requires
        0 <= k < s.len(),
        p(s[k]),
    ensures
        keep(s, p).contains(s[k]),
    decreases s.len(),
{
    if k < s.len() - 1 {
        assert(s.drop_last()[k] == s[k]);
        lemma_keep_contains(s.drop_last(), p, k);
        let r = keep(s.drop_last(), p);
        let i = choose|i: int| 0 <= i < r.len() && r[i] == s[k];
        if p(s.last()) {
            assert(keep(s, p)[i] == r[i]);
        }
    } else {
        assert(keep(s, p).last() == s[k]);
    }
}

/// A split puts every element that satisfies `p` before every element that
/// does not, keeps the length and invents no element; it leads with an
/// element that satisfies `p` whenever there is one.
pub proof fn lemma_split_front<T>(s: Seq<T>, p: spec_fn(T) -> bool)
    ensures
        stable_split(s, p).len() == s.len(),
        forall|i: int, j: int| 0 <= i < j < s.len() && p(#[trigger] stable_split(s, p)[j]) ==> p(#[trigger] stable_split(s, p)[i]),
        forall|i: int| 0 <= i < s.len() ==> s.contains(#[trigger] stable_split(s, p)[i]),
        (exists|k: int| 0 <= k < s.len() && #[trigger] p(s[k])) ==> p(stable_split(s, p)[0]),
{
    lemma_split_length(s, p);
    lemma_keep_members(s, p);
    lemma_keep_members(s, negated(p));
    let a = keep(s, p);
    let b = keep(s, negated(p));
    let t = stable_split(s, p);
    assert forall|i: int| 0 <= i < t.len() implies (p(#[trigger] t[i]) <==> i < a.len()) && s.contains(t[i]) by {
        if i < a.len() {
            assert(t[i] == a[i]);
        } else {
            assert(t[i] == b[i - a.len()]);
            assert(negated(p)(b[i - a.len()]));
        }
    }
    if exists|k: int| 0 <= k < s.len() && #[trigger] p(s[k]) {
        let k = choose|k: int| 0 <= k < s.len() && #[trigger] p(s[k]);
        lemma_keep_nonempty(s, p, k);
    }
}

/// Grouping by weight invents no element.
pub proof fn lemma_band_members<T>(s: Seq<T>, w: spec_fn(T) -> int, lo: int, hi: int)
    ensures
        forall|i: int| 0 <= i < weight_band(s, w, lo, hi).len() ==> s.contains(#[trigger] weight_band(s, w, lo, hi)[i]),
    decreases hi - lo + 1,
{
    if hi >= lo {
        lemma_keep_members(s, at_weight(w, hi));
        lemma_band_members(s, w, lo, hi - 1);
        let a = keep(s, at_weight(w, hi));
        let b = weight_band(s, w, lo, hi - 1);
        assert forall|i: int| 0 <= i < weight_band(s, w, lo, hi).len() implies s.contains(#[trigger] weight_band(s, w, lo, hi)[i]) by {
            if i < a.len() {
                assert(weight_band(s, w, lo, hi)[i] == a[i]);
            } else {
                assert(weight_band(s, w, lo, hi)[i] == b[i - a.len()]);
            }
        }
    }
}

} // verus!

verus! {

/// How many times `x` occurs in `s`.
pub open spec fn occurrences<T>(s: Seq<T>, x: T) -> nat
    decreases s.len(),
{
    if s.len() == 0 { 0 } else { occurrences(s.drop_last(), x) + if s.last() == x { 1nat } else { 0nat } }
}

pub proof fn lemma_occurrences_concat<T>(a: Seq<T>, b: Seq<T>, x: T)
    ensures
        occurrences(a + b, x) == occurrences(a, x) + occurrences(b, x),
    decreases b.len(),
{
    if b.len() == 0 {
        assert(a + b =~= a);
    } else {
        assert((a + b).drop_last() =~= a + b.drop_last());
        assert((a + b).last() == b.last());
        lemma_occurrences_concat(a, b.drop_last(), x);
    }
}

pub proof fn lemma_occurrences_keep<T>(s: Seq<T>, p: spec_fn(T) -> bool, x: T)
    ensures
        occurrences(keep(s, p), x) == if p(x) { occurrences(s, x) } else { 0 },
    decreases s.len(),
{
    if s.len() > 0 {
        lemma_occurrences_keep(s.drop_last(), p, x);
        let r = keep(s.drop_last(), p);
        if p(s.last()) {
            assert(r.push(s.last()).drop_last() =~= r);
        }
    }
}

/// Splitting keeps every element as often as it occurs.
pub proof fn lemma_occurrences_split<T>(s: Seq<T>, p: spec_fn(T) -> bool, x: T)
    ensures
        occurrences(stable_split(s, p), x) == occurrences(s, x),
{
    lemma_occurrences_concat(keep(s, p), keep(s, negated(p)), x);
    lemma_occurrences_keep(s, p, x);
    lemma_occurrences_keep(s, negated(p), x);
}

/// Grouping by weight keeps every element of a weight in range as often as it occurs.
pub proof fn lemma_occurrences_band<T>(s: Seq<T>, w: spec_fn(T) -> int, lo: int, hi: int, x: T)
    ensures
        occurrences(weight_band(s, w, lo, hi), x) == if lo <= w(x) <= hi { occurrences(s, x) } else { 0 },
    decreases hi - lo + 1,
{
    if hi >= lo {
        lemma_occurrences_concat(keep(s, at_weight(w, hi)), weight_band(s, w, lo, hi - 1), x);
        lemma_occurrences_keep(s, at_weight(w, hi), x);
        lemma_occurrences_band(s, w, lo, hi - 1, x);
    }
}

/// Rotating keeps every element as often as it occurs.
pub proof fn lemma_occurrences_rotated<T>(s: Seq<T>, k: int, x: T)
    requires
        0 <= k <= s.len(),
    ensures
        occurrences(rotated(s, k), x) == occurrences(s, x),
{
    lemma_occurrences_concat(s.skip(k), s.take(k), x);
    lemma_occurrences_concat(s.take(k), s.skip(k), x);
    assert(s.take(k) + s.skip(k) =~= s);
}

pub proof fn lemma_occurrences_len<T>(s: Seq<T>, x: T)
    ensures
        occurrences(s, x) <= s.len(),
    decreases s.len(),
{
    if s.len() > 0 {
        lemma_occurrences_len(s.drop_last(), x);
    }
}

} // verus!
