//! Finding things in sequences.

use vstd::prelude::*;

verus! {

/// The index of the first item of `s` with property `p`.
pub open spec fn first_where<T>(s: Seq<T>, p: spec_fn(T) -> bool) -> Option<int>
    decreases s.len(),
{
    if s.len() == 0 {
        None
    } else {
        match first_where(s.drop_last(), p) {
            Some(i) => Some(i),
            None => if p(s.last()) {
                Some(s.len() - 1)
            } else {
                None
            },
        }
    }
}

/// The items of `s` with property `p`, in order.
pub open spec fn all_where<T>(s: Seq<T>, p: spec_fn(T) -> bool) -> Seq<T>
    decreases s.len(),
{
    if s.len() == 0 {
        Seq::empty()
    } else if p(s.last()) {
        all_where(s.drop_last(), p).push(s.last())
    } else {
        all_where(s.drop_last(), p)
    }
}

/// The index of the item with property `p` whose key is lowest; the first such
/// where keys are equal.
pub open spec fn lowest_where<T>(
    s: Seq<T>,
    p: spec_fn(T) -> bool,
    key: spec_fn(T) -> u64,
) -> Option<int>
    decreases s.len(),
{
    if s.len() == 0 {
        None
    } else {
        let last = s.len() - 1;
        let best = lowest_where(s.drop_last(), p, key);
        if p(s[last]) && (best is None || key(s[last]) < key(s[best->Some_0])) {
            Some(last)
        } else {
            best
        }
    }
}

/// What `first_where` finds is the first item with the property, and it finds
/// one wherever there is one.
pub proof fn lemma_first_where<T>(s: Seq<T>, p: spec_fn(T) -> bool)
    ensures
        match first_where(s, p) {
            Some(i) => {
                &&& 0 <= i < s.len()
                &&& p(s[i])
                &&& forall|j: int| 0 <= j < i ==> !p(#[trigger] s[j])
            },
            None => forall|j: int| 0 <= j < s.len() ==> !p(#[trigger] s[j]),
        },
    decreases s.len(),
{
    if s.len() > 0 {
        let t = s.drop_last();
        lemma_first_where(t, p);
        assert forall|j: int| 0 <= j < t.len() implies t[j] == #[trigger] s[j] by {}
    }
}

/// The first item with the property is the one that `first_where` finds.
pub proof fn lemma_first_where_is<T>(s: Seq<T>, p: spec_fn(T) -> bool, i: int)
    requires
        0 <= i < s.len(),
        p(s[i]),
        forall|j: int| 0 <= j < i ==> !p(#[trigger] s[j]),
    ensures
        first_where(s, p) == Some(i),
{
    lemma_first_where(s, p);
}

/// Where no item has the property, `first_where` finds none.
pub proof fn lemma_first_where_none<T>(s: Seq<T>, p: spec_fn(T) -> bool)
    requires
        forall|j: int| 0 <= j < s.len() ==> !p(#[trigger] s[j]),
    ensures
        first_where(s, p) is None,
{
    lemma_first_where(s, p);
}

/// What `lowest_where` picks has the property, and no other such item has a
/// lower key, or the same and an earlier place; it picks one wherever there is
/// one.
pub proof fn lemma_lowest_where<T>(s: Seq<T>, p: spec_fn(T) -> bool, key: spec_fn(T) -> u64)
    ensures
        match lowest_where(s, p, key) {
            Some(i) => {
                &&& 0 <= i < s.len()
                &&& p(s[i])
                &&& forall|j: int|
                    0 <= j < s.len() && p(#[trigger] s[j]) ==> key(s[i]) < key(s[j]) || (key(s[i])
                        == key(s[j]) && i <= j)
            },
            None => forall|j: int| 0 <= j < s.len() ==> !p(#[trigger] s[j]),
        },
    decreases s.len(),
{
    if s.len() > 0 {
        let t = s.drop_last();
        lemma_lowest_where(t, p, key);
        assert forall|j: int| 0 <= j < t.len() implies t[j] == #[trigger] s[j] by {}
    }
}

/// The items that `all_where` keeps are those with the property.
pub proof fn lemma_all_where<T>(s: Seq<T>, p: spec_fn(T) -> bool)
    ensures
        forall|i: int|
            0 <= i < all_where(s, p).len() ==> p(#[trigger] all_where(s, p)[i]) && s.contains(
                all_where(s, p)[i],
            ),
        forall|j: int|
            0 <= j < s.len() && p(#[trigger] s[j]) ==> all_where(s, p).contains(s[j]),
    decreases s.len(),
{
    if s.len() > 0 {
        let t = s.drop_last();
        lemma_all_where(t, p);
        let kept = all_where(s, p);
        assert forall|i: int| 0 <= i < kept.len() implies p(#[trigger] kept[i]) && s.contains(
            kept[i],
        ) by {
            if i < all_where(t, p).len() {
                assert(t.contains(all_where(t, p)[i]));
                let k = choose|k: int| 0 <= k < t.len() && t[k] == all_where(t, p)[i];
                assert(s[k] == kept[i]);
            } else {
                assert(s[s.len() - 1] == kept[i]);
            }
        }
        assert forall|j: int| 0 <= j < s.len() && p(#[trigger] s[j]) implies kept.contains(s[j]) by {
            if j < t.len() {
                assert(t[j] == s[j]);
                let k = choose|k: int| 0 <= k < all_where(t, p).len() && all_where(t, p)[k] == t[j];
                assert(kept[k] == s[j]);
            } else {
                assert(kept[kept.len() - 1] == s[j]);
            }
        }
    }
}

/// Keeping from two parts is keeping from each.
pub proof fn lemma_all_where_concat<T>(a: Seq<T>, b: Seq<T>, p: spec_fn(T) -> bool)
    ensures
        all_where(a + b, p) == all_where(a, p) + all_where(b, p),
    decreases b.len(),
{
    if b.len() == 0 {
        assert(a + b =~= a);
        assert(all_where(a, p) + all_where(b, p) =~= all_where(a, p));
    } else {
        assert((a + b).drop_last() =~= a + b.drop_last());
        lemma_all_where_concat(a, b.drop_last(), p);
        assert(all_where(a + b, p) =~= all_where(a, p) + all_where(b, p));
    }
}

/// Where every item has the property, all are kept.
pub proof fn lemma_all_where_all<T>(s: Seq<T>, p: spec_fn(T) -> bool)
    requires
        forall|j: int| 0 <= j < s.len() ==> p(#[trigger] s[j]),
    ensures
        all_where(s, p) == s,
    decreases s.len(),
{
    if s.len() > 0 {
        let t = s.drop_last();
        assert forall|j: int| 0 <= j < t.len() implies p(#[trigger] t[j]) by {
            assert(p(s[j]));
        }
        lemma_all_where_all(t, p);
        assert(t.push(s.last()) =~= s);
    }
}

/// What is kept of distinct items is distinct.
pub proof fn lemma_all_where_distinct<T>(s: Seq<T>, p: spec_fn(T) -> bool)
    requires
        s.no_duplicates(),
    ensures
        all_where(s, p).no_duplicates(),
    decreases s.len(),
{
    if s.len() > 0 {
        let t = s.drop_last();
        lemma_all_where_distinct(t, p);
        lemma_all_where(t, p);
        let kept = all_where(t, p);
        assert forall|i: int| 0 <= i < kept.len() implies kept[i] != s.last() by {
            let k = choose|k: int| 0 <= k < t.len() && t[k] == kept[i];
            assert(s[k] == kept[i]);
        }
    }
}

/// The first of the kept items with property `r` is the first of all items with
/// both properties.
pub proof fn lemma_first_of_kept<T>(s: Seq<T>, p: spec_fn(T) -> bool, r: spec_fn(T) -> bool)
    ensures
        match first_where(all_where(s, p), r) {
            Some(k) => 0 <= k < all_where(s, p).len() && exists|i: int|
                #![trigger s[i]]
                0 <= i < s.len() && s[i] == all_where(s, p)[k] && p(s[i]) && r(s[i]) && forall|j: int|
                    0 <= j < i ==> !(p(#[trigger] s[j]) && r(s[j])),
            None => forall|j: int| 0 <= j < s.len() ==> !(p(#[trigger] s[j]) && r(s[j])),
        },
    decreases s.len(),
{
    let kept = all_where(s, p);
    lemma_first_where(kept, r);
    if s.len() > 0 {
        let t = s.drop_last();
        let before = all_where(t, p);
        lemma_first_of_kept(t, p, r);
        lemma_first_where(before, r);
        assert forall|j: int| 0 <= j < t.len() implies t[j] == #[trigger] s[j] by {}
        if p(s.last()) {
            assert(kept.drop_last() =~= before);
        }
        match first_where(before, r) {
            Some(k) => {
                assert(kept[k] == before[k]);
                let i = choose|i: int|
                    #![trigger t[i]]
                    0 <= i < t.len() && t[i] == before[k] && p(t[i]) && r(t[i]) && forall|j: int|
                        0 <= j < i ==> !(p(#[trigger] t[j]) && r(t[j]));
                assert(s[i] == kept[k]);
                assert forall|j: int| 0 <= j < i implies !(p(#[trigger] s[j]) && r(s[j])) by {
                    assert(t[j] == s[j]);
                }
            },
            None => {
                assert forall|j: int| 0 <= j < t.len() implies !(p(#[trigger] s[j]) && r(s[j])) by {
                    assert(t[j] == s[j]);
                }
                if let Some(k) = first_where(kept, r) {
                    assert(s[s.len() - 1] == kept[k]);
                }
            },
        }
    }
}

/// Whether `v` holds `x`.
pub fn holds(v: &Vec<u64>, x: u64) -> (b: bool)
    ensures
        b == v@.contains(x),
{
    let mut i: usize = 0;
    while i < v.len()
        invariant
            i <= v@.len(),
            forall|j: int| 0 <= j < i ==> v@[j] != x,
        decreases v@.len() - i,
    {
        if v[i] == x {
            return true;
        }
        i += 1;
    }
    false
}

} // verus!
