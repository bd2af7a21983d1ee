use crate::filter::{
    filter_lt, filter_matches, lemma_filter_lt_irreflexive, lemma_filter_lt_total,
    lemma_filter_lt_transitive, FilterModel, KeyFilter,
};
use core::cmp::Ordering;
use vstd::prelude::*;

verus! {

/// What a list of filters says.
pub open spec fn models(v: Seq<KeyFilter>) -> Seq<FilterModel> {
    v.map_values(|f: KeyFilter| f@)
}

/// Sorted in the canonical filter order, hence free of duplicates.
pub open spec fn is_canonical(s: Seq<FilterModel>) -> bool {
    forall|i: int, j: int| 0 <= i < j < s.len() ==> filter_lt(#[trigger] s[i], #[trigger] s[j])
}

/// Whether some filter of `s` lets `key` through.
pub open spec fn lets_through(s: Seq<FilterModel>, key: Seq<u8>) -> bool {
    exists|i: int| 0 <= i < s.len() && filter_matches(#[trigger] s[i], key)
}

pub proof fn lemma_canonical_no_duplicates(s: Seq<FilterModel>)
    requires
        is_canonical(s),
    ensures
        s.no_duplicates(),
        s.to_set().len() == s.len(),
{
    assert forall|i: int, j: int| 0 <= i < s.len() && 0 <= j < s.len() && i != j implies s[i]
        != s[j] by {
        if i < j {
            lemma_filter_lt_irreflexive(s[i]);
        } else {
            lemma_filter_lt_irreflexive(s[j]);
        }
    }
    s.unique_seq_to_set();
}

/// A canonical list is fixed by the filters it holds: two canonical lists
/// with the same members are equal.
pub proof fn lemma_canonical_unique(s: Seq<FilterModel>, t: Seq<FilterModel>)
    requires
        is_canonical(s),
        is_canonical(t),
        forall|x: FilterModel| s.contains(x) <==> t.contains(x),
    ensures
        s == t,
    decreases s.len(),
{
    if s.len() == 0 {
        if t.len() > 0 {
            assert(t.contains(t[0]));
        }
        assert(s =~= t);
    } else {
        assert(s.contains(s[0]));
        let j = choose|j: int| 0 <= j < t.len() && t[j] == s[0];
        assert(t.contains(t[0]));
        let i = choose|i: int| 0 <= i < s.len() && s[i] == t[0];
        if j > 0 {
            assert(filter_lt(t[0], t[j]));
            if i > 0 {
                assert(filter_lt(s[0], s[i]));
                lemma_filter_lt_total(s[0], s[i]);
            } else {
                lemma_filter_lt_irreflexive(s[0]);
            }
        }
        lemma_canonical_no_duplicates(s);
        lemma_canonical_no_duplicates(t);
        let s1 = s.drop_first();
        let t1 = t.drop_first();
        assert forall|x: FilterModel| s1.contains(x) <==> t1.contains(x) by {
            if s1.contains(x) {
                let k = choose|k: int| 0 <= k < s1.len() && s1[k] == x;
                assert(s[k + 1] == x);
                assert(t.contains(x));
                let m = choose|m: int| 0 <= m < t.len() && t[m] == x;
                assert(m != 0);
                assert(t1[m - 1] == x);
            }
            if t1.contains(x) {
                let k = choose|k: int| 0 <= k < t1.len() && t1[k] == x;
                assert(t[k + 1] == x);
                assert(s.contains(x));
                let m = choose|m: int| 0 <= m < s.len() && s[m] == x;
                assert(m != 0);
                assert(s1[m - 1] == x);
            }
        }
        assert(is_canonical(s1));
        assert(is_canonical(t1));
        lemma_canonical_unique(s1, t1);
        assert(j == 0);
        assert forall|k: int| 0 <= k < s.len() implies s[k] == t[k] by {
            if k > 0 {
                assert(s[k] == s1[k - 1]);
                assert(t[k] == t1[k - 1]);
            }
        }
        assert(s =~= t);
    }
}

/// Where `f` belongs in the canonical list `w`, and whether it is there.
pub fn locate(w: &Vec<KeyFilter>, f: &KeyFilter) -> (r: (usize, bool))
    requires
        is_canonical(models(w@)),
    ensures
        r.0 <= w.len(),
        forall|j: int| 0 <= j < r.0 ==> filter_lt(#[trigger] models(w@)[j], f@),
        forall|j: int| r.0 < j < w.len() ==> filter_lt(f@, #[trigger] models(w@)[j]),
        r.0 < w.len() ==> (r.1 == (models(w@)[r.0 as int] == f@)),
        r.0 < w.len() && !r.1 ==> filter_lt(f@, models(w@)[r.0 as int]),
        r.1 ==> r.0 < w.len(),
        r.1 == models(w@).contains(f@),
{
    let ghost s = models(w@);
    let mut i: usize = 0;
    while i < w.len()
        invariant
            i <= w.len(),
            s == models(w@),
            is_canonical(s),
            forall|j: int| 0 <= j < i ==> filter_lt(#[trigger] s[j], f@),
        decreases w.len() - i,
    {
        match w[i].compare(f) {
            Ordering::Less => {
                i = i + 1;
            },
            o => {
                let found = matches!(o, Ordering::Equal);
                proof {
                    assert forall|j: int| i < j < w.len() implies filter_lt(f@, #[trigger] s[j]) by {
                        assert(filter_lt(s[i as int], s[j]));
                        if !found {
                            lemma_filter_lt_transitive(f@, s[i as int], s[j]);
                        }
                    }
                    if found {
                        assert(s[i as int] == f@);
                    } else {
                        assert forall|j: int| 0 <= j < s.len() implies s[j] != f@ by {
                            lemma_filter_lt_irreflexive(f@);
                        }
                    }
                }
                return (i, found);
            },
        }
    }
    proof {
        assert forall|j: int| 0 <= j < s.len() implies s[j] != f@ by {
            lemma_filter_lt_irreflexive(f@);
        }
    }
    (i, false)
}

/// Puts `f` at position `i` of the canonical list `w`, where `locate` places it.
pub fn insert_at(w: &mut Vec<KeyFilter>, i: usize, f: KeyFilter)
    requires
        is_canonical(models(old(w)@)),
        i <= old(w).len(),
        forall|j: int| 0 <= j < i ==> filter_lt(#[trigger] models(old(w)@)[j], f@),
        forall|j: int| i <= j < old(w).len() ==> filter_lt(f@, #[trigger] models(old(w)@)[j]),
    ensures
        is_canonical(models(final(w)@)),
        models(final(w)@) == models(old(w)@).insert(i as int, f@),
        final(w).len() == old(w).len() + 1,
        forall|x: FilterModel|
            #[trigger] models(final(w)@).contains(x) <==> models(old(w)@).contains(x) || x == f@,
{
    let ghost s = models(w@);
    let ghost fm = f@;
    w.insert(i, f);
    let ghost t = models(w@);
    proof {
        s.insert_ensures(i as int, fm);
        assert(t =~= s.insert(i as int, fm));
        assert forall|a: int, b: int| 0 <= a < b < t.len() implies filter_lt(
            #[trigger] t[a],
            #[trigger] t[b],
        ) by {
            if b < i {
            } else if a < i && b == i {
            } else if a < i {
                assert(t[b] == s[b - 1]);
                lemma_filter_lt_transitive(s[a], fm, s[b - 1]);
            } else if a == i {
                assert(t[b] == s[b - 1]);
            } else {
                assert(t[a] == s[a - 1]);
                assert(t[b] == s[b - 1]);
            }
        }
        assert forall|x: FilterModel| #[trigger] t.contains(x) <==> s.contains(x) || x == fm by {
            if t.contains(x) {
                let k = choose|k: int| 0 <= k < t.len() && t[k] == x;
                if k < i {
                } else if k > i {
                    assert(s[k - 1] == x);
                }
            }
            if s.contains(x) {
                let k = choose|k: int| 0 <= k < s.len() && s[k] == x;
                if k < i {
                    assert(t[k] == x);
                } else {
                    assert(t[k + 1] == x);
                }
            }
            if x == fm {
                assert(t[i as int] == x);
            }
        }
    }
}

/// Takes the filter at position `i` out of the canonical list `w`.
pub fn remove_at(w: &mut Vec<KeyFilter>, i: usize)
    requires
        is_canonical(models(old(w)@)),
        i < old(w).len(),
    ensures
        is_canonical(models(final(w)@)),
        models(final(w)@) == models(old(w)@).remove(i as int),
        final(w).len() == old(w).len() - 1,
        forall|x: FilterModel|
            #[trigger] models(final(w)@).contains(x) <==> models(old(w)@).contains(x) && x
                != models(old(w)@)[i as int],
{
    let ghost s = models(w@);
    w.remove(i);
    let ghost t = models(w@);
    proof {
        s.remove_ensures(i as int);
        lemma_canonical_no_duplicates(s);
        assert(t =~= s.remove(i as int));
        assert forall|a: int, b: int| 0 <= a < b < t.len() implies filter_lt(
            #[trigger] t[a],
            #[trigger] t[b],
        ) by {
            if b < i {
            } else if a < i {
                assert(t[b] == s[b + 1]);
            } else {
                assert(t[a] == s[a + 1]);
                assert(t[b] == s[b + 1]);
            }
        }
        assert forall|x: FilterModel| #[trigger]
            t.contains(x) <==> s.contains(x) && x != s[i as int] by {
            if t.contains(x) {
                let k = choose|k: int| 0 <= k < t.len() && t[k] == x;
                if k < i {
                    assert(s[k] == x);
                } else {
                    assert(s[k + 1] == x);
                }
            }
            if s.contains(x) && x != s[i as int] {
                let k = choose|k: int| 0 <= k < s.len() && s[k] == x;
                if k < i {
                    assert(t[k] == x);
                } else {
                    assert(t[k - 1] == x);
                }
            }
        }
    }
}

/// The canonical list of the filters in `filters`: sorted, each once.
pub fn canonicalize(filters: &Vec<KeyFilter>) -> (r: Vec<KeyFilter>)
    ensures
        is_canonical(models(r@)),
        forall|x: FilterModel| #[trigger]
            models(r@).contains(x) <==> models(filters@).contains(x),
{
    let mut r: Vec<KeyFilter> = Vec::new();
    let mut n: usize = 0;
    while n < filters.len()
        invariant
            n <= filters.len(),
            is_canonical(models(r@)),
            forall|x: FilterModel| #[trigger]
                models(r@).contains(x) <==> models(filters@.take(n as int)).contains(x),
        decreases filters.len() - n,
    {
        let ghost before = models(r@);
        let (i, found) = locate(&r, &filters[n]);
        if !found {
            insert_at(&mut r, i, filters[n].duplicate());
        }
        proof {
            let p = models(filters@.take(n as int));
            let q = models(filters@.take(n + 1));
            assert(q =~= p.push(filters@[n as int]@));
            assert forall|x: FilterModel| #[trigger]
                models(r@).contains(x) <==> q.contains(x) by {
                if q.contains(x) {
                    let k = choose|k: int| 0 <= k < q.len() && q[k] == x;
                    if k < n {
                        assert(p[k] == x);
                        assert(p.contains(x));
                        assert(before.contains(x));
                    }
                }
                if p.contains(x) {
                    let k = choose|k: int| 0 <= k < p.len() && p[k] == x;
                    assert(q[k] == x);
                }
                if x == filters@[n as int]@ {
                    assert(q[n as int] == x);
                }
            }
        }
        n = n + 1;
    }
    assert(filters@.take(filters.len() as int) =~= filters@);
    r
}

/// A copy of the list `w`.
pub fn copy_filters(w: &Vec<KeyFilter>) -> (r: Vec<KeyFilter>)
    ensures
        models(r@) == models(w@),
{
    let mut r: Vec<KeyFilter> = Vec::with_capacity(w.len());
    let mut i: usize = 0;
    while i < w.len()
        invariant
            i <= w.len(),
            r.len() == i,
            models(r@) == models(w@.take(i as int)),
        decreases w.len() - i,
    {
        let ghost before = r@;
        r.push(w[i].duplicate());
        proof {
            assert forall|j: int| 0 <= j < r@.len() implies #[trigger] models(r@)[j] == models(
                w@.take(i + 1),
            )[j] by {
                if j < i {
                    assert(r@[j] == before[j]);
                    assert(models(before)[j] == models(w@.take(i as int))[j]);
                }
            }
            assert(models(r@) =~= models(w@.take(i + 1)));
        }
        i = i + 1;
    }
    assert(w@.take(w.len() as int) =~= w@);
    r
}

/// Whether some filter of `w` lets `key` through.
pub fn any_lets_through(w: &Vec<KeyFilter>, key: &Vec<u8>) -> (r: bool)
    ensures
        r == lets_through(models(w@), key@),
{
    let mut i: usize = 0;
    while i < w.len()
        invariant
            i <= w.len(),
            forall|j: int| 0 <= j < i ==> !filter_matches(#[trigger] models(w@)[j], key@),
        decreases w.len() - i,
    {
        if w[i].matches(key) {
            assert(filter_matches(models(w@)[i as int], key@));
            return true;
        }
        i = i + 1;
    }
    false
}

} // verus!
