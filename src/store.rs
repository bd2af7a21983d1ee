use crate::filter::{copy_bytes, same_bytes};
use vstd::prelude::*;

verus! {

/// A value stored under a limiter and an encoded key.
pub struct Entry<V> {
    pub limiter_id: u32,
    pub key: Vec<u8>,
    pub value: V,
}

pub open spec fn entry_is<V>(e: Entry<V>, l: u32, k: Seq<u8>) -> bool {
    e.limiter_id == l && e.key@ == k
}

/// The value that a sequence of entries holds under `(l, k)`: that of the
/// last entry with this key, if any.
pub open spec fn lookup<V>(s: Seq<Entry<V>>, l: u32, k: Seq<u8>) -> Option<V>
    decreases s.len(),
{
    if s.len() == 0 {
        None
    } else if entry_is(s.last(), l, k) {
        Some(s.last().value)
    } else {
        lookup(s.drop_last(), l, k)
    }
}

proof fn lemma_lookup_update<V>(s: Seq<Entry<V>>, i: int, e: Entry<V>, l2: u32, k2: Seq<u8>)
    requires
        0 <= i < s.len(),
        e.limiter_id == s[i].limiter_id,
        e.key@ == s[i].key@,
        forall|j: int| i < j < s.len() ==> !entry_is(#[trigger] s[j], e.limiter_id, e.key@),
    ensures
        lookup(s.update(i, e), l2, k2) == if entry_is(e, l2, k2) {
            Some(e.value)
        } else {
            lookup(s, l2, k2)
        },
    decreases s.len(),
{
    let t = s.update(i, e);
    if i == s.len() - 1 {
        assert(t.drop_last() =~= s.drop_last());
    } else {
        assert(t.drop_last() =~= s.drop_last().update(i, e));
        assert(t.last() == s.last());
        assert(!entry_is(s[s.len() - 1], e.limiter_id, e.key@));
        lemma_lookup_update(s.drop_last(), i, e, l2, k2);
    }
}

/// Finds the entry that holds the value under `(l, k)`.
pub fn find<V>(s: &Vec<Entry<V>>, l: u32, k: &Vec<u8>) -> (r: Option<usize>)
    ensures
        match r {
            Some(i) => {
                &&& i < s.len()
                &&& entry_is(s@[i as int], l, k@)
                &&& lookup(s@, l, k@) == Some(s@[i as int].value)
                &&& forall|j: int| i < j < s.len() ==> !entry_is(#[trigger] s@[j], l, k@)
            },
            None => lookup(s@, l, k@) == None::<V>,
        },
{
    let mut i: usize = s.len();
    assert(s@.take(i as int) =~= s@);
    while i > 0
        invariant
            i <= s.len(),
            lookup(s@, l, k@) == lookup(s@.take(i as int), l, k@),
            forall|j: int| i <= j < s.len() ==> !entry_is(#[trigger] s@[j], l, k@),
        decreases i,
    {
        i = i - 1;
        assert(s@.take(i + 1).drop_last() =~= s@.take(i as int));
        assert(s@.take(i + 1).last() == s@[i as int]);
        if s[i].limiter_id == l && same_bytes(&s[i].key, k) {
            return Some(i);
        }
    }
    None
}

/// Stores `v` under `(l, k)`, leaving every other key as it was.
pub fn put<V>(s: &mut Vec<Entry<V>>, l: u32, k: &Vec<u8>, v: V)
    ensures
        forall|l2: u32, k2: Seq<u8>|
            #[trigger] lookup(final(s)@, l2, k2) == if l2 == l && k2 == k@ {
                Some(v)
            } else {
                lookup(old(s)@, l2, k2)
            },
{
    let ghost s0 = s@;
    let e = Entry { limiter_id: l, key: copy_bytes(k), value: v };
    match find(s, l, k) {
        Some(i) => {
            s.set(i, e);
            assert forall|l2: u32, k2: Seq<u8>|
                #[trigger] lookup(s@, l2, k2) == if l2 == l && k2 == k@ {
                    Some(v)
                } else {
                    lookup(s0, l2, k2)
                } by {
                lemma_lookup_update(s0, i as int, e, l2, k2);
            }
        },
        None => {
            s.push(e);
            assert(s@.drop_last() =~= s0);
        },
    }
}

} // verus!
