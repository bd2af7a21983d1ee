use core::cmp::Ordering;
use vstd::prelude::*;

verus! {

/// Strict lexicographic order on byte strings; a proper prefix comes first.
pub open spec fn bytes_lt(a: Seq<u8>, b: Seq<u8>) -> bool
    decreases a.len(),
{
    if a.len() == 0 {
        b.len() > 0
    } else if b.len() == 0 {
        false
    } else if a[0] != b[0] {
        a[0] < b[0]
    } else {
        bytes_lt(a.drop_first(), b.drop_first())
    }
}

pub proof fn lemma_bytes_lt_irreflexive(a: Seq<u8>)
    ensures
        !bytes_lt(a, a),
    decreases a.len(),
{
    if a.len() > 0 {
        lemma_bytes_lt_irreflexive(a.drop_first());
    }
}

pub proof fn lemma_bytes_lt_transitive(a: Seq<u8>, b: Seq<u8>, c: Seq<u8>)
    requires
        bytes_lt(a, b),
        bytes_lt(b, c),
    ensures
        bytes_lt(a, c),
    decreases a.len(),
{
    if a.len() > 0 && b.len() > 0 && c.len() > 0 && a[0] == b[0] && b[0] == c[0] {
        lemma_bytes_lt_transitive(a.drop_first(), b.drop_first(), c.drop_first());
    }
}

/// Any two distinct byte strings are ordered one way, and never both ways.
pub proof fn lemma_bytes_lt_total(a: Seq<u8>, b: Seq<u8>)
    ensures
        a != b ==> bytes_lt(a, b) || bytes_lt(b, a),
        !(bytes_lt(a, b) && bytes_lt(b, a)),
    decreases a.len(),
{
    if a.len() == 0 && b.len() == 0 {
        assert(a =~= b);
    } else if a.len() > 0 && b.len() > 0 && a[0] == b[0] {
        lemma_bytes_lt_total(a.drop_first(), b.drop_first());
        if a.drop_first() == b.drop_first() {
            assert forall|i: int| 0 <= i < a.len() implies a[i] == b[i] by {
                if i > 0 {
                    assert(a[i] == a.drop_first()[i - 1]);
                    assert(b[i] == b.drop_first()[i - 1]);
                }
            }
            assert(a =~= b);
        }
    }
}

/// Compares two byte strings in the order of `bytes_lt`.
pub fn compare_bytes(a: &Vec<u8>, b: &Vec<u8>) -> (r: Ordering)
    ensures
        (r == Ordering::Less) == bytes_lt(a@, b@),
        (r == Ordering::Equal) == (a@ == b@),
        (r == Ordering::Greater) == bytes_lt(b@, a@),
{
    proof {
        lemma_bytes_lt_total(a@, b@);
        lemma_bytes_lt_irreflexive(a@);
        assert(a@.skip(0) =~= a@);
        assert(b@.skip(0) =~= b@);
    }
    let mut i: usize = 0;
    while i < a.len() && i < b.len() && a[i] == b[i]
        invariant
            i <= a.len(),
            i <= b.len(),
            forall|j: int| 0 <= j < i ==> a@[j] == b@[j],
            bytes_lt(a@, b@) == bytes_lt(a@.skip(i as int), b@.skip(i as int)),
            bytes_lt(b@, a@) == bytes_lt(b@.skip(i as int), a@.skip(i as int)),
        decreases a.len() - i,
    {
        proof {
            assert(a@.skip(i as int).drop_first() =~= a@.skip(i + 1));
            assert(b@.skip(i as int).drop_first() =~= b@.skip(i + 1));
        }
        i = i + 1;
    }
    if i == a.len() && i == b.len() {
        assert(a@ =~= b@);
        Ordering::Equal
    } else if i == a.len() {
        Ordering::Less
    } else if i == b.len() {
        Ordering::Greater
    } else if a[i] < b[i] {
        Ordering::Less
    } else {
        Ordering::Greater
    }
}

/// Whether two byte strings are equal.
pub fn same_bytes(a: &Vec<u8>, b: &Vec<u8>) -> (r: bool)
    ensures
        r == (a@ == b@),
{
    matches!(compare_bytes(a, b), Ordering::Equal)
}

/// Whether `pat` occurs in `key` at position `at`.
fn occurs_at(key: &Vec<u8>, pat: &Vec<u8>, at: usize) -> (r: bool)
    requires
        at + pat.len() <= key.len(),
    ensures
        r == (key@.subrange(at as int, at + pat.len()) == pat@),
{
    let mut j: usize = 0;
    while j < pat.len()
        invariant
            at + pat.len() <= key.len(),
            j <= pat.len(),
            forall|i: int| 0 <= i < j ==> key@[at + i] == pat@[i],
        decreases pat.len() - j,
    {
        if key[at + j] != pat[j] {
            assert(key@.subrange(at as int, at + pat.len())[j as int] != pat@[j as int]);
            return false;
        }
        j = j + 1;
    }
    assert(key@.subrange(at as int, at + pat.len()) =~= pat@);
    true
}

/// What a filter says, over byte strings.
pub enum FilterModel {
    Match(Seq<u8>),
    StartsWith(Seq<u8>),
    EndsWith(Seq<u8>),
}

/// A byte pattern that an encoded key may satisfy.
///
/// Filters are ordered by variant first, in the order `Match`, `StartsWith`,
/// `EndsWith`, and then by their bytes in lexicographic order.
#[derive(Clone, Debug, PartialEq, Eq)]
pub enum KeyFilter {
    /// The key equals these bytes.
    Match(Vec<u8>),
    /// The key begins with these bytes.
    StartsWith(Vec<u8>),
    /// The key ends with these bytes.
    EndsWith(Vec<u8>),
}

impl View for KeyFilter {
    type V = FilterModel;

    open spec fn view(&self) -> FilterModel {
        match self {
            KeyFilter::Match(b) => FilterModel::Match(b@),
            KeyFilter::StartsWith(b) => FilterModel::StartsWith(b@),
            KeyFilter::EndsWith(b) => FilterModel::EndsWith(b@),
        }
    }
}

pub open spec fn tag(f: FilterModel) -> int {
    match f {
        FilterModel::Match(_) => 0,
        FilterModel::StartsWith(_) => 1,
        FilterModel::EndsWith(_) => 2,
    }
}

pub open spec fn pattern(f: FilterModel) -> Seq<u8> {
    match f {
        FilterModel::Match(b) => b,
        FilterModel::StartsWith(b) => b,
        FilterModel::EndsWith(b) => b,
    }
}

/// The canonical strict order on filters.
pub open spec fn filter_lt(f: FilterModel, g: FilterModel) -> bool {
    tag(f) < tag(g) || (tag(f) == tag(g) && bytes_lt(pattern(f), pattern(g)))
}

/// Whether filter `f` lets `key` through.
pub open spec fn filter_matches(f: FilterModel, key: Seq<u8>) -> bool {
    match f {
        FilterModel::Match(m) => key == m,
        FilterModel::StartsWith(p) => p.len() <= key.len() && key.subrange(0, p.len() as int) == p,
        FilterModel::EndsWith(s) => s.len() <= key.len() && key.subrange(
            key.len() - s.len(),
            key.len() as int,
        ) == s,
    }
}

proof fn lemma_model_ext(f: FilterModel, g: FilterModel)
    requires
        tag(f) == tag(g),
        pattern(f) == pattern(g),
    ensures
        f == g,
{
}

pub proof fn lemma_filter_lt_irreflexive(f: FilterModel)
    ensures
        !filter_lt(f, f),
{
    lemma_bytes_lt_irreflexive(pattern(f));
}

pub proof fn lemma_filter_lt_transitive(f: FilterModel, g: FilterModel, h: FilterModel)
    requires
        filter_lt(f, g),
        filter_lt(g, h),
    ensures
        filter_lt(f, h),
{
    if tag(f) == tag(g) && tag(g) == tag(h) {
        lemma_bytes_lt_transitive(pattern(f), pattern(g), pattern(h));
    }
}

/// Any two distinct filters are ordered one way, and never both ways.
pub proof fn lemma_filter_lt_total(f: FilterModel, g: FilterModel)
    ensures
        f != g ==> filter_lt(f, g) || filter_lt(g, f),
        !(filter_lt(f, g) && filter_lt(g, f)),
{
    lemma_bytes_lt_total(pattern(f), pattern(g));
    if tag(f) == tag(g) && pattern(f) == pattern(g) {
        lemma_model_ext(f, g);
    }
}

pub(crate) fn copy_bytes(b: &Vec<u8>) -> (r: Vec<u8>)
    ensures
        r@ == b@,
{
    let mut r: Vec<u8> = Vec::with_capacity(b.len());
    let mut i: usize = 0;
    while i < b.len()
        invariant
            i <= b.len(),
            r@ == b@.subrange(0, i as int),
        decreases b.len() - i,
    {
        r.push(b[i]);
        i = i + 1;
        assert(r@ =~= b@.subrange(0, i as int));
    }
    assert(b@.subrange(0, b.len() as int) =~= b@);
    r
}

impl KeyFilter {
    /// A copy of this filter.
    pub fn duplicate(&self) -> (r: KeyFilter)
        ensures
            r@ == self@,
    {
        match self {
            KeyFilter::Match(b) => KeyFilter::Match(copy_bytes(b)),
            KeyFilter::StartsWith(b) => KeyFilter::StartsWith(copy_bytes(b)),
            KeyFilter::EndsWith(b) => KeyFilter::EndsWith(copy_bytes(b)),
        }
    }

    fn bytes(&self) -> (r: &Vec<u8>)
        ensures
            r@ == pattern(self@),
    {
        match self {
            KeyFilter::Match(b) => b,
            KeyFilter::StartsWith(b) => b,
            KeyFilter::EndsWith(b) => b,
        }
    }

    fn rank(&self) -> (r: u8)
        ensures
            r == tag(self@),
    {
        match self {
            KeyFilter::Match(_) => 0,
            KeyFilter::StartsWith(_) => 1,
            KeyFilter::EndsWith(_) => 2,
        }
    }

    /// Compares two filters in the canonical order.
    pub fn compare(&self, other: &KeyFilter) -> (r: Ordering)
        ensures
            (r == Ordering::Less) == filter_lt(self@, other@),
            (r == Ordering::Equal) == (self@ == other@),
            (r == Ordering::Greater) == filter_lt(other@, self@),
    {
        proof {
            lemma_filter_lt_total(self@, other@);
            lemma_filter_lt_irreflexive(self@);
        }
        let a = self.rank();
        let b = other.rank();
        if a < b {
            Ordering::Less
        } else if a > b {
            Ordering::Greater
        } else {
            let r = compare_bytes(self.bytes(), other.bytes());
            proof {
                if r == Ordering::Equal {
                    lemma_model_ext(self@, other@);
                }
            }
            r
        }
    }

    /// Whether this filter lets `key` through.
    pub fn matches(&self, key: &Vec<u8>) -> (r: bool)
        ensures
            r == filter_matches(self@, key@),
    {
        match self {
            KeyFilter::Match(m) => {
                matches!(compare_bytes(key, m), Ordering::Equal)
            },
            KeyFilter::StartsWith(p) => {
                if p.len() > key.len() {
                    false
                } else {
                    occurs_at(key, p, 0)
                }
            },
            KeyFilter::EndsWith(s) => {
                if s.len() > key.len() {
                    false
                } else {
                    occurs_at(key, s, key.len() - s.len())
                }
            },
        }
    }
}

} // verus!
