//! An insertion-ordered string map for attributes and processing
//! instructions. Keys are unique within one map; inserting a key that is
//! already present is an error, never a silent overwrite.

use crate::error::Error;
use crate::strings::{spec_str_lt, str_cmp, str_eq};
use vstd::prelude::*;

verus! {

/// The key/value pairs of an element's attributes or a processing
/// instruction's data, in insertion order. Key uniqueness is the type's
/// invariant: every value of this type holds pairwise distinct keys, and
/// every operation preserves that.
#[derive(Debug)]
pub struct OrdMap {
    pairs: Vec<(String, String)>,
}

impl View for OrdMap {
    type V = Seq<(Seq<char>, Seq<char>)>;

    closed spec fn view(&self) -> Seq<(Seq<char>, Seq<char>)> {
        Seq::new(self.pairs@.len(), |i: int| (self.pairs@[i].0@, self.pairs@[i].1@))
    }
}

impl OrdMap {
    /// The invariant every `OrdMap` value carries: no two pairs share a key.
    #[verifier::type_invariant]
    closed spec fn inv(self) -> bool {
        keys_unique(self@)
    }
}

impl Clone for OrdMap {
    /// A clone holds the same pairs in the same order.
    fn clone(&self) -> (r: OrdMap)
        ensures
            r@ == self@,
    {
        let mut pairs: Vec<(String, String)> = Vec::new();
        let mut i: usize = 0;
        while i < self.pairs.len()
            invariant
                i <= self.pairs@.len(),
                pairs@.len() == i,
                forall|j: int| 0 <= j < i ==> pairs@[j].0@ == self.pairs@[j].0@ && pairs@[j].1@
                    == self.pairs@[j].1@,
            decreases self.pairs@.len() - i,
        {
            let k = self.pairs[i].0.clone();
            let v = self.pairs[i].1.clone();
            pairs.push((k, v));
            i = i + 1;
        }
        proof {
            use_type_invariant(&*self);
            assert(Seq::new(pairs@.len(), |i: int| (pairs@[i].0@, pairs@[i].1@)) =~= self@);
        }
        let r = OrdMap { pairs };
        r
    }
}

/// Two maps hold the same data when they have the same number of pairs and
/// every key of the first carries the same value in the second — insertion
/// order does not matter for equality.
pub open spec fn spec_map_equiv(
    m1: Seq<(Seq<char>, Seq<char>)>,
    m2: Seq<(Seq<char>, Seq<char>)>,
) -> bool {
    &&& m1.len() == m2.len()
    &&& forall|i: int| 0 <= i < m1.len() ==> spec_get(m2, (#[trigger] m1[i]).0) == Some(m1[i].1)
}

/// The ordering tie-break on maps of equal length: the first structurally
/// differing pair, in insertion order, decides — first by key, then by
/// value.
pub open spec fn spec_pairs_cmp(
    m1: Seq<(Seq<char>, Seq<char>)>,
    m2: Seq<(Seq<char>, Seq<char>)>,
    i: int,
) -> core::cmp::Ordering
    decreases m1.len() - i,
{
    if i < 0 || i >= m1.len() || i >= m2.len() {
        core::cmp::Ordering::Equal
    } else if m1[i].0 != m2[i].0 {
        if spec_str_lt(m1[i].0, m2[i].0) {
            core::cmp::Ordering::Less
        } else {
            core::cmp::Ordering::Greater
        }
    } else if m1[i].1 != m2[i].1 {
        if spec_str_lt(m1[i].1, m2[i].1) {
            core::cmp::Ordering::Less
        } else {
            core::cmp::Ordering::Greater
        }
    } else {
        spec_pairs_cmp(m1, m2, i + 1)
    }
}

/// The documented, stable order on maps: a shorter map is less; between
/// maps of one length the first structurally differing pair, in insertion
/// order, decides.
pub open spec fn spec_map_cmp(
    m1: Seq<(Seq<char>, Seq<char>)>,
    m2: Seq<(Seq<char>, Seq<char>)>,
) -> core::cmp::Ordering {
    if m1.len() < m2.len() {
        core::cmp::Ordering::Less
    } else if m1.len() > m2.len() {
        core::cmp::Ordering::Greater
    } else {
        spec_pairs_cmp(m1, m2, 0)
    }
}

impl PartialEq for OrdMap {
    /// Two maps are equal when they hold the same pairs, in any order.
    ///
    /// Equality is deliberately content-based while `partial_cmp` compares
    /// in insertion order: two maps holding the same pairs in different
    /// orders are equal here yet ordered by the first structural
    /// difference. The comparison is a documented, stable tie-break for
    /// tests, not an order compatible with this equality.
    fn eq(&self, other: &OrdMap) -> (r: bool) {
        if self.pairs.len() != other.pairs.len() {
            return false;
        }
        let mut i: usize = 0;
        while i < self.pairs.len()
            invariant
                i <= self@.len(),
                self@.len() == self.pairs@.len(),
                self@.len() == other@.len(),
                forall|j: int| 0 <= j < i ==> spec_get(other@, (#[trigger] self@[j]).0) == Some(
                    self@[j].1,
                ),
            decreases self@.len() - i,
        {
            match other.get(self.pairs[i].0.as_str()) {
                Some(v) => {
                    if !str_eq(v.as_str(), self.pairs[i].1.as_str()) {
                        proof {
                            assert(spec_get(other@, (self@[i as int]).0) != Some(
                                self@[i as int].1,
                            ));
                        }
                        return false;
                    }
                },
                None => {
                    proof {
                        assert(spec_get(other@, (self@[i as int]).0) != Some(self@[i as int].1));
                    }
                    return false;
                },
            }
            i = i + 1;
        }
        true
    }
}

impl Eq for OrdMap {

}

impl vstd::std_specs::cmp::PartialEqSpecImpl for OrdMap {
    open spec fn obeys_eq_spec() -> bool {
        true
    }

    open spec fn eq_spec(&self, other: &OrdMap) -> bool {
        spec_map_equiv(self@, other@)
    }
}

impl PartialOrd for OrdMap {
    /// The stable order: a shorter map is less; at equal length the first
    /// structurally differing pair, in insertion order, decides.
    ///
    /// This order is insertion-order-sensitive while `eq` is not: maps that
    /// are `==`-equal can still compare `Less` or `Greater` when their
    /// insertion orders differ. See `eq` for the same note.
    fn partial_cmp(&self, other: &OrdMap) -> (r: Option<core::cmp::Ordering>) {
        if self.pairs.len() < other.pairs.len() {
            return Some(core::cmp::Ordering::Less);
        }
        if self.pairs.len() > other.pairs.len() {
            return Some(core::cmp::Ordering::Greater);
        }
        let mut i: usize = 0;
        while i < self.pairs.len()
            invariant
                i <= self@.len(),
                self@.len() == self.pairs@.len(),
                self@.len() == other@.len(),
                other@.len() == other.pairs@.len(),
                spec_pairs_cmp(self@, other@, 0) == spec_pairs_cmp(self@, other@, i as int),
            decreases self@.len() - i,
        {
            match str_cmp(self.pairs[i].0.as_str(), other.pairs[i].0.as_str()) {
                core::cmp::Ordering::Less => {
                    return Some(core::cmp::Ordering::Less);
                },
                core::cmp::Ordering::Greater => {
                    proof {
                        crate::strings::lemma_str_lt_asym(self@[i as int].0, other@[i as int].0);
                    }
                    return Some(core::cmp::Ordering::Greater);
                },
                core::cmp::Ordering::Equal => {},
            }
            match str_cmp(self.pairs[i].1.as_str(), other.pairs[i].1.as_str()) {
                core::cmp::Ordering::Less => {
                    return Some(core::cmp::Ordering::Less);
                },
                core::cmp::Ordering::Greater => {
                    proof {
                        crate::strings::lemma_str_lt_asym(self@[i as int].1, other@[i as int].1);
                    }
                    return Some(core::cmp::Ordering::Greater);
                },
                core::cmp::Ordering::Equal => {},
            }
            i = i + 1;
        }
        Some(core::cmp::Ordering::Equal)
    }
}

impl vstd::std_specs::cmp::PartialOrdSpecImpl for OrdMap {
    open spec fn obeys_partial_cmp_spec() -> bool {
        true
    }

    open spec fn partial_cmp_spec(&self, other: &OrdMap) -> Option<core::cmp::Ordering> {
        Some(spec_map_cmp(self@, other@))
    }
}

/// The first index at or after `i` whose key equals `k`, or `m.len()` when
/// no later pair has that key.
pub open spec fn find_key(m: Seq<(Seq<char>, Seq<char>)>, k: Seq<char>, i: int) -> int
    decreases m.len() - i,
{
    if i < 0 || i >= m.len() {
        m.len() as int
    } else if m[i].0 == k {
        i
    } else {
        find_key(m, k, i + 1)
    }
}

/// Whether some pair of `m` has the key `k`.
pub open spec fn spec_contains_key(m: Seq<(Seq<char>, Seq<char>)>, k: Seq<char>) -> bool {
    find_key(m, k, 0) < m.len()
}

/// The value of the first pair of `m` whose key is `k`, if any.
pub open spec fn spec_get(m: Seq<(Seq<char>, Seq<char>)>, k: Seq<char>) -> Option<Seq<char>> {
    if spec_contains_key(m, k) {
        Some(m[find_key(m, k, 0)].1)
    } else {
        None
    }
}

/// No two pairs of `m` share a key.
pub open spec fn keys_unique(m: Seq<(Seq<char>, Seq<char>)>) -> bool {
    forall|i: int, j: int| 0 <= i < j < m.len() ==> m[i].0 != m[j].0
}

/// `find_key` stays within `[i, m.len()]`, lands on `k` when it lands at
/// all, and skips no earlier occurrence.
pub proof fn lemma_find_key(m: Seq<(Seq<char>, Seq<char>)>, k: Seq<char>, i: int)
    requires
        0 <= i <= m.len(),
    ensures
        i <= find_key(m, k, i) <= m.len(),
        find_key(m, k, i) < m.len() ==> m[find_key(m, k, i)].0 == k,
        forall|j: int| i <= j < find_key(m, k, i) ==> m[j].0 != k,
    decreases m.len() - i,
{
    if i < m.len() && m[i].0 != k {
        lemma_find_key(m, k, i + 1);
    }
}

/// A key is contained exactly when some pair carries it.
pub proof fn lemma_contains_key(m: Seq<(Seq<char>, Seq<char>)>, k: Seq<char>)
    ensures
        spec_contains_key(m, k) <==> exists|i: int| 0 <= i < m.len() && m[i].0 == k,
{
    lemma_find_key(m, k, 0);
    if exists|i: int| 0 <= i < m.len() && m[i].0 == k {
        let i = choose|i: int| 0 <= i < m.len() && m[i].0 == k;
        assert(find_key(m, k, 0) < m.len()) by {
            if find_key(m, k, 0) == m.len() {
                assert(m[i].0 != k);
            }
        }
    }
}

/// Inserting a key that is already present always fails and leaves the map
/// unchanged: duplicate keys are never silently overwritten.
pub proof fn lemma_duplicate_key_rejected(m: Seq<(Seq<char>, Seq<char>)>, k: Seq<char>)
    requires
        spec_contains_key(m, k),
    ensures
        forall|v: Seq<char>| spec_insert(m, k, v) is None,
{
}

/// What `insert` does to the contents: appends the pair when the key is
/// fresh, refuses otherwise.
pub open spec fn spec_insert(
    m: Seq<(Seq<char>, Seq<char>)>,
    k: Seq<char>,
    v: Seq<char>,
) -> Option<Seq<(Seq<char>, Seq<char>)>> {
    if spec_contains_key(m, k) {
        None
    } else {
        Some(m.push((k, v)))
    }
}

impl OrdMap {
    /// An empty map.
    pub fn new() -> (r: OrdMap)
        ensures
            r@ == Seq::<(Seq<char>, Seq<char>)>::empty(),
    {
        let r = OrdMap { pairs: Vec::new() };
        proof {
            assert(r@ =~= Seq::<(Seq<char>, Seq<char>)>::empty());
        }
        r
    }

    /// The pairs, in insertion order: one entry per pair of the map's
    /// contents, with pairwise distinct keys.
    pub fn map(&self) -> (r: &Vec<(String, String)>)
        ensures
            r@.len() == self@.len(),
            forall|i: int| 0 <= i < r@.len() ==> ((#[trigger] r@[i]).0@, r@[i].1@) == self@[i],
            keys_unique(self@),
    {
        proof {
            use_type_invariant(&*self);
        }
        &self.pairs
    }

    /// How many pairs the map holds.
    pub fn len(&self) -> (r: usize)
        ensures
            r == self@.len(),
    {
        self.pairs.len()
    }

    /// Whether the map holds no pairs.
    pub fn is_empty(&self) -> (r: bool)
        ensures
            r == (self@.len() == 0),
    {
        self.pairs.len() == 0
    }

    /// Whether some pair carries the key.
    pub fn contains_key(&self, key: &str) -> (r: bool)
        ensures
            r == spec_contains_key(self@, key@),
    {
        let mut i: usize = 0;
        while i < self.pairs.len()
            invariant
                i <= self@.len(),
                self@.len() == self.pairs@.len(),
                find_key(self@, key@, 0) == find_key(self@, key@, i as int),
            decreases self@.len() - i,
        {
            if str_eq(self.pairs[i].0.as_str(), key) {
                return true;
            }
            i = i + 1;
        }
        proof {
            lemma_find_key(self@, key@, 0);
        }
        false
    }

    /// The value stored under `key`, if any.
    pub fn get(&self, key: &str) -> (r: Option<&String>)
        ensures
            match r {
                Some(v) => spec_get(self@, key@) == Some(v@),
                None => spec_get(self@, key@) is None,
            },
    {
        let mut i: usize = 0;
        while i < self.pairs.len()
            invariant
                i <= self@.len(),
                self@.len() == self.pairs@.len(),
                find_key(self@, key@, 0) == find_key(self@, key@, i as int),
            decreases self@.len() - i,
        {
            if str_eq(self.pairs[i].0.as_str(), key) {
                return Some(&self.pairs[i].1);
            }
            i = i + 1;
        }
        proof {
            lemma_find_key(self@, key@, 0);
        }
        None
    }

    /// Add a pair. A key that is already present is an internal error: the
    /// map is left unchanged and nothing is overwritten.
    pub fn insert(&mut self, key: String, value: String) -> (r: Result<(), Error>)
        ensures
            keys_unique(final(self)@),
            match r {
                Ok(()) => !spec_contains_key(old(self)@, key@) && final(self)@ == old(self)@.push(
                    (key@, value@),
                ),
                Err(e) => spec_contains_key(old(self)@, key@) && final(self)@ == old(self)@
                    && e is Bug,
            },
    {
        proof {
            use_type_invariant(&*self);
        }
        if self.contains_key(key.as_str()) {
            return Err(Error::Bug { message: String::from_str("duplicate key") });
        }
        let ghost old_view = self@;
        let ghost kv = key@;
        let ghost vv = value@;
        proof {
            lemma_contains_key(old_view, kv);
        }
        let mut pairs: Vec<(String, String)> = Vec::new();
        core::mem::swap(&mut pairs, &mut self.pairs);
        pairs.push((key, value));
        proof {
            let nv = Seq::new(pairs@.len(), |i: int| (pairs@[i].0@, pairs@[i].1@));
            assert(nv =~= old_view.push((kv, vv)));
            assert forall|i: int, j: int| 0 <= i < j < nv.len() implies nv[i].0 != nv[j].0 by {
                if j == nv.len() - 1 {
                    assert(!(exists|q: int| 0 <= q < old_view.len() && old_view[q].0 == kv));
                    assert(old_view[i].0 != kv);
                }
            }
            assert(keys_unique(nv));
        }
        self.pairs = pairs;
        proof {
            assert(self@ =~= old_view.push((kv, vv)));
        }
        Ok(())
    }

    /// Whether this map holds fewer pairs than the other.
    pub fn size_le(&self, other: &OrdMap) -> (r: bool)
        ensures
            r == (self@.len() < other@.len()),
    {
        self.pairs.len() < other.pairs.len()
    }

    /// Whether this map holds more pairs than the other.
    pub fn size_gt(&self, other: &OrdMap) -> (r: bool)
        ensures
            r == (self@.len() > other@.len()),
    {
        self.pairs.len() > other.pairs.len()
    }
}

} // verus!
