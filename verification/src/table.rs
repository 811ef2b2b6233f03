//! Per-entity component table: at most one component value per kind.

use vstd::prelude::*;

use crate::{Component, EcsResult, Kind, NotFound};

verus! {

/// The position of kind `k` in `kinds`, meaningful only when `kinds`
/// contains `k` exactly once.
pub(crate) open spec fn kindex(kinds: Seq<Kind>, k: Kind) -> int {
    choose|i: int| 0 <= i < kinds.len() && kinds[i] == k
}

/// The kinds of a list of (kind, value) entries, position by position.
pub open spec fn kind_list<C>(entries: Seq<(Kind, C)>) -> Seq<Kind> {
    entries.map_values(|p: (Kind, C)| p.0)
}

/// The map from kind to value described by two parallel sequences.
pub(crate) open spec fn as_map<C>(kinds: Seq<Kind>, values: Seq<C>) -> Map<Kind, C> {
    Map::new(|k: Kind| kinds.contains(k), |k: Kind| values[kindex(kinds, k)])
}

/// The component table of one entity: a mapping from component [`Kind`] to
/// exactly one owned value of the carrier type `C`, so that a value filed
/// under a kind can only be read back under that same kind.
///
/// Its mathematical view (`@`) is a [`Map`] from kind to value.
pub struct ComponentMap<C> {
    kinds: Vec<Kind>,
    values: Vec<C>,
}

impl<C> View for ComponentMap<C> {
    type V = Map<Kind, C>;

    closed spec fn view(&self) -> Map<Kind, C> {
        as_map(self.kinds@, self.values@)
    }
}

impl<C: Component> Default for ComponentMap<C> {
    /// The empty table, as [`ComponentMap::new`] makes it.
    fn default() -> (r: Self)
        ensures
            r.wf(),
            r@ == Map::<Kind, C>::empty(),
    {
        Self::new()
    }
}

impl<C: Component> ComponentMap<C> {
    /// Internal shape of a valid table: one value per listed kind, and no
    /// kind listed twice.
    pub closed spec fn wf(&self) -> bool {
        &&& self.kinds@.len() == self.values@.len()
        &&& self.kinds@.no_duplicates()
    }

    /// Create an empty table.
    pub fn new() -> (r: Self)
        ensures
            r.wf(),
            r@ == Map::<Kind, C>::empty(),
    {
        let r = ComponentMap { kinds: Vec::new(), values: Vec::new() };
        proof {
            assert(r@ =~= Map::<Kind, C>::empty());
        }
        r
    }

    /// The position of kind `k` in the table, if the table holds a value of
    /// that kind.
    fn find(&self, k: Kind) -> (r: Option<usize>)
        requires
            self.wf(),
        ensures
            match r {
                Some(i) => i < self.kinds@.len() && self.kinds@[i as int] == k,
                None => !self@.contains_key(k),
            },
    {
        let n = self.kinds.len();
        let mut i: usize = 0;
        while i < n
            invariant
                i <= n,
                n == self.kinds@.len(),
                forall|j: int| 0 <= j < i ==> self.kinds@[j] != k,
            decreases n - i,
        {
            if self.kinds[i] == k {
                return Some(i);
            }
            i += 1;
        }
        proof {
            assert(!self.kinds@.contains(k));
        }
        None
    }

    /// Insert `comp` under its own kind, replacing and returning the value
    /// of that kind that was present, if any.  Never fails.
    pub fn set(&mut self, comp: C) -> (r: Option<C>)
        requires
            old(self).wf(),
        ensures
            final(self).wf(),
            final(self)@ == old(self)@.insert(comp.kind_id(), comp),
            old(self)@.contains_key(comp.kind_id()) ==> r == Some(old(self)@[comp.kind_id()]),
            !old(self)@.contains_key(comp.kind_id()) ==> r == None::<C>,
    {
        let k = comp.kind();
        match self.find(k) {
            Some(i) => {
                proof {
                    lemma_as_map_at(self.kinds@, self.values@, i as int);
                }
                let mut prev = comp;
                core::mem::swap(&mut prev, &mut self.values[i]);
                proof {
                    lemma_as_map_update(old(self).kinds@, old(self).values@, i as int, comp);
                }
                Some(prev)
            },
            None => {
                self.kinds.push(k);
                self.values.push(comp);
                proof {
                    lemma_as_map_push(old(self).kinds@, old(self).values@, k, comp);
                }
                None
            },
        }
    }

    /// Return a reference to the value of kind `k`, if the table holds one.
    pub fn borrow(&self, k: Kind) -> (r: EcsResult<&C>)
        requires
            self.wf(),
        ensures
            self@.contains_key(k) ==> r.is_ok() && *r.unwrap() == self@[k],
            !self@.contains_key(k) ==> r == Err::<&C, NotFound>(NotFound::Component(k)),
    {
        match self.find(k) {
            Some(i) => {
                proof {
                    lemma_as_map_at(self.kinds@, self.values@, i as int);
                }
                Ok(&self.values[i])
            },
            None => Err(NotFound::Component(k)),
        }
    }

    /// Return a copy of the value of kind `k`, if the table holds one.
    pub fn get(&self, k: Kind) -> (r: EcsResult<C>) where C: Copy
        requires
            self.wf(),
        ensures
            self@.contains_key(k) ==> r == Ok::<C, NotFound>(self@[k]),
            !self@.contains_key(k) ==> r == Err::<C, NotFound>(NotFound::Component(k)),
    {
        match self.borrow(k) {
            Ok(v) => Ok(*v),
            Err(e) => Err(e),
        }
    }

    /// Return `true` if the table holds a value of kind `k`.
    pub fn contains_type_id(&self, k: Kind) -> (r: bool)
        requires
            self.wf(),
        ensures
            r == self@.contains_key(k),
    {
        match self.find(k) {
            Some(i) => {
                proof {
                    assert(self.kinds@.contains(k));
                }
                true
            },
            None => false,
        }
    }

    /// Return `true` if the table holds a value of the same kind as `comp`.
    pub fn contains(&self, comp: &C) -> (r: bool)
        requires
            self.wf(),
        ensures
            r == self@.contains_key(comp.kind_id()),
    {
        self.contains_type_id(comp.kind())
    }

    /// Return every (kind, value) pair of the table, each kind once, in no
    /// promised order.
    pub fn entries(&self) -> (r: Vec<(Kind, C)>) where C: Copy
        requires
            self.wf(),
        ensures
            kind_list(r@).no_duplicates(),
            forall|j: int|
                0 <= j < r@.len() ==> self@.contains_key((#[trigger] r@[j]).0) && r@[j].1
                    == self@[r@[j].0],
            forall|k: Kind| #[trigger] self@.contains_key(k) ==> kind_list(r@).contains(k),
    {
        let n = self.kinds.len();
        let mut r: Vec<(Kind, C)> = Vec::new();
        let mut i: usize = 0;
        while i < n
            invariant
                i <= n,
                n == self.kinds@.len(),
                self.wf(),
                r@.len() == i,
                forall|j: int|
                    0 <= j < i ==> (#[trigger] r@[j]).0 == self.kinds@[j] && r@[j].1
                        == self.values@[j],
            decreases n - i,
        {
            r.push((self.kinds[i], self.values[i]));
            i += 1;
        }
        proof {
            assert(kind_list(r@) =~= self.kinds@);
            assert forall|j: int|
                0 <= j < r@.len() implies self@.contains_key((#[trigger] r@[j]).0) && r@[j].1
                == self@[r@[j].0] by {
                lemma_as_map_at(self.kinds@, self.values@, j);
            }
        }
        r
    }

    /// Return a mutable reference to the value of kind `k`, if the table
    /// holds one; whatever the caller writes through it becomes the value of
    /// kind `k`.
    pub fn borrow_mut(&mut self, k: Kind) -> (r: EcsResult<&mut C>)
        requires
            old(self).wf(),
        ensures
            final(self).wf(),
            old(self)@.contains_key(k) ==> r.is_ok() && *r.unwrap() == old(self)@[k]
                && final(self)@ == old(self)@.insert(k, *final(r.unwrap())),
            !old(self)@.contains_key(k) ==> r == Err::<&mut C, NotFound>(NotFound::Component(k))
                && *final(self) == *old(self),
    {
        match self.find(k) {
            Some(i) => {
                proof {
                    lemma_as_map_at(self.kinds@, self.values@, i as int);
                }
                let p = &mut self.values[i];
                proof {
                    lemma_as_map_update(old(self).kinds@, old(self).values@, i as int, *final(p));
                }
                Ok(p)
            },
            None => Err(NotFound::Component(k)),
        }
    }
}

/// Dropping a listed position removes exactly that position's kind, with its
/// value, from the table's map.
pub(crate) proof fn lemma_as_map_remove<C>(kinds: Seq<Kind>, values: Seq<C>, i: int)
    requires
        kinds.len() == values.len(),
        kinds.no_duplicates(),
        0 <= i < kinds.len(),
    ensures
        kinds.remove(i).no_duplicates(),
        as_map(kinds.remove(i), values.remove(i)) == as_map(kinds, values).remove(kinds[i]),
{
    let ks = kinds.remove(i);
    let vs = values.remove(i);
    kinds.remove_ensures(i);
    values.remove_ensures(i);
    assert forall|p: int, q: int|
        0 <= p < ks.len() && 0 <= q < ks.len() && p != q implies ks[p] != ks[q] by {
        let p0: int = if p < i {
            p
        } else {
            p + 1
        };
        let q0: int = if q < i {
            q
        } else {
            q + 1
        };
        assert(ks[p] == kinds[p0] && ks[q] == kinds[q0]);
    }
    let m1 = as_map(ks, vs);
    let m2 = as_map(kinds, values).remove(kinds[i]);
    assert forall|x: Kind| m1.contains_key(x) implies m2.contains_key(x) by {
        let w = choose|w: int| 0 <= w < ks.len() && ks[w] == x;
        let w0: int = if w < i {
            w
        } else {
            w + 1
        };
        assert(kinds[w0] == x);
        assert(kinds.contains(x));
        assert(x != kinds[i]);
    }
    assert forall|x: Kind| m2.contains_key(x) implies m1.contains_key(x) by {
        let w = choose|w: int| 0 <= w < kinds.len() && kinds[w] == x;
        let w1: int = if w < i {
            w
        } else {
            w - 1
        };
        assert(ks[w1] == x);
        assert(ks.contains(x));
    }
    assert forall|x: Kind| m1.contains_key(x) implies m1[x] == m2[x] by {
        let w = kindex(ks, x);
        assert(0 <= w < ks.len() && ks[w] == x);
        let w0: int = if w < i {
            w
        } else {
            w + 1
        };
        assert(kinds[w0] == x);
        assert(kinds.contains(x));
        let u = kindex(kinds, x);
        assert(0 <= u < kinds.len() && kinds[u] == x);
        assert(u == w0);
        assert(m1[x] == vs[w] && m2[x] == values[w0]);
    }
    assert(m1 =~= m2);
}

/// At any listed position, the table's map holds that position's kind and
/// maps it to that position's value.
pub(crate) proof fn lemma_as_map_at<C>(kinds: Seq<Kind>, values: Seq<C>, i: int)
    requires
        kinds.len() == values.len(),
        kinds.no_duplicates(),
        0 <= i < kinds.len(),
    ensures
        as_map(kinds, values).contains_key(kinds[i]),
        as_map(kinds, values)[kinds[i]] == values[i],
{
    assert(kinds.contains(kinds[i]));
    let w = kindex(kinds, kinds[i]);
    assert(0 <= w < kinds.len() && kinds[w] == kinds[i]);
    assert(w == i);
}

/// Overwriting the value at a listed position updates the table's map at
/// that position's kind and nowhere else.
pub(crate) proof fn lemma_as_map_update<C>(kinds: Seq<Kind>, values: Seq<C>, i: int, c: C)
    requires
        kinds.len() == values.len(),
        kinds.no_duplicates(),
        0 <= i < kinds.len(),
    ensures
        as_map(kinds, values.update(i, c)) == as_map(kinds, values).insert(kinds[i], c),
{
    let m1 = as_map(kinds, values.update(i, c));
    let m2 = as_map(kinds, values).insert(kinds[i], c);
    assert forall|k: Kind| m1.contains_key(k) implies m2.contains_key(k) by {}
    assert forall|k: Kind| m2.contains_key(k) implies m1.contains_key(k) by {
        assert(kinds.contains(kinds[i]));
    }
    assert forall|k: Kind| m1.contains_key(k) implies m1[k] == m2[k] by {
        let w = kindex(kinds, k);
        assert(0 <= w < kinds.len() && kinds[w] == k);
        if k == kinds[i] {
            assert(w == i);
        } else {
            assert(w != i);
        }
    }
    assert(m1 =~= m2);
}

/// Appending a kind the table does not list, with its value, adds exactly
/// that binding to the table's map.
pub(crate) proof fn lemma_as_map_push<C>(kinds: Seq<Kind>, values: Seq<C>, k: Kind, c: C)
    requires
        kinds.len() == values.len(),
        kinds.no_duplicates(),
        !kinds.contains(k),
    ensures
        kinds.push(k).no_duplicates(),
        as_map(kinds.push(k), values.push(c)) == as_map(kinds, values).insert(k, c),
{
    let ks = kinds.push(k);
    let vs = values.push(c);
    assert forall|p: int, q: int|
        0 <= p < ks.len() && 0 <= q < ks.len() && p != q implies ks[p] != ks[q] by {
        if p < kinds.len() && q < kinds.len() {
            assert(kinds[p] == ks[p] && kinds[q] == ks[q]);
        } else if p < kinds.len() {
            assert(kinds.contains(kinds[p]));
        } else if q < kinds.len() {
            assert(kinds.contains(kinds[q]));
        }
    }
    let m1 = as_map(ks, vs);
    let m2 = as_map(kinds, values).insert(k, c);
    assert forall|x: Kind| m1.contains_key(x) implies m2.contains_key(x) by {
        let w = choose|w: int| 0 <= w < ks.len() && ks[w] == x;
        if w < kinds.len() {
            assert(kinds.contains(x));
        }
    }
    assert forall|x: Kind| m2.contains_key(x) implies m1.contains_key(x) by {
        if kinds.contains(x) {
            let w = choose|w: int| 0 <= w < kinds.len() && kinds[w] == x;
            assert(ks[w] == x);
        } else {
            assert(ks[kinds.len() as int] == k);
        }
        assert(ks.contains(x));
    }
    assert forall|x: Kind| m1.contains_key(x) implies m1[x] == m2[x] by {
        let w = kindex(ks, x);
        assert(0 <= w < ks.len() && ks[w] == x);
        if x == k {
            assert(w == kinds.len() as int);
            assert(m1[x] == c);
        } else {
            assert(w < kinds.len());
            assert(kinds.contains(x));
            let w0 = kindex(kinds, x);
            assert(0 <= w0 < kinds.len() && kinds[w0] == x);
            assert(ks[w0] == x);
            assert(w0 == w);
        }
    }
    assert(m1 =~= m2);
}

} // verus!
