//! Query descriptor: the set of component kinds an entity must possess.

use vstd::prelude::*;

use crate::Kind;

verus! {

/// A set of component [`Kind`] tokens, used to select the entities that
/// possess a component of every listed kind.
///
/// A filter is a plain value: it is independent of any store, may be reused
/// across queries, holds each kind at most once, and attaches no meaning to
/// the order of its kinds.  Its mathematical view (`@`) is the set of kinds
/// it holds.
#[derive(Clone, Debug, PartialEq, Eq)]
pub struct ComponentFilter {
    kinds: Vec<Kind>,
}

impl View for ComponentFilter {
    type V = Set<Kind>;

    closed spec fn view(&self) -> Set<Kind> {
        self.kinds@.to_set()
    }
}

impl Default for ComponentFilter {
    /// The empty filter, as [`ComponentFilter::new`] makes it.
    fn default() -> (r: Self)
        ensures
            r.wf(),
            r@ == Set::<Kind>::empty(),
    {
        Self::new()
    }
}

impl ComponentFilter {
    /// Internal shape of a valid filter: no kind is listed twice.
    pub closed spec fn wf(&self) -> bool {
        self.kinds@.no_duplicates()
    }

    /// Create an empty filter.
    pub fn new() -> (r: Self)
        ensures
            r.wf(),
            r@ == Set::<Kind>::empty(),
    {
        let r = ComponentFilter { kinds: Vec::new() };
        proof {
            assert(r.kinds@.to_set() =~= Set::<Kind>::empty());
        }
        r
    }

    /// Return `true` if the filter contains the kind `k`.
    pub fn contains(&self, k: Kind) -> (r: bool)
        ensures
            r == self@.contains(k),
    {
        let n = self.kinds.len();
        let mut i: usize = 0;
        while i < n
            invariant
                i <= n,
                n == self.kinds@.len(),
                forall|j: int| 0 <= j < i ==> self.kinds@[j] != k,
            decreases n - i,
        {
            if self.kinds[i] == k {
                proof {
                    assert(self.kinds@.contains(k));
                }
                return true;
            }
            i += 1;
        }
        proof {
            assert(!self.kinds@.contains(k));
        }
        false
    }

    /// Add the kind `k` to the filter; adding a kind already present leaves
    /// the filter unchanged.
    pub fn add(&mut self, k: Kind)
        requires
            old(self).wf(),
        ensures
            final(self).wf(),
            final(self)@ == old(self)@.insert(k),
    {
        if !self.contains(k) {
            proof {
                assert(!self.kinds@.contains(k));
            }
            self.kinds.push(k);
            proof {
                lemma_push_fresh(old(self).kinds@, k);
            }
        } else {
            proof {
                assert(old(self)@.insert(k) =~= old(self)@);
            }
        }
    }

    /// Remove the kind `k` from the filter; removing a kind that is absent
    /// leaves the filter unchanged.
    pub fn remove(&mut self, k: Kind)
        requires
            old(self).wf(),
        ensures
            final(self).wf(),
            final(self)@ == old(self)@.remove(k),
    {
        let n = self.kinds.len();
        let mut i: usize = 0;
        while i < n
            invariant
                i <= n,
                n == self.kinds@.len(),
                self.kinds@ == old(self).kinds@,
                self.kinds@.no_duplicates(),
                forall|j: int| 0 <= j < i ==> self.kinds@[j] != k,
            decreases n - i,
        {
            if self.kinds[i] == k {
                proof {
                    lemma_remove_at(self.kinds@, i as int);
                }
                self.kinds.remove(i);
                return ;
            }
            i += 1;
        }
        proof {
            assert(!self.kinds@.contains(k));
            assert(old(self)@.remove(k) =~= old(self)@);
        }
    }

    /// Create a filter holding exactly the kinds of `slice`, duplicates
    /// collapsed.
    pub fn from_slice(slice: &[Kind]) -> (r: Self)
        ensures
            r.wf(),
            r@ == slice@.to_set(),
    {
        let mut r = Self::new();
        let n = slice.len();
        let mut i: usize = 0;
        while i < n
            invariant
                i <= n,
                n == slice@.len(),
                r.wf(),
                r@ == slice@.subrange(0, i as int).to_set(),
            decreases n - i,
        {
            let k = slice[i];
            r.add(k);
            proof {
                lemma_subrange_extend(slice@, i as int);
            }
            i += 1;
        }
        proof {
            assert(slice@.subrange(0, n as int) =~= slice@);
        }
        r
    }

    /// The kinds of the filter, as a vector without duplicates, in no
    /// promised order.
    pub fn iter(&self) -> (r: Vec<Kind>)
        requires
            self.wf(),
        ensures
            r@.no_duplicates(),
            r@.to_set() == self@,
    {
        let n = self.kinds.len();
        let mut r: Vec<Kind> = Vec::new();
        let mut i: usize = 0;
        while i < n
            invariant
                i <= n,
                n == self.kinds@.len(),
                r@ == self.kinds@.subrange(0, i as int),
            decreases n - i,
        {
            r.push(self.kinds[i]);
            i += 1;
        }
        proof {
            assert(r@ =~= self.kinds@);
        }
        r
    }
}

/// Pushing a kind that a sequence does not hold keeps the sequence free of
/// duplicates and adds exactly that kind to its set of elements.
proof fn lemma_push_fresh(s: Seq<Kind>, k: Kind)
    requires
        s.no_duplicates(),
        !s.contains(k),
    ensures
        s.push(k).no_duplicates(),
        s.push(k).to_set() == s.to_set().insert(k),
{
    let t = s.push(k);
    assert forall|i: int, j: int| 0 <= i < t.len() && 0 <= j < t.len() && i != j implies t[i]
        != t[j] by {
        if i < s.len() && j < s.len() {
            assert(s[i] == t[i] && s[j] == t[j]);
        } else if i < s.len() {
            assert(s.contains(s[i]));
        } else if j < s.len() {
            assert(s.contains(s[j]));
        }
    }
    assert forall|x: Kind| t.to_set().contains(x) implies s.to_set().insert(k).contains(x) by {
        let w = choose|w: int| 0 <= w < t.len() && t[w] == x;
        if w < s.len() {
            assert(s.contains(x));
        }
    }
    assert forall|x: Kind| s.to_set().insert(k).contains(x) implies t.to_set().contains(x) by {
        if s.contains(x) {
            let w = choose|w: int| 0 <= w < s.len() && s[w] == x;
            assert(t[w] == x);
        } else {
            assert(t[s.len() as int] == k);
        }
        assert(t.contains(x));
    }
    assert(t.to_set() =~= s.to_set().insert(k));
}

/// Removing the position of a kind from a duplicate-free sequence removes
/// exactly that kind from its set of elements.
proof fn lemma_remove_at(s: Seq<Kind>, i: int)
    requires
        s.no_duplicates(),
        0 <= i < s.len(),
    ensures
        s.remove(i).no_duplicates(),
        s.remove(i).to_set() == s.to_set().remove(s[i]),
{
    let t = s.remove(i);
    s.remove_ensures(i);
    assert forall|p: int, q: int| 0 <= p < t.len() && 0 <= q < t.len() && p != q implies t[p]
        != t[q] by {
        let p0: int = if p < i {
            p
        } else {
            p + 1
        };
        let q0: int = if q < i {
            q
        } else {
            q + 1
        };
        assert(t[p] == s[p0] && t[q] == s[q0]);
    }
    assert forall|x: Kind| t.to_set().contains(x) implies s.to_set().remove(s[i]).contains(x) by {
        let w = choose|w: int| 0 <= w < t.len() && t[w] == x;
        let w0: int = if w < i {
            w
        } else {
            w + 1
        };
        assert(s[w0] == x);
        assert(s.contains(x));
        assert(x != s[i]);
    }
    assert forall|x: Kind| s.to_set().remove(s[i]).contains(x) implies t.to_set().contains(x) by {
        let w = choose|w: int| 0 <= w < s.len() && s[w] == x;
        let w1: int = if w < i {
            w
        } else {
            w - 1
        };
        assert(t[w1] == x);
        assert(t.contains(x));
    }
    assert(t.to_set() =~= s.to_set().remove(s[i]));
}

/// Extending a prefix by one element adds exactly that element to the
/// prefix's set of elements.
proof fn lemma_subrange_extend(s: Seq<Kind>, i: int)
    requires
        0 <= i < s.len(),
    ensures
        s.subrange(0, i + 1).to_set() == s.subrange(0, i).to_set().insert(s[i]),
{
    let a = s.subrange(0, i);
    let b = s.subrange(0, i + 1);
    assert forall|x: Kind| b.to_set().contains(x) implies a.to_set().insert(s[i]).contains(x) by {
        let w = choose|w: int| 0 <= w < b.len() && b[w] == x;
        if w < i {
            assert(a[w] == x);
            assert(a.contains(x));
        }
    }
    assert forall|x: Kind| a.to_set().insert(s[i]).contains(x) implies b.to_set().contains(x) by {
        if a.contains(x) {
            let w = choose|w: int| 0 <= w < a.len() && a[w] == x;
            assert(b[w] == x);
        } else {
            assert(b[i] == s[i]);
        }
        assert(b.contains(x));
    }
    assert(b.to_set() =~= a.to_set().insert(s[i]));
}

} // verus!
