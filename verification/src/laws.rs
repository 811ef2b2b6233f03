//! The store's laws: properties that tie several operations together,
//! stated over the same views and spec functions the operations' contracts
//! use, and proved once and for all.

use vstd::prelude::*;

use crate::store::{has_all_kinds, Ecs};
use crate::{Component, Kind};

verus! {

/// A freshly created entity exists and holds no component of any kind.
///
/// The premise is exactly what `create_entity` ensures of the store: the new
/// id `e` is mapped to the empty table.  Under it, `has_entity(e)` returns
/// `true`, and `has(e, k)` returns `Ok(false)` for every kind `k`, by those
/// operations' own contracts.
pub proof fn law_fresh_entity<C>(pre: Ecs<C>, post: Ecs<C>, e: u64)
    requires
        post@ == pre@.insert(e, Map::<Kind, C>::empty()),
    ensures
        post@.contains_key(e),
        forall|k: Kind| !post@[e].contains_key(k),
{
}

/// A destroyed entity is gone for good.
///
/// The premise is exactly what `destroy_entity` ensures on success: `e` is
/// removed from the store's map.  Under it, `e` is not live, so by their own
/// contracts every operation on `e` — `destroy_entity`, `set`, `get`, `has`,
/// `has_all`, `borrow`, `borrow_mut`, `iter_components` — returns the
/// `Entity` error, and `has_entity` returns `false`.
pub proof fn law_destroyed_entity_gone<C>(pre: Ecs<C>, post: Ecs<C>, e: u64)
    requires
        post@ == pre@.remove(e),
    ensures
        !post@.contains_key(e),
{
}

/// Setting a component and reading the same kind back yields that component.
///
/// The premise is exactly what `set` ensures on a live entity `e`.  Under
/// it, `get(e, kind_of(comp))` returns `Ok(comp)` and `has` returns
/// `Ok(true)`, by those operations' contracts.
pub proof fn law_set_then_get<C: Component>(pre: Ecs<C>, post: Ecs<C>, e: u64, comp: C)
    requires
        pre@.contains_key(e),
        post@ == pre@.insert(e, pre@[e].insert(comp.kind_id(), comp)),
    ensures
        post@.contains_key(e),
        post@[e].contains_key(comp.kind_id()),
        post@[e][comp.kind_id()] == comp,
{
}

/// Setting the same kind twice keeps only the second value, and the second
/// call's "previous value" is the first value.
///
/// The premises are what two successive `set` calls of one kind ensure on a
/// live entity whose table did not hold the kind before.  By `set`'s
/// contract the first call returned `Ok(None)` (the kind was absent in
/// `pre`) and the second returned `Ok(Some(c1))` (in `mid` the kind maps to
/// `c1`); afterwards only `c2` is retrievable.
pub proof fn law_set_twice<C: Component>(
    pre: Ecs<C>,
    mid: Ecs<C>,
    post: Ecs<C>,
    e: u64,
    c1: C,
    c2: C,
)
    requires
        c1.kind_id() == c2.kind_id(),
        pre@.contains_key(e),
        !pre@[e].contains_key(c1.kind_id()),
        mid@ == pre@.insert(e, pre@[e].insert(c1.kind_id(), c1)),
        post@ == mid@.insert(e, mid@[e].insert(c2.kind_id(), c2)),
    ensures
        mid@[e].contains_key(c1.kind_id()),
        mid@[e][c1.kind_id()] == c1,
        post@[e].contains_key(c2.kind_id()),
        post@[e][c2.kind_id()] == c2,
{
}

/// A value written through a mutable borrow is what every later read of the
/// same kind on the same entity sees.
///
/// The premise is exactly what `borrow_mut` ensures of the store when it
/// hands out a reference to kind `k` of the live entity `e` and the caller
/// leaves `w` in it.  Under it, a later `get`, `borrow` or `has` of `k` on
/// `e` sees exactly `w`, by those operations' contracts, with no `set` in
/// between.
pub proof fn law_mutation_visible<C>(pre: Ecs<C>, post: Ecs<C>, e: u64, k: Kind, w: C)
    requires
        pre@.contains_key(e),
        pre@[e].contains_key(k),
        post@ == pre@.insert(e, pre@[e].insert(k, w)),
    ensures
        post@.contains_key(e),
        post@[e].contains_key(k),
        post@[e][k] == w,
{
}

/// `collect_with` selects exactly the right ids, each once.
///
/// The sequence that `collect_with` ensures it stores in `dest` — the
/// creation order filtered by possession of every kind in `kinds` — has no
/// duplicates, and an id appears in it if and only if the entity is live
/// and `has_all` of the same kinds returns `Ok(true)` for it.
pub proof fn law_collect_with_exact<C: Component>(s: Ecs<C>, kinds: Set<Kind>)
    requires
        s.wf(),
    ensures
        s.order().filter(s.selects(kinds)).no_duplicates(),
        forall|e: u64| #[trigger]
            s.order().filter(s.selects(kinds)).contains(e) <==> s@.contains_key(e)
                && has_all_kinds(s@[e], kinds),
{
    s.lemma_view_order();
    lemma_filter_exact(s.order(), s.selects(kinds));
}

/// `collect_with_2` joins exactly the entities possessing both kinds.
///
/// The id sequence underlying the tuples that `collect_with_2` ensures it
/// returns has no duplicates, and an id appears in it if and only if the
/// entity is live and holds components of both kinds; an entity missing
/// either kind is excluded entirely.
pub proof fn law_collect_with_2_exact<C: Component>(s: Ecs<C>, k1: Kind, k2: Kind)
    requires
        s.wf(),
    ensures
        s.order().filter(s.selects_pair(k1, k2)).no_duplicates(),
        forall|e: u64| #[trigger]
            s.order().filter(s.selects_pair(k1, k2)).contains(e) <==> s@.contains_key(e)
                && s@[e].contains_key(k1) && s@[e].contains_key(k2),
{
    s.lemma_view_order();
    lemma_filter_exact(s.order(), s.selects_pair(k1, k2));
}

/// `collect_with_3` joins exactly the entities possessing all three kinds.
///
/// As [`law_collect_with_2_exact`], for three kinds: an entity missing any
/// one of them is excluded entirely.
pub proof fn law_collect_with_3_exact<C: Component>(s: Ecs<C>, k1: Kind, k2: Kind, k3: Kind)
    requires
        s.wf(),
    ensures
        s.order().filter(s.selects_triple(k1, k2, k3)).no_duplicates(),
        forall|e: u64| #[trigger]
            s.order().filter(s.selects_triple(k1, k2, k3)).contains(e) <==> s@.contains_key(e)
                && s@[e].contains_key(k1) && s@[e].contains_key(k2) && s@[e].contains_key(k3),
{
    s.lemma_view_order();
    lemma_filter_exact(s.order(), s.selects_triple(k1, k2, k3));
}

/// An entity id is never handed out twice.
///
/// `create_entity` returns the store's counter and leaves the counter one
/// higher, and every operation's contract keeps the counter from shrinking.
/// So for two creations, with any operations between them, the second id is
/// strictly greater than the first: across any number of create/destroy
/// cycles all returned ids are distinct.
pub proof fn law_ids_never_reused<C: Component>(
    pre1: Ecs<C>,
    post1: Ecs<C>,
    r1: u64,
    pre2: Ecs<C>,
    post2: Ecs<C>,
    r2: u64,
)
    requires
        r1 == pre1.counter(),
        post1.counter() == pre1.counter() + 1,
        post1.counter() <= pre2.counter(),
        r2 == pre2.counter(),
        post2.counter() == pre2.counter() + 1,
    ensures
        r1 < r2,
{
}

/// Filtering a duplicate-free sequence keeps it duplicate-free, and keeps
/// exactly the elements the predicate selects.
proof fn lemma_filter_exact<A>(s: Seq<A>, pred: spec_fn(A) -> bool)
    requires
        s.no_duplicates(),
    ensures
        s.filter(pred).no_duplicates(),
        forall|x: A| #[trigger] s.filter(pred).contains(x) <==> s.contains(x) && pred(x),
    decreases s.len(),
{
    reveal(Seq::filter);
    if s.len() == 0 {
        assert forall|x: A| !(#[trigger] s.filter(pred).contains(x)) && !s.contains(x) by {
            assert(s.filter(pred).len() == 0);
        }
    } else {
        let t = s.drop_last();
        let la = s.last();
        assert forall|p: int, q: int|
            0 <= p < t.len() && 0 <= q < t.len() && p != q implies t[p] != t[q] by {
            assert(t[p] == s[p] && t[q] == s[q]);
        }
        lemma_filter_exact(t, pred);
        let ft = t.filter(pred);
        assert(!t.contains(la)) by {
            if t.contains(la) {
                let w = choose|w: int| 0 <= w < t.len() && t[w] == la;
                assert(s[w] == la && s[s.len() - 1] == la);
            }
        }
        if pred(la) {
            let u = ft.push(la);
            assert(s.filter(pred) == u);
            assert(!ft.contains(la));
            assert forall|p: int, q: int|
                0 <= p < u.len() && 0 <= q < u.len() && p != q implies u[p] != u[q] by {
                if p < ft.len() && q < ft.len() {
                    assert(u[p] == ft[p] && u[q] == ft[q]);
                } else if p < ft.len() {
                    assert(u[p] == ft[p]);
                    assert(ft.contains(ft[p]));
                } else if q < ft.len() {
                    assert(u[q] == ft[q]);
                    assert(ft.contains(ft[q]));
                }
            }
            assert forall|x: A| #[trigger] s.filter(pred).contains(x) implies s.contains(x)
                && pred(x) by {
                let w = choose|w: int| 0 <= w < u.len() && u[w] == x;
                if w < ft.len() {
                    assert(ft[w] == x);
                    assert(ft.contains(x));
                    let v = choose|v: int| 0 <= v < t.len() && t[v] == x;
                    assert(s[v] == x);
                } else {
                    assert(x == la);
                    assert(s[s.len() - 1] == x);
                }
                assert(s.contains(x));
            }
            assert forall|x: A| s.contains(x) && pred(x) implies #[trigger] s.filter(
                pred,
            ).contains(x) by {
                let w = choose|w: int| 0 <= w < s.len() && s[w] == x;
                if w < s.len() - 1 {
                    assert(t[w] == x);
                    assert(t.contains(x));
                    assert(ft.contains(x));
                    let v = choose|v: int| 0 <= v < ft.len() && ft[v] == x;
                    assert(u[v] == x);
                } else {
                    assert(x == la);
                    assert(u[ft.len() as int] == x);
                }
                assert(u.contains(x));
            }
        } else {
            assert(s.filter(pred) == ft);
            assert forall|x: A| #[trigger] s.filter(pred).contains(x) implies s.contains(x)
                && pred(x) by {
                assert(ft.contains(x));
                assert(t.contains(x) && pred(x));
                let v = choose|v: int| 0 <= v < t.len() && t[v] == x;
                assert(s[v] == x);
                assert(s.contains(x));
            }
            assert forall|x: A| s.contains(x) && pred(x) implies #[trigger] s.filter(
                pred,
            ).contains(x) by {
                let w = choose|w: int| 0 <= w < s.len() && s[w] == x;
                assert(x != la);
                assert(t[w] == x);
                assert(t.contains(x));
                assert(ft.contains(x));
            }
        }
    }
}

} // verus!
