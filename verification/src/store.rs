//! The store: entity lifecycle, per-entity component access, and queries.

use vstd::prelude::*;

use crate::filter::ComponentFilter;
use crate::table::{as_map, kind_list, lemma_as_map_at, lemma_as_map_push, lemma_as_map_remove,
    lemma_as_map_update, ComponentMap};
use crate::{Component, EcsResult, EntityId, Kind, NotFound};

verus! {

/// The views of the tables of `tables`, position by position.
pub(crate) open spec fn table_views<C>(tables: Seq<ComponentMap<C>>) -> Seq<Map<Kind, C>> {
    tables.map_values(|t: ComponentMap<C>| t@)
}

/// The id numbers of the ids of `ids`, position by position.
pub open spec fn nums_of(ids: Seq<EntityId>) -> Seq<u64> {
    ids.map_values(|e: EntityId| e@)
}

/// Whether the component table `table` holds a value of every kind in
/// `kinds`.
pub open spec fn has_all_kinds<C>(table: Map<Kind, C>, kinds: Set<Kind>) -> bool {
    forall|k: Kind| kinds.contains(k) ==> table.contains_key(k)
}

/// The entity-component store: the owner of every entity and of every
/// component value attached to one.
///
/// Entities are minted by [`Ecs::create_entity`] and live until
/// [`Ecs::destroy_entity`]; an id number is never handed out twice by the
/// same store.  Component values all have the host-chosen carrier type `C`
/// and are keyed, per entity, by the kind token that [`Component::kind`]
/// assigns them.
///
/// The store's mathematical view (`@`) is a [`Map`] from id number to that
/// entity's map from kind to component value; beside it, [`Ecs::order`]
/// gives the sequence of live id numbers in creation order (the order
/// iteration follows), and [`Ecs::counter`] the number the next created
/// entity will get.
pub struct Ecs<C> {
    next_id: u64,
    ids: Vec<u64>,
    tables: Vec<ComponentMap<C>>,
}

impl<C> View for Ecs<C> {
    type V = Map<u64, Map<Kind, C>>;

    closed spec fn view(&self) -> Map<u64, Map<Kind, C>> {
        as_map(self.ids@, table_views(self.tables@))
    }
}

impl<C: Component> Default for Ecs<C> {
    /// The empty store, as [`Ecs::new`] makes it.
    fn default() -> (r: Self)
        ensures
            r.wf(),
            r.counter() == 0,
            r.order() == Seq::<u64>::empty(),
            r@ == Map::<u64, Map<Kind, C>>::empty(),
    {
        Self::new()
    }
}

impl<C: Component> Ecs<C> {
    /// Internal shape of a valid store: one table per listed id, no id
    /// listed twice, every listed id below the counter, and every table
    /// valid in its own right.
    pub closed spec fn wf(&self) -> bool {
        &&& self.ids@.len() == self.tables@.len()
        &&& self.ids@.no_duplicates()
        &&& forall|i: int| 0 <= i < self.ids@.len() ==> self.ids@[i] < self.next_id
        &&& forall|i: int| 0 <= i < self.tables@.len() ==> (#[trigger] self.tables@[i]).wf()
    }

    /// The id number the next created entity will receive.  It only ever
    /// grows, which is why no id number is handed out twice.
    pub closed spec fn counter(&self) -> u64 {
        self.next_id
    }

    /// The id numbers of the live entities, in creation order: the order in
    /// which [`Ecs::iter`], [`Ecs::collect`] and the queries walk the store.
    pub closed spec fn order(&self) -> Seq<u64> {
        self.ids@
    }

    /// The live entities are exactly the ids of [`Ecs::order`], each listed
    /// once, and all below [`Ecs::counter`].
    pub proof fn lemma_view_order(&self)
        requires
            self.wf(),
        ensures
            self.order().no_duplicates(),
            forall|e: u64| self@.contains_key(e) <==> self.order().contains(e),
            forall|e: u64| #[trigger] self.order().contains(e) ==> e < self.counter(),
    {
        assert forall|e: u64| #[trigger] self.order().contains(e) implies e < self.counter() by {
            let i = choose|i: int| 0 <= i < self.ids@.len() && self.ids@[i] == e;
            assert(self.ids@[i] < self.next_id);
        }
    }

    /// Create a new and empty store.
    pub fn new() -> (r: Self)
        ensures
            r.wf(),
            r.counter() == 0,
            r.order() == Seq::<u64>::empty(),
            r@ == Map::<u64, Map<Kind, C>>::empty(),
    {
        let r = Ecs { next_id: 0, ids: Vec::new(), tables: Vec::new() };
        proof {
            assert(r@ =~= Map::<u64, Map<Kind, C>>::empty());
        }
        r
    }

    /// The position of the entity numbered `v`, if it is live.
    fn find_entity(&self, v: u64) -> (r: Option<usize>)
        requires
            self.wf(),
        ensures
            match r {
                Some(i) => i < self.ids@.len() && self.ids@[i as int] == v && forall|j: int|
                    0 <= j < i ==> self.ids@[j] != v,
                None => !self@.contains_key(v),
            },
    {
        let n = self.ids.len();
        let mut i: usize = 0;
        while i < n
            invariant
                i <= n,
                n == self.ids@.len(),
                forall|j: int| 0 <= j < i ==> self.ids@[j] != v,
            decreases n - i,
        {
            if self.ids[i] == v {
                return Some(i);
            }
            i += 1;
        }
        proof {
            assert(!self.ids@.contains(v));
        }
        None
    }

    /// Create a new entity with no components and return its id.
    ///
    /// The id is fresh: it names no entity the store has ever held.
    pub fn create_entity(&mut self) -> (r: EntityId)
        requires
            old(self).wf(),
            old(self).counter() < u64::MAX,
        ensures
            final(self).wf(),
            r@ == old(self).counter(),
            !old(self)@.contains_key(r@),
            final(self).counter() == old(self).counter() + 1,
            final(self).order() == old(self).order().push(r@),
            final(self)@ == old(self)@.insert(r@, Map::<Kind, C>::empty()),
    {
        let n = self.next_id;
        let id = EntityId::wrap(n);
        self.next_id = n + 1;
        proof {
            if self.ids@.contains(n) {
                let i = choose|i: int| 0 <= i < self.ids@.len() && self.ids@[i] == n;
                assert(self.ids@[i] < n);
            }
        }
        let t: ComponentMap<C> = ComponentMap::new();
        self.ids.push(n);
        self.tables.push(t);
        proof {
            assert(table_views(self.tables@) =~= table_views(old(self).tables@).push(t@));
            lemma_as_map_push(old(self).ids@, table_views(old(self).tables@), n, t@);
            assert(final(self)@ == old(self)@.insert(n, Map::<Kind, C>::empty()));
        }
        id
    }

    /// Return `true` if the entity `id` is live in the store.
    pub fn has_entity(&self, id: EntityId) -> (r: bool)
        requires
            self.wf(),
        ensures
            r == self@.contains_key(id@),
    {
        match self.find_entity(id.value()) {
            Some(i) => {
                proof {
                    lemma_as_map_at(self.ids@, table_views(self.tables@), i as int);
                }
                true
            },
            None => false,
        }
    }

    /// Destroy the entity `id`, dropping its table and every component in
    /// it; every later operation on `id` fails, and the id number is never
    /// handed out again.  Fails with the `Entity` error if `id` is not live.
    pub fn destroy_entity(&mut self, id: EntityId) -> (r: EcsResult<()>)
        requires
            old(self).wf(),
        ensures
            final(self).wf(),
            final(self).counter() == old(self).counter(),
            old(self)@.contains_key(id@) ==> r == Ok::<(), NotFound>(()) && final(self)@ == old(
                self,
            )@.remove(id@) && final(self).order() == old(self).order().remove_value(id@),
            !old(self)@.contains_key(id@) ==> r == Err::<(), NotFound>(NotFound::Entity(id))
                && *final(self) == *old(self),
    {
        match self.find_entity(id.value()) {
            Some(i) => {
                proof {
                    lemma_as_map_at(self.ids@, table_views(self.tables@), i as int);
                    lemma_as_map_remove(self.ids@, table_views(self.tables@), i as int);
                    self.ids@.index_of_first_ensures(id@);
                    match self.ids@.index_of_first(id@) {
                        Some(w) => {
                            if w < i as int {
                                assert(self.ids@[w] != id@);
                            } else if w > i as int {
                                assert(self.ids@[i as int] != id@);
                            }
                        },
                        None => {
                            assert(self.ids@.contains(id@));
                        },
                    }
                }
                self.ids.remove(i);
                self.tables.remove(i);
                proof {
                    assert(table_views(self.tables@) =~= table_views(old(self).tables@).remove(
                        i as int,
                    ));
                }
                Ok(())
            },
            None => Err(NotFound::Entity(id)),
        }
    }

    /// Attach `comp` to the entity `id` under `comp`'s own kind, replacing
    /// and returning the value of that kind the entity already had, if any.
    /// Fails with the `Entity` error if `id` is not live.
    pub fn set(&mut self, id: EntityId, comp: C) -> (r: EcsResult<Option<C>>)
        requires
            old(self).wf(),
        ensures
            final(self).wf(),
            final(self).counter() == old(self).counter(),
            final(self).order() == old(self).order(),
            old(self)@.contains_key(id@) ==> final(self)@ == old(self)@.insert(
                id@,
                old(self)@[id@].insert(comp.kind_id(), comp),
            ) && r == Ok::<Option<C>, NotFound>(
                if old(self)@[id@].contains_key(comp.kind_id()) {
                    Some(old(self)@[id@][comp.kind_id()])
                } else {
                    None
                },
            ),
            !old(self)@.contains_key(id@) ==> r == Err::<Option<C>, NotFound>(
                NotFound::Entity(id),
            ) && *final(self) == *old(self),
    {
        match self.find_entity(id.value()) {
            Some(i) => {
                proof {
                    lemma_as_map_at(self.ids@, table_views(self.tables@), i as int);
                }
                let t = &mut self.tables[i];
                let prev = t.set(comp);
                proof {
                    let tv0 = table_views(old(self).tables@);
                    assert(table_views(self.tables@) =~= tv0.update(
                        i as int,
                        self.tables@[i as int]@,
                    ));
                    lemma_as_map_update(old(self).ids@, tv0, i as int, self.tables@[i as int]@);
                }
                Ok(prev)
            },
            None => Err(NotFound::Entity(id)),
        }
    }

    /// Return a copy of the component of kind `kind` on the entity `id`.
    /// Fails with the `Entity` error if `id` is not live, and with the
    /// `Component` error if the entity holds no value of that kind.
    pub fn get(&self, id: EntityId, kind: Kind) -> (r: EcsResult<C>) where C: Copy
        requires
            self.wf(),
        ensures
            self@.contains_key(id@) && self@[id@].contains_key(kind) ==> r == Ok::<C, NotFound>(
                self@[id@][kind],
            ),
            self@.contains_key(id@) && !self@[id@].contains_key(kind) ==> r == Err::<
                C,
                NotFound,
            >(NotFound::Component(kind)),
            !self@.contains_key(id@) ==> r == Err::<C, NotFound>(NotFound::Entity(id)),
    {
        match self.find_entity(id.value()) {
            Some(i) => {
                proof {
                    lemma_as_map_at(self.ids@, table_views(self.tables@), i as int);
                }
                let t = &self.tables[i];
                t.get(kind)
            },
            None => Err(NotFound::Entity(id)),
        }
    }

    /// Return `true` if the entity `id` holds a component of kind `kind`.
    /// Fails with the `Entity` error if `id` is not live.
    pub fn has(&self, id: EntityId, kind: Kind) -> (r: EcsResult<bool>)
        requires
            self.wf(),
        ensures
            self@.contains_key(id@) ==> r == Ok::<bool, NotFound>(self@[id@].contains_key(kind)),
            !self@.contains_key(id@) ==> r == Err::<bool, NotFound>(NotFound::Entity(id)),
    {
        match self.find_entity(id.value()) {
            Some(i) => {
                proof {
                    lemma_as_map_at(self.ids@, table_views(self.tables@), i as int);
                }
                let t = &self.tables[i];
                Ok(t.contains_type_id(kind))
            },
            None => Err(NotFound::Entity(id)),
        }
    }

    /// Return `true` if the entity `id` holds a component of every kind in
    /// `filter`.  Fails with the `Entity` error if `id` is not live.
    pub fn has_all(&self, id: EntityId, filter: &ComponentFilter) -> (r: EcsResult<bool>)
        requires
            self.wf(),
            filter.wf(),
        ensures
            self@.contains_key(id@) ==> r == Ok::<bool, NotFound>(
                has_all_kinds(self@[id@], filter@),
            ),
            !self@.contains_key(id@) ==> r == Err::<bool, NotFound>(NotFound::Entity(id)),
    {
        match self.find_entity(id.value()) {
            Some(i) => {
                proof {
                    lemma_as_map_at(self.ids@, table_views(self.tables@), i as int);
                }
                let t = &self.tables[i];
                Ok(table_has_all(t, filter))
            },
            None => Err(NotFound::Entity(id)),
        }
    }

    /// Return a reference to the component of kind `kind` on the entity
    /// `id`.  Fails with the `Entity` error if `id` is not live, and with
    /// the `Component` error if the entity holds no value of that kind.
    pub fn borrow(&self, id: EntityId, kind: Kind) -> (r: EcsResult<&C>)
        requires
            self.wf(),
        ensures
            self@.contains_key(id@) && self@[id@].contains_key(kind) ==> r.is_ok() && *r.unwrap()
                == self@[id@][kind],
            self@.contains_key(id@) && !self@[id@].contains_key(kind) ==> r == Err::<
                &C,
                NotFound,
            >(NotFound::Component(kind)),
            !self@.contains_key(id@) ==> r == Err::<&C, NotFound>(NotFound::Entity(id)),
    {
        match self.find_entity(id.value()) {
            Some(i) => {
                proof {
                    lemma_as_map_at(self.ids@, table_views(self.tables@), i as int);
                }
                let t = &self.tables[i];
                t.borrow(kind)
            },
            None => Err(NotFound::Entity(id)),
        }
    }

    /// The predicate, on id numbers, "the entity's table holds every kind
    /// in `kinds`": what [`Ecs::collect_with`] selects by.
    pub open spec fn selects(&self, kinds: Set<Kind>) -> spec_fn(u64) -> bool {
        |e: u64| has_all_kinds(self@[e], kinds)
    }

    /// The predicate, on id numbers, "the entity's table holds a value of
    /// kind `k`": what [`Ecs::iter_with`] selects by.
    pub open spec fn selects_kind(&self, k: Kind) -> spec_fn(u64) -> bool {
        |e: u64| self@[e].contains_key(k)
    }

    /// The predicate, on id numbers, "the entity's table holds values of
    /// both kinds": what [`Ecs::collect_with_2`] selects by.
    pub open spec fn selects_pair(&self, k1: Kind, k2: Kind) -> spec_fn(u64) -> bool {
        |e: u64| self@[e].contains_key(k1) && self@[e].contains_key(k2)
    }

    /// The predicate, on id numbers, "the entity's table holds values of
    /// all three kinds": what [`Ecs::collect_with_3`] selects by.
    pub open spec fn selects_triple(&self, k1: Kind, k2: Kind, k3: Kind) -> spec_fn(
        u64,
    ) -> bool {
        |e: u64| self@[e].contains_key(k1) && self@[e].contains_key(k2) && self@[e].contains_key(
            k3,
        )
    }

    /// Return the id of every live entity, in creation order.
    pub fn iter(&self) -> (r: Vec<EntityId>)
        requires
            self.wf(),
        ensures
            nums_of(r@) == self.order(),
    {
        let n = self.ids.len();
        let mut r: Vec<EntityId> = Vec::new();
        let mut i: usize = 0;
        while i < n
            invariant
                i <= n,
                n == self.ids@.len(),
                r@.len() == i,
                forall|j: int| 0 <= j < i ==> (#[trigger] r@[j])@ == self.ids@[j],
            decreases n - i,
        {
            let id = EntityId::wrap(self.ids[i]);
            r.push(id);
            i += 1;
        }
        proof {
            assert(nums_of(r@) =~= self.ids@);
        }
        r
    }

    /// Replace the contents of `dest` with the id of every live entity, in
    /// creation order.  Useful for walking the store without holding a
    /// borrow of it.
    pub fn collect(&self, dest: &mut Vec<EntityId>)
        requires
            self.wf(),
        ensures
            nums_of(final(dest)@) == self.order(),
    {
        *dest = self.iter();
    }

    /// Replace the contents of `dest` with the ids of exactly the live
    /// entities that hold a component of every kind in `filter`, in
    /// creation order.  Never fails: the ids walked are the store's own.
    pub fn collect_with(&self, filter: &ComponentFilter, dest: &mut Vec<EntityId>)
        requires
            self.wf(),
            filter.wf(),
        ensures
            nums_of(final(dest)@) == self.order().filter(self.selects(filter@)),
    {
        dest.clear();
        let n = self.ids.len();
        let mut i: usize = 0;
        while i < n
            invariant
                i <= n,
                n == self.ids@.len(),
                self.wf(),
                filter.wf(),
                nums_of(dest@) == self.ids@.subrange(0, i as int).filter(self.selects(filter@)),
            decreases n - i,
        {
            proof {
                lemma_as_map_at(self.ids@, table_views(self.tables@), i as int);
                lemma_filter_push(
                    self.ids@.subrange(0, i as int),
                    self.ids@[i as int],
                    self.selects(filter@),
                );
                assert(self.ids@.subrange(0, i as int).push(self.ids@[i as int])
                    =~= self.ids@.subrange(0, i as int + 1));
            }
            let ghost d0 = dest@;
            let t = &self.tables[i];
            if table_has_all(t, filter) {
                dest.push(EntityId::wrap(self.ids[i]));
                proof {
                    assert(nums_of(dest@) =~= nums_of(d0).push(self.ids@[i as int]));
                }
            }
            i += 1;
        }
        proof {
            assert(self.ids@.subrange(0, n as int) =~= self.ids@);
        }
    }

    /// Return, in creation order, the id of every live entity holding a
    /// component of kind `kind`, paired with a copy of that component.
    pub fn iter_with(&self, kind: Kind) -> (r: Vec<(EntityId, C)>) where C: Copy
        requires
            self.wf(),
        ensures
            ({
                let picked = self.order().filter(self.selects_kind(kind));
                &&& r@.len() == picked.len()
                &&& forall|j: int|
                    0 <= j < r@.len() ==> (#[trigger] r@[j]).0@ == picked[j] && r@[j].1
                        == self@[picked[j]][kind]
            }),
    {
        let n = self.ids.len();
        let mut r: Vec<(EntityId, C)> = Vec::new();
        let mut i: usize = 0;
        while i < n
            invariant
                i <= n,
                n == self.ids@.len(),
                self.wf(),
                ({
                    let picked = self.ids@.subrange(0, i as int).filter(self.selects_kind(kind));
                    &&& r@.len() == picked.len()
                    &&& forall|j: int|
                        0 <= j < r@.len() ==> (#[trigger] r@[j]).0@ == picked[j] && r@[j].1
                            == self@[picked[j]][kind]
                }),
            decreases n - i,
        {
            proof {
                lemma_as_map_at(self.ids@, table_views(self.tables@), i as int);
                lemma_filter_push(
                    self.ids@.subrange(0, i as int),
                    self.ids@[i as int],
                    self.selects_kind(kind),
                );
                assert(self.ids@.subrange(0, i as int).push(self.ids@[i as int])
                    =~= self.ids@.subrange(0, i as int + 1));
            }
            let t = &self.tables[i];
            match t.get(kind) {
                Ok(v) => {
                    let id = EntityId::wrap(self.ids[i]);
                    r.push((id, v));
                },
                Err(_) => {},
            }
            i += 1;
        }
        proof {
            assert(self.ids@.subrange(0, n as int) =~= self.ids@);
        }
        r
    }

    /// Return, in creation order, one tuple for exactly each live entity
    /// holding components of both kinds: its id and copies of its values of
    /// `k1` and `k2`.  An entity missing either kind contributes nothing.
    pub fn collect_with_2(&self, k1: Kind, k2: Kind) -> (r: Vec<(EntityId, C, C)>) where C: Copy
        requires
            self.wf(),
        ensures
            ({
                let picked = self.order().filter(self.selects_pair(k1, k2));
                &&& r@.len() == picked.len()
                &&& forall|j: int|
                    0 <= j < r@.len() ==> (#[trigger] r@[j]).0@ == picked[j] && r@[j].1
                        == self@[picked[j]][k1] && r@[j].2 == self@[picked[j]][k2]
            }),
    {
        let n = self.ids.len();
        let mut r: Vec<(EntityId, C, C)> = Vec::new();
        let mut i: usize = 0;
        while i < n
            invariant
                i <= n,
                n == self.ids@.len(),
                self.wf(),
                ({
                    let picked = self.ids@.subrange(0, i as int).filter(
                        self.selects_pair(k1, k2),
                    );
                    &&& r@.len() == picked.len()
                    &&& forall|j: int|
                        0 <= j < r@.len() ==> (#[trigger] r@[j]).0@ == picked[j] && r@[j].1
                            == self@[picked[j]][k1] && r@[j].2 == self@[picked[j]][k2]
                }),
            decreases n - i,
        {
            proof {
                lemma_as_map_at(self.ids@, table_views(self.tables@), i as int);
                lemma_filter_push(
                    self.ids@.subrange(0, i as int),
                    self.ids@[i as int],
                    self.selects_pair(k1, k2),
                );
                assert(self.ids@.subrange(0, i as int).push(self.ids@[i as int])
                    =~= self.ids@.subrange(0, i as int + 1));
            }
            let t = &self.tables[i];
            match (t.get(k1), t.get(k2)) {
                (Ok(v1), Ok(v2)) => {
                    let id = EntityId::wrap(self.ids[i]);
                    r.push((id, v1, v2));
                },
                _ => {},
            }
            i += 1;
        }
        proof {
            assert(self.ids@.subrange(0, n as int) =~= self.ids@);
        }
        r
    }

    /// Return, in creation order, one tuple for exactly each live entity
    /// holding components of all three kinds: its id and copies of its
    /// values of `k1`, `k2` and `k3`.  An entity missing any one kind
    /// contributes nothing.
    pub fn collect_with_3(&self, k1: Kind, k2: Kind, k3: Kind) -> (r: Vec<
        (EntityId, C, C, C),
    >) where C: Copy
        requires
            self.wf(),
        ensures
            ({
                let picked = self.order().filter(self.selects_triple(k1, k2, k3));
                &&& r@.len() == picked.len()
                &&& forall|j: int|
                    0 <= j < r@.len() ==> (#[trigger] r@[j]).0@ == picked[j] && r@[j].1
                        == self@[picked[j]][k1] && r@[j].2 == self@[picked[j]][k2] && r@[j].3
                        == self@[picked[j]][k3]
            }),
    {
        let n = self.ids.len();
        let mut r: Vec<(EntityId, C, C, C)> = Vec::new();
        let mut i: usize = 0;
        while i < n
            invariant
                i <= n,
                n == self.ids@.len(),
                self.wf(),
                ({
                    let picked = self.ids@.subrange(0, i as int).filter(
                        self.selects_triple(k1, k2, k3),
                    );
                    &&& r@.len() == picked.len()
                    &&& forall|j: int|
                        0 <= j < r@.len() ==> (#[trigger] r@[j]).0@ == picked[j] && r@[j].1
                            == self@[picked[j]][k1] && r@[j].2 == self@[picked[j]][k2] && r@[j].3
                            == self@[picked[j]][k3]
                }),
            decreases n - i,
        {
            proof {
                lemma_as_map_at(self.ids@, table_views(self.tables@), i as int);
                lemma_filter_push(
                    self.ids@.subrange(0, i as int),
                    self.ids@[i as int],
                    self.selects_triple(k1, k2, k3),
                );
                assert(self.ids@.subrange(0, i as int).push(self.ids@[i as int])
                    =~= self.ids@.subrange(0, i as int + 1));
            }
            let t = &self.tables[i];
            match (t.get(k1), t.get(k2), t.get(k3)) {
                (Ok(v1), Ok(v2), Ok(v3)) => {
                    let id = EntityId::wrap(self.ids[i]);
                    r.push((id, v1, v2, v3));
                },
                _ => {},
            }
            i += 1;
        }
        proof {
            assert(self.ids@.subrange(0, n as int) =~= self.ids@);
        }
        r
    }

    /// Return every (kind, value) pair attached to the entity `id`, each
    /// kind once, in no promised order.  Fails with the `Entity` error if
    /// `id` is not live.
    pub fn iter_components(&self, id: EntityId) -> (r: EcsResult<Vec<(Kind, C)>>) where C: Copy
        requires
            self.wf(),
        ensures
            !self@.contains_key(id@) ==> r == Err::<Vec<(Kind, C)>, NotFound>(
                NotFound::Entity(id),
            ),
            self@.contains_key(id@) ==> r.is_ok(),
            self@.contains_key(id@) ==> kind_list(r.unwrap()@).no_duplicates(),
            self@.contains_key(id@) ==> forall|j: int|
                0 <= j < r.unwrap()@.len() ==> self@[id@].contains_key(
                    (#[trigger] r.unwrap()@[j]).0,
                ) && r.unwrap()@[j].1 == self@[id@][r.unwrap()@[j].0],
            self@.contains_key(id@) ==> forall|k: Kind| #[trigger]
                self@[id@].contains_key(k) ==> kind_list(r.unwrap()@).contains(k),
    {
        match self.find_entity(id.value()) {
            Some(i) => {
                proof {
                    lemma_as_map_at(self.ids@, table_views(self.tables@), i as int);
                    assert(table_views(self.tables@)[i as int] == self.tables@[i as int]@);
                }
                let t = &self.tables[i];
                Ok(t.entries())
            },
            None => Err(NotFound::Entity(id)),
        }
    }

    /// Return a mutable reference to the component of kind `kind` on the
    /// entity `id`; whatever the caller writes through it becomes that
    /// entity's value of kind `kind`.  Fails with the `Entity` error if `id`
    /// is not live, and with the `Component` error if the entity holds no
    /// value of that kind.
    pub fn borrow_mut(&mut self, id: EntityId, kind: Kind) -> (r: EcsResult<&mut C>)
        requires
            old(self).wf(),
        ensures
            final(self).wf(),
            final(self).counter() == old(self).counter(),
            final(self).order() == old(self).order(),
            old(self)@.contains_key(id@) && old(self)@[id@].contains_key(kind) ==> r.is_ok() && *r.unwrap()
                == old(self)@[id@][kind] && final(self)@ == old(self)@.insert(
                id@,
                old(self)@[id@].insert(kind, *final(r.unwrap())),
            ),
            old(self)@.contains_key(id@) && !old(self)@[id@].contains_key(kind) ==> r == Err::<
                &mut C,
                NotFound,
            >(NotFound::Component(kind)) && final(self)@ == old(self)@,
            !old(self)@.contains_key(id@) ==> r == Err::<&mut C, NotFound>(NotFound::Entity(id))
                && *final(self) == *old(self),
    {
        match self.find_entity(id.value()) {
            Some(i) => {
                proof {
                    let ids0 = self.ids@;
                    let tbl0 = self.tables@;
                    let tv0 = table_views(tbl0);
                    lemma_as_map_at(ids0, tv0, i as int);
                    assert forall|x: ComponentMap<C>| #![trigger tbl0.update(i as int, x)]
                        table_views(tbl0.update(i as int, x)) == tv0.update(i as int, x@) by {
                        assert(table_views(tbl0.update(i as int, x)) =~= tv0.update(
                            i as int,
                            x@,
                        ));
                    }
                    assert forall|x: ComponentMap<C>| #![trigger tbl0.update(i as int, x)]
                        x.wf() ==> forall|j: int|
                            0 <= j < tbl0.update(i as int, x).len() ==> (#[trigger] tbl0.update(
                                i as int,
                                x,
                            )[j]).wf() by {
                        if x.wf() {
                            assert forall|j: int|
                                0 <= j < tbl0.update(i as int, x).len() implies (
                            #[trigger] tbl0.update(i as int, x)[j]).wf() by {
                                if j != i as int {
                                    assert(tbl0[j].wf());
                                }
                            }
                        }
                    }
                    assert forall|m: Map<Kind, C>| #![trigger tv0.update(i as int, m)]
                        as_map(ids0, tv0.update(i as int, m)) == as_map(ids0, tv0).insert(
                        id@,
                        m,
                    ) by {
                        lemma_as_map_update(ids0, tv0, i as int, m);
                    }
                    assert(as_map(ids0, tv0).insert(id@, as_map(ids0, tv0)[id@]) =~= as_map(
                        ids0,
                        tv0,
                    ));
                }
                let t = &mut self.tables[i];
                t.borrow_mut(kind)
            },
            None => Err(NotFound::Entity(id)),
        }
    }
}

/// Filtering a sequence extended by one element keeps the old selection and
/// appends the new element exactly when the predicate selects it.
proof fn lemma_filter_push<A>(s: Seq<A>, x: A, pred: spec_fn(A) -> bool)
    ensures
        pred(x) ==> s.push(x).filter(pred) == s.filter(pred).push(x),
        !pred(x) ==> s.push(x).filter(pred) == s.filter(pred),
{
    reveal(Seq::filter);
    assert(s.push(x).drop_last() =~= s);
    assert(s.push(x).last() == x);
}

/// Whether the table `t` holds a value of every kind in `filter`, decided
/// kind by kind.
fn table_has_all<C: Component>(t: &ComponentMap<C>, filter: &ComponentFilter) -> (r: bool)
    requires
        t.wf(),
        filter.wf(),
    ensures
        r == has_all_kinds(t@, filter@),
{
    let ks = filter.iter();
    let n = ks.len();
    let mut i: usize = 0;
    while i < n
        invariant
            i <= n,
            n == ks@.len(),
            t.wf(),
            ks@.to_set() == filter@,
            forall|j: int| 0 <= j < i ==> t@.contains_key(ks@[j]),
        decreases n - i,
    {
        if !t.contains_type_id(ks[i]) {
            proof {
                assert(ks@.contains(ks@[i as int]));
                assert(ks@.to_set().contains(ks@[i as int]));
                assert(filter@.contains(ks@[i as int]));
            }
            return false;
        }
        i += 1;
    }
    proof {
        assert forall|k: Kind| filter@.contains(k) implies t@.contains_key(k) by {
            assert(ks@.to_set().contains(k));
            let w = choose|w: int| 0 <= w < ks@.len() && ks@[w] == k;
            assert(t@.contains_key(ks@[w]));
        }
    }
    true
}

} // verus!
