//! An in-process entity-component store.
//!
//! A [`Ecs`] owns a set of entities, each identified by an [`EntityId`] that
//! it alone can mint, and associates each entity with at most one component
//! value per component kind.  Component values all share one host-chosen
//! carrier type implementing [`Component`], which tags every value with a
//! numeric [`Kind`] token; the store keys its per-entity tables by that token,
//! so a value set under one kind can only ever be read back under that same
//! kind.  Queries select entities by the kinds they possess, either one kind
//! at a time or through a [`ComponentFilter`].

use vstd::prelude::*;

mod filter;
mod laws;
mod store;
mod table;

pub use filter::ComponentFilter;
pub use laws::{law_collect_with_2_exact, law_collect_with_3_exact, law_collect_with_exact,
    law_destroyed_entity_gone, law_fresh_entity, law_ids_never_reused, law_mutation_visible,
    law_set_then_get, law_set_twice};
pub use store::{has_all_kinds, nums_of, Ecs};
pub use table::{kind_list, ComponentMap};

verus! {

/// Numeric token identifying a component kind.
///
/// The host assigns one distinct token per component kind; the store treats
/// the token as the lookup key of the component value, so two kinds given the
/// same token are indistinguishable to it.
pub type Kind = u64;

/// Identifier of one entity in a store.
///
/// Only [`Ecs::create_entity`] can mint these, and a store never hands out
/// the same number twice, so an id uniquely names one (live or destroyed)
/// entity of the store that produced it.
#[derive(Clone, Copy, PartialEq, Eq, Hash, Debug, Structural)]
pub struct EntityId(u64);

impl View for EntityId {
    type V = u64;

    closed spec fn view(&self) -> u64 {
        self.0
    }
}

impl EntityId {
    /// Wrap a raw id number; reserved to the store, so that every id a
    /// caller can hold was minted by [`Ecs::create_entity`].
    pub(crate) fn wrap(n: u64) -> (r: EntityId)
        ensures
            r@ == n,
    {
        EntityId(n)
    }

    /// The numeric value of the id.
    pub fn value(&self) -> (n: u64)
        ensures
            n == self@,
    {
        self.0
    }
}

/// Why an operation could not reach the data it was asked for.
#[derive(PartialEq, Eq, Debug, Structural, Clone, Copy)]
pub enum NotFound {
    /// The entity does not exist in the store: it was never created there, or
    /// it has been destroyed.
    Entity(EntityId),
    /// The entity exists but holds no component of the requested kind.
    Component(Kind),
}

/// Result of a store operation that can fail with [`NotFound`].
pub type EcsResult<T> = Result<T, NotFound>;

/// Carrier of component values, implemented by the host on the type that
/// holds every component kind it wants to store (typically an enum with one
/// variant per kind).
///
/// An implementation names each value's kind token twice over: `kind_id`,
/// the token as specifications see it, and `kind`, its executable reading,
/// which must return exactly `kind_id` — the token must depend on the value
/// alone.  The store files each value under the token `kind` returns, and
/// everything it proves about which value lives under which kind speaks of
/// `kind_id`; an implementation on which the two disagree forfeits those
/// guarantees.
pub trait Component: Sized {
    /// The kind token of this value, as specifications see it.
    spec fn kind_id(&self) -> Kind;

    /// The kind token of this value.
    fn kind(&self) -> (k: Kind)
        ensures
            k == self.kind_id(),
    ;
}

} // verus!
