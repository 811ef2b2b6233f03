use recs::{ComponentFilter, Ecs, NotFound};
use std::collections::HashSet;

const AGE: u64 = 1;
const IQ: u64 = 2;
const UNUSED: u64 = 77;

#[derive(Copy, Clone, PartialEq, Debug)]
enum Persona {
    Age(u32),
    Iq(i32),
}

impl recs::Component for Persona {
    // the ghost twin of kind: never called at runtime, but the trait asks
    // every implementation to spell out that the two agree
    fn kind_id(&self) -> u64 {
        self.kind()
    }
    fn kind(&self) -> u64 {
        match self {
            Persona::Age(_) => AGE,
            Persona::Iq(_) => IQ,
        }
    }
}

#[test]
fn fresh_entity_exists_with_no_components() {
    let mut ecs: Ecs<Persona> = Ecs::new();
    let e = ecs.create_entity();
    assert!(ecs.has_entity(e));
    assert_eq!(ecs.has(e, AGE), Ok(false));
    assert_eq!(ecs.has(e, IQ), Ok(false));
    assert_eq!(ecs.has(e, UNUSED), Ok(false));
    let listed = ecs.iter_components(e).unwrap();
    assert!(listed.is_empty());
}

#[test]
fn destroyed_entity_rejects_every_operation() {
    let mut ecs: Ecs<Persona> = Ecs::new();
    let e = ecs.create_entity();
    assert_eq!(ecs.set(e, Persona::Age(40)), Ok(None));
    assert_eq!(ecs.destroy_entity(e), Ok(()));
    assert!(!ecs.has_entity(e));
    assert_eq!(ecs.destroy_entity(e), Err(NotFound::Entity(e)));
    assert_eq!(ecs.set(e, Persona::Age(1)), Err(NotFound::Entity(e)));
    assert_eq!(ecs.get(e, AGE), Err(NotFound::Entity(e)));
    assert_eq!(ecs.has(e, AGE), Err(NotFound::Entity(e)));
    let filter = ComponentFilter::new();
    assert_eq!(ecs.has_all(e, &filter), Err(NotFound::Entity(e)));
    assert_eq!(ecs.borrow(e, AGE), Err(NotFound::Entity(e)));
    assert!(ecs.borrow_mut(e, AGE) == Err(NotFound::Entity(e)));
    assert_eq!(ecs.iter_components(e), Err(NotFound::Entity(e)));
    assert_eq!(ecs.iter(), Vec::new());
}

#[test]
fn set_round_trip_and_previous_values() {
    let mut ecs: Ecs<Persona> = Ecs::new();
    let e = ecs.create_entity();
    assert_eq!(ecs.set(e, Persona::Age(22)), Ok(None));
    assert_eq!(ecs.get(e, AGE), Ok(Persona::Age(22)));
    assert_eq!(ecs.set(e, Persona::Age(23)), Ok(Some(Persona::Age(22))));
    assert_eq!(ecs.get(e, AGE), Ok(Persona::Age(23)));
    assert_eq!(ecs.set(e, Persona::Iq(75)), Ok(None));
    assert_eq!(ecs.get(e, IQ), Ok(Persona::Iq(75)));
}

#[test]
fn mutation_through_borrow_mut_is_visible() {
    let mut ecs: Ecs<Persona> = Ecs::new();
    let e = ecs.create_entity();
    assert_eq!(ecs.set(e, Persona::Iq(75)), Ok(None));
    match ecs.borrow_mut(e, IQ) {
        Ok(Persona::Iq(points)) => *points += 5,
        _ => panic!("expected an iq component"),
    }
    assert_eq!(ecs.get(e, IQ), Ok(Persona::Iq(80)));
    assert_eq!(ecs.borrow(e, IQ), Ok(&Persona::Iq(80)));
}

#[test]
fn age_iq_lifecycle() {
    let mut ecs: Ecs<Persona> = Ecs::new();
    let e = ecs.create_entity();
    assert_eq!(ecs.set(e, Persona::Age(22)), Ok(None));
    assert_eq!(ecs.set(e, Persona::Iq(75)), Ok(None));
    assert_eq!(ecs.get(e, AGE), Ok(Persona::Age(22)));
    match ecs.borrow_mut(e, IQ) {
        Ok(Persona::Iq(points)) => *points = 80,
        _ => panic!("expected an iq component"),
    }
    assert_eq!(ecs.get(e, IQ), Ok(Persona::Iq(80)));
    assert_eq!(ecs.destroy_entity(e), Ok(()));
    assert_eq!(ecs.get(e, AGE), Err(NotFound::Entity(e)));
}

#[test]
fn ids_are_never_reused() {
    let mut ecs: Ecs<Persona> = Ecs::new();
    let mut seen: HashSet<u64> = HashSet::new();
    for _ in 0..10 {
        let e = ecs.create_entity();
        assert!(seen.insert(e.value()));
        assert_eq!(ecs.destroy_entity(e), Ok(()));
    }
    assert_eq!(seen.len(), 10);
}

#[test]
fn missing_component_error() {
    let mut ecs: Ecs<Persona> = Ecs::new();
    let e = ecs.create_entity();
    assert_eq!(ecs.set(e, Persona::Age(22)), Ok(None));
    assert_eq!(ecs.get(e, IQ), Err(NotFound::Component(IQ)));
    assert_eq!(ecs.borrow(e, IQ), Err(NotFound::Component(IQ)));
    assert!(ecs.borrow_mut(e, IQ) == Err(NotFound::Component(IQ)));
    assert_eq!(ecs.has(e, IQ), Ok(false));
    let mut filter = ComponentFilter::new();
    filter.add(AGE);
    assert_eq!(ecs.has_all(e, &filter), Ok(true));
    filter.add(IQ);
    assert_eq!(ecs.has_all(e, &filter), Ok(false));
}

#[test]
fn components_listing() {
    let mut ecs: Ecs<Persona> = Ecs::new();
    let e = ecs.create_entity();
    assert_eq!(ecs.set(e, Persona::Age(22)), Ok(None));
    assert_eq!(ecs.set(e, Persona::Iq(75)), Ok(None));
    let mut listed = ecs.iter_components(e).unwrap();
    listed.sort_by_key(|p| p.0);
    assert_eq!(listed, vec![(AGE, Persona::Age(22)), (IQ, Persona::Iq(75))]);
}
