use recs::{ComponentFilter, Ecs, EntityId};

const A: u64 = 0;
const B: u64 = 1;
const C: u64 = 2;

#[derive(Copy, Clone, PartialEq, Debug)]
enum Tag {
    A(u8),
    B(u8),
    C(u8),
}

impl recs::Component for Tag {
    // the ghost twin of kind: never called at runtime, but the trait asks
    // every implementation to spell out that the two agree
    fn kind_id(&self) -> u64 {
        self.kind()
    }
    fn kind(&self) -> u64 {
        match self {
            Tag::A(_) => A,
            Tag::B(_) => B,
            Tag::C(_) => C,
        }
    }
}

#[test]
fn collect_with_selects_exactly_and_replaces() {
    let mut ecs: Ecs<Tag> = Ecs::new();
    let e1 = ecs.create_entity();
    let e2 = ecs.create_entity();
    let e3 = ecs.create_entity();
    let e4 = ecs.create_entity();
    let gone = ecs.create_entity();
    let _ = ecs.set(e1, Tag::A(1));
    let _ = ecs.set(e1, Tag::B(1));
    let _ = ecs.set(e2, Tag::A(2));
    let _ = ecs.set(e3, Tag::A(3));
    let _ = ecs.set(e3, Tag::B(3));
    let _ = ecs.set(gone, Tag::A(9));
    let _ = ecs.set(gone, Tag::B(9));
    assert_eq!(ecs.destroy_entity(gone), Ok(()));
    let filter = ComponentFilter::from_slice(&[A, B]);
    // dest starts with junk, which collect_with must fully replace
    let mut dest: Vec<EntityId> = vec![e4, e4, e4];
    ecs.collect_with(&filter, &mut dest);
    assert_eq!(dest, vec![e1, e3]);
    for id in dest.iter().cloned() {
        assert_eq!(ecs.has_all(id, &filter), Ok(true));
    }
    // collect also fully replaces its destination
    let mut all: Vec<EntityId> = vec![e1, e1, e1, e1, e1];
    ecs.collect(&mut all);
    assert_eq!(all, vec![e1, e2, e3, e4]);
}

#[test]
fn joins_exclude_entities_missing_any_kind() {
    let mut ecs: Ecs<Tag> = Ecs::new();
    let e1 = ecs.create_entity();
    let e2 = ecs.create_entity();
    let e3 = ecs.create_entity();
    let e4 = ecs.create_entity();
    let _ = ecs.set(e1, Tag::A(11));
    let _ = ecs.set(e1, Tag::B(12));
    let _ = ecs.set(e1, Tag::C(13));
    let _ = ecs.set(e2, Tag::A(21));
    let _ = ecs.set(e2, Tag::B(22));
    let _ = ecs.set(e3, Tag::B(32));
    let _ = ecs.set(e3, Tag::C(33));
    let _ = ecs.set(e4, Tag::A(41));
    let _ = ecs.set(e4, Tag::B(42));
    let _ = ecs.set(e4, Tag::C(43));
    let pairs = ecs.collect_with_2(A, B);
    assert_eq!(
        pairs,
        vec![
            (e1, Tag::A(11), Tag::B(12)),
            (e2, Tag::A(21), Tag::B(22)),
            (e4, Tag::A(41), Tag::B(42)),
        ]
    );
    let triples = ecs.collect_with_3(A, B, C);
    assert_eq!(
        triples,
        vec![
            (e1, Tag::A(11), Tag::B(12), Tag::C(13)),
            (e4, Tag::A(41), Tag::B(42), Tag::C(43)),
        ]
    );
}

#[test]
fn iter_with_pairs_ids_with_their_components() {
    let mut ecs: Ecs<Tag> = Ecs::new();
    let e1 = ecs.create_entity();
    let e2 = ecs.create_entity();
    let e3 = ecs.create_entity();
    let _ = ecs.set(e1, Tag::B(10));
    let _ = ecs.set(e2, Tag::A(20));
    let _ = ecs.set(e3, Tag::B(30));
    let with_b = ecs.iter_with(B);
    assert_eq!(with_b, vec![(e1, Tag::B(10)), (e3, Tag::B(30))]);
    let with_c = ecs.iter_with(C);
    assert_eq!(with_c, Vec::new());
}
