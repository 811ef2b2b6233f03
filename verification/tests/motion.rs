use recs::{ComponentFilter, Ecs, EntityId, NotFound};
use std::collections::{HashMap, HashSet};
use std::ops::Add;

const POSITION: u64 = 0;
const VELOCITY: u64 = 1;

#[derive(Copy, Clone, PartialEq, Debug)]
struct Vector2f {
    x: f32,
    y: f32,
}

impl Vector2f {
    fn new(x: f32, y: f32) -> Self {
        Vector2f { x, y }
    }
    fn new_i64(x: i64, y: i64) -> Self {
        Self::new(x as f32, y as f32)
    }
}

impl Add for Vector2f {
    type Output = Vector2f;
    fn add(self, other: Self) -> Self {
        Vector2f {
            x: self.x + other.x,
            y: self.y + other.y,
        }
    }
}

#[derive(Copy, Clone, PartialEq, Debug)]
enum Motion {
    Position(Vector2f),
    Velocity(Vector2f),
}

impl recs::Component for Motion {
    // the ghost twin of kind: never called at runtime, but the trait asks
    // every implementation to spell out that the two agree
    fn kind_id(&self) -> u64 {
        self.kind()
    }
    fn kind(&self) -> u64 {
        match self {
            Motion::Position(_) => POSITION,
            Motion::Velocity(_) => VELOCITY,
        }
    }
}

fn position_of(r: Result<Motion, NotFound>) -> Vector2f {
    match r {
        Ok(Motion::Position(v)) => v,
        _ => panic!("expected a position"),
    }
}

fn velocity_of(r: Result<Motion, NotFound>) -> Vector2f {
    match r {
        Ok(Motion::Velocity(v)) => v,
        _ => panic!("expected a velocity"),
    }
}

fn update_position(pos: &Vector2f, vel: &Vector2f) -> Vector2f {
    *pos + *vel
}

#[test]
fn test_update() {
    let a_start = Vector2f::new(1., 3.);
    let b_start = Vector2f::new(-3., 4.);
    let c_start = Vector2f::new(-0., 1.3);
    let a_vel = Vector2f::new(0., 2.);
    let b_vel = Vector2f::new(1., 9.);
    let mut ecs: Ecs<Motion> = Ecs::new();
    let a = ecs.create_entity();
    let b = ecs.create_entity();
    let c = ecs.create_entity();
    let _ = ecs.set(a, Motion::Position(a_start));
    let _ = ecs.set(a, Motion::Velocity(a_vel));
    let _ = ecs.set(b, Motion::Position(b_start));
    let _ = ecs.set(b, Motion::Velocity(b_vel));
    let _ = ecs.set(c, Motion::Position(c_start));
    let mut ids: Vec<EntityId> = Vec::new();
    ecs.collect(&mut ids);
    for id in ids {
        let p = ecs.get(id, POSITION);
        let v = ecs.get(id, VELOCITY);
        if let (Ok(Motion::Position(pos)), Ok(Motion::Velocity(vel))) = (p, v) {
            let _ = ecs.set(id, Motion::Position(update_position(&pos, &vel)));
        }
    }
    assert!(ecs.get(a, POSITION) == Ok(Motion::Position(a_start + a_vel)));
    assert!(ecs.get(b, POSITION) == Ok(Motion::Position(b_start + b_vel)));
    assert!(ecs.get(c, POSITION) == Ok(Motion::Position(c_start)));
}

#[test]
fn test_collect() {
    let count: usize = 500;
    let mut ids: Vec<EntityId> = Vec::with_capacity(count);
    let mut starts: HashMap<EntityId, Vector2f> = HashMap::with_capacity(count);
    let mut speeds: HashMap<EntityId, Vector2f> = HashMap::with_capacity(count);
    let mut system: Ecs<Motion> = Ecs::new();
    for c in 0..count {
        let i: i64 = c as i64;
        let id = system.create_entity();
        let pos = Vector2f::new_i64(4 * i - 7, -2 * i + 3);
        let vel = Vector2f::new_i64(-100 * i + 350, 500 * i - 900);
        ids.push(id);
        starts.insert(id, pos);
        speeds.insert(id, vel);
        let _ = system.set(id, Motion::Position(pos));
        let _ = system.set(id, Motion::Velocity(vel));
    }
    // check that all ids are contained within the store
    assert_eq!(
        ids.iter().cloned().collect::<HashSet<_>>(),
        system.iter().into_iter().collect::<HashSet<_>>()
    );
    let components = ComponentFilter::from_slice(&[POSITION, VELOCITY]);
    let mut to_update: Vec<EntityId> = Vec::new();
    system.collect_with(&components, &mut to_update);
    for id in to_update.iter().cloned() {
        // collect_with guarantees that all of these entities have both
        // Position and Velocity
        let pos = position_of(system.get(id, POSITION));
        let vel = velocity_of(system.get(id, VELOCITY));
        let _ = system.set(id, Motion::Position(pos + vel));
    }
    // check that all positions are properly updated
    for id in system.iter() {
        let target = starts[&id] + speeds[&id];
        assert_eq!(Ok(Motion::Position(target)), system.get(id, POSITION));
    }
}
