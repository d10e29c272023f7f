use physics_sync::engine::{GravityBits, StepConfig};
use physics_sync::handle::{BodyHandle, ColliderHandle};
use physics_sync::ids::{max_entity_id, next_entity_id, IdError};
use physics_sync::lifecycle::{reset, spawn_batch, spawn_entity, SpawnedEntity};
use physics_sync::records::EntityPhysics;
use physics_sync::world::{PhysicsWorld, WorldError};
use rand::{Rng, SeedableRng};
use rapier3d::dynamics::{RigidBody, RigidBodyBuilder, RigidBodyHandle};
use rapier3d::geometry::{Collider, ColliderBuilder};
use rapier3d::math::Vector;

const SPAWN_HEIGHT: f32 = 10.0;
const EXPLOSION_SPEED: f32 = 20.0;

fn config() -> StepConfig {
    StepConfig {
        dt_bits: (16.0f32 / 1000.0).to_bits(),
        solver_iterations: 10,
        contact_damping_ratio_bits: 0.0f32.to_bits(),
    }
}

fn gravity() -> GravityBits {
    GravityBits { x: 0.0f32.to_bits(), y: (-9.81f32).to_bits(), z: 0.0f32.to_bits() }
}

fn new_world() -> PhysicsWorld {
    new_world_with_ground().0
}

fn new_world_with_ground() -> (PhysicsWorld, ColliderHandle) {
    let mut w = PhysicsWorld::new(config(), gravity()).unwrap();
    let g = w.install_static_collider(ColliderBuilder::cuboid(100.0, 0.1, 100.0).build());
    (w, g)
}

fn engine_collider(c: ColliderHandle) -> rapier3d::geometry::ColliderHandle {
    let (i, g) = c.into_raw_parts();
    rapier3d::geometry::ColliderHandle::from_raw_parts(i, g)
}

fn ball(x: f32, z: f32) -> (RigidBody, Collider) {
    let body = RigidBodyBuilder::dynamic()
        .translation(Vector::new(x, SPAWN_HEIGHT, z))
        .build();
    let collider = ColliderBuilder::ball(1.0).restitution(0.7).build();
    (body, collider)
}

fn exploding_ball(dir: Vector<f32>) -> (RigidBody, Collider) {
    let body = RigidBodyBuilder::dynamic()
        .translation(Vector::new(0.0, 1.0, 0.0))
        .linvel(dir.normalize() * EXPLOSION_SPEED)
        .build();
    let collider = ColliderBuilder::ball(0.2).restitution(0.7).density(1.0).build();
    (body, collider)
}

fn spawn_ball(w: &mut PhysicsWorld, ids: &mut Vec<u32>, x: f32, z: f32) -> SpawnedEntity {
    let (b, c) = ball(x, z);
    let s = spawn_entity(w, ids, b, c).unwrap();
    ids.push(s.entity.id);
    s
}

fn rapier_handle(h: BodyHandle) -> RigidBodyHandle {
    let (i, g) = h.into_raw_parts();
    RigidBodyHandle::from_raw_parts(i, g)
}

fn translation(w: &PhysicsWorld, h: BodyHandle) -> Vector<f32> {
    *w.bodies().get(rapier_handle(h)).unwrap().translation()
}

#[test]
fn body_handle_round_trip() {
    let h = BodyHandle { index: 7, generation: 3 };
    let (i, g) = h.into_raw_parts();
    assert_eq!((i, g), (7, 3));
    assert_eq!(BodyHandle::from_raw_parts(i, g), h);
    let c = ColliderHandle { index: u32::MAX, generation: 0 };
    let (ci, cg) = c.into_raw_parts();
    assert_eq!(ColliderHandle::from_raw_parts(ci, cg), c);
}

#[test]
fn body_handle_keys_are_distinct() {
    let a = BodyHandle { index: 1, generation: 2 };
    let b = BodyHandle { index: 2, generation: 1 };
    assert_eq!(a.key(), (1u64 << 32) + 2);
    assert_ne!(a.key(), b.key());
    assert_eq!(BodyHandle { index: u32::MAX, generation: u32::MAX }.key(), u64::MAX);
}

#[test]
fn engine_handles_round_trip() {
    let mut w = new_world();
    let mut ids = Vec::new();
    let s = spawn_ball(&mut w, &mut ids, 0.0, 0.0);
    let rh = rapier_handle(s.physics.body());
    let (i, g) = rh.into_raw_parts();
    assert_eq!(BodyHandle::from_raw_parts(i, g), s.physics.body());
    assert!(w.bodies().contains(rh));
}

#[test]
fn first_id_is_one() {
    assert_eq!(next_entity_id(&Vec::new()), Ok(1));
    assert_eq!(max_entity_id(&Vec::new()), 0);
}

#[test]
fn next_id_follows_the_largest() {
    assert_eq!(next_entity_id(&vec![4, 9, 2]), Ok(10));
    assert_eq!(max_entity_id(&vec![4, 9, 2]), 9);
    assert_eq!(next_entity_id(&vec![0]), Ok(1));
}

#[test]
fn next_id_exhausted() {
    assert_eq!(next_entity_id(&vec![3, u32::MAX]), Err(IdError::Exhausted));
}

#[test]
fn spawn_binds_exactly_one_body() {
    let mut w = new_world();
    let ids = vec![3, 5];
    let (b, c) = ball(1.0, 2.0);
    let s = spawn_entity(&mut w, &ids, b, c).unwrap();
    assert_eq!(s.entity.id, 6);
    assert_eq!(s.physics.entity_id, 6);
    let h = s.physics.body();
    assert_eq!(w.body_of(6), Some(h));
    assert_eq!(w.entity_of(h), Some(6));
    assert!(w.is_live(h));
    assert_eq!(w.binding_count(), 1);
    assert_eq!(w.bodies().len(), 1);
    let t = translation(&w, h);
    assert_eq!((t.x, t.y, t.z), (1.0, SPAWN_HEIGHT, 2.0));
}

#[test]
fn spawn_twice_gives_consecutive_ids() {
    let mut w = new_world();
    let mut ids = Vec::new();
    let a = spawn_ball(&mut w, &mut ids, 0.0, 0.0);
    let b = spawn_ball(&mut w, &mut ids, 0.0, 0.0);
    assert_eq!(a.entity.id, 1);
    assert_eq!(b.entity.id, 2);
    assert_ne!(a.physics.body(), b.physics.body());
    assert_eq!(w.binding_count(), 2);
}

#[test]
fn spawn_refuses_a_bound_id() {
    let mut w = new_world();
    let a = spawn_ball(&mut w, &mut Vec::new(), 0.0, 0.0);
    assert_eq!(a.entity.id, 1);
    let (b, c) = ball(0.0, 0.0);
    assert_eq!(spawn_entity(&mut w, &Vec::new(), b, c), Err(WorldError::EntityBound(1)));
    assert_eq!(w.bodies().len(), 1);
    assert_eq!(w.binding_count(), 1);
}

#[test]
fn spawn_refuses_when_ids_are_exhausted() {
    let mut w = new_world();
    let (b, c) = ball(0.0, 0.0);
    assert_eq!(spawn_entity(&mut w, &vec![u32::MAX], b, c), Err(WorldError::IdsExhausted));
    assert_eq!(w.bodies().len(), 0);
    assert_eq!(w.binding_count(), 0);
}

#[test]
fn batch_of_a_thousand() {
    let mut w = new_world();
    let mut rng = rand::rngs::StdRng::seed_from_u64(42);
    let mut items = Vec::new();
    for _ in 0..1000 {
        let d = Vector::new(
            rng.gen::<f32>() * 2.0 - 1.0,
            rng.gen::<f32>() * 2.0 - 1.0,
            rng.gen::<f32>() * 2.0 - 1.0,
        );
        items.push(exploding_ball(d));
    }
    let spawned = spawn_batch(&mut w, &vec![4], items).unwrap();
    assert_eq!(spawned.len(), 1000);
    assert_eq!(w.binding_count(), 1000);
    assert_eq!(w.bodies().len(), 1000);
    let mut seen = std::collections::HashSet::new();
    for (i, s) in spawned.iter().enumerate() {
        assert_eq!(s.entity.id, 5 + i as u32);
        assert!(seen.insert(s.entity.id));
        let body = w.bodies().get(rapier_handle(s.physics.body())).unwrap();
        let speed = body.linvel().norm();
        assert!((speed - EXPLOSION_SPEED).abs() < 1e-3, "speed {}", speed);
    }
}

#[test]
fn batch_is_all_or_nothing() {
    let mut w = new_world();
    let first = spawn_ball(&mut w, &mut Vec::new(), 0.0, 0.0);
    assert_eq!(first.entity.id, 1);
    let items = vec![ball(0.0, 0.0), ball(1.0, 0.0)];
    assert_eq!(spawn_batch(&mut w, &Vec::new(), items), Err(WorldError::EntityBound(1)));
    assert_eq!(w.bodies().len(), 1);
    assert_eq!(w.binding_count(), 1);
    let items = vec![ball(0.0, 0.0), ball(1.0, 0.0)];
    assert_eq!(
        spawn_batch(&mut w, &vec![u32::MAX - 1], items),
        Err(WorldError::IdsExhausted)
    );
    assert_eq!(w.bodies().len(), 1);
}

#[test]
fn empty_batch_spawns_nothing() {
    let mut w = new_world();
    assert_eq!(spawn_batch(&mut w, &vec![u32::MAX], Vec::new()), Ok(Vec::new()));
    assert_eq!(w.binding_count(), 0);
}

#[test]
fn reset_removes_everything() {
    let mut w = new_world();
    let mut ids = Vec::new();
    let records: Vec<EntityPhysics> = (0..3)
        .map(|i| spawn_ball(&mut w, &mut ids, i as f32 * 3.0, 0.0).physics)
        .collect();
    w.step();
    let removed = reset(&mut w, &records);
    assert_eq!(removed, vec![1, 2, 3]);
    assert_eq!(w.binding_count(), 0);
    assert_eq!(w.bodies().len(), 0);
    for r in &records {
        assert!(!w.is_live(r.body()));
        assert_eq!(w.entity_of(r.body()), None);
    }
}

#[test]
fn reset_skips_stale_handles() {
    let mut w = new_world();
    let mut ids = Vec::new();
    let a = spawn_ball(&mut w, &mut ids, 0.0, 0.0);
    assert_eq!(w.remove_body(a.physics.body()), Some(1));
    let removed = reset(&mut w, &vec![a.physics]);
    assert_eq!(removed, vec![1]);
    assert_eq!(w.binding_count(), 0);
    assert_eq!(w.remove_body(a.physics.body()), None);
}

#[test]
fn removed_slot_gets_a_new_generation() {
    let mut w = new_world();
    let mut ids = Vec::new();
    let a = spawn_ball(&mut w, &mut ids, 0.0, 0.0);
    w.remove_body(a.physics.body());
    let b = spawn_ball(&mut w, &mut ids, 0.0, 0.0);
    assert_ne!(a.physics.body(), b.physics.body());
    assert!(!w.is_live(a.physics.body()));
    assert_eq!(w.entity_of(a.physics.body()), None);
    assert_eq!(w.entity_of(b.physics.body()), Some(b.entity.id));
}

#[test]
fn bind_refusals() {
    let mut w = new_world();
    let mut ids = Vec::new();
    let a = spawn_ball(&mut w, &mut ids, 0.0, 0.0);
    let stale = BodyHandle { index: 99, generation: 0 };
    assert_eq!(w.bind(stale, 50), Err(WorldError::BodyMissing(stale)));
    assert_eq!(w.bind(a.physics.body(), 50), Err(WorldError::BodyBound(a.physics.body())));
    let (b, c) = ball(0.0, 0.0);
    let (h, _) = w.spawn_body(b, c);
    assert_eq!(w.entity_of(h), None);
    assert_eq!(w.bind(h, 1), Err(WorldError::EntityBound(1)));
    assert_eq!(w.bind(h, 2), Ok(()));
    assert_eq!(w.entity_of(h), Some(2));
}

#[test]
fn tick_drops_the_ball_onto_the_ground() {
    let mut w = new_world();
    let s = spawn_ball(&mut w, &mut Vec::new(), 0.0, 0.0);
    let h = s.physics.body();
    w.step();
    let y1 = translation(&w, h).y;
    assert!(y1 < SPAWN_HEIGHT);
    let mut lowest = y1;
    for _ in 0..600 {
        w.step();
        lowest = lowest.min(translation(&w, h).y);
    }
    // The ground's top face is at y = 0.1 and the ball's radius is 1.0:
    // the ball never passes through the ground, and comes to rest on it.
    assert!(lowest > 0.1, "lowest {}", lowest);
    let settled = translation(&w, h).y;
    assert!(settled > 1.1 - 0.05 && settled < 1.1 + 0.05, "settled {}", settled);
    assert_eq!(w.entity_of(h), Some(1));
}

#[test]
fn fixed_steps_are_deterministic() {
    let run = || {
        let mut w = new_world();
        let mut ids = Vec::new();
        let hs: Vec<BodyHandle> = (0..4)
            .map(|i| spawn_ball(&mut w, &mut ids, i as f32 * 0.5, 0.0).physics.body())
            .collect();
        for _ in 0..120 {
            w.step();
        }
        hs.iter().map(|h| translation(&w, *h)).collect::<Vec<_>>()
    };
    assert_eq!(run(), run());
}

#[test]
fn ticks_at_rest_write_the_same_pose() {
    let mut w = new_world();
    let s = spawn_ball(&mut w, &mut Vec::new(), 0.0, 0.0);
    for _ in 0..2000 {
        w.step();
    }
    let h = s.physics.body();
    assert!(w.bodies().get(rapier_handle(h)).unwrap().is_sleeping());
    let a = translation(&w, h);
    w.step();
    let b = translation(&w, h);
    assert_eq!(a, b);
}

#[test]
fn ground_is_installed_unattached() {
    let (w, g) = new_world_with_ground();
    let ground = w.collider_set().get(engine_collider(g)).unwrap();
    assert!(ground.parent().is_none());
    assert_eq!(w.collider_set().len(), 1);
    assert_eq!(w.bodies().len(), 0);
}

#[test]
fn spawned_collider_is_attached_to_its_body() {
    let (mut w, g) = new_world_with_ground();
    let s = spawn_ball(&mut w, &mut Vec::new(), 0.0, 0.0);
    let c = s.physics.collider();
    assert_ne!(c, g);
    let attached = w.collider_set().get(engine_collider(c)).unwrap();
    assert_eq!(attached.parent(), Some(rapier_handle(s.physics.body())));
    assert_eq!(w.collider_set().len(), 2);
}

#[test]
fn reset_removes_record_colliders_and_keeps_the_ground() {
    let (mut w, g) = new_world_with_ground();
    let mut ids = Vec::new();
    let records: Vec<EntityPhysics> = (0..3)
        .map(|i| spawn_ball(&mut w, &mut ids, i as f32 * 3.0, 0.0).physics)
        .collect();
    assert_eq!(w.collider_set().len(), 4);
    reset(&mut w, &records);
    assert_eq!(w.collider_set().len(), 1);
    assert!(w.collider_set().get(engine_collider(g)).is_some());
    for r in &records {
        assert!(w.collider_set().get(engine_collider(r.collider())).is_none());
    }
}

#[test]
fn stale_record_naming_the_ground_removes_nothing() {
    let (mut w, g) = new_world_with_ground();
    let a = spawn_ball(&mut w, &mut Vec::new(), 0.0, 0.0);
    let stale = EntityPhysics::new(9, BodyHandle { index: 42, generation: 7 }, g);
    let removed = reset(&mut w, &vec![stale]);
    assert_eq!(removed, vec![9]);
    assert!(w.collider_set().get(engine_collider(g)).is_some());
    assert!(w.is_live(a.physics.body()));
    assert_eq!(w.collider_set().len(), 2);
    assert_eq!(w.binding_count(), 0);
}

#[test]
fn dynamic_bindings_lists_bound_dynamic_bodies_once() {
    let mut w = new_world();
    let mut ids = Vec::new();
    let a = spawn_ball(&mut w, &mut ids, 0.0, 0.0);
    let b = spawn_ball(&mut w, &mut ids, 5.0, 0.0);
    let fixed = RigidBodyBuilder::fixed().translation(Vector::new(0.0, 3.0, 9.0)).build();
    let (f, _) = w.spawn_body(fixed, ColliderBuilder::ball(1.0).build());
    assert_eq!(w.bind(f, 3), Ok(()));
    assert!(!w.is_dynamic(f));
    let (loose, _) = ball(9.0, 9.0);
    w.spawn_body(loose, ColliderBuilder::ball(1.0).build());
    let mut got = w.dynamic_bindings();
    got.sort_by_key(|p| p.0);
    assert_eq!(got, vec![(1, a.physics.body()), (2, b.physics.body())]);
    w.step();
    let mut again = w.dynamic_bindings();
    again.sort_by_key(|p| p.0);
    assert_eq!(again, got);
}

#[test]
fn zero_solver_iterations_is_refused() {
    let mut c = config();
    c.solver_iterations = 0;
    assert!(matches!(PhysicsWorld::new(c, gravity()), Err(WorldError::NoSolverIterations)));
}

#[test]
fn spawn_refuses_a_fixed_body() {
    let (mut w, g) = new_world_with_ground();
    let a = spawn_ball(&mut w, &mut Vec::new(), 0.0, 0.0);
    let fixed = RigidBodyBuilder::fixed().build();
    let r = spawn_entity(&mut w, &vec![1], fixed, ColliderBuilder::ball(1.0).build());
    assert_eq!(r, Err(WorldError::NotDynamic));
    assert_eq!(w.bodies().len(), 1);
    assert_eq!(w.collider_set().len(), 2);
    assert_eq!(w.binding_count(), 1);
    assert!(w.is_dynamic(a.physics.body()));
    assert!(w.collider_set().get(engine_collider(g)).is_some());
    let b = spawn_ball(&mut w, &mut vec![1], 0.0, 0.0);
    assert_eq!(b.entity.id, 2);
}

#[test]
fn batch_with_a_fixed_body_spawns_nothing() {
    let (mut w, g) = new_world_with_ground();
    let a = spawn_ball(&mut w, &mut Vec::new(), 0.0, 0.0);
    let items = vec![
        ball(1.0, 0.0),
        ball(2.0, 0.0),
        (RigidBodyBuilder::fixed().build(), ColliderBuilder::ball(1.0).build()),
        ball(3.0, 0.0),
    ];
    assert_eq!(spawn_batch(&mut w, &vec![1], items), Err(WorldError::NotDynamic));
    assert_eq!(w.bodies().len(), 1);
    assert_eq!(w.collider_set().len(), 2);
    assert_eq!(w.binding_count(), 1);
    assert_eq!(w.body_of(2), None);
    assert_eq!(w.body_of(1), Some(a.physics.body()));
    assert!(w.collider_set().get(engine_collider(g)).is_some());
}

#[test]
fn spawned_bodies_are_dynamic() {
    let mut w = new_world();
    let s = spawn_ball(&mut w, &mut Vec::new(), 0.0, 0.0);
    assert!(w.is_dynamic(s.physics.body()));
    let v = spawn_batch(&mut w, &vec![1], vec![ball(1.0, 1.0), ball(2.0, 2.0)]).unwrap();
    for e in &v {
        assert!(w.is_dynamic(e.physics.body()));
    }
    assert_eq!(w.dynamic_bindings().len(), 3);
}
