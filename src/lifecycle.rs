//! The lifecycle operations: spawning entities, one or many, and resetting
//! the world. Each returns the records to persist or delete, so that the
//! store and the live world change together.
use crate::handle::BodyHandle;
use crate::engine::children_of;
use crate::ids::{max_entity_id, max_id, next_entity_id, IdError};
use crate::records::{Entity, EntityPhysics};
use crate::world::{PhysicsWorld, WorldError};
use rapier3d::dynamics::RigidBody;
use rapier3d::geometry::Collider;
use vstd::prelude::*;

verus! {

/// The records that persist a newly spawned entity.
#[derive(Clone, Copy, Debug, PartialEq, Eq, Structural)]
pub struct SpawnedEntity {
    pub entity: Entity,
    pub physics: EntityPhysics,
}

impl SpawnedEntity {
    pub open spec fn id(self) -> u32 {
        self.entity.id
    }

    pub open spec fn body(self) -> BodyHandle {
        self.physics.body_spec()
    }

    pub open spec fn collider(self) -> (u32, u32) {
        self.physics.collider_spec().parts()
    }
}

/// Some record of `records` names body `b`.
pub open spec fn names_body(records: Seq<EntityPhysics>, b: (u32, u32)) -> bool {
    exists|k: int| 0 <= k < records.len() && (#[trigger] records[k]).body_spec().parts() == b
}

/// Spawns one entity: allocates the identifier after the largest in
/// `existing_ids`, inserts the body with its collider, and binds the two.
/// Nothing changes when the identifier cannot be had or is already bound;
/// a body that is not dynamic is taken out again, and the world then holds
/// the same bodies, colliders and bindings as before.
pub fn spawn_entity(
    world: &mut PhysicsWorld,
    existing_ids: &Vec<u32>,
    body: RigidBody,
    collider: Collider,
) -> (r: Result<SpawnedEntity, WorldError>)
    requires
        old(world).wf(),
    ensures
        final(world).wf(),
        final(world).gravity_spec() == old(world).gravity_spec(),
        final(world).config() == old(world).config(),
        final(world).params_spec() == old(world).params_spec(),
        r is Ok ==> max_id(existing_ids@) < u32::MAX && !old(world).bindings().contains_key(
            (max_id(existing_ids@) + 1) as u32,
        ),
        max_id(existing_ids@) < u32::MAX && !old(world).bindings().contains_key(
            (max_id(existing_ids@) + 1) as u32,
        ) ==> r is Ok || r == Err::<SpawnedEntity, WorldError>(WorldError::NotDynamic),
        r == Err::<SpawnedEntity, WorldError>(WorldError::IdsExhausted) <==> max_id(existing_ids@)
            == u32::MAX,
        max_id(existing_ids@) < u32::MAX ==> (r == Err::<SpawnedEntity, WorldError>(
            WorldError::EntityBound((max_id(existing_ids@) + 1) as u32),
        ) <==> old(world).bindings().contains_key((max_id(existing_ids@) + 1) as u32)),
        r matches Err(e) ==> e is IdsExhausted || e is EntityBound || e is NotDynamic,
        r matches Err(e) && !(e is NotDynamic) ==> *final(world) == *old(world),
        r is Err ==> {
            &&& final(world).live() == old(world).live()
            &&& final(world).dynamic() == old(world).dynamic()
            &&& final(world).colliders() == old(world).colliders()
            &&& final(world).collider_parents() == old(world).collider_parents()
            &&& final(world).bindings() == old(world).bindings()
        },
        r matches Ok(s) ==> {
            &&& s.id() == max_id(existing_ids@) + 1
            &&& s.physics.entity_id == s.id()
            &&& !old(world).live().contains(s.body().parts())
            &&& final(world).live() == old(world).live().insert(s.body().parts())
            &&& final(world).dynamic() == old(world).dynamic().insert(s.body().parts())
            &&& !old(world).colliders().contains(s.collider())
            &&& final(world).colliders() == old(world).colliders().insert(s.collider())
            &&& final(world).collider_parents() == old(world).collider_parents().insert(
                s.collider(),
                s.body().parts(),
            )
            &&& final(world).bindings() == old(world).bindings().insert(s.id(), s.body())
            &&& forall|h: BodyHandle| #[trigger]
                final(world).entity_for(h) == Some(s.id()) <==> h == s.body()
        },
{
    let id = match next_entity_id(existing_ids) {
        Ok(id) => id,
        Err(IdError::Exhausted) => {
            return Err(WorldError::IdsExhausted);
        },
    };
    if world.body_of(id).is_some() {
        return Err(WorldError::EntityBound(id));
    }
    let ghost w0 = *world;
    let (b, c) = world.spawn_body(body, collider);
    if !world.is_dynamic(b) {
        let ghost w1 = *world;
        let _ = world.remove_body(b);
        proof {
            PhysicsWorld::lemma_spawn_undone(&w0, &w1, world, b.parts(), c.parts());
        }
        return Err(WorldError::NotDynamic);
    }
    // The body is new to the world and the identifier is free, so the
    // binding is proved to succeed; the error arm is never taken.
    match world.bind(b, id) {
        Ok(()) => {},
        Err(e) => {
            return Err(e);
        },
    }
    let physics = EntityPhysics::new(id, b, c);
    proof {
        assert(world.dynamic() =~= w0.dynamic().insert(b.parts()));
        assert forall|h: BodyHandle| #[trigger]
            world.entity_for(h) == Some(id) <==> h == b by {
            world.lemma_entity_for(id, h);
        }
    }
    Ok(SpawnedEntity { entity: Entity { id }, physics })
}

/// `w` is `w0` with the spawns `out[lo..hi]` added: the k-th of them holds
/// identifier `first + k`, a new dynamic body and a new collider attached
/// to it, and the two are bound.
pub open spec fn batch_grown(
    w: PhysicsWorld,
    w0: PhysicsWorld,
    out: Seq<SpawnedEntity>,
    lo: int,
    hi: int,
    first: int,
) -> bool {
    &&& w.wf()
    &&& w.gravity_spec() == w0.gravity_spec()
    &&& w.config() == w0.config()
    &&& w.params_spec() == w0.params_spec()
    &&& 0 <= lo <= hi <= out.len()
    &&& forall|k: int|
        lo <= k < hi ==> {
            &&& (#[trigger] out[k]).id() == first + k
            &&& out[k].physics.entity_id == out[k].id()
            &&& !w0.live().contains(out[k].body().parts())
            &&& !w0.colliders().contains(out[k].collider())
            &&& !w0.bindings().contains_key(out[k].id())
            &&& w.bindings().contains_key(out[k].id())
            &&& w.bindings()[out[k].id()] == out[k].body()
            &&& w.collider_parents().contains_key(out[k].collider())
            &&& w.collider_parents()[out[k].collider()] == out[k].body().parts()
        }
    &&& forall|k: int, l: int|
        lo <= k < l < hi ==> (#[trigger] out[k]).body() != (#[trigger] out[l]).body()
            && out[k].collider() != out[l].collider()
    &&& forall|p: (u32, u32)| #[trigger]
        w.live().contains(p) <==> w0.live().contains(p) || exists|k: int|
            lo <= k < hi && (#[trigger] out[k]).body().parts() == p
    &&& forall|p: (u32, u32)| #[trigger]
        w.dynamic().contains(p) <==> w0.dynamic().contains(p) || exists|k: int|
            lo <= k < hi && (#[trigger] out[k]).body().parts() == p
    &&& forall|c: (u32, u32)| #[trigger]
        w.colliders().contains(c) <==> w0.colliders().contains(c) || exists|k: int|
            lo <= k < hi && (#[trigger] out[k]).collider() == c
    &&& forall|c: (u32, u32)| #[trigger]
        w.collider_parents().contains_key(c) <==> w0.collider_parents().contains_key(c) || exists|k: int|
            lo <= k < hi && (#[trigger] out[k]).collider() == c
    &&& forall|c: (u32, u32)| #[trigger]
        w0.collider_parents().contains_key(c) ==> w.collider_parents()[c] == w0.collider_parents()[c]
    &&& forall|id: u32| #[trigger]
        w.bindings().contains_key(id) <==> w0.bindings().contains_key(id) || first + lo <= id < first + hi
    &&& forall|id: u32| #[trigger]
        w0.bindings().contains_key(id) ==> w.bindings()[id] == w0.bindings()[id]
}

/// Takes the spawns `out[lo..hi]` back out of the world, which then holds
/// the same bodies, colliders and bindings as `w0`.
fn undo_batch(
    world: &mut PhysicsWorld,
    out: &Vec<SpawnedEntity>,
    Ghost(w0): Ghost<PhysicsWorld>,
    Ghost(first): Ghost<int>,
    lo: usize,
    hi: usize,
)
    requires
        w0.wf(),
        batch_grown(*old(world), w0, out@, lo as int, hi as int, first),
    ensures
        final(world).wf(),
        final(world).gravity_spec() == w0.gravity_spec(),
        final(world).config() == w0.config(),
        final(world).params_spec() == w0.params_spec(),
        final(world).live() == w0.live(),
        final(world).dynamic() == w0.dynamic(),
        final(world).colliders() == w0.colliders(),
        final(world).collider_parents() == w0.collider_parents(),
        final(world).bindings() == w0.bindings(),
{
    let mut j: usize = lo;
    while j < hi
        invariant
            w0.wf(),
            lo <= j <= hi,
            batch_grown(*world, w0, out@, j as int, hi as int, first),
        decreases hi - j,
    {
        let ghost w = *world;
        let ghost s = out@[j as int];
        let b = out[j].physics.body();
        proof {
            w.lemma_entity_for(s.id(), b);
            let kids = children_of(w.collider_parents(), b.parts());
            assert(kids =~= set![s.collider()]) by {
                assert forall|x: (u32, u32)| kids.contains(x) implies x == s.collider() by {
                    if w0.collider_parents().contains_key(x) {
                        w0.lemma_parent_live(x);
                    } else {
                        let k = choose|k: int| j <= k < hi && (#[trigger] out@[k]).collider() == x;
                        if k != j {
                            assert(out@[k].body() != out@[j as int].body());
                        }
                    }
                }
            }
        }
        let _ = world.remove_body(b);
        proof {
            let o = out@;
            assert forall|k: int| j + 1 <= k < hi implies #[trigger] o[k].body() != s.body()
                && o[k].collider() != s.collider() by {
                assert(o[j as int].body() != o[k].body());
            }
            assert forall|p: (u32, u32)| #[trigger]
                world.live().contains(p) <==> w0.live().contains(p) || exists|k: int|
                    j + 1 <= k < hi && (#[trigger] o[k]).body().parts() == p by {
                if w.live().contains(p) && p != s.body().parts() && !w0.live().contains(p) {
                    let k = choose|k: int| j <= k < hi && (#[trigger] o[k]).body().parts() == p;
                }
                if exists|k: int| j + 1 <= k < hi && (#[trigger] o[k]).body().parts() == p {
                    let k = choose|k: int| j + 1 <= k < hi && (#[trigger] o[k]).body().parts() == p;
                    assert(w.live().contains(p));
                }
            }
            assert forall|p: (u32, u32)| #[trigger]
                world.dynamic().contains(p) <==> w0.dynamic().contains(p) || exists|k: int|
                    j + 1 <= k < hi && (#[trigger] o[k]).body().parts() == p by {
                if w.dynamic().contains(p) && p != s.body().parts() && !w0.dynamic().contains(p) {
                    let k = choose|k: int| j <= k < hi && (#[trigger] o[k]).body().parts() == p;
                }
                if exists|k: int| j + 1 <= k < hi && (#[trigger] o[k]).body().parts() == p {
                    let k = choose|k: int| j + 1 <= k < hi && (#[trigger] o[k]).body().parts() == p;
                    assert(w.dynamic().contains(p));
                }
                if w0.dynamic().contains(p) {
                    w0.lemma_dynamic_live(p);
                }
            }
            assert forall|c: (u32, u32)| #[trigger]
                world.colliders().contains(c) <==> w0.colliders().contains(c) || exists|k: int|
                    j + 1 <= k < hi && (#[trigger] o[k]).collider() == c by {
                if w.colliders().contains(c) && c != s.collider() && !w0.colliders().contains(c) {
                    let k = choose|k: int| j <= k < hi && (#[trigger] o[k]).collider() == c;
                }
                if exists|k: int| j + 1 <= k < hi && (#[trigger] o[k]).collider() == c {
                    let k = choose|k: int| j + 1 <= k < hi && (#[trigger] o[k]).collider() == c;
                    assert(w.colliders().contains(c));
                }
            }
            assert forall|c: (u32, u32)| #[trigger]
                world.collider_parents().contains_key(c) <==> w0.collider_parents().contains_key(c)
                    || exists|k: int| j + 1 <= k < hi && (#[trigger] o[k]).collider() == c by {
                if w.collider_parents().contains_key(c) && c != s.collider()
                    && !w0.collider_parents().contains_key(c) {
                    let k = choose|k: int| j <= k < hi && (#[trigger] o[k]).collider() == c;
                }
                if exists|k: int| j + 1 <= k < hi && (#[trigger] o[k]).collider() == c {
                    let k = choose|k: int| j + 1 <= k < hi && (#[trigger] o[k]).collider() == c;
                    assert(w.collider_parents().contains_key(c));
                }
                if w0.collider_parents().contains_key(c) {
                    w0.lemma_parent_live(c);
                    assert(w.collider_parents().contains_key(c));
                }
            }
            assert forall|c: (u32, u32)| #[trigger]
                w0.collider_parents().contains_key(c) implies world.collider_parents()[c]
                    == w0.collider_parents()[c] by {
                w0.lemma_parent_live(c);
            }
            assert forall|id: u32| #[trigger]
                world.bindings().contains_key(id) <==> w0.bindings().contains_key(id) || first + j + 1
                    <= id < first + hi by {
            }
            assert forall|k: int|
                j + 1 <= k < hi implies {
                    &&& (#[trigger] o[k]).id() == first + k
                    &&& o[k].physics.entity_id == o[k].id()
                    &&& !w0.live().contains(o[k].body().parts())
                    &&& !w0.colliders().contains(o[k].collider())
                    &&& !w0.bindings().contains_key(o[k].id())
                    &&& world.bindings().contains_key(o[k].id())
                    &&& world.bindings()[o[k].id()] == o[k].body()
                    &&& world.collider_parents().contains_key(o[k].collider())
                    &&& world.collider_parents()[o[k].collider()] == o[k].body().parts()
                } by {
                assert(w.collider_parents()[o[k].collider()] == o[k].body().parts());
            }
        }
        j += 1;
    }
}

/// Spawns one entity for each (body, collider) pair of `items`, in order,
/// with the identifiers that follow the largest in `existing_ids`. Either
/// all are spawned or none is: when those identifiers cannot all be had or
/// one is already bound, nothing changes; when a body is not dynamic, the
/// ones already spawned are taken out again, and the world then holds the
/// same bodies, colliders and bindings as before.
pub fn spawn_batch(
    world: &mut PhysicsWorld,
    existing_ids: &Vec<u32>,
    items: Vec<(RigidBody, Collider)>,
) -> (r: Result<Vec<SpawnedEntity>, WorldError>)
    requires
        old(world).wf(),
    ensures
        final(world).wf(),
        final(world).gravity_spec() == old(world).gravity_spec(),
        final(world).config() == old(world).config(),
        final(world).params_spec() == old(world).params_spec(),
        r is Ok ==> max_id(existing_ids@) + items@.len() <= u32::MAX,
        max_id(existing_ids@) + items@.len() <= u32::MAX && (forall|j: int|
            0 <= j < items@.len() ==> !#[trigger] old(world).bindings().contains_key(
                (max_id(existing_ids@) + 1 + j) as u32,
            )) ==> r is Ok || r == Err::<Vec<SpawnedEntity>, WorldError>(WorldError::NotDynamic),
        r == Err::<Vec<SpawnedEntity>, WorldError>(WorldError::IdsExhausted) <==> max_id(
            existing_ids@,
        ) + items@.len() > u32::MAX,
        r matches Err(WorldError::EntityBound(id)) ==> {
            &&& max_id(existing_ids@) < id <= max_id(existing_ids@) + items@.len()
            &&& old(world).bindings().contains_key(id)
            &&& forall|k: u32|
                max_id(existing_ids@) < k < id ==> !#[trigger] old(world).bindings().contains_key(k)
        },
        r matches Err(e) ==> e is IdsExhausted || e is EntityBound || e is NotDynamic,
        r matches Err(e) && !(e is NotDynamic) ==> *final(world) == *old(world),
        r is Err ==> {
            &&& final(world).live() == old(world).live()
            &&& final(world).dynamic() == old(world).dynamic()
            &&& final(world).colliders() == old(world).colliders()
            &&& final(world).collider_parents() == old(world).collider_parents()
            &&& final(world).bindings() == old(world).bindings()
        },
        r matches Ok(v) ==> v@.len() == items@.len() && batch_grown(
            *final(world),
            *old(world),
            v@,
            0,
            v@.len() as int,
            (max_id(existing_ids@) + 1) as int,
        ),
{
    let ghost w0 = *world;
    let ghost items0 = items@;
    let max = max_entity_id(existing_ids);
    let n = items.len();
    if n as u64 > u32::MAX as u64 - max as u64 {
        return Err(WorldError::IdsExhausted);
    }
    let first = max as u64 + 1;
    let mut j: usize = 0;
    while j < n
        invariant
            j <= n,
            n == items0.len(),
            max == max_id(existing_ids@),
            first == max + 1,
            max + n <= u32::MAX,
            *world == w0,
            w0 == *old(world),
            w0.wf(),
            items@ == items0,
            forall|k: int| 0 <= k < j ==> !#[trigger] w0.bindings().contains_key(
                (first + k) as u32,
            ),
            forall|k: u32| max < k < first + j ==> !#[trigger] w0.bindings().contains_key(k),
        decreases n - j,
    {
        let id = (first + j as u64) as u32;
        if world.body_of(id).is_some() {
            assert(w0.bindings().contains_key((max_id(existing_ids@) + 1 + j) as u32));
            return Err(WorldError::EntityBound(id));
        }
        assert forall|k: u32| max < k < first + j + 1 implies !#[trigger] w0.bindings().contains_key(k) by {
            if k < first + j {
            } else {
                assert(k == id);
            }
        }
        j += 1;
    }
    let mut out: Vec<SpawnedEntity> = Vec::new();
    let mut rest = items;
    let mut i: usize = 0;
    while i < n
        invariant
            i <= n,
            n == items0.len(),
            items0 == items@,
            max == max_id(existing_ids@),
            first == max + 1,
            max + n <= u32::MAX,
            rest@ == items0.subrange(i as int, n as int),
            out@.len() == i,
            w0 == *old(world),
            w0.wf(),
            forall|k: u32| max < k < first + n ==> !#[trigger] w0.bindings().contains_key(k),
            batch_grown(*world, w0, out@, 0, i as int, first as int),
        decreases n - i,
    {
        let (body, collider) = rest.remove(0);
        let id = (first + i as u64) as u32;
        let ghost before = *world;
        assert(!before.bindings().contains_key(id));
        let (b, c) = world.spawn_body(body, collider);
        if !world.is_dynamic(b) {
            let ghost w1 = *world;
            let _ = world.remove_body(b);
            proof {
                PhysicsWorld::lemma_spawn_undone(&before, &w1, world, b.parts(), c.parts());
                let o = out@;
                assert forall|k: int| 0 <= k < i implies {
                    &&& world.bindings().contains_key((#[trigger] o[k]).id())
                    &&& world.bindings()[o[k].id()] == o[k].body()
                    &&& world.collider_parents().contains_key(o[k].collider())
                    &&& world.collider_parents()[o[k].collider()] == o[k].body().parts()
                } by {
                    assert(before.bindings().contains_key(o[k].id()));
                    assert(before.collider_parents().contains_key(o[k].collider()));
                }
                assert(batch_grown(*world, w0, out@, 0, i as int, first as int));
            }
            undo_batch(world, &out, Ghost(w0), Ghost(first as int), 0, i);
            return Err(WorldError::NotDynamic);
        }
        // The body is new to the world and the identifier is free, so the
        // binding is proved to succeed; the error arm is never taken.
        match world.bind(b, id) {
            Ok(()) => {},
            Err(e) => {
                return Err(e);
            },
        }
        let physics = EntityPhysics::new(id, b, c);
        let ghost o0 = out@;
        out.push(SpawnedEntity { entity: Entity { id }, physics });
        proof {
            let o = out@;
            let s = o[i as int];
            assert forall|k: int| 0 <= k < i implies o[k] == o0[k] by {}
            assert(!w0.live().contains(b.parts())) by {
                if w0.live().contains(b.parts()) {
                    assert(before.live().contains(b.parts()));
                }
            }
            assert(!w0.colliders().contains(c.parts())) by {
                if w0.colliders().contains(c.parts()) {
                    assert(before.colliders().contains(c.parts()));
                }
            }
            assert(world.dynamic() =~= before.dynamic().insert(b.parts()));
            assert forall|k: int| 0 <= k < i implies (#[trigger] o[k]).body() != b && o[k].collider() != c.parts() by {
                assert(before.live().contains(o0[k].body().parts()));
                assert(before.colliders().contains(o0[k].collider()));
            }
            assert forall|k: int|
                0 <= k < i + 1 implies {
                    &&& (#[trigger] o[k]).id() == first + k
                    &&& o[k].physics.entity_id == o[k].id()
                    &&& !w0.live().contains(o[k].body().parts())
                    &&& !w0.colliders().contains(o[k].collider())
                    &&& !w0.bindings().contains_key(o[k].id())
                    &&& world.bindings().contains_key(o[k].id())
                    &&& world.bindings()[o[k].id()] == o[k].body()
                    &&& world.collider_parents().contains_key(o[k].collider())
                    &&& world.collider_parents()[o[k].collider()] == o[k].body().parts()
                } by {
                if k < i {
                    assert(before.bindings().contains_key(o0[k].id()));
                    assert(before.collider_parents().contains_key(o0[k].collider()));
                }
            }
            assert forall|k: int, l: int|
                0 <= k < l < i + 1 implies (#[trigger] o[k]).body() != (#[trigger] o[l]).body()
                    && o[k].collider() != o[l].collider() by {
                if l < i {
                    assert(o0[k].body() != o0[l].body());
                }
            }
            assert forall|p: (u32, u32)| #[trigger]
                world.live().contains(p) <==> w0.live().contains(p) || exists|k: int|
                    0 <= k < i + 1 && (#[trigger] o[k]).body().parts() == p by {
                if before.live().contains(p) && !w0.live().contains(p) {
                    let k = choose|k: int| 0 <= k < i && (#[trigger] o0[k]).body().parts() == p;
                    assert(o[k] == o0[k]);
                }
                if p == b.parts() {
                    assert(o[i as int].body().parts() == p);
                }
                if exists|k: int| 0 <= k < i + 1 && (#[trigger] o[k]).body().parts() == p {
                    let k = choose|k: int| 0 <= k < i + 1 && (#[trigger] o[k]).body().parts() == p;
                    if k < i {
                        assert(o0[k].body().parts() == p);
                    }
                }
            }
            assert forall|p: (u32, u32)| #[trigger]
                world.dynamic().contains(p) <==> w0.dynamic().contains(p) || exists|k: int|
                    0 <= k < i + 1 && (#[trigger] o[k]).body().parts() == p by {
                if before.dynamic().contains(p) && !w0.dynamic().contains(p) {
                    let k = choose|k: int| 0 <= k < i && (#[trigger] o0[k]).body().parts() == p;
                    assert(o[k] == o0[k]);
                }
                if p == b.parts() {
                    assert(o[i as int].body().parts() == p);
                }
                if exists|k: int| 0 <= k < i + 1 && (#[trigger] o[k]).body().parts() == p {
                    let k = choose|k: int| 0 <= k < i + 1 && (#[trigger] o[k]).body().parts() == p;
                    if k < i {
                        assert(o0[k].body().parts() == p);
                    }
                }
            }
            assert forall|cc: (u32, u32)| #[trigger]
                world.colliders().contains(cc) <==> w0.colliders().contains(cc) || exists|k: int|
                    0 <= k < i + 1 && (#[trigger] o[k]).collider() == cc by {
                if before.colliders().contains(cc) && !w0.colliders().contains(cc) {
                    let k = choose|k: int| 0 <= k < i && (#[trigger] o0[k]).collider() == cc;
                    assert(o[k] == o0[k]);
                }
                if cc == c.parts() {
                    assert(o[i as int].collider() == cc);
                }
                if exists|k: int| 0 <= k < i + 1 && (#[trigger] o[k]).collider() == cc {
                    let k = choose|k: int| 0 <= k < i + 1 && (#[trigger] o[k]).collider() == cc;
                    if k < i {
                        assert(o0[k].collider() == cc);
                    }
                }
            }
            assert forall|cc: (u32, u32)| #[trigger]
                world.collider_parents().contains_key(cc) <==> w0.collider_parents().contains_key(cc)
                    || exists|k: int| 0 <= k < i + 1 && (#[trigger] o[k]).collider() == cc by {
                if before.collider_parents().contains_key(cc) && !w0.collider_parents().contains_key(cc) {
                    let k = choose|k: int| 0 <= k < i && (#[trigger] o0[k]).collider() == cc;
                    assert(o[k] == o0[k]);
                }
                if cc == c.parts() {
                    assert(o[i as int].collider() == cc);
                }
                if exists|k: int| 0 <= k < i + 1 && (#[trigger] o[k]).collider() == cc {
                    let k = choose|k: int| 0 <= k < i + 1 && (#[trigger] o[k]).collider() == cc;
                    if k < i {
                        assert(o0[k].collider() == cc);
                    }
                }
            }
            assert forall|cc: (u32, u32)| #[trigger]
                w0.collider_parents().contains_key(cc) implies world.collider_parents()[cc]
                    == w0.collider_parents()[cc] by {
                w0.lemma_parent_live(cc);
                assert(before.collider_parents().contains_key(cc));
            }
            assert forall|x: u32| #[trigger]
                w0.bindings().contains_key(x) implies world.bindings()[x] == w0.bindings()[x] by {
                assert(before.bindings().contains_key(x));
            }
            assert(batch_grown(*world, w0, out@, 0, i as int + 1, first as int));
        }
        i += 1;
    }
    Ok(out)
}

/// Resets the world: removes the body and collider of every record, and
/// drops every binding. Returns the entity identifiers of the records, in
/// order, whose rows are to be deleted.
pub fn reset(world: &mut PhysicsWorld, records: &Vec<EntityPhysics>) -> (r: Vec<u32>)
    requires
        old(world).wf(),
    ensures
        final(world).wf(),
        final(world).gravity_spec() == old(world).gravity_spec(),
        final(world).config() == old(world).config(),
        final(world).params_spec() == old(world).params_spec(),
        final(world).bindings() == Map::<u32, BodyHandle>::empty(),
        r@.len() == records@.len(),
        forall|i: int| 0 <= i < records@.len() ==> r@[i] == (#[trigger] records@[i]).entity_id,
        forall|p: (u32, u32)| #[trigger]
            final(world).live().contains(p) <==> old(world).live().contains(p) && forall|i: int|
                0 <= i < records@.len() ==> (#[trigger] records@[i]).body_spec().parts() != p,
        forall|c: (u32, u32)| #[trigger]
            final(world).colliders().contains(c) <==> old(world).colliders().contains(c) && !(
            old(world).collider_parents().contains_key(c) && names_body(
                records@,
                old(world).collider_parents()[c],
            )),
{
    let ghost w0 = *world;
    let mut ids: Vec<u32> = Vec::new();
    let mut i: usize = 0;
    while i < records.len()
        invariant
            i <= records@.len(),
            world.wf(),
            world.gravity_spec() == w0.gravity_spec(),
            world.config() == w0.config(),
            world.params_spec() == w0.params_spec(),
            ids@.len() == i,
            forall|k: int| 0 <= k < i ==> ids@[k] == (#[trigger] records@[k]).entity_id,
            forall|p: (u32, u32)| #[trigger]
                world.live().contains(p) <==> w0.live().contains(p) && forall|k: int|
                    0 <= k < i ==> (#[trigger] records@[k]).body_spec().parts() != p,
            forall|c: (u32, u32)| #[trigger]
                world.colliders().contains(c) <==> w0.colliders().contains(c) && !(
                w0.collider_parents().contains_key(c) && names_body(
                    records@.take(i as int),
                    w0.collider_parents()[c],
                )),
            forall|c: (u32, u32)| #[trigger]
                world.collider_parents().contains_key(c) <==> w0.collider_parents().contains_key(c)
                    && !names_body(records@.take(i as int), w0.collider_parents()[c]),
            forall|c: (u32, u32)| #[trigger]
                world.collider_parents().contains_key(c) ==> world.collider_parents()[c]
                    == w0.collider_parents()[c],
        decreases records@.len() - i,
    {
        let record = &records[i];
        let ghost before = *world;
        let _ = world.remove_body(record.body());
        ids.push(record.entity_id);
        proof {
            let b = record.body_spec().parts();
            let prev = records@.take(i as int);
            let next = records@.take(i as int + 1);
            assert forall|q: (u32, u32)| names_body(next, q) <==> names_body(prev, q) || q == b by {
                if names_body(prev, q) {
                    let k = choose|k: int| 0 <= k < prev.len() && (#[trigger] prev[k]).body_spec().parts() == q;
                    assert(next[k] == prev[k]);
                }
                if q == b {
                    assert(next[i as int] == *record);
                }
                if names_body(next, q) {
                    let k = choose|k: int| 0 <= k < next.len() && (#[trigger] next[k]).body_spec().parts() == q;
                    if k < i {
                        assert(prev[k] == next[k]);
                    } else {
                        assert(next[k] == *record);
                    }
                }
            }
            assert forall|c: (u32, u32)| #[trigger]
                world.collider_parents().contains_key(c) <==> w0.collider_parents().contains_key(c)
                    && !names_body(next, w0.collider_parents()[c]) by {
                if w0.collider_parents().contains_key(c) && !names_body(next, w0.collider_parents()[c]) {
                    assert(before.collider_parents().contains_key(c));
                }
            }
            assert forall|c: (u32, u32)| #[trigger]
                world.colliders().contains(c) <==> w0.colliders().contains(c) && !(
                w0.collider_parents().contains_key(c) && names_body(next, w0.collider_parents()[c])) by {
                if w0.colliders().contains(c) && !(
                w0.collider_parents().contains_key(c) && names_body(next, w0.collider_parents()[c])) {
                    assert(before.colliders().contains(c));
                    if before.collider_parents().contains_key(c) {
                        assert(before.collider_parents()[c] != b);
                    }
                }
                if world.colliders().contains(c) {
                    assert(before.colliders().contains(c));
                    if w0.collider_parents().contains_key(c) && !names_body(prev, w0.collider_parents()[c]) {
                        assert(before.collider_parents().contains_key(c));
                    }
                }
            }
            assert forall|p: (u32, u32)| #[trigger]
                world.live().contains(p) <==> w0.live().contains(p) && forall|k: int|
                    0 <= k < i + 1 ==> (#[trigger] records@[k]).body_spec().parts() != p by {
                if w0.live().contains(p) && forall|k: int|
                    0 <= k < i + 1 ==> (#[trigger] records@[k]).body_spec().parts() != p {
                    assert(before.live().contains(p));
                }
                if world.live().contains(p) {
                    assert(before.live().contains(p));
                    assert forall|k: int| 0 <= k < i + 1 implies (#[trigger] records@[k]).body_spec().parts()
                        != p by {
                        if k == i {
                            assert(records@[k] == *record);
                        }
                    }
                }
            }
        }
        i += 1;
    }
    world.clear_bindings();
    assert(records@.take(records@.len() as int) == records@);
    ids
}

} // verus!
