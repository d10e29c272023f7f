//! The live physics world and its association between bodies and entities.
use crate::engine::{
    body_handles, children_of, collider_parents, contains_body, dynamic_bodies, insert_body,
    insert_collider, insert_collider_with_parent, integration_parameters, is_dynamic_body,
    live_bodies, live_colliders, remove_body, step_pipeline, GravityBits, StepConfig,
};
use crate::handle::{lemma_key_injective, BodyHandle, ColliderHandle};
use rapier3d::dynamics::{
    CCDSolver, ImpulseJointSet, IntegrationParameters, IslandManager, MultibodyJointSet,
    RigidBody, RigidBodySet,
};
use rapier3d::geometry::{BroadPhaseMultiSap, Collider, ColliderSet, NarrowPhase};
use rapier3d::pipeline::PhysicsPipeline;
use std::collections::HashMap;
use vstd::prelude::*;

verus! {

broadcast use vstd::std_specs::hash::group_hash_axioms;

/// Why a world operation was refused.
#[derive(Clone, Copy, Debug, PartialEq, Eq, Structural)]
pub enum WorldError {
    /// Every entity identifier up to `u32::MAX` is taken.
    IdsExhausted,
    /// The entity already has a body.
    EntityBound(u32),
    /// The body already belongs to an entity.
    BodyBound(BodyHandle),
    /// The body is not in the world.
    BodyMissing(BodyHandle),
    /// The body's type is not dynamic.
    NotDynamic,
    /// The integrator was asked for zero solver iterations.
    NoSolverIterations,
}

/// The live physics world: the engine's body and collider sets with the
/// structures that stepping needs, and the association between live bodies
/// and entity identifiers, kept in both directions.
pub struct PhysicsWorld {
    bodies: RigidBodySet,
    colliders: ColliderSet,
    config: StepConfig,
    params: IntegrationParameters,
    gravity: GravityBits,
    pipeline: PhysicsPipeline,
    islands: IslandManager,
    broad_phase: BroadPhaseMultiSap,
    narrow_phase: NarrowPhase,
    impulse_joints: ImpulseJointSet,
    multibody_joints: MultibodyJointSet,
    ccd: CCDSolver,
    /// Entity of each bound body, keyed by `BodyHandle::key`.
    entity_of: HashMap<u64, u32>,
    /// Body of each bound entity.
    body_of: HashMap<u32, BodyHandle>,
}

impl PhysicsWorld {
    /// The (index, generation) pairs of the live bodies.
    pub closed spec fn live(&self) -> Set<(u32, u32)> {
        live_bodies(self.bodies)
    }

    /// The (index, generation) pairs of the live bodies whose type is dynamic.
    pub closed spec fn dynamic(&self) -> Set<(u32, u32)> {
        dynamic_bodies(self.bodies)
    }

    /// The (index, generation) pairs of the live colliders.
    pub closed spec fn colliders(&self) -> Set<(u32, u32)> {
        live_colliders(self.colliders)
    }

    /// The body that each attached collider is attached to.
    pub closed spec fn collider_parents(&self) -> Map<(u32, u32), (u32, u32)> {
        collider_parents(self.colliders)
    }

    /// The body bound to each entity.
    pub closed spec fn bindings(&self) -> Map<u32, BodyHandle> {
        self.body_of@
    }

    /// The integrator's settings that the world was made with.
    pub closed spec fn config(&self) -> StepConfig {
        self.config
    }

    /// The integration parameters that every step uses.
    pub closed spec fn params_spec(&self) -> IntegrationParameters {
        self.params
    }

    /// The configured gravity.
    pub closed spec fn gravity_spec(&self) -> GravityBits {
        self.gravity
    }

    /// The two directions of the association agree, every bound body is
    /// live, and every attached collider is live and attached to a live body.
    pub closed spec fn wf(&self) -> bool {
        &&& dynamic_bodies(self.bodies).subset_of(live_bodies(self.bodies))
        &&& forall|c: (u32, u32)| #[trigger]
            collider_parents(self.colliders).contains_key(c) ==> {
                &&& live_colliders(self.colliders).contains(c)
                &&& live_bodies(self.bodies).contains(collider_parents(self.colliders)[c])
            }
        &&& forall|id: u32| #[trigger]
            self.body_of@.contains_key(id) ==> {
                let h = self.body_of@[id];
                &&& self.entity_of@.contains_key(h.spec_key())
                &&& self.entity_of@[h.spec_key()] == id
                &&& live_bodies(self.bodies).contains(h.parts())
            }
        &&& forall|k: u64| #[trigger]
            self.entity_of@.contains_key(k) ==> {
                let id = self.entity_of@[k];
                &&& self.body_of@.contains_key(id)
                &&& self.body_of@[id].spec_key() == k
            }
    }

    /// The entity that body `h` is bound to, if any.
    pub open spec fn entity_for(&self, h: BodyHandle) -> Option<u32> {
        if exists|id: u32| #[trigger] self.bindings().contains_key(id) && self.bindings()[id] == h {
            Some(choose|id: u32| #[trigger] self.bindings().contains_key(id) && self.bindings()[id] == h)
        } else {
            None
        }
    }

    /// A bound body belongs to one entity only.
    pub proof fn lemma_bindings_injective(&self, a: u32, b: u32)
        requires
            self.wf(),
            self.bindings().contains_key(a),
            self.bindings().contains_key(b),
            self.bindings()[a] == self.bindings()[b],
        ensures
            a == b,
    {
        assert(self.body_of@.contains_key(a));
        assert(self.body_of@.contains_key(b));
    }

    /// The entity that a bound body belongs to is the one it is bound to.
    pub proof fn lemma_entity_for(&self, id: u32, h: BodyHandle)
        requires
            self.wf(),
            self.bindings().contains_key(id),
        ensures
            self.entity_for(h) == Some(id) <==> self.bindings()[id] == h,
    {
        if self.bindings()[id] == h {
            let other = choose|i: u32| #[trigger] self.bindings().contains_key(i) && self.bindings()[i] == h;
            self.lemma_bindings_injective(id, other);
        }
    }

    /// Every attached collider is live, and attached to a live body.
    pub proof fn lemma_parent_live(&self, c: (u32, u32))
        requires
            self.wf(),
            self.collider_parents().contains_key(c),
        ensures
            self.colliders().contains(c),
            self.live().contains(self.collider_parents()[c]),
    {
    }

    /// Inserting a body with its collider and then removing the body, when
    /// the body turned out not to be dynamic, leaves every view as it was.
    pub proof fn lemma_spawn_undone(w0: &PhysicsWorld, w1: &PhysicsWorld, w2: &PhysicsWorld, b: (u32, u32), c: (u32, u32))
        requires
            w0.wf(),
            !w0.live().contains(b),
            !w0.colliders().contains(c),
            w1.live() == w0.live().insert(b),
            w1.dynamic().remove(b) == w0.dynamic(),
            !w1.dynamic().contains(b),
            w1.colliders() == w0.colliders().insert(c),
            w1.collider_parents() == w0.collider_parents().insert(c, b),
            w2.live() == w1.live().remove(b),
            w2.dynamic() == w1.dynamic().remove(b),
            w2.colliders() == w1.colliders().difference(children_of(w1.collider_parents(), b)),
            w2.collider_parents() == w1.collider_parents().remove_keys(children_of(w1.collider_parents(), b)),
        ensures
            w2.live() == w0.live(),
            w2.dynamic() == w0.dynamic(),
            w2.colliders() == w0.colliders(),
            w2.collider_parents() == w0.collider_parents(),
    {
        let kids = children_of(w1.collider_parents(), b);
        assert(kids =~= set![c]) by {
            assert forall|x: (u32, u32)| kids.contains(x) implies x == c by {
                if x != c {
                    w0.lemma_parent_live(x);
                }
            }
        }
        assert forall|x: (u32, u32)| w0.collider_parents().contains_key(x) implies x != c by {
            w0.lemma_parent_live(x);
        }
        assert(w2.live() =~= w0.live());
        assert(w2.dynamic() =~= w0.dynamic());
        assert(w2.colliders() =~= w0.colliders());
        assert(w2.collider_parents() =~= w0.collider_parents());
    }

    /// Every dynamic body is live.
    pub proof fn lemma_dynamic_live(&self, p: (u32, u32))
        requires
            self.wf(),
            self.dynamic().contains(p),
        ensures
            self.live().contains(p),
    {
    }

    /// Every bound body is live.
    pub proof fn lemma_bound_live(&self, id: u32)
        requires
            self.wf(),
            self.bindings().contains_key(id),
        ensures
            self.live().contains(self.bindings()[id].parts()),
    {
        assert(self.body_of@.contains_key(id));
    }

    /// An empty world that steps with the given integrator settings (on top
    /// of rapier's defaults) and gravity. Fails when the settings ask for
    /// zero solver iterations.
    pub fn new(config: StepConfig, gravity: GravityBits) -> (res: Result<PhysicsWorld, WorldError>)
        ensures
            res is Err <==> config.solver_iterations == 0,
            res is Err ==> res == Err::<PhysicsWorld, WorldError>(WorldError::NoSolverIterations),
            res matches Ok(r) ==> r.wf(),
            res matches Ok(r) ==> r.config() == config,
            res matches Ok(r) ==> r.live() == Set::<(u32, u32)>::empty(),
            res matches Ok(r) ==> r.dynamic() == Set::<(u32, u32)>::empty(),
            res matches Ok(r) ==> r.colliders() == Set::<(u32, u32)>::empty(),
            res matches Ok(r) ==> r.collider_parents() == Map::<(u32, u32), (u32, u32)>::empty(),
            res matches Ok(r) ==> r.bindings() == Map::<u32, BodyHandle>::empty(),
            res matches Ok(r) ==> r.gravity_spec() == gravity,
    {
        if config.solver_iterations == 0 {
            return Err(WorldError::NoSolverIterations);
        }
        let colliders = ColliderSet::new();
        assert(collider_parents(colliders) =~= Map::<(u32, u32), (u32, u32)>::empty());
        Ok(PhysicsWorld {
            bodies: RigidBodySet::new(),
            colliders,
            config,
            params: integration_parameters(config),
            gravity,
            pipeline: PhysicsPipeline::new(),
            islands: IslandManager::new(),
            broad_phase: BroadPhaseMultiSap::new(),
            narrow_phase: NarrowPhase::new(),
            impulse_joints: ImpulseJointSet::new(),
            multibody_joints: MultibodyJointSet::new(),
            ccd: CCDSolver::new(),
            entity_of: HashMap::new(),
            body_of: HashMap::new(),
        })
    }

    /// Installs a static collider attached to no body, such as the ground.
    /// The collider set gains exactly that collider, under the returned
    /// handle; no body enters or leaves.
    pub fn install_static_collider(&mut self, collider: Collider) -> (r: ColliderHandle)
        requires
            old(self).wf(),
        ensures
            final(self).wf(),
            !old(self).colliders().contains(r.parts()),
            final(self).colliders() == old(self).colliders().insert(r.parts()),
            final(self).collider_parents() == old(self).collider_parents(),
            final(self).live() == old(self).live(),
            final(self).dynamic() == old(self).dynamic(),

            final(self).bindings() == old(self).bindings(),
            final(self).gravity_spec() == old(self).gravity_spec(),
            final(self).config() == old(self).config(),
            final(self).params_spec() == old(self).params_spec(),
    {
        insert_collider(&mut self.colliders, collider)
    }

    /// Inserts a body and a collider attached to it. Both are new to the
    /// world, and no entity is bound to the body yet.
    pub fn spawn_body(&mut self, body: RigidBody, collider: Collider) -> (r: (BodyHandle, ColliderHandle))
        requires
            old(self).wf(),
        ensures
            final(self).wf(),
            !old(self).live().contains(r.0.parts()),
            final(self).live() == old(self).live().insert(r.0.parts()),
            final(self).dynamic().remove(r.0.parts()) == old(self).dynamic(),
            !old(self).colliders().contains(r.1.parts()),
            final(self).colliders() == old(self).colliders().insert(r.1.parts()),
            final(self).collider_parents() == old(self).collider_parents().insert(
                r.1.parts(),
                r.0.parts(),
            ),
            final(self).bindings() == old(self).bindings(),
            final(self).gravity_spec() == old(self).gravity_spec(),
            final(self).config() == old(self).config(),
            final(self).params_spec() == old(self).params_spec(),
            final(self).entity_for(r.0) is None,
    {
        let h = insert_body(&mut self.bodies, body);
        let c = insert_collider_with_parent(&mut self.colliders, collider, h, &mut self.bodies);
        proof {
            assert forall|cc: (u32, u32)| #[trigger] collider_parents(self.colliders).contains_key(cc) implies {
                &&& live_colliders(self.colliders).contains(cc)
                &&& live_bodies(self.bodies).contains(collider_parents(self.colliders)[cc])
            } by {
                if cc != c.parts() {
                    assert(collider_parents(old(self).colliders).contains_key(cc));
                }
            }
            if self.entity_for(h) is Some {
                let id = choose|id: u32| #[trigger] self.bindings().contains_key(id) && self.bindings()[id] == h;
                assert(self.body_of@.contains_key(id));
            }
        }
        (h, c)
    }

    /// The entity bound to body `h`, if any.
    pub fn entity_of(&self, h: BodyHandle) -> (r: Option<u32>)
        requires
            self.wf(),
        ensures
            r == self.entity_for(h),
    {
        let k = h.key();
        match self.entity_of.get(&k) {
            Some(id) => {
                let id = *id;
                proof {
                    let b = self.body_of@[id];
                    lemma_key_injective(b, h);
                    assert(self.bindings().contains_key(id) && self.bindings()[id] == h);
                    let other = choose|i: u32| #[trigger] self.bindings().contains_key(i) && self.bindings()[i] == h;
                    self.lemma_bindings_injective(id, other);
                }
                Some(id)
            },
            None => {
                proof {
                    if exists|id: u32| #[trigger] self.bindings().contains_key(id) && self.bindings()[id] == h {
                        let id = choose|id: u32| #[trigger] self.bindings().contains_key(id) && self.bindings()[id] == h;
                        assert(self.body_of@.contains_key(id));
                    }
                }
                None
            },
        }
    }

    /// The body bound to entity `id`, if any.
    pub fn body_of(&self, id: u32) -> (r: Option<BodyHandle>)
        ensures
            r == (if self.bindings().contains_key(id) {
                Some(self.bindings()[id])
            } else {
                None
            }),
    {
        match self.body_of.get(&id) {
            Some(h) => Some(*h),
            None => None,
        }
    }

    /// Whether body `h` is in the world.
    pub fn is_live(&self, h: BodyHandle) -> (r: bool)
        ensures
            r == self.live().contains(h.parts()),
    {
        contains_body(&self.bodies, h)
    }

    /// Whether body `h` is in the world and its type is dynamic.
    pub fn is_dynamic(&self, h: BodyHandle) -> (r: bool)
        ensures
            r == self.dynamic().contains(h.parts()),
    {
        is_dynamic_body(&self.bodies, h)
    }

    /// The number of bound entities.
    pub fn binding_count(&self) -> (r: usize)
        ensures
            r == self.bindings().len(),
    {
        self.body_of.len()
    }

    /// Binds entity `id` to the live, unbound body `h`.
    pub fn bind(&mut self, h: BodyHandle, id: u32) -> (r: Result<(), WorldError>)
        requires
            old(self).wf(),
        ensures
            final(self).wf(),
            final(self).live() == old(self).live(),
            final(self).dynamic() == old(self).dynamic(),
            final(self).colliders() == old(self).colliders(),
            final(self).collider_parents() == old(self).collider_parents(),
            final(self).gravity_spec() == old(self).gravity_spec(),
            final(self).config() == old(self).config(),
            final(self).params_spec() == old(self).params_spec(),
            r is Ok <==> old(self).live().contains(h.parts()) && !old(self).bindings().contains_key(id)
                && old(self).entity_for(h) is None,
            r is Ok ==> final(self).bindings() == old(self).bindings().insert(id, h),
            r is Err ==> *final(self) == *old(self),
            r == Err::<(), WorldError>(WorldError::BodyMissing(h)) <==> !old(self).live().contains(h.parts()),
            r == Err::<(), WorldError>(WorldError::EntityBound(id)) <==> old(self).live().contains(h.parts())
                && old(self).bindings().contains_key(id),
            r == Err::<(), WorldError>(WorldError::BodyBound(h)) <==> old(self).live().contains(h.parts())
                && !old(self).bindings().contains_key(id) && old(self).entity_for(h) is Some,
    {
        if !contains_body(&self.bodies, h) {
            return Err(WorldError::BodyMissing(h));
        }
        if self.body_of.contains_key(&id) {
            return Err(WorldError::EntityBound(id));
        }
        if self.entity_of(h).is_some() {
            return Err(WorldError::BodyBound(h));
        }
        let k = h.key();
        self.entity_of.insert(k, id);
        self.body_of.insert(id, h);
        proof {
            assert forall|i: u32| #[trigger] self.body_of@.contains_key(i) implies {
                let b = self.body_of@[i];
                &&& self.entity_of@.contains_key(b.spec_key())
                &&& self.entity_of@[b.spec_key()] == i
                &&& live_bodies(self.bodies).contains(b.parts())
            } by {
                if i != id {
                    let b = self.body_of@[i];
                    lemma_key_injective(b, h);
                    assert(old(self).body_of@.contains_key(i));
                    if b == h {
                        assert(old(self).bindings().contains_key(i) && old(self).bindings()[i] == h);
                    }
                }
            }
            assert forall|kk: u64| #[trigger] self.entity_of@.contains_key(kk) implies {
                let i = self.entity_of@[kk];
                &&& self.body_of@.contains_key(i)
                &&& self.body_of@[i].spec_key() == kk
            } by {
                if kk != k {
                    assert(old(self).entity_of@.contains_key(kk));
                    let i = old(self).entity_of@[kk];
                    if i == id {
                        assert(old(self).body_of@.contains_key(id));
                    }
                }
            }
        }
        Ok(())
    }

    /// Removes body `b` from the world together with the colliders attached
    /// to it, waking the bodies that rested on them, and drops the body's
    /// binding. Returns the entity that the body was bound to. A body that
    /// is not in the world has no collider attached, and nothing changes.
    pub fn remove_body(&mut self, b: BodyHandle) -> (r: Option<u32>)
        requires
            old(self).wf(),
        ensures
            final(self).wf(),
            r == old(self).entity_for(b),
            final(self).live() == old(self).live().remove(b.parts()),
            final(self).dynamic() == old(self).dynamic().remove(b.parts()),
            final(self).colliders() == old(self).colliders().difference(
                children_of(old(self).collider_parents(), b.parts()),
            ),
            final(self).collider_parents() == old(self).collider_parents().remove_keys(
                children_of(old(self).collider_parents(), b.parts()),
            ),
            final(self).bindings() == (match r {
                Some(id) => old(self).bindings().remove(id),
                None => old(self).bindings(),
            }),
            final(self).gravity_spec() == old(self).gravity_spec(),
            final(self).config() == old(self).config(),
            final(self).params_spec() == old(self).params_spec(),
    {
        let r = self.entity_of(b);
        let removed = remove_body(
            &mut self.bodies,
            b,
            &mut self.islands,
            &mut self.colliders,
            &mut self.impulse_joints,
            &mut self.multibody_joints,
        );
        let k = b.key();
        match r {
            Some(id) => {
                self.entity_of.remove(&k);
                self.body_of.remove(&id);
            },
            None => {},
        }
        proof {
            let kids = children_of(collider_parents(old(self).colliders), b.parts());
            if removed.is_none() {
                assert(kids =~= Set::<(u32, u32)>::empty()) by {
                    assert forall|c: (u32, u32)| !kids.contains(c) by {
                        if kids.contains(c) {
                            assert(collider_parents(old(self).colliders).contains_key(c));
                        }
                    }
                }
                assert(live_colliders(self.colliders) =~= live_colliders(old(self).colliders).difference(kids));
                assert(collider_parents(self.colliders) =~= collider_parents(old(self).colliders).remove_keys(kids));
            }
            assert forall|c: (u32, u32)| #[trigger] collider_parents(self.colliders).contains_key(c) implies {
                &&& live_colliders(self.colliders).contains(c)
                &&& live_bodies(self.bodies).contains(collider_parents(self.colliders)[c])
            } by {
                assert(collider_parents(old(self).colliders).contains_key(c));
                assert(!kids.contains(c));
            }
            assert forall|i: u32| #[trigger] self.body_of@.contains_key(i) implies {
                let h = self.body_of@[i];
                &&& self.entity_of@.contains_key(h.spec_key())
                &&& self.entity_of@[h.spec_key()] == i
                &&& live_bodies(self.bodies).contains(h.parts())
            } by {
                let h = self.body_of@[i];
                assert(old(self).body_of@.contains_key(i));
                lemma_key_injective(h, b);
                if h == b {
                    assert(old(self).bindings().contains_key(i) && old(self).bindings()[i] == b);
                }
            }
            assert forall|kk: u64| #[trigger] self.entity_of@.contains_key(kk) implies {
                let i = self.entity_of@[kk];
                &&& self.body_of@.contains_key(i)
                &&& self.body_of@[i].spec_key() == kk
            } by {
                assert(old(self).entity_of@.contains_key(kk));
            }
        }
        r
    }

    /// Drops every binding; the bodies stay in the world.
    pub fn clear_bindings(&mut self)
        requires
            old(self).wf(),
        ensures
            final(self).wf(),
            final(self).live() == old(self).live(),
            final(self).dynamic() == old(self).dynamic(),
            final(self).colliders() == old(self).colliders(),
            final(self).collider_parents() == old(self).collider_parents(),
            final(self).bindings() == Map::<u32, BodyHandle>::empty(),
            final(self).gravity_spec() == old(self).gravity_spec(),
            final(self).config() == old(self).config(),
            final(self).params_spec() == old(self).params_spec(),
    {
        self.entity_of.clear();
        self.body_of.clear();
    }

    /// Advances every body by one fixed timestep. No body or collider enters
    /// or leaves the world, no body changes type, and the bindings stay as
    /// they were.
    pub fn step(&mut self)
        requires
            old(self).wf(),
        ensures
            final(self).wf(),
            final(self).live() == old(self).live(),
            final(self).dynamic() == old(self).dynamic(),
            final(self).colliders() == old(self).colliders(),
            final(self).collider_parents() == old(self).collider_parents(),

            final(self).bindings() == old(self).bindings(),
            final(self).gravity_spec() == old(self).gravity_spec(),
            final(self).config() == old(self).config(),
            final(self).params_spec() == old(self).params_spec(),
    {
        step_pipeline(
            &mut self.pipeline,
            self.gravity,
            &self.params,
            &mut self.islands,
            &mut self.broad_phase,
            &mut self.narrow_phase,
            &mut self.bodies,
            &mut self.colliders,
            &mut self.impulse_joints,
            &mut self.multibody_joints,
            &mut self.ccd,
        );
    }

    /// Each live, dynamic body that is bound to an entity, with that entity,
    /// once each: the bodies whose poses a tick writes back.
    pub fn dynamic_bindings(&self) -> (r: Vec<(u32, BodyHandle)>)
        requires
            self.wf(),
        ensures
            forall|i: int|
                0 <= i < r@.len() ==> {
                    &&& self.bindings().contains_key((#[trigger] r@[i]).0)
                    &&& self.bindings()[r@[i].0] == r@[i].1
                    &&& self.dynamic().contains(r@[i].1.parts())
                },
            forall|id: u32|
                #[trigger] self.bindings().contains_key(id) && self.dynamic().contains(
                    self.bindings()[id].parts(),
                ) ==> exists|i: int| 0 <= i < r@.len() && (#[trigger] r@[i]).0 == id,
            forall|i: int, j: int| 0 <= i < j < r@.len() ==> (#[trigger] r@[i]).0 != (#[trigger] r@[j]).0,
    {
        let hs = body_handles(&self.bodies);
        let mut out: Vec<(u32, BodyHandle)> = Vec::new();
        let mut i: usize = 0;
        while i < hs.len()
            invariant
                i <= hs@.len(),
                self.wf(),
                forall|a: int, b: int| 0 <= a < b < hs@.len() ==> #[trigger] hs@[a] != #[trigger] hs@[b],
                forall|k: int|
                    0 <= k < out@.len() ==> {
                        &&& self.bindings().contains_key((#[trigger] out@[k]).0)
                        &&& self.bindings()[out@[k].0] == out@[k].1
                        &&& self.dynamic().contains(out@[k].1.parts())
                        &&& exists|m: int| 0 <= m < i && hs@[m] == out@[k].1
                    },
                forall|k: int, l: int| 0 <= k < l < out@.len() ==> (#[trigger] out@[k]).1 != (#[trigger] out@[l]).1,
                forall|m: int|
                    0 <= m < i && self.dynamic().contains((#[trigger] hs@[m]).parts())
                        && self.entity_for(hs@[m]) is Some ==> exists|k: int|
                        0 <= k < out@.len() && out@[k].1 == hs@[m],
            decreases hs@.len() - i,
        {
            let h = hs[i];
            let ghost out0 = out@;
            if is_dynamic_body(&self.bodies, h) {
                match self.entity_of(h) {
                    Some(id) => {
                        proof {
                            let w = choose|w: u32| #[trigger] self.bindings().contains_key(w) && self.bindings()[w] == h;
                            assert(self.bindings().contains_key(w) && self.bindings()[w] == h);
                            assert forall|k: int| 0 <= k < out@.len() implies out@[k].1 != h by {
                                let m = choose|m: int| 0 <= m < i && hs@[m] == out@[k].1;
                                assert(hs@[m] != hs@[i as int]);
                            }
                        }
                        out.push((id, h));
                    },
                    None => {},
                }
            }
            proof {
                assert forall|m: int|
                    0 <= m < i + 1 && self.dynamic().contains((#[trigger] hs@[m]).parts())
                        && self.entity_for(hs@[m]) is Some implies exists|k: int|
                        0 <= k < out@.len() && out@[k].1 == hs@[m] by {
                    if m < i {
                        let k = choose|k: int| 0 <= k < out0.len() && out0[k].1 == hs@[m];
                        assert(out@[k] == out0[k]);
                    } else {
                        assert(out@[out@.len() - 1].1 == h);
                    }
                }
                assert forall|k: int| 0 <= k < out@.len() implies exists|m: int| 0 <= m < i + 1 && hs@[m] == (#[trigger] out@[k]).1 by {
                    if k < out0.len() {
                        assert(out@[k] == out0[k]);
                        let m = choose|m: int| 0 <= m < i && hs@[m] == out0[k].1;
                    } else {
                        assert(hs@[i as int] == out@[k].1);
                    }
                }
            }
            i += 1;
        }
        proof {
            assert forall|id: u32|
                #[trigger] self.bindings().contains_key(id) && self.dynamic().contains(
                    self.bindings()[id].parts(),
                ) implies exists|i: int| 0 <= i < out@.len() && (#[trigger] out@[i]).0 == id by {
                let h = self.bindings()[id];
                self.lemma_bound_live(id);
                let m = choose|m: int| 0 <= m < hs@.len() && #[trigger] hs@[m].parts() == h.parts();
                assert(hs@[m] == h);
                self.lemma_entity_for(id, h);
                let k = choose|k: int| 0 <= k < out@.len() && out@[k].1 == hs@[m];
                self.lemma_bindings_injective(out@[k].0, id);
            }
            assert forall|a: int, b: int| 0 <= a < b < out@.len() implies (#[trigger] out@[a]).0 != (#[trigger] out@[b]).0 by {
                if out@[a].0 == out@[b].0 {
                    assert(out@[a].1 != out@[b].1);
                }
            }
        }
        out
    }

    /// The engine's collider set.
    pub fn collider_set(&self) -> (r: &ColliderSet)
        ensures
            live_colliders(*r) == self.colliders(),
            collider_parents(*r) == self.collider_parents(),
    {
        &self.colliders
    }

    /// The engine's body set, to read poses from.
    pub fn bodies(&self) -> (r: &RigidBodySet)
        ensures
            live_bodies(*r) == self.live(),
    {
        &self.bodies
    }
}

} // verus!
