//! The physics engine's pieces as the rest of the crate sees them.
//!
//! Everything in this module is taken on trust from rapier3d: the types are
//! opaque, and the contracts state only what rapier's source shows about
//! which bodies a body set holds.
use crate::handle::{BodyHandle, ColliderHandle};
use rapier3d::dynamics::{
    CCDSolver, ImpulseJointSet, IntegrationParameters, IslandManager, MultibodyJointSet,
    RigidBody, RigidBodyHandle, RigidBodySet,
};
use rapier3d::geometry::{BroadPhaseMultiSap, Collider, ColliderSet, NarrowPhase};
use rapier3d::math::{Real, Vector};
use rapier3d::pipeline::PhysicsPipeline;
use std::num::NonZeroUsize;
use vstd::prelude::*;

verus! {

#[verifier::external_type_specification]
#[verifier::external_body]
pub struct ExRigidBodySet(RigidBodySet);

#[verifier::external_type_specification]
#[verifier::external_body]
pub struct ExColliderSet(ColliderSet);

#[verifier::external_type_specification]
#[verifier::external_body]
pub struct ExRigidBody(RigidBody);

#[verifier::external_type_specification]
#[verifier::external_body]
pub struct ExCollider(Collider);

#[verifier::external_type_specification]
#[verifier::external_body]
pub struct ExIntegrationParameters(IntegrationParameters);

#[verifier::external_type_specification]
#[verifier::external_body]
pub struct ExPhysicsPipeline(PhysicsPipeline);

#[verifier::external_type_specification]
#[verifier::external_body]
pub struct ExIslandManager(IslandManager);

#[verifier::external_type_specification]
#[verifier::external_body]
pub struct ExBroadPhaseMultiSap(BroadPhaseMultiSap);

#[verifier::external_type_specification]
#[verifier::external_body]
pub struct ExNarrowPhase(NarrowPhase);

#[verifier::external_type_specification]
#[verifier::external_body]
pub struct ExImpulseJointSet(ImpulseJointSet);

#[verifier::external_type_specification]
#[verifier::external_body]
pub struct ExMultibodyJointSet(MultibodyJointSet);

#[verifier::external_type_specification]
#[verifier::external_body]
pub struct ExCCDSolver(CCDSolver);

/// The (index, generation) pairs of the bodies that a body set holds.
pub uninterp spec fn live_bodies(s: RigidBodySet) -> Set<(u32, u32)>;

/// The (index, generation) pairs of the bodies of a body set whose type is
/// dynamic.
pub uninterp spec fn dynamic_bodies(s: RigidBodySet) -> Set<(u32, u32)>;

/// The (index, generation) pairs of the colliders that a collider set holds.
pub uninterp spec fn live_colliders(s: ColliderSet) -> Set<(u32, u32)>;

/// For each collider of a collider set that is attached to a body, that
/// body's (index, generation) pair.
pub uninterp spec fn collider_parents(s: ColliderSet) -> Map<(u32, u32), (u32, u32)>;

/// The colliders that `parents` attaches to body `b`.
pub open spec fn children_of(parents: Map<(u32, u32), (u32, u32)>, b: (u32, u32)) -> Set<(u32, u32)> {
    parents.dom().filter(|c: (u32, u32)| parents[c] == b)
}

/// Relies on `RigidBodySet::new`: a new set holds no body.
pub assume_specification[ RigidBodySet::new ]() -> (r: RigidBodySet)
    ensures
        live_bodies(r) == Set::<(u32, u32)>::empty(),
        dynamic_bodies(r) == Set::<(u32, u32)>::empty(),
;

/// Relies on `ColliderSet::new`: a new set holds no collider.
pub assume_specification[ ColliderSet::new ]() -> (r: ColliderSet)
    ensures
        live_colliders(r) == Set::<(u32, u32)>::empty(),
        collider_parents(r).dom() == Set::<(u32, u32)>::empty(),
;

/// Relies on `PhysicsPipeline::new`.
pub assume_specification[ PhysicsPipeline::new ]() -> PhysicsPipeline;

/// Relies on `IslandManager::new`.
pub assume_specification[ IslandManager::new ]() -> IslandManager;

/// Relies on `BroadPhaseMultiSap::new`.
pub assume_specification[ BroadPhaseMultiSap::new ]() -> BroadPhaseMultiSap;

/// Relies on `NarrowPhase::new`.
pub assume_specification[ NarrowPhase::new ]() -> NarrowPhase;

/// Relies on `ImpulseJointSet::new`.
pub assume_specification[ ImpulseJointSet::new ]() -> ImpulseJointSet;

/// Relies on `MultibodyJointSet::new`.
pub assume_specification[ MultibodyJointSet::new ]() -> MultibodyJointSet;

/// Relies on `CCDSolver::new`.
pub assume_specification[ CCDSolver::new ]() -> CCDSolver;

/// Gravity as the IEEE-754 single-precision bit patterns of its three
/// components, in the engine's units (metres per second squared).
#[derive(Clone, Copy, Debug, PartialEq, Eq, Structural)]
pub struct GravityBits {
    pub x: u32,
    pub y: u32,
    pub z: u32,
}

/// The integrator's settings as plain values: the timestep (seconds) and
/// the contact damping ratio as IEEE-754 single-precision bit patterns, and
/// the number of solver iterations.
#[derive(Clone, Copy, Debug, PartialEq, Eq, Structural)]
pub struct StepConfig {
    pub dt_bits: u32,
    pub solver_iterations: u32,
    pub contact_damping_ratio_bits: u32,
}

/// Relies on `IntegrationParameters::default` and three of its public
/// fields: rapier's defaults (among them a minimum island size of 128, which
/// stepping asserts to be positive) with the timestep, the solver iteration
/// count and the contact damping ratio replaced. The iteration count must be
/// positive, as rapier's `NonZeroUsize` field demands.
#[verifier::external_body]
pub(crate) fn integration_parameters(config: StepConfig) -> IntegrationParameters
    requires
        config.solver_iterations > 0,
{
    let mut params = IntegrationParameters::default();
    params.dt = Real::from_bits(config.dt_bits);
    params.num_solver_iterations = NonZeroUsize::new(config.solver_iterations as usize)
        .expect("the iteration count is positive");
    params.contact_damping_ratio = Real::from_bits(config.contact_damping_ratio_bits);
    params
}

/// Relies on `RigidBodySet::insert`: the body goes into a free arena slot,
/// so its handle names no body the set held before, and the set now holds
/// exactly one more body, dynamic or not as the body was built.
#[verifier::external_body]
pub(crate) fn insert_body(bodies: &mut RigidBodySet, rb: RigidBody) -> (h: BodyHandle)
    ensures
        !live_bodies(*old(bodies)).contains(h.parts()),
        !dynamic_bodies(*old(bodies)).contains(h.parts()),
        live_bodies(*final(bodies)) == live_bodies(*old(bodies)).insert(h.parts()),
        dynamic_bodies(*final(bodies)).remove(h.parts()) == dynamic_bodies(*old(bodies)),
{
    let (index, generation) = bodies.insert(rb).into_raw_parts();
    BodyHandle { index, generation }
}

/// Relies on `RigidBodySet::contains`: whether the set holds a body under
/// this exact index and generation.
#[verifier::external_body]
pub(crate) fn contains_body(bodies: &RigidBodySet, h: BodyHandle) -> (r: bool)
    ensures
        r == live_bodies(*bodies).contains(h.parts()),
{
    bodies.contains(RigidBodyHandle::from_raw_parts(h.index, h.generation))
}

/// Relies on `RigidBody::is_dynamic`, reached through `RigidBodySet::get`:
/// whether the set holds this body and its type is dynamic.
#[verifier::external_body]
pub(crate) fn is_dynamic_body(bodies: &RigidBodySet, h: BodyHandle) -> (r: bool)
    ensures
        r == dynamic_bodies(*bodies).contains(h.parts()),
{
    match bodies.get(RigidBodyHandle::from_raw_parts(h.index, h.generation)) {
        Some(body) => body.is_dynamic(),
        None => false,
    }
}

/// Relies on `RigidBodySet::iter`: each body of the set, once.
#[verifier::external_body]
pub(crate) fn body_handles(bodies: &RigidBodySet) -> (r: Vec<BodyHandle>)
    ensures
        forall|i: int| 0 <= i < r@.len() ==> live_bodies(*bodies).contains(#[trigger] r@[i].parts()),
        forall|p: (u32, u32)| #[trigger]
            live_bodies(*bodies).contains(p) ==> exists|i: int|
                0 <= i < r@.len() && #[trigger] r@[i].parts() == p,
        forall|i: int, j: int| 0 <= i < j < r@.len() ==> #[trigger] r@[i] != #[trigger] r@[j],
{
    bodies.iter().map(|(h, _)| {
        let (index, generation) = h.into_raw_parts();
        BodyHandle { index, generation }
    }).collect()
}

/// Relies on `RigidBodySet::remove` (with its attached colliders removed as
/// well): the body, when the set holds it, leaves the set, and the colliders
/// attached to it leave the collider set; no other body or collider leaves
/// or enters. A handle the set does not hold changes nothing.
#[verifier::external_body]
pub(crate) fn remove_body(
    bodies: &mut RigidBodySet,
    h: BodyHandle,
    islands: &mut IslandManager,
    colliders: &mut ColliderSet,
    impulse_joints: &mut ImpulseJointSet,
    multibody_joints: &mut MultibodyJointSet,
) -> (r: Option<RigidBody>)
    ensures
        r.is_some() == live_bodies(*old(bodies)).contains(h.parts()),
        live_bodies(*final(bodies)) == live_bodies(*old(bodies)).remove(h.parts()),
        dynamic_bodies(*final(bodies)) == dynamic_bodies(*old(bodies)).remove(h.parts()),
        r.is_some() ==> live_colliders(*final(colliders)) == live_colliders(*old(colliders)).difference(
            children_of(collider_parents(*old(colliders)), h.parts()),
        ),
        r.is_some() ==> collider_parents(*final(colliders)) == collider_parents(
            *old(colliders),
        ).remove_keys(children_of(collider_parents(*old(colliders)), h.parts())),
        r.is_none() ==> *final(colliders) == *old(colliders),
{
    let handle = RigidBodyHandle::from_raw_parts(h.index, h.generation);
    bodies.remove(handle, islands, colliders, impulse_joints, multibody_joints, true)
}

/// Relies on `ColliderSet::insert`: the collider goes into a free arena slot,
/// so its handle names no collider the set held before; it is attached to no
/// body.
#[verifier::external_body]
pub(crate) fn insert_collider(colliders: &mut ColliderSet, c: Collider) -> (h: ColliderHandle)
    ensures
        !live_colliders(*old(colliders)).contains(h.parts()),
        live_colliders(*final(colliders)) == live_colliders(*old(colliders)).insert(h.parts()),
        collider_parents(*final(colliders)) == collider_parents(*old(colliders)),
{
    let (index, generation) = colliders.insert(c).into_raw_parts();
    ColliderHandle { index, generation }
}

/// Relies on `ColliderSet::insert_with_parent`: the collider goes into a
/// free arena slot and is attached to the parent body, which must be in the
/// set (rapier panics otherwise); the body set gains and loses no body, and
/// no body changes type.
#[verifier::external_body]
pub(crate) fn insert_collider_with_parent(
    colliders: &mut ColliderSet,
    c: Collider,
    parent: BodyHandle,
    bodies: &mut RigidBodySet,
) -> (h: ColliderHandle)
    requires
        live_bodies(*old(bodies)).contains(parent.parts()),
    ensures
        live_bodies(*final(bodies)) == live_bodies(*old(bodies)),
        dynamic_bodies(*final(bodies)) == dynamic_bodies(*old(bodies)),
        !live_colliders(*old(colliders)).contains(h.parts()),
        live_colliders(*final(colliders)) == live_colliders(*old(colliders)).insert(h.parts()),
        collider_parents(*final(colliders)) == collider_parents(*old(colliders)).insert(
            h.parts(),
            parent.parts(),
        ),
{
    let parent = RigidBodyHandle::from_raw_parts(parent.index, parent.generation);
    let (index, generation) = colliders.insert_with_parent(c, parent, bodies).into_raw_parts();
    ColliderHandle { index, generation }
}

/// Relies on `PhysicsPipeline::step`: advances every body by one timestep of
/// the integration parameters, with no query pipeline, hooks or event
/// handler. Stepping moves bodies and wakes or puts them to sleep; it
/// inserts and removes no body or collider, changes no body's type and
/// attaches no collider anew.
///
/// The integration parameters are built by `integration_parameters`, so
/// their minimum island size is rapier's default and positive, which the
/// island manager asserts; the broad phase skips non-finite bounding boxes.
#[verifier::external_body]
pub(crate) fn step_pipeline(
    pipeline: &mut PhysicsPipeline,
    gravity: GravityBits,
    params: &IntegrationParameters,
    islands: &mut IslandManager,
    broad_phase: &mut BroadPhaseMultiSap,
    narrow_phase: &mut NarrowPhase,
    bodies: &mut RigidBodySet,
    colliders: &mut ColliderSet,
    impulse_joints: &mut ImpulseJointSet,
    multibody_joints: &mut MultibodyJointSet,
    ccd: &mut CCDSolver,
)
    ensures
        live_bodies(*final(bodies)) == live_bodies(*old(bodies)),
        dynamic_bodies(*final(bodies)) == dynamic_bodies(*old(bodies)),
        live_colliders(*final(colliders)) == live_colliders(*old(colliders)),
        collider_parents(*final(colliders)) == collider_parents(*old(colliders)),
{
    let g = Vector::new(Real::from_bits(gravity.x), Real::from_bits(gravity.y), Real::from_bits(gravity.z));
    pipeline.step(&g, params, islands, broad_phase, narrow_phase, bodies, colliders,
        impulse_joints, multibody_joints, ccd, None, &(), &());
}

} // verus!
