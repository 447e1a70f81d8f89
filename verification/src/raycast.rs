//! What a ray hits: marching a ray through the voxel world, and choosing between a voxel hit
//! and a hit on another mesh.

use vstd::prelude::*;

use crate::voxel::{Coords, Voxel, VoxelMaterial};

verus! {

/// Where a ray entered (and possibly left) what it hit.
#[derive(Clone, Copy, Debug, PartialEq, Eq, Structural)]
pub struct RayHit {
    pub entry_coords: Coords,
    pub exit_coords: Option<Coords>,
    pub hit_voxel: bool,
}

/// A ray and what it hit, if anything.
#[derive(Clone, Copy, Debug, PartialEq, Eq, Structural)]
pub struct WorldRayHit {
    pub ray_hit: Option<RayHit>,
}

impl WorldRayHit {
    /// Where the ray entered what it hit.
    pub fn coords(&self) -> (c: Option<Coords>)
        ensures
            c == match self.ray_hit {
                Some(hit) => Some(hit.entry_coords),
                None => None,
            },
    {
        match self.ray_hit {
            Some(hit) => Some(hit.entry_coords),
            None => None,
        }
    }
}

/// Whether a ray stops at a voxel: anything but air, and, when drafts are ignored, anything
/// but air or draft. Positions without a chunk count as air.
pub open spec fn spec_voxel_is_solid(voxel: Option<Voxel>, ignore_draft: bool) -> bool {
    match voxel {
        Some(v) => v.material != VoxelMaterial::Air && (!ignore_draft || v.material
            != VoxelMaterial::Draft),
        None => false,
    }
}

/// Whether a ray stops at `voxel` (see [`spec_voxel_is_solid`]).
pub fn voxel_is_solid(voxel: Option<Voxel>, ignore_draft: bool) -> (b: bool)
    ensures
        b == spec_voxel_is_solid(voxel, ignore_draft),
{
    match voxel {
        Some(v) => v.material != VoxelMaterial::Air && (!ignore_draft || v.material
            != VoxelMaterial::Draft),
        None => false,
    }
}

/// One position that a ray marches through.
#[derive(Clone, Copy, Debug, PartialEq, Eq, Structural)]
pub struct RaySample {
    /// The voxel at the ray's position.
    pub coords: Coords,
    /// Whether the ray has reached the ground (`y <= 0`).
    pub at_ground: bool,
    /// The voxel on the ground plane below the ray's position.
    pub ground_coords: Coords,
    /// Whether the voxel at `coords` stops the ray (see [`voxel_is_solid`]).
    pub solid: bool,
}

/// Where a march stands: whether it is inside solid voxels, and where it entered them.
#[derive(Clone, Copy, Debug, PartialEq, Eq, Structural)]
pub struct MarchState {
    pub inside_solid: bool,
    pub entry_coords: Option<Coords>,
}

/// What one step of a march leads to.
#[derive(Clone, Copy, Debug, PartialEq, Eq, Structural)]
pub enum MarchStep {
    Continue(MarchState),
    Hit(RayHit),
}

impl MarchState {
    /// The state before the first step: outside, nothing entered.
    pub open spec fn start() -> MarchState {
        MarchState { inside_solid: false, entry_coords: None }
    }

    /// Inside solid voxels, the march knows where it entered them.
    pub open spec fn wf(self) -> bool {
        self.inside_solid ==> self.entry_coords is Some
    }
}

/// One step of the march at `sample`.
pub open spec fn spec_march_step(state: MarchState, sample: RaySample) -> MarchStep {
    if sample.at_ground {
        if state.inside_solid && state.entry_coords is Some {
            MarchStep::Hit(
                RayHit {
                    entry_coords: state.entry_coords->Some_0,
                    exit_coords: Some(sample.ground_coords),
                    hit_voxel: true,
                },
            )
        } else {
            MarchStep::Hit(
                RayHit { entry_coords: sample.ground_coords, exit_coords: None, hit_voxel: false },
            )
        }
    } else if sample.solid && !state.inside_solid {
        MarchStep::Continue(MarchState { inside_solid: true, entry_coords: Some(sample.coords) })
    } else if !sample.solid && state.inside_solid {
        MarchStep::Hit(
            RayHit {
                entry_coords: state.entry_coords->Some_0,
                exit_coords: Some(sample.coords),
                hit_voxel: true,
            },
        )
    } else {
        MarchStep::Continue(state)
    }
}

/// What a march that ran out of samples in `state` gives.
pub open spec fn spec_march_finish(state: MarchState) -> Option<RayHit> {
    if state.inside_solid {
        Some(RayHit { entry_coords: state.entry_coords->Some_0, exit_coords: None, hit_voxel: true })
    } else {
        None
    }
}

/// What a march from `state` through the samples from index `i` on gives.
pub open spec fn march_from(samples: Seq<RaySample>, i: int, state: MarchState) -> Option<RayHit>
    decreases samples.len() - i,
{
    if i >= samples.len() || i < 0 {
        spec_march_finish(state)
    } else {
        match spec_march_step(state, samples[i]) {
            MarchStep::Hit(hit) => Some(hit),
            MarchStep::Continue(next) => march_from(samples, i + 1, next),
        }
    }
}

/// The hit of a ray that marches through the samples in order: the ground when it reaches it
/// (with where it entered solid voxels, if it was inside them), the first solid stretch it
/// leaves, a solid stretch it is still in at the end, or nothing.
pub open spec fn march(samples: Seq<RaySample>) -> Option<RayHit> {
    march_from(samples, 0, MarchState::start())
}

/// One step of a march (see [`spec_march_step`]).
pub fn march_step(state: MarchState, sample: RaySample) -> (r: MarchStep)
    requires
        state.wf(),
    ensures
        r == spec_march_step(state, sample),
        r matches MarchStep::Continue(next) ==> next.wf(),
{
    if sample.at_ground {
        match state.entry_coords {
            Some(entry_coords) if state.inside_solid => MarchStep::Hit(
                RayHit { entry_coords, exit_coords: Some(sample.ground_coords), hit_voxel: true },
            ),
            _ => MarchStep::Hit(
                RayHit { entry_coords: sample.ground_coords, exit_coords: None, hit_voxel: false },
            ),
        }
    } else if sample.solid && !state.inside_solid {
        MarchStep::Continue(MarchState { inside_solid: true, entry_coords: Some(sample.coords) })
    } else if !sample.solid && state.inside_solid {
        let entry_coords = match state.entry_coords {
            Some(c) => c,
            None => sample.coords,
        };
        MarchStep::Hit(RayHit { entry_coords, exit_coords: Some(sample.coords), hit_voxel: true })
    } else {
        MarchStep::Continue(state)
    }
}

/// What a march that ran out of samples gives (see [`spec_march_finish`]).
pub fn march_finish(state: MarchState) -> (r: Option<RayHit>)
    requires
        state.wf(),
    ensures
        r == spec_march_finish(state),
{
    if state.inside_solid {
        let entry_coords = match state.entry_coords {
            Some(c) => c,
            None => Coords(crate::math::IVec3 { x: 0, y: 0, z: 0 }),
        };
        Some(RayHit { entry_coords, exit_coords: None, hit_voxel: true })
    } else {
        None
    }
}

/// Marches a ray through the samples, in order (see [`march`]).
pub fn march_samples(samples: &Vec<RaySample>) -> (r: Option<RayHit>)
    ensures
        r == march(samples@),
{
    let mut state = MarchState { inside_solid: false, entry_coords: None };
    let mut i: usize = 0;
    while i < samples.len()
        invariant
            i <= samples.len(),
            state.wf(),
            march_from(samples@, i as int, state) == march(samples@),
        decreases samples.len() - i,
    {
        match march_step(state, samples[i]) {
            MarchStep::Hit(hit) => {
                return Some(hit);
            },
            MarchStep::Continue(next) => {
                state = next;
            },
        }
        i += 1;
    }
    march_finish(state)
}

/// Whether the ray passed, above the ground, through a solid voxel at `c`.
pub open spec fn passed_solid_at(samples: Seq<RaySample>, c: Coords) -> bool {
    exists|j: int|
        0 <= j < samples.len() && (#[trigger] samples[j]).solid && !samples[j].at_ground
            && samples[j].coords == c
}

proof fn lemma_march_from_facts(samples: Seq<RaySample>, i: int, state: MarchState)
    requires
        0 <= i,
        state.wf(),
        state.inside_solid ==> passed_solid_at(samples, state.entry_coords->Some_0),
    ensures
        match march_from(samples, i, state) {
            Some(h) => h.hit_voxel ==> passed_solid_at(samples, h.entry_coords),
            None => true,
        },
        !state.inside_solid && (forall|j: int| i <= j < samples.len() ==> !(#[trigger] samples[j]).solid)
            ==> match march_from(samples, i, state) {
            Some(h) => !h.hit_voxel,
            None => true,
        },
        !state.inside_solid && (forall|j: int|
            i <= j < samples.len() ==> !(#[trigger] samples[j]).solid && !samples[j].at_ground)
            ==> march_from(samples, i, state) is None,
    decreases samples.len() - i,
{
    if i < samples.len() {
        let smp = samples[i];
        match spec_march_step(state, smp) {
            MarchStep::Hit(_) => {},
            MarchStep::Continue(next) => {
                if smp.solid && !state.inside_solid && !smp.at_ground {
                    assert(passed_solid_at(samples, smp.coords));
                }
                lemma_march_from_facts(samples, i + 1, next);
            },
        }
    }
}

/// A ray that hits a voxel entered it at a solid voxel it passed above the ground.
pub proof fn lemma_voxel_hit_is_solid(samples: Seq<RaySample>)
    ensures
        match march(samples) {
            Some(h) => h.hit_voxel ==> passed_solid_at(samples, h.entry_coords),
            None => true,
        },
{
    lemma_march_from_facts(samples, 0, MarchState::start());
}

/// A ray that meets nothing solid hits no voxel: it hits the ground if it reaches it, and
/// nothing at all if it does not.
pub proof fn lemma_nothing_solid_no_hit(samples: Seq<RaySample>)
    ensures
        (forall|j: int| 0 <= j < samples.len() ==> !(#[trigger] samples[j]).solid) ==> match march(
            samples,
        ) {
            Some(h) => !h.hit_voxel,
            None => true,
        },
        (forall|j: int|
            0 <= j < samples.len() ==> !(#[trigger] samples[j]).solid && !samples[j].at_ground)
            ==> march(samples) is None,
{
    lemma_march_from_facts(samples, 0, MarchState::start());
}

/// The hit that a ray's hits on other meshes stand for: it enters at the first and leaves at
/// the second, if any.
pub fn mesh_hits_to_ray_hit(hit_coords: &Vec<Coords>) -> (r: Option<RayHit>)
    ensures
        hit_coords.len() == 0 ==> r is None,
        hit_coords.len() > 0 ==> r == Some(
            RayHit {
                entry_coords: hit_coords@[0],
                exit_coords: if hit_coords.len() > 1 {
                    Some(hit_coords@[1])
                } else {
                    None
                },
                hit_voxel: false,
            },
        ),
{
    if hit_coords.len() == 0 {
        return None;
    }
    let exit_coords = if hit_coords.len() > 1 {
        Some(hit_coords[1])
    } else {
        None
    };
    Some(RayHit { entry_coords: hit_coords[0], exit_coords, hit_voxel: false })
}

/// The nearer of a hit on other meshes and a voxel hit: the mesh hit when there is no voxel hit
/// or when it is strictly nearer, else the voxel hit.
pub fn nearest_hit(
    mesh_hit: Option<RayHit>,
    voxel_hit: Option<RayHit>,
    mesh_is_nearer: bool,
) -> (r: Option<RayHit>)
    ensures
        r == match (mesh_hit, voxel_hit) {
            (Some(_), Some(_)) => if mesh_is_nearer {
                mesh_hit
            } else {
                voxel_hit
            },
            (Some(_), None) => mesh_hit,
            (None, _) => voxel_hit,
        },
{
    match (mesh_hit, voxel_hit) {
        (Some(_), Some(_)) => if mesh_is_nearer {
            mesh_hit
        } else {
            voxel_hit
        },
        (Some(_), None) => mesh_hit,
        (None, _) => voxel_hit,
    }
}

} // verus!
