//! The scene a new world starts with: five shapes in a row along the x axis, one metre apart.

use vstd::prelude::*;

use crate::math::IVec3;

use super::{Coords, VoxelsPerMeter};

verus! {

/// Asks for the start scene to be built (again).
#[derive(Clone, Copy, Debug, PartialEq, Eq, Structural)]
pub struct RecreateStartScene;

/// The shapes of the start scene.
#[derive(Clone, Copy, Debug, PartialEq, Eq, Structural)]
pub enum SceneShape {
    OriginalSphere,
    PerlinlikeNoiseSphere,
    Torus,
    FractalTerrain,
    SpiralStaircase,
}

/// Where one shape of the start scene is drawn: the voxel update around `center` that reaches
/// `distance_voxels` along each axis.
#[derive(Clone, Copy, Debug, PartialEq, Eq, Structural)]
pub struct SceneRegion {
    pub shape: SceneShape,
    pub center: Coords,
    pub distance_voxels: i32,
}

/// The largest number of voxels per metre at which the scene's positions, which are given in
/// metres, are exact.
pub const MAX_START_SCENE_VOXELS_PER_METER: usize = 16777216;

/// The shape in slot `k` of the scene.
pub open spec fn scene_shape(k: int) -> SceneShape {
    if k == 0 {
        SceneShape::OriginalSphere
    } else if k == 1 {
        SceneShape::PerlinlikeNoiseSphere
    } else if k == 2 {
        SceneShape::Torus
    } else if k == 3 {
        SceneShape::FractalTerrain
    } else {
        SceneShape::SpiralStaircase
    }
}

/// How far, in voxels, the shape in slot `k` reaches: a quarter metre for the first sphere, three
/// quarters for the terrain, half a metre for the others (rounded down to whole voxels).
pub open spec fn scene_distance(k: int, vpm: int) -> int {
    if k == 0 {
        vpm / 4
    } else if k == 3 {
        3 * vpm / 4
    } else {
        vpm / 2
    }
}

/// The region of slot `k`: centred on the voxel at `(k + 0.5, 0.5, 0.5)` metres.
pub open spec fn scene_region(k: int, vpm: int) -> SceneRegion {
    SceneRegion {
        shape: scene_shape(k),
        center: Coords(
            IVec3 { x: (k * vpm + vpm / 2) as i32, y: (vpm / 2) as i32, z: (vpm / 2) as i32 },
        ),
        distance_voxels: scene_distance(k, vpm) as i32,
    }
}

/// The regions of the start scene, in the order they are drawn.
pub fn start_scene_regions(voxels_per_meter: VoxelsPerMeter) -> (r: Vec<SceneRegion>)
    requires
        1 <= voxels_per_meter.0 <= MAX_START_SCENE_VOXELS_PER_METER,
    ensures
        r.len() == 5,
        forall|k: int| 0 <= k < 5 ==> #[trigger] r@[k] == scene_region(k, voxels_per_meter.0 as int),
{
    let vpm = voxels_per_meter.0 as i32;
    let half = vpm / 2;
    let shapes = [
        SceneShape::OriginalSphere,
        SceneShape::PerlinlikeNoiseSphere,
        SceneShape::Torus,
        SceneShape::FractalTerrain,
        SceneShape::SpiralStaircase,
    ];
    let mut r: Vec<SceneRegion> = Vec::new();
    let mut k: i32 = 0;
    while k < 5
        invariant
            0 <= k <= 5,
            vpm == voxels_per_meter.0,
            1 <= vpm <= MAX_START_SCENE_VOXELS_PER_METER,
            half == vpm / 2,
            shapes@ == seq![
                SceneShape::OriginalSphere,
                SceneShape::PerlinlikeNoiseSphere,
                SceneShape::Torus,
                SceneShape::FractalTerrain,
                SceneShape::SpiralStaircase,
            ],
            r.len() == k,
            forall|j: int| 0 <= j < k ==> #[trigger] r@[j] == scene_region(j, vpm as int),
        decreases 5 - k,
    {
        let distance_voxels = if k == 0 {
            vpm / 4
        } else if k == 3 {
            3 * vpm / 4
        } else {
            half
        };
        let center = Coords(IVec3 { x: k * vpm + half, y: half, z: half });
        r.push(SceneRegion { shape: shapes[k as usize], center, distance_voxels });
        k += 1;
    }
    r
}

/// The start scene's part of each frame: when any requests to recreate the scene are pending,
/// they are all consumed and the scene's regions are returned to be drawn once; otherwise
/// nothing is drawn.
pub fn plugin(
    pending: &mut Vec<RecreateStartScene>,
    voxels_per_meter: VoxelsPerMeter,
) -> (regions: Vec<SceneRegion>)
    requires
        1 <= voxels_per_meter.0 <= MAX_START_SCENE_VOXELS_PER_METER,
    ensures
        final(pending).len() == 0,
        old(pending).len() == 0 ==> regions.len() == 0,
        old(pending).len() > 0 ==> regions.len() == 5 && forall|k: int|
            0 <= k < 5 ==> #[trigger] regions@[k] == scene_region(k, voxels_per_meter.0 as int),
{
    let requested = pending.len() > 0;
    pending.clear();
    if requested {
        start_scene_regions(voxels_per_meter)
    } else {
        Vec::new()
    }
}

} // verus!
