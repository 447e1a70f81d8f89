use prismata::math::IVec3;
use prismata::raycast::{
    march_samples, mesh_hits_to_ray_hit, nearest_hit, voxel_is_solid, RayHit, RaySample,
    WorldRayHit,
};
use prismata::voxel::{Coords, Voxel, VoxelMaterial};

fn coords(x: i32, y: i32, z: i32) -> Coords {
    Coords(IVec3 { x, y, z })
}

fn air(x: i32) -> RaySample {
    RaySample { coords: coords(x, 5, 0), at_ground: false, ground_coords: coords(x, 0, 0), solid: false }
}

fn solid(x: i32) -> RaySample {
    RaySample { solid: true, ..air(x) }
}

fn ground(x: i32) -> RaySample {
    RaySample { at_ground: true, ..air(x) }
}

#[test]
fn solidity_of_voxels() {
    let v = |material| Some(Voxel { rgb: [0, 0, 0], material });
    assert!(!voxel_is_solid(None, false));
    assert!(!voxel_is_solid(v(VoxelMaterial::Air), false));
    assert!(voxel_is_solid(v(VoxelMaterial::Draft), false));
    assert!(!voxel_is_solid(v(VoxelMaterial::Draft), true));
    assert!(voxel_is_solid(v(VoxelMaterial::Solid), true));
    assert!(voxel_is_solid(v(VoxelMaterial::Projected), true));
}

#[test]
fn march_enters_and_leaves_solid() {
    let hit = march_samples(&vec![air(0), solid(1), solid(2), air(3), solid(4)]);
    assert_eq!(
        hit,
        Some(RayHit { entry_coords: coords(1, 5, 0), exit_coords: Some(coords(3, 5, 0)), hit_voxel: true })
    );
}

#[test]
fn march_ends_inside_solid() {
    let hit = march_samples(&vec![air(0), solid(1)]);
    assert_eq!(hit, Some(RayHit { entry_coords: coords(1, 5, 0), exit_coords: None, hit_voxel: true }));
}

#[test]
fn march_hits_the_ground() {
    let hit = march_samples(&vec![air(0), ground(1), solid(2)]);
    assert_eq!(hit, Some(RayHit { entry_coords: coords(1, 0, 0), exit_coords: None, hit_voxel: false }));
    let hit = march_samples(&vec![solid(0), ground(1)]);
    assert_eq!(
        hit,
        Some(RayHit { entry_coords: coords(0, 5, 0), exit_coords: Some(coords(1, 0, 0)), hit_voxel: true })
    );
}

#[test]
fn march_through_air_finds_nothing() {
    assert_eq!(march_samples(&vec![air(0), air(1)]), None);
    assert_eq!(march_samples(&vec![]), None);
}

#[test]
fn mesh_hits_enter_at_the_first() {
    assert_eq!(mesh_hits_to_ray_hit(&vec![]), None);
    assert_eq!(
        mesh_hits_to_ray_hit(&vec![coords(1, 2, 3)]),
        Some(RayHit { entry_coords: coords(1, 2, 3), exit_coords: None, hit_voxel: false })
    );
    assert_eq!(
        mesh_hits_to_ray_hit(&vec![coords(1, 2, 3), coords(4, 5, 6), coords(7, 8, 9)]),
        Some(RayHit { entry_coords: coords(1, 2, 3), exit_coords: Some(coords(4, 5, 6)), hit_voxel: false })
    );
}

#[test]
fn nearest_of_mesh_and_voxel_hits() {
    let m = Some(RayHit { entry_coords: coords(1, 0, 0), exit_coords: None, hit_voxel: false });
    let v = Some(RayHit { entry_coords: coords(2, 0, 0), exit_coords: None, hit_voxel: true });
    assert_eq!(nearest_hit(m, v, true), m);
    assert_eq!(nearest_hit(m, v, false), v);
    assert_eq!(nearest_hit(m, None, false), m);
    assert_eq!(nearest_hit(None, v, true), v);
    assert_eq!(nearest_hit(None, None, true), None);
    assert_eq!(WorldRayHit { ray_hit: v }.coords(), Some(coords(2, 0, 0)));
    assert_eq!(WorldRayHit { ray_hit: None }.coords(), None);
}

#[test]
fn ray_through_air_hits_nothing_or_the_ground() {
    assert_eq!(march_samples(&vec![air(0), air(1), air(2)]), None);
    let hit = march_samples(&vec![air(0), air(1), ground(2)]).unwrap();
    assert!(!hit.hit_voxel);
    assert_eq!(hit.entry_coords, coords(2, 0, 0));
}

#[test]
fn voxel_hit_enters_at_a_solid_sample() {
    let samples = vec![air(0), air(1), solid(2), ground(3)];
    let hit = march_samples(&samples).unwrap();
    assert!(hit.hit_voxel);
    assert!(samples.iter().any(|s| s.solid && !s.at_ground && s.coords == hit.entry_coords));
}
