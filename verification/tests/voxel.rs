use prismata::math::{IVec3, UVec3};
use prismata::voxel::chunk::{
    apply_pending_spheres, apply_sphere, build_mesh, chunk_collider, draft_chunks_due,
    should_garbage_collect,
    visible_face_count, voxel_coord_to_index, ChunkCollider,
};
use prismata::voxel::splats::{chunks_of_sphere, group_spheres_by_chunk, splat_sphere};
use prismata::voxel::start_scene::{plugin, start_scene_regions, SceneShape};
use prismata::voxel::update::{
    chunks_to_update, erase_in_chunk, erase_voxel, find_chunk_slot, update_chunk, update_region,
};
use prismata::voxel::{
    ChunkCoords, ChunkData, Coords, OldVoxelsPerMeter, RecreateStartScene, Voxel, VoxelMaterial,
    VoxelsPerMeter,
    VOXELS_PER_CHUNK,
};

fn coords(x: i32, y: i32, z: i32) -> Coords {
    Coords(IVec3 { x, y, z })
}

fn chunk(x: i32, y: i32, z: i32) -> ChunkCoords {
    ChunkCoords(IVec3 { x, y, z })
}

fn index(x: usize, y: usize, z: usize) -> usize {
    x + y * 25 + z * 625
}

fn solid(rgb: [u8; 3]) -> Voxel {
    Voxel { rgb, material: VoxelMaterial::Solid }
}

#[test]
fn coords_split_into_chunk_and_voxel_euclidean() {
    let c = coords(-1, 26, 0);
    assert_eq!(c.chunk(), chunk(-1, 1, 0));
    assert_eq!(c.voxel(), UVec3 { x: 24, y: 1, z: 0 });
    let (ch, v) = c.to_chunk_and_voxel();
    assert_eq!(Coords::from_chunk_and_voxel(ch, v), c);
}

#[test]
fn coords_from_chunk_and_voxel_combines() {
    let c = Coords::from_chunk_and_voxel(chunk(2, -3, 0), UVec3 { x: 1, y: 24, z: 7 });
    assert_eq!(c, coords(51, -51, 7));
    assert_eq!(chunk(1, 0, -1).with_voxel_coords(UVec3 { x: 0, y: 0, z: 0 }), coords(25, 0, -25));
    assert_eq!(chunk(1, 0, -1).center_coords(), coords(37, 12, -13));
}

#[test]
fn coords_distance_and_offset() {
    assert_eq!(coords(1, 2, 3).distance_squared(coords(4, 6, 3)), 25);
    assert_eq!(coords(1, 2, 3).offset(IVec3 { x: -1, y: 5, z: 0 }), coords(0, 7, 3));
}

#[test]
fn chunk_coords_are_written_like_vectors() {
    assert_eq!(chunk(1, -2, 30).to_string(), "[1, -2, 30]");
    assert_eq!(coords(-5, 0, 7).to_string(), "[-5, 0, 7]");
    assert_eq!(IVec3 { x: 0, y: 0, z: -7 }.to_string(), "[0, 0, -7]");
}

#[test]
fn voxel_bytes_round_trip() {
    let v = Voxel { rgb: [10, 20, 30], material: VoxelMaterial::Projected };
    let bytes = v.as_u8_array();
    assert_eq!(bytes, [10, 20, 30, 3]);
    assert!(Voxel::from_u8_array(bytes) == v);
}

#[test]
fn material_bytes_and_names() {
    assert_eq!(VoxelMaterial::Draft.as_u8(), 1);
    assert_eq!(VoxelMaterial::from_u8(2), Some(VoxelMaterial::Solid));
    assert_eq!(VoxelMaterial::from_u8(4), None);
    assert_eq!(VoxelMaterial::Projected.to_string(), "Projected");
    assert_eq!(VoxelMaterial::default(), VoxelMaterial::Air);
}

#[test]
fn voxel_with_material_keeps_colour() {
    let v = solid([1, 2, 3]).with_material(VoxelMaterial::Draft);
    assert_eq!(v.rgb, [1, 2, 3]);
    assert_eq!(v.material, VoxelMaterial::Draft);
}

#[test]
fn default_chunk_is_empty_air() {
    let data = ChunkData::default();
    assert_eq!(data.voxels.len(), VOXELS_PER_CHUNK);
    assert!(data.is_completely_empty());
    assert!(!data.is_completely_solid());
    assert_eq!(chunk_collider(&data), None);
    assert!(should_garbage_collect(&data, true));
    assert!(!should_garbage_collect(&data, false));
}

#[test]
fn chunk_voxel_lookup() {
    let mut data = ChunkData::default();
    data.voxels[index(1, 2, 3)] = solid([9, 9, 9]);
    assert!(data.voxel(UVec3 { x: 1, y: 2, z: 3 }) == Some(solid([9, 9, 9])));
    assert!(data.voxel(UVec3 { x: 25, y: 0, z: 0 }).is_none());
    assert_eq!(voxel_coord_to_index(UVec3 { x: 1, y: 2, z: 3 }), Some(1 + 50 + 1875));
    assert_eq!(voxel_coord_to_index(UVec3 { x: 0, y: 25, z: 0 }), None);
    if let Some(v) = data.voxel_mut(UVec3 { x: 0, y: 0, z: 0 }) {
        *v = solid([1, 1, 1]);
    }
    assert!(data.voxels[0] == solid([1, 1, 1]));
    assert!(data.voxel_mut(UVec3 { x: 0, y: 0, z: 30 }).is_none());
}

#[test]
fn colliders_follow_contents() {
    let mut data = ChunkData::default();
    data.voxels[5] = solid([0, 0, 0]);
    assert_eq!(chunk_collider(&data), Some(ChunkCollider::ConvexHull));
    for v in data.voxels.iter_mut() {
        *v = solid([0, 0, 0]);
    }
    assert_eq!(chunk_collider(&data), Some(ChunkCollider::Cuboid));
    assert!(!should_garbage_collect(&data, true));
}

#[test]
fn promoting_turns_drafts_solid() {
    let mut data = ChunkData::default();
    data.voxels[0] = Voxel { rgb: [5, 6, 7], material: VoxelMaterial::Draft };
    data.voxels[1] = Voxel { rgb: [1, 1, 1], material: VoxelMaterial::Projected };
    data.promote_draft_voxels();
    assert!(data.voxels[0] == Voxel { rgb: [5, 6, 7], material: VoxelMaterial::Solid });
    assert!(data.voxels[1] == Voxel { rgb: [1, 1, 1], material: VoxelMaterial::Projected });
    let before = data.voxels.clone();
    data.promote_draft_voxels();
    assert!(data.voxels == before);
}

#[test]
fn single_voxel_mesh_has_six_faces() {
    let mut data = ChunkData::default();
    data.voxels[index(3, 4, 5)] = solid([10, 20, 30]);
    assert_eq!(visible_face_count(&data), 6);
    let mesh = build_mesh(&data, false);
    assert_eq!(mesh.positions.len(), 24);
    assert_eq!(mesh.colors.len(), 24);
    assert_eq!(mesh.indices.len(), 36);
    assert!(mesh.indices.iter().all(|&i| (i as usize) < mesh.positions.len()));
    assert!(mesh.colors.iter().all(|c| *c == [10, 20, 30]));
    for p in &mesh.positions {
        assert!(p.x >= 3 && p.x <= 4 && p.y >= 4 && p.y <= 5 && p.z >= 5 && p.z <= 6);
    }
    // The first face's triangles.
    assert_eq!(&mesh.indices[0..6], &[0, 1, 2, 2, 3, 0]);
}

#[test]
fn mask_mesh_colours_projected_black() {
    let mut data = ChunkData::default();
    data.voxels[0] = Voxel { rgb: [10, 20, 30], material: VoxelMaterial::Projected };
    data.voxels[index(10, 10, 10)] = solid([10, 20, 30]);
    let mesh = build_mesh(&data, true);
    assert_eq!(mesh.colors.len(), 48);
    assert!(mesh.colors[..24].iter().all(|c| *c == [0, 0, 0]));
    assert!(mesh.colors[24..].iter().all(|c| *c == [255, 255, 255]));
}

#[test]
fn adjacent_voxels_hide_shared_faces() {
    let mut data = ChunkData::default();
    data.voxels[index(3, 3, 3)] = solid([1, 1, 1]);
    data.voxels[index(4, 3, 3)] = solid([1, 1, 1]);
    assert_eq!(visible_face_count(&data), 10);
    let mesh = build_mesh(&data, false);
    assert_eq!(mesh.positions.len(), 40);
    assert_eq!(mesh.indices.len(), 60);
}

#[test]
fn sphere_paints_air_and_blends_solid() {
    let mut data = ChunkData::default();
    data.voxels[index(10, 10, 10)] = solid([100, 100, 100]);
    let sphere = splat_sphere(coords(10, 10, 10), 2, [200, 0, 50]);
    assert_eq!(sphere.radius_voxels_sqr, 4);
    apply_sphere(&mut data, chunk(0, 0, 0), &sphere);
    assert!(data.voxels[index(10, 10, 10)] == Voxel { rgb: [150, 50, 75], material: VoxelMaterial::Projected });
    assert!(data.voxels[index(9, 10, 10)] == Voxel { rgb: [200, 0, 50], material: VoxelMaterial::Projected });
    assert!(data.voxels[index(11, 10, 10)] == Voxel { rgb: [200, 0, 50], material: VoxelMaterial::Projected });
    assert!(data.voxels[index(12, 10, 10)] == Voxel { rgb: [200, 0, 50], material: VoxelMaterial::Projected });
    assert!(data.voxels[index(9, 9, 9)] == Voxel { rgb: [200, 0, 50], material: VoxelMaterial::Projected });
    assert!(data.voxels[index(12, 12, 10)].material == VoxelMaterial::Air);
    assert!(data.voxels[index(13, 10, 10)].material == VoxelMaterial::Air);
    // Every voxel within squared distance 4: 1 + 6 + 12 + 8 + 6.
    let painted = data.voxels.iter().filter(|v| v.material == VoxelMaterial::Projected).count();
    assert_eq!(painted, 33);
}

#[test]
fn sphere_paints_voxel_three_away_from_centre() {
    let mut data = ChunkData::default();
    let sphere = splat_sphere(coords(12, 12, 12), 4, [100, 0, 255]);
    apply_sphere(&mut data, chunk(0, 0, 0), &sphere);
    assert!(data.voxels[index(15, 12, 12)] == Voxel { rgb: [100, 0, 255], material: VoxelMaterial::Projected });
    assert!(data.voxels[index(16, 12, 12)].material == VoxelMaterial::Projected);
    assert!(data.voxels[index(17, 12, 12)].material == VoxelMaterial::Air);
}

#[test]
fn sphere_outside_chunk_paints_nothing() {
    let mut data = ChunkData::default();
    let sphere = splat_sphere(coords(100, 100, 100), 4, [1, 2, 3]);
    apply_sphere(&mut data, chunk(0, 0, 0), &sphere);
    assert!(data.is_completely_empty());
}

#[test]
fn pending_spheres_are_drained_in_order() {
    let mut data = ChunkData::default();
    let mut pending = vec![
        splat_sphere(coords(5, 5, 5), 2, [100, 100, 100]),
        splat_sphere(coords(5, 5, 5), 2, [0, 0, 0]),
    ];
    assert!(apply_pending_spheres(&mut data, chunk(0, 0, 0), &mut pending));
    assert!(pending.is_empty());
    assert!(data.voxels[index(5, 5, 5)] == Voxel { rgb: [50, 50, 50], material: VoxelMaterial::Projected });
    assert!(!apply_pending_spheres(&mut data, chunk(0, 0, 0), &mut pending));
}

#[test]
fn update_visits_chunks_in_range_above_ground() {
    let r = chunks_to_update(coords(0, 0, 0), 1);
    assert_eq!(r, vec![chunk(-1, 0, -1), chunk(-1, 0, 0), chunk(0, 0, -1), chunk(0, 0, 0)]);
    let r = chunks_to_update(coords(12, 30, 12), 3);
    assert_eq!(r, vec![chunk(0, 1, 0)]);
    assert!(chunks_to_update(coords(0, -100, 0), 5).is_empty());
    assert!(chunks_to_update(coords(0, 0, 0), -1).is_empty());
}

#[test]
fn update_chunk_applies_inside_box_and_reports_drafts() {
    let mut data = ChunkData::default();
    let paint = |_c: Coords, _v: Voxel| Voxel { rgb: [7, 7, 7], material: VoxelMaterial::Draft };
    let has_draft = update_chunk(&mut data, chunk(0, 0, 0), coords(5, 5, 5), 1, &paint);
    assert!(has_draft);
    let drafts = data.voxels.iter().filter(|v| v.material == VoxelMaterial::Draft).count();
    assert_eq!(drafts, 27);
    assert!(data.voxels[index(6, 6, 6)].material == VoxelMaterial::Draft);
    assert!(data.voxels[index(7, 5, 5)].material == VoxelMaterial::Air);
    // The same update again changes nothing, so it reports no new drafts.
    assert!(!update_chunk(&mut data, chunk(0, 0, 0), coords(5, 5, 5), 1, &paint));
}

#[test]
fn update_chunk_passes_absolute_coordinates() {
    let mut data = ChunkData::default();
    let mark = |c: Coords, v: Voxel| {
        if c == coords(-25, 0, 3) {
            Voxel { rgb: [1, 2, 3], material: VoxelMaterial::Solid }
        } else {
            v
        }
    };
    assert!(!update_chunk(&mut data, chunk(-1, 0, 0), coords(-25, 0, 3), 0, &mark));
    assert!(data.voxels[index(0, 0, 3)] == solid([1, 2, 3]));
    assert_eq!(data.voxels.iter().filter(|v| v.material != VoxelMaterial::Air).count(), 1);
}

#[test]
fn eraser_clears_a_ball() {
    let mut data = ChunkData::default();
    for v in data.voxels.iter_mut() {
        *v = solid([1, 1, 1]);
    }
    let has_draft = erase_in_chunk(&mut data, chunk(0, 0, 0), coords(12, 12, 12), 2);
    assert!(!has_draft);
    let air = data.voxels.iter().filter(|v| v.material == VoxelMaterial::Air).count();
    // Points with squared distance at most 4 from the centre.
    assert_eq!(air, 33);
    assert!(data.voxels[index(14, 12, 12)].material == VoxelMaterial::Air);
    assert!(data.voxels[index(14, 13, 12)].material == VoxelMaterial::Solid);
    assert!(data.voxels[index(13, 13, 13)].material == VoxelMaterial::Air);
    assert!(erase_voxel(coords(0, 0, 0), 4, coords(2, 0, 0), solid([3, 3, 3])) == Voxel::default());
    assert!(erase_voxel(coords(0, 0, 0), 4, coords(2, 1, 0), solid([3, 3, 3])) == solid([3, 3, 3]));
}

#[test]
fn sphere_chunks_are_centre_then_corners() {
    let s = splat_sphere(coords(24, 1, 0), 2, [0, 0, 0]);
    let r = chunks_of_sphere(&s);
    assert_eq!(r, vec![chunk(0, 0, 0), chunk(0, 0, -1), chunk(1, 0, -1), chunk(1, 0, 0)]);
}

#[test]
fn spheres_group_by_chunk_in_order() {
    let a = splat_sphere(coords(5, 5, 5), 1, [1, 0, 0]);
    let b = splat_sphere(coords(30, 5, 5), 1, [2, 0, 0]);
    let c = splat_sphere(coords(6, 6, 6), 1, [3, 0, 0]);
    let below = splat_sphere(coords(5, -30, 5), 1, [4, 0, 0]);
    let groups = group_spheres_by_chunk(&vec![a, b, c, below]);
    assert_eq!(groups.len(), 2);
    assert_eq!(groups[0].0, chunk(0, 0, 0));
    let colours: Vec<u8> = groups[0].1.iter().map(|s| s.color[0]).collect();
    assert_eq!(colours, vec![1, 3]);
    assert_eq!(groups[1].0, chunk(1, 0, 0));
    assert_eq!(groups[1].1.len(), 1);
    assert_eq!(groups[1].1[0].color, [2, 0, 0]);
}

#[test]
fn start_scene_regions_at_one_hundred_voxels_per_meter() {
    let r = start_scene_regions(VoxelsPerMeter(100));
    assert_eq!(r.len(), 5);
    assert_eq!(r[0].shape, SceneShape::OriginalSphere);
    assert_eq!(r[0].center, coords(50, 50, 50));
    assert_eq!(r[0].distance_voxels, 25);
    assert_eq!(r[1].shape, SceneShape::PerlinlikeNoiseSphere);
    assert_eq!(r[1].center, coords(150, 50, 50));
    assert_eq!(r[1].distance_voxels, 50);
    assert_eq!(r[2].shape, SceneShape::Torus);
    assert_eq!(r[3].shape, SceneShape::FractalTerrain);
    assert_eq!(r[3].center, coords(350, 50, 50));
    assert_eq!(r[3].distance_voxels, 75);
    assert_eq!(r[4].shape, SceneShape::SpiralStaircase);
    assert_eq!(r[4].center, coords(450, 50, 50));
}

#[test]
fn start_scene_plugin_consumes_requests() {
    let mut pending = vec![RecreateStartScene, RecreateStartScene];
    let regions = plugin(&mut pending, VoxelsPerMeter(10));
    assert!(pending.is_empty());
    assert_eq!(regions.len(), 5);
    assert_eq!(regions[0].center, coords(5, 5, 5));
    assert_eq!(regions[0].distance_voxels, 2);
    let regions = plugin(&mut pending, VoxelsPerMeter(10));
    assert!(regions.is_empty());
}

#[test]
fn only_a_real_resolution_change_clears_the_world() {
    let mut old = OldVoxelsPerMeter(100);
    assert!(!old.note_change(VoxelsPerMeter(100)));
    assert!(old.note_change(VoxelsPerMeter(50)));
    assert_eq!(old, OldVoxelsPerMeter(50));
    assert!(!old.note_change(VoxelsPerMeter(50)));
}

#[test]
fn sphere_blends_solid_colours_per_channel() {
    let mut data = ChunkData::default();
    data.voxels[index(3, 3, 3)] = solid([100, 0, 255]);
    let sphere = splat_sphere(coords(3, 3, 3), 1, [201, 0, 0]);
    apply_sphere(&mut data, chunk(0, 0, 0), &sphere);
    assert!(data.voxels[index(3, 3, 3)] == Voxel { rgb: [150, 0, 127], material: VoxelMaterial::Projected });
}

#[test]
fn mask_mesh_has_the_same_geometry() {
    let mut data = ChunkData::default();
    data.voxels[index(1, 2, 3)] = Voxel { rgb: [9, 8, 7], material: VoxelMaterial::Projected };
    data.voxels[index(4, 4, 4)] = Voxel { rgb: [1, 2, 3], material: VoxelMaterial::Draft };
    let coloured = build_mesh(&data, false);
    let mask = build_mesh(&data, true);
    assert!(coloured.positions == mask.positions);
    assert!(coloured.indices == mask.indices);
    assert_eq!(coloured.positions.len(), 48);
}

#[test]
fn region_updates_existing_chunks_and_adds_missing_ones() {
    let mut existing = ChunkData::default();
    existing.voxels[index(0, 0, 0)] = solid([1, 1, 1]);
    let other = ChunkData::default();
    let mut chunks = vec![(chunk(5, 5, 5), other), (chunk(0, 0, 0), existing)];
    let paint = |_c: Coords, _v: Voxel| Voxel { rgb: [7, 7, 7], material: VoxelMaterial::Draft };
    update_region(&mut chunks, coords(0, 0, 0), 1, &paint);
    // The box reaches chunks (-1|0, 0, -1|0); (0, 0, 0) was there, three are added in order.
    assert_eq!(chunks.len(), 5);
    assert_eq!(chunks[0].0, chunk(5, 5, 5));
    assert!(chunks[0].1.is_completely_empty());
    assert_eq!(chunks[1].0, chunk(0, 0, 0));
    assert!(chunks[1].1.voxels[index(0, 0, 0)].material == VoxelMaterial::Draft);
    assert!(chunks[1].1.voxels[index(1, 1, 1)].material == VoxelMaterial::Draft);
    assert!(chunks[1].1.voxels[index(2, 0, 0)].material == VoxelMaterial::Air);
    assert_eq!(chunks[2].0, chunk(-1, 0, -1));
    assert_eq!(chunks[3].0, chunk(-1, 0, 0));
    assert_eq!(chunks[4].0, chunk(0, 0, -1));
    assert!(chunks[2].1.voxels[index(24, 1, 24)].material == VoxelMaterial::Draft);
    assert_eq!(find_chunk_slot(&chunks, chunk(-1, 0, 0)), Some(3));
    assert_eq!(find_chunk_slot(&chunks, chunk(9, 9, 9)), None);
}

#[test]
fn drafts_are_promoted_up_to_the_first_recent_chunk() {
    assert_eq!(draft_chunks_due(&vec![1500, 1000, 20, 5000]), 2);
    assert_eq!(draft_chunks_due(&vec![10, 5000]), 0);
    assert_eq!(draft_chunks_due(&vec![1000, 2000]), 2);
    assert_eq!(draft_chunks_due(&vec![]), 0);
}
