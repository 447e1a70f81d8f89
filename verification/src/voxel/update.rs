//! Box-shaped updates of the voxel world: which chunks an update touches, and what it does to
//! the voxels of one chunk.

use vstd::prelude::*;

use crate::math::IVec3;

use super::chunk::{lemma_voxel_index_bijective, stored_pos};
use super::{ChunkCoords, ChunkData, Coords, Voxel, VoxelMaterial, VOXELS_PER_CHUNK};

verus! {

/// Whether the chunk `c` lies in the range of chunks that an update of every voxel within
/// `d` voxels of `center` (along each axis) reaches. Chunks below the ground are never updated.
pub open spec fn update_reaches_chunk(center: Coords, d: i32, c: ChunkCoords) -> bool {
    &&& super::chunk_of((center.0.x - d) as i32) <= c.0.x <= super::chunk_of((center.0.x + d) as i32)
    &&& super::chunk_of((center.0.y - d) as i32) <= c.0.y <= super::chunk_of((center.0.y + d) as i32)
    &&& super::chunk_of((center.0.z - d) as i32) <= c.0.z <= super::chunk_of((center.0.z + d) as i32)
    &&& c.0.y >= 0
}

/// Whether the box around `center` can be computed without leaving the `i32` range.
pub open spec fn update_box_fits(center: Coords, d: i32) -> bool {
    &&& i32::MIN <= center.0.x - d <= i32::MAX
    &&& i32::MIN <= center.0.x + d <= i32::MAX
    &&& i32::MIN <= center.0.y - d <= i32::MAX
    &&& i32::MIN <= center.0.y + d <= i32::MAX
    &&& i32::MIN <= center.0.z - d <= i32::MAX
    &&& i32::MIN <= center.0.z + d <= i32::MAX
}

/// Whether chunk `a` comes before chunk `b`, ordering by `x`, then `y`, then `z`.
pub open spec fn chunk_before(a: ChunkCoords, b: ChunkCoords) -> bool {
    ||| a.0.x < b.0.x
    ||| a.0.x == b.0.x && a.0.y < b.0.y
    ||| a.0.x == b.0.x && a.0.y == b.0.y && a.0.z < b.0.z
}

/// Whether `lo` and `hi` are the chunks of the lowest and the highest corner of the box of
/// voxels within `d` of `center`.
spec fn box_chunks(center: Coords, d: i32, lo: ChunkCoords, hi: ChunkCoords) -> bool {
    &&& lo.0.x == super::chunk_of((center.0.x - d) as i32)
    &&& lo.0.y == super::chunk_of((center.0.y - d) as i32)
    &&& lo.0.z == super::chunk_of((center.0.z - d) as i32)
    &&& hi.0.x == super::chunk_of((center.0.x + d) as i32)
    &&& hi.0.y == super::chunk_of((center.0.y + d) as i32)
    &&& hi.0.z == super::chunk_of((center.0.z + d) as i32)
}

/// The chunks that an update of every voxel within `distance_voxels` of `center` must visit:
/// every chunk of the range that is not below the ground, each once, in increasing order.
pub fn chunks_to_update(center: Coords, distance_voxels: i32) -> (r: Vec<ChunkCoords>)
    requires
        update_box_fits(center, distance_voxels),
    ensures
        forall|i: int|
            0 <= i < r.len() ==> update_reaches_chunk(center, distance_voxels, #[trigger] r@[i]),
        forall|c: ChunkCoords| update_reaches_chunk(center, distance_voxels, c) ==> r@.contains(c),
        forall|i: int, j: int| 0 <= i < j < r.len() ==> chunk_before(r@[i], r@[j]),
{
    let d = distance_voxels;
    let min_chunk = Coords(IVec3 { x: center.0.x - d, y: center.0.y - d, z: center.0.z - d }).chunk();
    let max_chunk = Coords(IVec3 { x: center.0.x + d, y: center.0.y + d, z: center.0.z + d }).chunk();
    let mut r: Vec<ChunkCoords> = Vec::new();
    let mut x = min_chunk.0.x;
    while x <= max_chunk.0.x
        invariant
            box_chunks(center, d, min_chunk, max_chunk),
            max_chunk.0.x < i32::MAX,
            x == min_chunk.0.x || min_chunk.0.x <= x <= max_chunk.0.x + 1,
            forall|i: int| 0 <= i < r.len() ==> update_reaches_chunk(center, d, #[trigger] r@[i]) && r@[i].0.x < x,
            forall|c: ChunkCoords| update_reaches_chunk(center, d, c) && c.0.x < x ==> r@.contains(c),
            forall|i: int, j: int| 0 <= i < j < r.len() ==> chunk_before(r@[i], r@[j]),
        decreases max_chunk.0.x + 1 - x,
    {
        let mut y = min_chunk.0.y;
        while y <= max_chunk.0.y
            invariant
                box_chunks(center, d, min_chunk, max_chunk),
                max_chunk.0.y < i32::MAX,
                min_chunk.0.x <= x <= max_chunk.0.x,
                y == min_chunk.0.y || min_chunk.0.y <= y <= max_chunk.0.y + 1,
                forall|i: int|
                    0 <= i < r.len() ==> update_reaches_chunk(center, d, #[trigger] r@[i])
                        && chunk_before(r@[i], ChunkCoords(IVec3 { x, y, z: i32::MIN })),
                forall|c: ChunkCoords|
                    update_reaches_chunk(center, d, c) && chunk_before(c, ChunkCoords(IVec3 { x, y, z: i32::MIN }))
                        ==> r@.contains(c),
                forall|i: int, j: int| 0 <= i < j < r.len() ==> chunk_before(r@[i], r@[j]),
            decreases max_chunk.0.y + 1 - y,
        {
            if y >= 0 {
                let mut z = min_chunk.0.z;
                while z <= max_chunk.0.z
                    invariant
                        box_chunks(center, d, min_chunk, max_chunk),
                        max_chunk.0.z < i32::MAX,
                        min_chunk.0.x <= x <= max_chunk.0.x,
                        min_chunk.0.y <= y <= max_chunk.0.y,
                        y >= 0,
                        z == min_chunk.0.z || min_chunk.0.z <= z <= max_chunk.0.z + 1,
                        forall|i: int|
                            0 <= i < r.len() ==> update_reaches_chunk(center, d, #[trigger] r@[i])
                                && chunk_before(r@[i], ChunkCoords(IVec3 { x, y, z })),
                        forall|c: ChunkCoords|
                            update_reaches_chunk(center, d, c) && (chunk_before(c, ChunkCoords(IVec3 { x, y, z: i32::MIN }))
                                || (c.0.x == x && c.0.y == y && c.0.z < z)) ==> r@.contains(c),
                        forall|i: int, j: int| 0 <= i < j < r.len() ==> chunk_before(r@[i], r@[j]),
                    decreases max_chunk.0.z + 1 - z,
                {
                    let c = ChunkCoords(IVec3 { x, y, z });
                    let ghost before = r@;
                    r.push(c);
                    proof {
                        assert(r@[r.len() - 1] == c);
                        assert forall|c2: ChunkCoords|
                            update_reaches_chunk(center, d, c2) && (chunk_before(c2, ChunkCoords(IVec3 { x, y, z: i32::MIN }))
                                || (c2.0.x == x && c2.0.y == y && c2.0.z < z + 1)) implies r@.contains(c2) by {
                            if c2 == c {
                                assert(r@[r.len() - 1] == c2);
                            } else {
                                assert(before.contains(c2));
                                let k = choose|k: int| 0 <= k < before.len() && before[k] == c2;
                                assert(r@[k] == c2);
                            }
                        }
                    }
                    z = z + 1;
                }
                proof {
                    assert forall|c2: ChunkCoords|
                        update_reaches_chunk(center, d, c2) && (c2.0.x < x || (c2.0.x == x && c2.0.y <= y))
                            implies r@.contains(c2) by {
                        if c2.0.x == x && c2.0.y == y {
                            assert(c2.0.z < z);
                        }
                    }
                }
            } else {
                proof {
                    assert forall|c2: ChunkCoords|
                        update_reaches_chunk(center, d, c2) && (c2.0.x < x || (c2.0.x == x && c2.0.y <= y))
                            implies r@.contains(c2) by {
                        if c2.0.x == x && c2.0.y == y {
                            assert(c2.0.y < 0);
                        }
                    }
                }
            }
            y = y + 1;
        }
        proof {
            assert forall|c2: ChunkCoords|
                update_reaches_chunk(center, d, c2) && c2.0.x < x + 1 implies r@.contains(c2) by {
                if c2.0.x == x {
                    assert(c2.0.y < y);
                    assert(chunk_before(c2, ChunkCoords(IVec3 { x, y, z: i32::MIN })));
                }
            }
        }
        x = x + 1;
    }
    r
}

/// Whether every voxel of chunk `c` has absolute coordinates that fit in `i32`.
pub open spec fn chunk_addressable(c: ChunkCoords) -> bool {
    &&& i32::MIN <= c.0.x * 25 && c.0.x * 25 + 24 <= i32::MAX
    &&& i32::MIN <= c.0.y * 25 && c.0.y * 25 + 24 <= i32::MAX
    &&& i32::MIN <= c.0.z * 25 && c.0.z * 25 + 24 <= i32::MAX
}

/// The absolute coordinates of the voxel stored at index `i` of the chunk at `c`.
pub open spec fn stored_coords(c: ChunkCoords, i: int) -> Coords {
    let p = stored_pos(c, i);
    Coords(IVec3 { x: p.0 as i32, y: p.1 as i32, z: p.2 as i32 })
}

/// Whether `p` lies within `d` voxels of `center` along every axis.
pub open spec fn in_update_box(center: Coords, d: i32, p: Coords) -> bool {
    &&& -d <= p.0.x - center.0.x <= d
    &&& -d <= p.0.y - center.0.y <= d
    &&& -d <= p.0.z - center.0.z <= d
}

/// Whether an update turned voxel `old` into a different, draft voxel.
pub open spec fn became_draft(old: Voxel, new: Voxel) -> bool {
    new != old && new.material == VoxelMaterial::Draft
}

/// What an update leaves at index `i` of a chunk: a result of `update` on the voxel's
/// coordinates and old value inside the box, the old value outside it.
pub open spec fn updated_voxel<F: Fn(Coords, Voxel) -> Voxel>(
    update: F,
    center: Coords,
    d: i32,
    c: ChunkCoords,
    i: int,
    old: Voxel,
    new: Voxel,
) -> bool {
    if in_update_box(center, d, stored_coords(c, i)) {
        call_ensures(update, (stored_coords(c, i), old), new)
    } else {
        new == old
    }
}

/// Applies `update` to every voxel of the chunk at `chunk_coords` that lies within
/// `distance_voxels` of `center` along every axis, and returns whether that made any voxel
/// a new draft voxel.
pub fn update_chunk<F: Fn(Coords, Voxel) -> Voxel>(
    data: &mut ChunkData,
    chunk_coords: ChunkCoords,
    center: Coords,
    distance_voxels: i32,
    update: &F,
) -> (has_draft_material: bool)
    requires
        old(data).wf(),
        chunk_addressable(chunk_coords),
        forall|c: Coords, v: Voxel|
            in_update_box(center, distance_voxels, c) ==> call_requires(*update, (c, v)),
    ensures
        final(data).wf(),
        forall|i: int|
            0 <= i < VOXELS_PER_CHUNK ==> updated_voxel(
                *update,
                center,
                distance_voxels,
                chunk_coords,
                i,
                old(data).voxels@[i],
                #[trigger] final(data).voxels@[i],
            ),
        has_draft_material == exists|i: int|
            0 <= i < VOXELS_PER_CHUNK && became_draft(
                old(data).voxels@[i],
                #[trigger] final(data).voxels@[i],
            ),
{
    let ghost old_voxels = data.voxels@;
    let mut has_draft_material = false;
    let mut i: usize = 0;
    while i < VOXELS_PER_CHUNK
        invariant
            data.wf(),
            i <= VOXELS_PER_CHUNK,
            chunk_addressable(chunk_coords),
            forall|c: Coords, v: Voxel|
                in_update_box(center, distance_voxels, c) ==> call_requires(*update, (c, v)),
            forall|j: int|
                0 <= j < i ==> updated_voxel(
                    *update,
                    center,
                    distance_voxels,
                    chunk_coords,
                    j,
                    old_voxels[j],
                    #[trigger] data.voxels@[j],
                ),
            forall|j: int| i <= j < VOXELS_PER_CHUNK ==> #[trigger] data.voxels@[j] == old_voxels[j],
            has_draft_material == exists|j: int|
                0 <= j < i && became_draft(old_voxels[j], #[trigger] data.voxels@[j]),
        decreases VOXELS_PER_CHUNK - i,
    {
        proof {
            lemma_voxel_index_bijective(0, 0, 0, i as int);
        }
        let x = (i % 25) as i32;
        let y = ((i / 25) % 25) as i32;
        let z = (i / 625) as i32;
        let coords = Coords(
            IVec3 {
                x: chunk_coords.0.x * 25 + x,
                y: chunk_coords.0.y * 25 + y,
                z: chunk_coords.0.z * 25 + z,
            },
        );
        assert(coords == stored_coords(chunk_coords, i as int));
        let dx = coords.0.x as i64 - center.0.x as i64;
        let dy = coords.0.y as i64 - center.0.y as i64;
        let dz = coords.0.z as i64 - center.0.z as i64;
        let d = distance_voxels as i64;
        let ghost before = data.voxels@;
        let ghost old_flag = has_draft_material;
        if -d <= dx && dx <= d && -d <= dy && dy <= d && -d <= dz && dz <= d {
            let voxel = data.voxels[i];
            let new_voxel = update(coords, voxel);
            if voxel != new_voxel {
                data.voxels.set(i, new_voxel);
                if new_voxel.material == VoxelMaterial::Draft {
                    has_draft_material = true;
                }
            } else {
                assert(voxel.rgb =~= new_voxel.rgb);
            }
        }
        proof {
            if has_draft_material {
                if became_draft(old_voxels[i as int], data.voxels@[i as int]) {
                    assert(0 <= i < i + 1 && became_draft(old_voxels[i as int], data.voxels@[i as int]));
                } else {
                    assert(old_flag);
                    let j = choose|j: int| 0 <= j < i && became_draft(old_voxels[j], #[trigger] before[j]);
                    assert(data.voxels@[j] == before[j]);
                    assert(0 <= j < i + 1 && became_draft(old_voxels[j], data.voxels@[j]));
                }
            } else {
                assert forall|j: int| 0 <= j < i + 1 implies !became_draft(old_voxels[j], #[trigger] data.voxels@[j]) by {
                    if j < i {
                        assert(data.voxels@[j] == before[j]);
                    }
                }
            }
        }
        i += 1;
    }
    has_draft_material
}

/// Whether `i` is the first place of `chunks` that holds the chunk at `c`.
pub open spec fn first_slot(chunks: Seq<(ChunkCoords, ChunkData)>, c: ChunkCoords, i: int) -> bool {
    &&& 0 <= i < chunks.len()
    &&& chunks[i].0 == c
    &&& forall|j: int| 0 <= j < i ==> (#[trigger] chunks[j]).0 != c
}

/// Whether `chunks` holds the chunk at `c` anywhere.
pub open spec fn holds_chunk(chunks: Seq<(ChunkCoords, ChunkData)>, c: ChunkCoords) -> bool {
    exists|i: int| 0 <= i < chunks.len() && (#[trigger] chunks[i]).0 == c
}

/// Whether the voxels `new` of the chunk at `c` are what an update leaves of `old`.
pub open spec fn region_updated<F: Fn(Coords, Voxel) -> Voxel>(
    update: F,
    center: Coords,
    d: i32,
    c: ChunkCoords,
    old: Seq<Voxel>,
    new: Seq<Voxel>,
) -> bool {
    forall|i: int|
        0 <= i < VOXELS_PER_CHUNK ==> updated_voxel(update, center, d, c, i, old[i], #[trigger] new[i])
}

/// The first place of `chunks` that holds the chunk at `c`, if any.
pub fn find_chunk_slot(chunks: &Vec<(ChunkCoords, ChunkData)>, c: ChunkCoords) -> (r: Option<usize>)
    ensures
        r matches Some(i) ==> first_slot(chunks@, c, i as int),
        r is None ==> !holds_chunk(chunks@, c),
{
    let mut i: usize = 0;
    while i < chunks.len()
        invariant
            i <= chunks.len(),
            forall|j: int| 0 <= j < i ==> (#[trigger] chunks@[j]).0 != c,
        decreases chunks.len() - i,
    {
        if chunks[i].0 == c {
            return Some(i);
        }
        i += 1;
    }
    None
}

/// Applies `update` to every voxel within `distance_voxels` of `center` along every axis, over
/// the chunks in `chunks`: each chunk the update reaches (see [`chunks_to_update`]) is updated
/// at its first place in `chunks`, and one that is not there is added, empty, at the end before
/// it is updated. Other chunks stay as they are.
pub fn update_region<F: Fn(Coords, Voxel) -> Voxel>(
    chunks: &mut Vec<(ChunkCoords, ChunkData)>,
    center: Coords,
    distance_voxels: i32,
    update: &F,
)
    requires
        update_box_fits(center, distance_voxels),
        forall|c: ChunkCoords| update_reaches_chunk(center, distance_voxels, c) ==> chunk_addressable(c),
        forall|i: int| 0 <= i < old(chunks).len() ==> (#[trigger] old(chunks)@[i]).1.wf(),
        forall|c: Coords, v: Voxel|
            in_update_box(center, distance_voxels, c) ==> call_requires(*update, (c, v)),
    ensures
        final(chunks).len() >= old(chunks).len(),
        forall|i: int| 0 <= i < final(chunks).len() ==> (#[trigger] final(chunks)@[i]).1.wf(),
        forall|i: int|
            0 <= i < old(chunks).len() ==> {
                let c = (#[trigger] final(chunks)@[i]).0;
                &&& c == old(chunks)@[i].0
                &&& if update_reaches_chunk(center, distance_voxels, c) && first_slot(
                    old(chunks)@,
                    c,
                    i,
                ) {
                    region_updated(
                        *update,
                        center,
                        distance_voxels,
                        c,
                        old(chunks)@[i].1.voxels@,
                        final(chunks)@[i].1.voxels@,
                    )
                } else {
                    final(chunks)@[i] == old(chunks)@[i]
                }
            },
        forall|i: int|
            old(chunks).len() <= i < final(chunks).len() ==> {
                let c = (#[trigger] final(chunks)@[i]).0;
                &&& update_reaches_chunk(center, distance_voxels, c)
                &&& !holds_chunk(old(chunks)@, c)
                &&& first_slot(final(chunks)@, c, i)
                &&& region_updated(
                    *update,
                    center,
                    distance_voxels,
                    c,
                    Seq::new(VOXELS_PER_CHUNK as nat, |k: int| Voxel::empty()),
                    final(chunks)@[i].1.voxels@,
                )
            },
        forall|c: ChunkCoords|
            update_reaches_chunk(center, distance_voxels, c) ==> holds_chunk(final(chunks)@, c),
{
    let ghost old_chunks = chunks@;
    let ghost empty = Seq::new(VOXELS_PER_CHUNK as nat, |k: int| Voxel::empty());
    let targets = chunks_to_update(center, distance_voxels);
    let mut k: usize = 0;
    while k < targets.len()
        invariant
            update_box_fits(center, distance_voxels),
            forall|c: ChunkCoords| update_reaches_chunk(center, distance_voxels, c) ==> chunk_addressable(c),
            forall|c: Coords, v: Voxel|
                in_update_box(center, distance_voxels, c) ==> call_requires(*update, (c, v)),
            forall|i: int| 0 <= i < targets.len() ==> update_reaches_chunk(center, distance_voxels, #[trigger] targets@[i]),
            forall|c: ChunkCoords| update_reaches_chunk(center, distance_voxels, c) ==> targets@.contains(c),
            forall|i: int, j: int| 0 <= i < j < targets.len() ==> chunk_before(targets@[i], targets@[j]),
            k <= targets.len(),
            empty == Seq::new(VOXELS_PER_CHUNK as nat, |j: int| Voxel::empty()),
            old_chunks == old(chunks)@,
            chunks.len() >= old_chunks.len(),
            forall|i: int| 0 <= i < chunks.len() ==> (#[trigger] chunks@[i]).1.wf(),
            forall|i: int|
                0 <= i < old_chunks.len() ==> {
                    let c = (#[trigger] chunks@[i]).0;
                    &&& c == old_chunks[i].0
                    &&& if targets@.subrange(0, k as int).contains(c) && first_slot(old_chunks, c, i) {
                        region_updated(*update, center, distance_voxels, c, old_chunks[i].1.voxels@, chunks@[i].1.voxels@)
                    } else {
                        chunks@[i] == old_chunks[i]
                    }
                },
            forall|i: int|
                old_chunks.len() <= i < chunks.len() ==> {
                    let c = (#[trigger] chunks@[i]).0;
                    &&& targets@.subrange(0, k as int).contains(c)
                    &&& !holds_chunk(old_chunks, c)
                    &&& first_slot(chunks@, c, i)
                    &&& region_updated(*update, center, distance_voxels, c, empty, chunks@[i].1.voxels@)
                },
            forall|j: int| 0 <= j < k ==> holds_chunk(chunks@, #[trigger] targets@[j]),
        decreases targets.len() - k,
    {
        let c = targets[k];
        let ghost before = chunks@;
        let ghost done = targets@.subrange(0, k as int);
        let ghost next = targets@.subrange(0, k + 1);
        assert(next =~= done.push(c));
        assert(!done.contains(c)) by {
            if done.contains(c) {
                let j = choose|j: int| 0 <= j < done.len() && done[j] == c;
                assert(chunk_before(targets@[j], targets@[k as int]));
            }
        }
        let slot = match find_chunk_slot(chunks, c) {
            Some(i) => i,
            None => {
                let fresh = ChunkData::default();
                assert(fresh.voxels@ =~= empty) by {
                    assert forall|j: int| 0 <= j < VOXELS_PER_CHUNK implies fresh.voxels@[j] == empty[j] by {
                        assert(fresh.voxels@[j] == Voxel::empty());
                    }
                }
                chunks.push((c, fresh));
                chunks.len() - 1
            },
        };
        let ghost mid = chunks@;
        proof {
            assert(first_slot(mid, c, slot as int));
            if slot < before.len() {
                assert(holds_chunk(before, c));
            }
        }
        let _ = update_chunk(&mut chunks[slot].1, c, center, distance_voxels, update);
        proof {
            assert(chunks.len() == mid.len());
            assert forall|i: int| 0 <= i < chunks.len() && i != slot implies #[trigger] chunks@[i] == mid[i] by {}
            assert(chunks@[slot as int].0 == c);
            assert(region_updated(*update, center, distance_voxels, c, mid[slot as int].1.voxels@, chunks@[slot as int].1.voxels@));
            // The place found is an old one exactly when the chunk was there from the start.
            if slot < old_chunks.len() {
                assert(mid[slot as int] == before[slot as int]);
                assert(before[slot as int] == old_chunks[slot as int]);
                assert(first_slot(old_chunks, c, slot as int)) by {
                    assert forall|j: int| 0 <= j < slot implies (#[trigger] old_chunks[j]).0 != c by {
                        assert(mid[j].0 == before[j].0);
                    }
                }
            } else if slot < before.len() {
                assert(done.contains(before[slot as int].0));
            } else {
                assert(!holds_chunk(before, c));
                assert(!holds_chunk(old_chunks, c)) by {
                    if holds_chunk(old_chunks, c) {
                        let j = choose|j: int| 0 <= j < old_chunks.len() && (#[trigger] old_chunks[j]).0 == c;
                        assert(before[j].0 == c);
                    }
                }
                assert(mid[slot as int].1.voxels@ == empty);
            }
            assert forall|i: int| 0 <= i < old_chunks.len() implies {
                let ci = (#[trigger] chunks@[i]).0;
                &&& ci == old_chunks[i].0
                &&& if next.contains(ci) && first_slot(old_chunks, ci, i) {
                    region_updated(*update, center, distance_voxels, ci, old_chunks[i].1.voxels@, chunks@[i].1.voxels@)
                } else {
                    chunks@[i] == old_chunks[i]
                }
            } by {
                assert(next[k as int] == c);
                if i == slot {
                    assert(first_slot(old_chunks, c, i));
                    assert(next.contains(c));
                    assert(mid[i] == old_chunks[i]);
                } else {
                    assert(chunks@[i] == before[i]);
                    if chunks@[i].0 == c && first_slot(old_chunks, c, i) {
                        if slot < old_chunks.len() {
                            assert(first_slot(old_chunks, c, slot as int));
                            if slot < i {
                                assert(old_chunks[slot as int].0 == c);
                            } else {
                                assert(mid[i].0 == c);
                            }
                        } else {
                            assert(holds_chunk(before, c));
                        }
                    }
                }
            }
            assert forall|i: int| old_chunks.len() <= i < chunks.len() implies {
                let ci = (#[trigger] chunks@[i]).0;
                &&& next.contains(ci)
                &&& !holds_chunk(old_chunks, ci)
                &&& first_slot(chunks@, ci, i)
                &&& region_updated(*update, center, distance_voxels, ci, empty, chunks@[i].1.voxels@)
            } by {
                if i != slot {
                    assert(chunks@[i] == before[i]);
                    let ci = chunks@[i].0;
                    assert(done.contains(ci));
                    assert(first_slot(before, ci, i));
                    assert forall|j: int| 0 <= j < i implies (#[trigger] chunks@[j]).0 != ci by {
                        assert(chunks@[j].0 == mid[j].0);
                    }
                } else {
                    assert forall|j: int| 0 <= j < i implies (#[trigger] chunks@[j]).0 != c by {
                        assert(chunks@[j].0 == mid[j].0);
                    }
                }
            }
            assert forall|j: int| 0 <= j < k + 1 implies holds_chunk(chunks@, #[trigger] targets@[j]) by {
                if j < k {
                    let t = targets@[j];
                    assert(holds_chunk(before, t));
                    let m = choose|m: int| 0 <= m < before.len() && (#[trigger] before[m]).0 == t;
                    assert(chunks@[m].0 == mid[m].0);
                } else {
                    assert(chunks@[slot as int].0 == targets@[j]);
                }
            }
        }
        k += 1;
    }
    proof {
        assert(targets@.subrange(0, k as int) =~= targets@);
        assert forall|c: ChunkCoords| update_reaches_chunk(center, distance_voxels, c) implies holds_chunk(chunks@, c) by {
            let j = choose|j: int| 0 <= j < targets.len() && targets@[j] == c;
            assert(holds_chunk(chunks@, targets@[j]));
        }
    }
}

/// What the eraser leaves at `coords`: the default voxel within the radius, the old voxel
/// beyond it.
pub open spec fn erased(center: Coords, radius_voxels_sqr: u32, coords: Coords, old: Voxel) -> Voxel {
    if center.spec_distance_squared(coords) <= radius_voxels_sqr {
        Voxel::empty()
    } else {
        old
    }
}

/// The largest eraser radius, in voxels, whose squared distances all fit in an `i32`.
pub const MAX_ERASER_RADIUS_VOXELS: u32 = 26754;

/// The eraser's rule for one voxel.
pub fn erase_voxel(center: Coords, radius_voxels_sqr: u32, coords: Coords, old: Voxel) -> (v: Voxel)
    requires
        -0x8000_0000 <= center.0.x - coords.0.x <= 0x7fff_ffff,
        -0x8000_0000 <= center.0.y - coords.0.y <= 0x7fff_ffff,
        -0x8000_0000 <= center.0.z - coords.0.z <= 0x7fff_ffff,
        center.spec_distance_squared(coords) <= i32::MAX,
    ensures
        v == erased(center, radius_voxels_sqr, coords, old),
{
    if center.distance_squared(coords) <= radius_voxels_sqr {
        Voxel::default()
    } else {
        old
    }
}

proof fn lemma_erase_box(center: Coords, r: int, c: Coords)
    requires
        0 <= r <= MAX_ERASER_RADIUS_VOXELS,
        -r <= c.0.x - center.0.x <= r,
        -r <= c.0.y - center.0.y <= r,
        -r <= c.0.z - center.0.z <= r,
    ensures
        center.spec_distance_squared(c) <= i32::MAX,
{
    let dx = center.0.x - c.0.x;
    let dy = center.0.y - c.0.y;
    let dz = center.0.z - c.0.z;
    assert(dx * dx <= r * r) by (nonlinear_arith)
        requires
            -r <= dx <= r,
    ;
    assert(dy * dy <= r * r) by (nonlinear_arith)
        requires
            -r <= dy <= r,
    ;
    assert(dz * dz <= r * r) by (nonlinear_arith)
        requires
            -r <= dz <= r,
    ;
    assert(r * r <= 26754 * 26754) by (nonlinear_arith)
        requires
            0 <= r <= 26754,
    ;
}

proof fn lemma_within_radius_in_box(center: Coords, r: int, c: Coords)
    requires
        0 <= r,
        center.spec_distance_squared(c) <= r * r,
    ensures
        in_update_box(center, r as i32, c) || r > i32::MAX,
{
    let dx = center.0.x - c.0.x;
    let dy = center.0.y - c.0.y;
    let dz = center.0.z - c.0.z;
    assert(0 <= dx * dx && 0 <= dy * dy && 0 <= dz * dz) by (nonlinear_arith);
    assert(-r <= dx <= r) by (nonlinear_arith)
        requires
            0 <= r,
            dx * dx <= r * r,
    ;
    assert(-r <= dy <= r) by (nonlinear_arith)
        requires
            0 <= r,
            dy * dy <= r * r,
    ;
    assert(-r <= dz <= r) by (nonlinear_arith)
        requires
            0 <= r,
            dz * dz <= r * r,
    ;
}

/// The eraser removes every voxel within its radius, whatever its material (drafts, solid and
/// projected voxels alike), leaving air of colour zero; every voxel beyond the radius is kept
/// as it was.
pub proof fn lemma_eraser_clears_ball(center: Coords, radius_voxels_sqr: u32, coords: Coords, old: Voxel)
    ensures
        center.spec_distance_squared(coords) <= radius_voxels_sqr ==> erased(
            center,
            radius_voxels_sqr,
            coords,
            old,
        ).material == VoxelMaterial::Air && erased(center, radius_voxels_sqr, coords, old).rgb
            == [0u8, 0u8, 0u8],
        center.spec_distance_squared(coords) > radius_voxels_sqr ==> erased(
            center,
            radius_voxels_sqr,
            coords,
            old,
        ) == old,
{
}


/// Erases a ball of `radius_voxels` around `center` from the chunk at `chunk_coords`: every
/// voxel whose squared distance to the centre is at most the squared radius becomes the
/// default voxel, the rest stay. Erasing never leaves draft voxels behind.
pub fn erase_in_chunk(
    data: &mut ChunkData,
    chunk_coords: ChunkCoords,
    center: Coords,
    radius_voxels: u32,
) -> (has_draft_material: bool)
    requires
        old(data).wf(),
        chunk_addressable(chunk_coords),
        radius_voxels <= MAX_ERASER_RADIUS_VOXELS,
    ensures
        final(data).wf(),
        forall|i: int|
            0 <= i < VOXELS_PER_CHUNK ==> #[trigger] final(data).voxels@[i] == erased(
                center,
                (radius_voxels * radius_voxels) as u32,
                stored_coords(chunk_coords, i),
                old(data).voxels@[i],
            ),
        !has_draft_material,
{
    let ghost old_voxels = data.voxels@;
    let r = radius_voxels as i32;
    assert(radius_voxels * radius_voxels <= 26754 * 26754) by (nonlinear_arith)
        requires
            radius_voxels <= 26754,
    ;
    let radius_voxels_sqr = radius_voxels * radius_voxels;
    let erase = |coords: Coords, old_voxel: Voxel| -> (v: Voxel)
        requires
            in_update_box(center, r, coords),
        ensures
            v == erased(center, radius_voxels_sqr, coords, old_voxel),
        {
            proof {
                lemma_erase_box(center, r as int, coords);
            }
            erase_voxel(center, radius_voxels_sqr, coords, old_voxel)
        };
    let has_draft_material = update_chunk(data, chunk_coords, center, r, &erase);
    proof {
        assert forall|i: int| 0 <= i < VOXELS_PER_CHUNK implies #[trigger] data.voxels@[i] == erased(
            center,
            radius_voxels_sqr,
            stored_coords(chunk_coords, i),
            old_voxels[i],
        ) by {
            let c = stored_coords(chunk_coords, i);
            assert(updated_voxel(erase, center, r, chunk_coords, i, old_voxels[i], data.voxels@[i]));
            if !in_update_box(center, r, c) {
                if center.spec_distance_squared(c) <= radius_voxels_sqr {
                    lemma_within_radius_in_box(center, r as int, c);
                }
            }
        }
        if has_draft_material {
            let i = choose|i: int|
                0 <= i < VOXELS_PER_CHUNK && became_draft(old_voxels[i], #[trigger] data.voxels@[i]);
            assert(data.voxels@[i] == erased(
                center,
                radius_voxels_sqr,
                stored_coords(chunk_coords, i),
                old_voxels[i],
            ));
        }
    }
    has_draft_material
}

} // verus!
