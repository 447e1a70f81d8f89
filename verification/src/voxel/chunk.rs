//! Chunks: cubes of voxels that the world is divided into.

use vstd::prelude::*;

use crate::math::{IVec3, UVec3};

use super::{Coords, Voxel, VoxelMaterial, VOXELS_PER_CHUNK, VOXELS_PER_CHUNK_SIDE};

verus! {

/// The coordinates of a chunk, in units of whole chunks.
#[derive(Clone, Copy, Debug, PartialEq, Eq, Structural, Hash)]
pub struct ChunkCoords(pub IVec3);

impl ChunkCoords {
    /// The absolute coordinates of voxel `voxel_coords` of this chunk.
    pub fn with_voxel_coords(&self, voxel_coords: UVec3) -> (c: Coords)
        requires
            Coords::combinable(*self, voxel_coords),
        ensures
            c == Coords::spec_from_chunk_and_voxel(*self, voxel_coords),
    {
        Coords::from_chunk_and_voxel(*self, voxel_coords)
    }

    /// The voxel in the middle of this chunk, where an update asks whether to allocate it.
    pub fn center_coords(&self) -> (c: Coords)
        requires
            Coords::combinable(*self, UVec3 { x: 12, y: 12, z: 12 }),
        ensures
            c == Coords::spec_from_chunk_and_voxel(*self, UVec3 { x: 12, y: 12, z: 12 }),
    {
        self.with_voxel_coords(UVec3::splat(12))
    }

    /// The coordinates written out as `[x, y, z]`.
    pub fn to_string(&self) -> (s: String)
        ensures
            s@ == crate::math::ivec3_text(self.0),
    {
        self.0.to_string()
    }
}

/// Whether `(x, y, z)` lies inside a chunk.
pub open spec fn in_chunk(x: int, y: int, z: int) -> bool {
    0 <= x < 25 && 0 <= y < 25 && 0 <= z < 25
}

/// Where the voxel at `(x, y, z)` of a chunk is stored.
pub open spec fn voxel_index(x: int, y: int, z: int) -> int {
    x + y * 25 + z * 625
}

/// The inverse of [`voxel_index`]: the position of the voxel stored at index `i`.
pub open spec fn index_x(i: int) -> int {
    i % 25
}

pub open spec fn index_y(i: int) -> int {
    (i / 25) % 25
}

pub open spec fn index_z(i: int) -> int {
    i / 625
}

/// Storage indices and positions inside a chunk are in one-to-one correspondence.
pub proof fn lemma_voxel_index_bijective(x: int, y: int, z: int, i: int)
    ensures
        in_chunk(x, y, z) ==> 0 <= voxel_index(x, y, z) < 15625,
        in_chunk(x, y, z) ==> index_x(voxel_index(x, y, z)) == x && index_y(voxel_index(x, y, z))
            == y && index_z(voxel_index(x, y, z)) == z,
        0 <= i < 15625 ==> in_chunk(index_x(i), index_y(i), index_z(i)) && voxel_index(
            index_x(i),
            index_y(i),
            index_z(i),
        ) == i,
{
    if in_chunk(x, y, z) {
        let i = voxel_index(x, y, z);
        assert(i / 25 == y + z * 25);
        assert(i / 625 == z);
    }
    if 0 <= i < 15625 {
        assert(i == i % 25 + (i / 25) * 25);
        assert(i / 25 == (i / 25) % 25 + (i / 625) * 25);
    }
}

/// The voxels of a chunk.
pub struct ChunkData {
    pub voxels: Vec<Voxel>,
}

impl Default for ChunkData {
    /// A chunk full of the default voxel.
    fn default() -> (c: ChunkData)
        ensures
            c.wf(),
            forall|i: int| 0 <= i < VOXELS_PER_CHUNK ==> #[trigger] c.voxels@[i] == Voxel::empty(),
    {
        let mut voxels: Vec<Voxel> = Vec::with_capacity(VOXELS_PER_CHUNK);
        let mut i: usize = 0;
        while i < VOXELS_PER_CHUNK
            invariant
                i <= VOXELS_PER_CHUNK,
                voxels.len() == i,
                forall|j: int| 0 <= j < i ==> #[trigger] voxels@[j] == Voxel::empty(),
            decreases VOXELS_PER_CHUNK - i,
        {
            voxels.push(Voxel { rgb: [0, 0, 0], material: VoxelMaterial::Air });
            i += 1;
        }
        ChunkData { voxels }
    }
}

impl ChunkData {
    /// A chunk holds exactly one voxel per position.
    pub open spec fn wf(&self) -> bool {
        self.voxels.len() == VOXELS_PER_CHUNK
    }

    /// The voxel at `(x, y, z)`.
    pub open spec fn at(&self, x: int, y: int, z: int) -> Voxel {
        self.voxels@[voxel_index(x, y, z)]
    }

    /// Scans through all the voxels in the chunk to check if it is completely empty.
    pub fn is_completely_empty(&self) -> (b: bool)
        ensures
            b == (forall|i: int|
                0 <= i < self.voxels.len() ==> #[trigger] self.voxels@[i].material
                    == VoxelMaterial::Air),
    {
        let mut i: usize = 0;
        while i < self.voxels.len()
            invariant
                i <= self.voxels.len(),
                forall|j: int| 0 <= j < i ==> #[trigger] self.voxels@[j].material == VoxelMaterial::Air,
            decreases self.voxels.len() - i,
        {
            if self.voxels[i].material != VoxelMaterial::Air {
                return false;
            }
            i += 1;
        }
        true
    }

    /// Scans through all the voxels in the chunk to check if it is completely solid.
    pub fn is_completely_solid(&self) -> (b: bool)
        ensures
            b == (forall|i: int|
                0 <= i < self.voxels.len() ==> #[trigger] self.voxels@[i].material
                    != VoxelMaterial::Air),
    {
        let mut i: usize = 0;
        while i < self.voxels.len()
            invariant
                i <= self.voxels.len(),
                forall|j: int| 0 <= j < i ==> #[trigger] self.voxels@[j].material != VoxelMaterial::Air,
            decreases self.voxels.len() - i,
        {
            if self.voxels[i].material == VoxelMaterial::Air {
                return false;
            }
            i += 1;
        }
        true
    }

    /// The voxel at the given position, if the position lies inside the chunk and the chunk
    /// stores it.
    pub fn voxel(&self, coords: UVec3) -> (v: Option<Voxel>)
        ensures
            v == (if in_chunk(coords.x as int, coords.y as int, coords.z as int) && voxel_index(
                coords.x as int,
                coords.y as int,
                coords.z as int,
            ) < self.voxels.len() {
                Some(self.voxels@[voxel_index(coords.x as int, coords.y as int, coords.z as int)])
            } else {
                None
            }),
    {
        match voxel_coord_to_index(coords) {
            Some(i) => {
                if i < self.voxels.len() {
                    Some(self.voxels[i])
                } else {
                    None
                }
            },
            None => None,
        }
    }

    /// A mutable reference to the voxel at the given position, if the position lies inside the
    /// chunk and the chunk stores it.
    pub fn voxel_mut(&mut self, coords: UVec3) -> (r: Option<&mut Voxel>)
        ensures
            r is Some == (in_chunk(coords.x as int, coords.y as int, coords.z as int) && voxel_index(
                coords.x as int,
                coords.y as int,
                coords.z as int,
            ) < old(self).voxels.len()),
            r matches Some(v) ==> *v == old(self).voxels@[voxel_index(
                coords.x as int,
                coords.y as int,
                coords.z as int,
            )] && final(self).voxels@ == old(self).voxels@.update(
                voxel_index(coords.x as int, coords.y as int, coords.z as int),
                *final(v),
            ),
            r is None ==> final(self).voxels@ == old(self).voxels@,
    {
        match voxel_coord_to_index(coords) {
            Some(i) => {
                if i < self.voxels.len() {
                    Some(&mut self.voxels[i])
                } else {
                    None
                }
            },
            None => None,
        }
    }

    /// Turns every draft voxel into a solid one, leaving all else as it was.
    pub fn promote_draft_voxels(&mut self)
        ensures
            final(self).voxels.len() == old(self).voxels.len(),
            forall|i: int|
                0 <= i < old(self).voxels.len() ==> #[trigger] final(self).voxels@[i] == promoted(
                    old(self).voxels@[i],
                ),
    {
        let mut i: usize = 0;
        while i < self.voxels.len()
            invariant
                i <= self.voxels.len(),
                self.voxels.len() == old(self).voxels.len(),
                forall|j: int| 0 <= j < i ==> #[trigger] self.voxels@[j] == promoted(old(self).voxels@[j]),
                forall|j: int| i <= j < self.voxels.len() ==> #[trigger] self.voxels@[j] == old(
                    self,
                ).voxels@[j],
            decreases self.voxels.len() - i,
        {
            let v = self.voxels[i];
            if v.material == VoxelMaterial::Draft {
                self.voxels.set(i, v.with_material(VoxelMaterial::Solid));
            }
            i += 1;
        }
    }
}

/// The collider a chunk that holds voxels gets when play starts.
#[derive(Clone, Copy, Debug, PartialEq, Eq, Structural)]
pub enum ChunkCollider {
    /// A box around the whole chunk.
    Cuboid,
    /// The convex hull of the chunk's mesh.
    ConvexHull,
}

/// The collider of a chunk: none when it is all air, a box when it holds no air at all, the
/// convex hull of its mesh otherwise.
pub fn chunk_collider(data: &ChunkData) -> (c: Option<ChunkCollider>)
    ensures
        c == if forall|i: int| 0 <= i < data.voxels.len() ==> #[trigger] data.voxels@[i].material
            == VoxelMaterial::Air {
            None
        } else if forall|i: int|
            0 <= i < data.voxels.len() ==> #[trigger] data.voxels@[i].material
                != VoxelMaterial::Air {
            Some(ChunkCollider::Cuboid)
        } else {
            Some(ChunkCollider::ConvexHull)
        },
{
    if data.is_completely_empty() {
        None
    } else if data.is_completely_solid() {
        Some(ChunkCollider::Cuboid)
    } else {
        Some(ChunkCollider::ConvexHull)
    }
}

/// Whether a chunk is removed from the world: it has not been updated for longer than the
/// collection time and holds nothing but air.
pub fn should_garbage_collect(data: &ChunkData, idle_past_collection_time: bool) -> (b: bool)
    ensures
        b == (idle_past_collection_time && forall|i: int|
            0 <= i < data.voxels.len() ==> #[trigger] data.voxels@[i].material
                == VoxelMaterial::Air),
{
    idle_past_collection_time && data.is_completely_empty()
}

/// A voxel after draft voxels have been made real: drafts become solid, all else stays.
pub open spec fn promoted(v: Voxel) -> Voxel {
    if v.material == VoxelMaterial::Draft {
        v.with_spec_material(VoxelMaterial::Solid)
    } else {
        v
    }
}

/// How long, in milliseconds, a chunk's drafts wait after its last update before they become
/// solid.
pub const DRAFT_CONVERSION_MS: u64 = 1000;

/// How many of the chunks holding drafts, taken in order, have their drafts made solid in one
/// pass, given the milliseconds since each was last updated: the pass stops at the first chunk
/// updated less than [`DRAFT_CONVERSION_MS`] ago, so only the chunks before it are promoted.
pub fn draft_chunks_due(elapsed_ms: &Vec<u64>) -> (n: usize)
    ensures
        n <= elapsed_ms.len(),
        forall|i: int| 0 <= i < n ==> #[trigger] elapsed_ms@[i] >= DRAFT_CONVERSION_MS,
        n < elapsed_ms.len() ==> elapsed_ms@[n as int] < DRAFT_CONVERSION_MS,
{
    let mut n: usize = 0;
    while n < elapsed_ms.len()
        invariant
            n <= elapsed_ms.len(),
            forall|i: int| 0 <= i < n ==> #[trigger] elapsed_ms@[i] >= DRAFT_CONVERSION_MS,
        decreases elapsed_ms.len() - n,
    {
        if elapsed_ms[n] < DRAFT_CONVERSION_MS {
            return n;
        }
        n += 1;
    }
    n
}

/// Promoting draft voxels leaves no draft behind, so promoting again changes nothing.
pub proof fn lemma_promote_idempotent(v: Voxel)
    ensures
        promoted(v).material != VoxelMaterial::Draft,
        promoted(promoted(v)) == promoted(v),
{
}

/// Where the voxel at `coords` is stored, if `coords` lies inside a chunk.
pub fn voxel_coord_to_index(coords: UVec3) -> (i: Option<usize>)
    ensures
        i == (if in_chunk(coords.x as int, coords.y as int, coords.z as int) {
            Some(voxel_index(coords.x as int, coords.y as int, coords.z as int) as usize)
        } else {
            None
        }),
{
    let x = coords.x as usize;
    let y = coords.y as usize;
    let z = coords.z as usize;
    if x >= VOXELS_PER_CHUNK_SIDE || y >= VOXELS_PER_CHUNK_SIDE || z >= VOXELS_PER_CHUNK_SIDE {
        return None;
    }
    Some(x + (y * VOXELS_PER_CHUNK_SIDE) + (z * VOXELS_PER_CHUNK_SIDE * VOXELS_PER_CHUNK_SIDE))
}


/// Whether the face of voxel `(x, y, z)` that points along `(dx, dy, dz)` can be seen: faces at
/// chunk borders always can, others only when the neighbouring voxel is air.
pub open spec fn face_visible(data: ChunkData, x: int, y: int, z: int, dx: int, dy: int, dz: int) -> bool {
    !in_chunk(x + dx, y + dy, z + dz) || data.at(x + dx, y + dy, z + dz).material
        == VoxelMaterial::Air
}

/// Whether the face of voxel `(x, y, z)` that points along `(dx, dy, dz)` is visible.
pub fn is_face_visible(
    chunk: &ChunkData,
    x: usize,
    y: usize,
    z: usize,
    dx: isize,
    dy: isize,
    dz: isize,
) -> (b: bool)
    requires
        chunk.wf(),
        in_chunk(x as int, y as int, z as int),
        -1 <= dx <= 1,
        -1 <= dy <= 1,
        -1 <= dz <= 1,
    ensures
        b == face_visible(*chunk, x as int, y as int, z as int, dx as int, dy as int, dz as int),
{
    let nx = x as isize + dx;
    let ny = y as isize + dy;
    let nz = z as isize + dz;
    if nx < 0 || ny < 0 || nz < 0 || nx >= VOXELS_PER_CHUNK_SIDE as isize || ny
        >= VOXELS_PER_CHUNK_SIDE as isize || nz >= VOXELS_PER_CHUNK_SIDE as isize {
        return true;
    }
    match chunk.voxel(UVec3 { x: nx as u32, y: ny as u32, z: nz as u32 }) {
        Some(v) => v.material == VoxelMaterial::Air,
        None => true,
    }
}

/// The corner of a voxel that face `f` starts from (front, back, left, right, top, bottom).
pub open spec fn face_origin(f: int) -> (int, int, int) {
    if f == 0 {
        (0, 0, 1)
    } else if f == 3 {
        (1, 0, 0)
    } else if f == 4 {
        (0, 1, 0)
    } else {
        (0, 0, 0)
    }
}

/// The first edge of face `f`.
pub open spec fn face_du(f: int) -> (int, int, int) {
    if f == 0 || f == 4 || f == 5 {
        (1, 0, 0)
    } else if f == 1 || f == 3 {
        (0, 1, 0)
    } else {
        (0, 0, 1)
    }
}

/// The second edge of face `f`.
pub open spec fn face_dv(f: int) -> (int, int, int) {
    if f == 0 || f == 2 {
        (0, 1, 0)
    } else if f == 1 {
        (1, 0, 0)
    } else {
        (0, 0, 1)
    }
}

/// The direction that face `f` points to.
pub open spec fn face_normal(f: int) -> (int, int, int) {
    if f == 0 {
        (0, 0, 1)
    } else if f == 1 {
        (0, 0, -1)
    } else if f == 2 {
        (-1, 0, 0)
    } else if f == 3 {
        (1, 0, 0)
    } else if f == 4 {
        (0, 1, 0)
    } else {
        (0, -1, 0)
    }
}

/// A face of the mesh: the voxel it belongs to and which of its six faces it is.
pub struct MeshFace {
    pub x: int,
    pub y: int,
    pub z: int,
    pub face: int,
}

/// The position of the voxel visited at step `n` of the meshing walk (`x` slowest, `z` fastest).
pub open spec fn walk_x(n: int) -> int {
    n / 625
}

pub open spec fn walk_y(n: int) -> int {
    (n / 25) % 25
}

pub open spec fn walk_z(n: int) -> int {
    n % 25
}

/// The visible faces among the first `f` faces of the voxel at `(x, y, z)`.
pub open spec fn cell_faces_upto(data: ChunkData, x: int, y: int, z: int, f: nat) -> Seq<MeshFace>
    decreases f,
{
    if f == 0 {
        Seq::empty()
    } else {
        let g = (f - 1) as nat;
        let n = face_normal(g as int);
        cell_faces_upto(data, x, y, z, g) + if face_visible(data, x, y, z, n.0, n.1, n.2) {
            seq![MeshFace { x, y, z, face: g as int }]
        } else {
            Seq::empty()
        }
    }
}

/// The faces that the voxel visited at step `n` adds to the mesh: none for air, else its
/// visible faces in order.
pub open spec fn cell_faces(data: ChunkData, n: int) -> Seq<MeshFace> {
    let (x, y, z) = (walk_x(n), walk_y(n), walk_z(n));
    if data.at(x, y, z).material == VoxelMaterial::Air {
        Seq::empty()
    } else {
        cell_faces_upto(data, x, y, z, 6)
    }
}

/// The faces that the first `n` steps of the meshing walk add to the mesh.
pub open spec fn mesh_faces_upto(data: ChunkData, n: nat) -> Seq<MeshFace>
    decreases n,
{
    if n == 0 {
        Seq::empty()
    } else {
        mesh_faces_upto(data, (n - 1) as nat) + cell_faces(data, n - 1)
    }
}

/// All the faces of the mesh of a chunk, in the order they are emitted.
pub open spec fn mesh_faces(data: ChunkData) -> Seq<MeshFace> {
    mesh_faces_upto(data, 15625)
}

pub open spec fn vertex(x: int, y: int, z: int, a: (int, int, int)) -> UVec3 {
    UVec3 { x: (x + a.0) as u32, y: (y + a.1) as u32, z: (z + a.2) as u32 }
}

/// The four corners of a face.
pub open spec fn face_vertices(m: MeshFace) -> Seq<UVec3> {
    let o = face_origin(m.face);
    let u = face_du(m.face);
    let v = face_dv(m.face);
    seq![
        vertex(m.x, m.y, m.z, o),
        vertex(m.x, m.y, m.z, (o.0 + u.0, o.1 + u.1, o.2 + u.2)),
        vertex(m.x, m.y, m.z, (o.0 + u.0 + v.0, o.1 + u.1 + v.1, o.2 + u.2 + v.2)),
        vertex(m.x, m.y, m.z, (o.0 + v.0, o.1 + v.1, o.2 + v.2)),
    ]
}

/// Corner `j` of a face, as integers.
pub open spec fn face_corner(m: MeshFace, j: int) -> (int, int, int) {
    let v = face_vertices(m)[j];
    (v.x as int, v.y as int, v.z as int)
}

/// `a - b`.
pub open spec fn sub3(a: (int, int, int), b: (int, int, int)) -> (int, int, int) {
    (a.0 - b.0, a.1 - b.1, a.2 - b.2)
}

/// The cross product `a × b`.
pub open spec fn cross3(a: (int, int, int), b: (int, int, int)) -> (int, int, int) {
    (a.1 * b.2 - a.2 * b.1, a.2 * b.0 - a.0 * b.2, a.0 * b.1 - a.1 * b.0)
}

/// Each of the two triangles of every face winds counter-clockwise seen from outside the
/// voxel: the corners `a, b, c` of a triangle give `(b - a) × (c - a)` equal to the direction the
/// face points to, and the face lies on the side of the voxel that this direction points to.
/// So top faces, bottom faces and all the others show their front outwards.
pub proof fn lemma_faces_wind_outwards(m: MeshFace, k: int, t: int)
    requires
        in_chunk(m.x, m.y, m.z),
        0 <= m.face < 6,
        0 <= k <= 65532,
        0 <= t < 2,
    ensures
        ({
            let idx = face_indices(m, k);
            let a = idx[3 * t] as int - k;
            let b = idx[3 * t + 1] as int - k;
            let c = idx[3 * t + 2] as int - k;
            let n = face_normal(m.face);
            &&& 0 <= a < 4 && 0 <= b < 4 && 0 <= c < 4
            &&& cross3(
                sub3(face_corner(m, b), face_corner(m, a)),
                sub3(face_corner(m, c), face_corner(m, a)),
            ) == n
            &&& forall|j: int|
                0 <= j < 4 ==> {
                    let p = #[trigger] face_corner(m, j);
                    &&& (n.0 == 1 ==> p.0 == m.x + 1) && (n.0 == -1 ==> p.0 == m.x)
                    &&& (n.1 == 1 ==> p.1 == m.y + 1) && (n.1 == -1 ==> p.1 == m.y)
                    &&& (n.2 == 1 ==> p.2 == m.z + 1) && (n.2 == -1 ==> p.2 == m.z)
                }
        }),
{
    let o = face_origin(m.face);
    let u = face_du(m.face);
    let v = face_dv(m.face);
    assert(face_corner(m, 0) == (m.x + o.0, m.y + o.1, m.z + o.2));
    assert(face_corner(m, 1) == (m.x + o.0 + u.0, m.y + o.1 + u.1, m.z + o.2 + u.2));
    assert(face_corner(m, 2) == (
        m.x + o.0 + u.0 + v.0,
        m.y + o.1 + u.1 + v.1,
        m.z + o.2 + u.2 + v.2,
    ));
    assert(face_corner(m, 3) == (m.x + o.0 + v.0, m.y + o.1 + v.1, m.z + o.2 + v.2));
    let idx = face_indices(m, k);
    assert((k as u16) as int == k && ((k + 1) as u16) as int == k + 1 && ((k + 2) as u16) as int
        == k + 2 && ((k + 3) as u16) as int == k + 3);
    let (a, b, c) = if m.face == 4 {
        if t == 0 { (0int, 2int, 1int) } else { (2int, 0int, 3int) }
    } else {
        if t == 0 { (0int, 1int, 2int) } else { (2int, 3int, 0int) }
    };
    assert(idx[3 * t] as int - k == a);
    assert(idx[3 * t + 1] as int - k == b);
    assert(idx[3 * t + 2] as int - k == c);
    let e1 = sub3(face_corner(m, b), face_corner(m, a));
    let e2 = sub3(face_corner(m, c), face_corner(m, a));
    let uv = (u.0 + v.0, u.1 + v.1, u.2 + v.2);
    let neg_u = (-u.0, -u.1, -u.2);
    let neg_uv = (-uv.0, -uv.1, -uv.2);
    if m.face == 4 {
        if t == 0 {
            assert(e1 == uv && e2 == u);
        } else {
            assert(e1 == neg_uv && e2 == neg_u);
        }
    } else {
        if t == 0 {
            assert(e1 == u && e2 == uv);
        } else {
            assert(e1 == neg_u && e2 == neg_uv);
        }
    }
    assert(cross3(e1, e2) == face_normal(m.face)) by (nonlinear_arith)
        requires
            0 <= m.face < 6,
            u == face_du(m.face),
            v == face_dv(m.face),
            uv == (u.0 + v.0, u.1 + v.1, u.2 + v.2),
            neg_u == (-u.0, -u.1, -u.2),
            neg_uv == (-uv.0, -uv.1, -uv.2),
            m.face == 4 ==> (t == 0 ==> e1 == uv && e2 == u) && (t != 0 ==> e1 == neg_uv && e2 == neg_u),
            m.face != 4 ==> (t == 0 ==> e1 == u && e2 == uv) && (t != 0 ==> e1 == neg_u && e2 == neg_uv),
    ;
}

/// The two triangles of a face whose first corner is vertex `k`; the top face winds the other
/// way round.
pub open spec fn face_indices(m: MeshFace, k: int) -> Seq<u16> {
    if m.face == 4 {
        seq![k as u16, (k + 2) as u16, (k + 1) as u16, (k + 2) as u16, k as u16, (k + 3) as u16]
    } else {
        seq![k as u16, (k + 1) as u16, (k + 2) as u16, (k + 2) as u16, (k + 3) as u16, k as u16]
    }
}

/// The colour of the faces of a voxel: its own colour, or, for the mask mesh, black for
/// projected voxels and white for all others.
pub open spec fn voxel_mesh_color(v: Voxel, for_mask_mesh: bool) -> [u8; 3] {
    if for_mask_mesh {
        if v.material == VoxelMaterial::Projected {
            [0u8, 0u8, 0u8]
        } else {
            [255u8, 255u8, 255u8]
        }
    } else {
        v.rgb
    }
}

pub open spec fn positions_of(faces: Seq<MeshFace>) -> Seq<UVec3>
    decreases faces.len(),
{
    if faces.len() == 0 {
        Seq::empty()
    } else {
        positions_of(faces.drop_last()) + face_vertices(faces.last())
    }
}

pub open spec fn indices_of(faces: Seq<MeshFace>) -> Seq<u16>
    decreases faces.len(),
{
    if faces.len() == 0 {
        Seq::empty()
    } else {
        indices_of(faces.drop_last()) + face_indices(faces.last(), 4 * (faces.len() - 1))
    }
}

pub open spec fn colors_of(data: ChunkData, faces: Seq<MeshFace>, for_mask_mesh: bool) -> Seq<[u8; 3]>
    decreases faces.len(),
{
    if faces.len() == 0 {
        Seq::empty()
    } else {
        let m = faces.last();
        let c = voxel_mesh_color(data.at(m.x, m.y, m.z), for_mask_mesh);
        colors_of(data, faces.drop_last(), for_mask_mesh) + seq![c, c, c, c]
    }
}

proof fn lemma_faces_mesh_shape(data: ChunkData, faces: Seq<MeshFace>, for_mask_mesh: bool)
    requires
        faces.len() * 4 <= 65536,
    ensures
        positions_of(faces).len() == 4 * faces.len(),
        colors_of(data, faces, for_mask_mesh).len() == 4 * faces.len(),
        indices_of(faces).len() == 6 * faces.len(),
        forall|k: int|
            0 <= k < indices_of(faces).len() ==> (#[trigger] indices_of(faces)[k]) < 4 * faces.len(),
    decreases faces.len(),
{
    if faces.len() > 0 {
        let prev = faces.drop_last();
        lemma_faces_mesh_shape(data, prev, for_mask_mesh);
        let base = 4 * (faces.len() - 1);
        let tail = face_indices(faces.last(), base);
        assert forall|k: int| 0 <= k < indices_of(faces).len() implies (#[trigger] indices_of(faces)[k])
            < 4 * faces.len() by {
            if k >= indices_of(prev).len() {
                let j = k - indices_of(prev).len();
                assert(indices_of(faces)[k] == tail[j]);
                assert(tail[j] <= base + 3);
            } else {
                assert(indices_of(faces)[k] == indices_of(prev)[k]);
            }
        }
    }
}

/// The mesh of a chunk is well formed: four corners and four colours per face, two triangles
/// (six indices) per face, and every index names one of the mesh's corners.
pub proof fn lemma_chunk_mesh_well_formed(data: ChunkData, for_mask_mesh: bool)
    requires
        mesh_faces(data).len() * 4 <= 65535,
    ensures
        positions_of(mesh_faces(data)).len() == 4 * mesh_faces(data).len(),
        colors_of(data, mesh_faces(data), for_mask_mesh).len() == positions_of(mesh_faces(data)).len(),
        indices_of(mesh_faces(data)).len() == 6 * mesh_faces(data).len(),
        forall|k: int|
            0 <= k < indices_of(mesh_faces(data)).len() ==> (#[trigger] indices_of(mesh_faces(data))[k])
                < positions_of(mesh_faces(data)).len(),
{
    lemma_faces_mesh_shape(data, mesh_faces(data), for_mask_mesh);
}

/// The geometry of a chunk's mesh, in voxel units: four corners and one colour per face
/// corner, and two triangles per face.
pub struct ChunkMesh {
    pub positions: Vec<UVec3>,
    pub colors: Vec<[u8; 3]>,
    pub indices: Vec<u16>,
}


/// Face `f`'s corner, first edge, second edge and direction.
fn face_table(f: usize) -> (r: ((u32, u32, u32), (u32, u32, u32), (u32, u32, u32), (isize, isize, isize)))
    requires
        f < 6,
    ensures
        (r.0.0 as int, r.0.1 as int, r.0.2 as int) == face_origin(f as int),
        (r.1.0 as int, r.1.1 as int, r.1.2 as int) == face_du(f as int),
        (r.2.0 as int, r.2.1 as int, r.2.2 as int) == face_dv(f as int),
        (r.3.0 as int, r.3.1 as int, r.3.2 as int) == face_normal(f as int),
{
    if f == 0 {
        ((0, 0, 1), (1, 0, 0), (0, 1, 0), (0, 0, 1))
    } else if f == 1 {
        ((0, 0, 0), (0, 1, 0), (1, 0, 0), (0, 0, -1))
    } else if f == 2 {
        ((0, 0, 0), (0, 0, 1), (0, 1, 0), (-1, 0, 0))
    } else if f == 3 {
        ((1, 0, 0), (0, 1, 0), (0, 0, 1), (1, 0, 0))
    } else if f == 4 {
        ((0, 1, 0), (1, 0, 0), (0, 0, 1), (0, 1, 0))
    } else {
        ((0, 0, 0), (1, 0, 0), (0, 0, 1), (0, -1, 0))
    }
}

proof fn lemma_cell_faces_upto_len(data: ChunkData, x: int, y: int, z: int, f: nat, g: nat)
    requires
        f <= g,
    ensures
        cell_faces_upto(data, x, y, z, f).len() <= cell_faces_upto(data, x, y, z, g).len(),
    decreases g,
{
    if f < g {
        lemma_cell_faces_upto_len(data, x, y, z, f, (g - 1) as nat);
    }
}

proof fn lemma_mesh_faces_upto_len(data: ChunkData, n: nat, m: nat)
    requires
        n <= m,
    ensures
        mesh_faces_upto(data, n).len() <= mesh_faces_upto(data, m).len(),
    decreases m,
{
    if n < m {
        lemma_mesh_faces_upto_len(data, n, (m - 1) as nat);
    }
}

proof fn lemma_walk_in_chunk(n: int)
    requires
        0 <= n < 15625,
    ensures
        in_chunk(walk_x(n), walk_y(n), walk_z(n)),
{
}

proof fn lemma_mesh_push(data: ChunkData, s: Seq<MeshFace>, m: MeshFace, for_mask_mesh: bool)
    ensures
        positions_of(s.push(m)) == positions_of(s) + face_vertices(m),
        indices_of(s.push(m)) == indices_of(s) + face_indices(m, 4 * s.len() as int),
        colors_of(data, s.push(m), for_mask_mesh) == colors_of(data, s, for_mask_mesh) + {
            let c = voxel_mesh_color(data.at(m.x, m.y, m.z), for_mask_mesh);
            seq![c, c, c, c]
        },
{
    assert(s.push(m).drop_last() =~= s);
}

/// Appends the corners, colours and triangles of face `f` of voxel `(x, y, z)`, whose first
/// corner becomes vertex `k`.
fn emit_face(
    positions: &mut Vec<UVec3>,
    colors: &mut Vec<[u8; 3]>,
    indices: &mut Vec<u16>,
    k: u16,
    x: usize,
    y: usize,
    z: usize,
    f: usize,
    color: [u8; 3],
)
    requires
        in_chunk(x as int, y as int, z as int),
        f < 6,
        k + 3 <= 65535,
    ensures
        final(positions)@ == old(positions)@ + face_vertices(
            MeshFace { x: x as int, y: y as int, z: z as int, face: f as int },
        ),
        final(colors)@ == old(colors)@ + seq![color, color, color, color],
        final(indices)@ == old(indices)@ + face_indices(
            MeshFace { x: x as int, y: y as int, z: z as int, face: f as int },
            k as int,
        ),
{
    let (o, du, dv, _d) = face_table(f);
    let px = x as u32;
    let py = y as u32;
    let pz = z as u32;
    positions.push(UVec3 { x: px + o.0, y: py + o.1, z: pz + o.2 });
    positions.push(UVec3 { x: px + o.0 + du.0, y: py + o.1 + du.1, z: pz + o.2 + du.2 });
    positions.push(
        UVec3 { x: px + o.0 + du.0 + dv.0, y: py + o.1 + du.1 + dv.1, z: pz + o.2 + du.2 + dv.2 },
    );
    positions.push(UVec3 { x: px + o.0 + dv.0, y: py + o.1 + dv.1, z: pz + o.2 + dv.2 });
    colors.push(color);
    colors.push(color);
    colors.push(color);
    colors.push(color);
    if f == 4 {
        indices.push(k);
        indices.push(k + 2);
        indices.push(k + 1);
        indices.push(k + 2);
        indices.push(k);
        indices.push(k + 3);
    } else {
        indices.push(k);
        indices.push(k + 1);
        indices.push(k + 2);
        indices.push(k + 2);
        indices.push(k + 3);
        indices.push(k);
    }
    proof {
        let m = MeshFace { x: x as int, y: y as int, z: z as int, face: f as int };
        assert(final(positions)@ =~= old(positions)@ + face_vertices(m));
        assert(final(colors)@ =~= old(colors)@ + seq![color, color, color, color]);
        assert(final(indices)@ =~= old(indices)@ + face_indices(m, k as int));
    }
}

/// The number of faces in the mesh of a chunk.
pub fn visible_face_count(data: &ChunkData) -> (c: usize)
    requires
        data.wf(),
    ensures
        c == mesh_faces(*data).len(),
{
    let mut count: usize = 0;
    let mut n: usize = 0;
    while n < VOXELS_PER_CHUNK
        invariant
            data.wf(),
            n <= VOXELS_PER_CHUNK,
            count == mesh_faces_upto(*data, n as nat).len(),
            count <= 6 * n,
        decreases VOXELS_PER_CHUNK - n,
    {
        let x = n / 625;
        let y = (n / 25) % 25;
        let z = n % 25;
        proof {
            lemma_walk_in_chunk(n as int);
        }
        let voxel = match data.voxel(UVec3 { x: x as u32, y: y as u32, z: z as u32 }) {
            Some(v) => v,
            None => Voxel { rgb: [0, 0, 0], material: VoxelMaterial::Air },
        };
        if voxel.material != VoxelMaterial::Air {
            let mut f: usize = 0;
            while f < 6
                invariant
                    data.wf(),
                    n < VOXELS_PER_CHUNK,
                    in_chunk(x as int, y as int, z as int),
                    f <= 6,
                    count == mesh_faces_upto(*data, n as nat).len() + cell_faces_upto(
                        *data,
                        x as int,
                        y as int,
                        z as int,
                        f as nat,
                    ).len(),
                    count <= 6 * n + f,
                decreases 6 - f,
            {
                let (_o, _du, _dv, d) = face_table(f);
                if is_face_visible(data, x, y, z, d.0, d.1, d.2) {
                    count += 1;
                }
                f += 1;
            }
        }
        n += 1;
    }
    count
}

proof fn lemma_cell_faces_upto_at(data: ChunkData, x: int, y: int, z: int, f: nat, k: int)
    requires
        0 <= k < cell_faces_upto(data, x, y, z, f).len(),
    ensures
        cell_faces_upto(data, x, y, z, f)[k].x == x,
        cell_faces_upto(data, x, y, z, f)[k].y == y,
        cell_faces_upto(data, x, y, z, f)[k].z == z,
    decreases f,
{
    if f > 0 {
        let g = (f - 1) as nat;
        if k < cell_faces_upto(data, x, y, z, g).len() {
            lemma_cell_faces_upto_at(data, x, y, z, g, k);
        }
    }
}

proof fn lemma_mesh_faces_upto_not_air(data: ChunkData, n: nat, k: int)
    requires
        0 <= k < mesh_faces_upto(data, n).len(),
    ensures
        ({
            let m = mesh_faces_upto(data, n)[k];
            data.at(m.x, m.y, m.z).material != VoxelMaterial::Air
        }),
    decreases n,
{
    if n > 0 {
        let p = mesh_faces_upto(data, (n - 1) as nat);
        if k < p.len() {
            lemma_mesh_faces_upto_not_air(data, (n - 1) as nat, k);
        } else {
            let c = cell_faces(data, n - 1);
            let (x, y, z) = (walk_x(n - 1), walk_y(n - 1), walk_z(n - 1));
            assert(mesh_faces_upto(data, n)[k] == c[k - p.len()]);
            lemma_cell_faces_upto_at(data, x, y, z, 6, k - p.len());
        }
    }
}

proof fn lemma_colors_of_at(data: ChunkData, faces: Seq<MeshFace>, for_mask_mesh: bool, k: int, j: int)
    requires
        0 <= k < faces.len(),
        0 <= j < 4,
    ensures
        colors_of(data, faces, for_mask_mesh).len() == 4 * faces.len(),
        colors_of(data, faces, for_mask_mesh)[4 * k + j] == voxel_mesh_color(
            data.at(faces[k].x, faces[k].y, faces[k].z),
            for_mask_mesh,
        ),
    decreases faces.len(),
{
    lemma_colors_of_len(data, faces.drop_last(), for_mask_mesh);
    if k < faces.len() - 1 {
        lemma_colors_of_at(data, faces.drop_last(), for_mask_mesh, k, j);
        assert(faces.drop_last()[k] == faces[k]);
    }
}

proof fn lemma_colors_of_len(data: ChunkData, faces: Seq<MeshFace>, for_mask_mesh: bool)
    ensures
        colors_of(data, faces, for_mask_mesh).len() == 4 * faces.len(),
    decreases faces.len(),
{
    if faces.len() > 0 {
        lemma_colors_of_len(data, faces.drop_last(), for_mask_mesh);
    }
}

/// Every face of a chunk's mesh belongs to a voxel that is not air, so air adds no faces; in the
/// mask mesh its four corners are black where the voxel is projected and white where it is a
/// draft or solid, and in the coloured mesh they take the voxel's colour. (The faces, and so
/// the positions and indices, are the same for both meshes: see [`build_mesh`].)
pub proof fn lemma_mask_mesh_colors(data: ChunkData, k: int, j: int)
    requires
        0 <= k < mesh_faces(data).len(),
        0 <= j < 4,
    ensures
        ({
            let m = mesh_faces(data)[k];
            let v = data.at(m.x, m.y, m.z);
            &&& v.material != VoxelMaterial::Air
            &&& colors_of(data, mesh_faces(data), true)[4 * k + j] == if v.material
                == VoxelMaterial::Projected {
                [0u8, 0u8, 0u8]
            } else {
                [255u8, 255u8, 255u8]
            }
            &&& colors_of(data, mesh_faces(data), false)[4 * k + j] == v.rgb
        }),
{
    lemma_mesh_faces_upto_not_air(data, 15625, k);
    lemma_colors_of_at(data, mesh_faces(data), true, k, j);
    lemma_colors_of_at(data, mesh_faces(data), false, k, j);
}


/// Builds the geometry of the mesh of a chunk: for every non-air voxel, walked with `x` slowest
/// and `z` fastest, each visible face in the order front, back, left, right, top, bottom.
/// Indices are 16-bit, so the mesh may have at most 16383 faces.
pub fn build_mesh(data: &ChunkData, for_mask_mesh: bool) -> (mesh: ChunkMesh)
    requires
        data.wf(),
        mesh_faces(*data).len() * 4 <= 65535,
    ensures
        mesh.positions@ == positions_of(mesh_faces(*data)),
        mesh.indices@ == indices_of(mesh_faces(*data)),
        mesh.colors@ == colors_of(*data, mesh_faces(*data), for_mask_mesh),
{
    let mut positions: Vec<UVec3> = Vec::new();
    let mut colors: Vec<[u8; 3]> = Vec::new();
    let mut indices: Vec<u16> = Vec::new();
    let mut index_offset: u16 = 0;
    let mut n: usize = 0;
    while n < VOXELS_PER_CHUNK
        invariant
            data.wf(),
            mesh_faces(*data).len() * 4 <= 65535,
            n <= VOXELS_PER_CHUNK,
            positions@ == positions_of(mesh_faces_upto(*data, n as nat)),
            indices@ == indices_of(mesh_faces_upto(*data, n as nat)),
            colors@ == colors_of(*data, mesh_faces_upto(*data, n as nat), for_mask_mesh),
            index_offset == 4 * mesh_faces_upto(*data, n as nat).len(),
        decreases VOXELS_PER_CHUNK - n,
    {
        let x = n / 625;
        let y = (n / 25) % 25;
        let z = n % 25;
        proof {
            lemma_walk_in_chunk(n as int);
            lemma_mesh_faces_upto_len(*data, (n + 1) as nat, 15625);
        }
        let voxel = match data.voxel(UVec3 { x: x as u32, y: y as u32, z: z as u32 }) {
            Some(v) => v,
            None => Voxel { rgb: [0, 0, 0], material: VoxelMaterial::Air },
        };
        let ghost prefix = mesh_faces_upto(*data, n as nat);
        if voxel.material != VoxelMaterial::Air {
            let color: [u8; 3] = if for_mask_mesh {
                if voxel.material == VoxelMaterial::Projected {
                    [0, 0, 0]
                } else {
                    [255, 255, 255]
                }
            } else {
                voxel.rgb
            };
            assert(color == voxel_mesh_color(data.at(x as int, y as int, z as int), for_mask_mesh));
            let mut f: usize = 0;
            while f < 6
                invariant
                    data.wf(),
                    n < VOXELS_PER_CHUNK,
                    x == walk_x(n as int),
                    y == walk_y(n as int),
                    z == walk_z(n as int),
                    in_chunk(x as int, y as int, z as int),
                    data.at(x as int, y as int, z as int).material != VoxelMaterial::Air,
                    color == voxel_mesh_color(data.at(x as int, y as int, z as int), for_mask_mesh),
                    prefix == mesh_faces_upto(*data, n as nat),
                    mesh_faces_upto(*data, (n + 1) as nat).len() * 4 <= 65535,
                    f <= 6,
                    positions@ == positions_of(
                        prefix + cell_faces_upto(*data, x as int, y as int, z as int, f as nat),
                    ),
                    indices@ == indices_of(
                        prefix + cell_faces_upto(*data, x as int, y as int, z as int, f as nat),
                    ),
                    colors@ == colors_of(
                        *data,
                        prefix + cell_faces_upto(*data, x as int, y as int, z as int, f as nat),
                        for_mask_mesh,
                    ),
                    index_offset == 4 * (prefix.len() + cell_faces_upto(
                        *data,
                        x as int,
                        y as int,
                        z as int,
                        f as nat,
                    ).len()),
                decreases 6 - f,
            {
                let ghost done = prefix + cell_faces_upto(*data, x as int, y as int, z as int, f as nat);
                proof {
                    lemma_cell_faces_upto_len(*data, x as int, y as int, z as int, (f + 1) as nat, 6);
                }
                let (_o, _du, _dv, d) = face_table(f);
                if is_face_visible(data, x, y, z, d.0, d.1, d.2) {
                    let ghost m = MeshFace { x: x as int, y: y as int, z: z as int, face: f as int };
                    let ghost next = done.push(m);
                    assert(next =~= prefix + cell_faces_upto(
                        *data,
                        x as int,
                        y as int,
                        z as int,
                        (f + 1) as nat,
                    ));
                    proof {
                        lemma_mesh_push(*data, done, m, for_mask_mesh);
                    }
                    emit_face(&mut positions, &mut colors, &mut indices, index_offset, x, y, z, f, color);
                    index_offset = index_offset + 4;
                } else {
                    assert(done =~= prefix + cell_faces_upto(
                        *data,
                        x as int,
                        y as int,
                        z as int,
                        (f + 1) as nat,
                    ));
                }
                f += 1;
            }
            assert(mesh_faces_upto(*data, (n + 1) as nat) =~= prefix + cell_faces_upto(
                *data,
                x as int,
                y as int,
                z as int,
                6,
            ));
        } else {
            assert(mesh_faces_upto(*data, (n + 1) as nat) =~= prefix);
        }
        n += 1;
    }
    ChunkMesh { positions, colors, indices }
}


/// A sphere of voxels that will be applied to the world.
#[derive(Clone, Copy, Debug)]
pub struct ChunkSphere {
    pub center: Coords,
    pub radius_voxels: u32,
    pub radius_voxels_sqr: u32,
    pub color: [u8; 3],
}

/// The absolute position of the voxel stored at index `i` of the chunk at `cc`.
pub open spec fn stored_pos(cc: ChunkCoords, i: int) -> (int, int, int) {
    (cc.0.x * 25 + index_x(i), cc.0.y * 25 + index_y(i), cc.0.z * 25 + index_z(i))
}

/// Whether offset `(dx, dy, dz)` from the centre lies in the cube `[-r, r]` on each axis.
pub open spec fn in_sphere_cube(r: int, dx: int, dy: int, dz: int) -> bool {
    -r <= dx <= r && -r <= dy <= r && -r <= dz <= r
}

/// Whether offset `(dx, dy, dz)` comes before `(xc, yc, zc)` in the walk of the cube
/// (`z` slowest, `x` fastest).
pub open spec fn walked_before(dx: int, dy: int, dz: int, xc: int, yc: int, zc: int) -> bool {
    dz < zc || (dz == zc && (dy < yc || (dy == yc && dx < xc)))
}

/// Whether the sphere paints the voxel at absolute position `p`: it lies within `radius_voxels`
/// of the centre on each axis and within the squared radius of the centre (see
/// [`lemma_sphere_paints_ball`] for a sphere whose squared radius is its radius squared).
pub open spec fn sphere_paints(s: ChunkSphere, p: (int, int, int)) -> bool {
    let dx = p.0 - s.center.0.x;
    let dy = p.1 - s.center.0.y;
    let dz = p.2 - s.center.0.z;
    in_sphere_cube(s.radius_voxels as int, dx, dy, dz) && dx * dx + dy * dy + dz * dz
        <= s.radius_voxels_sqr
}

/// For a sphere whose squared radius is its radius squared, the painted voxels are exactly
/// those within that squared distance of the centre.
pub proof fn lemma_sphere_paints_ball(s: ChunkSphere, p: (int, int, int))
    requires
        s.radius_voxels_sqr == s.radius_voxels * s.radius_voxels,
    ensures
        sphere_paints(s, p) <==> (p.0 - s.center.0.x) * (p.0 - s.center.0.x) + (p.1
            - s.center.0.y) * (p.1 - s.center.0.y) + (p.2 - s.center.0.z) * (p.2 - s.center.0.z)
            <= s.radius_voxels_sqr,
{
    let r = s.radius_voxels as int;
    let dx = p.0 - s.center.0.x;
    let dy = p.1 - s.center.0.y;
    let dz = p.2 - s.center.0.z;
    if dx * dx + dy * dy + dz * dz <= r * r {
        assert(0 <= dx * dx && 0 <= dy * dy && 0 <= dz * dz) by (nonlinear_arith);
        assert(-r <= dx <= r) by (nonlinear_arith)
            requires
                dx * dx <= r * r,
                r >= 0,
        ;
        assert(-r <= dy <= r) by (nonlinear_arith)
            requires
                dy * dy <= r * r,
                r >= 0,
        ;
        assert(-r <= dz <= r) by (nonlinear_arith)
            requires
                dz * dz <= r * r,
                r >= 0,
        ;
    }
}

/// The voxel that a sphere leaves behind: the sphere's colour on air, else the per-channel
/// average (rounded down) of the old colour and the sphere's; always projected.
pub open spec fn splat_blend(old: Voxel, color: [u8; 3]) -> Voxel {
    Voxel {
        rgb: if old.material == VoxelMaterial::Air {
            color
        } else {
            [
                ((old.rgb[0] + color[0]) / 2) as u8,
                ((old.rgb[1] + color[1]) / 2) as u8,
                ((old.rgb[2] + color[2]) / 2) as u8,
            ]
        },
        material: VoxelMaterial::Projected,
    }
}

/// Painting a voxel always makes it projected. Air takes the sphere's colour; any other voxel
/// (draft, solid or already projected) takes, in each channel, the average of its old colour and
/// the sphere's, rounded down.
pub proof fn lemma_splat_blend_colours(old: Voxel, color: [u8; 3])
    ensures
        splat_blend(old, color).material == VoxelMaterial::Projected,
        old.material == VoxelMaterial::Air ==> splat_blend(old, color).rgb == color,
        old.material != VoxelMaterial::Air ==> forall|c: int|
            0 <= c < 3 ==> 2 * (#[trigger] splat_blend(old, color).rgb[c]) == old.rgb[c] + color[c]
                || 2 * splat_blend(old, color).rgb[c] + 1 == old.rgb[c] + color[c],
{
    if old.material != VoxelMaterial::Air {
        assert forall|c: int| 0 <= c < 3 implies 2 * (#[trigger] splat_blend(old, color).rgb[c])
            == old.rgb[c] + color[c] || 2 * splat_blend(old, color).rgb[c] + 1 == old.rgb[c]
            + color[c] by {
            let b = splat_blend(old, color).rgb;
            assert(b[0] == (old.rgb[0] + color[0]) / 2);
            assert(b[1] == (old.rgb[1] + color[1]) / 2);
            assert(b[2] == (old.rgb[2] + color[2]) / 2);
        }
    }
}


/// Whether a sphere can be walked without any coordinate or squared distance leaving `i32`.
pub open spec fn sphere_fits(s: ChunkSphere) -> bool {
    let h = s.radius_voxels as int;
    &&& i32::MIN <= s.center.0.x - h
    &&& s.center.0.x + h <= i32::MAX
    &&& i32::MIN <= s.center.0.y - h
    &&& s.center.0.y + h <= i32::MAX
    &&& i32::MIN <= s.center.0.z - h
    &&& s.center.0.z + h <= i32::MAX
    &&& 3 * h * h <= i32::MAX
}

spec fn sphere_partial(
    old: Seq<Voxel>,
    cc: ChunkCoords,
    s: ChunkSphere,
    i: int,
    xc: int,
    yc: int,
    zc: int,
) -> Voxel {
    let p = stored_pos(cc, i);
    let dx = p.0 - s.center.0.x;
    let dy = p.1 - s.center.0.y;
    let dz = p.2 - s.center.0.z;
    if sphere_paints(s, p) && walked_before(dx, dy, dz, xc, yc, zc) {
        splat_blend(old[i], s.color)
    } else {
        old[i]
    }
}

proof fn lemma_stored_pos_unique(cc: ChunkCoords, i: int, j: int)
    requires
        0 <= i < 15625,
        0 <= j < 15625,
        stored_pos(cc, i) == stored_pos(cc, j),
    ensures
        i == j,
{
    lemma_voxel_index_bijective(0, 0, 0, i);
    lemma_voxel_index_bijective(0, 0, 0, j);
}

fn blend_voxel(old: Voxel, color: [u8; 3]) -> (v: Voxel)
    ensures
        v == splat_blend(old, color),
{
    let rgb = if old.material == VoxelMaterial::Air {
        color
    } else {
        let r = ((old.rgb[0] as u16 + color[0] as u16) / 2) as u8;
        let g = ((old.rgb[1] as u16 + color[1] as u16) / 2) as u8;
        let b = ((old.rgb[2] as u16 + color[2] as u16) / 2) as u8;
        [r, g, b]
    };
    let v = Voxel { rgb, material: VoxelMaterial::Projected };
    assert(v.rgb@ =~= splat_blend(old, color).rgb@);
    v
}

/// Paints the part of a sphere that falls into the chunk at `chunk_coords`: every voxel of the
/// chunk that the sphere covers (see [`sphere_paints`]) gets the sphere's colour, blended with
/// its own where it was not air, and becomes projected.
pub fn apply_sphere(data: &mut ChunkData, chunk_coords: ChunkCoords, sphere: &ChunkSphere)
    requires
        old(data).wf(),
        sphere_fits(*sphere),
    ensures
        final(data).wf(),
        forall|i: int|
            0 <= i < VOXELS_PER_CHUNK ==> #[trigger] final(data).voxels@[i] == if sphere_paints(
                *sphere,
                stored_pos(chunk_coords, i),
            ) {
                splat_blend(old(data).voxels@[i], sphere.color)
            } else {
                old(data).voxels@[i]
            },
{
    let ghost old_voxels = data.voxels@;
    assert(sphere.radius_voxels <= 26754) by (nonlinear_arith)
        requires
            3 * sphere.radius_voxels * sphere.radius_voxels <= i32::MAX,
    ;
    let h: i32 = sphere.radius_voxels as i32;
    let center = sphere.center;
    let mut z: i32 = -h;
    while z <= h
        invariant
            data.wf(),
            sphere_fits(*sphere),
            h == sphere.radius_voxels,
            h <= 26754,
            center == sphere.center,
            -h <= z <= h + 1,
            forall|i: int|
                0 <= i < VOXELS_PER_CHUNK ==> #[trigger] data.voxels@[i] == sphere_partial(
                    old_voxels,
                    chunk_coords,
                    *sphere,
                    i,
                    -h,
                    -h,
                    z as int,
                ),
        decreases h + 1 - z,
    {
        let mut y: i32 = -h;
        while y <= h
            invariant
                data.wf(),
                sphere_fits(*sphere),
                h == sphere.radius_voxels,
            h <= 26754,
                center == sphere.center,
                -h <= z <= h,
                -h <= y <= h + 1,
                forall|i: int|
                    0 <= i < VOXELS_PER_CHUNK ==> #[trigger] data.voxels@[i] == sphere_partial(
                        old_voxels,
                        chunk_coords,
                        *sphere,
                        i,
                        -h,
                        y as int,
                        z as int,
                    ),
            decreases h + 1 - y,
        {
            let mut x: i32 = -h;
            while x <= h
                invariant
                    data.wf(),
                    sphere_fits(*sphere),
                    h == sphere.radius_voxels,
            h <= 26754,
                    center == sphere.center,
                    -h <= z <= h,
                    -h <= y <= h,
                    -h <= x <= h + 1,
                    forall|i: int|
                        0 <= i < VOXELS_PER_CHUNK ==> #[trigger] data.voxels@[i] == sphere_partial(
                            old_voxels,
                            chunk_coords,
                            *sphere,
                            i,
                            x as int,
                            y as int,
                            z as int,
                        ),
                decreases h + 1 - x,
            {
                paint_offset(data, chunk_coords, sphere, Ghost(old_voxels), h, x, y, z);
                x += 1;
            }
            y += 1;
        }
        z += 1;
    }
}

/// The voxels of a chunk at `cc` after painting one sphere onto `v`.
pub open spec fn after_sphere(v: Seq<Voxel>, cc: ChunkCoords, s: ChunkSphere) -> Seq<Voxel> {
    Seq::new(
        v.len(),
        |i: int|
            if sphere_paints(s, stored_pos(cc, i)) {
                splat_blend(v[i], s.color)
            } else {
                v[i]
            },
    )
}

/// The voxels of a chunk at `cc` after painting the spheres in order.
pub open spec fn after_spheres(v: Seq<Voxel>, cc: ChunkCoords, spheres: Seq<ChunkSphere>) -> Seq<
    Voxel,
>
    decreases spheres.len(),
{
    if spheres.len() == 0 {
        v
    } else {
        after_sphere(after_spheres(v, cc, spheres.drop_last()), cc, spheres.last())
    }
}

/// Paints all pending spheres of a chunk, in the order they were queued, and empties the queue.
/// Returns whether there were any.
pub fn apply_pending_spheres(
    data: &mut ChunkData,
    chunk_coords: ChunkCoords,
    pending_spheres: &mut Vec<ChunkSphere>,
) -> (processed_any: bool)
    requires
        old(data).wf(),
        forall|k: int| 0 <= k < old(pending_spheres).len() ==> sphere_fits(#[trigger] old(pending_spheres)@[k]),
    ensures
        processed_any == (old(pending_spheres).len() > 0),
        final(pending_spheres).len() == 0,
        final(data).wf(),
        final(data).voxels@ == after_spheres(old(data).voxels@, chunk_coords, old(pending_spheres)@),
{
    let ghost queued = pending_spheres@;
    let mut k: usize = 0;
    while k < pending_spheres.len()
        invariant
            data.wf(),
            pending_spheres@ == queued,
            k <= queued.len(),
            forall|j: int| 0 <= j < queued.len() ==> sphere_fits(#[trigger] queued[j]),
            data.voxels@ == after_spheres(old(data).voxels@, chunk_coords, queued.subrange(0, k as int)),
        decreases queued.len() - k,
    {
        let ghost before = data.voxels@;
        apply_sphere(data, chunk_coords, &pending_spheres[k]);
        assert(queued.subrange(0, k + 1).drop_last() =~= queued.subrange(0, k as int));
        assert(data.voxels@ =~= after_sphere(before, chunk_coords, queued[k as int]));
        k += 1;
    }
    assert(queued.subrange(0, queued.len() as int) =~= queued);
    let processed_any = pending_spheres.len() > 0;
    pending_spheres.clear();
    processed_any
}

/// One step of [`apply_sphere`]: paints the voxel at offset `(x, y, z)` from the centre if it
/// lies in this chunk and within the radius.
fn paint_offset(
    data: &mut ChunkData,
    chunk_coords: ChunkCoords,
    sphere: &ChunkSphere,
    Ghost(old_voxels): Ghost<Seq<Voxel>>,
    h: i32,
    x: i32,
    y: i32,
    z: i32,
)
    requires
        old(data).wf(),
        sphere_fits(*sphere),
        h == sphere.radius_voxels,
        -h <= z <= h,
        -h <= y <= h,
        -h <= x <= h,
        forall|i: int|
            0 <= i < VOXELS_PER_CHUNK ==> #[trigger] old(data).voxels@[i] == sphere_partial(
                old_voxels,
                chunk_coords,
                *sphere,
                i,
                x as int,
                y as int,
                z as int,
            ),
    ensures
        final(data).wf(),
        forall|i: int|
            0 <= i < VOXELS_PER_CHUNK ==> #[trigger] final(data).voxels@[i] == sphere_partial(
                old_voxels,
                chunk_coords,
                *sphere,
                i,
                x + 1,
                y as int,
                z as int,
            ),
{
    let coords = sphere.center.offset(IVec3 { x, y, z });
    let (this_chunk_coords, this_voxel_coords) = coords.to_chunk_and_voxel();
    let ghost target = voxel_index(
        this_voxel_coords.x as int,
        this_voxel_coords.y as int,
        this_voxel_coords.z as int,
    );
    proof {
        assert(0 <= x * x) by (nonlinear_arith);
        assert(0 <= y * y) by (nonlinear_arith);
        assert(0 <= z * z) by (nonlinear_arith);
        assert(x * x <= h * h) by (nonlinear_arith)
            requires
                -h <= x <= h,
        ;
        assert(y * y <= h * h) by (nonlinear_arith)
            requires
                -h <= y <= h,
        ;
        assert(z * z <= h * h) by (nonlinear_arith)
            requires
                -h <= z <= h,
        ;
        assert(x * x + y * y + z * z <= 3 * h * h) by (nonlinear_arith)
            requires
                x * x <= h * h,
                y * y <= h * h,
                z * z <= h * h,
        ;
        lemma_voxel_index_bijective(
            this_voxel_coords.x as int,
            this_voxel_coords.y as int,
            this_voxel_coords.z as int,
            0,
        );
    }
    if this_chunk_coords != chunk_coords {
        assert forall|i: int| 0 <= i < VOXELS_PER_CHUNK implies #[trigger] data.voxels@[i]
            == sphere_partial(old_voxels, chunk_coords, *sphere, i, x + 1, y as int, z as int) by {
            lemma_voxel_index_bijective(0, 0, 0, i);
            let p = stored_pos(chunk_coords, i);
            if p.0 - sphere.center.0.x == x && p.1 - sphere.center.0.y == y && p.2
                - sphere.center.0.z == z {
                assert(super::chunk_of(coords.0.x) == chunk_coords.0.x);
                assert(super::chunk_of(coords.0.y) == chunk_coords.0.y);
                assert(super::chunk_of(coords.0.z) == chunk_coords.0.z);
            }
        }
        return;
    }
    if coords.distance_squared(sphere.center) > sphere.radius_voxels_sqr {
        assert forall|i: int| 0 <= i < VOXELS_PER_CHUNK implies #[trigger] data.voxels@[i]
            == sphere_partial(old_voxels, chunk_coords, *sphere, i, x + 1, y as int, z as int) by {
            lemma_voxel_index_bijective(0, 0, 0, i);
        }
        return;
    }
    proof {
        assert(stored_pos(chunk_coords, target) == (
            coords.0.x as int,
            coords.0.y as int,
            coords.0.z as int,
        ));
    }
    let ghost before = data.voxels@;
    match data.voxel_mut(this_voxel_coords) {
        Some(voxel) => {
            let new_voxel = blend_voxel(*voxel, sphere.color);
            *voxel = new_voxel;
        },
        None => {},
    }
    assert forall|i: int| 0 <= i < VOXELS_PER_CHUNK implies #[trigger] data.voxels@[i]
        == sphere_partial(old_voxels, chunk_coords, *sphere, i, x + 1, y as int, z as int) by {
        lemma_voxel_index_bijective(0, 0, 0, i);
        if i == target {
            assert(before[i] == old_voxels[i]);
        } else {
            let p = stored_pos(chunk_coords, i);
            if p.0 - sphere.center.0.x == x && p.1 - sphere.center.0.y == y && p.2
                - sphere.center.0.z == z {
                lemma_stored_pos_unique(chunk_coords, i, target);
            }
        }
    }
}

} // verus!
