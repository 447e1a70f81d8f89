//! Voxels, voxel materials and the absolute voxel coordinates of the world.

use vstd::prelude::*;

use crate::math::{IVec3, UVec3};

pub mod chunk;
pub mod splats;
pub mod start_scene;
pub mod update;

pub use chunk::{ChunkCoords, ChunkData};
pub use start_scene::RecreateStartScene;

verus! {

/// The number of voxels in a chunk per side.
pub const VOXELS_PER_CHUNK_SIDE: usize = 25;

/// The number of voxels in a whole chunk.
pub const VOXELS_PER_CHUNK: usize = 15625;

/// The number of voxels per meter. Controls all other voxel-related constants.
///
/// Must be at least 1.
#[derive(Clone, Copy, Debug, PartialEq, Eq, Structural)]
pub struct VoxelsPerMeter(pub usize);

/// Used to determine whether the world should be cleared (if the old value differs from the
/// current [`VoxelsPerMeter`], the world is cleared).
#[derive(Clone, Copy, Debug, PartialEq, Eq, Structural)]
pub struct OldVoxelsPerMeter(pub usize);

impl OldVoxelsPerMeter {
    /// Takes note of a change of the number of voxels per metre, and says whether the world
    /// must be cleared: only when the number actually differs from the one noted before. A
    /// world that was just loaded notes its own number first, so it is kept.
    pub fn note_change(&mut self, voxels_per_meter: VoxelsPerMeter) -> (clear: bool)
        ensures
            clear == (voxels_per_meter.0 != old(self).0),
            final(self).0 == voxels_per_meter.0,
    {
        let clear = voxels_per_meter.0 != self.0;
        self.0 = voxels_per_meter.0;
        clear
    }
}

/// What a voxel is made of.
#[derive(Clone, Copy, Debug, PartialEq, Eq, Structural)]
pub enum VoxelMaterial {
    Air,
    /// Not considered for raycasts and will be converted to [`VoxelMaterial::Solid`] after some time.
    /// Used to allow painting without self-interaction.
    Draft,
    Solid,
    /// This voxel was projected into the scene from a 2D image. This will not be considered
    /// when making a mask of the scene.
    Projected,
}

impl VoxelMaterial {
    /// The byte that stands for this material in saved worlds.
    pub open spec fn spec_as_u8(self) -> u8 {
        match self {
            VoxelMaterial::Air => 0,
            VoxelMaterial::Draft => 1,
            VoxelMaterial::Solid => 2,
            VoxelMaterial::Projected => 3,
        }
    }

    /// The material that a byte stands for; bytes above 3 stand for none.
    pub open spec fn spec_from_u8(b: u8) -> Option<VoxelMaterial> {
        if b == 0 {
            Some(VoxelMaterial::Air)
        } else if b == 1 {
            Some(VoxelMaterial::Draft)
        } else if b == 2 {
            Some(VoxelMaterial::Solid)
        } else if b == 3 {
            Some(VoxelMaterial::Projected)
        } else {
            None
        }
    }

    #[verifier::when_used_as_spec(spec_as_u8)]
    pub fn as_u8(self) -> (b: u8)
        ensures
            b == self.spec_as_u8(),
    {
        match self {
            VoxelMaterial::Air => 0,
            VoxelMaterial::Draft => 1,
            VoxelMaterial::Solid => 2,
            VoxelMaterial::Projected => 3,
        }
    }

    pub fn from_u8(b: u8) -> (m: Option<VoxelMaterial>)
        ensures
            m == VoxelMaterial::spec_from_u8(b),
    {
        if b == 0 {
            Some(VoxelMaterial::Air)
        } else if b == 1 {
            Some(VoxelMaterial::Draft)
        } else if b == 2 {
            Some(VoxelMaterial::Solid)
        } else if b == 3 {
            Some(VoxelMaterial::Projected)
        } else {
            None
        }
    }

    /// The name of the material, as it is shown to the user.
    pub fn to_string(&self) -> (s: String)
        ensures
            s@ == self.spec_name(),
    {
        match self {
            VoxelMaterial::Air => String::from_str("Air"),
            VoxelMaterial::Draft => String::from_str("Draft"),
            VoxelMaterial::Solid => String::from_str("Solid"),
            VoxelMaterial::Projected => String::from_str("Projected"),
        }
    }

    pub open spec fn spec_name(self) -> Seq<char> {
        match self {
            VoxelMaterial::Air => "Air"@,
            VoxelMaterial::Draft => "Draft"@,
            VoxelMaterial::Solid => "Solid"@,
            VoxelMaterial::Projected => "Projected"@,
        }
    }
}

impl Default for VoxelMaterial {
    fn default() -> (m: VoxelMaterial)
        ensures
            m == VoxelMaterial::Air,
    {
        VoxelMaterial::Air
    }
}

/// A single voxel: a linear RGB colour stored as bytes, and a material.
#[derive(Clone, Copy, Debug)]
pub struct Voxel {
    pub rgb: [u8; 3],
    pub material: VoxelMaterial,
}

impl PartialEq for Voxel {
    fn eq(&self, other: &Voxel) -> (r: bool) {
        let r = self.rgb[0] == other.rgb[0] && self.rgb[1] == other.rgb[1] && self.rgb[2]
            == other.rgb[2] && self.material == other.material;
        proof {
            if r {
                assert(self.rgb@ =~= other.rgb@);
            }
        }
        r
    }
}

impl Eq for Voxel {}

impl vstd::std_specs::cmp::PartialEqSpecImpl for Voxel {
    open spec fn obeys_eq_spec() -> bool {
        true
    }

    open spec fn eq_spec(&self, other: &Voxel) -> bool {
        self.rgb@ == other.rgb@ && self.material == other.material
    }
}

impl Default for Voxel {
    fn default() -> (v: Voxel)
        ensures
            v == Voxel::empty(),
    {
        Voxel { rgb: [0, 0, 0], material: VoxelMaterial::Air }
    }
}

impl Voxel {
    /// The default voxel: black air.
    pub open spec fn empty() -> Voxel {
        Voxel { rgb: [0u8, 0u8, 0u8], material: VoxelMaterial::Air }
    }

    /// The four bytes that stand for a voxel in saved worlds.
    pub open spec fn spec_as_u8_array(self) -> Seq<u8> {
        seq![self.rgb[0], self.rgb[1], self.rgb[2], self.material.spec_as_u8()]
    }

    pub open spec fn with_spec_material(self, material: VoxelMaterial) -> Voxel {
        Voxel { rgb: self.rgb, material }
    }

    pub fn with_material(self, material: VoxelMaterial) -> (v: Voxel)
        ensures
            v == self.with_spec_material(material),
    {
        Voxel { rgb: self.rgb, material }
    }

    pub fn as_u8_array(&self) -> (a: [u8; 4])
        ensures
            a@ == self.spec_as_u8_array(),
    {
        let a = [self.rgb[0], self.rgb[1], self.rgb[2], self.material.as_u8()];
        assert(a@ =~= self.spec_as_u8_array());
        a
    }

    /// Reads a voxel back from its four bytes. The last byte must name a material.
    pub fn from_u8_array(array: [u8; 4]) -> (v: Voxel)
        requires
            array[3] < 4,
        ensures
            v.rgb@ == array@.subrange(0, 3),
            Some(v.material) == VoxelMaterial::spec_from_u8(array[3]),
    {
        let material = match VoxelMaterial::from_u8(array[3]) {
            Some(m) => m,
            None => VoxelMaterial::Air,
        };
        let v = Voxel { rgb: [array[0], array[1], array[2]], material };
        assert(v.rgb@ =~= array@.subrange(0, 3));
        v
    }
}

/// Writing a voxel as bytes and reading it back gives the same voxel.
pub proof fn lemma_voxel_bytes_roundtrip(v: Voxel)
    ensures
        v.spec_as_u8_array()[3] < 4,
        VoxelMaterial::spec_from_u8(v.spec_as_u8_array()[3]) == Some(v.material),
        v.spec_as_u8_array().subrange(0, 3) =~= v.rgb@,
{
}

/// The Euclidean quotient of a coordinate by the chunk side.
pub open spec fn chunk_of(v: i32) -> i32 {
    (v as int / 25) as i32
}

/// The Euclidean remainder of a coordinate by the chunk side.
pub open spec fn voxel_of(v: i32) -> u32 {
    (v as int % 25) as u32
}

/// The absolute coordinate of voxel `v` of the chunk at coordinate `c`.
pub open spec fn combine(c: i32, v: u32) -> int {
    c as int * 25 + (v as i32) as int
}

/// The coordinates of a voxel in the world. They are absolutely positioned in the world.
#[derive(Clone, Copy, Debug, PartialEq, Eq, Structural)]
pub struct Coords(pub IVec3);

impl Coords {
    pub open spec fn spec_chunk(self) -> ChunkCoords {
        ChunkCoords(IVec3 { x: chunk_of(self.0.x), y: chunk_of(self.0.y), z: chunk_of(self.0.z) })
    }

    pub open spec fn spec_voxel(self) -> UVec3 {
        UVec3 { x: voxel_of(self.0.x), y: voxel_of(self.0.y), z: voxel_of(self.0.z) }
    }

    /// Whether the voxel of a chunk can be placed at an absolute coordinate without overflow.
    pub open spec fn combinable(chunk: ChunkCoords, voxel: UVec3) -> bool {
        &&& i32::MIN <= chunk.0.x * 25 <= i32::MAX
        &&& i32::MIN <= chunk.0.y * 25 <= i32::MAX
        &&& i32::MIN <= chunk.0.z * 25 <= i32::MAX
        &&& i32::MIN <= combine(chunk.0.x, voxel.x) <= i32::MAX
        &&& i32::MIN <= combine(chunk.0.y, voxel.y) <= i32::MAX
        &&& i32::MIN <= combine(chunk.0.z, voxel.z) <= i32::MAX
    }

    pub open spec fn spec_from_chunk_and_voxel(chunk: ChunkCoords, voxel: UVec3) -> Coords {
        Coords(
            IVec3 {
                x: combine(chunk.0.x, voxel.x) as i32,
                y: combine(chunk.0.y, voxel.y) as i32,
                z: combine(chunk.0.z, voxel.z) as i32,
            },
        )
    }

    /// The squared Euclidean distance between two coordinates.
    pub open spec fn spec_distance_squared(self, other: Coords) -> int {
        let dx = self.0.x - other.0.x;
        let dy = self.0.y - other.0.y;
        let dz = self.0.z - other.0.z;
        dx * dx + dy * dy + dz * dz
    }

    /// The coordinates written out as `[x, y, z]`.
    pub fn to_string(&self) -> (s: String)
        ensures
            s@ == crate::math::ivec3_text(self.0),
    {
        self.0.to_string()
    }

    /// The chunk that holds this voxel.
    pub fn chunk(&self) -> (c: ChunkCoords)
        ensures
            c == self.spec_chunk(),
    {
        ChunkCoords(IVec3 { x: div_chunk(self.0.x), y: div_chunk(self.0.y), z: div_chunk(self.0.z) })
    }

    /// The position of this voxel inside its chunk.
    pub fn voxel(&self) -> (v: UVec3)
        ensures
            v == self.spec_voxel(),
            v.x < 25 && v.y < 25 && v.z < 25,
    {
        UVec3 { x: rem_chunk(self.0.x), y: rem_chunk(self.0.y), z: rem_chunk(self.0.z) }
    }

    pub fn from_chunk_and_voxel(chunk: ChunkCoords, voxel: UVec3) -> (c: Coords)
        requires
            Coords::combinable(chunk, voxel),
        ensures
            c == Coords::spec_from_chunk_and_voxel(chunk, voxel),
    {
        Coords(
            IVec3 {
                x: chunk.0.x * 25 + #[verifier::truncate] (voxel.x as i32),
                y: chunk.0.y * 25 + #[verifier::truncate] (voxel.y as i32),
                z: chunk.0.z * 25 + #[verifier::truncate] (voxel.z as i32),
            },
        )
    }

    pub fn to_chunk_and_voxel(&self) -> (r: (ChunkCoords, UVec3))
        ensures
            r.0 == self.spec_chunk(),
            r.1 == self.spec_voxel(),
    {
        (self.chunk(), self.voxel())
    }

    /// The squared distance to another voxel. It must fit in an `i32`.
    pub fn distance_squared(&self, other: Coords) -> (d: u32)
        requires
            -0x8000_0000 <= self.0.x - other.0.x <= 0x7fff_ffff,
            -0x8000_0000 <= self.0.y - other.0.y <= 0x7fff_ffff,
            -0x8000_0000 <= self.0.z - other.0.z <= 0x7fff_ffff,
            self.spec_distance_squared(other) <= i32::MAX,
        ensures
            d == self.spec_distance_squared(other),
    {
        let dx = self.0.x - other.0.x;
        let dy = self.0.y - other.0.y;
        let dz = self.0.z - other.0.z;
        assert(0 <= dx * dx) by (nonlinear_arith);
        assert(0 <= dy * dy) by (nonlinear_arith);
        assert(0 <= dz * dz) by (nonlinear_arith);
        let s = dx * dx + dy * dy + dz * dz;
        s as u32
    }

    /// The coordinates moved by `offset`.
    pub fn offset(&self, offset: IVec3) -> (c: Coords)
        requires
            i32::MIN <= self.0.x + offset.x <= i32::MAX,
            i32::MIN <= self.0.y + offset.y <= i32::MAX,
            i32::MIN <= self.0.z + offset.z <= i32::MAX,
        ensures
            c.0.x == self.0.x + offset.x,
            c.0.y == self.0.y + offset.y,
            c.0.z == self.0.z + offset.z,
    {
        Coords(IVec3 { x: self.0.x + offset.x, y: self.0.y + offset.y, z: self.0.z + offset.z })
    }
}

fn div_chunk(v: i32) -> (q: i32)
    ensures
        q == chunk_of(v),
{
    match v.checked_div_euclid(25) {
        Some(q) => q,
        None => 0,
    }
}

fn rem_chunk(v: i32) -> (r: u32)
    ensures
        r == voxel_of(v),
        r < 25,
{
    match v.checked_rem_euclid(25) {
        Some(r) => r as u32,
        None => 0,
    }
}

/// Splitting absolute coordinates into a chunk and a voxel inside it, and joining them again,
/// gives back the same coordinates. (Below `-2147483625` the corner of the chunk does not fit
/// in an `i32`.)
pub proof fn lemma_chunk_and_voxel_roundtrip(c: Coords)
    requires
        c.0.x >= -2147483625,
        c.0.y >= -2147483625,
        c.0.z >= -2147483625,
    ensures
        Coords::combinable(c.spec_chunk(), c.spec_voxel()),
        Coords::spec_from_chunk_and_voxel(c.spec_chunk(), c.spec_voxel()) == c,
{
}

/// Joining a chunk and a voxel inside it, and splitting the result, gives back the same chunk
/// and voxel.
pub proof fn lemma_from_chunk_and_voxel_roundtrip(chunk: ChunkCoords, voxel: UVec3)
    requires
        voxel.x < 25,
        voxel.y < 25,
        voxel.z < 25,
        Coords::combinable(chunk, voxel),
    ensures
        Coords::spec_from_chunk_and_voxel(chunk, voxel).spec_chunk() == chunk,
        Coords::spec_from_chunk_and_voxel(chunk, voxel).spec_voxel() == voxel,
{
}

} // verus!
