//! The layout of saved worlds: one file per chunk, named after the chunk's coordinates and
//! holding four bytes per voxel.

use vstd::prelude::*;

use zip::result::ZipError;

use crate::archive::{
    archive_file_names, finish_archive, new_archive_writer, open_archive, read_archive_file,
    start_archive_file, write_archive_data, ArchiveReadError, ArchiveWriter,
};
use crate::math::IVec3;
use crate::text::{
    chars_of, i32_to_chars, parse_i32_chars, push_char, push_chars, split_ranges,
};
use crate::voxel::chunk::{ChunkCoords, ChunkData};
use crate::voxel::{Voxel, VoxelMaterial, VOXELS_PER_CHUNK};

verus! {

/// The number of bytes a chunk takes in a saved world.
pub const CHUNK_FILE_BYTES: usize = 62500;

/// The bytes of a saved chunk: every voxel in storage order, four bytes each.
pub open spec fn chunk_bytes(voxels: Seq<Voxel>) -> Seq<u8>
    decreases voxels.len(),
{
    if voxels.len() == 0 {
        Seq::empty()
    } else {
        chunk_bytes(voxels.drop_last()) + voxels.last().spec_as_u8_array()
    }
}

/// Why the bytes of a chunk could not be read.
#[derive(Clone, Copy, Debug, PartialEq, Eq, Structural)]
pub enum ChunkDecodeError {
    /// The file holds fewer than [`CHUNK_FILE_BYTES`] bytes.
    Truncated,
    /// The material byte of the voxel with this storage index names no material.
    InvalidMaterial(usize),
}

/// Encodes a chunk for saving.
pub fn encode_chunk(data: &ChunkData) -> (bytes: Vec<u8>)
    requires
        data.voxels.len() * 4 <= usize::MAX,
    ensures
        bytes@ == chunk_bytes(data.voxels@),
{
    let mut bytes: Vec<u8> = Vec::new();
    let mut i: usize = 0;
    while i < data.voxels.len()
        invariant
            i <= data.voxels.len(),
            bytes@ == chunk_bytes(data.voxels@.subrange(0, i as int)),
        decreases data.voxels.len() - i,
    {
        let a = data.voxels[i].as_u8_array();
        bytes.push(a[0]);
        bytes.push(a[1]);
        bytes.push(a[2]);
        bytes.push(a[3]);
        assert(data.voxels@.subrange(0, i + 1).drop_last() =~= data.voxels@.subrange(0, i as int));
        assert(bytes@ =~= chunk_bytes(data.voxels@.subrange(0, i + 1)));
        i += 1;
    }
    assert(data.voxels@.subrange(0, data.voxels.len() as int) =~= data.voxels@);
    bytes
}

/// The voxel stored in bytes `4 i .. 4 i + 4`, if its material byte names a material.
pub open spec fn decoded_voxel(bytes: Seq<u8>, i: int) -> Option<Voxel> {
    match VoxelMaterial::spec_from_u8(bytes[4 * i + 3]) {
        Some(m) => Some(Voxel { rgb: [bytes[4 * i], bytes[4 * i + 1], bytes[4 * i + 2]], material: m }),
        None => None,
    }
}

/// Whether `bytes` hold a whole chunk whose every material byte names a material.
pub open spec fn chunk_decodable(bytes: Seq<u8>) -> bool {
    bytes.len() >= CHUNK_FILE_BYTES && forall|i: int|
        0 <= i < VOXELS_PER_CHUNK ==> #[trigger] decoded_voxel(bytes, i) is Some
}

/// The voxels that decodable bytes hold.
pub open spec fn decoded_voxels(bytes: Seq<u8>) -> Seq<Voxel> {
    Seq::new(VOXELS_PER_CHUNK as nat, |i: int| decoded_voxel(bytes, i)->Some_0)
}

/// Decodes a saved chunk. Bytes after the chunk's voxels are ignored.
pub fn decode_chunk(bytes: &[u8]) -> (r: Result<ChunkData, ChunkDecodeError>)
    ensures
        (r is Ok) == chunk_decodable(bytes@),
        r matches Ok(data) ==> data.voxels@ == decoded_voxels(bytes@),
        bytes.len() < CHUNK_FILE_BYTES ==> r == Err::<ChunkData, ChunkDecodeError>(ChunkDecodeError::Truncated),
        bytes.len() >= CHUNK_FILE_BYTES ==> match r {
            Ok(data) => data.wf() && forall|i: int|
                0 <= i < VOXELS_PER_CHUNK ==> decoded_voxel(bytes@, i) == Some(
                    #[trigger] data.voxels@[i],
                ),
            Err(ChunkDecodeError::InvalidMaterial(i)) => i < VOXELS_PER_CHUNK && decoded_voxel(
                bytes@,
                i as int,
            ) is None && forall|j: int| 0 <= j < i ==> #[trigger] decoded_voxel(bytes@, j) is Some,
            Err(ChunkDecodeError::Truncated) => false,
        },
{
    if bytes.len() < CHUNK_FILE_BYTES {
        return Err(ChunkDecodeError::Truncated);
    }
    let mut voxels: Vec<Voxel> = Vec::with_capacity(VOXELS_PER_CHUNK);
    let mut i: usize = 0;
    while i < VOXELS_PER_CHUNK
        invariant
            bytes.len() >= CHUNK_FILE_BYTES,
            i <= VOXELS_PER_CHUNK,
            voxels.len() == i,
            forall|j: int| 0 <= j < i ==> decoded_voxel(bytes@, j) == Some(#[trigger] voxels@[j]),
        decreases VOXELS_PER_CHUNK - i,
    {
        let b = 4 * i;
        match VoxelMaterial::from_u8(bytes[b + 3]) {
            Some(material) => {
                let v = Voxel { rgb: [bytes[b], bytes[b + 1], bytes[b + 2]], material };
                assert(decoded_voxel(bytes@, i as int) == Some(v));
                voxels.push(v);
            },
            None => {
                assert forall|j: int| 0 <= j < i implies #[trigger] decoded_voxel(bytes@, j) is Some by {
                    assert(decoded_voxel(bytes@, j) == Some(voxels@[j]));
                }
                assert(decoded_voxel(bytes@, i as int) is None);
                return Err(ChunkDecodeError::InvalidMaterial(i));
            },
        }
        i += 1;
    }
    assert forall|j: int| 0 <= j < VOXELS_PER_CHUNK implies #[trigger] decoded_voxel(bytes@, j) is Some by {
        assert(decoded_voxel(bytes@, j) == Some(voxels@[j]));
    }
    assert(voxels@ =~= decoded_voxels(bytes@));
    Ok(ChunkData { voxels })
}

/// Reading back the bytes of a saved chunk gives the same chunk.
pub proof fn lemma_chunk_bytes_roundtrip(voxels: Seq<Voxel>, i: int)
    requires
        0 <= i < voxels.len(),
    ensures
        chunk_bytes(voxels).len() == 4 * voxels.len(),
        decoded_voxel(chunk_bytes(voxels), i) == Some(voxels[i]),
    decreases voxels.len(),
{
    lemma_chunk_bytes_len(voxels);
    if i < voxels.len() - 1 {
        lemma_chunk_bytes_roundtrip(voxels.drop_last(), i);
        lemma_chunk_bytes_len(voxels.drop_last());
        let p = chunk_bytes(voxels.drop_last());
        assert(chunk_bytes(voxels) == p + voxels.last().spec_as_u8_array());
        assert(chunk_bytes(voxels)[4 * i] == p[4 * i]);
        assert(chunk_bytes(voxels)[4 * i + 1] == p[4 * i + 1]);
        assert(chunk_bytes(voxels)[4 * i + 2] == p[4 * i + 2]);
        assert(chunk_bytes(voxels)[4 * i + 3] == p[4 * i + 3]);
        assert(voxels.drop_last()[i] == voxels[i]);
    } else {
        lemma_chunk_bytes_len(voxels.drop_last());
        let v = voxels[i];
        let bytes = chunk_bytes(voxels);
        assert(bytes[4 * i] == v.rgb[0]);
        assert(bytes[4 * i + 1] == v.rgb[1]);
        assert(bytes[4 * i + 2] == v.rgb[2]);
        assert(bytes[4 * i + 3] == v.material.spec_as_u8());
        let w = Voxel { rgb: [bytes[4 * i], bytes[4 * i + 1], bytes[4 * i + 2]], material: v.material };
        assert(w.rgb =~= v.rgb);
    }
}

proof fn lemma_chunk_bytes_len(voxels: Seq<Voxel>)
    ensures
        chunk_bytes(voxels).len() == 4 * voxels.len(),
    decreases voxels.len(),
{
    if voxels.len() > 0 {
        lemma_chunk_bytes_len(voxels.drop_last());
    }
}


/// What every chunk file name starts with.
pub open spec fn chunk_name_prefix() -> Seq<char> {
    seq!['c', 'h', 'u', 'n', 'k', 's', '/', 'c', 'h', 'u', 'n', 'k', '_']
}

/// What every chunk file name ends with.
pub open spec fn chunk_name_suffix() -> Seq<char> {
    seq!['.', 'b', 'i', 'n']
}

/// The name of the file that holds the chunk at `coords`:
/// `chunks/chunk_{x}_{y}_{z}.bin`.
pub open spec fn spec_chunk_filename(coords: ChunkCoords) -> Seq<char> {
    chunk_name_prefix() + crate::text::decimal(coords.0.x as int) + seq!['_'] + crate::text::decimal(
        coords.0.y as int,
    ) + seq!['_'] + crate::text::decimal(coords.0.z as int) + chunk_name_suffix()
}

/// The chunk that a file name names: it must start with `chunks/chunk_` and end with `.bin`;
/// the first three `_`-separated pieces of what lies between must read as `i32`s, and any
/// further pieces are ignored.
pub open spec fn spec_parse_chunk_filename(name: Seq<char>) -> Option<ChunkCoords> {
    let p = chunk_name_prefix();
    let q = chunk_name_suffix();
    if name.len() >= p.len() + q.len() && name.subrange(0, p.len() as int) == p && name.subrange(
        name.len() - q.len(),
        name.len() as int,
    ) == q {
        let parts = crate::text::split_on(
            name.subrange(p.len() as int, name.len() - q.len()),
            '_',
        );
        if parts.len() >= 3 {
            match (
                crate::text::parse_i32(parts[0]),
                crate::text::parse_i32(parts[1]),
                crate::text::parse_i32(parts[2]),
            ) {
                (Some(x), Some(y), Some(z)) => Some(ChunkCoords(IVec3 { x, y, z })),
                _ => None,
            }
        } else {
            None
        }
    } else {
        None
    }
}

/// The name of the file that holds the chunk at `coords` in a saved world.
pub fn chunk_filename(coords: ChunkCoords) -> (name: String)
    ensures
        name@ == spec_chunk_filename(coords),
{
    let mut name = String::new();
    let prefix = chars_of("chunks/chunk_");
    proof {
        reveal_strlit("chunks/chunk_");
    }
    assert(prefix@ =~= chunk_name_prefix());
    push_chars(&mut name, &prefix);
    push_chars(&mut name, &i32_to_chars(coords.0.x));
    push_char(&mut name, '_');
    push_chars(&mut name, &i32_to_chars(coords.0.y));
    push_char(&mut name, '_');
    push_chars(&mut name, &i32_to_chars(coords.0.z));
    let suffix = chars_of(".bin");
    proof {
        reveal_strlit(".bin");
    }
    assert(suffix@ =~= chunk_name_suffix());
    push_chars(&mut name, &suffix);
    assert(name@ =~= spec_chunk_filename(coords));
    name
}

/// The chunk whose file a name in a saved world is, if it is one.
pub fn parse_chunk_filename(name: &str) -> (coords: Option<ChunkCoords>)
    ensures
        coords == spec_parse_chunk_filename(name@),
{
    let chars = chars_of(name);
    let prefix = chars_of("chunks/chunk_");
    let suffix = chars_of(".bin");
    proof {
        reveal_strlit("chunks/chunk_");
        reveal_strlit(".bin");
    }
    assert(prefix@ =~= chunk_name_prefix());
    assert(suffix@ =~= chunk_name_suffix());
    let n = chars.len();
    if n < prefix.len() + suffix.len() {
        return None;
    }
    let mut i: usize = 0;
    while i < prefix.len()
        invariant
            n == chars.len(),
            chars@ == name@,
            prefix@ == chunk_name_prefix(),
            suffix@ == chunk_name_suffix(),
            n >= prefix.len() + suffix.len(),
            i <= prefix.len(),
            forall|k: int| 0 <= k < i ==> chars@[k] == prefix@[k],
        decreases prefix.len() - i,
    {
        if chars[i] != prefix[i] {
            assert(chars@.subrange(0, prefix.len() as int)[i as int] != prefix@[i as int]);
            return None;
        }
        i += 1;
    }
    assert(chars@.subrange(0, prefix.len() as int) =~= prefix@);
    let start = n - suffix.len();
    let mut j: usize = 0;
    while j < suffix.len()
        invariant
            n == chars.len(),
            chars@ == name@,
            prefix@ == chunk_name_prefix(),
            suffix@ == chunk_name_suffix(),
            n >= prefix.len() + suffix.len(),
            chars@.subrange(0, prefix.len() as int) == prefix@,
            start == n - suffix.len(),
            j <= suffix.len(),
            forall|k: int| 0 <= k < j ==> chars@[start + k] == suffix@[k],
        decreases suffix.len() - j,
    {
        if chars[start + j] != suffix[j] {
            assert(chars@.subrange(start as int, n as int)[j as int] != suffix@[j as int]);
            return None;
        }
        j += 1;
    }
    assert(chars@.subrange(start as int, n as int) =~= suffix@);
    let parts = split_ranges(&chars, prefix.len(), start, '_');
    if parts.len() < 3 {
        return None;
    }
    let x = parse_i32_chars(&chars, parts[0].0, parts[0].1);
    let y = parse_i32_chars(&chars, parts[1].0, parts[1].1);
    let z = parse_i32_chars(&chars, parts[2].0, parts[2].1);
    match (x, y, z) {
        (Some(x), Some(y), Some(z)) => Some(ChunkCoords(IVec3 { x, y, z })),
        _ => None,
    }
}

/// Reading the name of a chunk's file gives back the chunk's coordinates.
pub proof fn lemma_chunk_filename_roundtrip(coords: ChunkCoords)
    ensures
        spec_parse_chunk_filename(spec_chunk_filename(coords)) == Some(coords),
{
    let dx = crate::text::decimal(coords.0.x as int);
    let dy = crate::text::decimal(coords.0.y as int);
    let dz = crate::text::decimal(coords.0.z as int);
    crate::text::lemma_parse_decimal(coords.0.x);
    crate::text::lemma_parse_decimal(coords.0.y);
    crate::text::lemma_parse_decimal(coords.0.z);
    let name = spec_chunk_filename(coords);
    let p = chunk_name_prefix();
    let q = chunk_name_suffix();
    assert(name.subrange(0, p.len() as int) =~= p);
    assert(name.subrange(name.len() - q.len(), name.len() as int) =~= q);
    let mid = name.subrange(p.len() as int, name.len() - q.len());
    assert(mid =~= dx + seq!['_'] + (dy + seq!['_'] + dz));
    crate::text::lemma_split_on_join(dx, dy + seq!['_'] + dz, '_');
    crate::text::lemma_split_on_join(dy, dz, '_');
    crate::text::lemma_split_on_without_sep(dx, '_');
    crate::text::lemma_split_on_without_sep(dy, '_');
    crate::text::lemma_split_on_without_sep(dz, '_');
    let parts = crate::text::split_on(mid, '_');
    assert(parts =~= seq![dx, dy, dz]);
}


/// The name of the file that holds a world's settings.
pub open spec fn meta_filename() -> Seq<char> {
    seq!['m', 'e', 't', 'a', '.', 'j', 's', 'o', 'n']
}

/// The name of the file that holds a world's placed objects.
pub open spec fn spawnables_filename() -> Seq<char> {
    seq!['s', 'p', 'a', 'w', 'n', 'a', 'b', 'l', 'e', 's', '.', 'j', 's', 'o', 'n']
}

/// Why a world could not be saved or loaded.
pub enum LoadSaveError {
    Io(std::io::Error),
    Zip(ZipError),
    /// The archive holds no file of a name that a world needs.
    MissingFile,
    /// A chunk's file holds no chunk.
    Chunk(ChunkDecodeError),
}

/// The files of a world, as they go into its archive.
pub struct WorldFiles {
    /// The world's settings, as JSON.
    pub meta_json: Vec<u8>,
    /// The chunks, with their coordinates.
    pub chunks: Vec<(ChunkCoords, ChunkData)>,
    /// The world's placed objects, as JSON.
    pub spawnables_json: Vec<u8>,
}

/// The archive files of the chunks, in order.
pub open spec fn chunk_entries(chunks: Seq<(ChunkCoords, ChunkData)>) -> Seq<(Seq<char>, Seq<u8>)> {
    Seq::new(
        chunks.len(),
        |i: int| (spec_chunk_filename(chunks[i].0), chunk_bytes(chunks[i].1.voxels@)),
    )
}

/// The files of a saved world, in order: the settings, every chunk, the placed objects.
pub open spec fn world_entries(world: WorldFiles) -> Seq<(Seq<char>, Seq<u8>)> {
    seq![(meta_filename(), world.meta_json@)] + chunk_entries(world.chunks@) + seq![
        (spawnables_filename(), world.spawnables_json@),
    ]
}

/// Whether the settings and placed objects of a world are small enough for its archive.
pub open spec fn world_fits(world: WorldFiles) -> bool {
    world.meta_json.len() <= crate::archive::MAX_ARCHIVE_FILE_BYTES && world.spawnables_json.len()
        <= crate::archive::MAX_ARCHIVE_FILE_BYTES
}

/// Whether no two chunks share coordinates.
pub open spec fn coords_distinct(chunks: Seq<(ChunkCoords, ChunkData)>) -> bool {
    forall|i: int, j: int| 0 <= i < j < chunks.len() ==> chunks[i].0 != chunks[j].0
}

/// Writes one file into the archive. A name that the archive already holds fails with the
/// archive's error; a new name succeeds where the file before it and this one are small enough
/// for the archive; any failure is the archive's or the writer's.
fn write_file(w: &mut ArchiveWriter, name: &str, data: &[u8]) -> (r: Result<(), LoadSaveError>)
    requires
        name@.len() <= 16383,
    ensures
        crate::archive::has_entry(crate::archive::zip_written(*old(w)), name@) ==> r matches Err(
            LoadSaveError::Zip(_),
        ),
        !crate::archive::has_entry(crate::archive::zip_written(*old(w)), name@)
            && crate::archive::open_file_fits(*old(w)) && data@.len()
            <= crate::archive::MAX_ARCHIVE_FILE_BYTES ==> r is Ok,
        r is Ok ==> crate::archive::zip_writing(*final(w)),
        r is Err ==> (r matches Err(LoadSaveError::Zip(_))) || (r matches Err(LoadSaveError::Io(_))),
        r is Ok ==> crate::archive::zip_written(*final(w)) == crate::archive::zip_written(
            *old(w),
        ).push((name@, data@)),
{
    match start_archive_file(w, name) {
        Ok(()) => {},
        Err(e) => {
            return Err(LoadSaveError::Zip(e));
        },
    }
    match write_archive_data(w, data) {
        Ok(()) => {
            proof {
                let before = crate::archive::zip_written(*old(w)).push((name@, Seq::<u8>::empty()));
                assert(before.last().1 + data@ =~= data@);
            }
            Ok(())
        },
        Err(e) => Err(LoadSaveError::Io(e)),
    }
}

proof fn lemma_chunk_name_not_json(c: ChunkCoords)
    ensures
        spec_chunk_filename(c) != meta_filename(),
        spec_chunk_filename(c) != spawnables_filename(),
{
    assert(spec_chunk_filename(c)[0] == 'c');
}

/// Saves a world as an archive: its settings (`meta.json`), then one file per chunk (see
/// [`chunk_filename`], [`encode_chunk`]), then its placed objects (`spawnables.json`).
/// Two chunks with the same coordinates make it fail; with distinct coordinates, and settings
/// and placed objects small enough for the archive, it succeeds. Any failure is an error of the
/// archive or of writing into it.
pub fn save_world(world: &WorldFiles) -> (r: Result<Vec<u8>, LoadSaveError>)
    requires
        forall|i: int| 0 <= i < world.chunks.len() ==> (#[trigger] world.chunks@[i]).1.wf(),
    ensures
        r matches Ok(bytes) ==> crate::archive::zip_sound(bytes@) && crate::archive::zip_entries(
            bytes@,
        ) == world_entries(*world),
        coords_distinct(world.chunks@) && world_fits(*world) ==> r is Ok,
        !coords_distinct(world.chunks@) ==> r is Err,
        r is Err ==> (r matches Err(LoadSaveError::Zip(_))) || (r matches Err(LoadSaveError::Io(_))),
{
    let mut w = new_archive_writer();
    let meta_name = "meta.json";
    let spawnables_name = "spawnables.json";
    proof {
        reveal_strlit("meta.json");
        reveal_strlit("spawnables.json");
        assert(meta_name@ =~= meta_filename());
        assert(spawnables_name@ =~= spawnables_filename());
    }
    let ghost fits = coords_distinct(world.chunks@) && world_fits(*world);
    write_file(&mut w, meta_name, world.meta_json.as_slice())?;
    let mut k: usize = 0;
    while k < world.chunks.len()
        invariant
            k <= world.chunks.len(),
            forall|i: int| 0 <= i < world.chunks.len() ==> (#[trigger] world.chunks@[i]).1.wf(),
            crate::archive::zip_written(w) == seq![(meta_filename(), world.meta_json@)]
                + chunk_entries(world.chunks@.subrange(0, k as int)),
            crate::archive::zip_writing(w),
            fits == (coords_distinct(world.chunks@) && world_fits(*world)),
            fits ==> crate::archive::open_file_fits(w),
            coords_distinct(world.chunks@.subrange(0, k as int)),
        decreases world.chunks.len() - k,
    {
        let coords = world.chunks[k].0;
        let name = chunk_filename(coords);
        proof {
            crate::text::lemma_decimal_i32_len(coords.0.x);
            crate::text::lemma_decimal_i32_len(coords.0.y);
            crate::text::lemma_decimal_i32_len(coords.0.z);
        }
        let bytes = encode_chunk(&world.chunks[k].1);
        let ghost written = crate::archive::zip_written(w);
        proof {
            lemma_chunk_bytes_len(world.chunks@[k as int].1.voxels@);
            let done = world.chunks@.subrange(0, k as int);
            assert forall|i: int| 0 <= i < k && world.chunks@[i].0 == coords implies crate::archive::has_entry(written, name@) by {
                assert(written[1 + i] == (spec_chunk_filename(done[i].0), chunk_bytes(done[i].1.voxels@)));
            }
            if fits {
                assert(!crate::archive::has_entry(written, name@)) by {
                    if crate::archive::has_entry(written, name@) {
                        let i = choose|i: int| 0 <= i < written.len() && (#[trigger] written[i]).0 == name@;
                        if i == 0 {
                            lemma_chunk_name_not_json(coords);
                        } else {
                            assert(written[i] == (spec_chunk_filename(done[i - 1].0), chunk_bytes(done[i - 1].1.voxels@)));
                            lemma_chunk_filename_roundtrip(coords);
                            lemma_chunk_filename_roundtrip(done[i - 1].0);
                            assert(world.chunks@[i - 1] == done[i - 1]);
                        }
                    }
                }
            }
        }
        let result = write_file(&mut w, name.as_str(), bytes.as_slice());
        if result.is_err() {
            return Err(result.unwrap_err());
        }
        proof {
            let done = world.chunks@.subrange(0, k as int);
            let next = world.chunks@.subrange(0, k + 1);
            assert(chunk_entries(next) =~= chunk_entries(done).push((name@, bytes@)));
            assert(seq![(meta_filename(), world.meta_json@)] + chunk_entries(next) =~= (seq![
                (meta_filename(), world.meta_json@),
            ] + chunk_entries(done)).push((name@, bytes@)));
            assert forall|i: int, j: int| 0 <= i < j < next.len() implies next[i].0 != next[j].0 by {
                if j == k {
                    assert(next[i] == world.chunks@[i]);
                    if world.chunks@[i].0 == coords {
                        assert(crate::archive::has_entry(written, name@));
                    }
                } else {
                    assert(next[i] == done[i] && next[j] == done[j]);
                }
            }
        }
        k += 1;
    }
    assert(world.chunks@.subrange(0, k as int) =~= world.chunks@);
    let ghost written = crate::archive::zip_written(w);
    proof {
        assert(!crate::archive::has_entry(written, spawnables_filename())) by {
            if crate::archive::has_entry(written, spawnables_filename()) {
                let i = choose|i: int| 0 <= i < written.len() && (#[trigger] written[i]).0 == spawnables_filename();
                if i > 0 {
                    lemma_chunk_name_not_json(world.chunks@[i - 1].0);
                }
            }
        }
    }
    write_file(&mut w, spawnables_name, world.spawnables_json.as_slice())?;
    match finish_archive(w) {
        Ok(bytes) => Ok(bytes),
        Err(e) => Err(LoadSaveError::Zip(e)),
    }
}


/// A world read back from its archive.
pub struct LoadedWorld {
    /// The world's settings, as JSON.
    pub meta_json: Vec<u8>,
    /// The chunks, in the order of the archive.
    pub chunks: Vec<(ChunkCoords, ChunkData)>,
    /// The world's placed objects, as JSON, if the archive holds them.
    pub spawnables_json: Option<Vec<u8>>,
}

/// The chunk files of an archive, in order: the coordinates each name stands for, and the
/// file's contents. Other files are left out.
pub open spec fn chunk_files(entries: Seq<(Seq<char>, Seq<u8>)>) -> Seq<(ChunkCoords, Seq<u8>)>
    decreases entries.len(),
{
    if entries.len() == 0 {
        Seq::empty()
    } else {
        let before = chunk_files(entries.drop_last());
        match spec_parse_chunk_filename(entries.last().0) {
            Some(c) => before.push((c, entries.last().1)),
            None => before,
        }
    }
}

/// Whether `world` is what the archive files `entries` hold: the settings file's contents, the
/// decoded chunk files in order, and the placed objects' file if there is one.
pub open spec fn loaded_from(entries: Seq<(Seq<char>, Seq<u8>)>, world: LoadedWorld) -> bool {
    &&& entries.contains((meta_filename(), world.meta_json@))
    &&& world.chunks.len() == chunk_files(entries).len()
    &&& forall|i: int|
        0 <= i < world.chunks.len() ==> {
            let f = #[trigger] chunk_files(entries)[i];
            &&& world.chunks@[i].0 == f.0
            &&& chunk_decodable(f.1)
            &&& world.chunks@[i].1.voxels@ == decoded_voxels(f.1)
        }
    &&& match world.spawnables_json {
        Some(s) => entries.contains((spawnables_filename(), s@)),
        None => !crate::archive::has_entry(entries, spawnables_filename()),
    }
}

proof fn lemma_chunk_files_prefix(entries: Seq<(Seq<char>, Seq<u8>)>, k: int)
    requires
        0 <= k <= entries.len(),
    ensures
        chunk_files(entries.subrange(0, k)).len() <= chunk_files(entries).len(),
        forall|i: int|
            0 <= i < chunk_files(entries.subrange(0, k)).len() ==> #[trigger] chunk_files(entries)[i]
                == chunk_files(entries.subrange(0, k))[i],
    decreases entries.len() - k,
{
    if k == entries.len() {
        assert(entries.subrange(0, k) =~= entries);
    } else {
        lemma_chunk_files_prefix(entries, k + 1);
        let a = entries.subrange(0, k);
        let b = entries.subrange(0, k + 1);
        assert(b.drop_last() =~= a);
    }
}

/// Reads the file named `name` from an open archive.
fn read_file(a: &mut zip::ZipArchive<std::io::Cursor<Vec<u8>>>, name: &str) -> (r: Result<Vec<u8>, LoadSaveError>)
    ensures
        crate::archive::zip_archive_source(*final(a)) == crate::archive::zip_archive_source(*old(a)),
        !crate::archive::has_entry(crate::archive::zip_entries(crate::archive::zip_archive_source(*old(a))), name@)
            ==> r matches Err(LoadSaveError::MissingFile),
        r matches Err(LoadSaveError::MissingFile) ==> !crate::archive::has_entry(
            crate::archive::zip_entries(crate::archive::zip_archive_source(*old(a))),
            name@,
        ),
        r matches Ok(d) ==> crate::archive::zip_entries(crate::archive::zip_archive_source(*old(a))).contains((name@, d@)),
        !(r matches Err(LoadSaveError::Chunk(_))),
        crate::archive::zip_sound(crate::archive::zip_archive_source(*old(a)))
            && crate::archive::has_entry(
            crate::archive::zip_entries(crate::archive::zip_archive_source(*old(a))),
            name@,
        ) ==> r is Ok,
{
    match read_archive_file(a, name) {
        Ok(d) => Ok(d),
        Err(ArchiveReadError::FileNotFound) => Err(LoadSaveError::MissingFile),
        Err(ArchiveReadError::Zip(e)) => Err(LoadSaveError::Zip(e)),
        Err(ArchiveReadError::Io(e)) => Err(LoadSaveError::Io(e)),
    }
}

/// Whether chunk file `i` is the first that holds no chunk.
pub open spec fn first_bad_chunk(files: Seq<(ChunkCoords, Seq<u8>)>, i: int) -> bool {
    &&& 0 <= i < files.len()
    &&& !chunk_decodable(files[i].1)
    &&& forall|j: int| 0 <= j < i ==> chunk_decodable(#[trigger] files[j].1)
}

/// Whether chunk file `i` is the first that holds no chunk, and is long enough, and `v` is the
/// first of its voxels whose material byte names no material.
pub open spec fn invalid_material_at(files: Seq<(ChunkCoords, Seq<u8>)>, i: int, v: int) -> bool {
    &&& first_bad_chunk(files, i)
    &&& files[i].1.len() >= CHUNK_FILE_BYTES
    &&& 0 <= v < VOXELS_PER_CHUNK
    &&& decoded_voxel(files[i].1, v) is None
    &&& forall|j: int| 0 <= j < v ==> #[trigger] decoded_voxel(files[i].1, j) is Some
}

/// An I/O error of kind `UnexpectedEof`, as reading past the end of a file gives.
///
/// Trusted: calls `std::io::Error::from` on `ErrorKind::UnexpectedEof`. Nothing is stated of the
/// error, which Verus sees as opaque.
#[verifier::external_body]
fn unexpected_eof() -> (e: std::io::Error) {
    std::io::Error::from(std::io::ErrorKind::UnexpectedEof)
}

/// Loads a world from the bytes of its archive: the settings, which must be there; every chunk
/// file, in the order of the archive; and the placed objects, if there are any. A chunk file
/// that holds no chunk makes it fail: one that is too short with an I/O error of kind
/// `UnexpectedEof`, as reading past its end gives; one with a voxel of no material with
/// [`ChunkDecodeError::InvalidMaterial`]. An archive as saving leaves it fails for no other
/// reason.
pub fn load_world(bytes: &[u8]) -> (r: Result<LoadedWorld, LoadSaveError>)
    ensures
        r matches Ok(world) ==> loaded_from(crate::archive::zip_entries(bytes@), world),
        !crate::archive::has_entry(crate::archive::zip_entries(bytes@), meta_filename()) ==> r is Err,
        r matches Err(LoadSaveError::MissingFile) ==> !crate::archive::has_entry(
            crate::archive::zip_entries(bytes@),
            meta_filename(),
        ),
        (exists|i: int|
            0 <= i < chunk_files(crate::archive::zip_entries(bytes@)).len() && !chunk_decodable(
                #[trigger] chunk_files(crate::archive::zip_entries(bytes@))[i].1,
            )) ==> r is Err,
        r matches Err(LoadSaveError::Chunk(e)) ==> e is InvalidMaterial,
        r matches Err(LoadSaveError::Chunk(ChunkDecodeError::InvalidMaterial(v))) ==> exists|i: int|
            invalid_material_at(chunk_files(crate::archive::zip_entries(bytes@)), i, v as int),
        crate::archive::zip_sound(bytes@) && crate::archive::has_entry(
            crate::archive::zip_entries(bytes@),
            meta_filename(),
        ) && (forall|i: int|
            0 <= i < chunk_files(crate::archive::zip_entries(bytes@)).len() ==> chunk_decodable(
                #[trigger] chunk_files(crate::archive::zip_entries(bytes@))[i].1,
            )) ==> r is Ok,
        crate::archive::zip_sound(bytes@) && crate::archive::has_entry(
            crate::archive::zip_entries(bytes@),
            meta_filename(),
        ) ==> match r {
            Ok(_) => forall|i: int|
                0 <= i < chunk_files(crate::archive::zip_entries(bytes@)).len() ==> chunk_decodable(
                    #[trigger] chunk_files(crate::archive::zip_entries(bytes@))[i].1,
                ),
            Err(LoadSaveError::Io(_)) => exists|i: int|
                first_bad_chunk(chunk_files(crate::archive::zip_entries(bytes@)), i) && chunk_files(
                    crate::archive::zip_entries(bytes@),
                )[i].1.len() < CHUNK_FILE_BYTES,
            Err(LoadSaveError::Chunk(_)) => true,
            _ => false,
        },
{
    let ghost source = bytes@;
    let mut a = match open_archive(bytes) {
        Ok(a) => a,
        Err(e) => {
            return Err(LoadSaveError::Zip(e));
        },
    };
    let ghost entries = crate::archive::zip_entries(source);
    let meta_name = "meta.json";
    let spawnables_name = "spawnables.json";
    proof {
        reveal_strlit("meta.json");
        reveal_strlit("spawnables.json");
        assert(meta_name@ =~= meta_filename());
        assert(spawnables_name@ =~= spawnables_filename());
    }
    let meta_json = read_file(&mut a, meta_name)?;
    let names = archive_file_names(&a);
    let mut chunks: Vec<(ChunkCoords, ChunkData)> = Vec::new();
    let mut k: usize = 0;
    while k < names.len()
        invariant
            source == bytes@,
            crate::archive::zip_archive_source(a) == source,
            entries == crate::archive::zip_entries(source),
            names.len() == entries.len(),
            forall|i: int| 0 <= i < names.len() ==> (#[trigger] names@[i])@ == entries[i].0,
            forall|i: int, j: int| 0 <= i < j < names.len() ==> entries[i].0 != entries[j].0,
            k <= names.len(),
            chunks.len() == chunk_files(entries.subrange(0, k as int)).len(),
            forall|i: int|
                0 <= i < chunks.len() ==> {
                    let f = #[trigger] chunk_files(entries.subrange(0, k as int))[i];
                    &&& chunks@[i].0 == f.0
                    &&& chunk_decodable(f.1)
                    &&& chunks@[i].1.voxels@ == decoded_voxels(f.1)
                },
        decreases names.len() - k,
    {
        let ghost done = entries.subrange(0, k as int);
        let ghost next = entries.subrange(0, k + 1);
        assert(next.drop_last() =~= done);
        assert(next.last() == entries[k as int]);
        let name = names[k].as_str();
        match parse_chunk_filename(name) {
            Some(coords) => {
                let contents = read_file(&mut a, name)?;
                proof {
                    let j = choose|j: int| 0 <= j < entries.len() && entries[j] == (name@, contents@);
                    if j != k {
                        assert(entries[j].0 == entries[k as int].0);
                    }
                    assert(entries[k as int] == (name@, contents@));
                }
                let data = match decode_chunk(contents.as_slice()) {
                    Ok(d) => d,
                    Err(e) => {
                        proof {
                            assert(chunk_files(next) == chunk_files(done).push((coords, contents@)));
                            lemma_chunk_files_prefix(entries, k + 1);
                            lemma_chunk_files_prefix(entries, k as int);
                            let i = chunk_files(done).len() as int;
                            assert(chunk_files(next)[i] == (coords, contents@));
                            assert(chunk_files(entries)[i] == chunk_files(next)[i]);
                            assert(!chunk_decodable(chunk_files(entries)[i].1));
                            assert forall|j: int| 0 <= j < i implies chunk_decodable(
                                #[trigger] chunk_files(entries)[j].1,
                            ) by {
                                assert(chunk_files(entries)[j] == chunk_files(done)[j]);
                            }
                            assert(first_bad_chunk(chunk_files(entries), i));
                        }
                        match e {
                            ChunkDecodeError::Truncated => {
                                return Err(LoadSaveError::Io(unexpected_eof()));
                            },
                            ChunkDecodeError::InvalidMaterial(v) => {
                                proof {
                                    let i = chunk_files(done).len() as int;
                                    assert(chunk_files(entries)[i].1 == contents@);
                                    assert(invalid_material_at(chunk_files(entries), i, v as int));
                                }
                                return Err(LoadSaveError::Chunk(e));
                            },
                        }
                    },
                };
                chunks.push((coords, data));
                proof {
                    assert(chunk_files(next) == chunk_files(done).push((coords, contents@)));
                }
            },
            None => {
                assert(chunk_files(next) == chunk_files(done));
            },
        }
        k += 1;
    }
    assert(entries.subrange(0, k as int) =~= entries);
    let spawnables_json = match read_file(&mut a, spawnables_name) {
        Ok(d) => Some(d),
        Err(LoadSaveError::MissingFile) => None,
        Err(e) => {
            return Err(e);
        },
    };
    Ok(LoadedWorld { meta_json, chunks, spawnables_json })
}


proof fn lemma_chunk_files_of_world(world: WorldFiles, n: int)
    requires
        0 <= n <= world.chunks.len(),
    ensures
        chunk_files(seq![(meta_filename(), world.meta_json@)] + chunk_entries(world.chunks@.subrange(0, n)))
            == Seq::new(
            n as nat,
            |i: int| (world.chunks@[i].0, chunk_bytes(world.chunks@[i].1.voxels@)),
        ),
    decreases n,
{
    let meta = seq![(meta_filename(), world.meta_json@)];
    let es = meta + chunk_entries(world.chunks@.subrange(0, n));
    if n == 0 {
        assert(es.drop_last() =~= Seq::<(Seq<char>, Seq<u8>)>::empty());
        assert(chunk_files(es.drop_last()) =~= Seq::<(ChunkCoords, Seq<u8>)>::empty());
        assert(spec_parse_chunk_filename(meta_filename()) is None);
        assert(chunk_files(es) =~= Seq::<(ChunkCoords, Seq<u8>)>::empty());
    } else {
        lemma_chunk_files_of_world(world, n - 1);
        let prev = meta + chunk_entries(world.chunks@.subrange(0, n - 1));
        assert(es.drop_last() =~= prev);
        let c = world.chunks@[n - 1].0;
        assert(es.last() == (spec_chunk_filename(c), chunk_bytes(world.chunks@[n - 1].1.voxels@)));
        lemma_chunk_filename_roundtrip(c);
        assert(chunk_files(es) =~= Seq::new(
            n as nat,
            |i: int| (world.chunks@[i].0, chunk_bytes(world.chunks@[i].1.voxels@)),
        ));
    }
}

proof fn lemma_decode_encoded(voxels: Seq<Voxel>)
    requires
        voxels.len() == VOXELS_PER_CHUNK,
    ensures
        chunk_decodable(chunk_bytes(voxels)),
        decoded_voxels(chunk_bytes(voxels)) == voxels,
{
    assert forall|i: int| 0 <= i < VOXELS_PER_CHUNK implies #[trigger] decoded_voxel(chunk_bytes(voxels), i)
        == Some(voxels[i]) by {
        lemma_chunk_bytes_roundtrip(voxels, i);
    }
    lemma_chunk_bytes_len(voxels);
    assert(decoded_voxels(chunk_bytes(voxels)) =~= voxels);
}

/// What saving a world writes loads: the archive holds the settings file, and every chunk file
/// in it holds a chunk.
pub proof fn lemma_saved_world_loads(world: WorldFiles, bytes: Seq<u8>)
    requires
        forall|i: int| 0 <= i < world.chunks.len() ==> (#[trigger] world.chunks@[i]).1.wf(),
        crate::archive::zip_entries(bytes) == world_entries(world),
    ensures
        crate::archive::has_entry(crate::archive::zip_entries(bytes), meta_filename()),
        forall|i: int|
            0 <= i < chunk_files(crate::archive::zip_entries(bytes)).len() ==> chunk_decodable(
                #[trigger] chunk_files(crate::archive::zip_entries(bytes))[i].1,
            ),
{
    let entries = world_entries(world);
    let n = world.chunks.len() as int;
    let meta = seq![(meta_filename(), world.meta_json@)];
    let spawn = (spawnables_filename(), world.spawnables_json@);
    assert(world.chunks@.subrange(0, n) =~= world.chunks@);
    lemma_chunk_files_of_world(world, n);
    let body = meta + chunk_entries(world.chunks@);
    assert(entries == body.push(spawn));
    assert(entries.drop_last() =~= body);
    assert(spec_parse_chunk_filename(spawnables_filename()) is None);
    assert(chunk_files(entries) == chunk_files(body));
    assert(entries[0] == (meta_filename(), world.meta_json@));
    assert forall|i: int| 0 <= i < chunk_files(entries).len() implies chunk_decodable(
        #[trigger] chunk_files(entries)[i].1,
    ) by {
        assert(chunk_files(entries)[i] == (world.chunks@[i].0, chunk_bytes(world.chunks@[i].1.voxels@)));
        lemma_decode_encoded(world.chunks@[i].1.voxels@);
    }
}

/// Loading what saving a world wrote gives the world back: the same settings, the same chunks
/// with the same voxels in the same order, and the same placed objects.
pub proof fn lemma_save_then_load(world: WorldFiles, bytes: Seq<u8>, loaded: LoadedWorld)
    requires
        forall|i: int| 0 <= i < world.chunks.len() ==> (#[trigger] world.chunks@[i]).1.wf(),
        crate::archive::zip_entries(bytes) == world_entries(world),
        loaded_from(crate::archive::zip_entries(bytes), loaded),
    ensures
        loaded.meta_json@ == world.meta_json@,
        loaded.chunks.len() == world.chunks.len(),
        forall|i: int|
            0 <= i < world.chunks.len() ==> (#[trigger] loaded.chunks@[i]).0 == world.chunks@[i].0
                && loaded.chunks@[i].1.voxels@ == world.chunks@[i].1.voxels@,
        loaded.spawnables_json matches Some(s) && s@ == world.spawnables_json@,
{
    let entries = world_entries(world);
    let n = world.chunks.len() as int;
    let meta = seq![(meta_filename(), world.meta_json@)];
    let spawn = (spawnables_filename(), world.spawnables_json@);
    assert(world.chunks@.subrange(0, n) =~= world.chunks@);
    lemma_chunk_files_of_world(world, n);
    let body = meta + chunk_entries(world.chunks@);
    assert(entries == body.push(spawn));
    assert(entries.drop_last() =~= body);
    assert(spec_parse_chunk_filename(spawnables_filename()) is None);
    assert(chunk_files(entries) == chunk_files(body));
    // The settings: only the first file is named `meta.json`.
    let m = choose|j: int| 0 <= j < entries.len() && entries[j] == (meta_filename(), loaded.meta_json@);
    if m > 0 && m < entries.len() - 1 {
        lemma_chunk_name_not_json(world.chunks@[m - 1].0);
        assert(entries[m].0 == spec_chunk_filename(world.chunks@[m - 1].0));
    }
    if m == entries.len() - 1 {
        assert(entries[m].0 == spawnables_filename());
        assert(entries[m].0[0] != meta_filename()[0]);
    }
    // The chunks.
    assert forall|i: int| 0 <= i < n implies (#[trigger] loaded.chunks@[i]).0 == world.chunks@[i].0
        && loaded.chunks@[i].1.voxels@ == world.chunks@[i].1.voxels@ by {
        let f = chunk_files(entries)[i];
        assert(f == (world.chunks@[i].0, chunk_bytes(world.chunks@[i].1.voxels@)));
        lemma_decode_encoded(world.chunks@[i].1.voxels@);
    }
    // The placed objects: only the last file is named `spawnables.json`.
    assert(entries[entries.len() - 1] == spawn);
    match loaded.spawnables_json {
        Some(s) => {
            let j = choose|j: int| 0 <= j < entries.len() && entries[j] == (spawnables_filename(), s@);
            if j == 0 {
                assert(entries[0].0[0] != spawnables_filename()[0]);
            } else if j < entries.len() - 1 {
                lemma_chunk_name_not_json(world.chunks@[j - 1].0);
                assert(entries[j].0 == spec_chunk_filename(world.chunks@[j - 1].0));
            }
        },
        None => {
            assert(entries[entries.len() - 1].0 == spawnables_filename());
        },
    }
}

} // verus!
