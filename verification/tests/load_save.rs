use std::io::{Cursor, Write};

use prismata::load_save::{
    chunk_filename, decode_chunk, encode_chunk, load_world, parse_chunk_filename, save_world,
    ChunkDecodeError, LoadSaveError, WorldFiles, CHUNK_FILE_BYTES,
};
use prismata::math::IVec3;
use prismata::voxel::{ChunkCoords, ChunkData, Voxel, VoxelMaterial};

fn chunk(x: i32, y: i32, z: i32) -> ChunkCoords {
    ChunkCoords(IVec3 { x, y, z })
}

fn sample_chunk(seed: u8) -> ChunkData {
    let mut data = ChunkData::default();
    data.voxels[0] = Voxel { rgb: [seed, 2, 3], material: VoxelMaterial::Solid };
    data.voxels[15624] = Voxel { rgb: [4, seed, 6], material: VoxelMaterial::Projected };
    data.voxels[700] = Voxel { rgb: [7, 8, seed], material: VoxelMaterial::Draft };
    data
}

fn zip_of(files: &[(&str, &[u8])]) -> Vec<u8> {
    let mut w = zip::ZipWriter::new(Cursor::new(Vec::new()));
    for (name, data) in files {
        w.start_file(*name, zip::write::SimpleFileOptions::default()).unwrap();
        w.write_all(data).unwrap();
    }
    w.finish().unwrap().into_inner()
}

#[test]
fn chunk_bytes_round_trip() {
    let data = sample_chunk(1);
    let bytes = encode_chunk(&data);
    assert_eq!(bytes.len(), CHUNK_FILE_BYTES);
    assert_eq!(&bytes[0..4], &[1, 2, 3, 2]);
    assert_eq!(&bytes[2800..2804], &[7, 8, 1, 1]);
    let back = decode_chunk(&bytes).ok().unwrap();
    assert!(back.voxels == data.voxels);
}

#[test]
fn decoding_ignores_trailing_bytes() {
    let data = sample_chunk(9);
    let mut bytes = encode_chunk(&data);
    bytes.extend_from_slice(&[1, 2, 3]);
    assert!(decode_chunk(&bytes).ok().unwrap().voxels == data.voxels);
}

#[test]
fn decoding_short_file_is_truncated() {
    let bytes = vec![0u8; CHUNK_FILE_BYTES - 1];
    assert!(matches!(decode_chunk(&bytes), Err(ChunkDecodeError::Truncated)));
}

#[test]
fn decoding_unknown_material_names_the_voxel() {
    let mut bytes = encode_chunk(&ChunkData::default());
    bytes[4 * 10 + 3] = 7;
    bytes[4 * 20 + 3] = 9;
    assert!(matches!(decode_chunk(&bytes), Err(ChunkDecodeError::InvalidMaterial(10))));
}

#[test]
fn chunk_file_names() {
    assert_eq!(chunk_filename(chunk(1, -2, 3)), "chunks/chunk_1_-2_3.bin");
    assert_eq!(parse_chunk_filename("chunks/chunk_1_-2_3.bin"), Some(chunk(1, -2, 3)));
    assert_eq!(
        parse_chunk_filename(&chunk_filename(chunk(i32::MIN, 0, i32::MAX))),
        Some(chunk(i32::MIN, 0, i32::MAX))
    );
    assert_eq!(parse_chunk_filename("chunks/chunk_1_2_3_extra.bin"), Some(chunk(1, 2, 3)));
    assert_eq!(parse_chunk_filename("chunks/chunk_1_2.bin"), None);
    assert_eq!(parse_chunk_filename("chunks/chunk_1_x_3.bin"), None);
    assert_eq!(parse_chunk_filename("chunk_1_2_3.bin"), None);
    assert_eq!(parse_chunk_filename("chunks/chunk_1_2_3.txt"), None);
    assert_eq!(parse_chunk_filename("meta.json"), None);
}

#[test]
fn saved_world_loads_back() {
    let world = WorldFiles {
        meta_json: b"{\"project_name\":\"x\"}".to_vec(),
        chunks: vec![(chunk(0, 0, 0), sample_chunk(1)), (chunk(-3, 2, 5), sample_chunk(2))],
        spawnables_json: b"{\"spawnables\":[]}".to_vec(),
    };
    let bytes = save_world(&world).ok().unwrap();
    let loaded = load_world(&bytes).ok().unwrap();
    assert_eq!(loaded.meta_json, world.meta_json);
    assert_eq!(loaded.chunks.len(), 2);
    for ((c1, d1), (c2, d2)) in loaded.chunks.iter().zip(world.chunks.iter()) {
        assert_eq!(c1, c2);
        assert!(d1.voxels == d2.voxels);
    }
    assert_eq!(loaded.spawnables_json, Some(world.spawnables_json.clone()));
}

#[test]
fn saving_two_chunks_at_one_place_fails() {
    let world = WorldFiles {
        meta_json: b"{}".to_vec(),
        chunks: vec![(chunk(1, 1, 1), sample_chunk(1)), (chunk(1, 1, 1), sample_chunk(2))],
        spawnables_json: b"{}".to_vec(),
    };
    assert!(save_world(&world).is_err());
}

#[test]
fn loading_without_meta_fails() {
    let bytes = zip_of(&[("spawnables.json", b"{}")]);
    assert!(matches!(load_world(&bytes), Err(LoadSaveError::MissingFile)));
}

#[test]
fn loading_without_spawnables_gives_none() {
    let chunk_bytes = encode_chunk(&sample_chunk(3));
    let bytes = zip_of(&[
        ("meta.json", b"{}"),
        ("readme.txt", b"hello"),
        ("chunks/chunk_4_0_-1.bin", &chunk_bytes),
    ]);
    let loaded = load_world(&bytes).ok().unwrap();
    assert_eq!(loaded.meta_json, b"{}".to_vec());
    assert_eq!(loaded.chunks.len(), 1);
    assert_eq!(loaded.chunks[0].0, chunk(4, 0, -1));
    assert!(loaded.chunks[0].1.voxels == sample_chunk(3).voxels);
    assert_eq!(loaded.spawnables_json, None);
}

#[test]
fn loading_a_broken_chunk_fails() {
    let bytes = zip_of(&[("meta.json", b"{}"), ("chunks/chunk_0_0_0.bin", &[1, 2, 3])]);
    match load_world(&bytes) {
        Err(LoadSaveError::Io(e)) => assert_eq!(e.kind(), std::io::ErrorKind::UnexpectedEof),
        _ => panic!("a short chunk file should end the read early"),
    }
}

#[test]
fn loading_a_chunk_with_an_unknown_material_fails() {
    let mut chunk_bytes = encode_chunk(&sample_chunk(3));
    chunk_bytes[4 * 7 + 3] = 200;
    let bytes = zip_of(&[("meta.json", b"{}"), ("chunks/chunk_0_0_0.bin", &chunk_bytes)]);
    assert!(matches!(
        load_world(&bytes),
        Err(LoadSaveError::Chunk(ChunkDecodeError::InvalidMaterial(7)))
    ));
}

#[test]
fn loading_garbage_fails() {
    assert!(matches!(load_world(&[1, 2, 3, 4]), Err(LoadSaveError::Zip(_))));
}
