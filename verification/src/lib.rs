//! Verified core of a voxel world editor: voxel and chunk coordinates, chunk storage, updates
//! and meshing, world files and their archives, image masks for the prism tool, the prism
//! workflow, tool state, asset packs, and the settings shared with the render server.

pub mod archive;
pub mod assets;
pub mod file_dialog;
pub mod image_mask;
pub mod load_save;
pub mod math;
pub mod prism;
pub mod project;
pub mod raycast;
pub mod replay_buffer;
pub mod settings;
pub mod text;
pub mod tools;
pub mod training;
pub mod voxel;
