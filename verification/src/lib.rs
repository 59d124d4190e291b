//! Chunked-terrain core of a voxel world: block classification, surface
//! extraction and the bookkeeping that streams chunks around an observer.

pub mod as_bytes;
pub mod chunk;
pub mod chunk_manager;
pub mod kimg;
pub mod krand;
pub mod mesh;
pub mod priority_queue;
pub mod settings;
pub mod world_gen;
pub mod world_gen2;
