pub mod blocks;
pub mod chunk;
pub mod chunk_mesh;
pub mod chunk_renderer;
pub mod generator;
