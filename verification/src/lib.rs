pub mod blocks;
pub mod chaos;
pub mod chunk;
pub mod chunking;
pub mod model;
pub mod physics;
pub mod player;
pub mod rendering;
pub mod threading;
pub mod vertex;
pub mod world_gen;
