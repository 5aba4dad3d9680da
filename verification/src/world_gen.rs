pub mod noise_source;
pub mod world_generator;
