pub mod lighting;
pub mod mesh;
