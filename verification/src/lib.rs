pub mod cube;
pub mod driver;
pub mod engine;
pub mod geometry;
pub mod laws;
pub mod pixel;
pub mod walker;
