pub mod color;
pub mod engine;
pub mod geometry;
pub mod grid;
pub mod image;
pub mod map;
pub mod market;
pub mod origin_grid;
pub mod text;
pub mod unsafe_ordering;
pub use unsafe_ordering::unsafe_float_ordering;
mod xy_ordering;
