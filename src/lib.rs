pub mod catalog;
pub mod codec;
pub mod error;
pub mod formats;
pub mod gateway;
pub mod graph;
pub mod store;
pub mod wire;
pub mod triangles;
