//! Compiles tile maps (orthogonal or isometric grids of tiles, with object
//! groups) into chunked quad meshes, and keeps the bookkeeping of the scene
//! entities realized from them.
pub mod chunk;
pub mod compile;
pub mod geometry;
pub mod map;
pub mod mesh;
pub mod object;
pub mod reconcile;
pub mod tileset;
