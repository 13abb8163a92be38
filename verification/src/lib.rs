//! Streaming of map data for a sliding viewport over a world cut into a grid
//! of fixed-size chunks: which chunks a viewport change brings in or drops,
//! which of them still have to be loaded, how a load walks the two cache
//! tiers before it fetches, and how the entities of the loaded chunks are
//! stored once and counted by the chunks that refer to them.
//!
//! The library decides and keeps the books. Reading files, asking the map
//! service, waiting for a permit and drawing are left to its caller, who
//! tells the library how each of them went.

pub mod cache;
pub mod entity;
pub mod error;
pub mod gate;
pub mod laws;
pub mod loader;
pub mod model;
pub mod parsed;
pub mod store;
pub mod viewport;
pub mod world;
