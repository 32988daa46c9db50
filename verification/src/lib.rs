//! Resolver, artifact planner and launch-plan assembler for a Java game
//! client.  The crate resolves a transitive dependency graph of versioned
//! packages from a remote metadata registry, plans the downloads needed to
//! materialise the required artifacts into a local cache, and assembles the
//! command line that launches the game.  All I/O (networking, hashing of
//! files on disk, archive extraction, process launch) is left to the caller;
//! the crate itself only decides, over plain values.

pub mod asset;
pub mod auth;
pub mod config;
pub mod coord;
pub mod disk;
pub mod error;
pub mod hash;
pub mod index;
pub mod instance;
pub mod launch;
pub mod manager;
pub mod manifest;
pub mod request;
pub mod strutil;
