//! Engine core of a multi-track audio recorder and player: catalog of
//! recordings and presets, automation keyframe capture and replay, natural
//! ordering of clip names, and reconciliation of the catalog with the set of
//! clip files present on disk.

pub mod automation;
pub mod catalog;
pub mod errors;
pub mod files;
pub mod ordering;
pub mod player;
pub mod recorder;
pub mod rng;
pub mod snapshot;
pub mod text;
pub mod tracker;

pub use errors::Error;
