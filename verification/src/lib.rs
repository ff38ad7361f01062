//! Data pipeline behind a filesystem explorer: caches, navigation history,
//! size calculation and the view state machine.

pub mod cache;
pub mod celestial;
pub mod channel;
pub mod clock;
pub mod filesystem;
pub mod formatting;
pub mod interaction;
pub mod navigation;
pub mod paths;
pub mod persistent_cache;
pub mod size_calculation;
pub mod sorting;
pub mod spawning;
pub mod states;
pub mod text;
