//! Stages a package's build script as a throwaway package of its own in a
//! scratch directory, so that it may have dependencies of its own without
//! adding them to the package: the manifest text surgery this needs, the
//! invocations of the toolchain, and the sequence of steps, with its cleanup
//! guarantee, as a state machine that a driver runs.
pub mod text;
pub mod manifest;
pub mod workspace;
pub mod toolchain;
pub mod staging;

pub use manifest::{qualify_cargo_toml_paths_in_text, read_toml_section};
pub use staging::{advance, Action, Event, Mode, Phase, StagingPlan};
