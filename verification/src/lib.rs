//! Staged build orchestration for a freestanding kernel image.
//!
//! The crate discovers source files in a modelled directory tree, assembles
//! the freestanding cross-compilation flag set, and drives an ordered
//! sequence of compilation stages, each of which yields one static artifact.
//! All decisions (which files belong to a stage, which flags a stage gets,
//! when a run aborts) are made here and verified; reading the real
//! filesystem and invoking the compiler are left to the surrounding program.

pub mod discovery;
pub mod flags;
pub mod fs_tree;
pub mod orchestrator;
pub mod paths;
pub mod stage;
pub mod toolchain;
