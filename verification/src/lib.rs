//! Core of a real-time renderer: staged scene mutation, handle-based resource
//! registries and the bookkeeping of a GPU-driven culling pass.

pub mod arena;
pub mod culling;
pub mod datatypes;
pub mod handle;
pub mod instruction;
pub mod limits;
pub mod math;
pub mod registry;
pub mod renderer;
pub mod resources;
pub mod setup;
