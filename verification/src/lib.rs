//! Conversion of a resolved WebAssembly Interface Type (WIT) world — the set of
//! interfaces a component imports and exports — into a wadm application
//! deployment manifest: the deployable components, the capability providers
//! that satisfy the interfaces, and the links wiring them together.
//!
//! The crate also orders a set of loosely linked WIT packages so that every
//! package is loaded after the packages it depends on.

pub mod cli;
pub mod deps;
pub mod error;
pub mod interface;
pub mod laws;
pub mod manifest;
pub mod model;
pub mod strutil;
