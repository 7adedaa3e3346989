//! The managers: one registry per kind of resource, each turning the
//! application's description into the record that a frame reads.

pub mod material;
pub mod mesh;
pub mod object;
pub mod texture;
