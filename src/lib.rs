//! Reading of HAB containers and of texture banks from in-memory byte sources.
pub mod container;
pub mod decode;
pub mod texture;
