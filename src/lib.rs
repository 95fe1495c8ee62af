//! Package installer core for Godot projects: manifest validation, package
//! reference resolution, and the install/update engine with rollback.
pub mod errors;
pub mod manifest;
pub mod engine;
pub mod source;
