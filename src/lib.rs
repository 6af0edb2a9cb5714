//! Generation of a Luau module that exposes a set of named enumerations.
pub mod model;
pub mod text;
pub mod document;
pub mod format;
