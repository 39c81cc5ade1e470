//! A layered key-value container: a stack of independent maps that act as
//! one logical mapping, with lexical-scope-style shadowing.

pub mod laws;
pub mod map;

pub use map::ChainMap;
