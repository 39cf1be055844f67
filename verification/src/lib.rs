//! Structural passes of a Hermes bytecode decompiler, over its intermediate representation.

pub mod codegen;
pub mod collapse_registry;
pub mod destructuring;
pub mod dict;
pub mod generator;
pub mod inline;
pub mod ir;
pub mod metro;
pub mod module_hoist;
pub mod names;
pub mod objects;
pub mod optimize;
pub mod patterns;
pub mod propagate;
pub mod text;
