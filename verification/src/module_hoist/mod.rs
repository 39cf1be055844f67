//! Eager module loads hoisted into one binding per module.
//!
//! In a Metro bundle the loader is called at every use site, so a dependency shows up many times
//! as `importDefault(530).foo()`. Each module that is loaded eagerly gets one binding at the top
//! of the factory, and the eager loads become that binding. Loaders of one module stay apart,
//! a binding that is already there is used again, and a module that some getter loads lazily is
//! left alone.

pub mod detect;
pub mod hoist;
pub mod kinds;
pub mod laws;
pub mod lazy;
pub mod members;
pub mod names;
pub mod rewrite;
pub mod rewrite_laws;
pub mod survey;
