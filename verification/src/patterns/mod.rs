//! Recovers source-level constructs from their lowered shapes.

pub mod jsx;
pub mod loops;
