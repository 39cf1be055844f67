//! Inlines expressions and temporaries.

pub mod aliases;
pub mod cleanup;
pub mod declarations;
pub mod expressions;
pub mod inline_named;
pub mod laws;
pub mod register_laws;
pub mod registers;
pub mod vars;
pub mod vars_laws;
