//! Recovers JSX elements from calls of an element factory.

pub mod call_laws;
pub mod calls;
pub mod element_laws;
pub mod laws;
pub mod lower;
pub mod lower_laws;
pub mod props;
pub mod props_laws;

use crate::ir::model;
use crate::ir::model::Stmt;
use crate::ir::Statement;
use props::Calls;
use vstd::prelude::*;

verus! {

/// A list with its elements recovered: properties that a variable holds are resolved, and factory
/// calls become elements. The calls that stay calls have their properties resolved last.
pub open spec fn reconstructed(s: Seq<Stmt>) -> Seq<Stmt> {
    props::resolved(Calls::Others, lower::low_stmts(props::resolved(Calls::Elements, s)))
}

/// Recovers the elements of a function.
pub fn reconstruct_jsx(stmts: Vec<Statement>) -> (r: Vec<Statement>)
    ensures
        model::stmts(r@) == reconstructed(model::stmts(stmts@)),
{
    let mut out = props::resolve_prop_object_vars(Calls::Elements, &stmts);
    lower::JSXReconstructor::new().visit_statement_list(&mut out);
    props::resolve_prop_object_vars(Calls::Others, &out)
}

} // verus!
