//! Clean-up of statement lists: choices, dead stores and dead temporaries.

pub mod dead_assign;
pub mod dead_bindings;
pub mod dead_laws;
pub mod invert;
pub mod laws;
pub mod merge_returns;
pub mod ternary;

use crate::ir::model;
use crate::ir::Statement;
use vstd::prelude::*;

verus! {

/// Dead-store elimination on its own, for late in a pipeline, where the dead stores of a reused
/// slot stand next to each other. A store whose value is never read before the next store goes;
/// a call in it stays.
pub fn eliminate_dead_stores(stmts: Vec<Statement>) -> (r: Vec<Statement>)
    ensures
        model::stmts(r@) == dead_assign::live(model::stmts(stmts@)),
{
    dead_assign::remove_dead_assignments(stmts)
}

/// Turns empty conditionals around, makes choices expressions, removes dead stores and drops
/// returns that follow a return, in this order.
pub fn optimize_statements(stmts: Vec<Statement>) -> (r: Vec<Statement>)
    ensures
        model::stmts(r@) == merge_returns::merged(
            dead_assign::live(ternary::chosen(invert::inverted(model::stmts(stmts@)))),
        ),
{
    let stmts = invert::invert_empty_ifs(stmts);
    let stmts = ternary::detect_ternaries(stmts);
    let stmts = dead_assign::remove_dead_assignments(stmts);
    merge_returns::merge_sequential_returns(stmts)
}

} // verus!
