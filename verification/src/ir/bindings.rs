//! Definitions of variables.

use super::model::{Expr, Stmt, Target};
use super::{AssignTarget, Expression, Statement};
use vstd::prelude::*;

verus! {

/// A definition of a variable, by declaration or by assignment: its name and value.
pub open spec fn binding(s: Stmt) -> Option<(Seq<char>, Expr)> {
    match s {
        Stmt::Let { name, value, .. } => Some((name, value)),
        Stmt::Assign { target: Target::Variable(name), value } => Some((name, value)),
        _ => None,
    }
}

/// The name and value of a definition.
pub fn as_binding(s: &Statement) -> (r: Option<(&String, &Expression)>)
    ensures
        match r {
            Some(p) => binding(s@) == Some((p.0@, p.1@)),
            None => binding(s@) is None,
        },
{
    match s {
        Statement::Let { name, value, .. } => Some((name, value)),
        Statement::Assign { target: AssignTarget::Variable(name), value } => Some((name, value)),
        _ => None,
    }
}

} // verus!
