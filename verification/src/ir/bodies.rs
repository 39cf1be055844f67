//! The statement lists that stand in a statement, and what is left of it without them.

use super::model::Stmt;
use vstd::prelude::*;

verus! {

/// The lists in a statement, in order.
pub open spec fn bodies(s: Stmt) -> Seq<Seq<Stmt>> {
    match s {
        Stmt::If { then_body, else_body, .. } => seq![then_body, else_body],
        Stmt::While { body, .. } => seq![body],
        Stmt::DoWhile { body, .. } => seq![body],
        Stmt::For { body, .. } => seq![body],
        Stmt::ForIn { body, .. } => seq![body],
        Stmt::ForOf { body, .. } => seq![body],
        Stmt::Block(body) => seq![body],
        Stmt::TryCatch { try_body, catch_body, finally_body, .. } => seq![
            try_body,
            catch_body,
            finally_body,
        ],
        Stmt::Switch { cases, default, .. } => Seq::new(cases.len(), |i: int| cases[i].1) + (
        match default {
            Some(body) => seq![body],
            None => Seq::empty(),
        }),
        _ => Seq::empty(),
    }
}

/// The statement with its lists emptied.
pub open spec fn frame(s: Stmt) -> Stmt {
    let none = Seq::<Stmt>::empty();
    match s {
        Stmt::If { condition, .. } => Stmt::If { condition, then_body: none, else_body: none },
        Stmt::While { condition, .. } => Stmt::While { condition, body: none },
        Stmt::DoWhile { condition, .. } => Stmt::DoWhile { body: none, condition },
        Stmt::For { init, condition, update, .. } => Stmt::For {
            init,
            condition,
            update,
            body: none,
        },
        Stmt::ForIn { variable, object, .. } => Stmt::ForIn { variable, object, body: none },
        Stmt::ForOf { variable, iterable, .. } => Stmt::ForOf { variable, iterable, body: none },
        Stmt::Block(_) => Stmt::Block(none),
        Stmt::TryCatch { catch_param, .. } => Stmt::TryCatch {
            try_body: none,
            catch_param,
            catch_body: none,
            finally_body: none,
        },
        Stmt::Switch { discriminant, cases, default } => Stmt::Switch {
            discriminant,
            cases: Seq::new(cases.len(), |i: int| (cases[i].0, none)),
            default: match default {
                Some(_) => Some(none),
                None => None,
            },
        },
        _ => s,
    }
}

/// Whether a statement is another with each of its lists replaced by what a function makes of it.
pub open spec fn within(t: Stmt, s: Stmt, f: spec_fn(Seq<Stmt>) -> Seq<Stmt>) -> bool {
    frame(t) == frame(s) && bodies(t) == bodies(s).map_values(f)
}

} // verus!
