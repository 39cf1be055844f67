//! Module names behind `require` calls.

use super::{lookup_name, Codegen, Gen};
use crate::ir::model;
use crate::ir::model::{Const, Expr, Key, Val};
use crate::ir::{Constant, Expression, PropertyKey, Value};
use crate::names;
use crate::text;
use vstd::prelude::*;

verus! {

pub open spec fn undefined_expr(e: Expr) -> bool {
    e == Expr::Value(Val::Constant(Const::Undefined))
}

pub fn is_undefined_expr(e: &Expression) -> (r: bool)
    ensures
        r == undefined_expr(e@),
{
    match e {
        Expression::Value(Value::Constant(Constant::Undefined)) => true,
        _ => false,
    }
}

/// How many leading arguments are the `undefined` receiver that Hermes prepends to a call.
pub open spec fn receiver_args(arguments: Seq<Expr>) -> int {
    if arguments.len() >= 2 && undefined_expr(arguments[0]) {
        1
    } else {
        0
    }
}

/// The arguments without the `undefined` receiver.
pub open spec fn effective(arguments: Seq<Expr>) -> Seq<Expr> {
    arguments.subrange(receiver_args(arguments), arguments.len() as int)
}

/// The index of the first argument behind the `undefined` receiver.
pub fn first_effective(arguments: &Vec<Expression>) -> (r: usize)
    ensures
        r == receiver_args(model::exprs(arguments@)),
        r == 0 || r < arguments@.len(),
{
    if arguments.len() >= 2 && is_undefined_expr(&arguments[0]) {
        1
    } else {
        0
    }
}

/// The index in an access like `dependencyMap[0]`.
pub open spec fn array_index(e: Expr) -> Option<u32> {
    match e {
        Expr::Member { property: Key::Index(i), .. } => Some(i as u32),
        Expr::Member { property: Key::Computed(k), .. } => match *k {
            Expr::Value(Val::Constant(Const::Integer(i))) => Some(i as u32),
            _ => None,
        },
        _ => None,
    }
}

pub fn extract_array_index(e: &Expression) -> (r: Option<u32>)
    ensures
        r == array_index(e@),
{
    proof {
        reveal_with_fuel(Expression::view, 3);
        reveal_with_fuel(PropertyKey::view, 3);
    }
    match e {
        Expression::Member { property: PropertyKey::Index(i), .. } => Some(*i as u32),
        Expression::Member { property: PropertyKey::Computed(k), .. } => match &**k {
            Expression::Value(Value::Constant(Constant::Integer(i))) => Some(*i as u32),
            _ => None,
        },
        _ => None,
    }
}

/// The name of a module. An absolute id is looked up among the imports and falls back to
/// `module_` and the id; a dependency index is looked up among the dependency names alone.
pub open spec fn module_name(g: Gen, id: u32, is_absolute_id: bool) -> Option<Seq<char>> {
    if is_absolute_id {
        match g.imports {
            Some(m) => match super::named(m, id) {
                Some(name) => Some(name),
                None => Some(names::numbered("module_"@, id as nat)),
            },
            None => Some(names::numbered("module_"@, id as nat)),
        }
    } else {
        match g.dep_names {
            Some(m) => super::named(m, id),
            None => None,
        }
    }
}

/// The module that the arguments of a `require` call name, with its absolute id.
pub open spec fn required(g: Gen, arguments: Seq<Expr>) -> Option<(Seq<char>, u32)> {
    let args = effective(arguments);
    if args.len() == 0 {
        None
    } else if let Expr::Value(Val::Constant(Const::Integer(id))) = args[0] {
        match module_name(g, id as u32, true) {
            Some(name) => Some((name, id as u32)),
            None => None,
        }
    } else {
        match array_index(args[0]) {
            Some(idx) => match module_name(g, idx, false) {
                Some(name) => Some((name, absolute_id(g, idx))),
                None => None,
            },
            None => None,
        }
    }
}

/// The absolute id behind a dependency index, or the index itself where it is not known.
pub open spec fn absolute_id(g: Gen, idx: u32) -> u32 {
    match g.dep_ids {
        Some(m) => if m.dom().contains(idx) {
            m[idx]
        } else {
            idx
        },
        None => idx,
    }
}

impl Codegen {
    /// Looks a module name up, by absolute module id or by dependency index.
    pub fn lookup_module_name(&self, id: u32, is_absolute_id: bool) -> (r: Option<String>)
        ensures
            text::opt(r) == module_name(self@, id, is_absolute_id),
    {
        if !is_absolute_id {
            return match &self.dep_names {
                Some(m) => lookup_name(m, id),
                None => None,
            };
        }
        if let Some(m) = &self.import_map {
            if let Some(name) = lookup_name(m, id) {
                return Some(name);
            }
        }
        Some(names::number_name("module_", id as u64))
    }

    /// The module named by the arguments of a `require` call, with its absolute id.
    pub fn required_module(&self, arguments: &Vec<Expression>) -> (r: Option<(String, u32)>)
        ensures
            match r {
                Some(p) => required(self@, model::exprs(arguments@)) == Some((p.0@, p.1)),
                None => required(self@, model::exprs(arguments@)) is None,
            },
    {
        let from: usize = first_effective(arguments);
        if from >= arguments.len() {
            return None;
        }
        let id_arg = &arguments[from];
        assert(effective(model::exprs(arguments@))[0] == id_arg@);
        if let Expression::Value(Value::Constant(Constant::Integer(id))) = id_arg {
            let id: u32 = *id as u32;
            return match self.lookup_module_name(id, true) {
                Some(name) => Some((name, id)),
                None => None,
            };
        }
        match extract_array_index(id_arg) {
            Some(idx) => {
                let abs_id: u32 = match &self.dep_ids {
                    Some(m) => match m.get(&idx) {
                        Some(id) => *id,
                        None => idx,
                    },
                    None => idx,
                };
                match self.lookup_module_name(idx, false) {
                    Some(name) => Some((name, abs_id)),
                    None => None,
                }
            },
            None => None,
        }
    }
}

} // verus!
