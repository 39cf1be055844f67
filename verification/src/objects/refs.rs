//! The places that hold an object: registers and named variables.

use crate::ir::model;
use crate::ir::model::{Expr, Stmt, Target, Val};
use crate::ir::visit;
use crate::ir::{AssignTarget, Expression, Statement, Value};
use crate::text;
use vstd::prelude::*;

verus! {

/// The mathematical model of an [`ObjRef`].
#[verifier::ext_equal]
pub enum Ref {
    Register(u32),
    Name(Seq<char>),
}

/// A register or a named variable.
#[derive(Debug)]
pub enum ObjRef {
    Register(u32),
    Name(String),
}

impl ObjRef {
    pub open spec fn view(&self) -> Ref {
        match self {
            ObjRef::Register(r) => Ref::Register(*r),
            ObjRef::Name(n) => Ref::Name(n@),
        }
    }

    pub fn copy(&self) -> (r: ObjRef)
        ensures
            r@ == self@,
    {
        match self {
            ObjRef::Register(r) => ObjRef::Register(*r),
            ObjRef::Name(n) => ObjRef::Name(n.clone()),
        }
    }

    pub fn same(&self, other: &ObjRef) -> (r: bool)
        ensures
            r == (self@ == other@),
    {
        match (self, other) {
            (ObjRef::Register(x), ObjRef::Register(y)) => *x == *y,
            (ObjRef::Name(x), ObjRef::Name(y)) => text::same(x, y),
            _ => false,
        }
    }
}

pub open spec fn refs(s: Seq<ObjRef>) -> Seq<Ref> {
    s.map_values(|x: ObjRef| x@)
}

/// The place that an expression reads as a whole.
pub open spec fn as_ref(e: Expr) -> Option<Ref> {
    match e {
        Expr::Value(Val::Register(r)) => Some(Ref::Register(r)),
        Expr::Value(Val::Variable(n)) => Some(Ref::Name(n)),
        _ => None,
    }
}

/// Whether one of the expressions reads one of the places as a whole.
pub open spec fn any_ref(s: Seq<Expr>, d: Seq<Ref>) -> bool
    decreases s.len(),
{
    s.len() > 0 && (any_ref(s.drop_last(), d) || match as_ref(s.last()) {
        Some(x) => d.contains(x),
        None => false,
    })
}

/// Whether an expression reads one of the places, at any depth.
pub open spec fn reads(e: Expr, d: Seq<Ref>) -> bool {
    any_ref(visit::expr_visits(e), d)
}

pub open spec fn target_uses(t: Target, o: Ref) -> bool {
    match t {
        Target::Member { object, .. } => reads(object, seq![o]),
        Target::Index { object, key } => reads(object, seq![o]) || reads(key, seq![o]),
        _ => false,
    }
}

/// Whether a statement reads a place, nested lists aside. A register is not looked for in a
/// declaration nor in the condition of a `do` loop.
pub open spec fn used(s: Stmt, o: Ref) -> bool {
    match s {
        Stmt::Assign { target, value } => target_uses(target, o) || reads(value, seq![o]),
        Stmt::Let { value, .. } => o is Name && reads(value, seq![o]),
        Stmt::Expr(e) => reads(e, seq![o]),
        Stmt::Return(Some(e)) => reads(e, seq![o]),
        Stmt::Throw(e) => reads(e, seq![o]),
        Stmt::If { condition, .. } => reads(condition, seq![o]),
        Stmt::While { condition, .. } => reads(condition, seq![o]),
        Stmt::DoWhile { condition, .. } => o is Name && reads(condition, seq![o]),
        _ => false,
    }
}

/// The place that a statement gives a value.
pub open spec fn defined(s: Stmt) -> Option<Ref> {
    match s {
        Stmt::Assign { target: Target::Register(r), .. } => Some(Ref::Register(r)),
        Stmt::Assign { target: Target::Variable(n), .. } => Some(Ref::Name(n)),
        Stmt::Let { name, .. } => Some(Ref::Name(name)),
        _ => None,
    }
}

pub fn find_ref(e: &Expression) -> (r: Option<ObjRef>)
    ensures
        match r {
            Some(x) => as_ref(e@) == Some(x@),
            None => as_ref(e@) is None,
        },
{
    match e {
        Expression::Value(Value::Register(r)) => Some(ObjRef::Register(*r)),
        Expression::Value(Value::Variable(n)) => Some(ObjRef::Name(n.clone())),
        _ => None,
    }
}

fn contains_ref(d: &Vec<ObjRef>, o: &ObjRef) -> (r: bool)
    ensures
        r == refs(d@).contains(o@),
{
    let ghost all = refs(d@);
    let mut i: usize = 0;
    while i < d.len()
        invariant
            i <= d.len(),
            all == refs(d@),
            forall|k: int| 0 <= k < i ==> all[k] != o@,
        decreases d.len() - i,
    {
        assert(all[i as int] == d@[i as int]@);
        if d[i].same(o) {
            return true;
        }
        i += 1;
    }
    false
}

pub fn reads_any(e: &Expression, d: &Vec<ObjRef>) -> (r: bool)
    ensures
        r == reads(e@, refs(d@)),
{
    let v: Vec<&Expression> = visit::of_expr(e);
    let ghost all = visit::seen(v@);
    let mut found: bool = false;
    let mut i: usize = 0;
    while i < v.len()
        invariant
            i <= v.len(),
            all == visit::seen(v@),
            found == any_ref(all.take(i as int), refs(d@)),
        decreases v.len() - i,
    {
        assert(all.take(i + 1).drop_last() =~= all.take(i as int));
        assert(all[i as int] == v@[i as int]@);
        if let Some(x) = find_ref(v[i]) {
            if contains_ref(d, &x) {
                found = true;
            }
        }
        i += 1;
    }
    assert(all.take(all.len() as int) =~= all);
    found
}

fn reads_one(e: &Expression, o: &ObjRef) -> (r: bool)
    ensures
        r == reads(e@, seq![o@]),
{
    let mut d: Vec<ObjRef> = Vec::new();
    d.push(o.copy());
    assert(refs(d@) =~= seq![o@]);
    reads_any(e, &d)
}

fn target_uses_ref(t: &AssignTarget, o: &ObjRef) -> (r: bool)
    ensures
        r == target_uses(t@, o@),
{
    match t {
        AssignTarget::Member { object, .. } => reads_one(object, o),
        AssignTarget::Index { object, key } => reads_one(object, o) || reads_one(key, o),
        _ => false,
    }
}

/// Whether a statement reads a place, nested lists aside.
pub fn obj_used(s: &Statement, o: &ObjRef) -> (r: bool)
    ensures
        r == used(s@, o@),
{
    let named: bool = match o {
        ObjRef::Name(_) => true,
        ObjRef::Register(_) => false,
    };
    match s {
        Statement::Assign { target, value } => target_uses_ref(target, o) || reads_one(value, o),
        Statement::Let { value, .. } => named && reads_one(value, o),
        Statement::Expr(e) => reads_one(e, o),
        Statement::Return(Some(e)) => reads_one(e, o),
        Statement::Throw(e) => reads_one(e, o),
        Statement::If { condition, .. } => reads_one(condition, o),
        Statement::While { condition, .. } => reads_one(condition, o),
        Statement::DoWhile { condition, .. } => named && reads_one(condition, o),
        _ => false,
    }
}

pub fn find_defined(s: &Statement) -> (r: Option<ObjRef>)
    ensures
        match r {
            Some(x) => defined(s@) == Some(x@),
            None => defined(s@) is None,
        },
{
    match s {
        Statement::Assign { target: AssignTarget::Register(r), .. } => Some(ObjRef::Register(*r)),
        Statement::Assign { target: AssignTarget::Variable(n), .. } => Some(
            ObjRef::Name(n.clone()),
        ),
        Statement::Let { name, .. } => Some(ObjRef::Name(name.clone())),
        _ => None,
    }
}

/// Whether a statement gives a place another value.
pub fn obj_reassigned(s: &Statement, o: &ObjRef) -> (r: bool)
    ensures
        r == (defined(s@) == Some(o@)),
{
    match find_defined(s) {
        Some(x) => x.same(o),
        None => false,
    }
}

} // verus!
