//! What expressions and statements mean.
//!
//! A meaning is any choice of values and of a world. Registers hold values; whatever else a program
//! reads or changes is part of the world. A law that holds of every meaning holds of every program.

use super::model::{Const, Expr, Key, Prop, Stmt, Target, Val};
use super::BinaryOp;
use vstd::prelude::*;

verus! {

/// What the parts of a program mean, by the values of their operands and the world they meet.
#[verifier::reject_recursive_types(V)]
#[verifier::reject_recursive_types(W)]
pub struct Meaning<V, W> {
    /// A whole number.
    pub number: spec_fn(int) -> V,
    /// A leaf that is the same wherever it stands: a constant, a parameter, the global object.
    pub leaf: spec_fn(Val) -> V,
    /// A name, which the world may change.
    pub look: spec_fn(Val, W) -> V,
    /// Whether a value counts as true.
    pub holds: spec_fn(V) -> bool,
    /// Whether the first operand decides `&&`, `||` or `??`.
    pub decides: spec_fn(BinaryOp, V) -> bool,
    /// Whether two values are the same.
    pub same: spec_fn(V, V) -> bool,
    /// An operation on operands: it gives a value and may change the world.
    pub apply: spec_fn(Expr, Seq<V>, W) -> (V, W),
    /// What a statement does to the world with its operands.
    pub act: spec_fn(Stmt, Seq<V>, W) -> W,
    /// What any other statement does to the world, by the registers that it finds.
    pub perform: spec_fn(Stmt, Map<u32, V>, W) -> W,
}

/// The place of an operand.
pub open spec fn hole() -> Expr {
    Expr::Value(Val::Constant(Const::Undefined))
}

/// Whether a leaf is a name.
pub open spec fn is_name(v: Val) -> bool {
    match v {
        Val::Variable(_) => true,
        Val::ClosureVar { .. } => true,
        _ => false,
    }
}

/// The value of a leaf other than a register.
pub open spec fn leaf_value<V, W>(d: Meaning<V, W>, v: Val, w: W) -> V {
    match v {
        Val::Constant(Const::Integer(n)) => (d.number)(n as int),
        Val::Constant(Const::Number(n)) => match n.integral {
            Some(i) => (d.number)(i as int),
            None => (d.leaf)(v),
        },
        _ => if is_name(v) {
            (d.look)(v, w)
        } else {
            (d.leaf)(v)
        },
    }
}

/// Whether the second operand of an operator may not be evaluated.
pub open spec fn is_lazy(op: BinaryOp) -> bool {
    op == BinaryOp::LogicalAnd || op == BinaryOp::LogicalOr || op == BinaryOp::NullishCoalescing
}

/// The value of an expression in a store, and the world that it leaves. Operands are evaluated from
/// left to right.
pub open spec fn eval<V, W>(d: Meaning<V, W>, st: Map<u32, V>, w: W, e: Expr) -> (V, W)
    decreases e,
{
    match e {
        Expr::Value(Val::Register(r)) => (st[r], w),
        Expr::Value(v) => (leaf_value(d, v, w), w),
        Expr::Binary { op, left, right } => {
            let l = eval(d, st, w, *left);
            if is_lazy(op) && (d.decides)(op, l.0) {
                l
            } else {
                let r = eval(d, st, l.1, *right);
                if is_lazy(op) {
                    r
                } else {
                    (d.apply)(
                        Expr::Binary { op, left: Box::new(hole()), right: Box::new(hole()) },
                        seq![l.0, r.0],
                        r.1,
                    )
                }
            }
        },
        Expr::Unary { op, operand } => {
            let x = eval(d, st, w, *operand);
            (d.apply)(Expr::Unary { op, operand: Box::new(hole()) }, seq![x.0], x.1)
        },
        Expr::Conditional { condition, then_expr, else_expr } => {
            let c = eval(d, st, w, *condition);
            if (d.holds)(c.0) {
                eval(d, st, c.1, *then_expr)
            } else {
                eval(d, st, c.1, *else_expr)
            }
        },
        Expr::Member { object, property, optional } => {
            let o = eval(d, st, w, *object);
            let k = eval_key(d, st, o.1, property);
            (d.apply)(
                Expr::Member {
                    object: Box::new(hole()),
                    property: Key::Computed(Box::new(hole())),
                    optional,
                },
                seq![o.0, k.0],
                k.1,
            )
        },
        Expr::Call { callee, arguments } => {
            let f = eval(d, st, w, *callee);
            let a = eval_list(d, st, f.1, arguments);
            (d.apply)(
                Expr::Call { callee: Box::new(hole()), arguments: holes(arguments) },
                seq![f.0] + a.0,
                a.1,
            )
        },
        Expr::New { callee, arguments } => {
            let f = eval(d, st, w, *callee);
            let a = eval_list(d, st, f.1, arguments);
            (d.apply)(
                Expr::New { callee: Box::new(hole()), arguments: holes(arguments) },
                seq![f.0] + a.0,
                a.1,
            )
        },
        Expr::Array { elements } => {
            let a = eval_elements(d, st, w, elements);
            (d.apply)(Expr::Array { elements: element_holes(elements) }, a.0, a.1)
        },
        Expr::Object { properties } => {
            let a = eval_props(d, st, w, properties);
            (d.apply)(Expr::Object { properties: Seq::empty() }, a.0, a.1)
        },
        Expr::Assignment { target, value } => match *target {
            Expr::Value(_) => {
                let v = eval(d, st, w, *value);
                (d.apply)(
                    Expr::Assignment { target, value: Box::new(hole()) },
                    seq![v.0],
                    v.1,
                )
            },
            Expr::Member { object, property, optional } => {
                let o = eval(d, st, w, *object);
                let k = eval_key(d, st, o.1, property);
                let v = eval(d, st, k.1, *value);
                (d.apply)(
                    Expr::Assignment {
                        target: Box::new(
                            Expr::Member {
                                object: Box::new(hole()),
                                property: Key::Computed(Box::new(hole())),
                                optional,
                            },
                        ),
                        value: Box::new(hole()),
                    },
                    seq![o.0, k.0, v.0],
                    v.1,
                )
            },
            _ => {
                let t = eval(d, st, w, *target);
                let v = eval(d, st, t.1, *value);
                (d.apply)(
                    Expr::Assignment { target: Box::new(hole()), value: Box::new(hole()) },
                    seq![t.0, v.0],
                    v.1,
                )
            },
        },
        Expr::Spread(x) => {
            let v = eval(d, st, w, *x);
            (d.apply)(Expr::Spread(Box::new(hole())), seq![v.0], v.1)
        },
        Expr::TemplateLiteral { quasis, expressions } => {
            let a = eval_list(d, st, w, expressions);
            (d.apply)(
                Expr::TemplateLiteral { quasis, expressions: Seq::empty() },
                a.0,
                a.1,
            )
        },
        Expr::Yield { value, delegate } => {
            let v = eval(d, st, w, *value);
            (d.apply)(Expr::Yield { value: Box::new(hole()), delegate }, seq![v.0], v.1)
        },
        Expr::Await(x) => {
            let v = eval(d, st, w, *x);
            (d.apply)(Expr::Await(Box::new(hole())), seq![v.0], v.1)
        },
        Expr::JSXElement { tag, attributes, children } => {
            let a = eval_attrs(d, st, w, attributes);
            let c = eval_list(d, st, a.1, children);
            (d.apply)(
                Expr::JSXElement {
                    tag,
                    attributes: attr_holes(attributes),
                    children: Seq::empty(),
                },
                a.0 + c.0,
                c.1,
            )
        },
        Expr::Function { .. } => (d.apply)(e, Seq::empty(), w),
        Expr::RegExp { .. } => (d.apply)(e, Seq::empty(), w),
        Expr::Unknown { .. } => (d.apply)(e, Seq::empty(), w),
    }
}

/// Places for arguments. A spread among them gives any number of arguments.
pub open spec fn holes(s: Seq<Expr>) -> Seq<Expr> {
    Seq::new(s.len(), |i: int| hole())
}

pub open spec fn element_holes(s: Seq<Option<Expr>>) -> Seq<Option<Expr>> {
    Seq::new(
        s.len(),
        |i: int|
            match s[i] {
                Some(_) => Some(hole()),
                None => None,
            },
    )
}

pub open spec fn attr_holes(s: Seq<(Seq<char>, Expr)>) -> Seq<(Seq<char>, Expr)> {
    Seq::new(s.len(), |i: int| (s[i].0, hole()))
}

/// The value of a key: that of a name is its text, and that of an index the whole number.
pub open spec fn eval_key<V, W>(d: Meaning<V, W>, st: Map<u32, V>, w: W, k: Key) -> (V, W)
    decreases k,
{
    match k {
        Key::Ident(n) => ((d.leaf)(Val::Constant(Const::String(n))), w),
        Key::String(n) => ((d.leaf)(Val::Constant(Const::String(n))), w),
        Key::Index(i) => ((d.number)(i as int), w),
        Key::Computed(e) => eval(d, st, w, *e),
    }
}

pub open spec fn eval_list<V, W>(d: Meaning<V, W>, st: Map<u32, V>, w: W, s: Seq<Expr>) -> (
    Seq<V>,
    W,
)
    decreases s,
{
    if s.len() == 0 {
        (Seq::empty(), w)
    } else {
        let a = eval_list(d, st, w, s.drop_last());
        let b = eval(d, st, a.1, s.last());
        (a.0.push(b.0), b.1)
    }
}

pub open spec fn eval_element<V, W>(
    d: Meaning<V, W>,
    st: Map<u32, V>,
    w: W,
    o: Option<Expr>,
) -> (Seq<V>, W)
    decreases o,
{
    match o {
        Some(e) => {
            let v = eval(d, st, w, e);
            (seq![v.0], v.1)
        },
        None => (Seq::empty(), w),
    }
}

pub open spec fn eval_elements<V, W>(
    d: Meaning<V, W>,
    st: Map<u32, V>,
    w: W,
    s: Seq<Option<Expr>>,
) -> (Seq<V>, W)
    decreases s,
{
    if s.len() == 0 {
        (Seq::empty(), w)
    } else {
        let a = eval_elements(d, st, w, s.drop_last());
        let b = eval_element(d, st, a.1, s.last());
        (a.0 + b.0, b.1)
    }
}

pub open spec fn eval_prop<V, W>(d: Meaning<V, W>, st: Map<u32, V>, w: W, p: Prop) -> (Seq<V>, W)
    decreases p,
{
    let k = eval_key(d, st, w, p.key);
    let v = eval(d, st, k.1, p.value);
    (seq![k.0, v.0], v.1)
}

pub open spec fn eval_props<V, W>(
    d: Meaning<V, W>,
    st: Map<u32, V>,
    w: W,
    s: Seq<Prop>,
) -> (Seq<V>, W)
    decreases s,
{
    if s.len() == 0 {
        (Seq::empty(), w)
    } else {
        let a = eval_props(d, st, w, s.drop_last());
        let b = eval_prop(d, st, a.1, s.last());
        (a.0 + b.0, b.1)
    }
}

pub open spec fn eval_attr<V, W>(
    d: Meaning<V, W>,
    st: Map<u32, V>,
    w: W,
    a: (Seq<char>, Expr),
) -> (V, W)
    decreases a,
{
    eval(d, st, w, a.1)
}

pub open spec fn eval_attrs<V, W>(
    d: Meaning<V, W>,
    st: Map<u32, V>,
    w: W,
    s: Seq<(Seq<char>, Expr)>,
) -> (Seq<V>, W)
    decreases s,
{
    if s.len() == 0 {
        (Seq::empty(), w)
    } else {
        let a = eval_attrs(d, st, w, s.drop_last());
        let b = eval_attr(d, st, a.1, s.last());
        (a.0.push(b.0), b.1)
    }
}

/// How control leaves a list of statements before its end.
#[verifier::reject_recursive_types(V)]
pub enum Exit<V> {
    Returned(Option<V>),
    Thrown(V),
}

/// What a run has come to: the registers, the world, and how control left, if it has.
#[verifier::reject_recursive_types(V)]
#[verifier::reject_recursive_types(W)]
pub struct State<V, W> {
    pub regs: Map<u32, V>,
    pub world: W,
    pub exit: Option<Exit<V>>,
}

/// The state after a statement. Once control has left, nothing happens any more.
pub open spec fn exec<V, W>(d: Meaning<V, W>, x: State<V, W>, s: Stmt) -> State<V, W> {
    if x.exit is Some {
        x
    } else {
        match s {
            Stmt::Expr(e) => State { world: eval(d, x.regs, x.world, e).1, ..x },
            Stmt::Let { name, value, kind } => {
                let v = eval(d, x.regs, x.world, value);
                State {
                    world: (d.act)(Stmt::Let { name, value: hole(), kind }, seq![v.0], v.1),
                    ..x
                }
            },
            Stmt::Assign { target: Target::Register(r), value } => {
                let v = eval(d, x.regs, x.world, value);
                State { regs: x.regs.insert(r, v.0), world: v.1, ..x }
            },
            Stmt::Assign { target: Target::Variable(n), value } => {
                let v = eval(d, x.regs, x.world, value);
                State {
                    world: (d.act)(
                        Stmt::Assign { target: Target::Variable(n), value: hole() },
                        seq![v.0],
                        v.1,
                    ),
                    ..x
                }
            },
            Stmt::Assign { target: Target::Member { object, property }, value } => {
                let o = eval(d, x.regs, x.world, object);
                let v = eval(d, x.regs, o.1, value);
                let head = Stmt::Assign {
                    target: Target::Member { object: hole(), property },
                    value: hole(),
                };
                State { world: (d.act)(head, seq![o.0, v.0], v.1), ..x }
            },
            Stmt::Assign { target: Target::Index { object, key }, value } => {
                let o = eval(d, x.regs, x.world, object);
                let k = eval(d, x.regs, o.1, key);
                let v = eval(d, x.regs, k.1, value);
                let head = Stmt::Assign {
                    target: Target::Index { object: hole(), key: hole() },
                    value: hole(),
                };
                State { world: (d.act)(head, seq![o.0, k.0, v.0], v.1), ..x }
            },
            Stmt::Assign { target, value } => {
                let v = eval(d, x.regs, x.world, value);
                let head = Stmt::Assign { target, value: hole() };
                State { world: (d.perform)(head, x.regs, (d.act)(head, seq![v.0], v.1)), ..x }
            },
            Stmt::Return(Some(e)) => {
                let v = eval(d, x.regs, x.world, e);
                State { world: v.1, exit: Some(Exit::Returned(Some(v.0))), ..x }
            },
            Stmt::Return(None) => State { exit: Some(Exit::Returned(None)), ..x },
            Stmt::Throw(e) => {
                let v = eval(d, x.regs, x.world, e);
                State { world: v.1, exit: Some(Exit::Thrown(v.0)), ..x }
            },
            _ => State { world: (d.perform)(s, x.regs, x.world), ..x },
        }
    }
}

/// The state after statements.
pub open spec fn run<V, W>(d: Meaning<V, W>, x: State<V, W>, s: Seq<Stmt>) -> State<V, W>
    decreases s.len(),
{
    if s.len() == 0 {
        x
    } else {
        exec(d, run(d, x, s.drop_last()), s.last())
    }
}

} // verus!
