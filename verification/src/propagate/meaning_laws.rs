//! Propagation keeps what a function means.

use super::laws;
use super::substitute;
use crate::ir::cfg::{BlockId, Node, Term};
use crate::ir::meaning;
use crate::ir::meaning::{Exit, Meaning, State};
use crate::ir::model::{Const, Expr, Key, Prop, Stmt, Target, Val};
use crate::ir::occurs;
use crate::ir::occurs::Atom;
use vstd::prelude::*;

verus! {

/// Whether no part of an expression assigns a register.
pub open spec fn calm(e: Expr) -> bool
    decreases e,
{
    match e {
        Expr::Binary { left, right, .. } => calm(*left) && calm(*right),
        Expr::Unary { operand, .. } => calm(*operand),
        Expr::Conditional { condition, then_expr, else_expr } => calm(*condition) && calm(
            *then_expr,
        ) && calm(*else_expr),
        Expr::Member { object, property, .. } => calm(*object) && calm_key(property),
        Expr::Call { callee, arguments } => calm(*callee) && all_calm(arguments),
        Expr::New { callee, arguments } => calm(*callee) && all_calm(arguments),
        Expr::Array { elements } => forall|i: int|
            0 <= i < elements.len() ==> calm_element(#[trigger] elements[i]),
        Expr::Object { properties } => forall|i: int|
            0 <= i < properties.len() ==> calm_prop(#[trigger] properties[i]),
        Expr::Assignment { target, value } => calm(*target) && calm(*value) && !(*target matches
            Expr::Value(Val::Register(_))),
        Expr::Spread(x) => calm(*x),
        Expr::TemplateLiteral { expressions, .. } => all_calm(expressions),
        Expr::Yield { value, .. } => calm(*value),
        Expr::Await(x) => calm(*x),
        Expr::JSXElement { attributes, children, .. } => all_calm(children) && forall|i: int|
            0 <= i < attributes.len() ==> calm_attr(#[trigger] attributes[i]),
        _ => true,
    }
}

pub open spec fn calm_key(k: Key) -> bool
    decreases k,
{
    match k {
        Key::Computed(e) => calm(*e),
        _ => true,
    }
}

pub open spec fn calm_element(o: Option<Expr>) -> bool
    decreases o,
{
    match o {
        Some(e) => calm(e),
        None => true,
    }
}

pub open spec fn calm_prop(p: Prop) -> bool
    decreases p,
{
    calm_key(p.key) && calm(p.value)
}

pub open spec fn calm_attr(a: (Seq<char>, Expr)) -> bool
    decreases a,
{
    calm(a.1)
}

pub open spec fn all_calm(s: Seq<Expr>) -> bool
    decreases s,
{
    forall|i: int| 0 <= i < s.len() ==> calm(#[trigger] s[i])
}

/// Whether no part of a statement names a register as something to write.
pub open spec fn writes_no_register(s: Stmt) -> bool {
    forall|r: u32| !#[trigger] occurs::stmt_atoms(s).contains(Atom::WriteRegister(r))
}

/// Whether the only register that a statement can write is one that it assigns as a whole.
pub open spec fn calm_stmt(s: Stmt) -> bool {
    match s {
        Stmt::Expr(e) => calm(e),
        Stmt::Let { value, .. } => calm(value),
        Stmt::Assign { target, value } => calm(value) && match target {
            Target::Register(_) => true,
            Target::Variable(_) => true,
            Target::Member { object, .. } => calm(object),
            Target::Index { object, key } => calm(object) && calm(key),
            _ => forall|r: u32|
                !#[trigger] occurs::target_atoms(target).contains(Atom::WriteRegister(r)),
        },
        Stmt::Return(Some(e)) => calm(e),
        Stmt::Throw(e) => calm(e),
        _ => writes_no_register(s),
    }
}

pub open spec fn calm_term(t: Term) -> bool {
    match t {
        Term::Branch { condition, .. } => calm(condition),
        Term::Return(Some(e)) => calm(e),
        Term::Throw(e) => calm(e),
        Term::Switch { value, cases, .. } => calm(value) && forall|i: int|
            0 <= i < cases.len() ==> calm((#[trigger] cases[i]).0),
        _ => true,
    }
}

pub open spec fn all_calm_stmts(s: Seq<Stmt>) -> bool {
    forall|i: int| 0 <= i < s.len() ==> calm_stmt(#[trigger] s[i])
}

/// Whether registers are written in a graph only by statements that assign them as a whole.
pub open spec fn calm_graph(g: Seq<Node>) -> bool {
    forall|b: int|
        0 <= b < g.len() ==> all_calm_stmts((#[trigger] g[b]).stmts) && calm_term(g[b].term)
}

/// Whether an expression has one value in every world and changes none.
pub open spec fn steady<V, W>(d: Meaning<V, W>, e: Expr) -> bool {
    forall|st: Map<u32, V>, tt: Map<u32, V>, v: W, w: W|
        #![trigger meaning::eval(d, st, v, e), meaning::eval(d, tt, w, e)]
        meaning::eval(d, st, v, e).0 == meaning::eval(d, tt, w, e).0 && meaning::eval(
            d,
            st,
            v,
            e,
        ).1 == v
}

/// Whether an expression reads a name, or a property of the global object or of a string: what a
/// statement in between might change.
pub open spec fn reads_world(e: Expr) -> bool {
    match e {
        Expr::Value(Val::Variable(n)) => n != "__exception"@,
        Expr::Value(Val::ClosureVar { .. }) => true,
        Expr::Member { object, property: Key::Ident(_), optional: false } => match *object {
            Expr::Value(Val::Global) => true,
            Expr::Value(Val::Constant(Const::String(_))) => true,
            _ => false,
        },
        _ => false,
    }
}

/// Whether the names that statements hand to registers keep their values.
pub open spec fn steady_sources<V, W>(d: Meaning<V, W>, s: Seq<Stmt>) -> bool {
    forall|i: int|
        0 <= i < s.len() ==> (#[trigger] s[i] matches Stmt::Assign {
            target: Target::Register(_),
            value,
        } ==> (reads_world(value) ==> steady(d, value)))
}

/// Whether every name, and every property of the global object or of a string, keeps its value.
pub open spec fn steady_names<V, W>(d: Meaning<V, W>) -> bool {
    forall|e: Expr| reads_world(e) ==> #[trigger] steady(d, e)
}

/// Whether the registers of a map hold the values of its expressions, in every world.
pub open spec fn agree<V, W>(d: Meaning<V, W>, st: Map<u32, V>, m: Map<u32, Expr>) -> bool {
    forall|r: u32, w: W|
        m.dom().contains(r) ==> #[trigger] meaning::eval(d, st, w, m[r]) == (st[r], w)
}

proof fn lemma_value<V, W>(d: Meaning<V, W>, st: Map<u32, V>, w: W, e: Expr, m: Map<u32, Expr>)
    requires
        agree(d, st, m),
        calm(e),
    ensures
        meaning::eval(d, st, w, substitute::subst_expr(e, m)) == meaning::eval(d, st, w, e),
    decreases e,
{
    match e {
        Expr::Value(Val::Register(r)) => {
            if m.dom().contains(r) {
                assert(meaning::eval(d, st, w, m[r]) == (st[r], w));
            }
        },
        Expr::Binary { op, left, right } => {
            lemma_value(d, st, w, *left, m);
            let l = meaning::eval(d, st, w, *left);
            lemma_value(d, st, l.1, *right, m);
        },
        Expr::Unary { operand, .. } => lemma_value(d, st, w, *operand, m),
        Expr::Conditional { condition, then_expr, else_expr } => {
            lemma_value(d, st, w, *condition, m);
            let c = meaning::eval(d, st, w, *condition);
            lemma_value(d, st, c.1, *then_expr, m);
            lemma_value(d, st, c.1, *else_expr, m);
        },
        Expr::Member { object, property, .. } => {
            lemma_value(d, st, w, *object, m);
            let o = meaning::eval(d, st, w, *object);
            lemma_key_value(d, st, o.1, property, m);
        },
        Expr::Call { callee, arguments } => {
            lemma_value(d, st, w, *callee, m);
            let f = meaning::eval(d, st, w, *callee);
            lemma_list_value(d, st, f.1, arguments, m);
            assert(meaning::holes(substitute::subst_exprs(arguments, m)) =~= meaning::holes(
                arguments,
            ));
        },
        Expr::New { callee, arguments } => {
            lemma_value(d, st, w, *callee, m);
            let f = meaning::eval(d, st, w, *callee);
            lemma_list_value(d, st, f.1, arguments, m);
            assert(meaning::holes(substitute::subst_exprs(arguments, m)) =~= meaning::holes(
                arguments,
            ));
        },
        Expr::Array { elements } => {
            lemma_elements_value(d, st, w, elements, m);
            assert(meaning::element_holes(substitute::subst_elements(elements, m))
                =~= meaning::element_holes(elements));
        },
        Expr::Object { properties } => lemma_props_value(d, st, w, properties, m),
        Expr::Assignment { target, value } => {
            reveal_with_fuel(calm, 2);
            reveal_with_fuel(substitute::subst_expr, 2);
            match *target {
                Expr::Value(v) => {
                    assert(substitute::subst_expr(*target, m) == *target);
                    lemma_value(d, st, w, *value, m);
                },
                Expr::Member { object, property, .. } => {
                    lemma_value(d, st, w, *object, m);
                    let o = meaning::eval(d, st, w, *object);
                    lemma_key_value(d, st, o.1, property, m);
                    let k = meaning::eval_key(d, st, o.1, property);
                    lemma_value(d, st, k.1, *value, m);
                },
                _ => {
                    lemma_value(d, st, w, *target, m);
                    let t = meaning::eval(d, st, w, *target);
                    lemma_value(d, st, t.1, *value, m);
                },
            }
        },
        Expr::Spread(x) => lemma_value(d, st, w, *x, m),
        _ => {},
    }
}

proof fn lemma_key_value<V, W>(d: Meaning<V, W>, st: Map<u32, V>, w: W, k: Key, m: Map<u32, Expr>)
    requires
        agree(d, st, m),
        calm_key(k),
    ensures
        meaning::eval_key(d, st, w, substitute::subst_key(k, m)) == meaning::eval_key(d, st, w, k),
    decreases k,
{
    if let Key::Computed(e) = k {
        lemma_value(d, st, w, *e, m);
    }
}

proof fn lemma_list_value<V, W>(
    d: Meaning<V, W>,
    st: Map<u32, V>,
    w: W,
    s: Seq<Expr>,
    m: Map<u32, Expr>,
)
    requires
        agree(d, st, m),
        all_calm(s),
    ensures
        meaning::eval_list(d, st, w, substitute::subst_exprs(s, m)) == meaning::eval_list(
            d,
            st,
            w,
            s,
        ),
    decreases s,
{
    if s.len() > 0 {
        let t = substitute::subst_exprs(s, m);
        let rest = s.drop_last();
        assert(t.drop_last() =~= substitute::subst_exprs(rest, m));
        assert forall|i: int| 0 <= i < rest.len() implies calm(#[trigger] rest[i]) by {
            assert(rest[i] == s[i]);
        }
        lemma_list_value(d, st, w, rest, m);
        assert(calm(s[s.len() - 1]));
        let a = meaning::eval_list(d, st, w, rest);
        lemma_value(d, st, a.1, s.last(), m);
    }
}

proof fn lemma_elements_value<V, W>(
    d: Meaning<V, W>,
    st: Map<u32, V>,
    w: W,
    s: Seq<Option<Expr>>,
    m: Map<u32, Expr>,
)
    requires
        agree(d, st, m),
        forall|i: int| 0 <= i < s.len() ==> calm_element(#[trigger] s[i]),
    ensures
        meaning::eval_elements(d, st, w, substitute::subst_elements(s, m))
            == meaning::eval_elements(d, st, w, s),
    decreases s,
{
    if s.len() > 0 {
        let t = substitute::subst_elements(s, m);
        let rest = s.drop_last();
        assert(t.drop_last() =~= substitute::subst_elements(rest, m));
        assert forall|i: int| 0 <= i < rest.len() implies calm_element(#[trigger] rest[i]) by {
            assert(rest[i] == s[i]);
        }
        lemma_elements_value(d, st, w, rest, m);
        assert(calm_element(s[s.len() - 1]));
        let a = meaning::eval_elements(d, st, w, rest);
        if let Some(x) = s.last() {
            lemma_value(d, st, a.1, x, m);
        }
        assert(t.last() == substitute::subst_element(s.last(), m));
        assert(meaning::eval_element(d, st, a.1, t.last()) == meaning::eval_element(
            d,
            st,
            a.1,
            s.last(),
        ));
    }
}

proof fn lemma_props_value<V, W>(
    d: Meaning<V, W>,
    st: Map<u32, V>,
    w: W,
    s: Seq<Prop>,
    m: Map<u32, Expr>,
)
    requires
        agree(d, st, m),
        forall|i: int| 0 <= i < s.len() ==> calm_prop(#[trigger] s[i]),
    ensures
        meaning::eval_props(d, st, w, substitute::subst_props(s, m)) == meaning::eval_props(
            d,
            st,
            w,
            s,
        ),
    decreases s,
{
    if s.len() > 0 {
        let t = substitute::subst_props(s, m);
        let rest = s.drop_last();
        assert(t.drop_last() =~= substitute::subst_props(rest, m));
        assert forall|i: int| 0 <= i < rest.len() implies calm_prop(#[trigger] rest[i]) by {
            assert(rest[i] == s[i]);
        }
        lemma_props_value(d, st, w, rest, m);
        assert(calm_prop(s[s.len() - 1]));
        let a = meaning::eval_props(d, st, w, rest);
        lemma_key_value(d, st, a.1, s.last().key, m);
        let k = meaning::eval_key(d, st, a.1, s.last().key);
        lemma_value(d, st, k.1, s.last().value, m);
        assert(t.last() == substitute::subst_prop(s.last(), m));
        assert(meaning::eval_prop(d, st, a.1, t.last()) == meaning::eval_prop(
            d,
            st,
            a.1,
            s.last(),
        ));
    }
}

/// Where registers hold the values of expressions, a statement means the same with the expressions
/// in their place.
pub proof fn lemma_substitution_keeps_meaning<V, W>(
    d: Meaning<V, W>,
    x: State<V, W>,
    s: Stmt,
    m: Map<u32, Expr>,
)
    requires
        x.exit is None ==> agree(d, x.regs, m),
        calm_stmt(s),
    ensures
        meaning::exec(d, x, substitute::subst_stmt(s, m)) == meaning::exec(d, x, s),
{
    if x.exit is None {
        match s {
            Stmt::Expr(e) => lemma_value(d, x.regs, x.world, e, m),
            Stmt::Let { value, .. } => lemma_value(d, x.regs, x.world, value, m),
            Stmt::Assign { target, value } => {
                match target {
                    Target::Member { object, .. } => {
                        lemma_value(d, x.regs, x.world, object, m);
                        let o = meaning::eval(d, x.regs, x.world, object);
                        lemma_value(d, x.regs, o.1, value, m);
                    },
                    Target::Index { object, key } => {
                        lemma_value(d, x.regs, x.world, object, m);
                        let o = meaning::eval(d, x.regs, x.world, object);
                        lemma_value(d, x.regs, o.1, key, m);
                        let k = meaning::eval(d, x.regs, o.1, key);
                        lemma_value(d, x.regs, k.1, value, m);
                    },
                    _ => lemma_value(d, x.regs, x.world, value, m),
                }
            },
            Stmt::Return(Some(e)) => lemma_value(d, x.regs, x.world, e, m),
            Stmt::Throw(e) => lemma_value(d, x.regs, x.world, e, m),
            _ => {},
        }
    }
}

/// The block that the arms of a switch lead to, and the world when it is found.
pub open spec fn chosen<V, W>(
    d: Meaning<V, W>,
    st: Map<u32, V>,
    w: W,
    v: V,
    cases: Seq<(Expr, BlockId)>,
    default: BlockId,
) -> (W, BlockId)
    decreases cases.len(),
{
    if cases.len() == 0 {
        (w, default)
    } else {
        let c = meaning::eval(d, st, w, cases[0].0);
        if (d.same)(v, c.0) {
            (c.1, cases[0].1)
        } else {
            chosen(d, st, c.1, v, cases.skip(1), default)
        }
    }
}

/// The state after a terminator, and the block that control goes to.
pub open spec fn leave<V, W>(d: Meaning<V, W>, x: State<V, W>, t: Term) -> (
    State<V, W>,
    Option<BlockId>,
) {
    if x.exit is Some {
        (x, None)
    } else {
        match t {
            Term::Jump(b) => (x, Some(b)),
            Term::Branch { condition, true_target, false_target } => {
                let c = meaning::eval(d, x.regs, x.world, condition);
                (
                    State { world: c.1, ..x },
                    Some(
                        if (d.holds)(c.0) {
                            true_target
                        } else {
                            false_target
                        },
                    ),
                )
            },
            Term::Return(Some(e)) => {
                let v = meaning::eval(d, x.regs, x.world, e);
                (State { world: v.1, exit: Some(Exit::Returned(Some(v.0))), ..x }, None)
            },
            Term::Return(None) => (State { exit: Some(Exit::Returned(None)), ..x }, None),
            Term::Throw(e) => {
                let v = meaning::eval(d, x.regs, x.world, e);
                (State { world: v.1, exit: Some(Exit::Thrown(v.0)), ..x }, None)
            },
            Term::Switch { value, cases, default } => {
                let v = meaning::eval(d, x.regs, x.world, value);
                let c = chosen(d, x.regs, v.1, v.0, cases, default);
                (State { world: c.0, ..x }, Some(c.1))
            },
            Term::Unreachable => (x, None),
        }
    }
}

/// The state after `n` blocks of a graph at most, from one of its blocks on.
pub open spec fn walk<V, W>(
    d: Meaning<V, W>,
    g: Seq<Node>,
    b: int,
    x: State<V, W>,
    n: nat,
) -> State<V, W>
    decreases n,
{
    if n == 0 || !(0 <= b < g.len()) {
        x
    } else {
        let z = leave(d, meaning::run(d, x, g[b].stmts), g[b].term);
        match z.1 {
            Some(k) => walk(d, g, k.0 as int, z.0, (n - 1) as nat),
            None => z.0,
        }
    }
}

proof fn lemma_chosen<V, W>(
    d: Meaning<V, W>,
    st: Map<u32, V>,
    w: W,
    v: V,
    cases: Seq<(Expr, BlockId)>,
    default: BlockId,
    m: Map<u32, Expr>,
)
    requires
        agree(d, st, m),
        forall|i: int| 0 <= i < cases.len() ==> calm((#[trigger] cases[i]).0),
    ensures
        chosen(d, st, w, v, substitute::subst_arms(cases, m), default) == chosen(
            d,
            st,
            w,
            v,
            cases,
            default,
        ),
    decreases cases.len(),
{
    if cases.len() > 0 {
        let rest = cases.skip(1);
        assert(substitute::subst_arms(cases, m).skip(1) =~= substitute::subst_arms(rest, m));
        assert(calm(cases[0].0));
        lemma_value(d, st, w, cases[0].0, m);
        assert forall|i: int| 0 <= i < rest.len() implies calm((#[trigger] rest[i]).0) by {
            assert(rest[i] == cases[i + 1]);
        }
        let c = meaning::eval(d, st, w, cases[0].0);
        lemma_chosen(d, st, c.1, v, rest, default, m);
    }
}

proof fn lemma_leave<V, W>(d: Meaning<V, W>, x: State<V, W>, t: Term, m: Map<u32, Expr>)
    requires
        x.exit is None ==> agree(d, x.regs, m),
        calm_term(t),
    ensures
        leave(d, x, substitute::subst_term(t, m)) == leave(d, x, t),
{
    if x.exit is None {
        match t {
            Term::Branch { condition, .. } => lemma_value(d, x.regs, x.world, condition, m),
            Term::Return(Some(e)) => lemma_value(d, x.regs, x.world, e, m),
            Term::Throw(e) => lemma_value(d, x.regs, x.world, e, m),
            Term::Switch { value, cases, default } => {
                lemma_value(d, x.regs, x.world, value, m);
                let v = meaning::eval(d, x.regs, x.world, value);
                lemma_chosen(d, x.regs, v.1, v.0, cases, default, m);
            },
            _ => {},
        }
    }
}

/// Whether every value of a map may take the place of its register.
spec fn all_simple(m: Map<u32, Expr>) -> bool {
    forall|r: u32| #[trigger] m.dom().contains(r) ==> super::propagatable(m[r])
}

proof fn lemma_other_register<V, W>(
    d: Meaning<V, W>,
    st: Map<u32, V>,
    w: W,
    e: Expr,
    r: u32,
    v: V,
)
    requires
        super::propagatable(e),
        !super::reads(e, r),
    ensures
        meaning::eval(d, st.insert(r, v), w, e) == meaning::eval(d, st, w, e),
{
    reveal_with_fuel(meaning::eval, 3);
    reveal_with_fuel(occurs::expr_atoms, 2);
    if let Expr::Value(Val::Register(b)) = e {
        let atoms = occurs::expr_atoms(e);
        assert(atoms[0] == Atom::Use(Val::Register(b)));
        assert(atoms.contains(Atom::Use(Val::Register(b))));
    }
}

proof fn lemma_new_copy<V, W>(d: Meaning<V, W>, x: State<V, W>, t: Stmt, r: u32, e: Expr, w: W)
    requires
        x.exit is None,
        super::assigned(t) == Some((r, e)),
        super::propagatable(e),
        reads_world(e) ==> steady(d, e),
    ensures
        ({
            let y = meaning::exec(d, x, t);
            meaning::eval(d, y.regs, w, e) == (y.regs[r], w)
        }),
{
    let y = meaning::exec(d, x, t);
    let v = meaning::eval(d, x.regs, x.world, e);
    assert(y.regs == x.regs.insert(r, v.0));
    if reads_world(e) {
        assert(meaning::eval(d, y.regs, w, e).0 == meaning::eval(d, x.regs, x.world, e).0);
    } else {
        reveal_with_fuel(meaning::eval, 2);
    }
}

proof fn lemma_copies<V, W>(d: Meaning<V, W>, x: State<V, W>, m: Map<u32, Expr>, t: Stmt)
    requires
        x.exit is None,
        agree(d, x.regs, m),
        all_simple(m),
        super::assigned(t) matches Some(a) ==> (reads_world(a.1) ==> steady(d, a.1)),
    ensures
        meaning::exec(d, x, t).exit is None ==> agree(
            d,
            meaning::exec(d, x, t).regs,
            super::copies_after(m, t),
        ),
        all_simple(super::copies_after(m, t)),
{
    let y = meaning::exec(d, x, t);
    let n = super::copies_after(m, t);
    if let Some((r, e)) = super::assigned(t) {
        let v = meaning::eval(d, x.regs, x.world, e);
        assert(y.regs == x.regs.insert(r, v.0));
        assert forall|q: u32, w: W| n.dom().contains(q) implies #[trigger] meaning::eval(
            d,
            y.regs,
            w,
            n[q],
        ) == (y.regs[q], w) by {
            if q == r {
                lemma_new_copy(d, x, t, r, e, w);
            } else {
                assert(m.dom().contains(q) && n[q] == m[q]);
                assert(!super::reads(m[q], r));
                lemma_other_register(d, x.regs, w, m[q], r, v.0);
                assert(meaning::eval(d, x.regs, w, m[q]) == (x.regs[q], w));
            }
        }
        assert(all_simple(n)) by {
            assert forall|q: u32| #[trigger] n.dom().contains(q) implies super::propagatable(
                n[q],
            ) by {
                if q != r {
                    assert(m.dom().contains(q));
                }
            }
        }
    } else {
        assert(y.regs == x.regs);
    }
}

proof fn lemma_block<V, W>(d: Meaning<V, W>, x: State<V, W>, s: Seq<Stmt>)
    requires
        all_calm_stmts(s),
        steady_sources(d, super::block_walk(s).stmts),
    ensures
        ({
            let p = super::block_walk(s);
            let y = meaning::run(d, x, s);
            &&& meaning::run(d, x, p.stmts) == y
            &&& y.exit is None ==> agree(d, y.regs, p.copies)
            &&& all_simple(p.copies)
            &&& p.stmts.len() == s.len()
        }),
    decreases s.len(),
{
    if s.len() > 0 {
        let rest = s.drop_last();
        let before = super::block_walk(rest);
        let p = super::block_walk(s);
        let t = substitute::subst_stmt(s.last(), before.copies);
        assert(p.stmts == before.stmts.push(t));
        assert(p.stmts.drop_last() =~= before.stmts);
        assert forall|i: int| 0 <= i < rest.len() implies calm_stmt(#[trigger] rest[i]) by {
            assert(rest[i] == s[i]);
        }
        assert forall|i: int| 0 <= i < before.stmts.len() implies (#[trigger] before.stmts[i] matches
            Stmt::Assign { target: Target::Register(_), value } ==> (reads_world(value) ==> steady(
            d,
            value,
        ))) by {
            assert(p.stmts[i] == before.stmts[i]);
        }
        lemma_block(d, x, rest);
        assert(calm_stmt(s[s.len() - 1]));
        let y = meaning::run(d, x, rest);
        lemma_substitution_keeps_meaning(d, y, s.last(), before.copies);
        assert(p.stmts[p.stmts.len() - 1] == t);
        if y.exit is None {
            lemma_copies(d, y, before.copies, t);
        } else {
            lemma_simple_after(before.copies, t);
        }
    }
}

proof fn lemma_simple_after(m: Map<u32, Expr>, t: Stmt)
    requires
        all_simple(m),
    ensures
        all_simple(super::copies_after(m, t)),
{
    let n = super::copies_after(m, t);
    assert forall|q: u32| #[trigger] n.dom().contains(q) implies super::propagatable(n[q]) by {
        if super::assigned(t) is None || q != (super::assigned(t)->0).0 {
            assert(m.dom().contains(q));
        }
    }
}

/// A block means the same after propagation. From the same registers and in the same world, whatever
/// calls give and whatever they change, it leaves the same registers, the same world and the same
/// returned value, and control goes on to the same block. It is so where no expression of the block
/// assigns a register, and the names that the block hands to registers keep their values.
pub proof fn lemma_propagated_block_means_the_same<V, W>(d: Meaning<V, W>, x: State<V, W>, n: Node)
    requires
        all_calm_stmts(n.stmts),
        calm_term(n.term),
        steady_sources(d, super::propagated_node(n).stmts),
    ensures
        ({
            let p = super::propagated_node(n);
            let y = meaning::run(d, x, n.stmts);
            meaning::run(d, x, p.stmts) == y && leave(d, y, p.term) == leave(d, y, n.term)
        }),
{
    lemma_block(d, x, n.stmts);
    let y = meaning::run(d, x, n.stmts);
    lemma_leave(d, y, n.term, super::block_walk(n.stmts).copies);
}

proof fn lemma_walk_once<V, W>(d: Meaning<V, W>, g: Seq<Node>, b: int, x: State<V, W>, n: nat)
    requires
        calm_graph(g),
        steady_names(d),
    ensures
        walk(d, super::propagated_once(g), b, x, n) == walk(d, g, b, x, n),
    decreases n,
{
    if n > 0 && 0 <= b < g.len() {
        let h = super::propagated_once(g);
        assert(h[b] == super::propagated_node(g[b]));
        assert forall|i: int| 0 <= i < h[b].stmts.len() implies (#[trigger] h[b].stmts[i] matches
            Stmt::Assign { target: Target::Register(_), value } ==> (reads_world(value) ==> steady(
            d,
            value,
        ))) by {}
        lemma_propagated_block_means_the_same(d, x, g[b]);
        let z = leave(d, meaning::run(d, x, g[b].stmts), g[b].term);
        if let Some(k) = z.1 {
            lemma_walk_once(d, g, k.0 as int, z.0, (n - 1) as nat);
        }
    }
}

/// Whether the values of a map assign no register and are no assignment targets that do.
spec fn all_calm_values(m: Map<u32, Expr>) -> bool {
    forall|r: u32| #[trigger] m.dom().contains(r) ==> calm(m[r])
}

proof fn lemma_calm(e: Expr, m: Map<u32, Expr>)
    requires
        calm(e),
        all_calm_values(m),
    ensures
        calm(substitute::subst_expr(e, m)),
        !(e matches Expr::Value(Val::Register(_))) ==> !(substitute::subst_expr(e, m) matches
            Expr::Value(Val::Register(_))),
    decreases e,
{
    match e {
        Expr::Binary { left, right, .. } => {
            lemma_calm(*left, m);
            lemma_calm(*right, m);
        },
        Expr::Unary { operand, .. } => lemma_calm(*operand, m),
        Expr::Conditional { condition, then_expr, else_expr } => {
            lemma_calm(*condition, m);
            lemma_calm(*then_expr, m);
            lemma_calm(*else_expr, m);
        },
        Expr::Member { object, property, .. } => {
            lemma_calm(*object, m);
            lemma_calm_key(property, m);
        },
        Expr::Call { callee, arguments } => {
            lemma_calm(*callee, m);
            lemma_calm_list(arguments, m);
        },
        Expr::New { callee, arguments } => {
            lemma_calm(*callee, m);
            lemma_calm_list(arguments, m);
        },
        Expr::Array { elements } => {
            let t = substitute::subst_elements(elements, m);
            assert forall|i: int| 0 <= i < t.len() implies calm_element(#[trigger] t[i]) by {
                assert(calm_element(elements[i]));
                if let Some(x) = elements[i] {
                    lemma_calm(x, m);
                }
            }
        },
        Expr::Object { properties } => {
            let t = substitute::subst_props(properties, m);
            assert forall|i: int| 0 <= i < t.len() implies calm_prop(#[trigger] t[i]) by {
                assert(calm_prop(properties[i]));
                lemma_calm_key(properties[i].key, m);
                lemma_calm(properties[i].value, m);
            }
        },
        Expr::Assignment { target, value } => {
            lemma_calm(*target, m);
            lemma_calm(*value, m);
        },
        Expr::Spread(x) => lemma_calm(*x, m),
        _ => {},
    }
}

proof fn lemma_calm_key(k: Key, m: Map<u32, Expr>)
    requires
        calm_key(k),
        all_calm_values(m),
    ensures
        calm_key(substitute::subst_key(k, m)),
    decreases k,
{
    if let Key::Computed(e) = k {
        lemma_calm(*e, m);
    }
}

proof fn lemma_calm_list(s: Seq<Expr>, m: Map<u32, Expr>)
    requires
        all_calm(s),
        all_calm_values(m),
    ensures
        all_calm(substitute::subst_exprs(s, m)),
    decreases s,
{
    let t = substitute::subst_exprs(s, m);
    assert forall|i: int| 0 <= i < t.len() implies calm(#[trigger] t[i]) by {
        lemma_calm(s[i], m);
    }
}

proof fn lemma_simple_is_calm(m: Map<u32, Expr>)
    requires
        all_simple(m),
    ensures
        all_calm_values(m),
{
    assert forall|r: u32| #[trigger] m.dom().contains(r) implies calm(m[r]) by {
        reveal_with_fuel(calm, 2);
    }
}

proof fn lemma_calm_term(t: Term, m: Map<u32, Expr>)
    requires
        calm_term(t),
        all_calm_values(m),
    ensures
        calm_term(substitute::subst_term(t, m)),
{
    match t {
        Term::Branch { condition, .. } => lemma_calm(condition, m),
        Term::Return(Some(e)) => lemma_calm(e, m),
        Term::Throw(e) => lemma_calm(e, m),
        Term::Switch { value, cases, .. } => {
            lemma_calm(value, m);
            let u = substitute::subst_arms(cases, m);
            assert forall|i: int| 0 <= i < u.len() implies calm((#[trigger] u[i]).0) by {
                assert(calm(cases[i].0));
                lemma_calm(cases[i].0, m);
            }
        },
        _ => {},
    }
}

proof fn lemma_calm_stmt(s: Stmt, m: Map<u32, Expr>)
    requires
        calm_stmt(s),
        all_calm_values(m),
    ensures
        calm_stmt(substitute::subst_stmt(s, m)),
{
    match s {
        Stmt::Expr(e) => lemma_calm(e, m),
        Stmt::Let { value, .. } => lemma_calm(value, m),
        Stmt::Assign { target, value } => {
            lemma_calm(value, m);
            match target {
                Target::Member { object, .. } => lemma_calm(object, m),
                Target::Index { object, key } => {
                    lemma_calm(object, m);
                    lemma_calm(key, m);
                },
                _ => {},
            }
        },
        Stmt::Return(Some(e)) => lemma_calm(e, m),
        Stmt::Throw(e) => lemma_calm(e, m),
        _ => {},
    }
}

proof fn lemma_walked(s: Seq<Stmt>)
    requires
        all_calm_stmts(s),
    ensures
        all_calm_stmts(super::block_walk(s).stmts),
        all_simple(super::block_walk(s).copies),
    decreases s.len(),
{
    if s.len() > 0 {
        let rest = s.drop_last();
        assert forall|i: int| 0 <= i < rest.len() implies calm_stmt(#[trigger] rest[i]) by {
            assert(rest[i] == s[i]);
        }
        lemma_walked(rest);
        let before = super::block_walk(rest);
        let p = super::block_walk(s);
        let t = substitute::subst_stmt(s.last(), before.copies);
        assert(calm_stmt(s[s.len() - 1]));
        lemma_simple_is_calm(before.copies);
        lemma_calm_stmt(s.last(), before.copies);
        lemma_simple_after(before.copies, t);
        assert forall|i: int| 0 <= i < p.stmts.len() implies calm_stmt(#[trigger] p.stmts[i]) by {
            if i < before.stmts.len() {
                assert(p.stmts[i] == before.stmts[i]);
            }
        }
    }
}

proof fn lemma_calm_once(g: Seq<Node>)
    requires
        calm_graph(g),
    ensures
        calm_graph(super::propagated_once(g)),
{
    let h = super::propagated_once(g);
    assert forall|b: int| 0 <= b < h.len() implies all_calm_stmts((#[trigger] h[b]).stmts)
        && calm_term(h[b].term) by {
        assert(h[b] == super::propagated_node(g[b]));
        lemma_walked(g[b].stmts);
        let m = super::block_walk(g[b].stmts).copies;
        lemma_simple_is_calm(m);
        lemma_calm_term(g[b].term, m);
    }
}

/// A function means the same after any number of rounds of propagation inside its blocks: from every
/// block, every run comes to the same registers, the same world and the same returned value. It is
/// so where no expression assigns a register, and names keep their values.
pub proof fn lemma_rounds_keep_the_run<V, W>(
    d: Meaning<V, W>,
    g: Seq<Node>,
    rounds: nat,
    b: int,
    x: State<V, W>,
    n: nat,
)
    requires
        calm_graph(g),
        steady_names(d),
    ensures
        walk(d, super::propagated_times(g, rounds), b, x, n) == walk(d, g, b, x, n),
        calm_graph(super::propagated_times(g, rounds)),
    decreases rounds,
{
    if rounds > 0 {
        let h = super::propagated_times(g, (rounds - 1) as nat);
        lemma_rounds_keep_the_run(d, g, (rounds - 1) as nat, b, x, n);
        lemma_walk_once(d, h, b, x, n);
        lemma_calm_once(h);
    }
}

proof fn lemma_sole(s: Seq<Stmt>, k: int)
    requires
        0 <= k < s.len(),
    ensures
        super::assigned(s[k]) matches Some(a) ==> super::sole_values(s).dom().contains(a.0) && (
        super::sole_values(s)[a.0] matches Some(v) ==> v == a.1),
    decreases s.len(),
{
    let rest = s.drop_last();
    if k < rest.len() {
        assert(rest[k] == s[k]);
        lemma_sole(rest, k);
    }
}

proof fn lemma_in_all(g: Seq<Node>, b: int, i: int) -> (k: int)
    requires
        0 <= b < g.len(),
        0 <= i < g[b].stmts.len(),
    ensures
        0 <= k < super::all_stmts(g).len(),
        super::all_stmts(g)[k] == g[b].stmts[i],
    decreases g.len(),
{
    let rest = g.drop_last();
    if b == rest.len() {
        super::all_stmts(rest).len() + i
    } else {
        assert(rest[b] == g[b]);
        lemma_in_all(rest, b, i)
    }
}

proof fn lemma_shallower(m: Map<u32, Option<Expr>>, r: u32, depth: nat)
    ensures
        super::invariant_value(m, r, depth + 1) matches Some(v) ==> super::invariant_value(
            m,
            r,
            depth,
        ) == Some(v),
    decreases 17 - depth,
{
    if depth <= 16 && m.dom().contains(r) {
        if let Some(Expr::Value(Val::Register(b))) = m[r] {
            lemma_shallower(m, b, depth + 1);
        }
    }
}

proof fn lemma_invariant_is_plain(m: Map<u32, Option<Expr>>, r: u32, depth: nat)
    ensures
        super::invariant_value(m, r, depth) matches Some(v) ==> super::is_invariant(v),
    decreases 17 - depth,
{
    if depth <= 16 && m.dom().contains(r) {
        if let Some(Expr::Value(Val::Register(b))) = m[r] {
            lemma_invariant_is_plain(m, b, depth + 1);
        }
    }
}

proof fn lemma_invariants_stay<V, W>(
    d: Meaning<V, W>,
    g: Seq<Node>,
    x: State<V, W>,
    b: int,
    i: int,
)
    requires
        0 <= b < g.len(),
        0 <= i < g[b].stmts.len(),
        agree(d, x.regs, super::invariants(super::sole_values(super::all_stmts(g)))),
    ensures
        agree(
            d,
            meaning::exec(d, x, g[b].stmts[i]).regs,
            super::invariants(super::sole_values(super::all_stmts(g))),
        ),
{
    let soles = super::sole_values(super::all_stmts(g));
    let m = super::invariants(soles);
    let s = g[b].stmts[i];
    let y = meaning::exec(d, x, s);
    assert forall|q: u32, w: W| m.dom().contains(q) implies #[trigger] meaning::eval(
        d,
        y.regs,
        w,
        m[q],
    ) == (y.regs[q], w) by {
        lemma_invariant_is_plain(soles, q, 0);
        assert(meaning::eval(d, x.regs, w, m[q]) == (x.regs[q], w));
        assert(meaning::eval(d, y.regs, w, m[q]) == meaning::eval(d, x.regs, w, m[q]));
        if let Some((r, e)) = super::assigned(s) {
            if r == q && x.exit is None {
                let k = lemma_in_all(g, b, i);
                lemma_sole(super::all_stmts(g), k);
                assert(soles[q] == Some(e));
                let v = meaning::eval(d, x.regs, x.world, e);
                assert(y.regs[q] == v.0);
                if super::is_invariant(e) {
                    assert(m[q] == e);
                } else if let Expr::Value(Val::Register(c)) = e {
                    lemma_shallower(soles, c, 0);
                    assert(m.dom().contains(c) && m[c] == m[q]);
                    assert(meaning::eval(d, x.regs, w, m[c]) == (x.regs[c], w));
                }
            }
        }
    }
}

proof fn lemma_invariant_block<V, W>(
    d: Meaning<V, W>,
    g: Seq<Node>,
    x: State<V, W>,
    b: int,
    n: int,
)
    requires
        0 <= b < g.len(),
        0 <= n <= g[b].stmts.len(),
        all_calm_stmts(g[b].stmts),
        agree(d, x.regs, super::invariants(super::sole_values(super::all_stmts(g)))),
    ensures
        ({
            let m = super::invariants(super::sole_values(super::all_stmts(g)));
            let y = meaning::run(d, x, g[b].stmts.take(n));
            agree(d, y.regs, m) && meaning::run(d, x, super::subst_node(g[b], m).stmts.take(n)) == y
        }),
    decreases n,
{
    let m = super::invariants(super::sole_values(super::all_stmts(g)));
    if n > 0 {
        lemma_invariant_block(d, g, x, b, n - 1);
        let s = g[b].stmts;
        let t = super::subst_node(g[b], m).stmts;
        assert(s.take(n).drop_last() =~= s.take(n - 1));
        assert(t.take(n).drop_last() =~= t.take(n - 1));
        let y = meaning::run(d, x, s.take(n - 1));
        assert(calm_stmt(s[n - 1]));
        lemma_substitution_keeps_meaning(d, y, s[n - 1], m);
        lemma_invariants_stay(d, g, y, b, n - 1);
    }
}

proof fn lemma_leave_keeps_registers<V, W>(d: Meaning<V, W>, x: State<V, W>, t: Term)
    ensures
        leave(d, x, t).0.regs == x.regs,
{
}

proof fn lemma_walk_without_invariants<V, W>(
    d: Meaning<V, W>,
    g: Seq<Node>,
    b: int,
    x: State<V, W>,
    n: nat,
)
    requires
        calm_graph(g),
        agree(d, x.regs, super::invariants(super::sole_values(super::all_stmts(g)))),
    ensures
        walk(d, super::without_invariants(g), b, x, n) == walk(d, g, b, x, n),
    decreases n,
{
    let m = super::invariants(super::sole_values(super::all_stmts(g)));
    let h = super::without_invariants(g);
    if m.dom() != Set::<u32>::empty() && n > 0 && 0 <= b < g.len() {
        assert(h[b] == super::subst_node(g[b], m));
        let s = g[b].stmts;
        lemma_invariant_block(d, g, x, b, s.len() as int);
        assert(s.take(s.len() as int) =~= s);
        assert(h[b].stmts.take(s.len() as int) =~= h[b].stmts);
        let y = meaning::run(d, x, s);
        lemma_leave(d, y, g[b].term, m);
        lemma_leave_keeps_registers(d, y, g[b].term);
        let z = leave(d, y, g[b].term);
        if let Some(k) = z.1 {
            lemma_walk_without_invariants(d, g, k.0 as int, z.0, (n - 1) as nat);
        }
    }
}

proof fn lemma_calm_without_invariants(g: Seq<Node>)
    requires
        calm_graph(g),
    ensures
        calm_graph(super::without_invariants(g)),
{
    let soles = super::sole_values(super::all_stmts(g));
    let m = super::invariants(soles);
    let h = super::without_invariants(g);
    assert(all_calm_values(m)) by {
        assert forall|r: u32| #[trigger] m.dom().contains(r) implies calm(m[r]) by {
            lemma_invariant_is_plain(soles, r, 0);
        }
    }
    if m.dom() != Set::<u32>::empty() {
        assert forall|b: int| 0 <= b < h.len() implies all_calm_stmts((#[trigger] h[b]).stmts)
            && calm_term(h[b].term) by {
            assert(h[b] == super::subst_node(g[b], m));
            assert(all_calm_stmts(g[b].stmts));
            assert forall|i: int| 0 <= i < h[b].stmts.len() implies calm_stmt(
                #[trigger] h[b].stmts[i],
            ) by {
                assert(calm_stmt(g[b].stmts[i]));
                lemma_calm_stmt(g[b].stmts[i], m);
            }
            lemma_calm_term(g[b].term, m);
        }
    }
}

/// A function means the same after propagation: from every block, every run comes to the same
/// registers, the same world and the same returned value, whatever calls give and whatever they
/// change. The registers that hold one value in the whole function hold it from the start; no
/// expression assigns a register; and names keep their values.
pub proof fn lemma_propagation_keeps_the_run<V, W>(
    d: Meaning<V, W>,
    g: Seq<Node>,
    rounds: nat,
    b: int,
    x: State<V, W>,
    n: nat,
)
    requires
        calm_graph(g),
        steady_names(d),
        agree(d, x.regs, super::invariants(super::sole_values(super::all_stmts(g)))),
    ensures
        walk(d, super::propagated_times(super::without_invariants(g), rounds), b, x, n) == walk(
            d,
            g,
            b,
            x,
            n,
        ),
{
    let h = super::without_invariants(g);
    lemma_calm_without_invariants(g);
    lemma_rounds_keep_the_run(d, h, rounds, b, x, n);
    lemma_walk_without_invariants(d, g, b, x, n);
}

/// Whether a value can stand where its register is read: a leaf, or a property of the global object
/// or of a string.
pub open spec fn stands_alone(e: Expr) -> bool {
    match e {
        Expr::Value(Val::Variable(n)) => n != "__exception"@,
        Expr::Value(_) => true,
        _ => reads_world(e),
    }
}

/// Whether the statement at `i` finds in a register the value that the one at `j` gave it: nothing
/// in between assigns the register, or the one that the value reads.
pub open spec fn still_holds(s: Seq<Stmt>, j: int, i: int, r: u32, e: Expr) -> bool {
    &&& 0 <= j < i
    &&& s[j] == Stmt::Assign { target: Target::Register(r), value: e }
    &&& forall|k: int|
        j < k < i ==> !(#[trigger] s[k] matches Stmt::Assign { target: Target::Register(q), .. }
            && (q == r || e == Expr::Value(Val::Register(q))))
}

/// All registers but one.
pub open spec fn others(r: u32) -> Set<u32> {
    Set::new(|q: u32| q != r)
}

/// Whether a copy of a register is not itself a register whose value is known.
spec fn resolved(m: Map<u32, Expr>) -> bool {
    forall|q: u32, c: u32|
        #![trigger m.dom().contains(q), m.dom().contains(c)]
        m.dom().contains(q) && m[q] == Expr::Value(Val::Register(c)) && m.dom().contains(c)
            ==> m[c] == Expr::Value(Val::Register(c))
}

proof fn lemma_resolved_after(m: Map<u32, Expr>, s: Stmt)
    requires
        resolved(m),
        all_simple(m),
    ensures
        resolved(super::copies_after(m, substitute::subst_stmt(s, m))),
{
    let t = substitute::subst_stmt(s, m);
    let n = super::copies_after(m, t);
    assert forall|q: u32, c: u32|
        #![trigger n.dom().contains(q), n.dom().contains(c)]
        n.dom().contains(q) && n[q] == Expr::Value(Val::Register(c)) && n.dom().contains(
            c,
        ) implies n[c] == Expr::Value(Val::Register(c)) by {
        if let Some((r, e)) = super::assigned(t) {
            if q == r {
                if c != r {
                    assert(m.dom().contains(c) && n[c] == m[c]);
                    if let Stmt::Assign { value: Expr::Value(Val::Register(a)), .. } = s {
                        if m.dom().contains(a) {
                            assert(m[a] == Expr::Value(Val::Register(c)));
                        }
                    }
                }
            } else {
                assert(m.dom().contains(q) && m[q] == n[q]);
                if c == r {
                    lemma_reads_itself(c);
                } else {
                    assert(m.dom().contains(c));
                }
            }
        } else {
            assert(m.dom().contains(q) && m.dom().contains(c));
        }
    }
}

proof fn lemma_reads_itself(c: u32)
    ensures
        super::reads(Expr::Value(Val::Register(c)), c),
{
    let atoms = occurs::expr_atoms(Expr::Value(Val::Register(c)));
    assert(atoms[0] == Atom::Use(Val::Register(c)));
}

proof fn lemma_simple_reads(e: Expr, r: u32)
    requires
        super::propagatable(e),
        super::reads(e, r),
    ensures
        e == Expr::Value(Val::Register(r)),
{
    reveal_with_fuel(occurs::expr_atoms, 3);
    let a = Atom::Use(Val::Register(r));
    let atoms = occurs::expr_atoms(e);
    match e {
        Expr::Value(v) => {
            assert(atoms =~= seq![Atom::Use(v)]);
            let k = choose|k: int| 0 <= k < atoms.len() && atoms[k] == a;
            assert(atoms[k] == Atom::Use(v));
        },
        Expr::Member { object, property, .. } => {
            let k = choose|k: int| 0 <= k < atoms.len() && atoms[k] == a;
            match *object {
                Expr::Value(v) => {
                    assert(occurs::expr_atoms(*object) =~= seq![Atom::Use(v)]);
                    assert(atoms[k] == a);
                },
                _ => {},
            }
        },
        _ => {},
    }
}

proof fn lemma_known_at(s: Seq<Stmt>, j: int, i: int, r: u32, e: Expr)
    requires
        j < i <= s.len(),
        still_holds(super::block_walk(s).stmts, j, i, r, e),
        stands_alone(e),
        super::block_walk(s).stmts.len() == s.len(),
    ensures
        ({
            let m = super::block_walk(s.take(i)).copies;
            m.dom().contains(r) && m[r] == e
        }),
    decreases i,
{
    let all = super::block_walk(s).stmts;
    lemma_walk_prefix(s, i);
    lemma_walk_prefix(s, i - 1);
    assert(s.take(i).drop_last() =~= s.take(i - 1));
    let before = super::block_walk(s.take(i - 1));
    let now = super::block_walk(s.take(i));
    assert(now.stmts.last() == all[i - 1]);
    assert(super::propagatable(e));
    if j < i - 1 {
        assert forall|k: int| j < k < i - 1 implies !(#[trigger] all[k] matches Stmt::Assign {
            target: Target::Register(q),
            ..
        } && (q == r || e == Expr::Value(Val::Register(q)))) by {}
        lemma_known_at(s, j, i - 1, r, e);
        if let Some((q, v)) = super::assigned(all[i - 1]) {
            assert(q != r);
            if super::reads(e, q) {
                lemma_simple_reads(e, q);
            }
        }
    }
}

proof fn lemma_walk_prefix(s: Seq<Stmt>, i: int)
    requires
        0 <= i <= s.len(),
    ensures
        super::block_walk(s.take(i)).stmts == super::block_walk(s).stmts.take(i),
        super::block_walk(s).stmts.len() == s.len(),
    decreases s.len(),
{
    if s.len() > 0 {
        let rest = s.drop_last();
        let all = super::block_walk(s).stmts;
        lemma_walk_prefix(rest, if i < s.len() { i } else { rest.len() as int });
        if i < s.len() {
            assert(s.take(i) =~= rest.take(i));
            assert(all.take(i) =~= super::block_walk(rest).stmts.take(i));
        } else {
            assert(s.take(i) =~= s);
            assert(all.take(i) =~= all);
        }
    } else {
        assert(s.take(i) =~= s);
        assert(super::block_walk(s).stmts.take(i) =~= super::block_walk(s).stmts);
    }
}

proof fn lemma_resolved_walk(s: Seq<Stmt>)
    ensures
        resolved(super::block_walk(s).copies),
        all_simple(super::block_walk(s).copies),
    decreases s.len(),
{
    if s.len() > 0 {
        lemma_resolved_walk(s.drop_last());
        let m = super::block_walk(s.drop_last()).copies;
        lemma_resolved_after(m, s.last());
        lemma_simple_after(m, substitute::subst_stmt(s.last(), m));
    }
}

proof fn lemma_replaced(e: Expr, m: Map<u32, Expr>, r: u32)
    requires
        m.dom().contains(r),
        m[r] != Expr::Value(Val::Register(r)),
        resolved(m),
        all_simple(m),
    ensures
        laws::within(substitute::subst_expr(e, m), others(r)),
    decreases e,
{
    match e {
        Expr::Value(Val::Register(q)) => {
            if m.dom().contains(q) {
                assert(super::propagatable(m[q]));
                reveal_with_fuel(laws::within, 3);
            }
        },
        Expr::Binary { left, right, .. } => {
            lemma_replaced(*left, m, r);
            lemma_replaced(*right, m, r);
        },
        Expr::Unary { operand, .. } => lemma_replaced(*operand, m, r),
        Expr::Conditional { condition, then_expr, else_expr } => {
            lemma_replaced(*condition, m, r);
            lemma_replaced(*then_expr, m, r);
            lemma_replaced(*else_expr, m, r);
        },
        Expr::Member { object, property, .. } => {
            lemma_replaced(*object, m, r);
            lemma_replaced_key(property, m, r);
        },
        Expr::Call { callee, arguments } => {
            lemma_replaced(*callee, m, r);
            lemma_replaced_list(arguments, m, r);
        },
        Expr::New { callee, arguments } => {
            lemma_replaced(*callee, m, r);
            lemma_replaced_list(arguments, m, r);
        },
        Expr::Array { elements } => {
            let t = substitute::subst_elements(elements, m);
            assert forall|i: int| 0 <= i < t.len() implies laws::element_within(
                #[trigger] t[i],
                others(r),
            ) by {
                if let Some(x) = elements[i] {
                    lemma_replaced(x, m, r);
                }
            }
        },
        Expr::Object { properties } => {
            let t = substitute::subst_props(properties, m);
            assert forall|i: int| 0 <= i < t.len() implies laws::prop_within(
                #[trigger] t[i],
                others(r),
            ) by {
                lemma_replaced_key(properties[i].key, m, r);
                lemma_replaced(properties[i].value, m, r);
            }
        },
        Expr::Assignment { target, value } => {
            lemma_replaced(*target, m, r);
            lemma_replaced(*value, m, r);
        },
        Expr::Spread(x) => lemma_replaced(*x, m, r),
        _ => {},
    }
}

proof fn lemma_replaced_key(k: Key, m: Map<u32, Expr>, r: u32)
    requires
        m.dom().contains(r),
        m[r] != Expr::Value(Val::Register(r)),
        resolved(m),
        all_simple(m),
    ensures
        laws::key_within(substitute::subst_key(k, m), others(r)),
    decreases k,
{
    if let Key::Computed(e) = k {
        lemma_replaced(*e, m, r);
    }
}

proof fn lemma_replaced_list(s: Seq<Expr>, m: Map<u32, Expr>, r: u32)
    requires
        m.dom().contains(r),
        m[r] != Expr::Value(Val::Register(r)),
        resolved(m),
        all_simple(m),
    ensures
        laws::all_within(substitute::subst_exprs(s, m), others(r)),
    decreases s,
{
    let t = substitute::subst_exprs(s, m);
    assert forall|i: int| 0 <= i < t.len() implies laws::within(#[trigger] t[i], others(r)) by {
        lemma_replaced(s[i], m, r);
    }
}

proof fn lemma_replaced_stmt(s: Stmt, m: Map<u32, Expr>, r: u32)
    requires
        m.dom().contains(r),
        m[r] != Expr::Value(Val::Register(r)),
        resolved(m),
        all_simple(m),
    ensures
        laws::stmt_within(substitute::subst_stmt(s, m), others(r)),
{
    match s {
        Stmt::Expr(e) => lemma_replaced(e, m, r),
        Stmt::Let { value, .. } => lemma_replaced(value, m, r),
        Stmt::Assign { target, value } => {
            lemma_replaced(value, m, r);
            match target {
                Target::Member { object, .. } => lemma_replaced(object, m, r),
                Target::Index { object, key } => {
                    lemma_replaced(object, m, r);
                    lemma_replaced(key, m, r);
                },
                _ => {},
            }
        },
        Stmt::Return(Some(e)) => lemma_replaced(e, m, r),
        Stmt::Throw(e) => lemma_replaced(e, m, r),
        _ => {},
    }
}

/// No statement of a propagated block reads a register that an earlier one gave a value that can
/// stand alone, as long as nothing in between changes the register or what its value reads; neither
/// does the end of the block.
pub proof fn lemma_known_values_are_written(n: Node, j: int, i: int, r: u32, e: Expr)
    requires
        j < i <= n.stmts.len(),
        still_holds(super::propagated_node(n).stmts, j, i, r, e),
        stands_alone(e),
        e != Expr::Value(Val::Register(r)),
    ensures
        ({
            let p = super::propagated_node(n);
            if i < n.stmts.len() {
                laws::stmt_within(p.stmts[i], others(r))
            } else {
                laws::term_within(p.term, others(r))
            }
        }),
{
    let s = n.stmts;
    lemma_walk_prefix(s, i);
    lemma_known_at(s, j, i, r, e);
    lemma_resolved_walk(s.take(i));
    let m = super::block_walk(s.take(i)).copies;
    if i < s.len() {
        lemma_walk_prefix(s, i + 1);
        assert(s.take(i + 1).drop_last() =~= s.take(i));
        assert(super::block_walk(s.take(i + 1)).stmts.last() == substitute::subst_stmt(s[i], m));
        assert(super::block_walk(s).stmts.take(i + 1).last() == super::block_walk(s).stmts[i]);
        lemma_replaced_stmt(s[i], m, r);
    } else {
        assert(s.take(i) =~= s);
        match n.term {
            Term::Branch { condition, .. } => lemma_replaced(condition, m, r),
            Term::Return(Some(e)) => lemma_replaced(e, m, r),
            Term::Throw(e) => lemma_replaced(e, m, r),
            Term::Switch { value, cases, .. } => {
                lemma_replaced(value, m, r);
                let u = substitute::subst_arms(cases, m);
                assert forall|k: int| 0 <= k < u.len() implies laws::within(
                    (#[trigger] u[k]).0,
                    others(r),
                ) by {
                    lemma_replaced(cases[k].0, m, r);
                }
            },
            _ => {},
        }
    }
}

} // verus!
