//! Writing values for variables replaces each read and nothing else.

use super::vars;
use crate::ir::bodies;
use crate::ir::leaves;
use crate::ir::model::{Expr, Key, Prop, Stmt, Target, Val};
use crate::ir::visit;
use vstd::prelude::*;

verus! {

/// The leaves that a leaf becomes: those of the value, for a variable with one.
pub open spec fn becomes(m: Seq<(Seq<char>, Expr)>) -> spec_fn(Val) -> Seq<Val> {
    |v: Val|
        match v {
            Val::Variable(n) => match vars::value_in(m, n) {
                Some(x) => leaves::leaves_in(visit::expr_visits(x)),
                None => seq![v],
            },
            _ => seq![v],
        }
}

/// Whether no expression among some assigns a leaf.
pub open spec fn quiet(s: Seq<Expr>) -> bool {
    forall|i: int| 0 <= i < s.len() ==> !assigns_leaf(#[trigger] s[i])
}

pub open spec fn assigns_leaf(e: Expr) -> bool {
    match e {
        Expr::Assignment { target, .. } => *target is Value,
        _ => false,
    }
}

proof fn lemma_join_quiet(s: Seq<Expr>, t: Seq<Expr>)
    requires
        quiet(s),
        quiet(t),
    ensures
        quiet(s + t),
{
    assert forall|i: int| 0 <= i < (s + t).len() implies !assigns_leaf(#[trigger] (s + t)[i]) by {
        if i < s.len() {
            assert(!assigns_leaf(s[i]));
        } else {
            assert(!assigns_leaf(t[i - s.len()]));
        }
    }
}

proof fn lemma_quiet(s: Seq<Expr>, t: Seq<Expr>)
    requires
        quiet(s + t),
    ensures
        quiet(s),
        quiet(t),
{
    assert forall|i: int| 0 <= i < s.len() implies !assigns_leaf(#[trigger] s[i]) by {
        assert((s + t)[i] == s[i]);
    }
    assert forall|i: int| 0 <= i < t.len() implies !assigns_leaf(#[trigger] t[i]) by {
        assert((s + t)[s.len() + i] == t[i]);
    }
}

/// Writing values for variables leaves every leaf in its place, in order; each variable with a value
/// is that value, at any depth. A variable that is assigned is no read, so there is none here.
pub proof fn lemma_expression_leaves(m: Seq<(Seq<char>, Expr)>, e: Expr)
    requires
        quiet(visit::expr_visits(e)),
    ensures
        leaves::image(becomes(m), visit::expr_visits(e), visit::expr_visits(vars::sub_expr(m, e))),
    decreases e,
{
    let g = becomes(m);
    let f = vars::sub_expr(m, e);
    leaves::lemma_none(g);
    match e {
        Expr::Value(v) => {
            leaves::lemma_one(v);
            leaves::lemma_spread_one(g, v);
            assert(visit::expr_visits(e) =~= seq![e]);
            if f == e {
                assert(visit::expr_visits(f) =~= seq![e]);
            }
        },
        Expr::Binary { left, right, .. } => {
            lemma_quiet(seq![e], visit::expr_visits(*left) + visit::expr_visits(*right));
            lemma_quiet(visit::expr_visits(*left), visit::expr_visits(*right));
            lemma_expression_leaves(m, *left);
            lemma_expression_leaves(m, *right);
            let a = visit::expr_visits(*left);
            let x = visit::expr_visits(vars::sub_expr(m, *left));
            let b = visit::expr_visits(*right);
            let y = visit::expr_visits(vars::sub_expr(m, *right));
            leaves::lemma_two(g, a, b, x, y);
            leaves::lemma_node(g, e, f, a + b, x + y);
        },
        Expr::Unary { operand, .. } => {
            lemma_quiet(seq![e], visit::expr_visits(*operand));
            lemma_expression_leaves(m, *operand);
            let a = visit::expr_visits(*operand);
            let x = visit::expr_visits(vars::sub_expr(m, *operand));
            leaves::lemma_node(g, e, f, a, x);
        },
        Expr::Conditional { condition, then_expr, else_expr } => {
            lemma_quiet(seq![e], visit::expr_visits(*condition) + visit::expr_visits(*then_expr) + visit::expr_visits(*else_expr));
            lemma_quiet(visit::expr_visits(*condition) + visit::expr_visits(*then_expr), visit::expr_visits(*else_expr));
            lemma_quiet(visit::expr_visits(*condition), visit::expr_visits(*then_expr));
            lemma_expression_leaves(m, *condition);
            lemma_expression_leaves(m, *then_expr);
            lemma_expression_leaves(m, *else_expr);
            let a = visit::expr_visits(*condition);
            let x = visit::expr_visits(vars::sub_expr(m, *condition));
            let b = visit::expr_visits(*then_expr);
            let y = visit::expr_visits(vars::sub_expr(m, *then_expr));
            let c = visit::expr_visits(*else_expr);
            let z = visit::expr_visits(vars::sub_expr(m, *else_expr));
            leaves::lemma_two(g, a, b, x, y);
            leaves::lemma_two(g, a + b, c, x + y, z);
            leaves::lemma_node(g, e, f, a + b + c, x + y + z);
        },
        Expr::Member { object, property, .. } => {
            lemma_quiet(seq![e], visit::expr_visits(*object) + visit::key_visits(property));
            lemma_quiet(visit::expr_visits(*object), visit::key_visits(property));
            lemma_expression_leaves(m, *object);
            lemma_key(m, property);
            let a = visit::expr_visits(*object);
            let x = visit::expr_visits(vars::sub_expr(m, *object));
            let b = visit::key_visits(property);
            let y = visit::key_visits(vars::sub_key(m, property));
            leaves::lemma_two(g, a, b, x, y);
            leaves::lemma_node(g, e, f, a + b, x + y);
        },
        Expr::Call { callee, arguments } => {
            lemma_quiet(seq![e], visit::expr_visits(*callee) + visit::exprs_visits(arguments));
            lemma_quiet(visit::expr_visits(*callee), visit::exprs_visits(arguments));
            lemma_expression_leaves(m, *callee);
            lemma_exprs(m, arguments);
            let a = visit::expr_visits(*callee);
            let x = visit::expr_visits(vars::sub_expr(m, *callee));
            let b = visit::exprs_visits(arguments);
            let y = visit::exprs_visits(vars::sub_exprs(m, arguments));
            leaves::lemma_two(g, a, b, x, y);
            leaves::lemma_node(g, e, f, a + b, x + y);
        },
        Expr::New { callee, arguments } => {
            lemma_quiet(seq![e], visit::expr_visits(*callee) + visit::exprs_visits(arguments));
            lemma_quiet(visit::expr_visits(*callee), visit::exprs_visits(arguments));
            lemma_expression_leaves(m, *callee);
            lemma_exprs(m, arguments);
            let a = visit::expr_visits(*callee);
            let x = visit::expr_visits(vars::sub_expr(m, *callee));
            let b = visit::exprs_visits(arguments);
            let y = visit::exprs_visits(vars::sub_exprs(m, arguments));
            leaves::lemma_two(g, a, b, x, y);
            leaves::lemma_node(g, e, f, a + b, x + y);
        },
        Expr::Array { elements } => {
            lemma_quiet(seq![e], visit::elements_visits(elements));
            lemma_elements(m, elements);
            let a = visit::elements_visits(elements);
            let x = visit::elements_visits(vars::sub_elements(m, elements));
            leaves::lemma_node(g, e, f, a, x);
        },
        Expr::Object { properties } => {
            lemma_quiet(seq![e], visit::props_visits(properties));
            lemma_props(m, properties);
            let a = visit::props_visits(properties);
            let x = visit::props_visits(vars::sub_props(m, properties));
            leaves::lemma_node(g, e, f, a, x);
        },
        Expr::Assignment { target, value } => {
            assert(!assigns_leaf(visit::expr_visits(e)[0]));
            lemma_quiet(seq![e], visit::expr_visits(*target) + visit::expr_visits(*value));
            lemma_quiet(visit::expr_visits(*target), visit::expr_visits(*value));
            lemma_expression_leaves(m, *target);
            lemma_expression_leaves(m, *value);
            let a = visit::expr_visits(*target);
            let x = visit::expr_visits(vars::sub_expr(m, *target));
            let b = visit::expr_visits(*value);
            let y = visit::expr_visits(vars::sub_expr(m, *value));
            leaves::lemma_two(g, a, b, x, y);
            leaves::lemma_node(g, e, f, a + b, x + y);
        },
        Expr::Spread(v) => {
            lemma_quiet(seq![e], visit::expr_visits(*v));
            lemma_expression_leaves(m, *v);
            let a = visit::expr_visits(*v);
            let x = visit::expr_visits(vars::sub_expr(m, *v));
            leaves::lemma_node(g, e, f, a, x);
        },
        Expr::TemplateLiteral { expressions, .. } => {
            lemma_quiet(seq![e], visit::exprs_visits(expressions));
            lemma_exprs(m, expressions);
            let a = visit::exprs_visits(expressions);
            let x = visit::exprs_visits(vars::sub_exprs(m, expressions));
            leaves::lemma_node(g, e, f, a, x);
        },
        Expr::Yield { value, .. } => {
            lemma_quiet(seq![e], visit::expr_visits(*value));
            lemma_expression_leaves(m, *value);
            let a = visit::expr_visits(*value);
            let x = visit::expr_visits(vars::sub_expr(m, *value));
            leaves::lemma_node(g, e, f, a, x);
        },
        Expr::Await(v) => {
            lemma_quiet(seq![e], visit::expr_visits(*v));
            lemma_expression_leaves(m, *v);
            let a = visit::expr_visits(*v);
            let x = visit::expr_visits(vars::sub_expr(m, *v));
            leaves::lemma_node(g, e, f, a, x);
        },
        Expr::JSXElement { attributes, children, .. } => {
            lemma_quiet(seq![e], visit::attrs_visits(attributes) + visit::exprs_visits(children));
            lemma_quiet(visit::attrs_visits(attributes), visit::exprs_visits(children));
            lemma_attrs(m, attributes);
            lemma_exprs(m, children);
            let a = visit::attrs_visits(attributes);
            let x = visit::attrs_visits(vars::sub_attrs(m, attributes));
            let b = visit::exprs_visits(children);
            let y = visit::exprs_visits(vars::sub_exprs(m, children));
            leaves::lemma_two(g, a, b, x, y);
            leaves::lemma_node(g, e, f, a + b, x + y);
        },
        _ => {
            leaves::lemma_node(g, e, f, Seq::empty(), Seq::empty());
        },
    }
}

proof fn lemma_key(m: Seq<(Seq<char>, Expr)>, k: Key)
    requires
        quiet(visit::key_visits(k)),
    ensures
        leaves::image(becomes(m), visit::key_visits(k), visit::key_visits(vars::sub_key(m, k))),
    decreases k,
{
    let g = becomes(m);
    leaves::lemma_none(g);
    if let Key::Computed(e) = k {
        lemma_expression_leaves(m, *e);
    }
}

proof fn lemma_opt_expr(m: Seq<(Seq<char>, Expr)>, o: Option<Expr>)
    requires
        quiet(visit::opt_expr_visits(o)),
    ensures
        leaves::image(becomes(m), visit::opt_expr_visits(o), visit::opt_expr_visits(vars::sub_opt_expr(m, o))),
    decreases o,
{
    let g = becomes(m);
    leaves::lemma_none(g);
    if let Some(e) = o {
        lemma_expression_leaves(m, e);
    }
}

proof fn lemma_exprs(m: Seq<(Seq<char>, Expr)>, s: Seq<Expr>)
    requires
        quiet(visit::exprs_visits(s)),
    ensures
        leaves::image(becomes(m), visit::exprs_visits(s), visit::exprs_visits(vars::sub_exprs(m, s))),
    decreases s,
{
    let g = becomes(m);
    leaves::lemma_none(g);
    if s.len() > 0 {
        let t = vars::sub_exprs(m, s);
        lemma_quiet(visit::exprs_visits(s.drop_last()), visit::expr_visits(s.last()));
        lemma_exprs(m, s.drop_last());
        assert(t.drop_last() =~= vars::sub_exprs(m, s.drop_last()));
        assert(t.last() == vars::sub_expr(m, s.last()));
        lemma_expression_leaves(m, s.last());
        leaves::lemma_two(
            g,
            visit::exprs_visits(s.drop_last()),
            visit::expr_visits(s.last()),
            visit::exprs_visits(t.drop_last()),
            visit::expr_visits(t.last()),
        );
    }
}

proof fn lemma_elements(m: Seq<(Seq<char>, Expr)>, s: Seq<Option<Expr>>)
    requires
        quiet(visit::elements_visits(s)),
    ensures
        leaves::image(becomes(m), visit::elements_visits(s), visit::elements_visits(vars::sub_elements(m, s))),
    decreases s,
{
    let g = becomes(m);
    leaves::lemma_none(g);
    if s.len() > 0 {
        let t = vars::sub_elements(m, s);
        lemma_quiet(visit::elements_visits(s.drop_last()), visit::opt_expr_visits(s.last()));
        lemma_elements(m, s.drop_last());
        assert(t.drop_last() =~= vars::sub_elements(m, s.drop_last()));
        assert(t.last() == vars::sub_opt_expr(m, s.last()));
        lemma_opt_expr(m, s.last());
        leaves::lemma_two(
            g,
            visit::elements_visits(s.drop_last()),
            visit::opt_expr_visits(s.last()),
            visit::elements_visits(t.drop_last()),
            visit::opt_expr_visits(t.last()),
        );
    }
}

proof fn lemma_prop(m: Seq<(Seq<char>, Expr)>, p: Prop)
    requires
        quiet(visit::key_visits(p.key) + visit::expr_visits(p.value)),
    ensures
        leaves::image(
            becomes(m),
            visit::key_visits(p.key) + visit::expr_visits(p.value),
            visit::key_visits(vars::sub_prop(m, p).key) + visit::expr_visits(vars::sub_prop(m, p).value),
        ),
    decreases p,
{
    lemma_quiet(visit::key_visits(p.key), visit::expr_visits(p.value));
    lemma_key(m, p.key);
    lemma_expression_leaves(m, p.value);
    leaves::lemma_two(
        becomes(m),
        visit::key_visits(p.key),
        visit::expr_visits(p.value),
        visit::key_visits(vars::sub_prop(m, p).key),
        visit::expr_visits(vars::sub_prop(m, p).value),
    );
}

proof fn lemma_attr(m: Seq<(Seq<char>, Expr)>, a: (Seq<char>, Expr))
    requires
        quiet(visit::expr_visits(a.1)),
    ensures
        leaves::image(
            becomes(m),
            visit::expr_visits(a.1),
            visit::expr_visits(vars::sub_attr(m, a).1),
        ),
    decreases a,
{
    lemma_expression_leaves(m, a.1);
}

proof fn lemma_props(m: Seq<(Seq<char>, Expr)>, s: Seq<Prop>)
    requires
        quiet(visit::props_visits(s)),
    ensures
        leaves::image(becomes(m), visit::props_visits(s), visit::props_visits(vars::sub_props(m, s))),
    decreases s,
{
    let g = becomes(m);
    leaves::lemma_none(g);
    if s.len() > 0 {
        let t = vars::sub_props(m, s);
        lemma_quiet(
            visit::props_visits(s.drop_last()) + visit::key_visits(s.last().key),
            visit::expr_visits(s.last().value),
        );
        lemma_quiet(visit::props_visits(s.drop_last()), visit::key_visits(s.last().key));
        lemma_join_quiet(visit::key_visits(s.last().key), visit::expr_visits(s.last().value));
        lemma_props(m, s.drop_last());
        assert(t.drop_last() =~= vars::sub_props(m, s.drop_last()));
        assert(t.last() == vars::sub_prop(m, s.last()));
        lemma_prop(m, s.last());
        let a = visit::props_visits(s.drop_last());
        let b = visit::key_visits(s.last().key);
        let c = visit::expr_visits(s.last().value);
        let x = visit::props_visits(t.drop_last());
        let y = visit::key_visits(t.last().key);
        let z = visit::expr_visits(t.last().value);
        leaves::lemma_two(g, a, b + c, x, y + z);
        assert(a + b + c =~= a + (b + c));
        assert(x + y + z =~= x + (y + z));
    }
}

proof fn lemma_attrs(m: Seq<(Seq<char>, Expr)>, s: Seq<(Seq<char>, Expr)>)
    requires
        quiet(visit::attrs_visits(s)),
    ensures
        leaves::image(becomes(m), visit::attrs_visits(s), visit::attrs_visits(vars::sub_attrs(m, s))),
    decreases s,
{
    let g = becomes(m);
    leaves::lemma_none(g);
    if s.len() > 0 {
        let t = vars::sub_attrs(m, s);
        lemma_quiet(visit::attrs_visits(s.drop_last()), visit::expr_visits(s.last().1));
        lemma_attrs(m, s.drop_last());
        assert(t.drop_last() =~= vars::sub_attrs(m, s.drop_last()));
        assert(t.last() == vars::sub_attr(m, s.last()));
        lemma_attr(m, s.last());
        leaves::lemma_two(
            g,
            visit::attrs_visits(s.drop_last()),
            visit::expr_visits(s.last().1),
            visit::attrs_visits(t.drop_last()),
            visit::expr_visits(t.last().1),
        );
    }
}

/// The same of a statement without lists.
pub proof fn lemma_statement_leaves(m: Seq<(Seq<char>, Expr)>, s: Stmt)
    requires
        quiet(visit::stmt_visits(s)),
        bodies::bodies(s).len() == 0,
        !(s is Class || s is Switch),
        s matches Stmt::Assign { target, .. } ==> target is Register || target is Variable || target is Member
            || target is Index,
    ensures
        leaves::image(becomes(m), visit::stmt_visits(s), visit::stmt_visits(vars::sub_stmt(m, s))),
{
    let g = becomes(m);
    let none = Seq::<Expr>::empty();
    leaves::lemma_none(g);
    let t = vars::sub_stmt(m, s);
    match s {
        Stmt::Expr(e) => {
            lemma_expression_leaves(m, e);
            assert(t == Stmt::Expr(vars::sub_expr(m, e)));
            assert(visit::stmt_visits(t) == visit::expr_visits(vars::sub_expr(m, e)));
        },
        Stmt::Let { value, .. } => {
            lemma_expression_leaves(m, value);
            assert(t->Let_value == vars::sub_expr(m, value));
            assert(visit::stmt_visits(t) == visit::expr_visits(vars::sub_expr(m, value)));
        },
        Stmt::Assign { target, value } => {
            lemma_quiet(visit::target_visits(target), visit::expr_visits(value));
            lemma_expression_leaves(m, value);
            let b = visit::expr_visits(value);
            let y = visit::expr_visits(vars::sub_expr(m, value));
            match target {
                Target::Member { object, .. } => {
                    lemma_expression_leaves(m, object);
                },
                Target::Index { object, key } => {
                    lemma_quiet(visit::expr_visits(object), visit::expr_visits(key));
                    lemma_expression_leaves(m, object);
                    lemma_expression_leaves(m, key);
                    leaves::lemma_two(
                        g,
                        visit::expr_visits(object),
                        visit::expr_visits(key),
                        visit::expr_visits(vars::sub_expr(m, object)),
                        visit::expr_visits(vars::sub_expr(m, key)),
                    );
                },
                _ => {},
            }
            leaves::lemma_two(
                g,
                visit::target_visits(target),
                b,
                visit::target_visits(vars::sub_target(m, target)),
                y,
            );
            let u = vars::sub_target(m, target);
            assert(t == (Stmt::Assign { target: u, value: vars::sub_expr(m, value) }));
            assert(visit::stmt_visits(t) == visit::target_visits(u) + y);
        },
        Stmt::Return(e) => {
            lemma_opt_expr(m, e);
            assert(t == Stmt::Return(vars::sub_opt_expr(m, e)));
            assert(visit::stmt_visits(t) == visit::opt_expr_visits(vars::sub_opt_expr(m, e)));
        },
        Stmt::Throw(e) => {
            lemma_expression_leaves(m, e);
            assert(t == Stmt::Throw(vars::sub_expr(m, e)));
            assert(visit::stmt_visits(t) == visit::expr_visits(vars::sub_expr(m, e)));
        },
        _ => {},
    }
}

} // verus!
