//! Renaming variables renames each of their reads and nothing else.

use super::bodies;
use super::leaves;
use super::model::{Expr, Key, Prop, Stmt, Target, Val};
use super::renaming;
use super::visit;
use vstd::prelude::*;

verus! {

/// What a leaf becomes: the variable of the new name, for a variable that has one.
pub open spec fn becomes(m: Map<Seq<char>, Seq<char>>) -> spec_fn(Val) -> Seq<Val> {
    |v: Val|
        match v {
            Val::Variable(n) => if m.dom().contains(n) {
                seq![Val::Variable(m[n])]
            } else {
                seq![v]
            },
            _ => seq![v],
        }
}

/// Renaming variables leaves every leaf in its place, in order; each variable with a new name has
/// it, at any depth.
pub proof fn lemma_expression_leaves(m: Map<Seq<char>, Seq<char>>, e: Expr)
    ensures
        leaves::image(becomes(m), visit::expr_visits(e), visit::expr_visits(renaming::ren_expr(m, e))),
    decreases e,
{
    let g = becomes(m);
    let f = renaming::ren_expr(m, e);
    leaves::lemma_none(g);
    match e {
        Expr::Value(v) => {
            leaves::lemma_one(v);
            leaves::lemma_spread_one(g, v);
            assert(visit::expr_visits(e) =~= seq![e]);
            if let Expr::Value(w) = f {
                leaves::lemma_one(w);
                assert(visit::expr_visits(f) =~= seq![f]);
            }
        },
        Expr::Binary { left, right, .. } => {
            lemma_expression_leaves(m, *left);
            lemma_expression_leaves(m, *right);
            let a = visit::expr_visits(*left);
            let x = visit::expr_visits(renaming::ren_expr(m, *left));
            let b = visit::expr_visits(*right);
            let y = visit::expr_visits(renaming::ren_expr(m, *right));
            leaves::lemma_two(g, a, b, x, y);
            leaves::lemma_node(g, e, f, a + b, x + y);
        },
        Expr::Unary { operand, .. } => {
            lemma_expression_leaves(m, *operand);
            let a = visit::expr_visits(*operand);
            let x = visit::expr_visits(renaming::ren_expr(m, *operand));
            leaves::lemma_node(g, e, f, a, x);
        },
        Expr::Conditional { condition, then_expr, else_expr } => {
            lemma_expression_leaves(m, *condition);
            lemma_expression_leaves(m, *then_expr);
            lemma_expression_leaves(m, *else_expr);
            let a = visit::expr_visits(*condition);
            let x = visit::expr_visits(renaming::ren_expr(m, *condition));
            let b = visit::expr_visits(*then_expr);
            let y = visit::expr_visits(renaming::ren_expr(m, *then_expr));
            let c = visit::expr_visits(*else_expr);
            let z = visit::expr_visits(renaming::ren_expr(m, *else_expr));
            leaves::lemma_two(g, a, b, x, y);
            leaves::lemma_two(g, a + b, c, x + y, z);
            leaves::lemma_node(g, e, f, a + b + c, x + y + z);
        },
        Expr::Member { object, property, .. } => {
            lemma_expression_leaves(m, *object);
            lemma_key(m, property);
            let a = visit::expr_visits(*object);
            let x = visit::expr_visits(renaming::ren_expr(m, *object));
            let b = visit::key_visits(property);
            let y = visit::key_visits(renaming::ren_key(m, property));
            leaves::lemma_two(g, a, b, x, y);
            leaves::lemma_node(g, e, f, a + b, x + y);
        },
        Expr::Call { callee, arguments } => {
            lemma_expression_leaves(m, *callee);
            lemma_exprs(m, arguments);
            let a = visit::expr_visits(*callee);
            let x = visit::expr_visits(renaming::ren_expr(m, *callee));
            let b = visit::exprs_visits(arguments);
            let y = visit::exprs_visits(renaming::ren_exprs(m, arguments));
            leaves::lemma_two(g, a, b, x, y);
            leaves::lemma_node(g, e, f, a + b, x + y);
        },
        Expr::New { callee, arguments } => {
            lemma_expression_leaves(m, *callee);
            lemma_exprs(m, arguments);
            let a = visit::expr_visits(*callee);
            let x = visit::expr_visits(renaming::ren_expr(m, *callee));
            let b = visit::exprs_visits(arguments);
            let y = visit::exprs_visits(renaming::ren_exprs(m, arguments));
            leaves::lemma_two(g, a, b, x, y);
            leaves::lemma_node(g, e, f, a + b, x + y);
        },
        Expr::Array { elements } => {
            lemma_elements(m, elements);
            let a = visit::elements_visits(elements);
            let x = visit::elements_visits(renaming::ren_elements(m, elements));
            leaves::lemma_node(g, e, f, a, x);
        },
        Expr::Object { properties } => {
            lemma_props(m, properties);
            let a = visit::props_visits(properties);
            let x = visit::props_visits(renaming::ren_props(m, properties));
            leaves::lemma_node(g, e, f, a, x);
        },
        Expr::Assignment { target, value } => {
            lemma_expression_leaves(m, *target);
            lemma_expression_leaves(m, *value);
            let a = visit::expr_visits(*target);
            let x = visit::expr_visits(renaming::ren_expr(m, *target));
            let b = visit::expr_visits(*value);
            let y = visit::expr_visits(renaming::ren_expr(m, *value));
            leaves::lemma_two(g, a, b, x, y);
            leaves::lemma_node(g, e, f, a + b, x + y);
        },
        Expr::Spread(v) => {
            lemma_expression_leaves(m, *v);
            let a = visit::expr_visits(*v);
            let x = visit::expr_visits(renaming::ren_expr(m, *v));
            leaves::lemma_node(g, e, f, a, x);
        },
        Expr::TemplateLiteral { expressions, .. } => {
            lemma_exprs(m, expressions);
            let a = visit::exprs_visits(expressions);
            let x = visit::exprs_visits(renaming::ren_exprs(m, expressions));
            leaves::lemma_node(g, e, f, a, x);
        },
        Expr::Yield { value, .. } => {
            lemma_expression_leaves(m, *value);
            let a = visit::expr_visits(*value);
            let x = visit::expr_visits(renaming::ren_expr(m, *value));
            leaves::lemma_node(g, e, f, a, x);
        },
        Expr::Await(v) => {
            lemma_expression_leaves(m, *v);
            let a = visit::expr_visits(*v);
            let x = visit::expr_visits(renaming::ren_expr(m, *v));
            leaves::lemma_node(g, e, f, a, x);
        },
        Expr::JSXElement { attributes, children, .. } => {
            lemma_attrs(m, attributes);
            lemma_exprs(m, children);
            let a = visit::attrs_visits(attributes);
            let x = visit::attrs_visits(renaming::ren_attrs(m, attributes));
            let b = visit::exprs_visits(children);
            let y = visit::exprs_visits(renaming::ren_exprs(m, children));
            leaves::lemma_two(g, a, b, x, y);
            leaves::lemma_node(g, e, f, a + b, x + y);
        },
        _ => {
            leaves::lemma_node(g, e, f, Seq::empty(), Seq::empty());
        },
    }
}

proof fn lemma_key(m: Map<Seq<char>, Seq<char>>, k: Key)
    ensures
        leaves::image(becomes(m), visit::key_visits(k), visit::key_visits(renaming::ren_key(m, k))),
    decreases k,
{
    let g = becomes(m);
    leaves::lemma_none(g);
    if let Key::Computed(e) = k {
        lemma_expression_leaves(m, *e);
    }
}

proof fn lemma_opt_expr(m: Map<Seq<char>, Seq<char>>, o: Option<Expr>)
    ensures
        leaves::image(becomes(m), visit::opt_expr_visits(o), visit::opt_expr_visits(renaming::ren_opt_expr(m, o))),
    decreases o,
{
    let g = becomes(m);
    leaves::lemma_none(g);
    if let Some(e) = o {
        lemma_expression_leaves(m, e);
    }
}

proof fn lemma_exprs(m: Map<Seq<char>, Seq<char>>, s: Seq<Expr>)
    ensures
        leaves::image(becomes(m), visit::exprs_visits(s), visit::exprs_visits(renaming::ren_exprs(m, s))),
    decreases s,
{
    let g = becomes(m);
    leaves::lemma_none(g);
    if s.len() > 0 {
        let t = renaming::ren_exprs(m, s);
        lemma_exprs(m, s.drop_last());
        assert(t.drop_last() =~= renaming::ren_exprs(m, s.drop_last()));
        assert(t.last() == renaming::ren_expr(m, s.last()));
        lemma_expression_leaves(m, s.last());
        leaves::lemma_two(
            g,
            visit::exprs_visits(s.drop_last()),
            visit::expr_visits(s.last()),
            visit::exprs_visits(t.drop_last()),
            visit::expr_visits(t.last()),
        );
    }
}

proof fn lemma_elements(m: Map<Seq<char>, Seq<char>>, s: Seq<Option<Expr>>)
    ensures
        leaves::image(becomes(m), visit::elements_visits(s), visit::elements_visits(renaming::ren_elements(m, s))),
    decreases s,
{
    let g = becomes(m);
    leaves::lemma_none(g);
    if s.len() > 0 {
        let t = renaming::ren_elements(m, s);
        lemma_elements(m, s.drop_last());
        assert(t.drop_last() =~= renaming::ren_elements(m, s.drop_last()));
        assert(t.last() == renaming::ren_opt_expr(m, s.last()));
        lemma_opt_expr(m, s.last());
        leaves::lemma_two(
            g,
            visit::elements_visits(s.drop_last()),
            visit::opt_expr_visits(s.last()),
            visit::elements_visits(t.drop_last()),
            visit::opt_expr_visits(t.last()),
        );
    }
}

proof fn lemma_prop(m: Map<Seq<char>, Seq<char>>, p: Prop)
    ensures
        leaves::image(
            becomes(m),
            visit::key_visits(p.key) + visit::expr_visits(p.value),
            visit::key_visits(renaming::ren_prop(m, p).key) + visit::expr_visits(renaming::ren_prop(m, p).value),
        ),
    decreases p,
{
    lemma_key(m, p.key);
    lemma_expression_leaves(m, p.value);
    leaves::lemma_two(
        becomes(m),
        visit::key_visits(p.key),
        visit::expr_visits(p.value),
        visit::key_visits(renaming::ren_prop(m, p).key),
        visit::expr_visits(renaming::ren_prop(m, p).value),
    );
}

proof fn lemma_attr(m: Map<Seq<char>, Seq<char>>, a: (Seq<char>, Expr))
    ensures
        leaves::image(
            becomes(m),
            visit::expr_visits(a.1),
            visit::expr_visits(renaming::ren_attr(m, a).1),
        ),
    decreases a,
{
    lemma_expression_leaves(m, a.1);
}

proof fn lemma_props(m: Map<Seq<char>, Seq<char>>, s: Seq<Prop>)
    ensures
        leaves::image(becomes(m), visit::props_visits(s), visit::props_visits(renaming::ren_props(m, s))),
    decreases s,
{
    let g = becomes(m);
    leaves::lemma_none(g);
    if s.len() > 0 {
        let t = renaming::ren_props(m, s);
        lemma_props(m, s.drop_last());
        assert(t.drop_last() =~= renaming::ren_props(m, s.drop_last()));
        assert(t.last() == renaming::ren_prop(m, s.last()));
        lemma_prop(m, s.last());
        let a = visit::props_visits(s.drop_last());
        let b = visit::key_visits(s.last().key);
        let c = visit::expr_visits(s.last().value);
        let x = visit::props_visits(t.drop_last());
        let y = visit::key_visits(t.last().key);
        let z = visit::expr_visits(t.last().value);
        leaves::lemma_two(g, a, b + c, x, y + z);
        assert(a + b + c =~= a + (b + c));
        assert(x + y + z =~= x + (y + z));
    }
}

proof fn lemma_attrs(m: Map<Seq<char>, Seq<char>>, s: Seq<(Seq<char>, Expr)>)
    ensures
        leaves::image(becomes(m), visit::attrs_visits(s), visit::attrs_visits(renaming::ren_attrs(m, s))),
    decreases s,
{
    let g = becomes(m);
    leaves::lemma_none(g);
    if s.len() > 0 {
        let t = renaming::ren_attrs(m, s);
        lemma_attrs(m, s.drop_last());
        assert(t.drop_last() =~= renaming::ren_attrs(m, s.drop_last()));
        assert(t.last() == renaming::ren_attr(m, s.last()));
        lemma_attr(m, s.last());
        leaves::lemma_two(
            g,
            visit::attrs_visits(s.drop_last()),
            visit::expr_visits(s.last().1),
            visit::attrs_visits(t.drop_last()),
            visit::expr_visits(t.last().1),
        );
    }
}

/// The same of a statement without lists.
pub proof fn lemma_statement_leaves(m: Map<Seq<char>, Seq<char>>, s: Stmt)
    requires
        bodies::bodies(s).len() == 0,
        !(s is Class || s is Switch),
        s matches Stmt::Assign { target, .. } ==> target is Register || target is Variable || target is Member
            || target is Index,
    ensures
        leaves::image(becomes(m), visit::stmt_visits(s), visit::stmt_visits(renaming::ren_stmt(m, s))),
{
    let g = becomes(m);
    let none = Seq::<Expr>::empty();
    leaves::lemma_none(g);
    let t = renaming::ren_stmt(m, s);
    match s {
        Stmt::Expr(e) => {
            lemma_expression_leaves(m, e);
            assert(t == Stmt::Expr(renaming::ren_expr(m, e)));
            assert(visit::stmt_visits(t) == visit::expr_visits(renaming::ren_expr(m, e)));
        },
        Stmt::Let { value, .. } => {
            lemma_expression_leaves(m, value);
            assert(t->Let_value == renaming::ren_expr(m, value));
            assert(visit::stmt_visits(t) == visit::expr_visits(renaming::ren_expr(m, value)));
        },
        Stmt::Assign { target, value } => {
            lemma_expression_leaves(m, value);
            let b = visit::expr_visits(value);
            let y = visit::expr_visits(renaming::ren_expr(m, value));
            match target {
                Target::Member { object, .. } => {
                    lemma_expression_leaves(m, object);
                },
                Target::Index { object, key } => {
                    lemma_expression_leaves(m, object);
                    lemma_expression_leaves(m, key);
                    leaves::lemma_two(
                        g,
                        visit::expr_visits(object),
                        visit::expr_visits(key),
                        visit::expr_visits(renaming::ren_expr(m, object)),
                        visit::expr_visits(renaming::ren_expr(m, key)),
                    );
                },
                _ => {},
            }
            leaves::lemma_two(
                g,
                visit::target_visits(target),
                b,
                visit::target_visits(renaming::ren_target(m, target)),
                y,
            );
            let u = renaming::ren_target(m, target);
            assert(t == (Stmt::Assign { target: u, value: renaming::ren_expr(m, value) }));
            assert(visit::stmt_visits(t) == visit::target_visits(u) + y);
        },
        Stmt::Return(e) => {
            lemma_opt_expr(m, e);
            assert(t == Stmt::Return(renaming::ren_opt_expr(m, e)));
            assert(visit::stmt_visits(t) == visit::opt_expr_visits(renaming::ren_opt_expr(m, e)));
        },
        Stmt::Throw(e) => {
            lemma_expression_leaves(m, e);
            assert(t == Stmt::Throw(renaming::ren_expr(m, e)));
            assert(visit::stmt_visits(t) == visit::expr_visits(renaming::ren_expr(m, e)));
        },
        _ => {},
    }
}

} // verus!
