//! No factory call that has a JSX form is left.

use super::lower;
use super::props_laws;
use crate::ir::model::{Const, Expr, Key, Prop, Val};
use crate::ir::visit;
use vstd::prelude::*;

verus! {

/// Whether an expression names a component: it is a text, a variable or a member of a variable.
pub open spec fn names_component(e: Expr) -> bool {
    match e {
        Expr::Value(Val::Constant(Const::String(_))) => true,
        Expr::Value(Val::Variable(_)) => true,
        Expr::Member { object, property: Key::Ident(_), .. } => *object matches Expr::Value(
            Val::Variable(_),
        ),
        _ => false,
    }
}

/// Whether an expression is a call that makes an element.
pub open spec fn makes_element(e: Expr) -> bool {
    match e {
        Expr::Call { callee, arguments } => props_laws::makes_elements(*callee) && arguments.len()
            > 0 && names_component(arguments[0]),
        _ => false,
    }
}

/// Whether no expression among some is a call that makes an element.
pub open spec fn done(s: Seq<Expr>) -> bool {
    forall|i: int| 0 <= i < s.len() ==> !makes_element(#[trigger] s[i])
}

proof fn lemma_two(s: Seq<Expr>, t: Seq<Expr>)
    ensures
        done(s + t) == (done(s) && done(t)),
{
    if done(s) && done(t) {
        assert forall|i: int| 0 <= i < (s + t).len() implies !makes_element(
            #[trigger] (s + t)[i],
        ) by {
            if i < s.len() {
                assert(!makes_element(s[i]));
            } else {
                assert(!makes_element(t[i - s.len()]));
            }
        }
    }
    if done(s + t) {
        assert forall|i: int| 0 <= i < s.len() implies !makes_element(#[trigger] s[i]) by {
            assert((s + t)[i] == s[i]);
        }
        assert forall|i: int| 0 <= i < t.len() implies !makes_element(#[trigger] t[i]) by {
            assert((s + t)[s.len() + i] == t[i]);
        }
    }
}

proof fn lemma_node(e: Expr, s: Seq<Expr>)
    requires
        !makes_element(e),
        done(s),
    ensures
        done(seq![e] + s),
{
    lemma_two(seq![e], s);
}

proof fn lemma_inside(e: Expr, s: Seq<Expr>)
    requires
        visit::expr_visits(e) == seq![e] + s,
        done(visit::expr_visits(e)),
    ensures
        done(s),
{
    lemma_two(seq![e], s);
}

proof fn lemma_argument(s: Seq<Expr>, i: int)
    requires
        done(visit::exprs_visits(s)),
        0 <= i < s.len(),
    ensures
        done(visit::expr_visits(s[i])),
    decreases s.len(),
{
    lemma_two(visit::exprs_visits(s.drop_last()), visit::expr_visits(s.last()));
    if i < s.len() - 1 {
        assert(s.drop_last()[i] == s[i]);
        lemma_argument(s.drop_last(), i);
    }
}

proof fn lemma_some(s: Seq<Expr>)
    requires
        forall|i: int| 0 <= i < s.len() ==> done(visit::expr_visits(#[trigger] s[i])),
    ensures
        done(visit::exprs_visits(s)),
    decreases s.len(),
{
    if s.len() > 0 {
        let d = s.drop_last();
        assert forall|i: int| 0 <= i < d.len() implies done(
            visit::expr_visits(#[trigger] d[i]),
        ) by {
            assert(d[i] == s[i]);
        }
        lemma_some(d);
        assert(done(visit::expr_visits(s[s.len() - 1])));
        lemma_two(visit::exprs_visits(d), visit::expr_visits(s.last()));
    }
}

proof fn lemma_present(s: Seq<Option<Expr>>)
    requires
        done(visit::elements_visits(s)),
    ensures
        done(visit::exprs_visits(lower::present(s))),
    decreases s.len(),
{
    if s.len() > 0 {
        let d = s.drop_last();
        lemma_two(visit::elements_visits(d), visit::opt_expr_visits(s.last()));
        lemma_present(d);
        if let Some(e) = s.last() {
            let t = lower::present(s);
            assert(t.drop_last() =~= lower::present(d));
            lemma_two(visit::exprs_visits(lower::present(d)), visit::expr_visits(e));
        }
    }
}

proof fn lemma_children_of(e: Expr)
    requires
        done(visit::expr_visits(e)),
    ensures
        done(visit::exprs_visits(lower::children_of(e))),
{
    if let Expr::Array { elements } = e {
        lemma_inside(e, visit::elements_visits(elements));
        lemma_present(elements);
    } else {
        assert forall|i: int| 0 <= i < seq![e].len() implies done(
            visit::expr_visits(#[trigger] seq![e][i]),
        ) by {
        }
        lemma_some(seq![e]);
    }
}

proof fn lemma_joined(s: Seq<Expr>, t: Seq<Expr>)
    requires
        done(visit::exprs_visits(s)),
        done(visit::exprs_visits(t)),
    ensures
        done(visit::exprs_visits(s + t)),
{
    assert forall|i: int| 0 <= i < (s + t).len() implies done(
        visit::expr_visits(#[trigger] (s + t)[i]),
    ) by {
        if i < s.len() {
            lemma_argument(s, i);
        } else {
            lemma_argument(t, i - s.len());
        }
    }
    lemma_some(s + t);
}

proof fn lemma_prop_parts(s: Seq<Prop>)
    requires
        s.len() > 0,
        done(visit::props_visits(s)),
    ensures
        done(visit::props_visits(s.drop_last())),
        done(visit::expr_visits(s.last().value)),
{
    let a = visit::props_visits(s.drop_last());
    let b = visit::key_visits(s.last().key);
    lemma_two(a + b, visit::expr_visits(s.last().value));
    lemma_two(a, b);
}

proof fn lemma_prop_children(s: Seq<Prop>)
    requires
        done(visit::props_visits(s)),
    ensures
        done(visit::exprs_visits(lower::prop_children(s))),
    decreases s.len(),
{
    if s.len() > 0 {
        lemma_prop_parts(s);
        lemma_prop_children(s.drop_last());
        lemma_children_of(s.last().value);
        lemma_joined(lower::prop_children(s.drop_last()), lower::children_of(s.last().value));
    }
}

proof fn lemma_prop_attrs(s: Seq<Prop>, m: bool)
    requires
        done(visit::props_visits(s)),
    ensures
        done(visit::attrs_visits(lower::prop_attrs(s, m))),
    decreases s.len(),
{
    if s.len() > 0 {
        let d = s.drop_last();
        lemma_prop_parts(s);
        lemma_prop_attrs(d, m);
        let before = lower::prop_attrs(d, m);
        let t = lower::prop_attrs(s, m);
        if t != before {
            assert(t.drop_last() =~= before);
            lemma_two(visit::attrs_visits(before), visit::expr_visits(s.last().value));
        }
    }
}

proof fn lemma_attrs_joined(s: Seq<(Seq<char>, Expr)>, t: Seq<(Seq<char>, Expr)>)
    requires
        done(visit::attrs_visits(s)),
        done(visit::attrs_visits(t)),
    ensures
        done(visit::attrs_visits(s + t)),
    decreases t.len(),
{
    if t.len() == 0 {
        assert(s + t =~= s);
    } else {
        let d = t.drop_last();
        lemma_two(visit::attrs_visits(d), visit::expr_visits(t.last().1));
        lemma_attrs_joined(s, d);
        assert((s + t).drop_last() =~= s + d);
        lemma_two(visit::attrs_visits(s + d), visit::expr_visits(t.last().1));
    }
}

proof fn lemma_one_attr(n: Seq<char>, e: Expr)
    requires
        done(visit::expr_visits(e)),
    ensures
        done(visit::attrs_visits(seq![(n, e)])),
{
    let s = seq![(n, e)];
    assert(s.drop_last() =~= Seq::<(Seq<char>, Expr)>::empty());
    assert(visit::attrs_visits(s.drop_last()) =~= Seq::<Expr>::empty());
    lemma_two(Seq::empty(), visit::expr_visits(e));
}

proof fn lemma_arg_attrs(args: Seq<Expr>, m: bool)
    requires
        done(visit::exprs_visits(args)),
    ensures
        done(visit::attrs_visits(lower::arg_attrs(args, m))),
        done(visit::attrs_visits(lower::key_attr(args))),
{
    if args.len() >= 2 {
        lemma_argument(args, 1);
        if let Expr::Object { properties } = args[1] {
            lemma_inside(args[1], visit::props_visits(properties));
            lemma_prop_attrs(properties, m);
        } else {
            lemma_one_attr("..."@, args[1]);
            let w = Expr::Spread(Box::new(args[1]));
            lemma_node(w, visit::expr_visits(args[1]));
            assert(visit::expr_visits(w) == seq![w] + visit::expr_visits(args[1]));
            lemma_one_attr("..."@, w);
        }
    }
    if args.len() >= 3 {
        lemma_argument(args, 2);
        lemma_one_attr("key"@, args[2]);
    }
}

proof fn lemma_arg_children(args: Seq<Expr>, m: bool)
    requires
        done(visit::exprs_visits(args)),
    ensures
        done(visit::exprs_visits(lower::arg_children(args, m))),
{
    if m {
        if args.len() >= 2 {
            lemma_argument(args, 1);
            if let Expr::Object { properties } = args[1] {
                lemma_inside(args[1], visit::props_visits(properties));
                lemma_prop_children(properties);
            }
        }
    } else {
        let t = lower::arg_children(args, m);
        assert forall|i: int| 0 <= i < t.len() implies done(
            visit::expr_visits(#[trigger] t[i]),
        ) by {
            lemma_argument(args, i + 2);
        }
        lemma_some(t);
    }
}

proof fn lemma_lowered(callee: Expr, args: Seq<Expr>)
    requires
        done(visit::expr_visits(callee)),
        done(visit::exprs_visits(args)),
    ensures
        done(visit::expr_visits(lower::lowered(callee, args))),
{
    let f = lower::lowered(callee, args);
    if props_laws::makes_elements(callee) {
        props_laws::lemma_factories_make_elements(callee);
    }
    if lower::jsx_callee(callee) && args.len() > 0 && lower::tag(args[0]) is Some {
        let m = lower::modern(callee);
        let key = if m {
            lower::key_attr(args)
        } else {
            Seq::empty()
        };
        let attributes = key + lower::arg_attrs(args, m);
        let children = lower::arg_children(args, m);
        lemma_arg_attrs(args, m);
        lemma_arg_children(args, m);
        lemma_attrs_joined(key, lower::arg_attrs(args, m));
        lemma_two(visit::attrs_visits(attributes), visit::exprs_visits(children));
        lemma_node(f, visit::attrs_visits(attributes) + visit::exprs_visits(children));
    } else {
        lemma_two(visit::expr_visits(callee), visit::exprs_visits(args));
        assert(!makes_element(f));
        lemma_node(f, visit::expr_visits(callee) + visit::exprs_visits(args));
    }
}

/// Lowering leaves no call that makes an element, at any depth.
pub proof fn lemma_no_element_is_left(e: Expr)
    ensures
        done(visit::expr_visits(lower::low_expr(e))),
    decreases e,
{
    let f = lower::low_expr(e);
    match e {
        Expr::Call { callee, arguments } => {
            lemma_no_element_is_left(*callee);
            lemma_exprs(arguments);
            lemma_lowered(lower::low_expr(*callee), lower::low_exprs(arguments));
        },
        Expr::Binary { left, right, .. } => {
            lemma_no_element_is_left(*left);
            let a = visit::expr_visits(lower::low_expr(*left));
            lemma_no_element_is_left(*right);
            let b = visit::expr_visits(lower::low_expr(*right));
            lemma_two(a, b);
            lemma_node(f, a + b);
        },
        Expr::Unary { operand, .. } => {
            lemma_no_element_is_left(*operand);
            let a = visit::expr_visits(lower::low_expr(*operand));
            lemma_node(f, a);
        },
        Expr::Conditional { condition, then_expr, else_expr } => {
            lemma_no_element_is_left(*condition);
            let a = visit::expr_visits(lower::low_expr(*condition));
            lemma_no_element_is_left(*then_expr);
            let b = visit::expr_visits(lower::low_expr(*then_expr));
            lemma_no_element_is_left(*else_expr);
            let c = visit::expr_visits(lower::low_expr(*else_expr));
            lemma_two(a, b);
            lemma_two(a + b, c);
            lemma_node(f, a + b + c);
        },
        Expr::Member { object, property, .. } => {
            lemma_no_element_is_left(*object);
            let a = visit::expr_visits(lower::low_expr(*object));
            lemma_key(property);
            let b = visit::key_visits(lower::low_key(property));
            lemma_two(a, b);
            lemma_node(f, a + b);
        },
        Expr::New { callee, arguments } => {
            lemma_no_element_is_left(*callee);
            let a = visit::expr_visits(lower::low_expr(*callee));
            lemma_exprs(arguments);
            let b = visit::exprs_visits(lower::low_exprs(arguments));
            lemma_two(a, b);
            lemma_node(f, a + b);
        },
        Expr::Array { elements } => {
            lemma_elements(elements);
            let a = visit::elements_visits(lower::low_elements(elements));
            lemma_node(f, a);
        },
        Expr::Object { properties } => {
            lemma_props(properties);
            let a = visit::props_visits(lower::low_props(properties));
            lemma_node(f, a);
        },
        Expr::Assignment { target, value } => {
            lemma_no_element_is_left(*target);
            let a = visit::expr_visits(lower::low_expr(*target));
            lemma_no_element_is_left(*value);
            let b = visit::expr_visits(lower::low_expr(*value));
            lemma_two(a, b);
            lemma_node(f, a + b);
        },
        Expr::Spread(v) => {
            lemma_no_element_is_left(*v);
            let a = visit::expr_visits(lower::low_expr(*v));
            lemma_node(f, a);
        },
        Expr::TemplateLiteral { expressions, .. } => {
            lemma_exprs(expressions);
            let a = visit::exprs_visits(lower::low_exprs(expressions));
            lemma_node(f, a);
        },
        Expr::Yield { value, .. } => {
            lemma_no_element_is_left(*value);
            let a = visit::expr_visits(lower::low_expr(*value));
            lemma_node(f, a);
        },
        Expr::Await(v) => {
            lemma_no_element_is_left(*v);
            let a = visit::expr_visits(lower::low_expr(*v));
            lemma_node(f, a);
        },
        Expr::JSXElement { attributes, children, .. } => {
            lemma_attrs(attributes);
            let a = visit::attrs_visits(lower::low_attrs(attributes));
            lemma_exprs(children);
            let b = visit::exprs_visits(lower::low_exprs(children));
            lemma_two(a, b);
            lemma_node(f, a + b);
        },
        _ => {
            lemma_node(f, Seq::empty());
        },
    }
}

proof fn lemma_key(k: Key)
    ensures
        done(visit::key_visits(lower::low_key(k))),
    decreases k,
{
    if let Key::Computed(e) = k {
        lemma_no_element_is_left(*e);
    }
}

proof fn lemma_opt_expr(o: Option<Expr>)
    ensures
        done(visit::opt_expr_visits(lower::low_opt_expr(o))),
    decreases o,
{
    if let Some(e) = o {
        lemma_no_element_is_left(e);
    }
}

proof fn lemma_prop(p: Prop)
    ensures
        done(visit::key_visits(lower::low_prop(p).key)),
        done(visit::expr_visits(lower::low_prop(p).value)),
    decreases p,
{
    lemma_key(p.key);
    lemma_no_element_is_left(p.value);
}

proof fn lemma_attr(a: (Seq<char>, Expr))
    ensures
        done(visit::expr_visits(lower::low_attr(a).1)),
    decreases a,
{
    lemma_no_element_is_left(a.1);
}

proof fn lemma_exprs(s: Seq<Expr>)
    ensures
        done(visit::exprs_visits(lower::low_exprs(s))),
    decreases s,
{
    if s.len() > 0 {
        let t = lower::low_exprs(s);
        lemma_exprs(s.drop_last());
        assert(t.drop_last() =~= lower::low_exprs(s.drop_last()));
        assert(t.last() == lower::low_expr(s.last()));
        lemma_no_element_is_left(s.last());
        lemma_two(visit::exprs_visits(t.drop_last()), visit::expr_visits(t.last()));
    }
}

proof fn lemma_elements(s: Seq<Option<Expr>>)
    ensures
        done(visit::elements_visits(lower::low_elements(s))),
    decreases s,
{
    if s.len() > 0 {
        let t = lower::low_elements(s);
        lemma_elements(s.drop_last());
        assert(t.drop_last() =~= lower::low_elements(s.drop_last()));
        assert(t.last() == lower::low_opt_expr(s.last()));
        lemma_opt_expr(s.last());
        lemma_two(visit::elements_visits(t.drop_last()), visit::opt_expr_visits(t.last()));
    }
}

proof fn lemma_attrs(s: Seq<(Seq<char>, Expr)>)
    ensures
        done(visit::attrs_visits(lower::low_attrs(s))),
    decreases s,
{
    if s.len() > 0 {
        let t = lower::low_attrs(s);
        lemma_attrs(s.drop_last());
        assert(t.drop_last() =~= lower::low_attrs(s.drop_last()));
        assert(t.last() == lower::low_attr(s.last()));
        lemma_attr(s.last());
        lemma_two(visit::attrs_visits(t.drop_last()), visit::expr_visits(t.last().1));
    }
}

proof fn lemma_props(s: Seq<Prop>)
    ensures
        done(visit::props_visits(lower::low_props(s))),
    decreases s,
{
    if s.len() > 0 {
        let t = lower::low_props(s);
        lemma_props(s.drop_last());
        assert(t.drop_last() =~= lower::low_props(s.drop_last()));
        assert(t.last() == lower::low_prop(s.last()));
        lemma_prop(s.last());
        let a = visit::props_visits(t.drop_last());
        let b = visit::key_visits(t.last().key);
        lemma_two(a, b);
        lemma_two(a + b, visit::expr_visits(t.last().value));
    }
}

} // verus!
