//! An expression has side effects where a part of it acts.

use super::effects;
use super::model::{Expr, Key, Prop};
use super::visit;
use super::UnaryOp;
use vstd::prelude::*;

verus! {

/// Whether an expression acts by itself, whatever its operands do.
pub open spec fn acts(e: Expr) -> bool {
    match e {
        Expr::Call { .. } => true,
        Expr::New { .. } => true,
        Expr::Assignment { .. } => true,
        Expr::Yield { .. } => true,
        Expr::Await(_) => true,
        Expr::Unknown { .. } => true,
        Expr::Unary { op, .. } => op == UnaryOp::Delete,
        _ => false,
    }
}

/// Whether one of some expressions acts.
pub open spec fn any_acts(s: Seq<Expr>) -> bool {
    exists|i: int| 0 <= i < s.len() && acts(#[trigger] s[i])
}

proof fn lemma_join(s: Seq<Expr>, t: Seq<Expr>)
    ensures
        any_acts(s + t) == (any_acts(s) || any_acts(t)),
{
    if any_acts(s + t) {
        let i = choose|i: int| 0 <= i < (s + t).len() && acts(#[trigger] (s + t)[i]);
        if i < s.len() {
            assert(acts(s[i]));
        } else {
            assert(acts(t[i - s.len()]));
        }
    }
    if any_acts(s) {
        let i = choose|i: int| 0 <= i < s.len() && acts(#[trigger] s[i]);
        assert((s + t)[i] == s[i]);
    }
    if any_acts(t) {
        let i = choose|i: int| 0 <= i < t.len() && acts(#[trigger] t[i]);
        assert((s + t)[s.len() + i] == t[i]);
    }
}

proof fn lemma_one(e: Expr)
    ensures
        any_acts(seq![e]) == acts(e),
{
    if acts(e) {
        assert(acts(seq![e][0]));
    }
}

/// An expression has side effects if and only if some expression in it calls, constructs, assigns,
/// deletes, suspends or is not understood.
pub proof fn lemma_effects_are_the_acting_parts(e: Expr)
    ensures
        effects::effects(e) == any_acts(visit::expr_visits(e)),
    decreases e,
{
    let none = Seq::<Expr>::empty();
    assert(!any_acts(none));
    lemma_one(e);
    match e {
        Expr::Binary { left, right, .. } => {
            lemma_effects_are_the_acting_parts(*left);
            lemma_effects_are_the_acting_parts(*right);
            let l = visit::expr_visits(*left);
            let r = visit::expr_visits(*right);
            lemma_join(l, r);
            lemma_join(seq![e], l + r);
        },
        Expr::Unary { operand, .. } => {
            lemma_effects_are_the_acting_parts(*operand);
            lemma_join(seq![e], visit::expr_visits(*operand));
        },
        Expr::Conditional { condition, then_expr, else_expr } => {
            lemma_effects_are_the_acting_parts(*condition);
            lemma_effects_are_the_acting_parts(*then_expr);
            lemma_effects_are_the_acting_parts(*else_expr);
            let a = visit::expr_visits(*condition);
            let b = visit::expr_visits(*then_expr);
            let c = visit::expr_visits(*else_expr);
            lemma_join(a, b);
            lemma_join(a + b, c);
            lemma_join(seq![e], a + b + c);
        },
        Expr::Member { object, property, .. } => {
            lemma_effects_are_the_acting_parts(*object);
            lemma_key(property);
            let a = visit::expr_visits(*object);
            let b = visit::key_visits(property);
            lemma_join(a, b);
            lemma_join(seq![e], a + b);
        },
        Expr::Call { callee, arguments } => {
            lemma_join(
                seq![e],
                visit::expr_visits(*callee) + visit::exprs_visits(arguments),
            );
        },
        Expr::New { callee, arguments } => {
            lemma_join(
                seq![e],
                visit::expr_visits(*callee) + visit::exprs_visits(arguments),
            );
        },
        Expr::Array { elements } => {
            lemma_elements(elements);
            lemma_join(seq![e], visit::elements_visits(elements));
        },
        Expr::Object { properties } => {
            lemma_props(properties);
            lemma_join(seq![e], visit::props_visits(properties));
        },
        Expr::Assignment { target, value } => {
            lemma_join(seq![e], visit::expr_visits(*target) + visit::expr_visits(*value));
        },
        Expr::Spread(x) => {
            lemma_effects_are_the_acting_parts(*x);
            lemma_join(seq![e], visit::expr_visits(*x));
        },
        Expr::TemplateLiteral { expressions, .. } => {
            lemma_list(expressions);
            lemma_join(seq![e], visit::exprs_visits(expressions));
        },
        Expr::Yield { value, .. } => {
            lemma_join(seq![e], visit::expr_visits(*value));
        },
        Expr::Await(x) => {
            lemma_join(seq![e], visit::expr_visits(*x));
        },
        Expr::JSXElement { attributes, children, .. } => {
            lemma_attrs(attributes);
            lemma_list(children);
            let a = visit::attrs_visits(attributes);
            let b = visit::exprs_visits(children);
            lemma_join(a, b);
            lemma_join(seq![e], a + b);
        },
        _ => {
            lemma_join(seq![e], none);
        },
    }
}

proof fn lemma_key(k: Key)
    ensures
        effects::key_effects(k) == any_acts(visit::key_visits(k)),
    decreases k,
{
    if let Key::Computed(x) = k {
        lemma_effects_are_the_acting_parts(*x);
    }
}

proof fn lemma_element(o: Option<Expr>)
    ensures
        effects::opt_effects(o) == any_acts(visit::opt_expr_visits(o)),
    decreases o,
{
    if let Some(x) = o {
        lemma_effects_are_the_acting_parts(x);
    }
}

proof fn lemma_prop(p: Prop)
    ensures
        effects::prop_effects(p) == (any_acts(visit::key_visits(p.key)) || any_acts(
            visit::expr_visits(p.value),
        )),
    decreases p,
{
    lemma_key(p.key);
    lemma_effects_are_the_acting_parts(p.value);
}

proof fn lemma_attr(a: (Seq<char>, Expr))
    ensures
        effects::effects(a.1) == any_acts(visit::expr_visits(a.1)),
    decreases a,
{
    lemma_effects_are_the_acting_parts(a.1);
}

proof fn lemma_list(s: Seq<Expr>)
    ensures
        effects::list_effects(s) == any_acts(visit::exprs_visits(s)),
    decreases s,
{
    if s.len() > 0 {
        let d = s.drop_last();
        lemma_list(d);
        lemma_effects_are_the_acting_parts(s.last());
        lemma_join(visit::exprs_visits(d), visit::expr_visits(s.last()));
        if effects::list_effects(s) {
            let i = choose|i: int| 0 <= i < s.len() && effects::effects(#[trigger] s[i]);
            if i < d.len() {
                assert(effects::effects(d[i]));
            }
        }
        if effects::list_effects(d) {
            let i = choose|i: int| 0 <= i < d.len() && effects::effects(#[trigger] d[i]);
            assert(effects::effects(s[i]));
        }
        if effects::effects(s.last()) {
            assert(effects::effects(s[s.len() - 1]));
        }
    }
}

proof fn lemma_elements(s: Seq<Option<Expr>>)
    ensures
        effects::elements_effects(s) == any_acts(visit::elements_visits(s)),
    decreases s,
{
    if s.len() > 0 {
        let d = s.drop_last();
        lemma_elements(d);
        lemma_element(s.last());
        lemma_join(visit::elements_visits(d), visit::opt_expr_visits(s.last()));
        if effects::elements_effects(s) {
            let i = choose|i: int| 0 <= i < s.len() && effects::opt_effects(#[trigger] s[i]);
            if i < d.len() {
                assert(effects::opt_effects(d[i]));
            }
        }
        if effects::elements_effects(d) {
            let i = choose|i: int| 0 <= i < d.len() && effects::opt_effects(#[trigger] d[i]);
            assert(effects::opt_effects(s[i]));
        }
        if effects::opt_effects(s.last()) {
            assert(effects::opt_effects(s[s.len() - 1]));
        }
    }
}

proof fn lemma_props(s: Seq<Prop>)
    ensures
        effects::props_effects(s) == any_acts(visit::props_visits(s)),
    decreases s,
{
    if s.len() > 0 {
        let d = s.drop_last();
        lemma_props(d);
        lemma_prop(s.last());
        let k = visit::key_visits(s.last().key);
        lemma_join(visit::props_visits(d), k);
        lemma_join(visit::props_visits(d) + k, visit::expr_visits(s.last().value));
        if effects::props_effects(s) {
            let i = choose|i: int| 0 <= i < s.len() && effects::prop_effects(#[trigger] s[i]);
            if i < d.len() {
                assert(effects::prop_effects(d[i]));
            }
        }
        if effects::props_effects(d) {
            let i = choose|i: int| 0 <= i < d.len() && effects::prop_effects(#[trigger] d[i]);
            assert(effects::prop_effects(s[i]));
        }
        if effects::prop_effects(s.last()) {
            assert(effects::prop_effects(s[s.len() - 1]));
        }
    }
}

proof fn lemma_attrs(s: Seq<(Seq<char>, Expr)>)
    ensures
        effects::attrs_effects(s) == any_acts(visit::attrs_visits(s)),
    decreases s,
{
    if s.len() > 0 {
        let d = s.drop_last();
        lemma_attrs(d);
        lemma_attr(s.last());
        lemma_join(visit::attrs_visits(d), visit::expr_visits(s.last().1));
        if effects::attrs_effects(s) {
            let i = choose|i: int| 0 <= i < s.len() && effects::effects((#[trigger] s[i]).1);
            if i < d.len() {
                assert(effects::effects(d[i].1));
            }
        }
        if effects::attrs_effects(d) {
            let i = choose|i: int| 0 <= i < d.len() && effects::effects((#[trigger] d[i]).1);
            assert(effects::effects(s[i].1));
        }
        if effects::effects(s.last().1) {
            assert(effects::effects(s[s.len() - 1].1));
        }
    }
}

} // verus!
