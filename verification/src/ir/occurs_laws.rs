//! What occurs in an expression as used are its leaves.

use super::bodies;
use super::leaves;
use super::model::{Expr, Key, Prop, Stmt, Target, Val};
use super::occurs;
use super::occurs::Atom;
use super::visit;
use vstd::prelude::*;

verus! {

/// The leaves that occurrences use, in order.
pub open spec fn used(s: Seq<Atom>) -> Seq<Val>
    decreases s.len(),
{
    if s.len() == 0 {
        Seq::empty()
    } else {
        used(s.drop_last()) + match s.last() {
            Atom::Use(v) => seq![v],
            _ => Seq::empty(),
        }
    }
}

/// Whether occurrences use the leaves of some expressions.
pub open spec fn agree(a: Seq<Atom>, x: Seq<Expr>) -> bool {
    used(a) == leaves::leaves_in(x)
}

proof fn lemma_used_join(s: Seq<Atom>, t: Seq<Atom>)
    ensures
        used(s + t) == used(s) + used(t),
    decreases t.len(),
{
    if t.len() == 0 {
        assert(s + t =~= s);
    } else {
        lemma_used_join(s, t.drop_last());
        assert((s + t).drop_last() =~= s + t.drop_last());
    }
}

proof fn lemma_two(a: Seq<Atom>, b: Seq<Atom>, x: Seq<Expr>, y: Seq<Expr>)
    requires
        agree(a, x),
        agree(b, y),
    ensures
        agree(a + b, x + y),
{
    lemma_used_join(a, b);
    leaves::lemma_leaves_join(x, y);
}

proof fn lemma_none()
    ensures
        agree(Seq::empty(), Seq::empty()),
{
    assert(used(Seq::<Atom>::empty()) =~= Seq::<Val>::empty());
    assert(leaves::leaves_in(Seq::<Expr>::empty()) =~= Seq::<Val>::empty());
}

/// What is no use of a leaf adds none.
proof fn lemma_other(a: Atom)
    requires
        !(a is Use),
    ensures
        agree(seq![a], Seq::empty()),
{
    lemma_none();
    assert(seq![a].drop_last() =~= Seq::<Atom>::empty());
    assert(used(seq![a]) =~= Seq::<Val>::empty());
}

proof fn lemma_others(s: Seq<Seq<char>>)
    ensures
        agree(occurs::names_atoms(s), Seq::empty()),
    decreases s.len(),
{
    lemma_none();
    let none = Seq::<Expr>::empty();
    if s.len() > 0 {
        lemma_others(s.drop_last());
        lemma_other(Atom::Name(s.last()));
        lemma_two(occurs::names_atoms(s.drop_last()), seq![Atom::Name(s.last())], none, none);
        assert(none + none =~= none);
    }
}

/// An expression that is no leaf has the leaves of its parts.
proof fn lemma_node(e: Expr, a: Seq<Atom>, x: Seq<Expr>)
    requires
        !(e is Value),
        agree(a, x),
    ensures
        agree(a, seq![e] + x),
{
    lemma_none();
    assert(seq![e].drop_last() =~= Seq::<Expr>::empty());
    assert(leaves::leaves_in(seq![e]) =~= Seq::<Val>::empty());
    leaves::lemma_leaves_join(seq![e], x);
    assert(leaves::leaves_in(seq![e]) + leaves::leaves_in(x) =~= leaves::leaves_in(x));
}

/// An expression uses its leaves, at any depth, in order, and nothing else.
pub proof fn lemma_uses_are_the_leaves(e: Expr)
    ensures
        agree(occurs::expr_atoms(e), visit::expr_visits(e)),
    decreases e,
{
    let none = Seq::<Expr>::empty();
    let nothing = Seq::<Atom>::empty();
    lemma_none();
    match e {
        Expr::Value(v) => {
            leaves::lemma_one(v);
            assert(seq![Atom::Use(v)].drop_last() =~= nothing);
            assert(used(seq![Atom::Use(v)]) =~= seq![v]);
            assert(visit::expr_visits(e) =~= seq![e]);
        },
        Expr::Binary { left, right, .. } => {
            lemma_uses_are_the_leaves(*left);
            let a = occurs::expr_atoms(*left);
            let x = visit::expr_visits(*left);
            lemma_uses_are_the_leaves(*right);
            let b = occurs::expr_atoms(*right);
            let y = visit::expr_visits(*right);
            lemma_two(a, b, x, y);
            lemma_node(e, a + b, x + y);
        },
        Expr::Unary { operand, .. } => {
            lemma_uses_are_the_leaves(*operand);
            let a = occurs::expr_atoms(*operand);
            let x = visit::expr_visits(*operand);
            lemma_node(e, a, x);
        },
        Expr::Conditional { condition, then_expr, else_expr } => {
            lemma_uses_are_the_leaves(*condition);
            let a = occurs::expr_atoms(*condition);
            let x = visit::expr_visits(*condition);
            lemma_uses_are_the_leaves(*then_expr);
            let b = occurs::expr_atoms(*then_expr);
            let y = visit::expr_visits(*then_expr);
            lemma_uses_are_the_leaves(*else_expr);
            let c = occurs::expr_atoms(*else_expr);
            let z = visit::expr_visits(*else_expr);
            lemma_two(a, b, x, y);
            lemma_two(a + b, c, x + y, z);
            lemma_node(e, a + b + c, x + y + z);
        },
        Expr::Member { object, property, .. } => {
            lemma_uses_are_the_leaves(*object);
            let a = occurs::expr_atoms(*object);
            let x = visit::expr_visits(*object);
            lemma_key(property);
            let b = occurs::key_atoms(property);
            let y = visit::key_visits(property);
            lemma_two(a, b, x, y);
            lemma_node(e, a + b, x + y);
        },
        Expr::Call { callee, arguments } => {
            lemma_uses_are_the_leaves(*callee);
            let a = occurs::expr_atoms(*callee);
            let x = visit::expr_visits(*callee);
            lemma_exprs(arguments);
            let b = occurs::exprs_atoms(arguments);
            let y = visit::exprs_visits(arguments);
            lemma_two(a, b, x, y);
            lemma_node(e, a + b, x + y);
        },
        Expr::New { callee, arguments } => {
            lemma_uses_are_the_leaves(*callee);
            let a = occurs::expr_atoms(*callee);
            let x = visit::expr_visits(*callee);
            lemma_exprs(arguments);
            let b = occurs::exprs_atoms(arguments);
            let y = visit::exprs_visits(arguments);
            lemma_two(a, b, x, y);
            lemma_node(e, a + b, x + y);
        },
        Expr::Array { elements } => {
            lemma_elements(elements);
            let a = occurs::elements_atoms(elements);
            let x = visit::elements_visits(elements);
            lemma_node(e, a, x);
        },
        Expr::Object { properties } => {
            lemma_props(properties);
            let a = occurs::props_atoms(properties);
            let x = visit::props_visits(properties);
            lemma_node(e, a, x);
        },
        Expr::Assignment { target, value } => {
            lemma_uses_are_the_leaves(*target);
            let a = occurs::expr_atoms(*target);
            let x = visit::expr_visits(*target);
            lemma_uses_are_the_leaves(*value);
            let b = occurs::expr_atoms(*value);
            let y = visit::expr_visits(*value);
            lemma_two(a, b, x, y);
            lemma_node(e, a + b, x + y);
        },
        Expr::Spread(v) => {
            lemma_uses_are_the_leaves(*v);
            let a = occurs::expr_atoms(*v);
            let x = visit::expr_visits(*v);
            lemma_node(e, a, x);
        },
        Expr::Await(v) => {
            lemma_uses_are_the_leaves(*v);
            let a = occurs::expr_atoms(*v);
            let x = visit::expr_visits(*v);
            lemma_node(e, a, x);
        },
        Expr::Function { id, name, .. } => {
            lemma_other(Atom::Function(id));
            if let Some(n) = name {
                lemma_other(Atom::Name(n));
            }
            lemma_two(seq![Atom::Function(id)], occurs::opt_name_atoms(name), none, none);
            assert(none + none =~= none);
            lemma_node(e, seq![Atom::Function(id)] + occurs::opt_name_atoms(name), none);
        },
        Expr::TemplateLiteral { quasis, expressions } => {
            lemma_others(quasis);
            lemma_exprs(expressions);
            let x = visit::exprs_visits(expressions);
            lemma_two(occurs::names_atoms(quasis), occurs::exprs_atoms(expressions), none, x);
            assert(none + x =~= x);
            lemma_node(e, occurs::names_atoms(quasis) + occurs::exprs_atoms(expressions), x);
        },
        Expr::RegExp { pattern, flags } => {
            lemma_other(Atom::Name(pattern));
            lemma_other(Atom::Name(flags));
            lemma_two(seq![Atom::Name(pattern)], seq![Atom::Name(flags)], none, none);
            assert(none + none =~= none);
            lemma_node(e, seq![Atom::Name(pattern)] + seq![Atom::Name(flags)], none);
        },
        Expr::Yield { value, .. } => {
            lemma_uses_are_the_leaves(*value);
            lemma_other(Atom::Yield);
            let x = visit::expr_visits(*value);
            lemma_two(seq![Atom::Yield], occurs::expr_atoms(*value), none, x);
            assert(none + x =~= x);
            lemma_node(e, seq![Atom::Yield] + occurs::expr_atoms(*value), x);
        },
        Expr::JSXElement { tag, attributes, children } => {
            lemma_attrs(attributes);
            lemma_exprs(children);
            lemma_other(Atom::Name(tag));
            let a = seq![Atom::Name(tag)];
            let b = occurs::attrs_atoms(attributes);
            let c = occurs::exprs_atoms(children);
            let y = visit::attrs_visits(attributes);
            let z = visit::exprs_visits(children);
            lemma_two(a, b, none, y);
            assert(none + y =~= y);
            lemma_two(a + b, c, y, z);
            lemma_node(e, a + b + c, y + z);
        },
        Expr::Unknown { opcode, operands } => {
            lemma_other(Atom::Name(opcode));
            lemma_others(operands);
            lemma_two(seq![Atom::Name(opcode)], occurs::names_atoms(operands), none, none);
            assert(none + none =~= none);
            lemma_node(e, seq![Atom::Name(opcode)] + occurs::names_atoms(operands), none);
        },
    }
}

proof fn lemma_key(k: Key)
    ensures
        agree(occurs::key_atoms(k), visit::key_visits(k)),
    decreases k,
{
    lemma_none();
    match k {
        Key::Ident(n) => lemma_other(Atom::Name(n)),
        Key::String(n) => lemma_other(Atom::Name(n)),
        Key::Index(_) => {},
        Key::Computed(e) => lemma_uses_are_the_leaves(*e),
    }
}

proof fn lemma_opt_expr(o: Option<Expr>)
    ensures
        agree(occurs::opt_expr_atoms(o), visit::opt_expr_visits(o)),
    decreases o,
{
    lemma_none();
    if let Some(e) = o {
        lemma_uses_are_the_leaves(e);
    }
}

proof fn lemma_exprs(s: Seq<Expr>)
    ensures
        agree(occurs::exprs_atoms(s), visit::exprs_visits(s)),
    decreases s,
{
    lemma_none();
    if s.len() > 0 {
        let d = s.drop_last();
        lemma_exprs(d);
        lemma_uses_are_the_leaves(s.last());
        lemma_two(
            occurs::exprs_atoms(d),
            occurs::expr_atoms(s.last()),
            visit::exprs_visits(d),
            visit::expr_visits(s.last()),
        );
    }
}

proof fn lemma_elements(s: Seq<Option<Expr>>)
    ensures
        agree(occurs::elements_atoms(s), visit::elements_visits(s)),
    decreases s,
{
    lemma_none();
    if s.len() > 0 {
        let d = s.drop_last();
        lemma_elements(d);
        lemma_opt_expr(s.last());
        lemma_two(
            occurs::elements_atoms(d),
            occurs::opt_expr_atoms(s.last()),
            visit::elements_visits(d),
            visit::opt_expr_visits(s.last()),
        );
    }
}

proof fn lemma_prop(p: Prop)
    ensures
        agree(occurs::key_atoms(p.key), visit::key_visits(p.key)),
        agree(occurs::expr_atoms(p.value), visit::expr_visits(p.value)),
    decreases p,
{
    lemma_key(p.key);
    lemma_uses_are_the_leaves(p.value);
}

proof fn lemma_props(s: Seq<Prop>)
    ensures
        agree(occurs::props_atoms(s), visit::props_visits(s)),
    decreases s,
{
    lemma_none();
    if s.len() > 0 {
        let d = s.drop_last();
        lemma_props(d);
        lemma_prop(s.last());
        let a = occurs::props_atoms(d);
        let b = occurs::key_atoms(s.last().key);
        let x = visit::props_visits(d);
        let y = visit::key_visits(s.last().key);
        lemma_two(a, b, x, y);
        lemma_two(
            a + b,
            occurs::expr_atoms(s.last().value),
            x + y,
            visit::expr_visits(s.last().value),
        );
    }
}

proof fn lemma_attr(a: (Seq<char>, Expr))
    ensures
        agree(occurs::expr_atoms(a.1), visit::expr_visits(a.1)),
    decreases a,
{
    lemma_uses_are_the_leaves(a.1);
}

proof fn lemma_attrs(s: Seq<(Seq<char>, Expr)>)
    ensures
        agree(occurs::attrs_atoms(s), visit::attrs_visits(s)),
    decreases s,
{
    lemma_none();
    if s.len() > 0 {
        let d = s.drop_last();
        lemma_attrs(d);
        lemma_attr(s.last());
        lemma_other(Atom::Name(s.last().0));
        let a = occurs::attrs_atoms(d);
        let b = seq![Atom::Name(s.last().0)];
        let x = visit::attrs_visits(d);
        let none = Seq::<Expr>::empty();
        lemma_two(a, b, x, none);
        assert(x + none =~= x);
        lemma_two(a + b, occurs::expr_atoms(s.last().1), x, visit::expr_visits(s.last().1));
    }
}

/// A statement without lists uses its leaves, in order, and nothing else. What it binds is no use.
pub proof fn lemma_statement_uses_are_the_leaves(s: Stmt)
    requires
        bodies::bodies(s).len() == 0,
        !(s is Class || s is Switch),
        s matches Stmt::Assign { target, .. } ==> target is Register || target is Variable
            || target is Member || target is Index,
    ensures
        agree(occurs::stmt_atoms(s), visit::stmt_visits(s)),
{
    let none = Seq::<Expr>::empty();
    lemma_none();
    match s {
        Stmt::Expr(e) => lemma_uses_are_the_leaves(e),
        Stmt::Let { name, value, .. } => {
            lemma_uses_are_the_leaves(value);
            lemma_other(Atom::Declare(name));
            let x = visit::expr_visits(value);
            lemma_two(seq![Atom::Declare(name)], occurs::expr_atoms(value), none, x);
            assert(none + x =~= x);
        },
        Stmt::Assign { target, value } => {
            lemma_uses_are_the_leaves(value);
            match target {
                Target::Register(r) => lemma_other(Atom::WriteRegister(r)),
                Target::Variable(n) => lemma_other(Atom::WriteVariable(n)),
                Target::Member { object, property } => {
                    lemma_uses_are_the_leaves(object);
                    lemma_other(Atom::Name(property));
                    let x = visit::expr_visits(object);
                    lemma_two(occurs::expr_atoms(object), seq![Atom::Name(property)], x, none);
                    assert(x + none =~= x);
                },
                Target::Index { object, key } => {
                    lemma_uses_are_the_leaves(object);
                    lemma_uses_are_the_leaves(key);
                    lemma_two(
                        occurs::expr_atoms(object),
                        occurs::expr_atoms(key),
                        visit::expr_visits(object),
                        visit::expr_visits(key),
                    );
                },
                _ => {},
            }
            lemma_two(
                occurs::target_atoms(target),
                occurs::expr_atoms(value),
                visit::target_visits(target),
                visit::expr_visits(value),
            );
        },
        Stmt::Return(e) => lemma_opt_expr(e),
        Stmt::Throw(e) => lemma_uses_are_the_leaves(e),
        Stmt::Comment(c) => lemma_other(Atom::Name(c)),
        Stmt::Break(l) => {
            if let Some(n) = l {
                lemma_other(Atom::Name(n));
            }
        },
        Stmt::Continue(l) => {
            if let Some(n) = l {
                lemma_other(Atom::Name(n));
            }
        },
        _ => {},
    }
}

} // verus!
