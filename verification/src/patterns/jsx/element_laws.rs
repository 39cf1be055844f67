//! What an element says of the factory call that it stands for.

use super::lower;
use crate::ir::model::{Const, Expr, Key, Prop, Val};
use crate::text;
use vstd::prelude::*;

verus! {

/// The component that a tag names, read back as an expression: a name, or a path of two names with
/// a dot between them.
pub open spec fn component(tag: Seq<char>) -> Expr {
    if tag.contains('.') {
        let i = tag.index_of_first('.')->0;
        Expr::Member {
            object: Box::new(Expr::Value(Val::Variable(tag.take(i)))),
            property: Key::Ident(tag.skip(i + 1)),
            optional: false,
        }
    } else {
        Expr::Value(Val::Variable(tag))
    }
}

/// An expression as a tag can name it: a string stands for the name that it holds, and a member is
/// named whether or not its access is optional.
pub open spec fn nameable(e: Expr) -> Expr {
    match e {
        Expr::Value(Val::Constant(Const::String(s))) => Expr::Value(Val::Variable(s)),
        Expr::Member { object, property, .. } => Expr::Member { object, property, optional: false },
        _ => e,
    }
}

/// Whether the name that an expression starts with is a single word.
pub open spec fn starts_with_word(e: Expr) -> bool {
    match e {
        Expr::Value(Val::Constant(Const::String(s))) => !s.contains('.'),
        Expr::Value(Val::Variable(n)) => !n.contains('.'),
        Expr::Member { object, .. } => match *object {
            Expr::Value(Val::Variable(n)) => !n.contains('.'),
            _ => true,
        },
        _ => true,
    }
}

/// A name that stands for a fragment.
pub open spec fn names_fragment(tag: Seq<char>) -> bool {
    ||| tag == "Fragment"@
    ||| tag == "_Fragment"@
    ||| text::has_suffix(tag, ".Fragment"@)
}

/// A tag read back as an expression is the component that the factory was given.
pub proof fn lemma_tag_names_the_component(e: Expr)
    requires
        starts_with_word(e),
    ensures
        lower::tag(e) matches Some(t) ==> component(t) == nameable(e),
{
    reveal_strlit(".");
    assert("."@ =~= seq!['.']);
    match e {
        Expr::Member { object, property, .. } => match (*object, property) {
            (Expr::Value(Val::Variable(o)), Key::Ident(p)) => {
                let t = lower::tag(e)->0;
                if lower::tag(e) is Some && t == o + "."@ + p {
                    assert(t[o.len() as int] == '.');
                    assert(t.contains('.'));
                    t.index_of_first_ensures('.');
                    let i = t.index_of_first('.')->0;
                    assert(i == o.len()) by {
                        if i < o.len() {
                            assert(o[i] == t[i]);
                            assert(o.contains('.'));
                        }
                    }
                    assert(t.take(i) =~= o);
                    assert(t.skip(i + 1) =~= p);
                }
            },
            _ => {},
        },
        _ => {},
    }
}

/// Every name, every string and every member of a name is a component with a tag.
pub proof fn lemma_names_have_tags(e: Expr)
    ensures
        match e {
            Expr::Value(Val::Constant(Const::String(_))) => lower::tag(e) is Some,
            Expr::Value(Val::Variable(_)) => lower::tag(e) is Some,
            Expr::Member { object, property: Key::Ident(_), .. } => (*object matches Expr::Value(
                Val::Variable(_),
            )) ==> lower::tag(e) is Some,
            _ => lower::tag(e) is None,
        },
{
}

/// The element that a factory call makes names the component that the call was given; a fragment
/// has no tag.
pub proof fn lemma_element_names_its_component(callee: Expr, args: Seq<Expr>)
    requires
        args.len() > 0,
        lower::jsx_callee(callee),
        starts_with_word(args[0]),
    ensures
        lower::lowered(callee, args) matches Expr::JSXElement { tag, .. } ==> if tag.len() > 0 {
            component(tag) == nameable(args[0]) && !names_fragment(tag)
        } else {
            lower::tag(args[0]) matches Some(t) && component(t) == nameable(args[0]) && (
            names_fragment(t) || t.len() == 0)
        },
        lower::tag(args[0]) is Some ==> lower::lowered(callee, args) is JSXElement,
        lower::tag(args[0]) is None ==> lower::lowered(callee, args) == (Expr::Call {
            callee: Box::new(callee),
            arguments: args,
        }),
{
    lemma_tag_names_the_component(args[0]);
}

/// The name of a property that has one.
pub open spec fn named(p: Prop) -> Option<Seq<char>> {
    match p.key {
        Key::Ident(n) => Some(n),
        Key::String(n) => Some(n),
        _ => None,
    }
}

/// Whether a property is an attribute of an element. In a modern call children are none.
pub open spec fn is_attribute(p: Prop, modern: bool) -> bool {
    named(p) matches Some(n) && !(modern && n == "children"@)
}

/// The number of properties among the first `n` that are attributes.
pub open spec fn attributes_before(ps: Seq<Prop>, modern: bool, n: int) -> int
    decreases n,
{
    if n <= 0 {
        0
    } else if is_attribute(ps[n - 1], modern) {
        attributes_before(ps, modern, n - 1) + 1
    } else {
        attributes_before(ps, modern, n - 1)
    }
}

/// The attributes of a literal are its named properties, in order and with their values, and
/// nothing else.
pub proof fn lemma_attributes_are_the_properties(ps: Seq<Prop>, modern: bool)
    ensures
        ({
            let attrs = lower::prop_attrs(ps, modern);
            &&& attrs.len() == attributes_before(ps, modern, ps.len() as int)
            &&& forall|i: int|
                0 <= i < ps.len() && is_attribute(#[trigger] ps[i], modern) ==> {
                    let k = attributes_before(ps, modern, i);
                    0 <= k < attrs.len() && attrs[k] == (named(ps[i])->0, ps[i].value)
                }
        }),
    decreases ps.len(),
{
    if ps.len() > 0 {
        let rest = ps.drop_last();
        lemma_attributes_are_the_properties(rest, modern);
        lemma_attributes_before(ps, modern, rest.len() as int);
        let attrs = lower::prop_attrs(ps, modern);
        assert forall|i: int| 0 <= i < ps.len() && is_attribute(#[trigger] ps[i], modern) implies {
            let k = attributes_before(ps, modern, i);
            0 <= k < attrs.len() && attrs[k] == (named(ps[i])->0, ps[i].value)
        } by {
            if i < rest.len() {
                assert(rest[i] == ps[i]);
                lemma_attributes_before(ps, modern, i);
                let k = attributes_before(rest, modern, i);
                assert(lower::prop_attrs(rest, modern)[k] == attrs[k]);
            }
        }
    }
}

proof fn lemma_attributes_before(ps: Seq<Prop>, modern: bool, n: int)
    requires
        ps.len() > 0,
        n <= ps.len() - 1,
    ensures
        attributes_before(ps.drop_last(), modern, n) == attributes_before(ps, modern, n),
        attributes_before(ps, modern, n) >= 0,
    decreases n,
{
    if n > 0 {
        lemma_attributes_before(ps, modern, n - 1);
    }
}

/// Whether an expression is a child that a `children` property gives: the property itself, or an
/// element of the list that it holds.
pub open spec fn is_child(ps: Seq<Prop>, x: Expr) -> bool {
    exists|i: int|
        0 <= i < ps.len() && named(#[trigger] ps[i]) == Some("children"@) && given(ps[i].value, x)
}

pub open spec fn given(value: Expr, x: Expr) -> bool {
    match value {
        Expr::Array { elements } => elements.contains(Some(x)),
        _ => value == x,
    }
}

proof fn lemma_present_holds(s: Seq<Option<Expr>>, x: Expr)
    ensures
        lower::present(s).contains(x) <==> s.contains(Some(x)),
    decreases s.len(),
{
    if s.len() > 0 {
        let rest = s.drop_last();
        lemma_present_holds(rest, x);
        let before = lower::present(rest);
        if before.contains(x) {
            let k = choose|k: int| 0 <= k < before.len() && before[k] == x;
            assert(lower::present(s)[k] == x);
        }
        if s.last() == Some(x) {
            assert(lower::present(s)[before.len() as int] == x);
            assert(s[s.len() - 1] == Some(x));
        }
        if rest.contains(Some(x)) {
            let k = choose|k: int| 0 <= k < rest.len() && rest[k] == Some(x);
            assert(s[k] == Some(x));
        }
        if s.contains(Some(x)) && s.last() != Some(x) {
            let k = choose|k: int| 0 <= k < s.len() && s[k] == Some(x);
            assert(rest[k] == Some(x));
        }
        if lower::present(s).contains(x) && s.last() != Some(x) {
            let k = choose|k: int| 0 <= k < lower::present(s).len() && lower::present(s)[k] == x;
            assert(before[k] == x);
        }
    }
}

/// The children of a modern call are what its `children` property gives, and nothing else.
pub proof fn lemma_children_are_given(ps: Seq<Prop>, x: Expr)
    ensures
        lower::prop_children(ps).contains(x) <==> is_child(ps, x),
    decreases ps.len(),
{
    if ps.len() > 0 {
        let rest = ps.drop_last();
        lemma_children_are_given(rest, x);
        let before = lower::prop_children(rest);
        let own = lower::children_of(ps.last().value);
        let all = lower::prop_children(ps);
        assert(own.contains(x) <==> given(ps.last().value, x)) by {
            match ps.last().value {
                Expr::Array { elements } => lemma_present_holds(elements, x),
                e => {
                    assert(own == seq![e]);
                    if e == x {
                        assert(own[0] == x);
                    }
                },
            }
        }
        if before.contains(x) {
            let k = choose|k: int| 0 <= k < before.len() && before[k] == x;
            assert(all[k] == x);
        }
        if named(ps.last()) == Some("children"@) && own.contains(x) {
            let k = choose|k: int| 0 <= k < own.len() && own[k] == x;
            assert(all[before.len() + k] == x);
            assert(is_child(ps, x)) by {
                assert(named(ps[ps.len() - 1]) == Some("children"@));
            }
        }
        if is_child(rest, x) {
            let i = choose|i: int|
                0 <= i < rest.len() && named(#[trigger] rest[i]) == Some("children"@) && given(
                    rest[i].value,
                    x,
                );
            assert(named(ps[i]) == Some("children"@));
        }
        if is_child(ps, x) {
            let i = choose|i: int|
                0 <= i < ps.len() && named(#[trigger] ps[i]) == Some("children"@) && given(
                    ps[i].value,
                    x,
                );
            if i < rest.len() {
                assert(named(rest[i]) == Some("children"@));
            }
        }
        if all.contains(x) {
            let k = choose|k: int| 0 <= k < all.len() && all[k] == x;
            if k < before.len() {
                assert(before[k] == x);
            } else {
                assert(own[k - before.len()] == x);
            }
        }
    }
}

/// Whether an argument stands for no properties.
pub open spec fn says_nothing(e: Expr) -> bool {
    e matches Expr::Value(Val::Constant(c)) && (c == Const::Null || c == Const::Undefined)
}

/// The value under which the properties of an element are spread.
pub open spec fn spread_value(e: Expr) -> Expr {
    match e {
        Expr::Spread(x) => *x,
        _ => e,
    }
}

/// An element holds what its factory call was given. A key comes first, where a modern call has
/// one; the attributes of a literal are its properties; properties that are no literal are spread;
/// and the children are those of the call, or those of a modern call's properties.
pub proof fn lemma_element_holds_the_arguments(callee: Expr, args: Seq<Expr>)
    requires
        args.len() > 0,
        lower::jsx_callee(callee),
    ensures
        lower::lowered(callee, args) matches Expr::JSXElement { attributes, children, .. } ==> {
            let m = lower::modern(callee);
            let keyed = m && args.len() >= 3 && !says_nothing(args[2]);
            let from: int = if keyed {
                1
            } else {
                0
            };
            &&& keyed ==> attributes.len() > 0 && attributes[0] == ("key"@, args[2])
            &&& args.len() < 2 || says_nothing(args[1]) ==> attributes.len() == from
            &&& args.len() >= 2 && !says_nothing(args[1]) ==> match args[1] {
                Expr::Object { properties } => attributes.skip(from) == lower::prop_attrs(
                    properties,
                    m,
                ),
                e => attributes.len() == from + 1 && attributes[from].0 == "..."@ && spread_value(
                    attributes[from].1,
                ) == spread_value(e),
            }
            &&& !m ==> children.len() == (if args.len() > 2 {
                args.len() - 2
            } else {
                0
            }) && forall|i: int| 0 <= i < children.len() ==> #[trigger] children[i] == args[i + 2]
            &&& m && args.len() >= 2 ==> match args[1] {
                Expr::Object { properties } => forall|x: Expr| #[trigger]
                    children.contains(x) <==> is_child(properties, x),
                _ => children.len() == 0,
            }
        },
{
    let m = lower::modern(callee);
    if let Expr::JSXElement { attributes, children, .. } = lower::lowered(callee, args) {
        let key = if m {
            lower::key_attr(args)
        } else {
            Seq::empty()
        };
        assert(attributes == key + lower::arg_attrs(args, m));
        assert(attributes.skip(key.len() as int) =~= lower::arg_attrs(args, m));
        if args.len() >= 2 {
            if let Expr::Object { properties } = args[1] {
                assert forall|x: Expr| #[trigger] lower::prop_children(properties).contains(x)
                    <==> is_child(properties, x) by {
                    lemma_children_are_given(properties, x);
                }
            }
        }
    }
}

} // verus!
