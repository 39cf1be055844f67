//! Puts the object literals that variables hold into the factory calls that stay calls.

use super::lower;
use super::props;
use crate::ir::model;
use crate::ir::model::{Expr, Prop, Val};
use crate::ir::{Expression, ObjectProperty, Value};
use crate::text;
use vstd::prelude::*;

verus! {

/// Whether a call is a factory call with properties that stays a call: its tag has no JSX form.
pub open spec fn stays(callee: Expr, args: Seq<Expr>) -> bool {
    lower::jsx_callee(callee) && args.len() >= 2 && lower::tag(args[0]) is None
}

/// Whether a call that stays a call, anywhere in an expression, has its properties in a variable.
pub open spec fn takes(e: Expr, n: Seq<char>) -> bool
    decreases e,
{
    match e {
        Expr::Call { callee, arguments } => {
            ||| stays(*callee, arguments) && arguments[1] == Expr::Value(Val::Variable(n))
            ||| takes(*callee, n)
            ||| takes_exprs(arguments, n)
        },
        Expr::New { callee, arguments } => takes(*callee, n) || takes_exprs(arguments, n),
        Expr::Binary { left, right, .. } => takes(*left, n) || takes(*right, n),
        Expr::Unary { operand, .. } => takes(*operand, n),
        Expr::Spread(x) => takes(*x, n),
        Expr::Await(x) => takes(*x, n),
        Expr::Yield { value, .. } => takes(*value, n),
        Expr::Member { object, .. } => takes(*object, n),
        Expr::Conditional { condition, then_expr, else_expr } => {
            ||| takes(*condition, n)
            ||| takes(*then_expr, n)
            ||| takes(*else_expr, n)
        },
        Expr::Array { elements } => takes_elements(elements, n),
        Expr::Object { properties } => takes_props(properties, n),
        Expr::Assignment { target, value } => takes(*target, n) || takes(*value, n),
        Expr::JSXElement { attributes, children, .. } => {
            ||| takes_attrs(attributes, n)
            ||| takes_exprs(children, n)
        },
        _ => false,
    }
}

pub open spec fn takes_opt(e: Option<Expr>, n: Seq<char>) -> bool
    decreases e,
{
    match e {
        Some(x) => takes(x, n),
        None => false,
    }
}

pub open spec fn takes_prop(p: Prop, n: Seq<char>) -> bool
    decreases p,
{
    takes(p.value, n)
}

pub open spec fn takes_attr(a: (Seq<char>, Expr), n: Seq<char>) -> bool
    decreases a,
{
    takes(a.1, n)
}

pub open spec fn takes_exprs(s: Seq<Expr>, n: Seq<char>) -> bool
    decreases s,
{
    exists|i: int| 0 <= i < s.len() && takes(#[trigger] s[i], n)
}

pub open spec fn takes_elements(s: Seq<Option<Expr>>, n: Seq<char>) -> bool
    decreases s,
{
    exists|i: int| 0 <= i < s.len() && takes_opt(#[trigger] s[i], n)
}

pub open spec fn takes_props(s: Seq<Prop>, n: Seq<char>) -> bool
    decreases s,
{
    exists|i: int| 0 <= i < s.len() && takes_prop(#[trigger] s[i], n)
}

pub open spec fn takes_attrs(s: Seq<(Seq<char>, Expr)>, n: Seq<char>) -> bool
    decreases s,
{
    exists|i: int| 0 <= i < s.len() && takes_attr(#[trigger] s[i], n)
}

/// The place of the record of a name, or -1.
pub open spec fn place(o: Seq<(Seq<char>, Expr)>, n: Seq<char>) -> int
    decreases o.len(),
{
    if o.len() == 0 {
        -1
    } else if o.last().0 == n {
        o.len() - 1
    } else {
        place(o.drop_last(), n)
    }
}

/// The place of a record holds what is recorded.
pub proof fn lemma_place(o: Seq<(Seq<char>, Expr)>, n: Seq<char>)
    ensures
        -1 <= place(o, n) < o.len(),
        place(o, n) < 0 <==> props::known(o, n) is None,
        place(o, n) >= 0 ==> o[place(o, n)].0 == n && props::known(o, n) == Some(
            o[place(o, n)].1,
        ),
    decreases o.len(),
{
    if o.len() > 0 && o.last().0 != n {
        lemma_place(o.drop_last(), n);
    }
}

/// The record that the properties of a call that stays a call are replaced by: that of a variable,
/// unless its literal holds such a call on the variable itself and would be put in again and again.
pub open spec fn found(o: Seq<(Seq<char>, Expr)>, from: int, e: Expr) -> Option<int> {
    match e {
        Expr::Value(Val::Variable(n)) => {
            let p = place(o, n);
            if p >= 0 && p >= from && !takes(o[p].1, n) {
                Some(p)
            } else {
                None
            }
        },
        _ => None,
    }
}

/// A record that is found stands among those that are looked at.
pub proof fn lemma_found(o: Seq<(Seq<char>, Expr)>, from: int, e: Expr)
    ensures
        found(o, from, e) matches Some(p) ==> 0 <= p < o.len() && from <= p,
{
    if let Expr::Value(Val::Variable(n)) = e {
        lemma_place(o, n);
    }
}

/// The expression with recorded literals put into its calls that stay calls. Only the records from
/// a place on are looked at: a literal that is put in mentions none before its own, but for those
/// that recur.
pub open spec fn put(o: Seq<(Seq<char>, Expr)>, from: int, e: Expr) -> Expr
    decreases o.len() - from, e,
{
    match e {
        Expr::Call { callee, arguments } => {
            let plain = put_exprs(o, from, arguments);
            let f = Box::new(put(o, from, *callee));
            if stays(*callee, arguments) {
                match found(o, from, arguments[1]) {
                    Some(p) => {
                        proof {
                            lemma_found(o, from, arguments[1]);
                        }
                        Expr::Call {
                            callee: f,
                            arguments: plain.update(1, put(o, p + 1, o[p].1)),
                        }
                    },
                    None => Expr::Call { callee: f, arguments: plain },
                }
            } else {
                Expr::Call { callee: f, arguments: plain }
            }
        },
        Expr::New { callee, arguments } => Expr::New {
            callee: Box::new(put(o, from, *callee)),
            arguments: put_exprs(o, from, arguments),
        },
        Expr::Binary { op, left, right } => Expr::Binary {
            op,
            left: Box::new(put(o, from, *left)),
            right: Box::new(put(o, from, *right)),
        },
        Expr::Unary { op, operand } => Expr::Unary {
            op,
            operand: Box::new(put(o, from, *operand)),
        },
        Expr::Spread(x) => Expr::Spread(Box::new(put(o, from, *x))),
        Expr::Await(x) => Expr::Await(Box::new(put(o, from, *x))),
        Expr::Yield { value, delegate } => Expr::Yield {
            value: Box::new(put(o, from, *value)),
            delegate,
        },
        Expr::Member { object, property, optional } => Expr::Member {
            object: Box::new(put(o, from, *object)),
            property,
            optional,
        },
        Expr::Conditional { condition, then_expr, else_expr } => Expr::Conditional {
            condition: Box::new(put(o, from, *condition)),
            then_expr: Box::new(put(o, from, *then_expr)),
            else_expr: Box::new(put(o, from, *else_expr)),
        },
        Expr::Array { elements } => Expr::Array {
            elements: put_elements(o, from, elements),
        },
        Expr::Object { properties } => Expr::Object {
            properties: put_props(o, from, properties),
        },
        Expr::Assignment { target, value } => Expr::Assignment {
            target: Box::new(put(o, from, *target)),
            value: Box::new(put(o, from, *value)),
        },
        Expr::JSXElement { tag, attributes, children } => Expr::JSXElement {
            tag,
            attributes: put_attrs(o, from, attributes),
            children: put_exprs(o, from, children),
        },
        _ => e,
    }
}

pub open spec fn put_opt(
    o: Seq<(Seq<char>, Expr)>,
    from: int,
    e: Option<Expr>,
) -> Option<Expr>
    decreases o.len() - from, e,
{
    match e {
        Some(x) => Some(put(o, from, x)),
        None => None,
    }
}

pub open spec fn put_prop(o: Seq<(Seq<char>, Expr)>, from: int, p: Prop) -> Prop
    decreases o.len() - from, p,
{
    Prop { key: p.key, value: put(o, from, p.value) }
}

pub open spec fn put_attr(
    o: Seq<(Seq<char>, Expr)>,
    from: int,
    a: (Seq<char>, Expr),
) -> (Seq<char>, Expr)
    decreases o.len() - from, a,
{
    (a.0, put(o, from, a.1))
}

pub open spec fn put_exprs(
    o: Seq<(Seq<char>, Expr)>,
    from: int,
    s: Seq<Expr>,
) -> Seq<Expr>
    decreases o.len() - from, s,
{
    Seq::new(
        s.len(),
        |i: int|
            if 0 <= i < s.len() {
                put(o, from, s[i])
            } else {
                arbitrary()
            },
    )
}

pub open spec fn put_elements(
    o: Seq<(Seq<char>, Expr)>,
    from: int,
    s: Seq<Option<Expr>>,
) -> Seq<Option<Expr>>
    decreases o.len() - from, s,
{
    Seq::new(
        s.len(),
        |i: int|
            if 0 <= i < s.len() {
                put_opt(o, from, s[i])
            } else {
                arbitrary()
            },
    )
}

pub open spec fn put_props(
    o: Seq<(Seq<char>, Expr)>,
    from: int,
    s: Seq<Prop>,
) -> Seq<Prop>
    decreases o.len() - from, s,
{
    Seq::new(
        s.len(),
        |i: int|
            if 0 <= i < s.len() {
                put_prop(o, from, s[i])
            } else {
                arbitrary()
            },
    )
}

pub open spec fn put_attrs(
    o: Seq<(Seq<char>, Expr)>,
    from: int,
    s: Seq<(Seq<char>, Expr)>,
) -> Seq<(Seq<char>, Expr)>
    decreases o.len() - from, s,
{
    Seq::new(
        s.len(),
        |i: int|
            if 0 <= i < s.len() {
                put_attr(o, from, s[i])
            } else {
                arbitrary()
            },
    )
}

fn is_staying(callee: &Expression, args: &Vec<Expression>) -> (r: bool)
    ensures
        r == stays(callee@, model::exprs(args@)),
{
    let ghost raw = model::exprs(args@);
    assert(raw.len() == args@.len());
    assert(args@.len() >= 2 ==> raw[0] == args@[0]@);
    args.len() >= 2 && lower::is_jsx_call(callee) && lower::find_tag(&args[0]).is_none()
}

fn is_taking(e: &Expression, n: &str) -> (r: bool)
    ensures
        r == takes(e@, n@),
    decreases e,
{
    match e {
        Expression::Call { callee, arguments } => {
            if is_staying(callee, arguments) {
                assert(model::exprs(arguments@)[1] == arguments@[1]@);
                if let Expression::Value(Value::Variable(m)) = &arguments[1] {
                    if text::same(m, n) {
                        return true;
                    }
                }
            }
            is_taking(callee, n) || is_any_taking(arguments, n)
        },
        Expression::New { callee, arguments } => is_taking(callee, n) || is_any_taking(
            arguments,
            n,
        ),
        Expression::Binary { left, right, .. } => is_taking(left, n) || is_taking(right, n),
        Expression::Unary { operand, .. } => is_taking(operand, n),
        Expression::Spread(x) => is_taking(x, n),
        Expression::Await(x) => is_taking(x, n),
        Expression::Yield { value, .. } => is_taking(value, n),
        Expression::Member { object, .. } => is_taking(object, n),
        Expression::Conditional { condition, then_expr, else_expr } => is_taking(condition, n)
            || is_taking(then_expr, n) || is_taking(else_expr, n),
        Expression::Array { elements } => is_element_taking(elements, n),
        Expression::Object { properties } => is_prop_taking(properties, n),
        Expression::Assignment { target, value } => is_taking(target, n) || is_taking(value, n),
        Expression::JSXElement { attributes, children, .. } => is_attr_taking(attributes, n)
            || is_any_taking(children, n),
        _ => false,
    }
}

fn is_opt_taking(e: &Option<Expression>, n: &str) -> (r: bool)
    ensures
        r == takes_opt(model::opt_expr(*e), n@),
    decreases e,
{
    match e {
        Some(x) => is_taking(x, n),
        None => false,
    }
}

fn is_any_taking(v: &Vec<Expression>, n: &str) -> (r: bool)
    ensures
        r == takes_exprs(model::exprs(v@), n@),
    decreases v,
{
    let ghost all = model::exprs(v@);
    let mut i: usize = 0;
    while i < v.len()
        invariant
            i <= v.len(),
            all == model::exprs(v@),
            forall|k: int| 0 <= k < i ==> !takes(#[trigger] all[k], n@),
        decreases v.len() - i,
    {
        assert(all[i as int] == v@[i as int]@);
        if is_taking(&v[i], n) {
            assert(takes(all[i as int], n@));
            return true;
        }
        i += 1;
    }
    assert(all.len() == v@.len());
    false
}

fn is_element_taking(v: &Vec<Option<Expression>>, n: &str) -> (r: bool)
    ensures
        r == takes_elements(model::opt_exprs(v@), n@),
    decreases v,
{
    let ghost all = model::opt_exprs(v@);
    let mut i: usize = 0;
    while i < v.len()
        invariant
            i <= v.len(),
            all == model::opt_exprs(v@),
            forall|k: int| 0 <= k < i ==> !takes_opt(#[trigger] all[k], n@),
        decreases v.len() - i,
    {
        assert(all[i as int] == model::opt_expr(v@[i as int]));
        if is_opt_taking(&v[i], n) {
            assert(takes_opt(all[i as int], n@));
            return true;
        }
        i += 1;
    }
    assert(all.len() == v@.len());
    false
}

fn is_prop_taking(v: &Vec<ObjectProperty>, n: &str) -> (r: bool)
    ensures
        r == takes_props(model::props(v@), n@),
    decreases v,
{
    let ghost all = model::props(v@);
    let mut i: usize = 0;
    while i < v.len()
        invariant
            i <= v.len(),
            all == model::props(v@),
            forall|k: int| 0 <= k < i ==> !takes_prop(#[trigger] all[k], n@),
        decreases v.len() - i,
    {
        assert(all[i as int] == v@[i as int]@);
        if is_taking(&v[i].value, n) {
            assert(takes_prop(all[i as int], n@));
            return true;
        }
        i += 1;
    }
    assert(all.len() == v@.len());
    false
}

fn is_attr_taking(v: &Vec<(String, Expression)>, n: &str) -> (r: bool)
    ensures
        r == takes_attrs(model::attrs(v@), n@),
    decreases v,
{
    let ghost all = model::attrs(v@);
    let mut i: usize = 0;
    while i < v.len()
        invariant
            i <= v.len(),
            all == model::attrs(v@),
            forall|k: int| 0 <= k < i ==> !takes_attr(#[trigger] all[k], n@),
        decreases v.len() - i,
    {
        assert(all[i as int] == model::attr(v@[i as int]));
        if is_taking(&v[i].1, n) {
            assert(takes_attr(all[i as int], n@));
            return true;
        }
        i += 1;
    }
    assert(all.len() == v@.len());
    false
}

fn find_place(o: &Vec<(String, Expression)>, n: &str) -> (r: Option<usize>)
    ensures
        match r {
            Some(p) => place(model::attrs(o@), n@) == p,
            None => place(model::attrs(o@), n@) < 0,
        },
{
    let ghost all = model::attrs(o@);
    let mut i: usize = o.len();
    assert(all.take(all.len() as int) =~= all);
    while i > 0
        invariant
            i <= o.len(),
            all == model::attrs(o@),
            place(all, n@) == place(all.take(i as int), n@),
        decreases i,
    {
        assert(all.take(i as int).drop_last() =~= all.take(i - 1));
        assert(all[i - 1] == model::attr(o@[i - 1]));
        if text::same(&o[i - 1].0, n) {
            return Some(i - 1);
        }
        i -= 1;
    }
    None
}

fn find_literal(o: &Vec<(String, Expression)>, from: usize, e: &Expression) -> (r: Option<usize>)
    ensures
        match r {
            Some(p) => found(model::attrs(o@), from as int, e@) == Some(p as int) && from <= p
                < o.len(),
            None => found(model::attrs(o@), from as int, e@) is None,
        },
{
    if let Expression::Value(Value::Variable(n)) = e {
        proof {
            lemma_place(model::attrs(o@), n@);
        }
        if let Some(p) = find_place(o, n) {
            assert(model::attrs(o@).len() == o@.len());
            assert(model::attrs(o@)[p as int] == model::attr(o@[p as int]));
            if p >= from && !is_taking(&o[p].1, n) {
                return Some(p);
            }
        }
    }
    None
}

/// Puts the recorded literals into the calls of an expression that stay calls.
pub(super) fn put_literals(o: &Vec<(String, Expression)>, from: usize, e: &Expression) -> (r: Expression)
    ensures
        r@ == put(model::attrs(o@), from as int, e@),
    decreases o.len() - from, e,
{
    match e {
        Expression::Call { callee, arguments } => {
            let mut args = place_exprs(o, from, arguments);
            let f = Box::new(put_literals(o, from, callee));
            let ghost raw = model::exprs(arguments@);
            let ghost plain = model::exprs(args@);
            assert(raw.len() == arguments@.len() && plain.len() == args@.len());
            assert(plain.len() == raw.len());
            if is_staying(callee, arguments) {
                assert(raw[1] == arguments@[1]@);
                if let Some(p) = find_literal(o, from, &arguments[1]) {
                    assert(model::attrs(o@)[p as int] == model::attr(o@[p as int]));
                    let y = put_literals(o, p + 1, &o[p].1);
                    args.set(1, y);
                    assert(model::exprs(args@) =~= plain.update(1, y@));
                }
            }
            Expression::Call { callee: f, arguments: args }
        },
        Expression::New { callee, arguments } => Expression::New {
            callee: Box::new(put_literals(o, from, callee)),
            arguments: place_exprs(o, from, arguments),
        },
        Expression::Binary { op, left, right } => Expression::Binary {
            op: *op,
            left: Box::new(put_literals(o, from, left)),
            right: Box::new(put_literals(o, from, right)),
        },
        Expression::Unary { op, operand } => Expression::Unary {
            op: *op,
            operand: Box::new(put_literals(o, from, operand)),
        },
        Expression::Spread(x) => Expression::Spread(Box::new(put_literals(o, from, x))),
        Expression::Await(x) => Expression::Await(Box::new(put_literals(o, from, x))),
        Expression::Yield { value, delegate } => Expression::Yield {
            value: Box::new(put_literals(o, from, value)),
            delegate: *delegate,
        },
        Expression::Member { object, property, optional } => Expression::Member {
            object: Box::new(put_literals(o, from, object)),
            property: property.clone(),
            optional: *optional,
        },
        Expression::Conditional { condition, then_expr, else_expr } => Expression::Conditional {
            condition: Box::new(put_literals(o, from, condition)),
            then_expr: Box::new(put_literals(o, from, then_expr)),
            else_expr: Box::new(put_literals(o, from, else_expr)),
        },
        Expression::Array { elements } => Expression::Array {
            elements: place_elements(o, from, elements),
        },
        Expression::Object { properties } => Expression::Object {
            properties: place_props(o, from, properties),
        },
        Expression::Assignment { target, value } => Expression::Assignment {
            target: Box::new(put_literals(o, from, target)),
            value: Box::new(put_literals(o, from, value)),
        },
        Expression::JSXElement { tag, attributes, children } => Expression::JSXElement {
            tag: tag.clone(),
            attributes: place_attrs(o, from, attributes),
            children: place_exprs(o, from, children),
        },
        _ => e.clone(),
    }
}

fn place_opt(
    o: &Vec<(String, Expression)>,
    from: usize,
    e: &Option<Expression>,
) -> (r: Option<Expression>)
    ensures
        model::opt_expr(r) == put_opt(
            model::attrs(o@),
            from as int,
            model::opt_expr(*e),
        ),
    decreases o.len() - from, e,
{
    match e {
        Some(x) => Some(put_literals(o, from, x)),
        None => None,
    }
}

fn place_prop(
    o: &Vec<(String, Expression)>,
    from: usize,
    p: &ObjectProperty,
) -> (r: ObjectProperty)
    ensures
        r@ == put_prop(model::attrs(o@), from as int, p@),
    decreases o.len() - from, p,
{
    ObjectProperty { key: p.key.clone(), value: put_literals(o, from, &p.value) }
}

fn place_attr(
    o: &Vec<(String, Expression)>,
    from: usize,
    a: &(String, Expression),
) -> (r: (String, Expression))
    ensures
        model::attr(r) == put_attr(model::attrs(o@), from as int, model::attr(*a)),
    decreases o.len() - from, a,
{
    (a.0.clone(), put_literals(o, from, &a.1))
}

fn place_exprs(
    o: &Vec<(String, Expression)>,
    from: usize,
    v: &Vec<Expression>,
) -> (r: Vec<Expression>)
    ensures
        model::exprs(r@) == put_exprs(model::attrs(o@), from as int, model::exprs(v@)),
    decreases o.len() - from, v,
{
    let mut out: Vec<Expression> = Vec::new();
    let mut i: usize = 0;
    while i < v.len()
        invariant
            i <= v.len(),
            out.len() == i,
            forall|k: int|
                0 <= k < i ==> (#[trigger] out@[k])@ == put(model::attrs(o@), from as int, (v@[k])@),
        decreases v.len() - i,
    {
        let x = put_literals(o, from, &v[i]);
        out.push(x);
        i += 1;
    }
    assert(model::exprs(out@) =~= put_exprs(model::attrs(o@), from as int, model::exprs(v@)));
    out
}

fn place_elements(
    o: &Vec<(String, Expression)>,
    from: usize,
    v: &Vec<Option<Expression>>,
) -> (r: Vec<Option<Expression>>)
    ensures
        model::opt_exprs(r@) == put_elements(model::attrs(o@), from as int, model::opt_exprs(v@)),
    decreases o.len() - from, v,
{
    let mut out: Vec<Option<Expression>> = Vec::new();
    let mut i: usize = 0;
    while i < v.len()
        invariant
            i <= v.len(),
            out.len() == i,
            forall|k: int|
                0 <= k < i ==> model::opt_expr(#[trigger] out@[k]) == put_opt(model::attrs(o@), from as int, model::opt_expr(v@[k])),
        decreases v.len() - i,
    {
        let x = place_opt(o, from, &v[i]);
        out.push(x);
        i += 1;
    }
    assert(model::opt_exprs(out@) =~= put_elements(model::attrs(o@), from as int, model::opt_exprs(v@)));
    out
}

fn place_props(
    o: &Vec<(String, Expression)>,
    from: usize,
    v: &Vec<ObjectProperty>,
) -> (r: Vec<ObjectProperty>)
    ensures
        model::props(r@) == put_props(model::attrs(o@), from as int, model::props(v@)),
    decreases o.len() - from, v,
{
    let mut out: Vec<ObjectProperty> = Vec::new();
    let mut i: usize = 0;
    while i < v.len()
        invariant
            i <= v.len(),
            out.len() == i,
            forall|k: int|
                0 <= k < i ==> (#[trigger] out@[k])@ == put_prop(model::attrs(o@), from as int, (v@[k])@),
        decreases v.len() - i,
    {
        let x = place_prop(o, from, &v[i]);
        out.push(x);
        i += 1;
    }
    assert(model::props(out@) =~= put_props(model::attrs(o@), from as int, model::props(v@)));
    out
}

fn place_attrs(
    o: &Vec<(String, Expression)>,
    from: usize,
    v: &Vec<(String, Expression)>,
) -> (r: Vec<(String, Expression)>)
    ensures
        model::attrs(r@) == put_attrs(model::attrs(o@), from as int, model::attrs(v@)),
    decreases o.len() - from, v,
{
    let mut out: Vec<(String, Expression)> = Vec::new();
    let mut i: usize = 0;
    while i < v.len()
        invariant
            i <= v.len(),
            out.len() == i,
            forall|k: int|
                0 <= k < i ==> model::attr(#[trigger] out@[k]) == put_attr(model::attrs(o@), from as int, model::attr(v@[k])),
        decreases v.len() - i,
    {
        let x = place_attr(o, from, &v[i]);
        out.push(x);
        i += 1;
    }
    assert(model::attrs(out@) =~= put_attrs(model::attrs(o@), from as int, model::attrs(v@)));
    out
}

} // verus!
