//! The text of an expression reads back as the expression.

use super::expr_gen;
use super::grammar;
use super::resolve;
use super::words;
use super::Gen;
use crate::ir::model::{Const, Expr, Key, Prop, Val};
use crate::ir::{BinaryOp, UnaryOp};
use crate::names;
use crate::text;
use vstd::prelude::*;

verus! {

/// Whether an expression is a comparison with a `!` before it, which is written as the opposite
/// comparison.
pub open spec fn flips(e: Expr) -> bool {
    e matches Expr::Unary { op: UnaryOp::Not, operand } && (*operand matches Expr::Binary {
        op,
        ..
    } && grammar::flipped(op) is Some)
}

/// The level of the text of an expression.
pub open spec fn level(e: Expr) -> int
    decreases e,
{
    match e {
        Expr::Value(v) => grammar::leaf_level(v),
        Expr::Binary { op, .. } => grammar::level_of(op),
        Expr::Unary { operand, .. } => if flips(e) {
            match *operand {
                Expr::Binary { op, .. } => grammar::level_of(op),
                _ => 15,
            }
        } else {
            15
        },
        Expr::Conditional { .. } => 2,
        Expr::Assignment { .. } => 1,
        Expr::Yield { .. } => 1,
        Expr::Await(_) => 15,
        Expr::Spread(_) => 0,
        Expr::Function { .. } => 1,
        Expr::Member { object, .. } => if grammar::unwraps(e) {
            match *object {
                Expr::Call { arguments, .. } => level(arguments[0]),
                _ => 16,
            }
        } else {
            16
        },
        Expr::Call { .. } => 16,
        Expr::New { .. } => 16,
        _ => 17,
    }
}

/// Whether an operand can stand at a level: it is of a form that gets parentheses where it needs
/// them, or binds tightly enough.
pub open spec fn fits(e: Expr, k: int) -> bool {
    match e {
        Expr::Binary { .. } => true,
        Expr::Conditional { .. } => true,
        Expr::Assignment { .. } => true,
        Expr::Yield { .. } => true,
        Expr::Await(_) => true,
        Expr::Function { .. } => true,
        Expr::Unary { .. } => flips(e) ==> level(e) >= k,
        _ => level(e) >= k,
    }
}

pub open spec fn is_logical(e: Expr) -> bool {
    e matches Expr::Binary { op, .. } && (op == BinaryOp::LogicalOr || op == BinaryOp::LogicalAnd)
}

/// The text of a callee.
pub open spec fn callee_text(g: Gen, callee: Expr) -> Seq<char> {
    expr_gen::parens_if(callee is Function, expr_gen::expr_text(g, callee))
}

/// Whether a call is written in another form: a module load, a call that hands its arguments on, or
/// one of the helpers of Hermes. A load is commented where the modules are known.
pub open spec fn is_helper_call(g: Gen, callee: Expr, arguments: Seq<Expr>) -> bool {
    let c = callee_text(g, callee);
    ||| g.esm && resolve::required(g, arguments) is Some
    ||| (callee matches Expr::Member { property: Key::Ident(n), .. } && n == "apply"@)
        && arguments.len() >= 2 && expr_gen::expr_text(g, arguments.last()) == "arguments"@
    ||| text::has_suffix(c, "HermesInternal.concat"@)
    ||| text::has_suffix(c, "HermesInternal.concat.call"@)
    ||| expr_gen::builtin_text(c, expr_gen::exprs_text(g, arguments)) is Some
    ||| c == "require"@ && g.imports is Some
}

/// Whether each part of an expression that gets no parentheses binds tightly enough where it stands,
/// and no call is written in another form.
pub open spec fn tidy(g: Gen, e: Expr) -> bool
    decreases e,
{
    match e {
        Expr::Binary { op, left, right } => {
            &&& tidy(g, *left) && tidy(g, *right)
            &&& fits(*left, grammar::left_level(op)) && fits(*right, grammar::right_level(op))
            &&& op == BinaryOp::NullishCoalescing ==> !is_logical(*left) && !is_logical(*right)
                && fits(*left, 6)
        },
        Expr::Unary { op, operand } => {
            &&& tidy(g, *operand)
            &&& if flips(e) {
                match *operand {
                    Expr::Binary { op: inner, right, .. } => !(*right matches Expr::Binary {
                        op: deep,
                        ..
                    } && grammar::level_of(deep) == grammar::level_of(inner)),
                    _ => true,
                }
            } else {
                op == UnaryOp::Not && *operand is Binary || *operand is Conditional
                    || *operand is Assignment || level(*operand) >= 15
            }
        },
        Expr::Conditional { condition, then_expr, else_expr } => {
            &&& tidy(g, *condition) && tidy(g, *then_expr) && tidy(g, *else_expr)
            &&& fits(*condition, 3) && fits(*then_expr, 1) && fits(*else_expr, 1)
        },
        Expr::Assignment { target, value } => tidy(g, *target) && tidy(g, *value) && level(*target)
            >= 16 && level(*value) >= 1,
        Expr::Yield { value, .. } => tidy(g, *value) && level(*value) >= 1,
        Expr::Await(x) => tidy(g, *x) && level(*x) >= 15,
        Expr::Spread(x) => tidy(g, *x) && level(*x) >= 1,
        Expr::Member { object, property, optional } => if grammar::unwraps(e) {
            match *object {
                Expr::Call { arguments, .. } => tidy(g, arguments[0]),
                _ => true,
            }
        } else {
            tidy(g, *object) && level(*object) >= 16 && tidy_key(g, property)
        },
        Expr::Call { callee, arguments } => {
            &&& !is_helper_call(g, *callee, arguments)
            &&& tidy(g, *callee) && (*callee is Function || level(*callee) >= 16)
            &&& all_tidy(g, arguments)
        },
        Expr::New { callee, arguments } => {
            &&& grammar::is_path(*callee)
            &&& tidy(g, *callee) && level(*callee) >= 16
            &&& all_tidy(g, arguments)
        },
        Expr::Array { elements } => forall|i: int|
            0 <= i < elements.len() ==> tidy_element(g, #[trigger] elements[i]),
        Expr::Object { properties } => forall|i: int|
            0 <= i < properties.len() ==> tidy_prop(g, #[trigger] properties[i]),
        Expr::TemplateLiteral { expressions, .. } => all_tidy(g, expressions) && forall|i: int|
            0 <= i < expressions.len() ==> level(#[trigger] expressions[i]) >= 1,
        Expr::JSXElement { attributes, children, .. } => all_tidy(g, children) && forall|i: int|
            0 <= i < attributes.len() ==> tidy_attr(g, #[trigger] attributes[i]),
        _ => true,
    }
}

pub open spec fn tidy_key(g: Gen, k: Key) -> bool
    decreases k,
{
    match k {
        Key::Computed(e) => tidy(g, *e) && level(*e) >= 1,
        _ => true,
    }
}

pub open spec fn tidy_element(g: Gen, o: Option<Expr>) -> bool
    decreases o,
{
    match o {
        Some(e) => tidy(g, e),
        None => true,
    }
}

pub open spec fn tidy_prop(g: Gen, p: Prop) -> bool
    decreases p,
{
    tidy(g, p.value) && (p.value is Spread || level(p.value) >= 1) && tidy_key(g, p.key)
}

pub open spec fn tidy_attr(g: Gen, a: (Seq<char>, Expr)) -> bool
    decreases a,
{
    tidy(g, a.1) && (a.1 is Spread && a.0 == "..."@ || level(a.1) >= 1)
}

pub open spec fn all_tidy(g: Gen, s: Seq<Expr>) -> bool
    decreases s,
{
    forall|i: int| 0 <= i < s.len() ==> tidy(g, #[trigger] s[i])
}

proof fn lemma_ranks(op: BinaryOp)
    ensures
        op.rank() == (if op == BinaryOp::Exp {
            15
        } else {
            grammar::level_of(op)
        }),
        3 <= grammar::level_of(op) <= 14,
        op == BinaryOp::Exp <==> grammar::level_of(op) == 14,
        op.symbol() == grammar::sign_of(op),
        op.opposite() == grammar::flipped(op),
        grammar::flipped(op) matches Some(f) ==> f.rank() == grammar::level_of(op) && f.symbol()
            == grammar::sign_of(f) && grammar::level_of(op) <= 10 && op != BinaryOp::Exp,
{
}

proof fn lemma_lower(g: Gen, s: Seq<char>, e: Expr, k: int, j: int)
    requires
        grammar::bare(g, s, e, k),
        j <= k,
    ensures
        grammar::bare(g, s, e, j),
    decreases e,
{
    if let Expr::Member { object, .. } = e {
        if grammar::unwraps(e) {
            if let Expr::Call { arguments, .. } = *object {
                if grammar::bare(g, s, arguments[0], k) {
                    lemma_lower(g, s, arguments[0], k, j);
                }
            }
        }
    }
}

proof fn lemma_parens(g: Gen, s: Seq<char>, e: Expr, k: int)
    requires
        grammar::bare(g, s, e, 1),
    ensures
        grammar::writes(g, "("@ + s + ")"@, e, k),
{
    let t = "("@ + s + ")"@;
    reveal_strlit("(");
    reveal_strlit(")");
    assert(t[0] == '(');
    assert(t.last() == ')');
    assert(t.subrange(1, t.len() - 1) =~= s);
}

/// An operand reads back where it stands.
proof fn lemma_operand(g: Gen, e: Expr, parent: int, k: int)
    requires
        grammar::bare(g, expr_gen::expr_text(g, e), e, level(e)),
        expr_gen::needs_parens(e, parent) || level(e) >= k,
    ensures
        grammar::writes(
            g,
            expr_gen::parens_if(expr_gen::needs_parens(e, parent), expr_gen::expr_text(g, e)),
            e,
            k,
        ),
{
    let s = expr_gen::expr_text(g, e);
    if expr_gen::needs_parens(e, parent) {
        if let Expr::Binary { op, .. } = e {
            lemma_ranks(op);
        }
        if let Expr::Unary { operand, .. } = e {
            if let Expr::Binary { op, .. } = *operand {
                lemma_ranks(op);
            }
        }
        lemma_lower(g, s, e, level(e), 1);
        lemma_parens(g, s, e, k);
    } else {
        lemma_lower(g, s, e, level(e), k);
    }
}

pub(super) proof fn lemma_at(g: Gen, e: Expr, k: int)
    requires
        grammar::bare(g, expr_gen::expr_text(g, e), e, level(e)),
        level(e) >= k,
    ensures
        grammar::writes(g, expr_gen::expr_text(g, e), e, k),
        grammar::bare(g, expr_gen::expr_text(g, e), e, k),
{
    lemma_lower(g, expr_gen::expr_text(g, e), e, level(e), k);
}

proof fn lemma_fitting(e: Expr, op: BinaryOp, right: bool)
    requires
        fits(
            e,
            if right {
                grammar::right_level(op)
            } else {
                grammar::left_level(op)
            },
        ),
        op == BinaryOp::NullishCoalescing ==> !is_logical(e),
    ensures
        ({
            let k = if right {
                grammar::right_level(op)
            } else {
                grammar::left_level(op)
            };
            let parent: int = if right == (op == BinaryOp::Exp) {
                op.rank() as int
            } else {
                op.rank() + 1
            };
            expr_gen::needs_parens(e, parent) || level(e) >= k
        }),
{
    lemma_ranks(op);
    if let Expr::Binary { op: inner, .. } = e {
        lemma_ranks(inner);
    }
}

proof fn lemma_binary(g: Gen, op: BinaryOp, left: Expr, right: Expr)
    requires
        tidy(g, Expr::Binary { op, left: Box::new(left), right: Box::new(right) }),
        grammar::bare(g, expr_gen::expr_text(g, left), left, level(left)),
        grammar::bare(g, expr_gen::expr_text(g, right), right, level(right)),
    ensures
        ({
            let e = Expr::Binary { op, left: Box::new(left), right: Box::new(right) };
            grammar::bare(g, expr_gen::expr_text(g, e), e, level(e))
        }),
{
    let e = Expr::Binary { op, left: Box::new(left), right: Box::new(right) };
    lemma_ranks(op);
    lemma_fitting(left, op, false);
    lemma_fitting(right, op, true);
    let lp: int = if op == BinaryOp::Exp {
        op.rank() + 1
    } else {
        op.rank() as int
    };
    let rp: int = if op == BinaryOp::Exp {
        op.rank() as int
    } else {
        op.rank() + 1
    };
    lemma_operand(g, left, lp, grammar::left_level(op));
    lemma_operand(g, right, rp, grammar::right_level(op));
    let a = expr_gen::parens_if(
        expr_gen::needs_parens(left, lp),
        expr_gen::expr_text(g, left),
    );
    let b = expr_gen::parens_if(
        expr_gen::needs_parens(right, rp),
        expr_gen::expr_text(g, right),
    );
    if op == BinaryOp::NullishCoalescing && !(left matches Expr::Binary { op: inner, .. } && inner
        == op) {
        if let Expr::Binary { op: inner, .. } = left {
            lemma_ranks(inner);
        }
        lemma_operand(g, left, lp, 6);
    }
    assert(expr_gen::expr_text(g, e) == grammar::between(a, grammar::sign_of(op), b));
}

proof fn lemma_unary(g: Gen, op: UnaryOp, operand: Expr)
    requires
        tidy(g, Expr::Unary { op, operand: Box::new(operand) }),
        grammar::bare(g, expr_gen::expr_text(g, operand), operand, level(operand)),
        operand matches Expr::Binary { left, right, .. } ==> grammar::bare(
            g,
            expr_gen::expr_text(g, *left),
            *left,
            level(*left),
        ) && grammar::bare(g, expr_gen::expr_text(g, *right), *right, level(*right)),
    ensures
        ({
            let e = Expr::Unary { op, operand: Box::new(operand) };
            grammar::bare(g, expr_gen::expr_text(g, e), e, level(e))
        }),
{
    let e = Expr::Unary { op, operand: Box::new(operand) };
    let s = expr_gen::expr_text(g, operand);
    assert(op.symbol() == grammar::unary_sign(op));
    if flips(e) {
        if let Expr::Binary { op: inner, left, right } = operand {
            lemma_ranks(inner);
            let f = grammar::flipped(inner)->0;
            let k = grammar::level_of(inner);
            assert(tidy(g, operand)) by {
                reveal_with_fuel(tidy, 2);
            }
            lemma_fitting(*left, inner, false);
            lemma_fitting(*right, inner, true);
            if let Expr::Binary { op: deep, .. } = *left {
                lemma_ranks(deep);
            }
            if let Expr::Binary { op: deep, .. } = *right {
                lemma_ranks(deep);
            }
            lemma_operand(g, *left, f.rank() as int, k);
            lemma_operand(g, *right, f.rank() as int, k + 1);
            let a = expr_gen::parens_if(
                expr_gen::needs_parens(*left, f.rank() as int),
                expr_gen::expr_text(g, *left),
            );
            let b = expr_gen::parens_if(
                expr_gen::needs_parens(*right, f.rank() as int),
                expr_gen::expr_text(g, *right),
            );
            assert(expr_gen::expr_text(g, e) == grammar::between(a, grammar::sign_of(f), b));
        }
    } else {
        if let Expr::Binary { op: inner, .. } = operand {
            lemma_ranks(inner);
        }
        if op == UnaryOp::Not && operand is Binary || operand is Conditional
            || operand is Assignment {
            lemma_lower(g, s, operand, level(operand), 1);
            lemma_parens(g, s, operand, 15);
            let t = "("@ + s + ")"@;
            assert(expr_gen::expr_text(g, e) =~= grammar::after(grammar::unary_sign(op), t));
        } else {
            lemma_at(g, operand, 15);
            assert(expr_gen::expr_text(g, e) == grammar::after(grammar::unary_sign(op), s));
        }
    }
}

proof fn lemma_conditional(g: Gen, c: Expr, a: Expr, b: Expr)
    requires
        tidy(
            g,
            Expr::Conditional {
                condition: Box::new(c),
                then_expr: Box::new(a),
                else_expr: Box::new(b),
            },
        ),
        grammar::bare(g, expr_gen::expr_text(g, c), c, level(c)),
        grammar::bare(g, expr_gen::expr_text(g, a), a, level(a)),
        grammar::bare(g, expr_gen::expr_text(g, b), b, level(b)),
    ensures
        ({
            let e = Expr::Conditional {
                condition: Box::new(c),
                then_expr: Box::new(a),
                else_expr: Box::new(b),
            };
            grammar::bare(g, expr_gen::expr_text(g, e), e, level(e))
        }),
{
    let e = Expr::Conditional {
        condition: Box::new(c),
        then_expr: Box::new(a),
        else_expr: Box::new(b),
    };
    if let Expr::Binary { op, .. } = c {
        lemma_ranks(op);
    }
    if let Expr::Binary { op, .. } = a {
        lemma_ranks(op);
    }
    if let Expr::Binary { op, .. } = b {
        lemma_ranks(op);
    }
    lemma_operand(g, c, 3, 3);
    lemma_operand(g, a, 3, 1);
    lemma_operand(g, b, 2, 1);
    let x = expr_gen::parens_if(expr_gen::needs_parens(c, 3), expr_gen::expr_text(g, c));
    let y = expr_gen::parens_if(expr_gen::needs_parens(a, 3), expr_gen::expr_text(g, a));
    let z = expr_gen::parens_if(expr_gen::needs_parens(b, 2), expr_gen::expr_text(g, b));
    assert(expr_gen::expr_text(g, e) == grammar::choice(x, y, z));
}

proof fn lemma_global_name()
    ensures
        names::sanitized("globalThis"@) == "globalThis"@,
{
    reveal_strlit("globalThis");
    let s = "globalThis"@;
    assert(names::valid_identifier(s));
    names::lemma_sanitized_keeps_valid(s);
}

proof fn lemma_key(g: Gen, object: Seq<char>, key: Key, optional: bool)
    requires
        tidy_key(g, key),
        key matches Key::Computed(x) ==> grammar::bare(
            g,
            expr_gen::expr_text(g, *x),
            *x,
            level(*x),
        ),
    ensures
        ({
            let c = match key {
                Key::Computed(x) => expr_gen::expr_text(g, *x),
                _ => Seq::empty(),
            };
            exists|rest: Seq<char>|
                expr_gen::member_text(object, optional, key, c) == #[trigger] grammar::after(
                    object,
                    rest,
                ) && grammar::writes_key(g, rest, key, optional)
        }),
{
    let c = match key {
        Key::Computed(x) => expr_gen::expr_text(g, *x),
        _ => Seq::empty(),
    };
    let rest = match key {
        Key::Ident(n) => grammar::name_access(n, optional),
        Key::String(n) => grammar::name_access(n, optional),
        Key::Index(i) => grammar::indexed(grammar::bracket(optional), text::decimal_int(i as int)),
        Key::Computed(_) => grammar::indexed(grammar::bracket(optional), c),
    };
    if let Key::Computed(x) = key {
        lemma_at(g, *x, 1);
    }
    assert(grammar::writes_key(g, rest, key, optional));
    assert(expr_gen::member_text(object, optional, key, c) =~= grammar::after(object, rest));
}

proof fn lemma_member(g: Gen, e: Expr)
    requires
        e is Member,
        tidy(g, e),
        e matches Expr::Member { object, property, .. } && if grammar::unwraps(e) {
            *object matches Expr::Call { arguments, .. } && grammar::bare(
                g,
                expr_gen::expr_text(g, arguments[0]),
                arguments[0],
                level(arguments[0]),
            )
        } else {
            grammar::bare(g, expr_gen::expr_text(g, *object), *object, level(*object)) && (
            property matches Key::Computed(x) ==> grammar::bare(
                g,
                expr_gen::expr_text(g, *x),
                *x,
                level(*x),
            ))
        },
    ensures
        grammar::bare(g, expr_gen::expr_text(g, e), e, level(e)),
{
    if let Expr::Member { object, property, optional } = e {
        let s = expr_gen::expr_text(g, e);
        if grammar::unwraps(e) {
            assert(s == expr_gen::expr_text(g, object->Call_arguments[0]));
        } else {
            let o = expr_gen::expr_text(g, *object);
            lemma_at(g, *object, 16);
            let plain = !optional && property is Ident;
            if plain && names::builtin_global(property->Ident_0) && (expr_gen::global_object(
                *object,
            ) || o == "globalThis"@) {
                lemma_global_name();
                assert(o == "globalThis"@);
                assert(s == property->Ident_0);
            } else {
                lemma_key(g, o, property, optional);
                let c = match property {
                    Key::Computed(x) => expr_gen::expr_text(g, *x),
                    _ => Seq::empty(),
                };
                assert(s == expr_gen::member_text(o, optional, property, c));
                let rest = choose|rest: Seq<char>|
                    s == #[trigger] grammar::after(o, rest) && grammar::writes_key(
                        g,
                        rest,
                        property,
                        optional,
                    );
                assert(s == grammar::after(o, rest));
            }
        }
    }
}

proof fn lemma_call(g: Gen, callee: Expr, arguments: Seq<Expr>)
    requires
        tidy(g, Expr::Call { callee: Box::new(callee), arguments }),
        grammar::bare(g, expr_gen::expr_text(g, callee), callee, level(callee)),
        forall|i: int|
            #![trigger arguments[i]]
            0 <= i < arguments.len() ==> grammar::bare(
                g,
                expr_gen::expr_text(g, arguments[i]),
                arguments[i],
                level(arguments[i]),
            ) && level(arguments[i]) >= 0,
    ensures
        ({
            let e = Expr::Call { callee: Box::new(callee), arguments };
            grammar::bare(g, expr_gen::expr_text(g, e), e, level(e))
        }),
{
    let e = Expr::Call { callee: Box::new(callee), arguments };
    let f = callee_text(g, callee);
    let args = expr_gen::exprs_text(g, arguments);
    let from = grammar::receivers(callee, arguments);
    assert(from == expr_gen::hidden_args(Some(callee), arguments));
    let ps = args.subrange(from, args.len() as int);
    assert(args.len() == arguments.len());
    assert(grammar::writes(g, f, callee, 16)) by {
        if callee is Function {
            lemma_parens(g, expr_gen::expr_text(g, callee), callee, 16);
        } else {
            lemma_at(g, callee, 16);
        }
    }
    assert forall|i: int|
        #![trigger ps[i]]
        0 <= i < ps.len() && 0 <= i + from < arguments.len() implies grammar::writes(
        g,
        ps[i],
        arguments[i + from],
        0,
    ) by {
        lemma_at(g, arguments[i + from], 0);
        assert(ps[i] == args[i + from]);
    }
    assert(!expr_gen::concat_callee(f));
    assert(expr_gen::import_comment(g, arguments, f) =~= Seq::empty());
    if arguments.len() >= 2 {
        assert(args.last() == expr_gen::expr_text(g, arguments.last()));
    }
    let s = expr_gen::expr_text(g, e);
    assert(s == expr_gen::plain_call(f, Some(callee), arguments, args, Seq::empty()));
    assert(s =~= grammar::called(f, text::joined(ps, ", "@)));
}

proof fn lemma_new(g: Gen, callee: Expr, arguments: Seq<Expr>)
    requires
        tidy(g, Expr::New { callee: Box::new(callee), arguments }),
        grammar::bare(g, expr_gen::expr_text(g, callee), callee, level(callee)),
        forall|i: int|
            #![trigger arguments[i]]
            0 <= i < arguments.len() ==> grammar::bare(
                g,
                expr_gen::expr_text(g, arguments[i]),
                arguments[i],
                level(arguments[i]),
            ) && level(arguments[i]) >= 0,
    ensures
        ({
            let e = Expr::New { callee: Box::new(callee), arguments };
            grammar::bare(g, expr_gen::expr_text(g, e), e, level(e))
        }),
{
    let e = Expr::New { callee: Box::new(callee), arguments };
    let f = expr_gen::expr_text(g, callee);
    let ps = expr_gen::exprs_text(g, arguments);
    lemma_at(g, callee, 16);
    assert forall|i: int|
        #![trigger ps[i]]
        0 <= i < ps.len() && i < arguments.len() implies grammar::writes(
        g,
        ps[i],
        arguments[i],
        0,
    ) by {
        lemma_at(g, arguments[i], 0);
    }
    assert(expr_gen::expr_text(g, e) =~= grammar::after(
        "new "@,
        grammar::called(f, text::joined(ps, ", "@)),
    ));
}

proof fn lemma_array(g: Gen, elements: Seq<Option<Expr>>)
    requires
        forall|i: int|
            #![trigger elements[i]]
            0 <= i < elements.len() ==> (elements[i] matches Some(x) ==> grammar::bare(
                g,
                expr_gen::expr_text(g, x),
                x,
                level(x),
            ) && level(x) >= 0),
    ensures
        ({
            let e = Expr::Array { elements };
            grammar::bare(g, expr_gen::expr_text(g, e), e, level(e))
        }),
{
    let e = Expr::Array { elements };
    let s = expr_gen::expr_text(g, e);
    let ps = expr_gen::elements_text(g, elements);
    assert forall|i: int|
        #![trigger ps[i]]
        0 <= i < ps.len() && i < elements.len() implies grammar::writes_element(
        g,
        ps[i],
        elements[i],
    ) by {
        if let Some(x) = elements[i] {
            lemma_at(g, x, 0);
        }
    }
    lemma_list(g, ps, "["@, "]"@, "[\n"@, "]"@);
    let j = text::joined(ps, ", "@);
    assert(s == expr_gen::list_text(g, ps, "["@, "]"@, "[\n"@, "]"@));
}

proof fn lemma_list(
    g: Gen,
    ps: Seq<Seq<char>>,
    open: Seq<char>,
    close: Seq<char>,
    open_many: Seq<char>,
    close_many: Seq<char>,
)
    ensures
        ({
            let s = expr_gen::list_text(g, ps, open, close, open_many, close_many);
            s == grammar::in_line(open, ps, close) || exists|x: Seq<char>, y: Seq<char>|
                s == #[trigger] grammar::on_lines(open_many, ps, x, y, close_many)
        }),
{
    let s = expr_gen::list_text(g, ps, open, close, open_many, close_many);
    if words::any_multiline(ps) {
        let y = text::repeated(g.indent, g.level);
        assert(s == grammar::on_lines(open_many, ps, y + "  "@, y, close_many));
    }
}

proof fn lemma_prop(g: Gen, p: Prop)
    requires
        tidy_prop(g, p),
        grammar::bare(g, expr_gen::expr_text(g, p.value), p.value, level(p.value)),
        p.key matches Key::Computed(x) ==> grammar::bare(
            g,
            expr_gen::expr_text(g, *x),
            *x,
            level(*x),
        ),
    ensures
        grammar::writes_prop(g, expr_gen::prop_text(g, p), p),
{
    let s = expr_gen::prop_text(g, p);
    let t = expr_gen::expr_text(g, p.value);
    if p.value is Spread {
    } else {
        lemma_at(g, p.value, 1);
        match p.key {
            Key::Ident(n) => {
                assert(s == grammar::entry(grammar::name_key(n), t));
            },
            Key::String(n) => {
                assert(s == grammar::entry(grammar::name_key(n), t));
            },
            Key::Index(i) => {
                assert(s == grammar::entry(text::decimal_int(i as int), t));
            },
            Key::Computed(x) => {
                lemma_at(g, *x, 1);
                let c = expr_gen::expr_text(g, *x);
                assert(s == grammar::entry(grammar::computed(c), t));
            },
        }
    }
}

proof fn lemma_object(g: Gen, properties: Seq<Prop>)
    requires
        forall|i: int|
            #![trigger properties[i]]
            0 <= i < properties.len() ==> grammar::writes_prop(
                g,
                expr_gen::prop_text(g, properties[i]),
                properties[i],
            ),
    ensures
        ({
            let e = Expr::Object { properties };
            grammar::bare(g, expr_gen::expr_text(g, e), e, level(e))
        }),
{
    let e = Expr::Object { properties };
    let s = expr_gen::expr_text(g, e);
    if properties.len() > 0 {
        let ps = expr_gen::props_text(g, properties);
        assert forall|i: int|
            #![trigger ps[i]]
            0 <= i < ps.len() && i < properties.len() implies grammar::writes_prop(
            g,
            ps[i],
            properties[i],
        ) by {
            assert(ps[i] == expr_gen::prop_text(g, properties[i]));
        }
        lemma_list(g, ps, "{ "@, " }"@, "{\n"@, "}"@);
        let j = text::joined(ps, ", "@);
        assert(s == expr_gen::list_text(g, ps, "{ "@, " }"@, "{\n"@, "}"@));
    }
}

proof fn lemma_attr(g: Gen, a: (Seq<char>, Expr))
    requires
        tidy_attr(g, a),
        grammar::bare(g, expr_gen::expr_text(g, a.1), a.1, level(a.1)),
        a.1 matches Expr::Spread(x) ==> grammar::bare(g, expr_gen::expr_text(g, *x), *x, level(*x)),
    ensures
        grammar::writes_attr(
            g,
            expr_gen::attribute_text(a.0, a.1, expr_gen::expr_text(g, a.1)),
            a,
        ),
{
    let t = expr_gen::expr_text(g, a.1);
    let s = expr_gen::attribute_text(a.0, a.1, t);
    if a.0 == "..."@ {
        if let Expr::Spread(x) = a.1 {
            lemma_at(g, *x, 1);
            let u = expr_gen::expr_text(g, *x);
            reveal_strlit("{");
            reveal_strlit("...");
            reveal_strlit("{...");
            assert("{"@ + "..."@ =~= "{..."@);
            assert(s =~= grammar::braced("{..."@, u));
        } else {
            lemma_at(g, a.1, 1);
            assert(s == grammar::braced("{..."@, t));
        }
    } else {
        lemma_at(g, a.1, 1);
        match a.1 {
            Expr::Value(Val::Constant(Const::String(_))) => {},
            Expr::Value(Val::Constant(Const::Bool(true))) => {},
            _ => {
                assert(s == grammar::braced(a.0 + "={"@, t));
            },
        }
    }
}

proof fn lemma_child(g: Gen, e: Expr)
    requires
        grammar::bare(g, expr_gen::expr_text(g, e), e, level(e)),
        level(e) >= 0,
    ensures
        grammar::writes_child(g, expr_gen::child_text(e, expr_gen::expr_text(g, e)), e),
{
    let t = expr_gen::expr_text(g, e);
    if !(e is JSXElement) {
        lemma_at(g, e, 0);
        assert(expr_gen::child_text(e, t) == grammar::braced("{"@, t));
    }
}

proof fn lemma_element(g: Gen, tag: Seq<char>, attrs: Seq<(Seq<char>, Expr)>, children: Seq<Expr>)
    requires
        forall|i: int|
            #![trigger attrs[i]]
            0 <= i < attrs.len() ==> grammar::writes_attr(
                g,
                expr_gen::attribute_text(
                    attrs[i].0,
                    attrs[i].1,
                    expr_gen::expr_text(g, attrs[i].1),
                ),
                attrs[i],
            ),
        forall|i: int|
            #![trigger children[i]]
            0 <= i < children.len() ==> grammar::writes_child(
                g,
                expr_gen::child_text(children[i], expr_gen::expr_text(g, children[i])),
                children[i],
            ),
    ensures
        ({
            let e = Expr::JSXElement { tag, attributes: attrs, children };
            grammar::bare(g, expr_gen::expr_text(g, e), e, level(e))
        }),
{
    let e = Expr::JSXElement { tag, attributes: attrs, children };
    let ps = expr_gen::attrs_text(g, attrs);
    let cs = expr_gen::children_text(children, expr_gen::exprs_text(g, children));
    assert forall|i: int| #![trigger ps[i]] 0 <= i < ps.len() && i < attrs.len() implies
        grammar::writes_attr(g, ps[i], attrs[i]) by {
        assert(ps[i] == expr_gen::attribute_text(
            attrs[i].0,
            attrs[i].1,
            expr_gen::expr_text(g, attrs[i].1),
        ));
    }
    assert forall|i: int| #![trigger cs[i]] 0 <= i < cs.len() && i < children.len() implies
        grammar::writes_child(g, cs[i], children[i]) by {
        assert(cs[i] == expr_gen::child_text(children[i], expr_gen::expr_text(g, children[i])));
    }
    assert(expr_gen::expr_text(g, e) == expr_gen::element_text(tag, ps, cs));
}

proof fn lemma_template(g: Gen, quasis: Seq<Seq<char>>, expressions: Seq<Expr>)
    requires
        forall|i: int|
            #![trigger expressions[i]]
            0 <= i < expressions.len() ==> grammar::bare(
                g,
                expr_gen::expr_text(g, expressions[i]),
                expressions[i],
                level(expressions[i]),
            ) && level(expressions[i]) >= 1,
    ensures
        ({
            let e = Expr::TemplateLiteral { quasis, expressions };
            grammar::bare(g, expr_gen::expr_text(g, e), e, level(e))
        }),
{
    let e = Expr::TemplateLiteral { quasis, expressions };
    let ps = expr_gen::exprs_text(g, expressions);
    assert forall|i: int|
        #![trigger ps[i]]
        0 <= i < ps.len() && i < expressions.len() implies grammar::writes(
        g,
        ps[i],
        expressions[i],
        1,
    ) by {
        lemma_at(g, expressions[i], 1);
    }
    assert(expr_gen::expr_text(g, e) == "`"@ + expr_gen::template_body(quasis, ps) + "`"@);
}

proof fn lemma_level(e: Expr)
    ensures
        0 <= level(e) <= 17,
    decreases e,
{
    match e {
        Expr::Binary { op, .. } => lemma_ranks(op),
        Expr::Unary { operand, .. } => {
            if let Expr::Binary { op, .. } = *operand {
                lemma_ranks(op);
            }
        },
        Expr::Member { object, .. } => {
            if let Expr::Call { arguments, .. } = *object {
                if grammar::unwraps(e) {
                    lemma_level(arguments[0]);
                }
            }
        },
        _ => {},
    }
}

/// The text of an expression reads back as the expression. By the levels and the grouping of the
/// operators of JavaScript, the grammar derives the text from the expression, and at the level of
/// its form: an operand that would group otherwise stands in parentheses. A comparison with a `!`
/// before it reads back as the opposite comparison, and the unwrapped default of a wrapped module as
/// the module.
pub proof fn lemma_text_reads_back(g: Gen, e: Expr)
    requires
        tidy(g, e),
    ensures
        grammar::bare(g, expr_gen::expr_text(g, e), e, level(e)),
    decreases e,
{
    match e {
        Expr::Value(v) => {},
        Expr::Binary { op, left, right } => {
            lemma_text_reads_back(g, *left);
            lemma_text_reads_back(g, *right);
            lemma_binary(g, op, *left, *right);
        },
        Expr::Unary { op, operand } => {
            lemma_text_reads_back(g, *operand);
            if let Expr::Binary { left, right, .. } = *operand {
                assert(tidy(g, *left) && tidy(g, *right)) by {
                    reveal_with_fuel(tidy, 2);
                }
                lemma_text_reads_back(g, *left);
                lemma_text_reads_back(g, *right);
            }
            lemma_unary(g, op, *operand);
        },
        Expr::Conditional { condition, then_expr, else_expr } => {
            lemma_text_reads_back(g, *condition);
            lemma_text_reads_back(g, *then_expr);
            lemma_text_reads_back(g, *else_expr);
            lemma_conditional(g, *condition, *then_expr, *else_expr);
        },
        Expr::Assignment { target, value } => {
            lemma_text_reads_back(g, *target);
            lemma_text_reads_back(g, *value);
            lemma_at(g, *target, 16);
            lemma_at(g, *value, 1);
            let a = expr_gen::expr_text(g, *target);
            let b = expr_gen::expr_text(g, *value);
            reveal_strlit(" ");
            reveal_strlit("=");
            reveal_strlit(" = ");
            assert(" = "@ =~= " "@ + "="@ + " "@);
            assert(expr_gen::expr_text(g, e) =~= grammar::between(a, "="@, b));
        },
        Expr::Yield { value, delegate } => {
            lemma_text_reads_back(g, *value);
            lemma_at(g, *value, 1);
            assert(expr_gen::expr_text(g, e) == grammar::after(
                grammar::yield_word(delegate),
                expr_gen::expr_text(g, *value),
            ));
        },
        Expr::Await(x) => {
            lemma_text_reads_back(g, *x);
            lemma_at(g, *x, 15);
            assert(expr_gen::expr_text(g, e) == grammar::after(
                "await "@,
                expr_gen::expr_text(g, *x),
            ));
        },
        Expr::Spread(x) => {
            lemma_text_reads_back(g, *x);
            lemma_at(g, *x, 1);
            assert(expr_gen::expr_text(g, e) == grammar::after(
                "..."@,
                expr_gen::expr_text(g, *x),
            ));
        },
        Expr::Member { object, property, .. } => {
            if grammar::unwraps(e) {
                if let Expr::Call { arguments, .. } = *object {
                    lemma_text_reads_back(g, arguments[0]);
                }
            } else {
                lemma_text_reads_back(g, *object);
                if let Key::Computed(x) = property {
                    assert(tidy_key(g, property));
                    lemma_text_reads_back(g, *x);
                }
            }
            lemma_member(g, e);
        },
        Expr::Call { callee, arguments } => {
            lemma_text_reads_back(g, *callee);
            lemma_texts_read_back(g, arguments);
            lemma_call(g, *callee, arguments);
        },
        Expr::New { callee, arguments } => {
            lemma_text_reads_back(g, *callee);
            lemma_texts_read_back(g, arguments);
            lemma_new(g, *callee, arguments);
        },
        Expr::Array { elements } => {
            assert forall|i: int|
                #![trigger elements[i]]
                0 <= i < elements.len() implies (elements[i] matches Some(x) ==> grammar::bare(
                g,
                expr_gen::expr_text(g, x),
                x,
                level(x),
            ) && level(x) >= 0) by {
                assert(tidy_element(g, elements[i]));
                if let Some(x) = elements[i] {
                    lemma_text_reads_back(g, x);
                    lemma_level(x);
                }
            }
            lemma_array(g, elements);
        },
        Expr::Object { properties } => {
            assert forall|i: int|
                #![trigger properties[i]]
                0 <= i < properties.len() implies grammar::writes_prop(
                g,
                expr_gen::prop_text(g, properties[i]),
                properties[i],
            ) by {
                assert(tidy_prop(g, properties[i]));
                lemma_text_reads_back(g, properties[i].value);
                if let Key::Computed(x) = properties[i].key {
                    lemma_text_reads_back(g, *x);
                }
                lemma_prop(g, properties[i]);
            }
            lemma_object(g, properties);
        },
        Expr::TemplateLiteral { quasis, expressions } => {
            lemma_texts_read_back(g, expressions);
            lemma_template(g, quasis, expressions);
        },
        Expr::JSXElement { tag, attributes, children } => {
            assert forall|i: int|
                #![trigger attributes[i]]
                0 <= i < attributes.len() implies grammar::writes_attr(
                g,
                expr_gen::attribute_text(
                    attributes[i].0,
                    attributes[i].1,
                    expr_gen::expr_text(g, attributes[i].1),
                ),
                attributes[i],
            ) by {
                assert(tidy_attr(g, attributes[i]));
                lemma_text_reads_back(g, attributes[i].1);
                if let Expr::Spread(x) = attributes[i].1 {
                    lemma_text_reads_back(g, *x);
                }
                lemma_attr(g, attributes[i]);
            }
            lemma_texts_read_back(g, children);
            assert forall|i: int|
                #![trigger children[i]]
                0 <= i < children.len() implies grammar::writes_child(
                g,
                expr_gen::child_text(children[i], expr_gen::expr_text(g, children[i])),
                children[i],
            ) by {
                lemma_child(g, children[i]);
            }
            lemma_element(g, tag, attributes, children);
        },
        _ => {},
    }
}

proof fn lemma_texts_read_back(g: Gen, s: Seq<Expr>)
    requires
        all_tidy(g, s),
    ensures
        forall|i: int|
            #![trigger s[i]]
            0 <= i < s.len() ==> grammar::bare(
                g,
                expr_gen::expr_text(g, s[i]),
                s[i],
                level(s[i]),
            ) && level(s[i]) >= 0,
    decreases s,
{
    assert forall|i: int|
        #![trigger s[i]]
        0 <= i < s.len() implies grammar::bare(
        g,
        expr_gen::expr_text(g, s[i]),
        s[i],
        level(s[i]),
    ) && level(s[i]) >= 0 by {
        lemma_text_reads_back(g, s[i]);
        lemma_level(s[i]);
    }
}

} // verus!
