//! Source text, read by the grammar of JavaScript.
//!
//! Each form of an expression has a level: how tightly it binds. A text is a way to write an
//! expression at a level where the grammar derives the one from the other there: operands stand at
//! the levels that their operator asks for, and anything may stand in parentheses.

use super::expr_gen;
use super::words;
use super::Gen;
use crate::ir::display;
use crate::ir::model::{Const, Expr, Key, Prop, Val};
use crate::ir::{BinaryOp, UnaryOp};
use crate::names;
use crate::text;
use vstd::prelude::*;

verus! {

/// How tightly an operator binds.
pub open spec fn level_of(op: BinaryOp) -> int {
    match op {
        BinaryOp::NullishCoalescing => 3,
        BinaryOp::LogicalOr => 4,
        BinaryOp::LogicalAnd => 5,
        BinaryOp::BitOr => 6,
        BinaryOp::BitXor => 7,
        BinaryOp::BitAnd => 8,
        BinaryOp::Eq | BinaryOp::Neq | BinaryOp::StrictEq | BinaryOp::StrictNeq => 9,
        BinaryOp::Lt | BinaryOp::Le | BinaryOp::Gt | BinaryOp::Ge => 10,
        BinaryOp::In | BinaryOp::InstanceOf => 10,
        BinaryOp::Shl | BinaryOp::Shr | BinaryOp::UShr => 11,
        BinaryOp::Add | BinaryOp::Sub => 12,
        BinaryOp::Mul | BinaryOp::Div | BinaryOp::Mod => 13,
        BinaryOp::Exp => 14,
    }
}

/// What a left operand has to bind as. Operators group to the left, but for the power: its left
/// operand is not even a signed one.
pub open spec fn left_level(op: BinaryOp) -> int {
    if op == BinaryOp::Exp {
        16
    } else {
        level_of(op)
    }
}

/// What a right operand has to bind as. No `||` or `&&` stands bare beside `??`.
pub open spec fn right_level(op: BinaryOp) -> int {
    if op == BinaryOp::Exp {
        14
    } else if op == BinaryOp::NullishCoalescing {
        6
    } else {
        level_of(op) + 1
    }
}

/// The sign of an operator.
pub open spec fn sign_of(op: BinaryOp) -> Seq<char> {
    match op {
        BinaryOp::Add => "+"@,
        BinaryOp::Sub => "-"@,
        BinaryOp::Mul => "*"@,
        BinaryOp::Div => "/"@,
        BinaryOp::Mod => "%"@,
        BinaryOp::Exp => "**"@,
        BinaryOp::BitAnd => "&"@,
        BinaryOp::BitOr => "|"@,
        BinaryOp::BitXor => "^"@,
        BinaryOp::Shl => "<<"@,
        BinaryOp::Shr => ">>"@,
        BinaryOp::UShr => ">>>"@,
        BinaryOp::Eq => "=="@,
        BinaryOp::Neq => "!="@,
        BinaryOp::StrictEq => "==="@,
        BinaryOp::StrictNeq => "!=="@,
        BinaryOp::Lt => "<"@,
        BinaryOp::Le => "<="@,
        BinaryOp::Gt => ">"@,
        BinaryOp::Ge => ">="@,
        BinaryOp::LogicalAnd => "&&"@,
        BinaryOp::LogicalOr => "||"@,
        BinaryOp::NullishCoalescing => "??"@,
        BinaryOp::In => "in"@,
        BinaryOp::InstanceOf => "instanceof"@,
    }
}

pub open spec fn unary_sign(op: UnaryOp) -> Seq<char> {
    match op {
        UnaryOp::Not => "!"@,
        UnaryOp::Neg => "-"@,
        UnaryOp::Plus => "+"@,
        UnaryOp::BitNot => "~"@,
        UnaryOp::TypeOf => "typeof "@,
        UnaryOp::Void => "void "@,
        UnaryOp::Delete => "delete "@,
    }
}

/// The comparison that says the opposite.
pub open spec fn flipped(op: BinaryOp) -> Option<BinaryOp> {
    match op {
        BinaryOp::Eq => Some(BinaryOp::Neq),
        BinaryOp::Neq => Some(BinaryOp::Eq),
        BinaryOp::StrictEq => Some(BinaryOp::StrictNeq),
        BinaryOp::StrictNeq => Some(BinaryOp::StrictEq),
        BinaryOp::Lt => Some(BinaryOp::Ge),
        BinaryOp::Ge => Some(BinaryOp::Lt),
        BinaryOp::Le => Some(BinaryOp::Gt),
        BinaryOp::Gt => Some(BinaryOp::Le),
        _ => None,
    }
}

/// Two texts with another between them.
pub open spec fn between(a: Seq<char>, m: Seq<char>, b: Seq<char>) -> Seq<char> {
    a + " "@ + m + " "@ + b
}

pub open spec fn choice(a: Seq<char>, b: Seq<char>, c: Seq<char>) -> Seq<char> {
    a + " ? "@ + b + " : "@ + c
}

pub open spec fn after(p: Seq<char>, t: Seq<char>) -> Seq<char> {
    p + t
}

pub open spec fn indexed(open: Seq<char>, k: Seq<char>) -> Seq<char> {
    open + k + "]"@
}

pub open spec fn called(f: Seq<char>, args: Seq<char>) -> Seq<char> {
    f + "("@ + args + ")"@
}

/// Texts in brackets, on one line.
pub open spec fn in_line(open: Seq<char>, ps: Seq<Seq<char>>, close: Seq<char>) -> Seq<char> {
    open + text::joined(ps, ", "@) + close
}

/// Texts in brackets, each on lines of its own.
pub open spec fn on_lines(
    open: Seq<char>,
    ps: Seq<Seq<char>>,
    inner: Seq<char>,
    outer: Seq<char>,
    close: Seq<char>,
) -> Seq<char> {
    open + text::joined(words::all_indented(ps, inner), ",\n"@) + "\n"@ + outer + close
}

/// The text of a leaf.
pub open spec fn leaf_says(s: Seq<char>, v: Val) -> bool {
    match v {
        Val::Constant(Const::Undefined) => s == "undefined"@,
        Val::Constant(Const::Null) => s == "null"@,
        Val::Constant(Const::Bool(true)) => s == "true"@,
        Val::Constant(Const::Bool(false)) => s == "false"@,
        Val::Constant(Const::Integer(n)) => s == text::decimal_int(n as int),
        Val::Constant(Const::Number(n)) => s == n.text,
        Val::Constant(Const::String(x)) => s == names::quoted(x),
        Val::Constant(Const::BigInt(x)) => s == x + "n"@,
        Val::Variable(n) => s == names::sanitized(n),
        Val::Global => s == "globalThis"@,
        Val::This => s == "this"@,
        Val::NewTarget => s == "new.target"@,
        Val::Super => s == "super"@,
        _ => s == display::val_text(v),
    }
}

/// A number below zero is written with a sign.
pub open spec fn leaf_level(v: Val) -> int {
    match v {
        Val::Constant(Const::Integer(n)) => if n < 0 {
            15
        } else {
            17
        },
        Val::Constant(Const::Number(n)) => if n.text.len() > 0 && n.text[0] == '-' {
            15
        } else {
            17
        },
        _ => 17,
    }
}

/// How many of the first arguments are the receiver of the call: `undefined`, or the object whose
/// method is called.
pub open spec fn receivers(callee: Expr, arguments: Seq<Expr>) -> int {
    if arguments.len() >= 2 && arguments[0] == Expr::Value(Val::Constant(Const::Undefined)) {
        1
    } else if arguments.len() >= 1 && (callee matches Expr::Member { object, .. } && *object
        == arguments[0]) {
        1
    } else {
        0
    }
}

/// Whether an expression is a name, or a path of member accesses from one.
pub open spec fn is_path(e: Expr) -> bool
    decreases e,
{
    match e {
        Expr::Value(_) => true,
        Expr::Member { object, property, optional } => is_path(*object) && !optional,
        _ => false,
    }
}

/// Whether a member access unwraps a module that a call of a helper has wrapped.
pub open spec fn unwraps(e: Expr) -> bool {
    e matches Expr::Member { object, property: Key::Ident(p), optional: false } && p
        == "default"@ && (*object matches Expr::Call { callee, arguments } && arguments.len() == 1
        && (*callee matches Expr::Value(Val::Variable(n)) && text::has_part(n, "interop"@)))
}

pub open spec fn unwrapped(e: Expr) -> Expr {
    e->Member_object->Call_arguments[0]
}

pub open spec fn dot(optional: bool) -> Seq<char> {
    if optional {
        "?."@
    } else {
        "."@
    }
}

pub open spec fn bracket(optional: bool) -> Seq<char> {
    if optional {
        "?.["@
    } else {
        "["@
    }
}

pub open spec fn yield_word(delegate: bool) -> Seq<char> {
    if delegate {
        "yield* "@
    } else {
        "yield "@
    }
}

/// A name as the key of a member access.
pub open spec fn name_access(n: Seq<char>, optional: bool) -> Seq<char> {
    if names::valid_identifier(n) {
        dot(optional) + n
    } else {
        indexed(bracket(optional), names::quoted(n))
    }
}

/// Whether a text writes an expression at a level, bare or in parentheses.
pub open spec fn writes(g: Gen, s: Seq<char>, e: Expr, k: int) -> bool
    decreases e, 1nat,
{
    ||| bare(g, s, e, k)
    ||| s.len() >= 2 && s[0] == '(' && s.last() == ')' && bare(
        g,
        s.subrange(1, s.len() - 1),
        e,
        1,
    )
}

/// Whether a text writes an expression at a level without parentheses around it.
pub open spec fn bare(g: Gen, s: Seq<char>, e: Expr, k: int) -> bool
    decreases e, 0nat,
{
    match e {
        Expr::Value(v) => k <= leaf_level(v) && leaf_says(s, v),
        Expr::Binary { op, left, right } => {
            &&& k <= level_of(op)
            &&& exists|a: Seq<char>, b: Seq<char>|
                s == #[trigger] between(a, sign_of(op), b) && writes(g, b, *right, right_level(op))
                    && writes(g, a, *left, left_level(op)) && (op == BinaryOp::NullishCoalescing
                    ==> writes(g, a, *left, 6) || (*left matches Expr::Binary { op: inner, .. }
                    && inner == op))
        },
        Expr::Unary { op, operand } => {
            ||| k <= 15 && exists|t: Seq<char>|
                s == #[trigger] after(unary_sign(op), t) && writes(g, t, *operand, 15)
            ||| match *operand {
                Expr::Binary { op: inner, left, right } => {
                    &&& op == UnaryOp::Not && flipped(inner) is Some
                    &&& k <= level_of(inner)
                    &&& exists|a: Seq<char>, b: Seq<char>|
                        s == #[trigger] between(a, sign_of(flipped(inner)->0), b) && writes(
                            g,
                            a,
                            *left,
                            level_of(inner),
                        ) && writes(g, b, *right, level_of(inner) + 1)
                },
                _ => false,
            }
        },
        Expr::Conditional { condition, then_expr, else_expr } => {
            &&& k <= 2
            &&& exists|a: Seq<char>, b: Seq<char>, c: Seq<char>|
                s == #[trigger] choice(a, b, c) && writes(g, a, *condition, 3) && writes(
                    g,
                    b,
                    *then_expr,
                    1,
                ) && writes(g, c, *else_expr, 1)
        },
        Expr::Assignment { target, value } => {
            &&& k <= 1
            &&& exists|a: Seq<char>, b: Seq<char>|
                s == #[trigger] between(a, "="@, b) && writes(g, a, *target, 16) && writes(
                    g,
                    b,
                    *value,
                    1,
                )
        },
        Expr::Yield { value, delegate } => {
            &&& k <= 1
            &&& exists|t: Seq<char>|
                s == #[trigger] after(yield_word(delegate), t) && writes(g, t, *value, 1)
        },
        Expr::Await(x) => k <= 15 && exists|t: Seq<char>|
            s == #[trigger] after("await "@, t) && writes(g, t, *x, 15),
        Expr::Spread(x) => k <= 0 && exists|t: Seq<char>|
            s == #[trigger] after("..."@, t) && writes(g, t, *x, 1),
        Expr::Member { object, property, optional } => {
            ||| unwraps(e) && (*object matches Expr::Call { arguments, .. } && writes(
                g,
                s,
                arguments[0],
                k,
            ))
            ||| k <= 17 && (property matches Key::Ident(n) && !optional && names::builtin_global(n)
                && s == n && writes(g, "globalThis"@, *object, 16))
            ||| k <= 16 && exists|o: Seq<char>, rest: Seq<char>|
                s == #[trigger] after(o, rest) && writes(g, o, *object, 16) && writes_key(
                    g,
                    rest,
                    property,
                    optional,
                )
        },
        Expr::Call { callee, arguments } => {
            &&& k <= 16
            &&& exists|f: Seq<char>, ps: Seq<Seq<char>>|
                s == #[trigger] called(f, text::joined(ps, ", "@)) && writes(g, f, *callee, 16)
                    && ps.len() == arguments.len() - receivers(*callee, arguments) && forall|i: int|
                    #![trigger ps[i]]
                    0 <= i < ps.len() && 0 <= i + receivers(*callee, arguments) < arguments.len()
                        ==> writes(g, ps[i], arguments[i + receivers(*callee, arguments)], 0)
        },
        Expr::New { callee, arguments } => {
            &&& k <= 16
            &&& is_path(*callee)
            &&& exists|f: Seq<char>, ps: Seq<Seq<char>>|
                s == after("new "@, #[trigger] called(f, text::joined(ps, ", "@))) && writes(
                    g,
                    f,
                    *callee,
                    16,
                ) && ps.len() == arguments.len() && forall|i: int|
                    #![trigger ps[i]]
                    0 <= i < ps.len() && i < arguments.len() ==> writes(g, ps[i], arguments[i], 0)
        },
        Expr::Array { elements } => {
            &&& k <= 17
            &&& exists|ps: Seq<Seq<char>>|
                #![trigger text::joined(ps, ", "@)]
                ps.len() == elements.len() && (s == in_line("["@, ps, "]"@) || exists|
                    x: Seq<char>,
                    y: Seq<char>,
                | s == #[trigger] on_lines("[\n"@, ps, x, y, "]"@)) && forall|i: int|
                    #![trigger ps[i]]
                    0 <= i < ps.len() && i < elements.len() ==> writes_element(
                        g,
                        ps[i],
                        elements[i],
                    )
        },
        Expr::Object { properties } => {
            &&& k <= 17
            &&& s == "{}"@ && properties.len() == 0 || exists|ps: Seq<Seq<char>>|
                #![trigger text::joined(ps, ", "@)]
                ps.len() == properties.len() && (s == in_line("{ "@, ps, " }"@) || exists|
                    x: Seq<char>,
                    y: Seq<char>,
                | s == #[trigger] on_lines("{\n"@, ps, x, y, "}"@)) && forall|i: int|
                    #![trigger ps[i]]
                    0 <= i < ps.len() && i < properties.len() ==> writes_prop(
                        g,
                        ps[i],
                        properties[i],
                    )
        },
        Expr::Function { id, name, is_arrow, is_async, is_generator } => k <= 1 && s
            == expr_gen::function_text(g, id, name, is_arrow, is_async, is_generator),
        Expr::TemplateLiteral { quasis, expressions } => {
            &&& k <= 17
            &&& exists|ps: Seq<Seq<char>>|
                s == "`"@ + #[trigger] expr_gen::template_body(quasis, ps) + "`"@ && ps.len()
                    == expressions.len() && forall|i: int|
                    #![trigger ps[i]]
                    0 <= i < ps.len() && i < expressions.len() ==> writes(
                        g,
                        ps[i],
                        expressions[i],
                        1,
                    )
        },
        Expr::RegExp { pattern, flags } => k <= 17 && s == "/"@ + pattern + "/"@ + flags,
        Expr::JSXElement { tag, attributes, children } => {
            &&& k <= 17
            &&& exists|ps: Seq<Seq<char>>, cs: Seq<Seq<char>>|
                s == #[trigger] expr_gen::element_text(tag, ps, cs) && ps.len() == attributes.len()
                    && cs.len() == children.len() && (forall|i: int|
                    #![trigger ps[i]]
                    0 <= i < ps.len() && i < attributes.len() ==> writes_attr(
                        g,
                        ps[i],
                        attributes[i],
                    )) && (forall|i: int|
                    #![trigger cs[i]]
                    0 <= i < cs.len() && i < children.len() ==> writes_child(
                        g,
                        cs[i],
                        children[i],
                    ))
        },
        Expr::Unknown { opcode, operands } => k <= 17 && s == "/* "@ + opcode + " "@ + text::joined(
            operands,
            ", "@,
        ) + " */"@,
    }
}

/// The key of a member access, behind the object.
pub open spec fn writes_key(g: Gen, s: Seq<char>, key: Key, optional: bool) -> bool
    decreases key, 0nat,
{
    match key {
        Key::Ident(n) => s == name_access(n, optional),
        Key::String(n) => s == name_access(n, optional),
        Key::Index(i) => s == indexed(bracket(optional), text::decimal_int(i as int)),
        Key::Computed(x) => exists|t: Seq<char>|
            s == #[trigger] indexed(bracket(optional), t) && writes(g, t, *x, 1),
    }
}

/// An element of a list; a hole is empty.
pub open spec fn writes_element(g: Gen, s: Seq<char>, o: Option<Expr>) -> bool
    decreases o, 0nat,
{
    match o {
        Some(e) => writes(g, s, e, 0),
        None => s.len() == 0,
    }
}

/// A name in front of a value in an object literal.
pub open spec fn name_key(n: Seq<char>) -> Seq<char> {
    if names::valid_identifier(n) {
        n
    } else {
        names::quoted(n)
    }
}

pub open spec fn entry(key: Seq<char>, value: Seq<char>) -> Seq<char> {
    key + ": "@ + value
}

pub open spec fn computed(k: Seq<char>) -> Seq<char> {
    "["@ + k + "]"@
}

/// A property of an object literal; a spread has no key.
pub open spec fn writes_prop(g: Gen, s: Seq<char>, p: Prop) -> bool
    decreases p, 0nat,
{
    if p.value is Spread {
        bare(g, s, p.value, 0)
    } else {
        match p.key {
            Key::Ident(n) => exists|t: Seq<char>|
                s == #[trigger] entry(name_key(n), t) && writes(g, t, p.value, 1),
            Key::String(n) => exists|t: Seq<char>|
                s == #[trigger] entry(name_key(n), t) && writes(g, t, p.value, 1),
            Key::Index(i) => exists|t: Seq<char>|
                s == #[trigger] entry(text::decimal_int(i as int), t) && writes(g, t, p.value, 1),
            Key::Computed(x) => exists|c: Seq<char>, t: Seq<char>|
                s == #[trigger] entry(computed(c), t) && writes(g, c, *x, 1) && writes(
                    g,
                    t,
                    p.value,
                    1,
                ),
        }
    }
}

pub open spec fn braced(name: Seq<char>, t: Seq<char>) -> Seq<char> {
    name + t + "}"@
}

/// An attribute of an element.
pub open spec fn writes_attr(g: Gen, s: Seq<char>, a: (Seq<char>, Expr)) -> bool
    decreases a, 0nat,
{
    if a.0 == "..."@ {
        exists|t: Seq<char>| s == #[trigger] braced("{..."@, t) && match a.1 {
            Expr::Spread(x) => writes(g, t, *x, 1),
            _ => writes(g, t, a.1, 1),
        }
    } else {
        match a.1 {
            Expr::Value(Val::Constant(Const::String(x))) => s == a.0 + "="@ + text::debug_text(x),
            Expr::Value(Val::Constant(Const::Bool(true))) => s == a.0,
            _ => exists|t: Seq<char>|
                s == #[trigger] braced(a.0 + "={"@, t) && writes(g, t, a.1, 1),
        }
    }
}

/// A child of an element.
pub open spec fn writes_child(g: Gen, s: Seq<char>, e: Expr) -> bool
    decreases e, 2nat,
{
    if e is JSXElement {
        bare(g, s, e, 17)
    } else {
        exists|t: Seq<char>| s == #[trigger] braced("{"@, t) && writes(g, t, e, 0)
    }
}

} // verus!
