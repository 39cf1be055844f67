//! Source text of expressions.

use super::resolve::first_effective;
use super::words::{hang_lines, has_multiline, indent_all};
use super::{lookup_name, resolve, words, Codegen, Gen};
use crate::ir::display;
use crate::ir::model;
use crate::ir::model::{Const, Expr, Key, Prop, Val};
use crate::ir::{
    BinaryOp, Constant, Expression, FunctionId, ObjectProperty, PropertyKey, UnaryOp, Value,
};
use crate::names;
use crate::text;
use vstd::prelude::*;

verus! {

/// `s` in parentheses where they are needed.
pub open spec fn parens_if(needed: bool, s: Seq<char>) -> Seq<char> {
    if needed {
        "("@ + s + ")"@
    } else {
        s
    }
}

/// Whether an expression needs parentheses as an operand of something that binds with rank
/// `parent`. A function binds looser than every operator; what has no rank is atomic.
pub open spec fn needs_parens(e: Expr, parent: int) -> bool {
    match e {
        Expr::Binary { op, .. } => op.rank() < parent,
        Expr::Conditional { .. } => parent > 2,
        Expr::Assignment { .. } => parent > 1,
        Expr::Yield { .. } => parent > 2,
        Expr::Await(_) => parent > 2,
        Expr::Function { .. } => parent > 0,
        Expr::Unary { .. } => parent > 15,
        _ => false,
    }
}

/// Whether a name is that of an interop wrapper.
pub open spec fn interop_callee(e: Expr) -> bool {
    match e {
        Expr::Value(Val::Variable(n)) => text::has_part(n, "interop"@),
        _ => false,
    }
}

pub open spec fn global_object(e: Expr) -> bool {
    match e {
        Expr::Value(Val::Global) => true,
        Expr::Value(Val::Variable(n)) => n == "globalThis"@,
        _ => false,
    }
}

/// The text of a member access, from the texts of its parts.
pub open spec fn member_text(
    object: Seq<char>,
    optional: bool,
    key: Key,
    computed: Seq<char>,
) -> Seq<char> {
    let opened = if optional {
        object + "?.["@
    } else {
        object + "["@
    };
    match key {
        Key::Ident(n) => if names::valid_identifier(n) {
            object + (if optional {
                "?."@
            } else {
                "."@
            }) + n
        } else {
            opened + names::quoted(n) + "]"@
        },
        Key::String(n) => if names::valid_identifier(n) {
            object + (if optional {
                "?."@
            } else {
                "."@
            }) + n
        } else {
            opened + names::quoted(n) + "]"@
        },
        Key::Index(i) => opened + text::decimal_int(i as int) + "]"@,
        Key::Computed(_) => opened + computed + "]"@,
    }
}

/// The text of a key in an object literal.
pub open spec fn key_text(key: Key, computed: Seq<char>) -> Seq<char> {
    match key {
        Key::Ident(n) => if names::valid_identifier(n) {
            n
        } else {
            names::quoted(n)
        },
        Key::String(n) => if names::valid_identifier(n) {
            n
        } else {
            names::quoted(n)
        },
        Key::Index(i) => text::decimal_int(i as int),
        Key::Computed(_) => "["@ + computed + "]"@,
    }
}

/// The comment that names the module a `require` call loads, where the import map knows it.
pub open spec fn import_comment(g: Gen, arguments: Seq<Expr>, callee: Seq<char>) -> Seq<char> {
    let at = resolve::receiver_args(arguments);
    if callee == "require"@ && g.imports is Some && at < arguments.len() {
        match arguments[at] {
            Expr::Value(Val::Constant(Const::Integer(id))) => match super::named(
                g.imports->0,
                id as u32,
            ) {
                Some(name) => " /* "@ + name + " */"@,
                None => Seq::empty(),
            },
            _ => Seq::empty(),
        }
    } else {
        Seq::empty()
    }
}

/// How many leading arguments a call does not write: the `undefined` receiver, or the object
/// of a method call handed over as its own receiver.
pub open spec fn hidden_args(callee: Option<Expr>, arguments: Seq<Expr>) -> int {
    if resolve::receiver_args(arguments) == 1 {
        1
    } else {
        match callee {
            Some(Expr::Member { object, .. }) => if arguments.len() > 0 && arguments[0] == *object {
                1
            } else {
                0
            },
            _ => 0,
        }
    }
}

/// The text of an ordinary call.
pub open spec fn plain_call(
    callee_text: Seq<char>,
    callee: Option<Expr>,
    arguments: Seq<Expr>,
    args: Seq<Seq<char>>,
    comment: Seq<char>,
) -> Seq<char> {
    callee_text + "("@ + text::joined(
        args.subrange(hidden_args(callee, arguments), args.len() as int),
        ", "@,
    ) + comment + ")"@
}

/// Whether the callee is Hermes' string concatenation helper.
pub open spec fn concat_callee(callee: Seq<char>) -> bool {
    ||| text::has_suffix(callee, "HermesInternal.concat.call"@)
    ||| text::has_suffix(callee, "HermesInternal.concat"@)
}

pub open spec fn empty_literal(s: Seq<char>) -> bool {
    s == "\"\""@ || s == "''"@ || s == "``"@ || s == "`\\``"@
}

/// A call of the concatenation helper as a sum. An empty receiver of `.call` is left out.
pub open spec fn concat_text(callee: Seq<char>, args: Seq<Seq<char>>) -> Seq<char> {
    let from: int = if text::has_suffix(callee, ".call"@) && args.len() > 0 && empty_literal(
        args[0],
    ) {
        1
    } else {
        0
    };
    if from >= args.len() {
        "\"\""@
    } else {
        text::joined(args.subrange(from, args.len() as int), " + "@)
    }
}

/// A call of a `HermesBuiltin_` helper under its plain name; `None` where the callee is none.
pub open spec fn builtin_text(callee: Seq<char>, args: Seq<Seq<char>>) -> Option<Seq<char>> {
    let dot_call = text::has_suffix(callee, ".call"@);
    let base = if dot_call {
        text::without_suffixes(callee, ".call"@)
    } else {
        callee
    };
    match text::find_in(base, "HermesBuiltin_"@) {
        Some(pos) => {
            let name = base.subrange(pos + "HermesBuiltin_"@.len(), base.len() as int);
            let from: int = if dot_call && args.len() > 0 {
                1
            } else {
                0
            };
            let list = text::joined(args.subrange(from, args.len() as int), ", "@);
            if name == "copyDataProperties"@ {
                Some("Object.assign("@ + list + ")"@)
            } else {
                Some(name + "("@ + list + ")"@)
            }
        },
        None => None,
    }
}

/// The text of a call, from the texts of its parts. `object` is the text of the object of a
/// member callee.
pub open spec fn call_text(
    g: Gen,
    callee: Expr,
    arguments: Seq<Expr>,
    callee_text: Seq<char>,
    object: Seq<char>,
    args: Seq<Seq<char>>,
) -> Seq<char> {
    if g.esm && resolve::required(g, arguments) is Some {
        "require(\""@ + (resolve::required(g, arguments)->0).0 + "\")"@
    } else if is_apply(callee) && args.len() >= 2 && args.last() == "arguments"@ {
        object + "(...arguments)"@
    } else if concat_callee(callee_text) {
        concat_text(callee_text, args)
    } else if builtin_text(callee_text, args) is Some {
        builtin_text(callee_text, args)->0
    } else {
        plain_call(
            callee_text,
            Some(callee),
            arguments,
            args,
            import_comment(g, arguments, callee_text),
        )
    }
}

pub open spec fn is_apply(callee: Expr) -> bool {
    match callee {
        Expr::Member { property: Key::Ident(n), .. } => n == "apply"@,
        _ => false,
    }
}

/// A bracketed list on one line, or one entry per line where an entry has several lines.
pub open spec fn list_text(
    g: Gen,
    parts: Seq<Seq<char>>,
    open_line: Seq<char>,
    close_line: Seq<char>,
    open_many: Seq<char>,
    close_many: Seq<char>,
) -> Seq<char> {
    if words::any_multiline(parts) {
        let indent = text::repeated(g.indent, g.level);
        open_many + text::joined(words::all_indented(parts, indent + "  "@), ",\n"@) + "\n"@
            + indent + close_many
    } else {
        open_line + text::joined(parts, ", "@) + close_line
    }
}

/// The text of a function expression. A known body is written with its later lines indented.
pub open spec fn function_text(
    g: Gen,
    id: FunctionId,
    name: Option<Seq<char>>,
    is_arrow: bool,
    is_async: bool,
    is_generator: bool,
) -> Seq<char> {
    match super::named(g.bodies, id.0) {
        Some(rendered) => if g.level > 0 {
            words::hang(text::lines(rendered), Seq::empty(), text::repeated(g.indent, g.level))
        } else {
            rendered
        },
        None => {
            let asyncp = if is_async {
                "async "@
            } else {
                ""@
            };
            let star = if is_generator && !is_async {
                "*"@
            } else {
                ""@
            };
            match name {
                Some(n) => if is_arrow {
                    asyncp + "function "@ + n + "() { ... }"@
                } else {
                    asyncp + "function"@ + star + " "@ + n + "() { ... }"@
                },
                None => if is_arrow {
                    asyncp + "() => { ... }"@
                } else {
                    "/* F"@ + text::decimal(id.0 as nat) + " */ "@ + asyncp + "function"@ + star
                        + "() { ... }"@
                },
            }
        },
    }
}

/// A template literal's text part, with backticks, backslashes and `${` escaped.
pub open spec fn quasi_text(s: Seq<char>) -> Seq<char>
    decreases s.len(),
{
    if s.len() == 0 {
        Seq::empty()
    } else {
        let rest = quasi_text(s.subrange(1, s.len() as int));
        if s[0] == '\\' {
            seq!['\\', '\\'] + rest
        } else if s[0] == '`' {
            seq!['\\', '`'] + rest
        } else if s[0] == '$' && s.len() > 1 && s[1] == '{' {
            seq!['\\', '$'] + rest
        } else {
            seq![s[0]] + rest
        }
    }
}

/// The text parts of a template literal, each followed by its substitution where there is one.
pub open spec fn template_body(quasis: Seq<Seq<char>>, subs: Seq<Seq<char>>) -> Seq<char>
    decreases quasis.len(),
{
    if quasis.len() == 0 {
        Seq::empty()
    } else {
        let before = template_body(quasis.drop_last(), subs) + quasi_text(quasis.last());
        if quasis.len() <= subs.len() {
            before + "${"@ + subs[quasis.len() - 1] + "}"@
        } else {
            before
        }
    }
}

/// The text of one JSX attribute. Spread properties stand as `{...obj}`, whether or not the value
/// is itself a spread.
pub open spec fn attribute_text(key: Seq<char>, value: Expr, value_text: Seq<char>) -> Seq<char> {
    if key == "..."@ {
        if value is Spread {
            "{"@ + value_text + "}"@
        } else {
            "{..."@ + value_text + "}"@
        }
    } else {
        match value {
            Expr::Value(Val::Constant(Const::String(s))) => key + "="@ + text::debug_text(s),
            Expr::Value(Val::Constant(Const::Bool(true))) => key,
            _ => key + "={"@ + value_text + "}"@,
        }
    }
}

/// The text of one JSX child: an element stands as it is, anything else in braces.
pub open spec fn child_text(child: Expr, s: Seq<char>) -> Seq<char> {
    if child is JSXElement {
        s
    } else {
        "{"@ + s + "}"@
    }
}

pub open spec fn children_text(children: Seq<Expr>, texts: Seq<Seq<char>>) -> Seq<Seq<char>> {
    Seq::new(texts.len(), |i: int| child_text(children[i], texts[i]))
}

/// The text of a JSX element, from the texts of its parts.
pub open spec fn element_text(
    tag: Seq<char>,
    attrs: Seq<Seq<char>>,
    children: Seq<Seq<char>>,
) -> Seq<char> {
    let attr = if attrs.len() == 0 {
        ""@
    } else {
        " "@ + text::joined(attrs, " "@)
    };
    if children.len() == 0 {
        if tag.len() == 0 {
            "<></>"@
        } else {
            "<"@ + tag + attr + " />"@
        }
    } else {
        "<"@ + tag + attr + ">"@ + text::chained(children) + "</"@ + tag + ">"@
    }
}

/// The source text of an expression.
pub open spec fn expr_text(g: Gen, e: Expr) -> Seq<char>
    decreases e,
{
    match e {
        Expr::Value(v) => display::val_text(v),
        Expr::Binary { op, left, right } => {
            let lp: int = if op == BinaryOp::Exp {
                op.rank() + 1
            } else {
                op.rank() as int
            };
            let rp: int = if op == BinaryOp::Exp {
                op.rank() as int
            } else {
                op.rank() + 1
            };
            parens_if(needs_parens(*left, lp), expr_text(g, *left)) + " "@ + op.symbol() + " "@
                + parens_if(needs_parens(*right, rp), expr_text(g, *right))
        },
        Expr::Unary { op, operand } => match *operand {
            Expr::Binary { op: inner, left, right } => if op == UnaryOp::Not {
                match inner.opposite() {
                    Some(neg) => parens_if(
                        needs_parens(*left, neg.rank() as int),
                        expr_text(g, *left),
                    ) + " "@ + neg.symbol() + " "@ + parens_if(
                        needs_parens(*right, neg.rank() as int),
                        expr_text(g, *right),
                    ),
                    None => op.symbol() + "("@ + expr_text(g, *operand) + ")"@,
                }
            } else {
                op.symbol() + expr_text(g, *operand)
            },
            Expr::Conditional { .. } => op.symbol() + "("@ + expr_text(g, *operand) + ")"@,
            Expr::Assignment { .. } => op.symbol() + "("@ + expr_text(g, *operand) + ")"@,
            _ => op.symbol() + expr_text(g, *operand),
        },
        Expr::Conditional { condition, then_expr, else_expr } => parens_if(
            needs_parens(*condition, 3),
            expr_text(g, *condition),
        ) + " ? "@ + parens_if(needs_parens(*then_expr, 3), expr_text(g, *then_expr)) + " : "@
            + parens_if(needs_parens(*else_expr, 2), expr_text(g, *else_expr)),
        Expr::Member { object, property, optional } => {
            let plain = !optional && property is Ident;
            if plain && property->Ident_0 == "default"@ && *object is Call && interop_callee(
                *object->Call_callee,
            ) && object->Call_arguments.len() == 1 {
                expr_text(g, object->Call_arguments[0])
            } else if plain && names::builtin_global(property->Ident_0) && (global_object(*object)
                || expr_text(g, *object) == "globalThis"@) {
                property->Ident_0
            } else {
                member_text(
                    expr_text(g, *object),
                    optional,
                    property,
                    match property {
                        Key::Computed(k) => expr_text(g, *k),
                        _ => Seq::empty(),
                    },
                )
            }
        },
        Expr::Call { callee, arguments } => call_text(
            g,
            *callee,
            arguments,
            parens_if(*callee is Function, expr_text(g, *callee)),
            match *callee {
                Expr::Member { object, .. } => expr_text(g, *object),
                _ => Seq::empty(),
            },
            exprs_text(g, arguments),
        ),
        Expr::New { callee, arguments } => "new "@ + expr_text(g, *callee) + "("@ + text::joined(
            exprs_text(g, arguments),
            ", "@,
        ) + ")"@,
        Expr::Array { elements } => list_text(
            g,
            elements_text(g, elements),
            "["@,
            "]"@,
            "[\n"@,
            "]"@,
        ),
        Expr::Object { properties } => if properties.len() == 0 {
            "{}"@
        } else {
            list_text(g, props_text(g, properties), "{ "@, " }"@, "{\n"@, "}"@)
        },
        Expr::Function { id, name, is_arrow, is_async, is_generator } => function_text(
            g,
            id,
            name,
            is_arrow,
            is_async,
            is_generator,
        ),
        Expr::Assignment { target, value } => expr_text(g, *target) + " = "@ + expr_text(g, *value),
        Expr::Spread(inner) => "..."@ + expr_text(g, *inner),
        Expr::TemplateLiteral { quasis, expressions } => "`"@ + template_body(
            quasis,
            exprs_text(g, expressions),
        ) + "`"@,
        Expr::RegExp { pattern, flags } => "/"@ + pattern + "/"@ + flags,
        Expr::Yield { value, delegate } => if delegate {
            "yield* "@ + expr_text(g, *value)
        } else {
            "yield "@ + expr_text(g, *value)
        },
        Expr::Await(value) => "await "@ + expr_text(g, *value),
        Expr::JSXElement { tag, attributes, children } => element_text(
            tag,
            attrs_text(g, attributes),
            children_text(children, exprs_text(g, children)),
        ),
        Expr::Unknown { opcode, operands } => "/* "@ + opcode + " "@ + text::joined(
            operands,
            ", "@,
        ) + " */"@,
    }
}

pub open spec fn exprs_text(g: Gen, es: Seq<Expr>) -> Seq<Seq<char>>
    decreases es,
{
    Seq::new(
        es.len(),
        |i: int|
            if 0 <= i < es.len() {
                expr_text(g, es[i])
            } else {
                arbitrary()
            },
    )
}

/// The texts of array elements; a hole is the empty text.
pub open spec fn elements_text(g: Gen, es: Seq<Option<Expr>>) -> Seq<Seq<char>>
    decreases es,
{
    Seq::new(
        es.len(),
        |i: int|
            if 0 <= i < es.len() {
                match es[i] {
                    Some(e) => expr_text(g, e),
                    None => Seq::empty(),
                }
            } else {
                arbitrary()
            },
    )
}

/// The text of an object property; a spread has no key.
pub open spec fn prop_text(g: Gen, p: Prop) -> Seq<char>
    decreases p,
{
    if p.value is Spread {
        expr_text(g, p.value)
    } else {
        key_text(
            p.key,
            match p.key {
                Key::Computed(k) => expr_text(g, *k),
                _ => Seq::empty(),
            },
        ) + ": "@ + expr_text(g, p.value)
    }
}

pub open spec fn props_text(g: Gen, ps: Seq<Prop>) -> Seq<Seq<char>>
    decreases ps,
{
    Seq::new(
        ps.len(),
        |i: int|
            if 0 <= i < ps.len() {
                prop_text(g, ps[i])
            } else {
                arbitrary()
            },
    )
}

pub open spec fn attrs_text(g: Gen, attrs: Seq<(Seq<char>, Expr)>) -> Seq<Seq<char>>
    decreases attrs,
{
    Seq::new(
        attrs.len(),
        |i: int|
            if 0 <= i < attrs.len() {
                attribute_text(attrs[i].0, attrs[i].1, expr_text(g, attrs[i].1))
            } else {
                arbitrary()
            },
    )
}

pub fn is_global_object(e: &Expression) -> (r: bool)
    ensures
        r == global_object(e@),
{
    match e {
        Expression::Value(Value::Global) => true,
        Expression::Value(Value::Variable(n)) => text::same(n, "globalThis"),
        _ => false,
    }
}

fn is_interop_callee(e: &Expression) -> (r: bool)
    ensures
        r == interop_callee(e@),
{
    match e {
        Expression::Value(Value::Variable(n)) => text::contains(n, "interop"),
        _ => false,
    }
}

fn operand_needs_parens(e: &Expression, parent: u8) -> (r: bool)
    ensures
        r == needs_parens(e@, parent as int),
{
    match e {
        Expression::Binary { op, .. } => op.precedence() < parent,
        Expression::Conditional { .. } => parent > 2,
        Expression::Assignment { .. } => parent > 1,
        Expression::Yield { .. } => parent > 2,
        Expression::Await(_) => parent > 2,
        Expression::Function { .. } => parent > 0,
        Expression::Unary { .. } => parent > 15,
        _ => false,
    }
}

fn put_parens(needed: bool, s: String) -> (r: String)
    ensures
        r@ == parens_if(needed, s@),
{
    if needed {
        text::concat3("(", &s, ")")
    } else {
        s
    }
}

/// Writes a member access from the texts of its parts.
pub fn format_member_access(
    object: &str,
    optional: bool,
    key: &PropertyKey,
    computed: &str,
) -> (r: String)
    ensures
        r@ == member_text(object@, optional, key@, computed@),
{
    let opened = if optional {
        text::concat2(object, "?.[")
    } else {
        text::concat2(object, "[")
    };
    match key {
        PropertyKey::Ident(n) | PropertyKey::String(n) => if names::is_valid_identifier(n) {
            let dot = if optional {
                "?."
            } else {
                "."
            };
            text::concat3(object, dot, n)
        } else {
            text::concat3(&opened, &names::quote(n), "]")
        },
        PropertyKey::Index(i) => text::concat3(&opened, &text::decimal_of_int(*i), "]"),
        PropertyKey::Computed(_) => text::concat3(&opened, computed, "]"),
    }
}

fn format_object_key(key: &PropertyKey, computed: &str) -> (r: String)
    ensures
        r@ == key_text(key@, computed@),
{
    match key {
        PropertyKey::Ident(n) | PropertyKey::String(n) => if names::is_valid_identifier(n) {
            n.clone()
        } else {
            names::quote(n)
        },
        PropertyKey::Index(i) => text::decimal_of_int(*i),
        PropertyKey::Computed(_) => text::concat3("[", computed, "]"),
    }
}

fn format_concat(callee: &str, args: &Vec<String>) -> (r: String)
    ensures
        r@ == concat_text(callee@, model::texts(args@)),
{
    let from: usize = if text::ends_with(callee, ".call") && args.len() > 0 && (text::same(
        &args[0],
        "\"\"",
    ) || text::same(&args[0], "''") || text::same(&args[0], "``") || text::same(
        &args[0],
        "`\\``",
    )) {
        1
    } else {
        0
    };
    if from >= args.len() {
        return "\"\"".to_owned();
    }
    text::join_from(args, from, " + ")
}

fn format_builtin(callee: &str, args: &Vec<String>) -> (r: Option<String>)
    ensures
        text::opt(r) == builtin_text(callee@, model::texts(args@)),
{
    let dot_call: bool = text::ends_with(callee, ".call");
    let base = if dot_call {
        text::strip_suffixes(callee, ".call")
    } else {
        callee.to_owned()
    };
    match text::find(&base, "HermesBuiltin_") {
        Some(pos) => {
            let n: usize = base.as_str().unicode_len();
            let m: usize = "HermesBuiltin_".unicode_len();
            let name = text::slice(&base, pos + m, n);
            let from: usize = if dot_call && args.len() > 0 {
                1
            } else {
                0
            };
            let list = text::join_from(args, from, ", ");
            if text::same(&name, "copyDataProperties") {
                Some(text::concat3("Object.assign(", &list, ")"))
            } else {
                Some(text::concat4(&name, "(", &list, ")"))
            }
        },
        None => None,
    }
}

/// Writes an ordinary call from the texts of its parts.
pub fn format_call(
    callee_text: &str,
    callee: Option<&Expression>,
    arguments: &Vec<Expression>,
    args: &Vec<String>,
    comment: &str,
) -> (r: String)
    requires
        args@.len() == arguments@.len(),
    ensures
        r@ == plain_call(
            callee_text@,
            match callee {
                Some(c) => Some(c@),
                None => None,
            },
            model::exprs(arguments@),
            model::texts(args@),
            comment@,
        ),
{
    let mut from: usize = first_effective(arguments);
    if from == 0 {
        if let Some(Expression::Member { object, .. }) = callee {
            if arguments.len() > 0 && arguments[0].same(object) {
                from = 1;
            }
        }
    }
    let mut out = callee_text.to_owned();
    out.append("(");
    out.append(text::join_from(args, from, ", ").as_str());
    out.append(comment);
    out.append(")");
    out
}

/// Escapes a template literal's text part, so that it does not end the literal early.
pub fn escape_template_quasi(s: &str) -> (r: String)
    ensures
        r@ == quasi_text(s@),
{
    let v = text::chars_of(s);
    let mut out = String::new();
    let mut i: usize = 0;
    assert(s@.subrange(0, s@.len() as int) =~= s@);
    assert(out@ + quasi_text(s@) =~= quasi_text(s@));
    while i < v.len()
        invariant
            v@ == s@,
            i <= v.len(),
            quasi_text(s@) == out@ + quasi_text(s@.subrange(i as int, s@.len() as int)),
        decreases v.len() - i,
    {
        let c: char = v[i];
        let ghost before = out@;
        let ghost rest = s@.subrange(i as int, s@.len() as int);
        let ghost later = quasi_text(s@.subrange(i + 1, s@.len() as int));
        assert(rest.subrange(1, rest.len() as int) =~= s@.subrange(i + 1, s@.len() as int));
        if c == '\\' {
            out.push('\\');
            out.push('\\');
            assert(before + (seq!['\\', '\\'] + later) =~= out@ + later);
        } else if c == '`' {
            out.push('\\');
            out.push('`');
            assert(before + (seq!['\\', '`'] + later) =~= out@ + later);
        } else if c == '$' && i + 1 < v.len() && v[i + 1] == '{' {
            out.push('\\');
            out.push('$');
            assert(before + (seq!['\\', '$'] + later) =~= out@ + later);
        } else {
            out.push(c);
            assert(before + (seq![c] + later) =~= out@ + later);
        }
        i += 1;
    }
    assert(out@ + Seq::<char>::empty() =~= out@);
    out
}

fn format_template(quasis: &Vec<String>, subs: &Vec<String>) -> (r: String)
    ensures
        r@ == "`"@ + template_body(model::texts(quasis@), model::texts(subs@)) + "`"@,
{
    let ghost all = model::texts(quasis@);
    let ghost given = model::texts(subs@);
    let mut out = String::new();
    let mut i: usize = 0;
    while i < quasis.len()
        invariant
            i <= quasis.len(),
            all == model::texts(quasis@),
            given == model::texts(subs@),
            out@ == template_body(all.take(i as int), given),
        decreases quasis.len() - i,
    {
        assert(all.take(i + 1).drop_last() =~= all.take(i as int));
        out.append(escape_template_quasi(&quasis[i]).as_str());
        if i < subs.len() {
            out.append("${");
            out.append(subs[i].as_str());
            out.append("}");
        }
        i += 1;
    }
    assert(all.take(all.len() as int) =~= all);
    text::concat3("`", &out, "`")
}

fn format_element(tag: &str, attrs: &Vec<String>, children: &Vec<String>) -> (r: String)
    ensures
        r@ == element_text(tag@, model::texts(attrs@), model::texts(children@)),
{
    let attr = if attrs.len() == 0 {
        "".to_owned()
    } else {
        text::concat2(" ", &text::join(attrs, " "))
    };
    if children.len() == 0 {
        if tag.is_empty() {
            "<></>".to_owned()
        } else {
            text::concat4("<", tag, &attr, " />")
        }
    } else {
        let mut out = text::concat4("<", tag, &attr, ">");
        out.append(text::chain(children).as_str());
        out.append("</");
        out.append(tag);
        out.append(">");
        out
    }
}

fn wrap_children(children: &Vec<Expression>, texts: &Vec<String>) -> (r: Vec<String>)
    requires
        children@.len() == texts@.len(),
    ensures
        model::texts(r@) == children_text(model::exprs(children@), model::texts(texts@)),
{
    let mut out: Vec<String> = Vec::new();
    let mut i: usize = 0;
    while i < texts.len()
        invariant
            i <= texts.len(),
            children@.len() == texts@.len(),
            out.len() == i,
            forall|k: int|
                0 <= k < i ==> (#[trigger] out@[k])@ == child_text(children@[k]@, texts@[k]@),
        decreases texts.len() - i,
    {
        match &children[i] {
            Expression::JSXElement { .. } => out.push(texts[i].clone()),
            _ => out.push(text::concat3("{", &texts[i], "}")),
        }
        i += 1;
    }
    assert(model::texts(out@) =~= children_text(model::exprs(children@), model::texts(texts@)));
    out
}

impl Codegen {
    fn format_list(
        &self,
        parts: &Vec<String>,
        open_line: &str,
        close_line: &str,
        open_many: &str,
        close_many: &str,
    ) -> (r: String)
        ensures
            r@ == list_text(
                self@,
                model::texts(parts@),
                open_line@,
                close_line@,
                open_many@,
                close_many@,
            ),
    {
        if has_multiline(parts) {
            let indent = self.current_indent();
            let items = indent_all(parts, &text::concat2(&indent, "  "));
            let mut out = open_many.to_owned();
            out.append(text::join(&items, ",\n").as_str());
            out.append("\n");
            out.append(&indent);
            out.append(close_many);
            out
        } else {
            text::concat3(open_line, &text::join(parts, ", "), close_line)
        }
    }

    fn format_function(
        &self,
        id: FunctionId,
        name: &Option<String>,
        is_arrow: bool,
        is_async: bool,
        is_generator: bool,
    ) -> (r: String)
        ensures
            r@ == function_text(
                self@,
                id,
                model::opt_text(*name),
                is_arrow,
                is_async,
                is_generator,
            ),
    {
        if let Some(rendered) = lookup_name(&self.inline_bodies, id.0) {
            return if self.indent_level > 0 {
                proof {
                    reveal_strlit("");
                    assert(""@ =~= Seq::<char>::empty());
                }
                hang_lines(&rendered, "", &self.current_indent())
            } else {
                rendered
            };
        }
        let asyncp = if is_async {
            "async "
        } else {
            ""
        };
        let star = if is_generator && !is_async {
            "*"
        } else {
            ""
        };
        match name {
            Some(n) => if is_arrow {
                text::concat4(asyncp, "function ", n, "() { ... }")
            } else {
                let mut out = text::concat5(asyncp, "function", star, " ", n);
                out.append("() { ... }");
                out
            },
            None => if is_arrow {
                text::concat2(asyncp, "() => { ... }")
            } else {
                let mut out = text::concat3("/* F", &text::decimal_of(id.0 as u64), " */ ");
                out.append(asyncp);
                out.append("function");
                out.append(star);
                out.append("() { ... }");
                out
            },
        }
    }

    fn import_note(&self, arguments: &Vec<Expression>, callee: &str) -> (r: String)
        ensures
            r@ == import_comment(self@, model::exprs(arguments@), callee@),
    {
        let at: usize = first_effective(arguments);
        if !text::same(callee, "require") || at >= arguments.len() {
            return String::new();
        }
        if let Some(map) = &self.import_map {
            assert(model::exprs(arguments@)[at as int] == arguments@[at as int]@);
            if let Expression::Value(Value::Constant(Constant::Integer(id))) = &arguments[at] {
                if let Some(name) = lookup_name(map, *id as u32) {
                    return text::concat3(" /* ", &name, " */");
                }
            }
        }
        String::new()
    }

    fn format_any_call(
        &self,
        callee: &Expression,
        arguments: &Vec<Expression>,
        callee_text: &str,
        object: &str,
        args: &Vec<String>,
    ) -> (r: String)
        requires
            args@.len() == arguments@.len(),
        ensures
            r@ == call_text(
                self@,
                callee@,
                model::exprs(arguments@),
                callee_text@,
                object@,
                model::texts(args@),
            ),
    {
        if self.esm_mode {
            if let Some((name, _)) = self.required_module(arguments) {
                return text::concat3("require(\"", &name, "\")");
            }
        }
        let applied: bool = match callee {
            Expression::Member { property: PropertyKey::Ident(n), .. } => text::same(n, "apply"),
            _ => false,
        };
        assert(applied == is_apply(callee@)) by {
            reveal_with_fuel(Expression::view, 2);
            reveal_with_fuel(PropertyKey::view, 2);
        }
        if applied && args.len() >= 2 && text::same(&args[args.len() - 1], "arguments") {
            return text::concat2(object, "(...arguments)");
        }
        if text::ends_with(callee_text, "HermesInternal.concat.call") || text::ends_with(
            callee_text,
            "HermesInternal.concat",
        ) {
            return format_concat(callee_text, args);
        }
        if let Some(s) = format_builtin(callee_text, args) {
            return s;
        }
        let comment = self.import_note(arguments, callee_text);
        format_call(callee_text, Some(callee), arguments, args, &comment)
    }

    /// Writes an expression, in parentheses where an operator of rank `parent_prec` around it
    /// needs them.
    pub fn generate_expr_with_parens(&self, e: &Expression, parent_prec: u8) -> (r: String)
        ensures
            r@ == parens_if(needs_parens(e@, parent_prec as int), expr_text(self@, e@)),
        decreases e, 2nat,
    {
        put_parens(operand_needs_parens(e, parent_prec), self.generate_expr(e))
    }

    /// Writes an expression.
    pub fn generate_expr(&self, e: &Expression) -> (r: String)
        ensures
            r@ == expr_text(self@, e@),
        decreases e, 1nat,
    {
        match e {
            Expression::Value(v) => v.text(),
            Expression::Binary { op, left, right } => {
                let prec: u8 = op.precedence();
                let lp: u8 = if *op == BinaryOp::Exp {
                    prec + 1
                } else {
                    prec
                };
                let rp: u8 = if *op == BinaryOp::Exp {
                    prec
                } else {
                    prec + 1
                };
                let l = self.generate_expr_with_parens(left, lp);
                let r = self.generate_expr_with_parens(right, rp);
                text::concat5(&l, " ", op.text(), " ", &r)
            },
            Expression::Unary { op, operand } => self.generate_unary(*op, operand),
            Expression::Conditional { condition, then_expr, else_expr } => {
                let c = self.generate_expr_with_parens(condition, 3);
                let t = self.generate_expr_with_parens(then_expr, 3);
                let f = self.generate_expr_with_parens(else_expr, 2);
                text::concat5(&c, " ? ", &t, " : ", &f)
            },
            Expression::Member { .. } => self.generate_member(e),
            Expression::Call { .. } => self.generate_call(e),
            Expression::New { callee, arguments } => {
                let c = self.generate_expr(callee);
                let list = self.join_exprs(arguments);
                text::concat5("new ", &c, "(", &list, ")")
            },
            Expression::Array { elements } => {
                let parts = self.generate_elements(elements);
                self.format_list(&parts, "[", "]", "[\n", "]")
            },
            Expression::Object { properties } => if properties.len() == 0 {
                assert(model::props(properties@).len() == 0);
                "{}".to_owned()
            } else {
                assert(model::props(properties@).len() > 0);
                let parts = self.generate_props(properties);
                self.format_list(&parts, "{ ", " }", "{\n", "}")
            },
            Expression::Function { id, name, is_arrow, is_async, is_generator } => {
                self.format_function(*id, name, *is_arrow, *is_async, *is_generator)
            },
            Expression::Assignment { target, value } => {
                let t = self.generate_expr(target);
                let v = self.generate_expr(value);
                text::concat3(&t, " = ", &v)
            },
            Expression::Spread(inner) => text::concat2("...", &self.generate_expr(inner)),
            Expression::TemplateLiteral { quasis, expressions } => {
                let subs = self.generate_exprs(expressions);
                format_template(quasis, &subs)
            },
            Expression::RegExp { pattern, flags } => text::concat4("/", pattern, "/", flags),
            Expression::Yield { value, delegate } => if *delegate {
                text::concat2("yield* ", &self.generate_expr(value))
            } else {
                text::concat2("yield ", &self.generate_expr(value))
            },
            Expression::Await(value) => text::concat2("await ", &self.generate_expr(value)),
            Expression::JSXElement { tag, attributes, children } => {
                let attrs = self.generate_attrs(attributes);
                let inner = self.generate_exprs(children);
                let wrapped = wrap_children(children, &inner);
                format_element(tag, &attrs, &wrapped)
            },
            Expression::Unknown { opcode, operands } => text::concat5(
                "/* ",
                opcode,
                " ",
                &text::join(operands, ", "),
                " */",
            ),
        }
    }

    fn generate_unary(&self, op: UnaryOp, operand: &Box<Expression>) -> (r: String)
        ensures
            r@ == expr_text(self@, (Expr::Unary { op, operand: Box::new(operand@) })),
        decreases operand, 2nat,
    {
        match &**operand {
            Expression::Binary { op: inner, left, right } => if op == UnaryOp::Not {
                match inner.negated() {
                    Some(neg) => {
                        let prec: u8 = neg.precedence();
                        let l = self.generate_expr_with_parens(left, prec);
                        let r = self.generate_expr_with_parens(right, prec);
                        text::concat5(&l, " ", neg.text(), " ", &r)
                    },
                    None => text::concat4(op.text(), "(", &self.generate_expr(operand), ")"),
                }
            } else {
                text::concat2(op.text(), &self.generate_expr(operand))
            },
            Expression::Conditional { .. } | Expression::Assignment { .. } => text::concat4(
                op.text(),
                "(",
                &self.generate_expr(operand),
                ")",
            ),
            _ => text::concat2(op.text(), &self.generate_expr(operand)),
        }
    }

    fn generate_computed_key(&self, key: &PropertyKey) -> (r: String)
        ensures
            r@ == (match key@ {
                Key::Computed(k) => expr_text(self@, *k),
                _ => Seq::empty(),
            }),
        decreases key, 1nat,
    {
        match key {
            PropertyKey::Computed(k) => self.generate_expr(k),
            _ => String::new(),
        }
    }

    fn generate_member(&self, e: &Expression) -> (r: String)
        requires
            e@ is Member,
        ensures
            r@ == expr_text(self@, e@),
        decreases e, 0nat,
    {
        proof {
            reveal_with_fuel(Expression::view, 3);
            reveal_with_fuel(PropertyKey::view, 2);
            reveal_with_fuel(model::exprs, 2);
        }
        if let Expression::Member { object, property, optional } = e {
            let obj = self.generate_expr(object);
            if !*optional {
                if let PropertyKey::Ident(name) = property {
                    if text::same(name, "default") {
                        if let Expression::Call { callee, arguments } = &**object {
                            if arguments.len() == 1 && is_interop_callee(callee) {
                                return self.generate_expr(&arguments[0]);
                            }
                        }
                    }
                    if names::is_builtin_global(name) && (is_global_object(object) || text::same(
                        &obj,
                        "globalThis",
                    )) {
                        return name.clone();
                    }
                }
            }
            let computed = self.generate_computed_key(property);
            format_member_access(&obj, *optional, property, &computed)
        } else {
            String::new()
        }
    }

    fn generate_call(&self, e: &Expression) -> (r: String)
        requires
            e@ is Call,
        ensures
            r@ == expr_text(self@, e@),
        decreases e, 0nat,
    {
        if let Expression::Call { callee, arguments } = e {
            let plain = self.generate_expr(callee);
            let is_function: bool = match &**callee {
                Expression::Function { .. } => true,
                _ => false,
            };
            let callee_text = put_parens(is_function, plain);
            let object = match &**callee {
                Expression::Member { object, .. } => self.generate_expr(object),
                _ => String::new(),
            };
            let args = self.generate_exprs(arguments);
            self.format_any_call(callee, arguments, &callee_text, &object, &args)
        } else {
            String::new()
        }
    }

    /// Writes expressions with commas between them.
    pub fn join_exprs(&self, es: &Vec<Expression>) -> (r: String)
        ensures
            r@ == text::joined(exprs_text(self@, model::exprs(es@)), ", "@),
        decreases es, 1nat,
    {
        text::join(&self.generate_exprs(es), ", ")
    }

    /// Writes each expression.
    pub fn generate_exprs(&self, es: &Vec<Expression>) -> (r: Vec<String>)
        ensures
            model::texts(r@) == exprs_text(self@, model::exprs(es@)),
            r@.len() == es@.len(),
        decreases es, 0nat,
    {
        let mut out: Vec<String> = Vec::new();
        let mut i: usize = 0;
        while i < es.len()
            invariant
                i <= es.len(),
                out.len() == i,
                forall|k: int| 0 <= k < i ==> (#[trigger] out@[k])@ == expr_text(self@, es@[k]@),
            decreases es.len() - i,
        {
            out.push(self.generate_expr(&es[i]));
            i += 1;
        }
        assert(model::texts(out@) =~= exprs_text(self@, model::exprs(es@)));
        out
    }

    fn generate_elements(&self, es: &Vec<Option<Expression>>) -> (r: Vec<String>)
        ensures
            model::texts(r@) == elements_text(self@, model::opt_exprs(es@)),
        decreases es, 0nat,
    {
        let mut out: Vec<String> = Vec::new();
        let mut i: usize = 0;
        while i < es.len()
            invariant
                i <= es.len(),
                out.len() == i,
                forall|k: int|
                    0 <= k < i ==> (#[trigger] out@[k])@ == (match es@[k] {
                        Some(e) => expr_text(self@, e@),
                        None => Seq::empty(),
                    }),
            decreases es.len() - i,
        {
            match &es[i] {
                Some(e) => out.push(self.generate_expr(e)),
                None => out.push(String::new()),
            }
            i += 1;
        }
        assert(model::texts(out@) =~= elements_text(self@, model::opt_exprs(es@)));
        out
    }

    fn generate_prop(&self, p: &ObjectProperty) -> (r: String)
        ensures
            r@ == prop_text(self@, p@),
        decreases p, 0nat,
    {
        let value = self.generate_expr(&p.value);
        match &p.value {
            Expression::Spread(_) => value,
            _ => {
                let computed = self.generate_computed_key(&p.key);
                text::concat3(&format_object_key(&p.key, &computed), ": ", &value)
            },
        }
    }

    fn generate_props(&self, ps: &Vec<ObjectProperty>) -> (r: Vec<String>)
        ensures
            model::texts(r@) == props_text(self@, model::props(ps@)),
        decreases ps, 0nat,
    {
        let mut out: Vec<String> = Vec::new();
        let mut i: usize = 0;
        while i < ps.len()
            invariant
                i <= ps.len(),
                out.len() == i,
                forall|k: int| 0 <= k < i ==> (#[trigger] out@[k])@ == prop_text(self@, ps@[k]@),
            decreases ps.len() - i,
        {
            out.push(self.generate_prop(&ps[i]));
            i += 1;
        }
        assert(model::texts(out@) =~= props_text(self@, model::props(ps@)));
        out
    }

    fn generate_attr(&self, key: &str, value: &Expression) -> (r: String)
        ensures
            r@ == attribute_text(key@, value@, expr_text(self@, value@)),
        decreases value, 2nat,
    {
        if text::same(key, "...") {
            let open = if let Expression::Spread(_) = value {
                "{"
            } else {
                "{..."
            };
            return text::concat3(open, &self.generate_expr(value), "}");
        }
        match value {
            Expression::Value(Value::Constant(Constant::String(s))) => text::concat3(
                key,
                "=",
                &text::debug_quote(s),
            ),
            Expression::Value(Value::Constant(Constant::Bool(true))) => key.to_owned(),
            _ => text::concat4(key, "={", &self.generate_expr(value), "}"),
        }
    }

    fn generate_attrs(&self, attrs: &Vec<(String, Expression)>) -> (r: Vec<String>)
        ensures
            model::texts(r@) == attrs_text(self@, model::attrs(attrs@)),
        decreases attrs, 0nat,
    {
        let mut out: Vec<String> = Vec::new();
        let mut i: usize = 0;
        while i < attrs.len()
            invariant
                i <= attrs.len(),
                out.len() == i,
                forall|k: int|
                    0 <= k < i ==> (#[trigger] out@[k])@ == attribute_text(
                        attrs@[k].0@,
                        attrs@[k].1@,
                        expr_text(self@, attrs@[k].1@),
                    ),
            decreases attrs.len() - i,
        {
            out.push(self.generate_attr(&attrs[i].0, &attrs[i].1));
            i += 1;
        }
        assert(model::texts(out@) =~= attrs_text(self@, model::attrs(attrs@)));
        out
    }
}

} // verus!
