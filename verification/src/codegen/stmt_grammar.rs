//! The text of a statement, read by the grammar of JavaScript.

use super::expr_gen;
use super::grammar;
use super::grammar_laws;
use super::grammar_laws::{lemma_at, lemma_text_reads_back};
use super::stmt_gen;
use super::words;
use super::Gen;
use crate::ir::model::{Const, Expr, Method, Stmt, Target, Val};
use crate::ir::VarKind;
use crate::names;
use crate::text;
use vstd::prelude::*;

verus! {

/// The generator one level deeper, as far as levels go.
pub open spec fn inside(g: Gen) -> Gen {
    Gen {
        level: if g.level < usize::MAX {
            g.level + 1
        } else {
            g.level
        },
        ..g
    }
}

/// The white space before a line.
pub open spec fn margin(g: Gen) -> Seq<char> {
    text::repeated(g.indent, g.level)
}

/// A line that a semicolon ends.
pub open spec fn line(g: Gen, t: Seq<char>) -> Seq<char> {
    margin(g) + t + ";\n"@
}

/// A body in braces behind its head.
pub open spec fn block(g: Gen, head: Seq<char>, body: Seq<char>) -> Seq<char> {
    head + " {\n"@ + body + margin(g) + "}"@
}

/// A head with an expression in parentheses.
pub open spec fn head(g: Gen, word: Seq<char>, t: Seq<char>) -> Seq<char> {
    margin(g) + word + " ("@ + t + ")"@
}

pub open spec fn word_of(kind: VarKind) -> Seq<char> {
    match kind {
        VarKind::Let => "let "@,
        VarKind::Const => "const "@,
        VarKind::Var => "var "@,
    }
}

pub open spec fn set_to(target: Seq<char>, value: Seq<char>) -> Seq<char> {
    target + " = "@ + value
}

/// Whether a text writes an expression where a whole one can stand.
pub open spec fn whole(g: Gen, t: Seq<char>, e: Expr) -> bool {
    grammar::writes(g, t, e, 1)
}

/// The target of an assignment.
pub open spec fn writes_target(g: Gen, s: Seq<char>, t: Target) -> bool {
    match t {
        Target::Register(n) => s == names::register_name(n),
        Target::Variable(n) => s == names::sanitized(n),
        Target::Member { object, property } => exists|o: Seq<char>|
            s == #[trigger] grammar::after(o, grammar::name_access(property, false))
                && grammar::writes(g, o, object, 16),
        Target::Index { object, key } => exists|o: Seq<char>, k: Seq<char>|
            s == #[trigger] grammar::after(o, grammar::indexed("["@, k)) && grammar::writes(
                g,
                o,
                object,
                16,
            ) && whole(g, k, key),
        _ => s == stmt_gen::target_text(g, t),
    }
}

/// A simple statement without its margin and its end. A declaration of nothing but a name holds
/// `undefined`.
pub open spec fn writes_simple(g: Gen, s: Seq<char>, x: Stmt) -> bool {
    match x {
        Stmt::Expr(e) => whole(g, s, e),
        Stmt::Let { name, value, kind } => {
            ||| s == word_of(kind) + names::sanitized(name) && kind != VarKind::Const && value
                == Expr::Value(Val::Constant(Const::Undefined))
            ||| exists|t: Seq<char>|
                s == #[trigger] set_to(word_of(kind) + names::sanitized(name), t) && whole(
                    g,
                    t,
                    value,
                )
        },
        Stmt::Assign { target, value } => exists|a: Seq<char>, t: Seq<char>|
            (if target is DestructuringObject || target is DestructuringObjectRest {
                s == "("@ + #[trigger] set_to(a, t) + ")"@
            } else {
                s == set_to(a, t)
            }) && writes_target(g, a, target) && whole(g, t, value),
        _ => false,
    }
}

pub open spec fn writes_optional(g: Gen, s: Seq<char>, x: Option<Box<Stmt>>) -> bool {
    match x {
        Some(b) => writes_simple(g, s, *b),
        None => s.len() == 0,
    }
}

pub open spec fn writes_condition(g: Gen, s: Seq<char>, c: Option<Expr>) -> bool {
    match c {
        Some(e) => whole(g, s, e),
        None => s.len() == 0,
    }
}

pub open spec fn clauses(a: Seq<char>, b: Seq<char>, c: Seq<char>) -> Seq<char> {
    a + "; "@ + b + "; "@ + c
}

/// Whether a list does nothing: it holds only `continue`, or blocks of such lists.
pub open spec fn does_nothing(s: Seq<Stmt>) -> bool
    decreases s,
{
    forall|i: int|
        0 <= i < s.len() ==> match #[trigger] s[i] {
            Stmt::Block(inner) => does_nothing(inner),
            Stmt::Continue(_) => true,
            _ => false,
        }
}

/// The name of a loop variable. One that is only the name of a register takes another.
pub open spec fn loop_name(n: Seq<char>, other: Seq<char>) -> Seq<char> {
    if n.len() > 0 && n[0] == 'r' && text::all_digits(n.skip(1)) {
        other
    } else {
        n
    }
}

/// Whether a text writes a statement.
pub open spec fn says(g: Gen, s: Seq<char>, x: Stmt) -> bool
    decreases x, 0nat,
{
    match x {
        Stmt::Expr(_) => exists|t: Seq<char>| s == #[trigger] line(g, t) && writes_simple(g, t, x),
        Stmt::Let { .. } => exists|t: Seq<char>|
            s == #[trigger] line(g, t) && writes_simple(g, t, x),
        Stmt::Assign { .. } => exists|t: Seq<char>|
            s == #[trigger] line(g, t) && writes_simple(g, t, x),
        Stmt::Return(None) => s == line(g, "return"@),
        Stmt::Return(Some(e)) => exists|t: Seq<char>|
            s == line(g, #[trigger] grammar::after("return "@, t)) && whole(g, t, e),
        Stmt::Throw(e) => exists|t: Seq<char>|
            s == line(g, #[trigger] grammar::after("throw "@, t)) && whole(g, t, e),
        Stmt::If { condition, then_body, else_body } => exists|
            c: Seq<char>,
            a: Seq<char>,
            b: Seq<char>,
        |
            #![trigger head(g, "if"@, c), block(g, Seq::empty(), a), block(g, Seq::empty(), b)]
            whole(g, c, condition) && says_all(inside(g), a, then_body) && if does_nothing(else_body) {
                s == block(g, head(g, "if"@, c), a) + "\n"@
            } else {
                s == block(g, block(g, head(g, "if"@, c), a) + " else"@, b) + "\n"@ && says_all(
                    inside(g),
                    b,
                    else_body,
                )
            },
        Stmt::While { condition, body } => exists|c: Seq<char>, a: Seq<char>|
            s == #[trigger] block(g, head(g, "while"@, c), a) + "\n"@ && whole(g, c, condition)
                && says_all(inside(g), a, body),
        Stmt::DoWhile { body, condition } => exists|c: Seq<char>, a: Seq<char>|
            s == #[trigger] block(g, margin(g) + "do"@, a) + " while ("@ + #[trigger] grammar::after(
                c,
                ");\n"@,
            ) && whole(g, c, condition) && says_all(inside(g), a, body),
        Stmt::For { init, condition, update, body } => exists|
            i: Seq<char>,
            c: Seq<char>,
            u: Seq<char>,
            a: Seq<char>,
        |
            s == #[trigger] block(g, head(g, "for"@, clauses(i, c, u)), a) + "\n"@
                && writes_optional(g, i, init) && writes_condition(g, c, condition)
                && writes_optional(g, u, update) && says_all(inside(g), a, body),
        Stmt::ForIn { variable, object, body } => exists|c: Seq<char>, a: Seq<char>|
            s == #[trigger] block(
                g,
                head(
                    g,
                    "for"@,
                    grammar::after(
                        "const "@ + loop_name(variable, "key"@) + " in "@,
                        c,
                    ),
                ),
                a,
            ) + "\n"@ && whole(g, c, object) && says_all(inside(g), a, body),
        Stmt::ForOf { variable, iterable, body } => exists|c: Seq<char>, a: Seq<char>|
            s == #[trigger] block(
                g,
                head(
                    g,
                    "for"@,
                    grammar::after(
                        "const "@ + loop_name(variable, "item"@) + " of "@,
                        c,
                    ),
                ),
                a,
            ) + "\n"@ && whole(g, c, iterable) && says_all(inside(g), a, body),
        Stmt::Block(body) => exists|a: Seq<char>|
            s == margin(g) + "{\n"@ + #[trigger] grammar::after(a, margin(g) + "}\n"@) && says_all(
                inside(g),
                a,
                body,
            ),
        Stmt::TryCatch { try_body, catch_param, catch_body, finally_body } => exists|
            a: Seq<char>,
            b: Seq<char>,
            c: Seq<char>,
        |
            #![trigger block(g, margin(g) + "try"@, a), block(g, Seq::empty(), b), block(g, Seq::empty(), c)]
            {
                let tried = block(g, margin(g) + "try"@, a);
                let caught = if catch_body.len() == 0 && finally_body.len() > 0 {
                    tried
                } else {
                    block(
                        g,
                        tried + (match catch_param {
                            Some(p) => " catch ("@ + names::sanitized(p) + ")"@,
                            None => " catch"@,
                        }),
                        b,
                    )
                };
                &&& says_all(inside(g), a, try_body)
                &&& says_all(inside(g), b, catch_body)
                &&& says_all(inside(g), c, finally_body)
                &&& s == (if finally_body.len() == 0 {
                    caught
                } else {
                    block(g, caught + " finally"@, c)
                }) + "\n"@
            },
        Stmt::Switch { discriminant, cases, default } => exists|
            c: Seq<char>,
            a: Seq<char>,
            b: Seq<char>,
        |
            s == #[trigger] block(g, head(g, "switch"@, c), grammar::after(a, b)) + "\n"@ && whole(
                g,
                c,
                discriminant,
            ) && says_cases(inside(g), a, cases) && says_default(inside(g), b, default),
        Stmt::Class { name, super_class, constructor, methods } => exists|t: Seq<char>|
            #![trigger grammar::after("extends"@, t)]
            (match super_class {
                Some(e) => whole(g, t, e),
                None => true,
            }) && s == block(
                g,
                margin(g) + "class "@ + name + (match super_class {
                    Some(e) => " extends "@ + t,
                    None => Seq::empty(),
                }),
                (if constructor is Some {
                    margin(inside(g)) + "constructor() { ... }\n"@
                } else {
                    Seq::empty()
                }) + methods_say(inside(g), methods),
            ) + "\n"@,
        Stmt::Comment(c) => s == margin(g) + "// "@ + c + "\n"@,
        Stmt::Break(l) => s == line(g, jump("break"@, l)),
        Stmt::Continue(l) => s == line(g, jump("continue"@, l)),
    }
}

pub open spec fn jump(word: Seq<char>, label: Option<Seq<char>>) -> Seq<char> {
    match label {
        Some(l) => word + " "@ + l,
        None => word,
    }
}

pub open spec fn methods_say(g: Gen, ms: Seq<Method>) -> Seq<char>
    decreases ms.len(),
{
    if ms.len() == 0 {
        Seq::empty()
    } else {
        methods_say(g, ms.drop_last()) + (margin(g) + (if ms.last().is_static {
            "static "@
        } else {
            Seq::empty()
        }) + ms.last().name + "() { ... }\n"@)
    }
}

/// Whether a text writes statements, one after the other.
pub open spec fn says_all(g: Gen, s: Seq<char>, xs: Seq<Stmt>) -> bool
    decreases xs, 0nat,
{
    if xs.len() == 0 {
        s.len() == 0
    } else {
        exists|a: Seq<char>, b: Seq<char>|
            s == #[trigger] grammar::after(a, b) && says_all(g, a, xs.drop_last()) && says(
                g,
                b,
                xs.last(),
            )
    }
}

pub open spec fn arm(g: Gen, c: Seq<char>, b: Seq<char>) -> Seq<char> {
    margin(g) + "case "@ + c + ":\n"@ + b
}

pub open spec fn says_cases(g: Gen, s: Seq<char>, xs: Seq<(Expr, Seq<Stmt>)>) -> bool
    decreases xs, 0nat,
{
    if xs.len() == 0 {
        s.len() == 0
    } else {
        exists|a: Seq<char>, c: Seq<char>, b: Seq<char>|
            #![trigger grammar::after(a, arm(g, c, b))]
            s == grammar::after(a, arm(g, c, b)) && says_cases(g, a, xs.drop_last()) && whole(
                g,
                c,
                xs.last().0,
            ) && says_all(inside(g), b, xs.last().1)
    }
}

pub open spec fn says_default(g: Gen, s: Seq<char>, d: Option<Seq<Stmt>>) -> bool
    decreases d, 0nat,
{
    match d {
        Some(body) => exists|b: Seq<char>|
            s == #[trigger] grammar::after(margin(g) + "default:\n"@, b) && says_all(
                inside(g),
                b,
                body,
            ),
        None => s.len() == 0,
    }
}

/// Whether an expression reads back where a whole one stands.
pub open spec fn readable(g: Gen, e: Expr) -> bool {
    grammar_laws::tidy(g, e) && grammar_laws::level(e) >= 1
}

pub open spec fn readable_target(g: Gen, t: Target) -> bool {
    match t {
        Target::Member { object, .. } => readable(g, object) && grammar_laws::level(object) >= 16,
        Target::Index { object, key } => readable(g, object) && grammar_laws::level(object) >= 16
            && readable(g, key),
        _ => true,
    }
}

pub open spec fn readable_simple(g: Gen, x: Stmt) -> bool {
    match x {
        Stmt::Expr(e) => readable(g, e),
        Stmt::Let { value, .. } => readable(g, value),
        Stmt::Assign { target, value } => readable_target(g, target) && readable(g, value),
        _ => false,
    }
}

pub open spec fn readable_optional(g: Gen, x: Option<Box<Stmt>>) -> bool {
    match x {
        Some(b) => readable_simple(g, *b),
        None => true,
    }
}

/// Whether every expression of a statement reads back where it stands.
pub open spec fn all_readable(g: Gen, x: Stmt) -> bool
    decreases x, 0nat,
{
    match x {
        Stmt::Expr(_) => readable_simple(g, x),
        Stmt::Let { .. } => readable_simple(g, x),
        Stmt::Assign { .. } => readable_simple(g, x),
        Stmt::Return(Some(e)) => readable(g, e),
        Stmt::Throw(e) => readable(g, e),
        Stmt::If { condition, then_body, else_body } => readable(g, condition) && list_readable(
            inside(g),
            then_body,
        ) && list_readable(inside(g), else_body),
        Stmt::While { condition, body } => readable(g, condition) && list_readable(
            inside(g),
            body,
        ),
        Stmt::DoWhile { body, condition } => readable(g, condition) && list_readable(
            inside(g),
            body,
        ),
        Stmt::For { init, condition, update, body } => readable_optional(g, init)
            && readable_optional(g, update) && (condition matches Some(e) ==> readable(g, e))
            && list_readable(inside(g), body),
        Stmt::ForIn { object, body, .. } => readable(g, object) && list_readable(inside(g), body),
        Stmt::ForOf { iterable, body, .. } => readable(g, iterable) && list_readable(
            inside(g),
            body,
        ),
        Stmt::Block(body) => list_readable(inside(g), body),
        Stmt::TryCatch { try_body, catch_body, finally_body, .. } => list_readable(
            inside(g),
            try_body,
        ) && list_readable(inside(g), catch_body) && list_readable(inside(g), finally_body),
        Stmt::Switch { discriminant, cases, default } => {
            &&& readable(g, discriminant)
            &&& forall|i: int|
                0 <= i < cases.len() ==> arm_readable(inside(g), #[trigger] cases[i])
            &&& match default {
                Some(body) => list_readable(inside(inside(g)), body),
                None => true,
            }
        },
        Stmt::Class { super_class: Some(e), .. } => readable(g, e),
        _ => true,
    }
}

pub open spec fn arm_readable(g: Gen, c: (Expr, Seq<Stmt>)) -> bool
    decreases c, 0nat,
{
    readable(g, c.0) && list_readable(inside(g), c.1)
}

pub open spec fn list_readable(g: Gen, s: Seq<Stmt>) -> bool
    decreases s, 0nat,
{
    forall|i: int| 0 <= i < s.len() ==> all_readable(g, #[trigger] s[i])
}

proof fn lemma_whole(g: Gen, e: Expr)
    requires
        readable(g, e),
    ensures
        whole(g, expr_gen::expr_text(g, e), e),
        grammar_laws::level(e) >= 16 ==> grammar::writes(g, expr_gen::expr_text(g, e), e, 16),
{
    lemma_text_reads_back(g, e);
    lemma_at(g, e, 1);
    if grammar_laws::level(e) >= 16 {
        lemma_at(g, e, 16);
    }
}

proof fn lemma_target(g: Gen, t: Target)
    requires
        readable_target(g, t),
    ensures
        writes_target(g, stmt_gen::target_text(g, t), t),
{
    match t {
        Target::Member { object, property } => {
            lemma_whole(g, object);
            let o = expr_gen::expr_text(g, object);
            assert(stmt_gen::target_text(g, t) =~= grammar::after(
                o,
                grammar::name_access(property, false),
            ));
        },
        Target::Index { object, key } => {
            lemma_whole(g, object);
            lemma_whole(g, key);
            let o = expr_gen::expr_text(g, object);
            let k = expr_gen::expr_text(g, key);
            assert(stmt_gen::target_text(g, t) =~= grammar::after(o, grammar::indexed("["@, k)));
        },
        _ => {},
    }
}

proof fn lemma_words(kind: VarKind)
    ensures
        stmt_gen::keyword(kind) + " "@ == word_of(kind),
{
    reveal_strlit(" ");
    reveal_strlit("let");
    reveal_strlit("let ");
    reveal_strlit("const");
    reveal_strlit("const ");
    reveal_strlit("var");
    reveal_strlit("var ");
    assert(stmt_gen::keyword(kind) + " "@ =~= word_of(kind));
}

proof fn lemma_simple(g: Gen, x: Stmt)
    requires
        readable_simple(g, x),
    ensures
        writes_simple(g, stmt_gen::inline_text(g, x), x),
{
    let s = stmt_gen::inline_text(g, x);
    match x {
        Stmt::Expr(e) => lemma_whole(g, e),
        Stmt::Let { name, value, kind } => {
            lemma_whole(g, value);
            lemma_words(kind);
            let t = expr_gen::expr_text(g, value);
            let a = word_of(kind) + names::sanitized(name);
            if kind != VarKind::Const && value == Expr::Value(Val::Constant(Const::Undefined)) {
                assert(s == a);
            } else {
                assert(s == set_to(word_of(kind) + names::sanitized(name), t));
            }
        },
        Stmt::Assign { target, value } => {
            lemma_target(g, target);
            lemma_whole(g, value);
            let a = stmt_gen::target_text(g, target);
            let t = expr_gen::expr_text(g, value);
            if target is DestructuringObject || target is DestructuringObjectRest {
                assert(s =~= "("@ + set_to(a, t) + ")"@);
            } else {
                assert(s == set_to(a, t));
            }
        },
        _ => {},
    }
}

proof fn lemma_does_nothing(s: Seq<Stmt>)
    ensures
        words::nothing_to_write(s) == does_nothing(s),
    decreases s,
{
    assert forall|i: int| 0 <= i < s.len() implies (#[trigger] s[i] matches Stmt::Block(inner)
        ==> words::nothing_to_write(inner) == does_nothing(inner)) by {
        if let Stmt::Block(inner) = s[i] {
            lemma_does_nothing(inner);
        }
    }
}

proof fn lemma_levels(g: Gen)
    ensures
        stmt_gen::deeper(g) == inside(g),
        stmt_gen::lead(g) == margin(g),
        stmt_gen::lead(inside(g)) == margin(inside(g)),
{
}

proof fn lemma_block(g: Gen, h: Seq<char>, b: Seq<char>)
    ensures
        stmt_gen::braced(g, h, b) == block(g, h, b),
{
}

proof fn lemma_head(g: Gen, word: Seq<char>, word_open: Seq<char>, t: Seq<char>)
    requires
        word_open == word + " ("@,
    ensures
        stmt_gen::lead(g) + word_open + t + ")"@ == head(g, word, t),
{
    assert(stmt_gen::lead(g) + word_open + t + ")"@ =~= head(g, word, t));
}

proof fn lemma_head_words()
    ensures
        "if ("@ == "if"@ + " ("@,
        "while ("@ == "while"@ + " ("@,
        "for ("@ == "for"@ + " ("@,
        "switch ("@ == "switch"@ + " ("@,
        "for (const "@ == "for"@ + " ("@ + "const "@,
        "return;\n"@ == "return"@ + ";\n"@,
{
    reveal_strlit(" (");
    reveal_strlit("if");
    reveal_strlit("if (");
    reveal_strlit("while");
    reveal_strlit("while (");
    reveal_strlit("for");
    reveal_strlit("for (");
    reveal_strlit("switch");
    reveal_strlit("switch (");
    reveal_strlit("const ");
    reveal_strlit("for (const ");
    reveal_strlit("return");
    reveal_strlit("return;\n");
    reveal_strlit(";\n");
    assert("if ("@ =~= "if"@ + " ("@);
    assert("while ("@ =~= "while"@ + " ("@);
    assert("for ("@ =~= "for"@ + " ("@);
    assert("switch ("@ =~= "switch"@ + " ("@);
    assert("for (const "@ =~= "for"@ + " ("@ + "const "@);
    assert("return;\n"@ =~= "return"@ + ";\n"@);
}

proof fn lemma_loop_name(n: Seq<char>, other: Seq<char>)
    ensures
        words::loop_var(n, other) == loop_name(n, other),
{
    if n.len() > 0 {
        assert(n.subrange(1, n.len() as int) =~= n.skip(1));
    }
}

proof fn lemma_methods(g: Gen, ms: Seq<Method>)
    ensures
        stmt_gen::methods_text(g, ms) == methods_say(g, ms),
    decreases ms.len(),
{
    if ms.len() > 0 {
        lemma_methods(g, ms.drop_last());
        reveal_strlit("");
        assert(""@ =~= Seq::<char>::empty());
    }
}

/// The text of a statement reads back as the statement: its words, its expressions and its bodies
/// stand where the grammar of JavaScript has them, and nothing of it is left out.
#[verifier::rlimit(100)]
pub proof fn lemma_statement_reads_back(g: Gen, x: Stmt)
    requires
        all_readable(g, x),
    ensures
        says(g, stmt_gen::stmt_text(g, x), x),
    decreases x, 0nat,
{
    let s = stmt_gen::stmt_text(g, x);
    lemma_levels(g);
    lemma_head_words();
    match x {
        Stmt::Expr(_) => {
            lemma_simple(g, x);
            assert(s == line(g, stmt_gen::inline_text(g, x)));
        },
        Stmt::Let { .. } => {
            lemma_simple(g, x);
            assert(s == line(g, stmt_gen::inline_text(g, x)));
        },
        Stmt::Assign { .. } => {
            lemma_simple(g, x);
            assert(s == line(g, stmt_gen::inline_text(g, x)));
        },
        Stmt::Return(None) => {
            assert(s =~= line(g, "return"@));
        },
        Stmt::Return(Some(e)) => {
            lemma_whole(g, e);
            let t = expr_gen::expr_text(g, e);
            assert(s =~= line(g, grammar::after("return "@, t)));
        },
        Stmt::Throw(e) => {
            lemma_whole(g, e);
            let t = expr_gen::expr_text(g, e);
            assert(s =~= line(g, grammar::after("throw "@, t)));
        },
        Stmt::If { condition, then_body, else_body } => {
            lemma_whole(g, condition);
            lemma_statements_read_back(inside(g), then_body);
            lemma_statements_read_back(inside(g), else_body);
            lemma_does_nothing(else_body);
            let c = expr_gen::expr_text(g, condition);
            let a = stmt_gen::stmts_text(inside(g), then_body);
            let b = stmt_gen::stmts_text(inside(g), else_body);
            lemma_head(g, "if"@, "if ("@, c);
            let h = head(g, "if"@, c);
            let bare = (block(g, Seq::empty(), a), block(g, Seq::empty(), b));
            if does_nothing(else_body) {
                assert(s == block(g, h, a) + "\n"@);
            } else {
                assert(s == block(g, block(g, h, a) + " else"@, b) + "\n"@);
            }
        },
        Stmt::While { condition, body } => {
            lemma_whole(g, condition);
            lemma_statements_read_back(inside(g), body);
            let c = expr_gen::expr_text(g, condition);
            let a = stmt_gen::stmts_text(inside(g), body);
            lemma_head(g, "while"@, "while ("@, c);
            assert(s == block(g, head(g, "while"@, c), a) + "\n"@);
        },
        Stmt::DoWhile { body, condition } => {
            lemma_whole(g, condition);
            lemma_statements_read_back(inside(g), body);
            let c = expr_gen::expr_text(g, condition);
            let a = stmt_gen::stmts_text(inside(g), body);
            assert(s =~= block(g, margin(g) + "do"@, a) + " while ("@ + grammar::after(
                c,
                ");\n"@,
            ));
        },
        Stmt::For { init, condition, update, body } => {
            if let Some(b) = init {
                lemma_simple(g, *b);
            }
            if let Some(b) = update {
                lemma_simple(g, *b);
            }
            if let Some(e) = condition {
                lemma_whole(g, e);
            }
            lemma_statements_read_back(inside(g), body);
            let i = stmt_gen::opt_inline_text(g, init);
            let u = stmt_gen::opt_inline_text(g, update);
            let c = match condition {
                Some(e) => expr_gen::expr_text(g, e),
                None => Seq::empty(),
            };
            let a = stmt_gen::stmts_text(inside(g), body);
            let h = margin(g) + "for ("@ + i + "; "@ + c + "; "@ + u + ")"@;
            assert(h =~= head(g, "for"@, clauses(i, c, u)));
            assert(s == block(g, h, a) + "\n"@);
        },
        Stmt::ForIn { variable, object, body } => {
            lemma_whole(g, object);
            lemma_loop_name(variable, "key"@);
            lemma_statements_read_back(inside(g), body);
            let c = expr_gen::expr_text(g, object);
            let a = stmt_gen::stmts_text(inside(g), body);
            let n = loop_name(variable, "key"@);
            let h = margin(g) + "for (const "@ + n + " in "@ + c + ")"@;
            assert(h =~= head(g, "for"@, grammar::after("const "@ + n + " in "@, c)));
            assert(s == block(g, h, a) + "\n"@);
        },
        Stmt::ForOf { variable, iterable, body } => {
            lemma_whole(g, iterable);
            lemma_loop_name(variable, "item"@);
            lemma_statements_read_back(inside(g), body);
            let c = expr_gen::expr_text(g, iterable);
            let a = stmt_gen::stmts_text(inside(g), body);
            let n = loop_name(variable, "item"@);
            let h = margin(g) + "for (const "@ + n + " of "@ + c + ")"@;
            assert(h =~= head(g, "for"@, grammar::after("const "@ + n + " of "@, c)));
            assert(s == block(g, h, a) + "\n"@);
        },
        Stmt::Block(body) => {
            lemma_statements_read_back(inside(g), body);
            let a = stmt_gen::stmts_text(inside(g), body);
            assert(s =~= margin(g) + "{\n"@ + grammar::after(a, margin(g) + "}\n"@));
        },
        Stmt::TryCatch { try_body, catch_param, catch_body, finally_body } => {
            lemma_statements_read_back(inside(g), try_body);
            lemma_statements_read_back(inside(g), catch_body);
            lemma_statements_read_back(inside(g), finally_body);
            let a = stmt_gen::stmts_text(inside(g), try_body);
            let b = stmt_gen::stmts_text(inside(g), catch_body);
            let c = stmt_gen::stmts_text(inside(g), finally_body);
            let tried = block(g, margin(g) + "try"@, a);
            let bare = (block(g, Seq::empty(), b), block(g, Seq::empty(), c));
            let caught = if catch_body.len() == 0 && finally_body.len() > 0 {
                tried
            } else {
                block(
                    g,
                    tried + (match catch_param {
                        Some(p) => " catch ("@ + names::sanitized(p) + ")"@,
                        None => " catch"@,
                    }),
                    b,
                )
            };
            assert(s == (if finally_body.len() == 0 {
                caught
            } else {
                block(g, caught + " finally"@, c)
            }) + "\n"@);
        },
        Stmt::Switch { discriminant, cases, default } => {
            lemma_whole(g, discriminant);
            lemma_cases_read_back(inside(g), cases);
            let c = expr_gen::expr_text(g, discriminant);
            let a = stmt_gen::cases_text(inside(g), cases);
            lemma_head(g, "switch"@, "switch ("@, c);
            lemma_levels(inside(g));
            let b = match default {
                Some(body) => margin(inside(g)) + "default:\n"@ + stmt_gen::stmts_text(
                    inside(inside(g)),
                    body,
                ),
                None => Seq::empty(),
            };
            if let Some(body) = default {
                lemma_statements_read_back(inside(inside(g)), body);
                let t = stmt_gen::stmts_text(inside(inside(g)), body);
                assert(b == grammar::after(margin(inside(g)) + "default:\n"@, t));
                assert(a + margin(inside(g)) + "default:\n"@ + t =~= grammar::after(a, b));
            } else {
                assert(a =~= grammar::after(a, b));
            }
            assert(s == block(g, head(g, "switch"@, c), grammar::after(a, b)) + "\n"@);
        },
        Stmt::Class { name, super_class, constructor, methods } => {
            let t = match super_class {
                Some(e) => expr_gen::expr_text(g, e),
                None => Seq::empty(),
            };
            if let Some(e) = super_class {
                lemma_whole(g, e);
            }
            lemma_methods(inside(g), methods);
            let extending = grammar::after("extends"@, t);
            let h = margin(g) + "class "@ + name + (match super_class {
                Some(e) => " extends "@ + t,
                None => Seq::empty(),
            });
            let h2 = match super_class {
                Some(e) => margin(g) + "class "@ + name + " extends "@ + t,
                None => margin(g) + "class "@ + name,
            };
            assert(h =~= h2);
            let built = if constructor is Some {
                margin(inside(g)) + "constructor() { ... }\n"@
            } else {
                Seq::empty()
            };
            assert(s == block(g, h, built + methods_say(inside(g), methods)) + "\n"@);
        },
        Stmt::Break(l) => {
            assert(s =~= line(g, jump("break"@, l)));
        },
        Stmt::Continue(l) => {
            assert(s =~= line(g, jump("continue"@, l)));
        },
        Stmt::Comment(_) => {},
    }
}

/// The text of statements reads back as the statements, in order.
pub proof fn lemma_statements_read_back(g: Gen, xs: Seq<Stmt>)
    requires
        list_readable(g, xs),
    ensures
        says_all(g, stmt_gen::stmts_text(g, xs), xs),
    decreases xs, 0nat,
{
    if xs.len() > 0 {
        let rest = xs.drop_last();
        assert forall|i: int| 0 <= i < rest.len() implies all_readable(g, #[trigger] rest[i]) by {
            assert(rest[i] == xs[i]);
        }
        lemma_statements_read_back(g, rest);
        assert(all_readable(g, xs[xs.len() - 1]));
        lemma_statement_reads_back(g, xs.last());
        let a = stmt_gen::stmts_text(g, rest);
        let b = stmt_gen::stmt_text(g, xs.last());
        assert(stmt_gen::stmts_text(g, xs) == grammar::after(a, b));
    }
}

proof fn lemma_cases_read_back(g: Gen, xs: Seq<(Expr, Seq<Stmt>)>)
    requires
        forall|i: int| 0 <= i < xs.len() ==> arm_readable(g, #[trigger] xs[i]),
    ensures
        says_cases(g, stmt_gen::cases_text(g, xs), xs),
    decreases xs, 0nat,
{
    if xs.len() > 0 {
        let rest = xs.drop_last();
        assert forall|i: int| 0 <= i < rest.len() implies arm_readable(g, #[trigger] rest[i]) by {
            assert(rest[i] == xs[i]);
        }
        lemma_cases_read_back(g, rest);
        assert(arm_readable(g, xs[xs.len() - 1]));
        lemma_whole(g, xs.last().0);
        lemma_statements_read_back(inside(g), xs.last().1);
        lemma_levels(g);
        let a = stmt_gen::cases_text(g, rest);
        let c = expr_gen::expr_text(g, xs.last().0);
        let b = stmt_gen::stmts_text(inside(g), xs.last().1);
        assert(stmt_gen::cases_text(g, xs) =~= grammar::after(a, arm(g, c, b)));
    }
}

} // verus!
