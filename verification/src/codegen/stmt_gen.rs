//! Source text of statements and assignment targets.

use super::expr_gen;
use super::expr_gen::format_member_access;
use super::words::{is_effectively_empty, sanitize_loop_var};
use super::{words, Codegen, Gen};
use crate::ir::model;
use crate::ir::model::{Const, Expr, Key, Method, Stmt, Target, Val};
use crate::ir::{
    AssignTarget, ClassMethod, Constant, Expression, PropertyKey, Statement, Value, VarKind,
};
use crate::names;
use crate::text;
use vstd::prelude::*;

verus! {

/// The text of an optional default of a pattern element.
pub open spec fn default_text(g: Gen, d: Option<Expr>) -> Seq<char> {
    match d {
        Some(e) => " = "@ + expr_gen::expr_text(g, e),
        None => Seq::empty(),
    }
}

/// The text of an assignment target.
pub open spec fn target_text(g: Gen, t: Target) -> Seq<char>
    decreases t,
{
    match t {
        Target::Register(n) => names::register_name(n),
        Target::Variable(n) => names::sanitized(n),
        Target::Member { object, property } => expr_gen::member_text(
            expr_gen::expr_text(g, object),
            false,
            Key::Ident(property),
            Seq::empty(),
        ),
        Target::Index { object, key } => expr_gen::expr_text(g, object) + "["@ + expr_gen::expr_text(g, key) + "]"@,
        Target::DestructuringArray(elements) => "["@ + text::joined(
            slots_text(g, elements),
            ", "@,
        ) + "]"@,
        Target::DestructuringArrayRest { elements, rest } => "["@ + text::joined(
            slots_text(g, elements).push("..."@ + target_text(g, *rest)),
            ", "@,
        ) + "]"@,
        Target::DestructuringObject(properties) => "{ "@ + text::joined(
            fields_text(g, properties),
            ", "@,
        ) + " }"@,
        Target::DestructuringObjectRest { properties, rest } => "{ "@ + text::joined(
            fields_text(g, properties).push("..."@ + target_text(g, *rest)),
            ", "@,
        ) + " }"@,
    }
}

pub open spec fn slots_text(g: Gen, s: Seq<Option<(Target, Option<Expr>)>>) -> Seq<Seq<char>>
    decreases s,
{
    Seq::new(
        s.len(),
        |i: int|
            if 0 <= i < s.len() {
                match s[i] {
                    Some(p) => target_text(g, p.0) + default_text(g, p.1),
                    None => Seq::empty(),
                }
            } else {
                arbitrary()
            },
    )
}

/// The text of one field of an object pattern; a target of the same name is written once.
pub open spec fn field_text(name: Seq<char>, target: Seq<char>, default: Seq<char>) -> Seq<char> {
    if target == name {
        name + default
    } else {
        name + ": "@ + target + default
    }
}

pub open spec fn fields_text(g: Gen, s: Seq<(Seq<char>, Target, Option<Expr>)>) -> Seq<Seq<char>>
    decreases s,
{
    Seq::new(
        s.len(),
        |i: int|
            if 0 <= i < s.len() {
                field_text(s[i].0, target_text(g, s[i].1), default_text(g, s[i].2))
            } else {
                arbitrary()
            },
    )
}

pub open spec fn keyword(k: VarKind) -> Seq<char> {
    match k {
        VarKind::Let => "let"@,
        VarKind::Const => "const"@,
        VarKind::Var => "var"@,
    }
}

/// A statement without indentation and line end, where it can stand in the head of a loop.
pub open spec fn inline_text(g: Gen, s: Stmt) -> Seq<char> {
    match s {
        Stmt::Expr(e) => expr_gen::expr_text(g, e),
        Stmt::Let { name, value, kind } => if kind != VarKind::Const && value == Expr::Value(
            Val::Constant(Const::Undefined),
        ) {
            keyword(kind) + " "@ + names::sanitized(name)
        } else {
            keyword(kind) + " "@ + names::sanitized(name) + " = "@ + expr_gen::expr_text(g, value)
        },
        Stmt::Assign { target, value } => if target is DestructuringObject
            || target is DestructuringObjectRest {
            "("@ + target_text(g, target) + " = "@ + expr_gen::expr_text(g, value) + ")"@
        } else {
            target_text(g, target) + " = "@ + expr_gen::expr_text(g, value)
        },
        _ => Seq::empty(),
    }
}

pub open spec fn opt_inline_text(g: Gen, s: Option<Box<Stmt>>) -> Seq<char> {
    match s {
        Some(b) => inline_text(g, *b),
        None => Seq::empty(),
    }
}

/// One level deeper; the deepest level stays where it is.
pub open spec fn deeper(g: Gen) -> Gen {
    if g.level < usize::MAX {
        Gen { level: g.level + 1, ..g }
    } else {
        g
    }
}

pub open spec fn lead(g: Gen) -> Seq<char> {
    text::repeated(g.indent, g.level)
}

/// `head`, the body one level deeper, and `}`.
pub open spec fn braced(g: Gen, head: Seq<char>, body: Seq<char>) -> Seq<char> {
    head + " {\n"@ + body + lead(g) + "}"@
}

pub open spec fn labelled(word: Seq<char>, label: Option<Seq<char>>) -> Seq<char> {
    match label {
        Some(l) => word + " "@ + l + ";\n"@,
        None => word + ";\n"@,
    }
}

/// The text of one method of a class, whose body is not written here.
pub open spec fn method_text(g: Gen, m: Method) -> Seq<char> {
    lead(g) + (if m.is_static {
        "static "@
    } else {
        ""@
    }) + m.name + "() { ... }\n"@
}

pub open spec fn methods_text(g: Gen, ms: Seq<Method>) -> Seq<char>
    decreases ms.len(),
{
    if ms.len() == 0 {
        Seq::empty()
    } else {
        methods_text(g, ms.drop_last()) + method_text(g, ms.last())
    }
}

/// The source text of a statement, with its indentation and line end.
pub open spec fn stmt_text(g: Gen, s: Stmt) -> Seq<char>
    decreases s,
{
    match s {
        Stmt::Expr(_) => lead(g) + inline_text(g, s) + ";\n"@,
        Stmt::Let { .. } => lead(g) + inline_text(g, s) + ";\n"@,
        Stmt::Assign { .. } => lead(g) + inline_text(g, s) + ";\n"@,
        Stmt::Return(None) => lead(g) + "return;\n"@,
        Stmt::Return(Some(e)) => lead(g) + "return "@ + expr_gen::expr_text(g, e) + ";\n"@,
        Stmt::Throw(e) => lead(g) + "throw "@ + expr_gen::expr_text(g, e) + ";\n"@,
        Stmt::If { condition, then_body, else_body } => {
            let head = braced(
                g,
                lead(g) + "if ("@ + expr_gen::expr_text(g, condition) + ")"@,
                stmts_text(deeper(g), then_body),
            );
            if words::nothing_to_write(else_body) {
                head + "\n"@
            } else {
                braced(g, head + " else"@, stmts_text(deeper(g), else_body)) + "\n"@
            }
        },
        Stmt::While { condition, body } => braced(
            g,
            lead(g) + "while ("@ + expr_gen::expr_text(g, condition) + ")"@,
            stmts_text(deeper(g), body),
        ) + "\n"@,
        Stmt::DoWhile { body, condition } => braced(
            g,
            lead(g) + "do"@,
            stmts_text(deeper(g), body),
        ) + " while ("@ + expr_gen::expr_text(g, condition) + ");\n"@,
        Stmt::For { init, condition, update, body } => braced(
            g,
            lead(g) + "for ("@ + opt_inline_text(g, init) + "; "@ + (match condition {
                Some(e) => expr_gen::expr_text(g, e),
                None => Seq::empty(),
            }) + "; "@ + opt_inline_text(g, update) + ")"@,
            stmts_text(deeper(g), body),
        ) + "\n"@,
        Stmt::ForIn { variable, object, body } => braced(
            g,
            lead(g) + "for (const "@ + words::loop_var(variable, "key"@) + " in "@ + expr_gen::expr_text(
                g,
                object,
            ) + ")"@,
            stmts_text(deeper(g), body),
        ) + "\n"@,
        Stmt::ForOf { variable, iterable, body } => braced(
            g,
            lead(g) + "for (const "@ + words::loop_var(variable, "item"@) + " of "@ + expr_gen::expr_text(
                g,
                iterable,
            ) + ")"@,
            stmts_text(deeper(g), body),
        ) + "\n"@,
        Stmt::Block(body) => braced_block(g, stmts_text(deeper(g), body)),
        Stmt::TryCatch { try_body, catch_param, catch_body, finally_body } => {
            let head = braced(g, lead(g) + "try"@, stmts_text(deeper(g), try_body));
            let caught = if catch_body.len() == 0 && finally_body.len() > 0 {
                head
            } else {
                braced(
                    g,
                    head + (match catch_param {
                        Some(p) => " catch ("@ + names::sanitized(p) + ")"@,
                        None => " catch"@,
                    }),
                    stmts_text(deeper(g), catch_body),
                )
            };
            if finally_body.len() == 0 {
                caught + "\n"@
            } else {
                braced(g, caught + " finally"@, stmts_text(deeper(g), finally_body)) + "\n"@
            }
        },
        Stmt::Switch { discriminant, cases, default } => {
            let arms = cases_text(deeper(g), cases);
            let all = match default {
                Some(body) => arms + lead(deeper(g)) + "default:\n"@ + stmts_text(
                    deeper(deeper(g)),
                    body,
                ),
                None => arms,
            };
            braced(g, lead(g) + "switch ("@ + expr_gen::expr_text(g, discriminant) + ")"@, all) + "\n"@
        },
        Stmt::Class { name, super_class, constructor, methods } => {
            let head = match super_class {
                Some(e) => lead(g) + "class "@ + name + " extends "@ + expr_gen::expr_text(g, e),
                None => lead(g) + "class "@ + name,
            };
            let built = match constructor {
                Some(_) => lead(deeper(g)) + "constructor() { ... }\n"@,
                None => Seq::empty(),
            };
            braced(g, head, built + methods_text(deeper(g), methods)) + "\n"@
        },
        Stmt::Comment(c) => lead(g) + "// "@ + c + "\n"@,
        Stmt::Break(label) => lead(g) + labelled("break"@, label),
        Stmt::Continue(label) => lead(g) + labelled("continue"@, label),
    }
}

pub open spec fn braced_block(g: Gen, body: Seq<char>) -> Seq<char> {
    lead(g) + "{\n"@ + body + lead(g) + "}\n"@
}

/// The source text of statements, one after the other.
pub open spec fn stmts_text(g: Gen, s: Seq<Stmt>) -> Seq<char>
    decreases s,
{
    if s.len() == 0 {
        Seq::empty()
    } else {
        stmts_text(g, s.drop_last()) + stmt_text(g, s.last())
    }
}

pub open spec fn cases_text(g: Gen, s: Seq<(Expr, Seq<Stmt>)>) -> Seq<char>
    decreases s,
{
    if s.len() == 0 {
        Seq::empty()
    } else {
        cases_text(g, s.drop_last()) + lead(g) + "case "@ + expr_gen::expr_text(g, s.last().0) + ":\n"@
            + stmts_text(deeper(g), s.last().1)
    }
}

fn write_keyword(k: VarKind) -> (r: &'static str)
    ensures
        r@ == keyword(k),
{
    match k {
        VarKind::Let => "let",
        VarKind::Const => "const",
        VarKind::Var => "var",
    }
}

fn write_label(word: &str, label: &Option<String>) -> (r: String)
    ensures
        r@ == labelled(word@, model::opt_text(*label)),
{
    match label {
        Some(l) => text::concat4(word, " ", l, ";\n"),
        None => text::concat2(word, ";\n"),
    }
}

fn write_field(name: &str, target: &str, default: &str) -> (r: String)
    ensures
        r@ == field_text(name@, target@, default@),
{
    if text::same(target, name) {
        text::concat2(name, default)
    } else {
        text::concat4(name, ": ", target, default)
    }
}

impl Codegen {
    fn generate_default(&self, d: &Option<Expression>) -> (r: String)
        ensures
            r@ == default_text(self@, model::opt_expr(*d)),
    {
        match d {
            Some(e) => text::concat2(" = ", &self.generate_expr(e)),
            None => String::new(),
        }
    }

    /// Writes an assignment target.
    pub fn generate_assign_target(&self, t: &AssignTarget) -> (r: String)
        ensures
            r@ == target_text(self@, t@),
        decreases t,
    {
        match t {
            AssignTarget::Register(n) => names::name_of_register(*n),
            AssignTarget::Variable(n) => names::sanitize_identifier(n),
            AssignTarget::Member { object, property } => {
                let key = PropertyKey::Ident(property.clone());
                proof {
                    reveal_strlit("");
                    assert(""@ =~= Seq::<char>::empty());
                }
                format_member_access(&self.generate_expr(object), false, &key, "")
            },
            AssignTarget::Index { object, key } => {
                let o = self.generate_expr(object);
                let k = self.generate_expr(key);
                text::concat4(&o, "[", &k, "]")
            },
            AssignTarget::DestructuringArray(elements) => {
                let parts = self.generate_slots(elements);
                text::concat3("[", &text::join(&parts, ", "), "]")
            },
            AssignTarget::DestructuringArrayRest { elements, rest } => {
                let mut parts = self.generate_slots(elements);
                let ghost before = parts@;
                parts.push(text::concat2("...", &self.generate_assign_target(rest)));
                assert(model::texts(parts@) =~= model::texts(before).push(parts@.last()@));
                text::concat3("[", &text::join(&parts, ", "), "]")
            },
            AssignTarget::DestructuringObject(properties) => {
                let parts = self.generate_fields(properties);
                text::concat3("{ ", &text::join(&parts, ", "), " }")
            },
            AssignTarget::DestructuringObjectRest { properties, rest } => {
                let mut parts = self.generate_fields(properties);
                let ghost before = parts@;
                parts.push(text::concat2("...", &self.generate_assign_target(rest)));
                assert(model::texts(parts@) =~= model::texts(before).push(parts@.last()@));
                text::concat3("{ ", &text::join(&parts, ", "), " }")
            },
        }
    }

    fn generate_slots(
        &self,
        s: &Vec<Option<(AssignTarget, Option<Expression>)>>,
    ) -> (r: Vec<String>)
        ensures
            model::texts(r@) == slots_text(self@, model::slots(s@)),
        decreases s,
    {
        let mut out: Vec<String> = Vec::new();
        let mut i: usize = 0;
        while i < s.len()
            invariant
                i <= s.len(),
                out.len() == i,
                forall|k: int|
                    0 <= k < i ==> (#[trigger] out@[k])@ == (match model::slot(s@[k]) {
                        Some(p) => target_text(self@, p.0) + default_text(self@, p.1),
                        None => Seq::empty(),
                    }),
            decreases s.len() - i,
        {
            match &s[i] {
                Some(p) => {
                    let t = self.generate_assign_target(&p.0);
                    let d = self.generate_default(&p.1);
                    out.push(text::concat2(&t, &d));
                },
                None => out.push(String::new()),
            }
            i += 1;
        }
        assert(model::texts(out@) =~= slots_text(self@, model::slots(s@)));
        out
    }

    fn generate_fields(
        &self,
        s: &Vec<(String, AssignTarget, Option<Expression>)>,
    ) -> (r: Vec<String>)
        ensures
            model::texts(r@) == fields_text(self@, model::fields(s@)),
        decreases s,
    {
        let mut out: Vec<String> = Vec::new();
        let mut i: usize = 0;
        while i < s.len()
            invariant
                i <= s.len(),
                out.len() == i,
                forall|k: int|
                    0 <= k < i ==> (#[trigger] out@[k])@ == field_text(
                        model::field(s@[k]).0,
                        target_text(self@, model::field(s@[k]).1),
                        default_text(self@, model::field(s@[k]).2),
                    ),
            decreases s.len() - i,
        {
            let t = self.generate_assign_target(&s[i].1);
            let d = self.generate_default(&s[i].2);
            out.push(write_field(&s[i].0, &t, &d));
            i += 1;
        }
        assert(model::texts(out@) =~= fields_text(self@, model::fields(s@)));
        out
    }

    fn generate_inline(&self, s: &Statement) -> (r: String)
        ensures
            r@ == inline_text(self@, s@),
    {
        match s {
            Statement::Expr(e) => self.generate_expr(e),
            Statement::Let { name, value, kind } => {
                let bare: bool = match value {
                    Expression::Value(Value::Constant(Constant::Undefined)) => *kind
                        != VarKind::Const,
                    _ => false,
                };
                let head = text::concat3(
                    write_keyword(*kind),
                    " ",
                    &names::sanitize_identifier(name),
                );
                if bare {
                    head
                } else {
                    text::concat3(&head, " = ", &self.generate_expr(value))
                }
            },
            Statement::Assign { target, value } => {
                let t = self.generate_assign_target(target);
                let v = self.generate_expr(value);
                match target {
                    AssignTarget::DestructuringObject(_)
                    | AssignTarget::DestructuringObjectRest { .. } => text::concat5(
                        "(",
                        &t,
                        " = ",
                        &v,
                        ")",
                    ),
                    _ => text::concat3(&t, " = ", &v),
                }
            },
            _ => String::new(),
        }
    }

    fn generate_opt_inline(&self, s: &Option<Box<Statement>>) -> (r: String)
        ensures
            r@ == opt_inline_text(self@, model::opt_stmt(*s)),
    {
        match s {
            Some(b) => self.generate_inline(b),
            None => String::new(),
        }
    }

    fn close_braced(&self, head: String, body: &str) -> (r: String)
        ensures
            r@ == braced(self@, head@, body@),
    {
        let mut out = head;
        out.append(" {\n");
        out.append(body);
        out.append(self.current_indent().as_str());
        out.append("}");
        out
    }

    fn generate_methods(&self, ms: &Vec<ClassMethod>) -> (r: String)
        ensures
            r@ == methods_text(self@, model::class_methods(ms@)),
    {
        let ghost all = model::class_methods(ms@);
        let mut out = String::new();
        let mut i: usize = 0;
        while i < ms.len()
            invariant
                i <= ms.len(),
                all == model::class_methods(ms@),
                out@ == methods_text(self@, all.take(i as int)),
            decreases ms.len() - i,
        {
            assert(all.take(i + 1).drop_last() =~= all.take(i as int));
            let word = if ms[i].is_static {
                "static "
            } else {
                ""
            };
            let line = text::concat4(&self.current_indent(), word, &ms[i].name, "() { ... }\n");
            out.append(line.as_str());
            i += 1;
        }
        assert(all.take(all.len() as int) =~= all);
        out
    }

    /// Enters a nested body; the former level comes back.
    fn enter(&mut self) -> (level: usize)
        ensures
            level == old(self).indent_level,
            final(self)@ == deeper(old(self)@),
            *final(self) == (Codegen { indent_level: final(self).indent_level, ..*old(self) }),
    {
        let level: usize = self.indent_level;
        if level < usize::MAX {
            self.indent_level = level + 1;
        }
        level
    }

    fn generate_body(&mut self, body: &Vec<Statement>) -> (r: String)
        ensures
            *final(self) == *old(self),
            r@ == stmts_text(deeper(old(self)@), model::stmts(body@)),
        decreases body, 1nat,
    {
        let level: usize = self.enter();
        let out = self.generate_list(body);
        self.indent_level = level;
        out
    }

    fn generate_list(&mut self, body: &Vec<Statement>) -> (r: String)
        ensures
            *final(self) == *old(self),
            r@ == stmts_text(old(self)@, model::stmts(body@)),
        decreases body, 0nat,
    {
        let ghost all = model::stmts(body@);
        let ghost g = self@;
        let mut out = String::new();
        let mut i: usize = 0;
        while i < body.len()
            invariant
                i <= body.len(),
                all == model::stmts(body@),
                *self == *old(self),
                g == self@,
                out@ == stmts_text(g, all.take(i as int)),
            decreases body.len() - i,
        {
            assert(all.take(i + 1).drop_last() =~= all.take(i as int));
            let line = self.generate_stmt(&body[i]);
            out.append(line.as_str());
            i += 1;
        }
        assert(all.take(all.len() as int) =~= all);
        out
    }

    fn generate_cases(&mut self, cases: &Vec<(Expression, Vec<Statement>)>) -> (r: String)
        ensures
            *final(self) == *old(self),
            r@ == cases_text(old(self)@, model::case_arms(cases@)),
        decreases cases, 0nat,
    {
        let ghost all = model::case_arms(cases@);
        let ghost g = self@;
        let mut out = String::new();
        let mut i: usize = 0;
        while i < cases.len()
            invariant
                i <= cases.len(),
                all == model::case_arms(cases@),
                *self == *old(self),
                g == self@,
                out@ == cases_text(g, all.take(i as int)),
            decreases cases.len() - i,
        {
            assert(all.take(i + 1).drop_last() =~= all.take(i as int));
            assert(all[i as int] == model::case_arm(cases@[i as int]));
            out.append(self.current_indent().as_str());
            out.append("case ");
            out.append(self.generate_expr(&cases[i].0).as_str());
            out.append(":\n");
            let body = self.generate_body(&cases[i].1);
            out.append(body.as_str());
            i += 1;
        }
        assert(all.take(all.len() as int) =~= all);
        out
    }

    fn generate_switch_body(
        &mut self,
        cases: &Vec<(Expression, Vec<Statement>)>,
    ) -> (r: String)
        ensures
            *final(self) == *old(self),
            r@ == cases_text(deeper(old(self)@), model::case_arms(cases@)),
        decreases cases, 1nat,
    {
        let level: usize = self.enter();
        let out = self.generate_cases(cases);
        self.indent_level = level;
        out
    }

    fn generate_default_arm(&mut self, body: &Vec<Statement>) -> (r: String)
        ensures
            *final(self) == *old(self),
            r@ == lead(deeper(old(self)@)) + "default:\n"@ + stmts_text(
                deeper(deeper(old(self)@)),
                model::stmts(body@),
            ),
        decreases body, 2nat,
    {
        let level: usize = self.enter();
        let indent = self.current_indent();
        let inner = self.generate_body(body);
        self.indent_level = level;
        text::concat3(&indent, "default:\n", &inner)
    }

    /// Writes a statement.
    pub fn generate_stmt(&mut self, s: &Statement) -> (r: String)
        ensures
            *final(self) == *old(self),
            r@ == stmt_text(old(self)@, s@),
        decreases s, 0nat,
    {
        let indent = self.current_indent();
        match s {
            Statement::Expr(_) | Statement::Let { .. } | Statement::Assign { .. } => text::concat3(
                &indent,
                &self.generate_inline(s),
                ";\n",
            ),
            Statement::Return(None) => text::concat2(&indent, "return;\n"),
            Statement::Return(Some(e)) => text::concat4(
                &indent,
                "return ",
                &self.generate_expr(e),
                ";\n",
            ),
            Statement::Throw(e) => text::concat4(&indent, "throw ", &self.generate_expr(e), ";\n"),
            Statement::If { condition, then_body, else_body } => {
                let head = text::concat4(&indent, "if (", &self.generate_expr(condition), ")");
                let body = self.generate_body(then_body);
                let mut out = self.close_braced(head, &body);
                if !is_effectively_empty(else_body) {
                    out.append(" else");
                    let other = self.generate_body(else_body);
                    out = self.close_braced(out, &other);
                }
                out.append("\n");
                out
            },
            Statement::While { condition, body } => {
                let head = text::concat4(&indent, "while (", &self.generate_expr(condition), ")");
                let inner = self.generate_body(body);
                let mut out = self.close_braced(head, &inner);
                out.append("\n");
                out
            },
            Statement::DoWhile { body, condition } => {
                let head = text::concat2(&indent, "do");
                let inner = self.generate_body(body);
                let mut out = self.close_braced(head, &inner);
                out.append(" while (");
                out.append(self.generate_expr(condition).as_str());
                out.append(");\n");
                out
            },
            Statement::For { init, condition, update, body } => {
                let mut head = text::concat2(&indent, "for (");
                head.append(self.generate_opt_inline(init).as_str());
                head.append("; ");
                let c = match condition {
                    Some(e) => self.generate_expr(e),
                    None => String::new(),
                };
                head.append(c.as_str());
                head.append("; ");
                head.append(self.generate_opt_inline(update).as_str());
                head.append(")");
                let inner = self.generate_body(body);
                let mut out = self.close_braced(head, &inner);
                out.append("\n");
                out
            },
            Statement::ForIn { variable, object, body } => {
                let mut head = text::concat3(
                    &indent,
                    "for (const ",
                    &sanitize_loop_var(variable, "key"),
                );
                head.append(" in ");
                head.append(self.generate_expr(object).as_str());
                head.append(")");
                let inner = self.generate_body(body);
                let mut out = self.close_braced(head, &inner);
                out.append("\n");
                out
            },
            Statement::ForOf { variable, iterable, body } => {
                let mut head = text::concat3(
                    &indent,
                    "for (const ",
                    &sanitize_loop_var(variable, "item"),
                );
                head.append(" of ");
                head.append(self.generate_expr(iterable).as_str());
                head.append(")");
                let inner = self.generate_body(body);
                let mut out = self.close_braced(head, &inner);
                out.append("\n");
                out
            },
            Statement::Block(body) => {
                let inner = self.generate_body(body);
                text::concat5(&indent, "{\n", &inner, &indent, "}\n")
            },
            Statement::TryCatch { try_body, catch_param, catch_body, finally_body } => {
                let tried = self.generate_body(try_body);
                let mut out = self.close_braced(text::concat2(&indent, "try"), &tried);
                assert(model::stmts(catch_body@).len() == catch_body@.len());
                assert(model::stmts(finally_body@).len() == finally_body@.len());
                if catch_body.len() != 0 || finally_body.len() == 0 {
                    let clause = match catch_param {
                        Some(p) => text::concat3(" catch (", &names::sanitize_identifier(p), ")"),
                        None => " catch".to_owned(),
                    };
                    out.append(clause.as_str());
                    let caught = self.generate_body(catch_body);
                    out = self.close_braced(out, &caught);
                }
                if finally_body.len() != 0 {
                    out.append(" finally");
                    let last = self.generate_body(finally_body);
                    out = self.close_braced(out, &last);
                }
                out.append("\n");
                out
            },
            Statement::Switch { discriminant, cases, default } => {
                let head = text::concat4(
                    &indent,
                    "switch (",
                    &self.generate_expr(discriminant),
                    ")",
                );
                let mut all = self.generate_switch_body(cases);
                let ghost arms = all@;
                if let Some(body) = default {
                    let arm = self.generate_default_arm(body);
                    all.append(arm.as_str());
                    let ghost inner = stmts_text(
                        deeper(deeper(old(self)@)),
                        model::stmts(body@),
                    );
                    assert(all@ =~= arms + lead(deeper(old(self)@)) + "default:\n"@ + inner);
                }
                let mut out = self.close_braced(head, &all);
                out.append("\n");
                out
            },
            Statement::Class { name, super_class, constructor, methods } => {
                let mut head = text::concat3(&indent, "class ", name);
                if let Some(e) = super_class {
                    head.append(" extends ");
                    head.append(self.generate_expr(e).as_str());
                }
                let level: usize = self.enter();
                let mut inner = match constructor {
                    Some(_) => text::concat2(&self.current_indent(), "constructor() { ... }\n"),
                    None => String::new(),
                };
                inner.append(self.generate_methods(methods).as_str());
                self.indent_level = level;
                let mut out = self.close_braced(head, &inner);
                out.append("\n");
                out
            },
            Statement::Comment(c) => text::concat4(&indent, "// ", c, "\n"),
            Statement::Break(label) => text::concat2(&indent, &write_label("break", label)),
            Statement::Continue(label) => text::concat2(&indent, &write_label("continue", label)),
        }
    }

    /// Writes a list of statements. The generator is left as it was.
    pub fn generate_statements(&mut self, statements: &Vec<Statement>) -> (r: String)
        ensures
            *final(self) == *old(self),
            r@ == stmts_text(old(self)@, model::stmts(statements@)),
    {
        self.generate_list(statements)
    }
}

} // verus!
