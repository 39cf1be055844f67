//! What occurs in a piece of the program: operands read, places written, names introduced.
//!
//! Questions about a statement ("is this register read?", "how often is this name written?")
//! are questions about the sequence of its occurrences.

use super::model;
use super::model::{Expr, Key, Method, Prop, Stmt, Target, Val};
use super::{
    AssignTarget, ClassMethod, Expression, FunctionId, ObjectProperty, PropertyKey, Statement, Value,
};
use vstd::prelude::*;

verus! {

/// One occurrence in a piece of the program.
#[allow(inconsistent_fields)]
pub enum Occurrence {
    /// A leaf operand is read.
    Use(Value),
    /// A register is written.
    WriteRegister(u32),
    /// A variable is written.
    WriteVariable(String),
    /// A declaration introduces a name.
    Declare(String),
    /// A `for` loop over keys or values introduces a name.
    LoopVar(String),
    /// A `catch` clause introduces a name.
    CatchParam(String),
    /// A function is mentioned.
    Function(FunctionId),
    /// A `yield`.
    Yield,
    /// Any other text: a property key, a tag, a label, a comment.
    Name(String),
}

/// The mathematical model of an [`Occurrence`].
#[verifier::ext_equal]
#[allow(inconsistent_fields)]
pub enum Atom {
    Use(Val),
    WriteRegister(u32),
    WriteVariable(Seq<char>),
    Declare(Seq<char>),
    LoopVar(Seq<char>),
    CatchParam(Seq<char>),
    Function(FunctionId),
    Yield,
    Name(Seq<char>),
}

impl Occurrence {
    pub open spec fn view(&self) -> Atom {
        match self {
            Occurrence::Use(v) => Atom::Use(v@),
            Occurrence::WriteRegister(r) => Atom::WriteRegister(*r),
            Occurrence::WriteVariable(n) => Atom::WriteVariable(n@),
            Occurrence::Declare(n) => Atom::Declare(n@),
            Occurrence::LoopVar(n) => Atom::LoopVar(n@),
            Occurrence::CatchParam(n) => Atom::CatchParam(n@),
            Occurrence::Function(id) => Atom::Function(*id),
            Occurrence::Yield => Atom::Yield,
            Occurrence::Name(n) => Atom::Name(n@),
        }
    }
}

/// The models of a list of occurrences.
pub open spec fn occs(s: Seq<Occurrence>) -> Seq<Atom> {
    s.map_values(|o: Occurrence| o@)
}

proof fn lemma_add_assoc<A>(a: Seq<A>, b: Seq<A>, c: Seq<A>)
    ensures
        (a + b) + c == a + (b + c),
{
    assert((a + b) + c =~= a + (b + c));
}

fn put(out: &mut Vec<Occurrence>, o: Occurrence)
    ensures
        occs(final(out)@) == occs(old(out)@) + seq![o@],
{
    out.push(o);
    assert(occs(out@) =~= occs(old(out)@) + seq![o@]);
}

/// The occurrences in an expression.
pub open spec fn expr_atoms(e: Expr) -> Seq<Atom>
    decreases e,
{
    match e {
        Expr::Value(x) => seq![Atom::Use(x)],
        Expr::Binary { left, right, .. } => expr_atoms(*left) + expr_atoms(*right),
        Expr::Unary { operand, .. } => expr_atoms(*operand),
        Expr::Conditional { condition, then_expr, else_expr } => expr_atoms(*condition) + expr_atoms(*then_expr) + expr_atoms(*else_expr),
        Expr::Member { object, property, .. } => expr_atoms(*object) + key_atoms(property),
        Expr::Call { callee, arguments } => expr_atoms(*callee) + exprs_atoms(arguments),
        Expr::New { callee, arguments } => expr_atoms(*callee) + exprs_atoms(arguments),
        Expr::Array { elements } => elements_atoms(elements),
        Expr::Object { properties } => props_atoms(properties),
        Expr::Function { id, name, .. } => seq![Atom::Function(id)] + opt_name_atoms(name),
        Expr::Assignment { target, value } => expr_atoms(*target) + expr_atoms(*value),
        Expr::Spread(x) => expr_atoms(*x),
        Expr::TemplateLiteral { quasis, expressions } => names_atoms(quasis) + exprs_atoms(expressions),
        Expr::RegExp { pattern, flags } => seq![Atom::Name(pattern)] + seq![Atom::Name(flags)],
        Expr::Yield { value, .. } => seq![Atom::Yield] + expr_atoms(*value),
        Expr::Await(x) => expr_atoms(*x),
        Expr::JSXElement { tag, attributes, children } => seq![Atom::Name(tag)] + attrs_atoms(attributes) + exprs_atoms(children),
        Expr::Unknown { opcode, operands } => seq![Atom::Name(opcode)] + names_atoms(operands),
    }
}

/// The occurrences in a property key.
pub open spec fn key_atoms(e: Key) -> Seq<Atom>
    decreases e,
{
    match e {
        Key::Ident(x) => seq![Atom::Name(x)],
        Key::String(x) => seq![Atom::Name(x)],
        Key::Index(_) => Seq::empty(),
        Key::Computed(x) => expr_atoms(*x),
    }
}

/// The occurrences in an assignment target.
pub open spec fn target_atoms(e: Target) -> Seq<Atom>
    decreases e,
{
    match e {
        Target::Register(x) => seq![Atom::WriteRegister(x)],
        Target::Variable(x) => seq![Atom::WriteVariable(x)],
        Target::Member { object, property } => expr_atoms(object) + seq![Atom::Name(property)],
        Target::Index { object, key } => expr_atoms(object) + expr_atoms(key),
        Target::DestructuringArray(x) => slots_atoms(x),
        Target::DestructuringArrayRest { elements, rest } => slots_atoms(elements) + target_atoms(*rest),
        Target::DestructuringObject(x) => fields_atoms(x),
        Target::DestructuringObjectRest { properties, rest } => fields_atoms(properties) + target_atoms(*rest),
    }
}

/// The occurrences in a statement, nested bodies included.
pub open spec fn stmt_atoms(e: Stmt) -> Seq<Atom>
    decreases e,
{
    match e {
        Stmt::Expr(x) => expr_atoms(x),
        Stmt::Let { name, value, .. } => seq![Atom::Declare(name)] + expr_atoms(value),
        Stmt::Assign { target, value } => target_atoms(target) + expr_atoms(value),
        Stmt::Return(x) => opt_expr_atoms(x),
        Stmt::Throw(x) => expr_atoms(x),
        Stmt::If { condition, then_body, else_body } => expr_atoms(condition) + stmts_atoms(then_body) + stmts_atoms(else_body),
        Stmt::While { condition, body } => expr_atoms(condition) + stmts_atoms(body),
        Stmt::DoWhile { body, condition } => stmts_atoms(body) + expr_atoms(condition),
        Stmt::For { init, condition, update, body } => opt_stmt_atoms(init)
            + opt_expr_atoms(condition)
            + opt_stmt_atoms(update)
            + stmts_atoms(body),
        Stmt::ForIn { variable, object, body } => seq![Atom::LoopVar(variable)] + expr_atoms(object) + stmts_atoms(body),
        Stmt::ForOf { variable, iterable, body } => seq![Atom::LoopVar(variable)] + expr_atoms(iterable) + stmts_atoms(body),
        Stmt::Block(x) => stmts_atoms(x),
        Stmt::TryCatch { try_body, catch_param, catch_body, finally_body } => stmts_atoms(try_body)
            + opt_param_atoms(catch_param)
            + stmts_atoms(catch_body)
            + stmts_atoms(finally_body),
        Stmt::Switch { discriminant, cases, default } => expr_atoms(discriminant) + cases_atoms(cases) + opt_stmts_atoms(default),
        Stmt::Class { name, super_class, constructor, methods } => seq![Atom::Name(name)]
            + opt_expr_atoms(super_class)
            + opt_id_atoms(constructor)
            + methods_atoms(methods),
        Stmt::Comment(x) => seq![Atom::Name(x)],
        Stmt::Break(x) => opt_name_atoms(x),
        Stmt::Continue(x) => opt_name_atoms(x),
    }
}

/// The occurrences in an optional expression.
pub open spec fn opt_expr_atoms(o: Option<Expr>) -> Seq<Atom>
    decreases o,
{
    match o {
        Some(x) => expr_atoms(x),
        None => Seq::empty(),
    }
}

/// The occurrences in a list of expressions.
pub open spec fn exprs_atoms(s: Seq<Expr>) -> Seq<Atom>
    decreases s,
{
    if s.len() == 0 {
        Seq::empty()
    } else {
        exprs_atoms(s.drop_last()) + expr_atoms(s.last())
    }
}

/// The occurrences in array elements.
pub open spec fn elements_atoms(s: Seq<Option<Expr>>) -> Seq<Atom>
    decreases s,
{
    if s.len() == 0 {
        Seq::empty()
    } else {
        elements_atoms(s.drop_last()) + opt_expr_atoms(s.last())
    }
}

/// The occurrences in object properties.
pub open spec fn props_atoms(s: Seq<Prop>) -> Seq<Atom>
    decreases s,
{
    if s.len() == 0 {
        Seq::empty()
    } else {
        props_atoms(s.drop_last()) + key_atoms(s.last().key) + expr_atoms(s.last().value)
    }
}

/// The occurrences in named attributes.
pub open spec fn attrs_atoms(s: Seq<(Seq<char>, Expr)>) -> Seq<Atom>
    decreases s,
{
    if s.len() == 0 {
        Seq::empty()
    } else {
        attrs_atoms(s.drop_last()) + seq![Atom::Name(s.last().0)] + expr_atoms(s.last().1)
    }
}

/// The occurrences in one element of an array pattern.
pub open spec fn slot_atoms(o: Option<(Target, Option<Expr>)>) -> Seq<Atom>
    decreases o,
{
    match o {
        Some(p) => target_atoms(p.0) + opt_expr_atoms(p.1),
        None => Seq::empty(),
    }
}

/// The occurrences in the elements of an array pattern.
pub open spec fn slots_atoms(s: Seq<Option<(Target, Option<Expr>)>>) -> Seq<Atom>
    decreases s,
{
    if s.len() == 0 {
        Seq::empty()
    } else {
        slots_atoms(s.drop_last()) + slot_atoms(s.last())
    }
}

/// The occurrences in the fields of an object pattern.
pub open spec fn fields_atoms(s: Seq<(Seq<char>, Target, Option<Expr>)>) -> Seq<Atom>
    decreases s,
{
    if s.len() == 0 {
        Seq::empty()
    } else {
        fields_atoms(s.drop_last()) + seq![Atom::Name(s.last().0)] + target_atoms(s.last().1) + opt_expr_atoms(s.last().2)
    }
}

/// The occurrences in a list of statements.
pub open spec fn stmts_atoms(s: Seq<Stmt>) -> Seq<Atom>
    decreases s,
{
    if s.len() == 0 {
        Seq::empty()
    } else {
        stmts_atoms(s.drop_last()) + stmt_atoms(s.last())
    }
}

/// The occurrences in an optional statement.
pub open spec fn opt_stmt_atoms(o: Option<Box<Stmt>>) -> Seq<Atom>
    decreases o,
{
    match o {
        Some(x) => stmt_atoms(*x),
        None => Seq::empty(),
    }
}

/// The occurrences in an optional body.
pub open spec fn opt_stmts_atoms(o: Option<Seq<Stmt>>) -> Seq<Atom>
    decreases o,
{
    match o {
        Some(x) => stmts_atoms(x),
        None => Seq::empty(),
    }
}

/// The occurrences in the arms of a `switch`.
pub open spec fn cases_atoms(s: Seq<(Expr, Seq<Stmt>)>) -> Seq<Atom>
    decreases s,
{
    if s.len() == 0 {
        Seq::empty()
    } else {
        cases_atoms(s.drop_last()) + expr_atoms(s.last().0) + stmts_atoms(s.last().1)
    }
}

/// The occurrences in the methods of a class.
pub open spec fn methods_atoms(s: Seq<Method>) -> Seq<Atom>
    decreases s,
{
    if s.len() == 0 {
        Seq::empty()
    } else {
        methods_atoms(s.drop_last()) + seq![Atom::Name(s.last().name)] + seq![Atom::Function(s.last().function)]
    }
}

/// The occurrences in a list of texts.
pub open spec fn names_atoms(s: Seq<Seq<char>>) -> Seq<Atom>
    decreases s,
{
    if s.len() == 0 {
        Seq::empty()
    } else {
        names_atoms(s.drop_last()) + seq![Atom::Name(s.last())]
    }
}

/// The occurrence of an optional name.
pub open spec fn opt_name_atoms(o: Option<Seq<char>>) -> Seq<Atom>
    decreases o,
{
    match o {
        Some(x) => seq![Atom::Name(x)],
        None => Seq::empty(),
    }
}

/// The occurrence of an optional `catch` parameter.
pub open spec fn opt_param_atoms(o: Option<Seq<char>>) -> Seq<Atom>
    decreases o,
{
    match o {
        Some(x) => seq![Atom::CatchParam(x)],
        None => Seq::empty(),
    }
}

/// The occurrence of an optional function.
pub open spec fn opt_id_atoms(o: Option<FunctionId>) -> Seq<Atom>
    decreases o,
{
    match o {
        Some(x) => seq![Atom::Function(x)],
        None => Seq::empty(),
    }
}

pub fn push_expr(e: &Expression, out: &mut Vec<Occurrence>)
    ensures
        occs(final(out)@) == occs(old(out)@) + expr_atoms(e@),
    decreases e,
{
    let ghost before = occs(out@);
    match e {
        Expression::Value(x) => {
            put(out, Occurrence::Use(x.clone()));
        },
        Expression::Binary { left, right, .. } => {
            push_expr(left, out);
            push_expr(right, out);
            proof {
                lemma_add_assoc(before, expr_atoms(left@), expr_atoms(right@));
            }
        },
        Expression::Unary { operand, .. } => {
            push_expr(operand, out);
        },
        Expression::Conditional { condition, then_expr, else_expr } => {
            push_expr(condition, out);
            push_expr(then_expr, out);
            push_expr(else_expr, out);
            proof {
                lemma_add_assoc(before, expr_atoms(condition@), expr_atoms(then_expr@));
                lemma_add_assoc(before, expr_atoms(condition@) + expr_atoms(then_expr@), expr_atoms(else_expr@));
            }
        },
        Expression::Member { object, property, .. } => {
            push_expr(object, out);
            push_key(property, out);
            proof {
                lemma_add_assoc(before, expr_atoms(object@), key_atoms(property@));
            }
        },
        Expression::Call { callee, arguments } => {
            push_expr(callee, out);
            push_exprs(arguments, out);
            proof {
                lemma_add_assoc(before, expr_atoms(callee@), exprs_atoms(model::exprs(arguments@)));
            }
        },
        Expression::New { callee, arguments } => {
            push_expr(callee, out);
            push_exprs(arguments, out);
            proof {
                lemma_add_assoc(before, expr_atoms(callee@), exprs_atoms(model::exprs(arguments@)));
            }
        },
        Expression::Array { elements } => {
            push_elements(elements, out);
        },
        Expression::Object { properties } => {
            push_props(properties, out);
        },
        Expression::Function { id, name, .. } => {
            put(out, Occurrence::Function(*id));
            push_opt_name(name, out);
            proof {
                lemma_add_assoc(before, seq![Atom::Function(*id)], opt_name_atoms(model::opt_text(*name)));
            }
        },
        Expression::Assignment { target, value } => {
            push_expr(target, out);
            push_expr(value, out);
            proof {
                lemma_add_assoc(before, expr_atoms(target@), expr_atoms(value@));
            }
        },
        Expression::Spread(x) => {
            push_expr(x, out);
        },
        Expression::TemplateLiteral { quasis, expressions } => {
            push_names(quasis, out);
            push_exprs(expressions, out);
            proof {
                lemma_add_assoc(before, names_atoms(model::texts(quasis@)), exprs_atoms(model::exprs(expressions@)));
            }
        },
        Expression::RegExp { pattern, flags } => {
            put(out, Occurrence::Name(pattern.clone()));
            put(out, Occurrence::Name(flags.clone()));
            proof {
                lemma_add_assoc(before, seq![Atom::Name(pattern@)], seq![Atom::Name(flags@)]);
            }
        },
        Expression::Yield { value, .. } => {
            put(out, Occurrence::Yield);
            push_expr(value, out);
            proof {
                lemma_add_assoc(before, seq![Atom::Yield], expr_atoms(value@));
            }
        },
        Expression::Await(x) => {
            push_expr(x, out);
        },
        Expression::JSXElement { tag, attributes, children } => {
            put(out, Occurrence::Name(tag.clone()));
            push_attrs(attributes, out);
            push_exprs(children, out);
            proof {
                lemma_add_assoc(before, seq![Atom::Name(tag@)], attrs_atoms(model::attrs(attributes@)));
                lemma_add_assoc(before, seq![Atom::Name(tag@)] + attrs_atoms(model::attrs(attributes@)), exprs_atoms(model::exprs(children@)));
            }
        },
        Expression::Unknown { opcode, operands } => {
            put(out, Occurrence::Name(opcode.clone()));
            push_names(operands, out);
            proof {
                lemma_add_assoc(before, seq![Atom::Name(opcode@)], names_atoms(model::texts(operands@)));
            }
        },
    }
}

pub fn push_key(e: &PropertyKey, out: &mut Vec<Occurrence>)
    ensures
        occs(final(out)@) == occs(old(out)@) + key_atoms(e@),
    decreases e,
{
    let ghost before = occs(out@);
    match e {
        PropertyKey::Ident(x) => {
            put(out, Occurrence::Name(x.clone()));
        },
        PropertyKey::String(x) => {
            put(out, Occurrence::Name(x.clone()));
        },
        PropertyKey::Index(_) => {
            assert(before + Seq::<Atom>::empty() =~= before);
        },
        PropertyKey::Computed(x) => {
            push_expr(x, out);
        },
    }
}

pub fn push_target(e: &AssignTarget, out: &mut Vec<Occurrence>)
    ensures
        occs(final(out)@) == occs(old(out)@) + target_atoms(e@),
    decreases e,
{
    let ghost before = occs(out@);
    match e {
        AssignTarget::Register(x) => {
            put(out, Occurrence::WriteRegister(*x));
        },
        AssignTarget::Variable(x) => {
            put(out, Occurrence::WriteVariable(x.clone()));
        },
        AssignTarget::Member { object, property } => {
            push_expr(object, out);
            put(out, Occurrence::Name(property.clone()));
            proof {
                lemma_add_assoc(before, expr_atoms(object@), seq![Atom::Name(property@)]);
            }
        },
        AssignTarget::Index { object, key } => {
            push_expr(object, out);
            push_expr(key, out);
            proof {
                lemma_add_assoc(before, expr_atoms(object@), expr_atoms(key@));
            }
        },
        AssignTarget::DestructuringArray(x) => {
            push_slots(x, out);
        },
        AssignTarget::DestructuringArrayRest { elements, rest } => {
            push_slots(elements, out);
            push_target(rest, out);
            proof {
                lemma_add_assoc(before, slots_atoms(model::slots(elements@)), target_atoms(rest@));
            }
        },
        AssignTarget::DestructuringObject(x) => {
            push_fields(x, out);
        },
        AssignTarget::DestructuringObjectRest { properties, rest } => {
            push_fields(properties, out);
            push_target(rest, out);
            proof {
                lemma_add_assoc(before, fields_atoms(model::fields(properties@)), target_atoms(rest@));
            }
        },
    }
}

pub fn push_stmt(e: &Statement, out: &mut Vec<Occurrence>)
    ensures
        occs(final(out)@) == occs(old(out)@) + stmt_atoms(e@),
    decreases e,
{
    let ghost before = occs(out@);
    match e {
        Statement::Expr(x) => {
            push_expr(x, out);
        },
        Statement::Let { name, value, .. } => {
            put(out, Occurrence::Declare(name.clone()));
            push_expr(value, out);
            proof {
                lemma_add_assoc(before, seq![Atom::Declare(name@)], expr_atoms(value@));
            }
        },
        Statement::Assign { target, value } => {
            push_target(target, out);
            push_expr(value, out);
            proof {
                lemma_add_assoc(before, target_atoms(target@), expr_atoms(value@));
            }
        },
        Statement::Return(x) => {
            push_opt_expr(x, out);
        },
        Statement::Throw(x) => {
            push_expr(x, out);
        },
        Statement::If { condition, then_body, else_body } => {
            push_expr(condition, out);
            push_stmts(then_body, out);
            push_stmts(else_body, out);
            proof {
                lemma_add_assoc(before, expr_atoms(condition@), stmts_atoms(model::stmts(then_body@)));
                lemma_add_assoc(before, expr_atoms(condition@) + stmts_atoms(model::stmts(then_body@)), stmts_atoms(model::stmts(else_body@)));
            }
        },
        Statement::While { condition, body } => {
            push_expr(condition, out);
            push_stmts(body, out);
            proof {
                lemma_add_assoc(before, expr_atoms(condition@), stmts_atoms(model::stmts(body@)));
            }
        },
        Statement::DoWhile { body, condition } => {
            push_stmts(body, out);
            push_expr(condition, out);
            proof {
                lemma_add_assoc(before, stmts_atoms(model::stmts(body@)), expr_atoms(condition@));
            }
        },
        Statement::For { init, condition, update, body } => {
            push_opt_stmt(init, out);
            push_opt_expr(condition, out);
            push_opt_stmt(update, out);
            push_stmts(body, out);
            proof {
                lemma_add_assoc(before, opt_stmt_atoms(model::opt_stmt(*init)), opt_expr_atoms(model::opt_expr(*condition)));
                lemma_add_assoc(before, opt_stmt_atoms(model::opt_stmt(*init)) + opt_expr_atoms(model::opt_expr(*condition)), opt_stmt_atoms(model::opt_stmt(*update)));
                lemma_add_assoc(before, opt_stmt_atoms(model::opt_stmt(*init)) + opt_expr_atoms(model::opt_expr(*condition)) + opt_stmt_atoms(model::opt_stmt(*update)), stmts_atoms(model::stmts(body@)));
            }
        },
        Statement::ForIn { variable, object, body } => {
            put(out, Occurrence::LoopVar(variable.clone()));
            push_expr(object, out);
            push_stmts(body, out);
            proof {
                lemma_add_assoc(before, seq![Atom::LoopVar(variable@)], expr_atoms(object@));
                lemma_add_assoc(before, seq![Atom::LoopVar(variable@)] + expr_atoms(object@), stmts_atoms(model::stmts(body@)));
            }
        },
        Statement::ForOf { variable, iterable, body } => {
            put(out, Occurrence::LoopVar(variable.clone()));
            push_expr(iterable, out);
            push_stmts(body, out);
            proof {
                lemma_add_assoc(before, seq![Atom::LoopVar(variable@)], expr_atoms(iterable@));
                lemma_add_assoc(before, seq![Atom::LoopVar(variable@)] + expr_atoms(iterable@), stmts_atoms(model::stmts(body@)));
            }
        },
        Statement::Block(x) => {
            push_stmts(x, out);
        },
        Statement::TryCatch { try_body, catch_param, catch_body, finally_body } => {
            push_stmts(try_body, out);
            push_opt_param(catch_param, out);
            push_stmts(catch_body, out);
            push_stmts(finally_body, out);
            proof {
                lemma_add_assoc(before, stmts_atoms(model::stmts(try_body@)), opt_param_atoms(model::opt_text(*catch_param)));
                lemma_add_assoc(before, stmts_atoms(model::stmts(try_body@)) + opt_param_atoms(model::opt_text(*catch_param)), stmts_atoms(model::stmts(catch_body@)));
                lemma_add_assoc(before, stmts_atoms(model::stmts(try_body@)) + opt_param_atoms(model::opt_text(*catch_param)) + stmts_atoms(model::stmts(catch_body@)), stmts_atoms(model::stmts(finally_body@)));
            }
        },
        Statement::Switch { discriminant, cases, default } => {
            push_expr(discriminant, out);
            push_cases(cases, out);
            push_opt_stmts(default, out);
            proof {
                lemma_add_assoc(before, expr_atoms(discriminant@), cases_atoms(model::case_arms(cases@)));
                lemma_add_assoc(before, expr_atoms(discriminant@) + cases_atoms(model::case_arms(cases@)), opt_stmts_atoms(model::opt_stmts(*default)));
            }
        },
        Statement::Class { name, super_class, constructor, methods } => {
            put(out, Occurrence::Name(name.clone()));
            push_opt_expr(super_class, out);
            push_opt_id(constructor, out);
            push_methods(methods, out);
            proof {
                lemma_add_assoc(before, seq![Atom::Name(name@)], opt_expr_atoms(model::opt_expr(*super_class)));
                lemma_add_assoc(before, seq![Atom::Name(name@)] + opt_expr_atoms(model::opt_expr(*super_class)), opt_id_atoms(*constructor));
                lemma_add_assoc(before, seq![Atom::Name(name@)] + opt_expr_atoms(model::opt_expr(*super_class)) + opt_id_atoms(*constructor), methods_atoms(model::class_methods(methods@)));
            }
        },
        Statement::Comment(x) => {
            put(out, Occurrence::Name(x.clone()));
        },
        Statement::Break(x) => {
            push_opt_name(x, out);
        },
        Statement::Continue(x) => {
            push_opt_name(x, out);
        },
    }
}

pub fn push_opt_expr(o: &Option<Expression>, out: &mut Vec<Occurrence>)
    ensures
        occs(final(out)@) == occs(old(out)@) + opt_expr_atoms(model::opt_expr(*o)),
    decreases o,
{
    match o {
        Some(x) => {
            push_expr(x, out);
        },
        None => {
            assert(occs(out@) + Seq::<Atom>::empty() =~= occs(out@));
        },
    }
}

pub fn push_exprs(v: &Vec<Expression>, out: &mut Vec<Occurrence>)
    ensures
        occs(final(out)@) == occs(old(out)@) + exprs_atoms(model::exprs(v@)),
    decreases v,
{
    let ghost all = model::exprs(v@);
    let ghost before = occs(out@);
    let mut i: usize = 0;
    assert(before + Seq::<Atom>::empty() =~= before);
    while i < v.len()
        invariant
            i <= v.len(),
            all == model::exprs(v@),
            occs(out@) == before + exprs_atoms(all.take(i as int)),
        decreases v.len() - i,
    {
        assert(all.take(i + 1).drop_last() =~= all.take(i as int));
        let ghost done = exprs_atoms(all.take(i as int));
        push_expr(&v[i], out);
        proof {
            lemma_add_assoc(before, done, expr_atoms(all[i as int]));
        }
        i += 1;
    }
    assert(all.take(all.len() as int) =~= all);
}

pub fn push_elements(v: &Vec<Option<Expression>>, out: &mut Vec<Occurrence>)
    ensures
        occs(final(out)@) == occs(old(out)@) + elements_atoms(model::opt_exprs(v@)),
    decreases v,
{
    let ghost all = model::opt_exprs(v@);
    let ghost before = occs(out@);
    let mut i: usize = 0;
    assert(before + Seq::<Atom>::empty() =~= before);
    while i < v.len()
        invariant
            i <= v.len(),
            all == model::opt_exprs(v@),
            occs(out@) == before + elements_atoms(all.take(i as int)),
        decreases v.len() - i,
    {
        assert(all.take(i + 1).drop_last() =~= all.take(i as int));
        let ghost done = elements_atoms(all.take(i as int));
        push_opt_expr(&v[i], out);
        proof {
            lemma_add_assoc(before, done, opt_expr_atoms(all[i as int]));
        }
        i += 1;
    }
    assert(all.take(all.len() as int) =~= all);
}

pub fn push_props(v: &Vec<ObjectProperty>, out: &mut Vec<Occurrence>)
    ensures
        occs(final(out)@) == occs(old(out)@) + props_atoms(model::props(v@)),
    decreases v,
{
    let ghost all = model::props(v@);
    let ghost before = occs(out@);
    let mut i: usize = 0;
    assert(before + Seq::<Atom>::empty() =~= before);
    while i < v.len()
        invariant
            i <= v.len(),
            all == model::props(v@),
            occs(out@) == before + props_atoms(all.take(i as int)),
        decreases v.len() - i,
    {
        assert(all.take(i + 1).drop_last() =~= all.take(i as int));
        let ghost done = props_atoms(all.take(i as int));
        push_key(&v[i].key, out);
        push_expr(&v[i].value, out);
        proof {
            lemma_add_assoc(before, done, key_atoms(all[i as int].key));
            lemma_add_assoc(before, done + key_atoms(all[i as int].key), expr_atoms(all[i as int].value));
        }
        i += 1;
    }
    assert(all.take(all.len() as int) =~= all);
}

pub fn push_attrs(v: &Vec<(String, Expression)>, out: &mut Vec<Occurrence>)
    ensures
        occs(final(out)@) == occs(old(out)@) + attrs_atoms(model::attrs(v@)),
    decreases v,
{
    let ghost all = model::attrs(v@);
    let ghost before = occs(out@);
    let mut i: usize = 0;
    assert(before + Seq::<Atom>::empty() =~= before);
    while i < v.len()
        invariant
            i <= v.len(),
            all == model::attrs(v@),
            occs(out@) == before + attrs_atoms(all.take(i as int)),
        decreases v.len() - i,
    {
        assert(all.take(i + 1).drop_last() =~= all.take(i as int));
        let ghost done = attrs_atoms(all.take(i as int));
        put(out, Occurrence::Name(v[i].0.clone()));
        push_expr(&v[i].1, out);
        proof {
            lemma_add_assoc(before, done, seq![Atom::Name(all[i as int].0)]);
            lemma_add_assoc(before, done + seq![Atom::Name(all[i as int].0)], expr_atoms(all[i as int].1));
        }
        i += 1;
    }
    assert(all.take(all.len() as int) =~= all);
}

pub fn push_slot(o: &Option<(AssignTarget, Option<Expression>)>, out: &mut Vec<Occurrence>)
    ensures
        occs(final(out)@) == occs(old(out)@) + slot_atoms(model::slot(*o)),
    decreases o,
{
    let ghost before = occs(out@);
    match o {
        Some(p) => {
            push_target(&p.0, out);
            push_opt_expr(&p.1, out);
            proof {
                lemma_add_assoc(
                    before,
                    target_atoms(p.0@),
                    opt_expr_atoms(model::opt_expr(p.1)),
                );
            }
        },
        None => {
            assert(before + Seq::<Atom>::empty() =~= before);
        },
    }
}

pub fn push_slots(v: &Vec<Option<(AssignTarget, Option<Expression>)>>, out: &mut Vec<Occurrence>)
    ensures
        occs(final(out)@) == occs(old(out)@) + slots_atoms(model::slots(v@)),
    decreases v,
{
    let ghost all = model::slots(v@);
    let ghost before = occs(out@);
    let mut i: usize = 0;
    assert(before + Seq::<Atom>::empty() =~= before);
    while i < v.len()
        invariant
            i <= v.len(),
            all == model::slots(v@),
            occs(out@) == before + slots_atoms(all.take(i as int)),
        decreases v.len() - i,
    {
        assert(all.take(i + 1).drop_last() =~= all.take(i as int));
        let ghost done = slots_atoms(all.take(i as int));
        push_slot(&v[i], out);
        proof {
            lemma_add_assoc(before, done, slot_atoms(all[i as int]));
        }
        i += 1;
    }
    assert(all.take(all.len() as int) =~= all);
}

pub fn push_fields(v: &Vec<(String, AssignTarget, Option<Expression>)>, out: &mut Vec<Occurrence>)
    ensures
        occs(final(out)@) == occs(old(out)@) + fields_atoms(model::fields(v@)),
    decreases v,
{
    let ghost all = model::fields(v@);
    let ghost before = occs(out@);
    let mut i: usize = 0;
    assert(before + Seq::<Atom>::empty() =~= before);
    while i < v.len()
        invariant
            i <= v.len(),
            all == model::fields(v@),
            occs(out@) == before + fields_atoms(all.take(i as int)),
        decreases v.len() - i,
    {
        assert(all.take(i + 1).drop_last() =~= all.take(i as int));
        let ghost done = fields_atoms(all.take(i as int));
        put(out, Occurrence::Name(v[i].0.clone()));
        push_target(&v[i].1, out);
        push_opt_expr(&v[i].2, out);
        proof {
            lemma_add_assoc(before, done, seq![Atom::Name(all[i as int].0)]);
            lemma_add_assoc(before, done + seq![Atom::Name(all[i as int].0)], target_atoms(all[i as int].1));
            lemma_add_assoc(before, done + seq![Atom::Name(all[i as int].0)] + target_atoms(all[i as int].1), opt_expr_atoms(all[i as int].2));
        }
        i += 1;
    }
    assert(all.take(all.len() as int) =~= all);
}

pub fn push_stmts(v: &Vec<Statement>, out: &mut Vec<Occurrence>)
    ensures
        occs(final(out)@) == occs(old(out)@) + stmts_atoms(model::stmts(v@)),
    decreases v,
{
    let ghost all = model::stmts(v@);
    let ghost before = occs(out@);
    let mut i: usize = 0;
    assert(before + Seq::<Atom>::empty() =~= before);
    while i < v.len()
        invariant
            i <= v.len(),
            all == model::stmts(v@),
            occs(out@) == before + stmts_atoms(all.take(i as int)),
        decreases v.len() - i,
    {
        assert(all.take(i + 1).drop_last() =~= all.take(i as int));
        let ghost done = stmts_atoms(all.take(i as int));
        push_stmt(&v[i], out);
        proof {
            lemma_add_assoc(before, done, stmt_atoms(all[i as int]));
        }
        i += 1;
    }
    assert(all.take(all.len() as int) =~= all);
}

pub fn push_opt_stmt(o: &Option<Box<Statement>>, out: &mut Vec<Occurrence>)
    ensures
        occs(final(out)@) == occs(old(out)@) + opt_stmt_atoms(model::opt_stmt(*o)),
    decreases o,
{
    match o {
        Some(x) => {
            push_stmt(x, out);
        },
        None => {
            assert(occs(out@) + Seq::<Atom>::empty() =~= occs(out@));
        },
    }
}

pub fn push_opt_stmts(o: &Option<Vec<Statement>>, out: &mut Vec<Occurrence>)
    ensures
        occs(final(out)@) == occs(old(out)@) + opt_stmts_atoms(model::opt_stmts(*o)),
    decreases o,
{
    match o {
        Some(x) => {
            push_stmts(x, out);
        },
        None => {
            assert(occs(out@) + Seq::<Atom>::empty() =~= occs(out@));
        },
    }
}

pub fn push_cases(v: &Vec<(Expression, Vec<Statement>)>, out: &mut Vec<Occurrence>)
    ensures
        occs(final(out)@) == occs(old(out)@) + cases_atoms(model::case_arms(v@)),
    decreases v,
{
    let ghost all = model::case_arms(v@);
    let ghost before = occs(out@);
    let mut i: usize = 0;
    assert(before + Seq::<Atom>::empty() =~= before);
    while i < v.len()
        invariant
            i <= v.len(),
            all == model::case_arms(v@),
            occs(out@) == before + cases_atoms(all.take(i as int)),
        decreases v.len() - i,
    {
        assert(all.take(i + 1).drop_last() =~= all.take(i as int));
        let ghost done = cases_atoms(all.take(i as int));
        push_expr(&v[i].0, out);
        push_stmts(&v[i].1, out);
        proof {
            lemma_add_assoc(before, done, expr_atoms(all[i as int].0));
            lemma_add_assoc(before, done + expr_atoms(all[i as int].0), stmts_atoms(all[i as int].1));
        }
        i += 1;
    }
    assert(all.take(all.len() as int) =~= all);
}

pub fn push_methods(v: &Vec<ClassMethod>, out: &mut Vec<Occurrence>)
    ensures
        occs(final(out)@) == occs(old(out)@) + methods_atoms(model::class_methods(v@)),
    decreases v,
{
    let ghost all = model::class_methods(v@);
    let ghost before = occs(out@);
    let mut i: usize = 0;
    assert(before + Seq::<Atom>::empty() =~= before);
    while i < v.len()
        invariant
            i <= v.len(),
            all == model::class_methods(v@),
            occs(out@) == before + methods_atoms(all.take(i as int)),
        decreases v.len() - i,
    {
        assert(all.take(i + 1).drop_last() =~= all.take(i as int));
        let ghost done = methods_atoms(all.take(i as int));
        put(out, Occurrence::Name(v[i].name.clone()));
        put(out, Occurrence::Function(v[i].function));
        proof {
            lemma_add_assoc(before, done, seq![Atom::Name(all[i as int].name)]);
            lemma_add_assoc(before, done + seq![Atom::Name(all[i as int].name)], seq![Atom::Function(all[i as int].function)]);
        }
        i += 1;
    }
    assert(all.take(all.len() as int) =~= all);
}

pub fn push_names(v: &Vec<String>, out: &mut Vec<Occurrence>)
    ensures
        occs(final(out)@) == occs(old(out)@) + names_atoms(model::texts(v@)),
    decreases v,
{
    let ghost all = model::texts(v@);
    let ghost before = occs(out@);
    let mut i: usize = 0;
    assert(before + Seq::<Atom>::empty() =~= before);
    while i < v.len()
        invariant
            i <= v.len(),
            all == model::texts(v@),
            occs(out@) == before + names_atoms(all.take(i as int)),
        decreases v.len() - i,
    {
        assert(all.take(i + 1).drop_last() =~= all.take(i as int));
        let ghost done = names_atoms(all.take(i as int));
        put(out, Occurrence::Name(v[i].clone()));
        proof {
            lemma_add_assoc(before, done, seq![Atom::Name(all[i as int])]);
        }
        i += 1;
    }
    assert(all.take(all.len() as int) =~= all);
}

pub fn push_opt_name(o: &Option<String>, out: &mut Vec<Occurrence>)
    ensures
        occs(final(out)@) == occs(old(out)@) + opt_name_atoms(model::opt_text(*o)),
    decreases o,
{
    match o {
        Some(x) => {
            put(out, Occurrence::Name(x.clone()));
        },
        None => {
            assert(occs(out@) + Seq::<Atom>::empty() =~= occs(out@));
        },
    }
}

pub fn push_opt_param(o: &Option<String>, out: &mut Vec<Occurrence>)
    ensures
        occs(final(out)@) == occs(old(out)@) + opt_param_atoms(model::opt_text(*o)),
    decreases o,
{
    match o {
        Some(x) => {
            put(out, Occurrence::CatchParam(x.clone()));
        },
        None => {
            assert(occs(out@) + Seq::<Atom>::empty() =~= occs(out@));
        },
    }
}

pub fn push_opt_id(o: &Option<FunctionId>, out: &mut Vec<Occurrence>)
    ensures
        occs(final(out)@) == occs(old(out)@) + opt_id_atoms(*o),
    decreases o,
{
    match o {
        Some(x) => {
            put(out, Occurrence::Function(*x));
        },
        None => {
            assert(occs(out@) + Seq::<Atom>::empty() =~= occs(out@));
        },
    }
}

/// How often an occurrence stands in a sequence.
pub open spec fn count(s: Seq<Atom>, a: Atom) -> nat
    decreases s.len(),
{
    if s.len() == 0 {
        0
    } else if s.last() == a {
        count(s.drop_last(), a) + 1
    } else {
        count(s.drop_last(), a)
    }
}

/// A count is at most the length, and positive exactly when the occurrence is there.
pub proof fn lemma_count(s: Seq<Atom>, a: Atom)
    ensures
        count(s, a) <= s.len(),
        count(s, a) > 0 <==> s.contains(a),
    decreases s.len(),
{
    if s.len() > 0 {
        lemma_count(s.drop_last(), a);
        if s.contains(a) {
            let k = choose|k: int| 0 <= k < s.len() && s[k] == a;
            if k < s.len() - 1 {
                assert(s.drop_last()[k] == a);
            }
        }
        if s.drop_last().contains(a) {
            let k = choose|k: int| 0 <= k < s.drop_last().len() && s.drop_last()[k] == a;
            assert(s[k] == a);
        }
        if s.last() == a {
            assert(s[s.len() - 1] == a);
        }
    }
}

/// Counts add up over a concatenation.
pub proof fn lemma_count_add(s: Seq<Atom>, t: Seq<Atom>, a: Atom)
    ensures
        count(s + t, a) == count(s, a) + count(t, a),
    decreases t.len(),
{
    if t.len() == 0 {
        assert(s + t =~= s);
    } else {
        lemma_count_add(s, t.drop_last(), a);
        assert((s + t).drop_last() =~= s + t.drop_last());
    }
}

impl Occurrence {
    pub fn same(&self, other: &Occurrence) -> (r: bool)
        ensures
            r == (self@ == other@),
    {
        match (self, other) {
            (Occurrence::Use(a), Occurrence::Use(b)) => a.same(b),
            (Occurrence::WriteRegister(a), Occurrence::WriteRegister(b)) => *a == *b,
            (Occurrence::WriteVariable(a), Occurrence::WriteVariable(b)) => *a == *b,
            (Occurrence::Declare(a), Occurrence::Declare(b)) => *a == *b,
            (Occurrence::LoopVar(a), Occurrence::LoopVar(b)) => *a == *b,
            (Occurrence::CatchParam(a), Occurrence::CatchParam(b)) => *a == *b,
            (Occurrence::Function(a), Occurrence::Function(b)) => *a == *b,
            (Occurrence::Yield, Occurrence::Yield) => true,
            (Occurrence::Name(a), Occurrence::Name(b)) => *a == *b,
            _ => false,
        }
    }
}

pub fn count_of(v: &Vec<Occurrence>, o: &Occurrence) -> (r: usize)
    ensures
        r == count(occs(v@), o@),
{
    let ghost all = occs(v@);
    let mut n: usize = 0;
    let mut i: usize = 0;
    while i < v.len()
        invariant
            i <= v.len(),
            all == occs(v@),
            n <= i,
            n == count(all.take(i as int), o@),
        decreases v.len() - i,
    {
        assert(all.take(i + 1).drop_last() =~= all.take(i as int));
        if v[i].same(o) {
            n += 1;
        }
        i += 1;
    }
    assert(all.take(all.len() as int) =~= all);
    n
}

pub fn has(v: &Vec<Occurrence>, o: &Occurrence) -> (r: bool)
    ensures
        r == occs(v@).contains(o@),
{
    proof {
        lemma_count(occs(v@), o@);
    }
    count_of(v, o) > 0
}

/// The occurrences in an expression.
pub fn of_expr(e: &Expression) -> (r: Vec<Occurrence>)
    ensures
        occs(r@) == expr_atoms(e@),
{
    let mut out: Vec<Occurrence> = Vec::new();
    push_expr(e, &mut out);
    assert(occs(out@) =~= expr_atoms(e@));
    out
}

/// The occurrences in an assignment target.
pub fn of_target(t: &AssignTarget) -> (r: Vec<Occurrence>)
    ensures
        occs(r@) == target_atoms(t@),
{
    let mut out: Vec<Occurrence> = Vec::new();
    push_target(t, &mut out);
    assert(occs(out@) =~= target_atoms(t@));
    out
}

/// The occurrences in a statement.
pub fn of_stmt(s: &Statement) -> (r: Vec<Occurrence>)
    ensures
        occs(r@) == stmt_atoms(s@),
{
    let mut out: Vec<Occurrence> = Vec::new();
    push_stmt(s, &mut out);
    assert(occs(out@) =~= stmt_atoms(s@));
    out
}

/// The occurrences in a list of statements.
pub fn of_stmts(v: &Vec<Statement>) -> (r: Vec<Occurrence>)
    ensures
        occs(r@) == stmts_atoms(model::stmts(v@)),
{
    let mut out: Vec<Occurrence> = Vec::new();
    push_stmts(v, &mut out);
    assert(occs(out@) =~= stmts_atoms(model::stmts(v@)));
    out
}

} // verus!
