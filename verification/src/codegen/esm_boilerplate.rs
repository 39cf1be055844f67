//! Module loads and interop boilerplate, recognised in expressions and statements.

use super::expr_gen;
use super::expr_gen::is_global_object;
use super::{resolve, Codegen, Gen};
use crate::ir::model;
use crate::ir::model::{Const, Expr, Key, Stmt, Val};
use crate::ir::occurs;
use crate::ir::occurs::{Atom, Occurrence};
use crate::ir::{Constant, Expression, PropertyKey, Statement, Value};
use crate::metro;
use crate::names;
use crate::text;
use vstd::prelude::*;

verus! {

/// The module that a `require(N)` or `arg1(dependencyMap[N])` call loads, with its absolute id.
/// In an ES module any callee may be the loader; elsewhere its name has to be the loader's.
pub open spec fn loaded(g: Gen, e: Expr) -> Option<(Seq<char>, u32)> {
    match e {
        Expr::Call { callee, arguments } => if g.esm || metro::require_name(
            expr_gen::expr_text(g, *callee),
        ) {
            resolve::required(g, arguments)
        } else {
            None
        },
        _ => None,
    }
}

pub open spec fn loaded_name(g: Gen, e: Expr) -> Option<Seq<char>> {
    match loaded(g, e) {
        Some(p) => Some(p.0),
        None => None,
    }
}

/// The first argument that is a module load, behind the `undefined` receiver.
pub open spec fn wrapped_load(g: Gen, e: Expr) -> Option<(Seq<char>, u32)> {
    match e {
        Expr::Call { arguments, .. } => first_load(g, resolve::effective(arguments)),
        _ => None,
    }
}

pub open spec fn first_load(g: Gen, args: Seq<Expr>) -> Option<(Seq<char>, u32)>
    decreases args.len(),
{
    if args.len() == 0 {
        None
    } else if first_load(g, args.drop_last()) is Some {
        first_load(g, args.drop_last())
    } else {
        loaded(g, args.last())
    }
}

/// Whether an expression only marks the module as an ES module.
pub open spec fn esmodule_mark(g: Gen, e: Expr) -> bool {
    match e {
        Expr::Call { callee, arguments } => {
            &&& text::has_part(expr_gen::expr_text(g, *callee), "defineProperty"@)
            &&& arguments.len() >= 2
            &&& arguments[1] == Expr::Value(Val::Constant(Const::String("__esModule"@)))
        },
        Expr::Member { property: Key::Ident(p), .. } => p == "__esModule"@,
        Expr::Value(Val::Variable(n)) => n == "Object2"@ || n == "globalThisObject"@,
        _ => false,
    }
}

pub open spec fn esmodule_mark_stmt(g: Gen, s: Stmt) -> bool {
    match s {
        Stmt::Expr(e) => esmodule_mark(g, e),
        Stmt::Assign { value, .. } => esmodule_mark(g, value),
        _ => false,
    }
}

/// The text of an occurrence.
pub open spec fn atom_text(a: Atom) -> Seq<char> {
    match a {
        Atom::Use(Val::Variable(n)) => n,
        Atom::Use(Val::Constant(Const::String(s))) => s,
        Atom::Use(Val::Constant(Const::BigInt(s))) => s,
        Atom::WriteVariable(n) => n,
        Atom::Declare(n) => n,
        Atom::LoopVar(n) => n,
        Atom::CatchParam(n) => n,
        Atom::Name(n) => n,
        _ => Seq::empty(),
    }
}

/// Whether some text in the program part mentions the ES module mark.
pub open spec fn mentions_esmodule(s: Seq<Atom>) -> bool {
    exists|i: int| 0 <= i < s.len() && text::has_part(atom_text(#[trigger] s[i]), "esModule"@)
}

/// Whether some text in the program part is `default`, alone or behind a double quote.
pub open spec fn mentions_default(s: Seq<Atom>) -> bool {
    exists|i: int|
        0 <= i < s.len() && (atom_text(#[trigger] s[i]) == "default"@ || text::has_suffix(
            atom_text(s[i]),
            "\"default"@,
        ))
}

/// Whether a statement is the check that Babel writes to unwrap a default export: an `if` that
/// mentions the ES module mark, or a short one that mentions `default`.
pub open spec fn interop_check(s: Stmt) -> bool {
    match s {
        Stmt::If { then_body, else_body, .. } => {
            ||| mentions_esmodule(occurs::stmt_atoms(s))
            ||| then_body.len() <= 4 && else_body.len() <= 4 && mentions_default(
                occurs::stmt_atoms(s),
            )
        },
        _ => false,
    }
}

pub open spec fn lower(c: char) -> char {
    if 'A' <= c <= 'Z' {
        (c as int + 32) as char
    } else {
        c
    }
}

pub open spec fn lowered(s: Seq<char>) -> Seq<char> {
    s.map_values(|c: char| lower(c))
}

/// Whether an expression defines an interop wrapper function.
pub open spec fn interop_wrapper(e: Expr) -> bool {
    match e {
        Expr::Function { name: Some(n), .. } => text::has_part(lowered(n), "interop"@),
        _ => false,
    }
}

/// A name with only digits behind the given prefix.
pub open spec fn digits_behind(name: Seq<char>, prefix: Seq<char>) -> bool {
    match text::after_prefix(name, prefix) {
        Some(rest) => text::all_digits(rest),
        None => false,
    }
}

/// A chain of member accesses that starts at a built-in of the global object.
pub open spec fn builtin_chain(e: Expr) -> bool
    decreases e,
{
    match e {
        Expr::Member { object, property: Key::Ident(n), .. } => {
            ||| expr_gen::global_object(*object) && names::builtin_global(n)
            ||| builtin_chain(*object)
        },
        _ => false,
    }
}

pub open spec fn global_alias_name(name: Seq<char>) -> bool {
    name == "window"@ || name == "self"@ || name == "global"@ || name == "globalThis"@ || name
        == "globalObject"@
}

/// Whether a definition only names a global: `const Object = globalThis.Object`, a member of a
/// built-in under its own name, or one of the usual names of the global object itself.
pub open spec fn global_alias(name: Seq<char>, value: Expr) -> bool {
    match value {
        Expr::Member { object, property: Key::Ident(p), .. } => (expr_gen::global_object(*object)
            || builtin_chain(*object)) && digits_behind(name, p),
        _ => global_alias_name(name) && expr_gen::global_object(value),
    }
}

fn text_of(o: &Occurrence) -> (r: String)
    ensures
        r@ == atom_text(o@),
{
    match o {
        Occurrence::Use(Value::Variable(n)) => n.clone(),
        Occurrence::Use(Value::Constant(Constant::String(s))) => s.clone(),
        Occurrence::Use(Value::Constant(Constant::BigInt(s))) => s.clone(),
        Occurrence::WriteVariable(n) => n.clone(),
        Occurrence::Declare(n) => n.clone(),
        Occurrence::LoopVar(n) => n.clone(),
        Occurrence::CatchParam(n) => n.clone(),
        Occurrence::Name(n) => n.clone(),
        _ => String::new(),
    }
}

fn any_esmodule(v: &Vec<Occurrence>) -> (r: bool)
    ensures
        r == mentions_esmodule(occurs::occs(v@)),
{
    let ghost all = occurs::occs(v@);
    let mut i: usize = 0;
    while i < v.len()
        invariant
            i <= v.len(),
            all == occurs::occs(v@),
            forall|k: int|
                0 <= k < i ==> !text::has_part(atom_text(#[trigger] all[k]), "esModule"@),
        decreases v.len() - i,
    {
        assert(all[i as int] == v@[i as int]@);
        if text::contains(&text_of(&v[i]), "esModule") {
            return true;
        }
        i += 1;
    }
    false
}

fn any_default(v: &Vec<Occurrence>) -> (r: bool)
    ensures
        r == mentions_default(occurs::occs(v@)),
{
    let ghost all = occurs::occs(v@);
    let mut i: usize = 0;
    while i < v.len()
        invariant
            i <= v.len(),
            all == occurs::occs(v@),
            forall|k: int|
                0 <= k < i ==> !(atom_text(#[trigger] all[k]) == "default"@ || text::has_suffix(
                    atom_text(all[k]),
                    "\"default"@,
                )),
        decreases v.len() - i,
    {
        assert(all[i as int] == v@[i as int]@);
        let t = text_of(&v[i]);
        if text::same(&t, "default") || text::ends_with(&t, "\"default") {
            return true;
        }
        i += 1;
    }
    false
}

/// Whether a statement is Babel's check for a default export.
pub fn is_interop_default_check(s: &Statement) -> (r: bool)
    ensures
        r == interop_check(s@),
{
    if let Statement::If { then_body, else_body, .. } = s {
        assert(model::stmts(then_body@).len() == then_body@.len());
        assert(model::stmts(else_body@).len() == else_body@.len());
        let all = occurs::of_stmt(s);
        any_esmodule(&all) || (then_body.len() <= 4 && else_body.len() <= 4 && any_default(&all))
    } else {
        false
    }
}

fn to_lower(s: &str) -> (r: String)
    ensures
        r@ == lowered(s@),
{
    let v = text::chars_of(s);
    let mut out = String::new();
    let mut i: usize = 0;
    while i < v.len()
        invariant
            v@ == s@,
            i <= v.len(),
            out@ == lowered(s@.take(i as int)),
        decreases v.len() - i,
    {
        let c: char = v[i];
        let d: char = if 'A' <= c && c <= 'Z' {
            (c as u32 as u8 + 32) as char
        } else {
            c
        };
        out.push(d);
        assert(lowered(s@.take(i + 1)) =~= lowered(s@.take(i as int)).push(d));
        i += 1;
    }
    assert(s@.take(s@.len() as int) =~= s@);
    out
}

/// Whether an expression defines an interop wrapper function.
pub fn is_interop_wrapper_def(e: &Expression) -> (r: bool)
    ensures
        r == interop_wrapper(e@),
{
    match e {
        Expression::Function { name: Some(n), .. } => text::contains(&to_lower(n), "interop"),
        _ => false,
    }
}

fn is_digits_behind(name: &str, prefix: &str) -> (r: bool)
    ensures
        r == digits_behind(name@, prefix@),
{
    match text::strip_prefix(name, prefix) {
        Some(rest) => text::is_all_digits(&rest),
        None => false,
    }
}

/// Whether an expression is a chain of member accesses on a built-in of the global object.
pub fn is_global_builtin_chain(e: &Expression) -> (r: bool)
    ensures
        r == builtin_chain(e@),
    decreases e,
{
    proof {
        reveal_with_fuel(Expression::view, 2);
        reveal_with_fuel(PropertyKey::view, 2);
    }
    match e {
        Expression::Member { object, property: PropertyKey::Ident(n), .. } => (is_global_object(
            object,
        ) && names::is_builtin_global(n)) || is_global_builtin_chain(object),
        _ => false,
    }
}

/// Whether a definition only gives a global another name.
pub fn is_global_alias_def(name: &str, value: &Expression) -> (r: bool)
    ensures
        r == global_alias(name@, value@),
{
    proof {
        reveal_with_fuel(Expression::view, 2);
        reveal_with_fuel(PropertyKey::view, 2);
    }
    match value {
        Expression::Member { object, property: PropertyKey::Ident(p), .. } => (is_global_object(
            object,
        ) || is_global_builtin_chain(object)) && is_digits_behind(name, p),
        _ => (text::same(name, "window") || text::same(name, "self") || text::same(name, "global")
            || text::same(name, "globalThis") || text::same(name, "globalObject"))
            && is_global_object(value),
    }
}

impl Codegen {
    /// The module that a call loads, with its absolute id.
    pub fn resolve_require_module_id(&self, e: &Expression) -> (r: Option<(String, u32)>)
        ensures
            match r {
                Some(p) => loaded(self@, e@) == Some((p.0@, p.1)),
                None => loaded(self@, e@) is None,
            },
    {
        match e {
            Expression::Call { callee, arguments } => if self.esm_mode || metro::is_require_name(
                &self.generate_expr(callee),
            ) {
                self.required_module(arguments)
            } else {
                None
            },
            _ => None,
        }
    }

    /// The name of the module that a call loads.
    pub fn resolve_require_module(&self, e: &Expression) -> (r: Option<String>)
        ensures
            text::opt(r) == loaded_name(self@, e@),
    {
        match self.resolve_require_module_id(e) {
            Some(p) => Some(p.0),
            None => None,
        }
    }

    /// The module loaded by the first argument of a call that is a module load.
    pub fn resolve_wrapped_module(&self, e: &Expression) -> (r: Option<(String, u32)>)
        ensures
            match r {
                Some(p) => wrapped_load(self@, e@) == Some((p.0@, p.1)),
                None => wrapped_load(self@, e@) is None,
            },
    {
        if let Expression::Call { arguments, .. } = e {
            let from: usize = resolve::first_effective(arguments);
            let ghost args = resolve::effective(model::exprs(arguments@));
            let mut i: usize = from;
            assert(args.take(0) =~= Seq::empty());
            #[verifier::loop_isolation(false)]
            while i < arguments.len()
                invariant
                    from <= i <= arguments.len(),
                    args == model::exprs(arguments@).subrange(from as int, arguments@.len() as int),
                    first_load(self@, args.take(i - from)) is None,
                decreases arguments.len() - i,
            {
                assert(args.take(i - from + 1).drop_last() =~= args.take(i - from));
                assert(args.take(i - from + 1).last() == arguments@[i as int]@);
                if let Some(p) = self.resolve_require_module_id(&arguments[i]) {
                    proof {
                        lemma_first_load_stays(self@, args, i - from + 1);
                    }
                    return Some(p);
                }
                i += 1;
            }
            assert(args.take(args.len() as int) =~= args);
            None
        } else {
            None
        }
    }

    /// Whether an expression only marks the module as an ES module.
    pub fn is_esmodule_boilerplate_expr(&self, e: &Expression) -> (r: bool)
        ensures
            r == esmodule_mark(self@, e@),
    {
        proof {
            reveal_with_fuel(Expression::view, 2);
            reveal_with_fuel(PropertyKey::view, 2);
        }
        match e {
            Expression::Call { callee, arguments } => {
                let callee_text = self.generate_expr(callee);
                if text::contains(&callee_text, "defineProperty") && arguments.len() >= 2 {
                    assert(model::exprs(arguments@)[1] == arguments@[1]@);
                    match &arguments[1] {
                        Expression::Value(Value::Constant(Constant::String(s))) => text::same(
                            s,
                            "__esModule",
                        ),
                        _ => false,
                    }
                } else {
                    false
                }
            },
            Expression::Member { property: PropertyKey::Ident(p), .. } => text::same(
                p,
                "__esModule",
            ),
            Expression::Value(Value::Variable(n)) => text::same(n, "Object2") || text::same(
                n,
                "globalThisObject",
            ),
            _ => false,
        }
    }

    /// Whether a statement only marks the module as an ES module.
    pub fn is_esmodule_boilerplate_stmt(&self, s: &Statement) -> (r: bool)
        ensures
            r == esmodule_mark_stmt(self@, s@),
    {
        match s {
            Statement::Expr(e) => self.is_esmodule_boilerplate_expr(e),
            Statement::Assign { value, .. } => self.is_esmodule_boilerplate_expr(value),
            _ => false,
        }
    }
}

/// Once a module load is found among the first arguments, later ones do not change it.
proof fn lemma_first_load_stays(g: Gen, args: Seq<Expr>, n: int)
    requires
        0 <= n <= args.len(),
        first_load(g, args.take(n)) is Some,
    ensures
        first_load(g, args) == first_load(g, args.take(n)),
    decreases args.len(),
{
    if n == args.len() {
        assert(args.take(n) =~= args);
    } else {
        assert(args.drop_last().take(n) =~= args.take(n));
        lemma_first_load_stays(g, args.drop_last(), n);
    }
}

} // verus!
