//! What an ES module keeps of the statements that it is written from.

use super::esm_boilerplate;
use super::esm_classify;
use super::esm_classify::Class;
use super::esm_descriptors;
use super::esm_gen;
use super::esm_gen::{Facts, Parts};
use super::esm_imports;
use super::esm_lines;
use super::esm_names;
use super::esm_patterns;
use super::esm_promote;
use super::expr_gen;
use super::stmt_gen;
use super::Gen;
use crate::ir::bindings;
use crate::ir::model::{Const, Expr, Key, Stmt, Target, Val};
use crate::ir::renaming;
use crate::names;
use crate::text;
use crate::text::lemma_find_from;
use vstd::prelude::*;

verus! {

pub open spec fn undefined() -> Expr {
    Expr::Value(Val::Constant(Const::Undefined))
}

/// The object that a module hands out, under the names that its factory gives it.
pub open spec fn is_exports(s: Seq<char>) -> bool {
    s == "exports"@ || s == "arg3"@ || s == "p3"@
}

/// The module object, under the names that its factory gives it.
pub open spec fn is_module(s: Seq<char>) -> bool {
    s == "module"@ || s == "arg2"@ || s == "p2"@
}

/// Whether an expression loads no module, by itself, as the object of a member access or as a
/// callee.
pub open spec fn loads_nothing(g: Gen, value: Expr) -> bool {
    &&& esm_boilerplate::loaded_name(g, value) is None
    &&& value matches Expr::Member { object, .. } ==> esm_boilerplate::loaded_name(g, *object)
        is None
    &&& value matches Expr::Call { callee, .. } ==> esm_boilerplate::loaded_name(g, *callee) is None
}

/// Whether an expression is a function whose name says that it unwraps modules.
pub open spec fn unwraps_modules(e: Expr) -> bool {
    e matches Expr::Function { name: Some(n), .. } && text::has_part(
        n.map_values(
            |c: char|
                if 'A' <= c <= 'Z' {
                    (c as int + 32) as char
                } else {
                    c
                },
        ),
        "interop"@,
    )
}

/// Whether an expression is the global object, or reached from it by plain member accesses.
pub open spec fn reached_from_global(e: Expr) -> bool
    decreases e,
{
    match e {
        Expr::Value(Val::Global) => true,
        Expr::Value(Val::Variable(n)) => n == "globalThis"@,
        Expr::Member { object, property: Key::Ident(_), .. } => reached_from_global(*object),
        _ => false,
    }
}

/// Whether an expression only has to do with the mark of an ES module.
pub open spec fn is_mark(g: Gen, e: Expr) -> bool {
    match e {
        Expr::Call { callee, arguments } => text::has_part(
            expr_gen::expr_text(g, *callee),
            "defineProperty"@,
        ) && arguments.len() >= 2 && arguments[1] == Expr::Value(
            Val::Constant(Const::String("__esModule"@)),
        ),
        Expr::Member { property: Key::Ident(p), .. } => p == "__esModule"@,
        Expr::Value(Val::Variable(n)) => n == "Object2"@ || n == "globalThisObject"@,
        _ => false,
    }
}

/// What an ES module has no use for: a return of nothing, the definition of a function that
/// unwraps modules, a name for something global, the mark of an ES module, the export of nothing,
/// and the exports as their own default.
pub open spec fn useless(g: Gen, s: Stmt) -> bool {
    match s {
        Stmt::Return(None) => true,
        Stmt::Return(Some(e)) => e == undefined(),
        Stmt::Let { value, .. } => unwraps_modules(value) || reached_from_global(value) || is_mark(
            g,
            value,
        ),
        Stmt::Assign { target, value } => {
            ||| unwraps_modules(value)
            ||| is_mark(g, value)
            ||| match target {
                Target::Member { object, property } => {
                    let o = expr_gen::expr_text(g, object);
                    ||| is_exports(o) && (value == undefined() || property == "__esModule"@)
                    ||| text::has_suffix(o, ".exports"@) && property == "__esModule"@
                    ||| text::has_suffix(o, ".exports"@) && property == "default"@ && (
                    text::has_suffix(expr_gen::expr_text(g, value), ".exports"@)
                        || expr_gen::expr_text(g, value) == "module.exports"@)
                },
                _ => false,
            }
        },
        Stmt::Expr(e) => is_mark(g, e),
        _ => false,
    }
}

proof fn lemma_chain_is_reached(e: Expr)
    ensures
        esm_boilerplate::builtin_chain(e) ==> reached_from_global(e),
    decreases e,
{
    reveal_with_fuel(reached_from_global, 2);
    if let Expr::Member { object, property: Key::Ident(_), .. } = e {
        lemma_chain_is_reached(*object);
    }
}

/// A statement is left out of a module only where the module has no use for it.
pub proof fn lemma_only_the_useless_is_left_out(
    g: Gen,
    s: Stmt,
    vars: Map<Seq<char>, esm_descriptors::Desc>,
    rebound: Set<Seq<char>>,
)
    ensures
        esm_classify::classified_with(g, s, vars, rebound) is Skip ==> useless(g, s),
{
    match s {
        Stmt::Let { name, value, .. } => {
            lemma_wrapper_unwraps(value);
            reveal_with_fuel(reached_from_global, 2);
            if let Expr::Member { object, property: Key::Ident(_), .. } = value {
                lemma_chain_is_reached(*object);
            }
        },
        Stmt::Assign { target, value } => {
            lemma_wrapper_unwraps(value);
            lemma_default_export_is_written(g, value);
        },
        _ => {},
    }
}

proof fn lemma_wrapper_unwraps(e: Expr)
    ensures
        esm_boilerplate::interop_wrapper(e) == unwraps_modules(e),
{
    if let Expr::Function { name: Some(n), .. } = e {
        let lower = n.map_values(
            |c: char|
                if 'A' <= c <= 'Z' {
                    (c as int + 32) as char
                } else {
                    c
                },
        );
        assert(esm_boilerplate::lowered(n) =~= lower);
    }
}

proof fn lemma_default_export_is_written(g: Gen, value: Expr)
    ensures
        !(esm_classify::default_export(g, value) is Skip),
        !(esm_classify::default_export(g, value) is Body),
{
}

/// The assignment of a value to a property of an object.
pub open spec fn assignment(object: Expr, property: Seq<char>, value: Expr) -> Stmt {
    Stmt::Assign { target: Target::Member { object, property }, value }
}

/// An assignment to `module.exports`, or to the default of the exports, exports the value as the
/// default, where it loads no module.
pub proof fn lemma_default_value_is_exported(
    g: Gen,
    object: Expr,
    property: Seq<char>,
    value: Expr,
    rebound: Set<Seq<char>>,
)
    requires
        ({
            let o = expr_gen::expr_text(g, object);
            ||| is_module(o) && property == "exports"@
            ||| is_exports(o) && property == "default"@ && value != undefined()
        }),
        loads_nothing(g, value),
        !unwraps_modules(value),
    ensures
        esm_classify::classified(g, assignment(object, property, value), rebound)
            == Class::Export("export default "@ + expr_gen::expr_text(g, value) + ";"@),
{
    lemma_wrapper_unwraps(value);
    reveal_strlit("exports");
    reveal_strlit("default");
    reveal_strlit("__esModule");
    reveal_strlit("arg2");
    reveal_strlit("arg3");
    reveal_strlit("p2");
    reveal_strlit("p3");
    reveal_strlit("module");
    assert("default"@[0] == 'd' && "__esModule"@[0] == '_' && "exports"@[0] == 'e');
    assert("module"@[0] == 'm' && "arg2"@[3] == '2' && "arg3"@[3] == '3');
    assert("p2"@[1] == '2' && "p3"@[1] == '3' && "p2"@[0] == 'p' && "arg2"@[0] == 'a');
}

/// A module that is handed on as the default is exported from where it comes.
pub proof fn lemma_default_module_is_reexported(
    g: Gen,
    object: Expr,
    property: Seq<char>,
    value: Expr,
    rebound: Set<Seq<char>>,
)
    requires
        ({
            let o = expr_gen::expr_text(g, object);
            ||| is_module(o) && property == "exports"@
            ||| is_exports(o) && property == "default"@
        }),
        esm_boilerplate::loaded_name(g, value) is Some || (value matches Expr::Member {
            object: from,
            ..
        } && esm_boilerplate::loaded_name(g, *from) is Some),
    ensures
        ({
            let c = esm_classify::classified(g, assignment(object, property, value), rebound);
            match esm_boilerplate::loaded_name(g, value) {
                Some(m) => c == Class::Export("export { default } from \""@ + m + "\";"@),
                None => value matches Expr::Member { object: from, property: key, .. } && c
                    == Class::Export(
                    "export { "@ + esm_patterns::key_name(g, key) + " as default } from \""@
                        + esm_boilerplate::loaded_name(g, *from)->0 + "\";"@,
                ),
            }
        }),
{
    reveal_strlit("exports");
    reveal_strlit("default");
    reveal_strlit("__esModule");
    reveal_strlit("arg2");
    reveal_strlit("arg3");
    reveal_strlit("p2");
    reveal_strlit("p3");
    reveal_strlit("module");
    assert("default"@[0] == 'd' && "__esModule"@[0] == '_' && "exports"@[0] == 'e');
    assert("module"@[0] == 'm' && "arg2"@[3] == '2' && "arg3"@[3] == '3');
    assert("p2"@[1] == '2' && "p3"@[1] == '3' && "p2"@[0] == 'p' && "arg2"@[0] == 'a');
}

/// Whether a line exports a value, given as text, under a name.
pub open spec fn exports_as(line: Seq<char>, name: Seq<char>, value: Seq<char>) -> bool {
    ||| line == "export const "@ + name + " = "@ + value + ";"@
    ||| value == name && line == "export { "@ + name + " };"@
}

/// An assignment to a property of the exports exports the value under the name of the property. A
/// function of that name is exported as it is declared.
pub proof fn lemma_named_value_is_exported(
    g: Gen,
    object: Expr,
    property: Seq<char>,
    value: Expr,
    rebound: Set<Seq<char>>,
)
    requires
        is_exports(expr_gen::expr_text(g, object)),
        property != "default"@ && property != "exports"@ && property != "__esModule"@,
        value != undefined(),
        !unwraps_modules(value),
    ensures
        ({
            let text = expr_gen::expr_text(g, value);
            esm_classify::classified(g, assignment(object, property, value), rebound) matches
                Class::Export(line) && (exports_as(line, property, text) || line == "export "@
                + text && (value matches Expr::Function { name, is_arrow: false, .. } && name
                == Some(property)))
        }),
{
    lemma_wrapper_unwraps(value);
}

/// The definition of a name by a module load imports the module under that name.
pub proof fn lemma_loaded_module_is_imported(
    g: Gen,
    s: Stmt,
    rebound: Set<Seq<char>>,
)
    requires
        bindings::binding(s) matches Some(d) && !rebound.contains(d.0) && names::sanitized(
            d.0,
        ).len() > 0 && esm_boilerplate::loaded(g, d.1) is Some,
    ensures
        ({
            let d = bindings::binding(s)->0;
            let m = esm_boilerplate::loaded(g, d.1)->0;
            esm_classify::classified(g, s, rebound) == Class::Import(
                "import "@ + names::sanitized(d.0) + " from \""@ + m.0 + "\""@ + (" /* "@
                    + text::decimal(m.1 as nat) + " */"@) + ";"@,
            )
        }),
{
}

/// The definition of a name by a property of a loaded module imports that property under the name.
pub proof fn lemma_loaded_property_is_imported(
    g: Gen,
    s: Stmt,
    property: Seq<char>,
    rebound: Set<Seq<char>>,
)
    requires
        bindings::binding(s) matches Some(d) && !rebound.contains(d.0) && names::sanitized(
            d.0,
        ).len() > 0 && (d.1 matches Expr::Member { object, property: Key::Ident(p), .. } && p
            == property && esm_boilerplate::loaded(g, *object) is Some),
        names::valid_identifier(property),
    ensures
        ({
            let d = bindings::binding(s)->0;
            let local = names::sanitized(d.0);
            let m = esm_boilerplate::loaded(g, *d.1->Member_object)->0;
            let spec = if property == local {
                property
            } else {
                property + " as "@ + local
            };
            esm_classify::classified(g, s, rebound) == Class::Import(
                "import { "@ + spec + " } from \""@ + m.0 + "\""@ + (" /* "@ + text::decimal(
                    m.1 as nat,
                ) + " */"@) + ";"@,
            )
        }),
{
}

/// A module that is loaded for nothing but its effects is imported so.
pub proof fn lemma_bare_load_is_imported(g: Gen, e: Expr, rebound: Set<Seq<char>>)
    requires
        esm_boilerplate::loaded_name(g, e) is Some,
        !is_mark(g, e),
    ensures
        esm_classify::classified(g, Stmt::Expr(e), rebound) == Class::Import(
            "import \""@ + esm_boilerplate::loaded_name(g, e)->0 + "\";"@,
        ),
{
}

/// Whether one list of lines starts with another.
pub open spec fn continues(a: Seq<Seq<char>>, b: Seq<Seq<char>>) -> bool {
    a.len() <= b.len() && forall|i: int| 0 <= i < a.len() ==> #[trigger] b[i] == a[i]
}

/// Whether the lines of one module go on from those of another.
pub open spec fn goes_on(p: Parts, q: Parts) -> bool {
    continues(p.imports, q.imports) && continues(p.body, q.body) && continues(p.exports, q.exports)
}

/// How many lines a module has.
pub open spec fn line_count(p: Parts) -> nat {
    p.imports.len() + p.body.len() + p.exports.len()
}

/// Statements only add lines.
pub proof fn lemma_lines_stay(g: Gen, f: Facts, s: Seq<Stmt>, i: int, n: int)
    requires
        i <= n,
    ensures
        goes_on(esm_gen::parts(g, f, s, i), esm_gen::parts(g, f, s, n)),
        line_count(esm_gen::parts(g, f, s, i)) <= line_count(esm_gen::parts(g, f, s, n)),
    decreases n - i,
{
    if i < n {
        lemma_lines_stay(g, f, s, i, n - 1);
    }
}

/// Whether the statement at `i` belongs to the walk by which a module hands on another.
pub open spec fn walks_a_module(f: Facts, s: Seq<Stmt>, i: int) -> bool {
    esm_gen::reexport_at(s, f.modules, i) is Some || esm_gen::reexport_at(s, f.modules, i - 1)
        is Some
}

/// Whether a statement defines one of some names.
pub open spec fn defines(s: Stmt, names: Set<Seq<char>>) -> bool {
    bindings::binding(s) matches Some(d) && names.contains(d.0)
}

/// Every statement adds a line, but for what a module has no use for, the definitions of property
/// descriptors that an export takes, and the imports of modules that are handed on whole.
pub proof fn lemma_every_statement_is_written(g: Gen, f: Facts, s: Seq<Stmt>, i: int)
    requires
        0 <= i < s.len(),
        !useless(g, s[i]),
        !defines(s[i], f.consumed),
        !defines(s[i], f.reexported),
        !walks_a_module(f, s, i),
    ensures
        line_count(esm_gen::parts(g, f, s, i + 1)) > line_count(esm_gen::parts(g, f, s, i)),
        line_count(esm_gen::parts(g, f, s, s.len() as int)) > line_count(
            esm_gen::parts(g, f, s, i),
        ),
{
    lemma_only_the_useless_is_left_out(g, s[i], f.vars, f.rebound);
    lemma_lines_stay(g, f, s, i + 1, s.len() as int);
}

/// A statement that is neither a definition, an assignment to the exports or to the module, nor a
/// module load, is written as it is.
pub proof fn lemma_code_is_written_as_it_is(g: Gen, f: Facts, s: Seq<Stmt>, i: int)
    requires
        0 <= i < s.len(),
        !useless(g, s[i]),
        !walks_a_module(f, s, i),
        match s[i] {
            Stmt::Let { .. } => false,
            Stmt::Expr(e) => !(e is Call),
            Stmt::Assign { target: Target::Variable(_), .. } => false,
            Stmt::Assign { target: Target::Member { object, .. }, .. } => {
                let o = expr_gen::expr_text(g, object);
                !is_exports(o) && !is_module(o) && !text::has_suffix(o, ".exports"@)
            },
            _ => true,
        },
    ensures
        esm_gen::parts(g, f, s, s.len() as int).body.contains(stmt_gen::stmt_text(g, s[i])),
{
    if let Stmt::Assign { value, .. } = s[i] {
        lemma_wrapper_unwraps(value);
    }
    let p = esm_gen::parts(g, f, s, i);
    let q = esm_gen::parts(g, f, s, i + 1);
    let all = esm_gen::parts(g, f, s, s.len() as int);
    lemma_lines_stay(g, f, s, i + 1, s.len() as int);
    assert(q.body == p.body.push(stmt_gen::stmt_text(g, s[i])));
    assert(q.body[p.body.len() as int] == stmt_gen::stmt_text(g, s[i]));
    assert(all.body[p.body.len() as int] == q.body[p.body.len() as int]);
}

proof fn lemma_distinct_holds(lines: Seq<Seq<char>>, x: Seq<char>)
    requires
        lines.contains(x),
    ensures
        esm_lines::distinct(lines).contains(x),
    decreases lines.len(),
{
    if lines.len() > 0 {
        let rest = lines.drop_last();
        let k = choose|k: int| 0 <= k < lines.len() && lines[k] == x;
        let before = esm_lines::distinct(rest);
        if k < rest.len() {
            assert(rest[k] == x);
            lemma_distinct_holds(rest, x);
            let j = choose|j: int| 0 <= j < before.len() && before[j] == x;
            assert(before.push(lines.last())[j] == x);
        } else {
            assert(before.push(x)[before.len() as int] == x);
        }
    }
}

proof fn lemma_kept_holds(body: Seq<Seq<char>>, exports: Seq<Seq<char>>, x: Seq<char>)
    requires
        exports.contains(x),
        esm_promote::constant_export(x) is None,
    ensures
        esm_promote::kept_exports(body, exports).contains(x),
    decreases exports.len(),
{
    if exports.len() > 0 {
        let rest = exports.drop_last();
        let k = choose|k: int| 0 <= k < exports.len() && exports[k] == x;
        let before = esm_promote::kept_exports(body, rest);
        if k < rest.len() {
            assert(rest[k] == x);
            lemma_kept_holds(body, rest, x);
            let j = choose|j: int| 0 <= j < before.len() && before[j] == x;
            assert(before.push(exports.last())[j] == x);
        } else {
            assert(before.push(x)[before.len() as int] == x);
        }
    }
}

proof fn lemma_block_holds(lines: Seq<Seq<char>>, k: int) -> (at: int)
    requires
        0 <= k < lines.len(),
    ensures
        text::occurs_at(esm_gen::line_block(lines), lines[k], at),
    decreases lines.len(),
{
    let rest = lines.drop_last();
    let head = esm_gen::line_block(rest);
    let all = esm_gen::line_block(lines);
    if k == lines.len() - 1 {
        assert(all.subrange(head.len() as int, (head.len() + lines[k].len()) as int) =~= lines[k]);
        head.len() as int
    } else {
        let at = lemma_block_holds(rest, k);
        assert(all.subrange(at, at + lines[k].len()) =~= head.subrange(at, at + lines[k].len()));
        at
    }
}

/// An export of the default stays in the text of a module, where no import is renamed.
pub proof fn lemma_default_export_is_in_the_text(
    g: Gen,
    s: Seq<Stmt>,
    id: u32,
    name: Option<Seq<char>>,
    i: int,
    object: Expr,
    value: Expr,
)
    requires
        esm_descriptors::reexport_module(g, s) is None,
        ({
            let t = renaming::ren_stmts(esm_names::import_renames(g, s), s);
            let f = esm_gen::facts(g, t);
            let p = esm_gen::parts(g, f, t, t.len() as int);
            &&& 0 <= i < t.len()
            &&& t[i] == assignment(object, "exports"@, value)
            &&& !walks_a_module(f, t, i)
            &&& esm_names::closure_renames(p.imports).len() == 0
        }),
        is_module(expr_gen::expr_text(g, object)),
        loads_nothing(g, value),
        !unwraps_modules(value),
    ensures
        text::has_part(
            esm_gen::module_text(g, s, id, name),
            "export default "@ + expr_gen::expr_text(g, value) + ";"@,
        ),
{
    let t = renaming::ren_stmts(esm_names::import_renames(g, s), s);
    let f = esm_gen::facts(g, t);
    let line = "export default "@ + expr_gen::expr_text(g, value) + ";"@;
    lemma_default_value_is_exported(g, object, "exports"@, value, f.rebound);
    let before = esm_gen::parts(g, f, t, i);
    let after = esm_gen::parts(g, f, t, i + 1);
    let p = esm_gen::parts(g, f, t, t.len() as int);
    lemma_lines_stay(g, f, t, i + 1, t.len() as int);
    assert(after.exports == before.exports.push(line));
    assert(after.exports[before.exports.len() as int] == line);
    assert(p.exports[before.exports.len() as int] == line);
    let r = esm_names::closure_renames(p.imports);
    let q = esm_gen::renamed_parts(p);
    assert(q.exports[before.exports.len() as int] == line);
    lemma_distinct_holds(q.exports, line);
    let exports = esm_lines::distinct(q.exports);
    reveal_strlit("export default ");
    reveal_strlit("export const ");
    assert(!text::has_prefix(line, "export const "@)) by {
        let c = "export const "@;
        if text::has_prefix(line, c) {
            assert(line.subrange(0, c.len() as int)[7] == c[7]);
            assert(line[7] == 'd');
        }
    }
    assert(esm_promote::constant_export(line) is None);
    lemma_kept_holds(q.body, exports, line);
    let kept = esm_promote::kept_exports(q.body, exports);
    let k = choose|k: int| 0 <= k < kept.len() && kept[k] == line;
    let z = esm_gen::settled_parts(q);
    let imports = esm_lines::unique_bindings(esm_imports::consolidated(q.imports));
    assert(z.exports[k] == esm_lines::resolved_export(line, esm_lines::bindings(imports)));
    assert(z.exports[k] == line);
    let at = lemma_block_holds(z.exports, k);
    let block = esm_gen::line_block(z.exports);
    let body = esm_gen::assembled(z);
    let all = esm_gen::module_text(g, s, id, name);
    let off = all.len() - block.len();
    assert(all.subrange(off, all.len() as int) =~= block);
    assert(all.subrange(off + at, off + at + line.len()) =~= all.subrange(
        off,
        all.len() as int,
    ).subrange(at, at + line.len()));
    assert(text::occurs_at(all, line, off + at));
    lemma_find_from(all, line, 0);
}

} // verus!
