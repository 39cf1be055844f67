//! Whole ES modules.

use super::esm_boilerplate;
use super::esm_classify;
use super::esm_classify::{Class, EsmClassification};
use super::esm_descriptors;
use super::esm_descriptors::{
    as_evaluated, extract_object_keys_source, is_foreach_on_var, is_object_keys_call,
    Desc, DescriptorInfo,
};
use super::esm_imports;
use super::esm_imports::consolidate_imports;
use super::esm_lines;
use super::esm_lines::{
    dedupe_import_bindings, distinct_lines, resolve_import_declaration_collisions,
};
use super::esm_names;
use super::esm_names::{apply_to_lines, collect_closure_renames};
use super::esm_promote;
use super::esm_promote::{body_calls_require, dedupe_function_export_collisions};
use super::stmt_gen;
use super::{Codegen, Gen};
use crate::dict::{Dict, NameSet};
use crate::inline::declarations::writes;
use crate::inline::declarations::writes::name_written_inside;
use crate::ir::bindings;
use crate::ir::bindings::as_binding;
use crate::ir::model;
use crate::ir::model::{Expr, Stmt};
use crate::ir::occurs;
use crate::ir::occurs::{Atom, Occurrence};
use crate::ir::renaming;
use crate::ir::renaming::rename_stmts;
use crate::ir::visit;
use crate::ir::Statement;
use crate::text;
use vstd::prelude::*;

verus! {

/// The names that occurrences declare or write.
pub open spec fn bound_names(s: Seq<Atom>) -> Seq<Seq<char>>
    decreases s.len(),
{
    if s.len() == 0 {
        Seq::empty()
    } else {
        let before = bound_names(s.drop_last());
        match s.last() {
            Atom::Declare(n) => before.push(n),
            Atom::WriteVariable(n) => before.push(n),
            _ => before,
        }
    }
}

/// The names that assignments inside expressions write.
pub open spec fn names_inside(s: Seq<Expr>) -> Seq<Seq<char>>
    decreases s.len(),
{
    if s.len() == 0 {
        Seq::empty()
    } else {
        match writes::written_inside(s.last()) {
            Some(n) => names_inside(s.drop_last()).push(n),
            None => names_inside(s.drop_last()),
        }
    }
}

/// Whether a name stands at two places of a list.
pub open spec fn twice(s: Seq<Seq<char>>, n: Seq<char>) -> bool {
    exists|i: int, j: int| 0 <= i < j < s.len() && #[trigger] s[i] == n && #[trigger] s[j] == n
}

/// The names that are declared or written more than once, nested bodies and expressions included.
/// An import binding cannot be assigned to, so such a name cannot be one.
pub open spec fn rebound_names(s: Seq<Stmt>) -> Set<Seq<char>> {
    let names = bound_names(occurs::stmts_atoms(s)) + names_inside(visit::stmts_visits(s));
    Set::new(|n: Seq<char>| twice(names, n))
}

/// The descriptors held by variables.
pub open spec fn descriptors(g: Gen, s: Seq<Stmt>) -> Map<Seq<char>, Desc>
    decreases s.len(),
{
    if s.len() == 0 {
        Map::empty()
    } else {
        let before = descriptors(g, s.drop_last());
        match bindings::binding(s.last()) {
            Some(d) => match esm_descriptors::descriptor_of(g, d.1) {
                Some(info) => before.insert(d.0, info),
                None => before,
            },
            None => before,
        }
    }
}

/// The descriptor variables that a property definition on the exports uses.
pub open spec fn consumed(g: Gen, s: Seq<Stmt>, vars: Map<Seq<char>, Desc>) -> Set<Seq<char>>
    decreases s.len(),
{
    if s.len() == 0 {
        Set::empty()
    } else {
        let before = consumed(g, s.drop_last(), vars);
        match s.last() {
            Stmt::Expr(e) => match esm_descriptors::descriptor_var(g, e) {
                Some(n) => if vars.dom().contains(n) {
                    before.insert(n)
                } else {
                    before
                },
                None => before,
            },
            _ => before,
        }
    }
}

/// The module that a definition's value loads: inside a wrapper before directly.
pub open spec fn imported_module(g: Gen, value: Expr) -> Option<Seq<char>> {
    match esm_boilerplate::wrapped_load(g, value) {
        Some(m) => Some(m.0),
        None => esm_boilerplate::loaded_name(g, value),
    }
}

/// The modules that variables hold.
pub open spec fn module_vars(g: Gen, s: Seq<Stmt>) -> Map<Seq<char>, Seq<char>>
    decreases s.len(),
{
    if s.len() == 0 {
        Map::empty()
    } else {
        let before = module_vars(g, s.drop_last());
        match bindings::binding(s.last()) {
            Some(d) => match imported_module(g, d.1) {
                Some(m) => before.insert(d.0, m),
                None => before,
            },
            None => before,
        }
    }
}

/// A re-export at `i`: a definition that lists the keys of a module, with a walk over them next.
/// Gives the variable that holds the module, and the module.
pub open spec fn reexport_at(
    s: Seq<Stmt>,
    modules: Map<Seq<char>, Seq<char>>,
    i: int,
) -> Option<(Seq<char>, Seq<char>)> {
    if 0 <= i && i + 1 < s.len() {
        match bindings::binding(s[i]) {
            Some(d) => {
                let source = match esm_descriptors::keys_source(d.1) {
                    Some(n) => n,
                    None => d.0,
                };
                let walked = match esm_descriptors::evaluated(s[i + 1]) {
                    Some(e) => esm_descriptors::foreach_on(e, d.0),
                    None => false,
                };
                if !esm_descriptors::calls_method(d.1, "keys"@) || !walked {
                    None
                } else if modules.dom().contains(source) {
                    Some((source, modules[source]))
                } else if modules.dom().contains(d.0) {
                    Some((source, modules[d.0]))
                } else {
                    None
                }
            },
            None => None,
        }
    } else {
        None
    }
}

/// The variables whose module is re-exported, among the first `n` statements.
pub open spec fn reexported(
    s: Seq<Stmt>,
    modules: Map<Seq<char>, Seq<char>>,
    n: int,
) -> Set<Seq<char>>
    decreases n,
{
    if n <= 0 {
        Set::empty()
    } else {
        match reexport_at(s, modules, n - 1) {
            Some(p) => reexported(s, modules, n - 1).insert(p.0),
            None => reexported(s, modules, n - 1),
        }
    }
}

/// What is known of a module before its statements are classified.
#[verifier::ext_equal]
pub struct Facts {
    pub vars: Map<Seq<char>, Desc>,
    pub consumed: Set<Seq<char>>,
    pub modules: Map<Seq<char>, Seq<char>>,
    pub reexported: Set<Seq<char>>,
    pub rebound: Set<Seq<char>>,
}

pub open spec fn facts(g: Gen, s: Seq<Stmt>) -> Facts {
    let vars = descriptors(g, s);
    let modules = module_vars(g, s);
    Facts {
        vars,
        consumed: consumed(g, s, vars),
        modules,
        reexported: reexported(s, modules, s.len() as int),
        rebound: rebound_names(s),
    }
}

/// The lines of a module, by the part they belong to.
#[verifier::ext_equal]
pub struct Parts {
    pub imports: Seq<Seq<char>>,
    pub body: Seq<Seq<char>>,
    pub exports: Seq<Seq<char>>,
}

/// Whether a definition's name is in a set.
pub open spec fn defines_one_of(s: Stmt, names: Set<Seq<char>>) -> bool {
    match bindings::binding(s) {
        Some(d) => names.contains(d.0),
        None => false,
    }
}

/// The parts with one classified statement more. The import of a re-exported module is dropped.
pub open spec fn place(g: Gen, f: Facts, p: Parts, s: Stmt) -> Parts {
    let subsumed = defines_one_of(s, f.reexported);
    match esm_classify::classified_with(g, s, f.vars, f.rebound) {
        Class::Import(line) => if subsumed {
            p
        } else {
            Parts { imports: p.imports.push(line), ..p }
        },
        Class::Export(line) => Parts { exports: p.exports.push(line), ..p },
        Class::ImportAndExport(a, b) => Parts {
            imports: p.imports.push(a),
            exports: p.exports.push(b),
            ..p
        },
        Class::ImportAndBody(a, b) => if subsumed {
            Parts { body: p.body.push(b), ..p }
        } else {
            Parts { imports: p.imports.push(a), body: p.body.push(b), ..p }
        },
        Class::Skip => p,
        Class::Body => Parts { body: p.body.push(stmt_gen::stmt_text(g, s)), ..p },
    }
}

/// The parts that the first `n` statements make.
pub open spec fn parts(g: Gen, f: Facts, s: Seq<Stmt>, n: int) -> Parts
    decreases n,
{
    if n <= 0 {
        Parts { imports: Seq::empty(), body: Seq::empty(), exports: Seq::empty() }
    } else {
        let p = parts(g, f, s, n - 1);
        match reexport_at(s, f.modules, n - 1) {
            Some(m) => Parts { exports: p.exports.push(esm_descriptors::export_all(m.1)), ..p },
            None => if reexport_at(s, f.modules, n - 2) is Some || defines_one_of(
                s[n - 1],
                f.consumed,
            ) {
                p
            } else {
                place(g, f, p, s[n - 1])
            },
        }
    }
}

/// The parts with `closure_N` imports under the names of their modules.
pub open spec fn renamed_parts(p: Parts) -> Parts {
    let r = esm_names::closure_renames(p.imports);
    Parts {
        imports: esm_names::rename_lines(p.imports, r),
        body: esm_names::rename_lines(p.body, r),
        exports: esm_names::rename_lines(p.exports, r),
    }
}

/// The parts without repeats and without names that collide.
pub open spec fn settled_parts(p: Parts) -> Parts {
    let imports = esm_lines::unique_bindings(esm_imports::consolidated(p.imports));
    let exports = esm_lines::distinct(p.exports);
    let body = esm_promote::all_promoted(p.body, exports);
    let kept = esm_promote::kept_exports(p.body, exports);
    Parts {
        imports: esm_lines::resolved_imports(imports, body, kept),
        body,
        exports: esm_lines::resolved_exports(imports, kept),
    }
}

/// Each line with a line end.
pub open spec fn line_block(lines: Seq<Seq<char>>) -> Seq<char>
    decreases lines.len(),
{
    if lines.len() == 0 {
        Seq::empty()
    } else {
        line_block(lines.drop_last()) + lines.last() + "\n"@
    }
}

pub open spec fn header_line(id: u32, name: Option<Seq<char>>) -> Seq<char> {
    match name {
        Some(n) => "// Module "@ + text::decimal(id as nat) + " ("@ + n + ")\n"@,
        None => "// Module "@ + text::decimal(id as nat) + "\n"@,
    }
}

/// The text of a module's parts: imports, the loader where it is still called, body, exports.
pub open spec fn assembled(p: Parts) -> Seq<char> {
    let needs_loader = esm_promote::dangling_require(p.body) || esm_promote::dangling_require(
        p.exports,
    );
    let imports = if p.imports.len() == 0 {
        Seq::empty()
    } else {
        line_block(p.imports) + "\n"@
    };
    let loader = if needs_loader {
        "const require = globalThis.__r;\n\n"@
    } else {
        Seq::empty()
    };
    let trimmed = text::trimmed(text::chained(p.body));
    let body = if trimmed.len() == 0 {
        Seq::empty()
    } else {
        trimmed + "\n"@
    };
    let exports = if p.exports.len() == 0 {
        Seq::empty()
    } else {
        "\n"@ + line_block(p.exports)
    };
    imports + loader + body + exports
}

/// The text of an ES module. A module that only re-exports another is one line.
pub open spec fn module_text(g: Gen, s: Seq<Stmt>, id: u32, name: Option<Seq<char>>) -> Seq<char> {
    match esm_descriptors::reexport_module(g, s) {
        Some(line) => header_line(id, name) + line + "\n"@,
        None => {
            let t = renaming::ren_stmts(esm_names::import_renames(g, s), s);
            header_line(id, name) + assembled(
                settled_parts(renamed_parts(parts(g, facts(g, t), t, t.len() as int))),
            )
        },
    }
}

fn write_header(id: u32, name: Option<&str>) -> (r: String)
    ensures
        r@ == header_line(
            id,
            match name {
                Some(n) => Some(n@),
                None => None,
            },
        ),
{
    let n = text::decimal_of(id as u64);
    match name {
        Some(m) => text::concat5("// Module ", &n, " (", m, ")\n"),
        None => text::concat3("// Module ", &n, "\n"),
    }
}

fn write_lines(lines: &Vec<String>) -> (r: String)
    ensures
        r@ == line_block(model::texts(lines@)),
{
    let ghost all = model::texts(lines@);
    let mut out = String::new();
    let mut i: usize = 0;
    while i < lines.len()
        invariant
            i <= lines.len(),
            all == model::texts(lines@),
            out@ == line_block(all.take(i as int)),
        decreases lines.len() - i,
    {
        assert(all.take(i + 1).drop_last() =~= all.take(i as int));
        out.append(lines[i].as_str());
        out.append("\n");
        i += 1;
    }
    assert(all.take(all.len() as int) =~= all);
    out
}

fn collect_bound(s: &Vec<Statement>) -> (r: Vec<String>)
    ensures
        model::texts(r@) == bound_names(occurs::stmts_atoms(model::stmts(s@))),
{
    let all = occurs::of_stmts(s);
    let ghost atoms = occurs::occs(all@);
    let mut out: Vec<String> = Vec::new();
    let mut i: usize = 0;
    assert(model::texts(out@) =~= Seq::empty());
    while i < all.len()
        invariant
            i <= all.len(),
            atoms == occurs::occs(all@),
            model::texts(out@) == bound_names(atoms.take(i as int)),
        decreases all.len() - i,
    {
        assert(atoms.take(i + 1).drop_last() =~= atoms.take(i as int));
        assert(atoms[i as int] == all@[i as int]@);
        let ghost before = model::texts(out@);
        match &all[i] {
            Occurrence::Declare(n) | Occurrence::WriteVariable(n) => {
                out.push(n.clone());
                assert(model::texts(out@) =~= before.push(n@));
            },
            _ => {},
        }
        i += 1;
    }
    assert(atoms.take(atoms.len() as int) =~= atoms);
    out
}

fn push_inside(s: &Vec<Statement>, out: &mut Vec<String>)
    ensures
        model::texts(final(out)@) == model::texts(old(out)@) + names_inside(
            visit::stmts_visits(model::stmts(s@)),
        ),
{
    let es = visit::of_stmts(s);
    let ghost all = visit::seen(es@);
    let ghost first = model::texts(out@);
    let mut i: usize = 0;
    assert(first + names_inside(all.take(0)) =~= first);
    while i < es.len()
        invariant
            i <= es.len(),
            all == visit::seen(es@),
            model::texts(out@) == first + names_inside(all.take(i as int)),
        decreases es.len() - i,
    {
        assert(all.take(i + 1).drop_last() =~= all.take(i as int));
        assert(all.take(i + 1).last() == es@[i as int]@);
        if let Some(n) = name_written_inside(es[i]) {
            let ghost x = n@;
            let ghost before = model::texts(out@);
            out.push(n);
            assert(model::texts(out@) =~= before.push(x));
            assert(model::texts(out@) =~= first + names_inside(all.take(i + 1)));
        }
        i += 1;
    }
    assert(all.take(all.len() as int) =~= all);
}

fn collect_rebound(s: &Vec<Statement>) -> (r: NameSet)
    ensures
        r@ == rebound_names(model::stmts(s@)),
{
    let mut v = collect_bound(s);
    push_inside(s, &mut v);
    let ghost names = model::texts(v@);
    let mut out = NameSet::new();
    let mut i: usize = 0;
    while i < v.len()
        invariant
            i <= v.len(),
            names == model::texts(v@),
            forall|n: Seq<char>| #[trigger] out@.contains(n) ==> twice(names, n),
            forall|a: int, b: int|
                0 <= a < i && a < b < names.len() && #[trigger] names[a] == #[trigger] names[b]
                    ==> out@.contains(names[a]),
        decreases v.len() - i,
    {
        let mut j: usize = i + 1;
        let ghost before = out@;
        while j < v.len()
            invariant
                i < j <= v.len(),
                names == model::texts(v@),
                before.subset_of(out@),
                forall|n: Seq<char>| #[trigger] out@.contains(n) ==> twice(names, n),
                forall|b: int|
                    i < b < j && names[i as int] == #[trigger] names[b] ==> out@.contains(
                        names[i as int],
                    ),
            decreases v.len() - j,
        {
            assert(names[i as int] == v@[i as int]@);
            assert(names[j as int] == v@[j as int]@);
            if text::same(&v[i], &v[j]) {
                assert(twice(names, names[i as int]));
                out.insert(&v[i]);
            }
            j += 1;
        }
        i += 1;
    }
    assert(out@ =~= rebound_names(model::stmts(s@)));
    out
}

fn find_reexport(
    s: &Vec<Statement>,
    modules: &Dict<String>,
    i: usize,
) -> (r: Option<(String, String)>)
    ensures
        match r {
            Some(p) => reexport_at(
                model::stmts(s@),
                renaming::names_of(modules@),
                i as int,
            ) == Some((p.0@, p.1@)),
            None => reexport_at(model::stmts(s@), renaming::names_of(modules@), i as int) is None,
        },
{
    if s.len() == 0 || i >= s.len() - 1 {
        return None;
    }
    assert(model::stmts(s@)[i as int] == s@[i as int]@);
    assert(model::stmts(s@)[i + 1] == s@[i + 1]@);
    match as_binding(&s[i]) {
        Some((name, value)) => {
            if !is_object_keys_call(value) {
                return None;
            }
            let source = match extract_object_keys_source(value) {
                Some(n) => n,
                None => name.clone(),
            };
            let walked: bool = match as_evaluated(&s[i + 1]) {
                Some(e) => is_foreach_on_var(e, name),
                None => false,
            };
            if !walked {
                return None;
            }
            match modules.get(&source) {
                Some(m) => Some((source, m.clone())),
                None => match modules.get(name) {
                    Some(m) => Some((source, m.clone())),
                    None => None,
                },
            }
        },
        None => None,
    }
}

fn collect_reexported(s: &Vec<Statement>, modules: &Dict<String>) -> (r: NameSet)
    ensures
        r@ == reexported(model::stmts(s@), renaming::names_of(modules@), s@.len() as int),
{
    let mut out = NameSet::new();
    let mut i: usize = 0;
    while i < s.len()
        invariant
            i <= s.len(),
            out@ == reexported(model::stmts(s@), renaming::names_of(modules@), i as int),
        decreases s.len() - i,
    {
        if let Some((source, _)) = find_reexport(s, modules, i) {
            out.insert(&source);
        }
        i += 1;
    }
    out
}

fn is_defining(s: &Statement, names: &NameSet) -> (r: bool)
    ensures
        r == defines_one_of(s@, names@),
{
    match as_binding(s) {
        Some((name, _)) => names.contains(name),
        None => false,
    }
}

/// The lines of a module under construction.
pub struct ModuleLines {
    pub imports: Vec<String>,
    pub body: Vec<String>,
    pub exports: Vec<String>,
}

impl ModuleLines {
    pub open spec fn view(&self) -> Parts {
        Parts {
            imports: model::texts(self.imports@),
            body: model::texts(self.body@),
            exports: model::texts(self.exports@),
        }
    }
}

fn add_line(v: &mut Vec<String>, line: String)
    ensures
        model::texts(final(v)@) == model::texts(old(v)@).push(line@),
{
    let ghost before = v@;
    v.push(line);
    assert(model::texts(v@) =~= model::texts(before).push(line@));
}

fn rename_parts(p: ModuleLines) -> (r: ModuleLines)
    ensures
        r@ == renamed_parts(p@),
{
    let renames = collect_closure_renames(&p.imports);
    ModuleLines {
        imports: apply_to_lines(&p.imports, &renames),
        body: apply_to_lines(&p.body, &renames),
        exports: apply_to_lines(&p.exports, &renames),
    }
}

fn settle_parts(p: ModuleLines) -> (r: ModuleLines)
    ensures
        r@ == settled_parts(p@),
{
    let mut imports = consolidate_imports(p.imports);
    dedupe_import_bindings(&mut imports);
    let mut exports = distinct_lines(&p.exports);
    let mut body = p.body;
    dedupe_function_export_collisions(&mut body, &mut exports);
    resolve_import_declaration_collisions(&mut imports, &body, &mut exports);
    ModuleLines { imports, body, exports }
}

fn assemble(p: &ModuleLines) -> (r: String)
    ensures
        r@ == assembled(p@),
{
    let mut out = String::new();
    assert(model::texts(p.imports@).len() == p.imports@.len());
    assert(model::texts(p.exports@).len() == p.exports@.len());
    if p.imports.len() != 0 {
        out = text::concat2(&write_lines(&p.imports), "\n");
    }
    let ghost first = out@;
    let loader = if body_calls_require(&p.body) || body_calls_require(&p.exports) {
        "const require = globalThis.__r;\n\n".to_owned()
    } else {
        String::new()
    };
    out.append(&loader);
    let trimmed = text::trim(&text::chain(&p.body));
    let body = if trimmed.as_str().is_empty() {
        String::new()
    } else {
        text::concat2(&trimmed, "\n")
    };
    out.append(&body);
    let exports = if p.exports.len() == 0 {
        String::new()
    } else {
        text::concat2("\n", &write_lines(&p.exports))
    };
    out.append(&exports);
    out
}

impl Codegen {
    fn collect_descriptors(&self, s: &Vec<Statement>) -> (r: Dict<DescriptorInfo>)
        ensures
            esm_descriptors::desc_map(r@) == descriptors(self@, model::stmts(s@)),
    {
        let ghost all = model::stmts(s@);
        let mut out: Dict<DescriptorInfo> = Dict::new();
        let mut i: usize = 0;
        assert(all.take(0) =~= Seq::empty());
        assert(esm_descriptors::desc_map(out@) =~= Map::empty());
        while i < s.len()
            invariant
                i <= s.len(),
                all == model::stmts(s@),
                esm_descriptors::desc_map(out@) == descriptors(self@, all.take(i as int)),
            decreases s.len() - i,
        {
            assert(all.take(i + 1).drop_last() =~= all.take(i as int));
            assert(all[i as int] == s@[i as int]@);
            let ghost before = out@;
            if let Some((name, value)) = as_binding(&s[i]) {
                if let Some(info) = self.extract_descriptor_info(value) {
                    let ghost d = info@;
                    out.insert(name, info);
                    assert(esm_descriptors::desc_map(out@) =~= esm_descriptors::desc_map(
                        before,
                    ).insert(name@, d));
                }
            }
            i += 1;
        }
        assert(all.take(all.len() as int) =~= all);
        out
    }

    fn collect_consumed(&self, s: &Vec<Statement>, vars: &Dict<DescriptorInfo>) -> (r: NameSet)
        ensures
            r@ == consumed(self@, model::stmts(s@), esm_descriptors::desc_map(vars@)),
    {
        let ghost all = model::stmts(s@);
        let ghost known = esm_descriptors::desc_map(vars@);
        let mut out = NameSet::new();
        let mut i: usize = 0;
        assert(all.take(0) =~= Seq::empty());
        while i < s.len()
            invariant
                i <= s.len(),
                all == model::stmts(s@),
                known == esm_descriptors::desc_map(vars@),
                out@ == consumed(self@, all.take(i as int), known),
            decreases s.len() - i,
        {
            assert(all.take(i + 1).drop_last() =~= all.take(i as int));
            assert(all[i as int] == s@[i as int]@);
            if let Statement::Expr(e) = &s[i] {
                if let Some(n) = self.get_define_property_descriptor_var(e) {
                    if vars.contains(&n) {
                        out.insert(&n);
                    }
                }
            }
            i += 1;
        }
        assert(all.take(all.len() as int) =~= all);
        out
    }

    fn collect_modules(&self, s: &Vec<Statement>) -> (r: Dict<String>)
        ensures
            renaming::names_of(r@) == module_vars(self@, model::stmts(s@)),
    {
        let ghost all = model::stmts(s@);
        let mut out: Dict<String> = Dict::new();
        let mut i: usize = 0;
        assert(all.take(0) =~= Seq::empty());
        assert(renaming::names_of(out@) =~= Map::empty());
        while i < s.len()
            invariant
                i <= s.len(),
                all == model::stmts(s@),
                renaming::names_of(out@) == module_vars(self@, all.take(i as int)),
            decreases s.len() - i,
        {
            assert(all.take(i + 1).drop_last() =~= all.take(i as int));
            assert(all[i as int] == s@[i as int]@);
            let ghost before = out@;
            if let Some((name, value)) = as_binding(&s[i]) {
                let module = match self.resolve_wrapped_module(value) {
                    Some(p) => Some(p.0),
                    None => self.resolve_require_module(value),
                };
                if let Some(m) = module {
                    let ghost t = m@;
                    out.insert(name, m);
                    assert(renaming::names_of(out@) =~= renaming::names_of(before).insert(
                        name@,
                        t,
                    ));
                }
            }
            i += 1;
        }
        assert(all.take(all.len() as int) =~= all);
        out
    }

    fn place_stmt(
        &mut self,
        vars: &Dict<DescriptorInfo>,
        rebound: &NameSet,
        reexported_vars: &NameSet,
        p: ModuleLines,
        s: &Statement,
        Ghost(f): Ghost<Facts>,
    ) -> (r: ModuleLines)
        requires
            f.vars == esm_descriptors::desc_map(vars@),
            f.rebound == rebound@,
            f.reexported == reexported_vars@,
        ensures
            *final(self) == *old(self),
            r@ == place(old(self)@, f, p@, s@),
    {
        let subsumed: bool = is_defining(s, reexported_vars);
        let mut imports = p.imports;
        let mut body = p.body;
        let mut exports = p.exports;
        match self.classify_esm_stmt_with_descriptors(s, vars, rebound) {
            EsmClassification::Import(line) => {
                if !subsumed {
                    add_line(&mut imports, line);
                }
            },
            EsmClassification::Export(line) => add_line(&mut exports, line),
            EsmClassification::ImportAndExport(a, b) => {
                add_line(&mut imports, a);
                add_line(&mut exports, b);
            },
            EsmClassification::ImportAndBody(a, b) => {
                if !subsumed {
                    add_line(&mut imports, a);
                }
                add_line(&mut body, b);
            },
            EsmClassification::Skip => {},
            EsmClassification::Body => {
                let line = self.generate_stmt(s);
                add_line(&mut body, line);
            },
        }
        ModuleLines { imports, body, exports }
    }

    fn collect_parts(&mut self, s: &Vec<Statement>) -> (r: ModuleLines)
        ensures
            *final(self) == *old(self),
            r@ == parts(
                old(self)@,
                facts(old(self)@, model::stmts(s@)),
                model::stmts(s@),
                s@.len() as int,
            ),
    {
        let ghost all = model::stmts(s@);
        let ghost g = self@;
        let vars = self.collect_descriptors(s);
        let used = self.collect_consumed(s, &vars);
        let modules = self.collect_modules(s);
        let reexported_vars = collect_reexported(s, &modules);
        let rebound = collect_rebound(s);
        let ghost f = facts(g, all);
        let mut p = ModuleLines { imports: Vec::new(), body: Vec::new(), exports: Vec::new() };
        assert(p@ =~= parts(g, f, all, 0));
        let mut i: usize = 0;
        while i < s.len()
            invariant
                i <= s.len(),
                *self == *old(self),
                g == self@,
                all == model::stmts(s@),
                f == facts(g, all),
                f.vars == esm_descriptors::desc_map(vars@),
                f.consumed == used@,
                f.modules == renaming::names_of(modules@),
                f.reexported == reexported_vars@,
                f.rebound == rebound@,
                p@ == parts(g, f, all, i as int),
            decreases s.len() - i,
        {
            assert(all[i as int] == s@[i as int]@);
            if let Some((_, m)) = find_reexport(s, &modules, i) {
                add_line(&mut p.exports, text::concat3("export * from \"", &m, "\";"));
            } else {
                let walked: bool = i > 0 && find_reexport(s, &modules, i - 1).is_some();
                if !walked && !is_defining(&s[i], &used) {
                    p = self.place_stmt(&vars, &rebound, &reexported_vars, p, &s[i], Ghost(f));
                }
            }
            i += 1;
        }
        p
    }

    /// Writes a module as an ES module: imports, body and exports, with the module's id and name
    /// in a header line. The generator is left as it was.
    pub fn generate_esm_module(
        &mut self,
        statements: &Vec<Statement>,
        module_id: u32,
        module_name: Option<&str>,
    ) -> (r: String)
        ensures
            *final(self) == *old(self),
            r@ == module_text(
                old(self)@,
                model::stmts(statements@),
                module_id,
                match module_name {
                    Some(n) => Some(n@),
                    None => None,
                },
            ),
    {
        let header = write_header(module_id, module_name);
        if let Some(line) = self.detect_reexport_module(statements) {
            return text::concat3(&header, &line, "\n");
        }
        let renames = self.import_binding_renames(statements);
        let renamed = rename_stmts(&renames, statements);
        let collected = self.collect_parts(&renamed);
        assert(model::stmts(renamed@).len() == renamed@.len());
        let settled = settle_parts(rename_parts(collected));
        text::concat2(&header, &assemble(&settled))
    }
}

} // verus!
