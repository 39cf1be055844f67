//! Import and export lines behind module loads and property definitions.

use super::esm_boilerplate;
use super::esm_descriptors;
use super::esm_descriptors::{Desc, DescriptorInfo};
use super::expr_gen;
use super::resolve::first_effective;
use super::{resolve, Codegen, Gen};
use crate::dict::Dict;
use crate::ir::model;
use crate::ir::model::{Const, Expr, Key, Val};
use crate::ir::{Constant, Expression, PropertyKey, Value};
use crate::metro;
use crate::names;
use crate::text;
use vstd::prelude::*;

verus! {

/// The comment that carries a module id.
pub open spec fn id_note(id: u32) -> Seq<char> {
    " /* "@ + text::decimal(id as nat) + " */"@
}

/// The comment that carries a module id behind an import, e.g. ` /* 530 */`.
pub fn id_comment(id: u32) -> (r: String)
    ensures
        r@ == id_note(id),
{
    text::concat3(" /* ", &text::decimal_of(id as u64), " */")
}

pub open spec fn opt_id_note(id: Option<u32>) -> Seq<char> {
    match id {
        Some(id) => id_note(id),
        None => Seq::empty(),
    }
}

/// `import local from "module" /* id */;`
pub open spec fn default_import(local: Seq<char>, module: Seq<char>, id: u32) -> Seq<char> {
    "import "@ + local + " from \""@ + module + "\""@ + id_note(id) + ";"@
}

/// A named import. A property that is no identifier is written as a string name.
pub open spec fn named_import(
    prop: Seq<char>,
    local: Seq<char>,
    module: Seq<char>,
    id: Option<u32>,
) -> Seq<char> {
    let spec = if names::valid_identifier(prop) {
        if prop == local {
            prop
        } else {
            prop + " as "@ + local
        }
    } else {
        "\""@ + names::escaped(prop) + "\" as "@ + local
    };
    "import { "@ + spec + " } from \""@ + module + "\""@ + opt_id_note(id) + ";"@
}

/// Writes a named import.
pub fn format_named_import(prop: &str, local: &str, mod_name: &str, id: Option<u32>) -> (r: String)
    ensures
        r@ == named_import(prop@, local@, mod_name@, id),
{
    let comment = match id {
        Some(id) => id_comment(id),
        None => String::new(),
    };
    let spec = if names::is_valid_identifier(prop) {
        if text::same(prop, local) {
            prop.to_owned()
        } else {
            text::concat3(prop, " as ", local)
        }
    } else {
        text::concat4("\"", &names::escape_js_string_bare(prop), "\" as ", local)
    };
    let mut out = text::concat5("import { ", &spec, " } from \"", mod_name, "\"");
    out.append(&comment);
    out.append(";");
    out
}

fn format_default_import(local: &str, mod_name: &str, id: u32) -> (r: String)
    ensures
        r@ == default_import(local@, mod_name@, id),
{
    let mut out = text::concat5("import ", local, " from \"", mod_name, "\"");
    out.append(id_comment(id).as_str());
    out.append(";");
    out
}

/// The name that a property key stands for.
pub open spec fn key_name(g: Gen, key: Key) -> Seq<char> {
    match key {
        Key::Ident(n) => n,
        Key::String(n) => n,
        Key::Index(i) => text::decimal_int(i as int),
        Key::Computed(k) => "["@ + expr_gen::expr_text(g, *k) + "]"@,
    }
}

/// The import that a definition `name = value` becomes, where the value loads a module: the
/// load itself or its argument gives a default import, a property of either a named one.
pub open spec fn import_of(g: Gen, name: Seq<char>, value: Expr) -> Option<Seq<char>> {
    let local = names::sanitized(name);
    if local.len() == 0 {
        None
    } else if let Some(m) = esm_boilerplate::loaded(g, value) {
        Some(default_import(local, m.0, m.1))
    } else {
        match value {
            Expr::Member { object, property, .. } => match esm_boilerplate::loaded(g, *object) {
                Some(m) => Some(named_import(key_name(g, property), local, m.0, Some(m.1))),
                None => match esm_boilerplate::wrapped_load(g, *object) {
                    Some(m) => Some(named_import(key_name(g, property), local, m.0, Some(m.1))),
                    None => None,
                },
            },
            _ => match esm_boilerplate::wrapped_load(g, value) {
                Some(m) => Some(default_import(local, m.0, m.1)),
                None => None,
            },
        }
    }
}

/// `import "module";`
pub open spec fn bare_import(module: Seq<char>) -> Seq<char> {
    "import \""@ + module + "\";"@
}

/// The import that a bare module load becomes.
pub open spec fn side_effect_import(g: Gen, e: Expr) -> Option<Seq<char>> {
    match esm_boilerplate::loaded_name(g, e) {
        Some(m) => Some(bare_import(m)),
        None => None,
    }
}

/// Where the target of a property definition stands among the arguments: first, or behind a
/// receiver.
pub open spec fn define_target(g: Gen, args: Seq<Expr>) -> Option<int> {
    if args.len() == 3 {
        Some(0)
    } else if args.len() >= 4 {
        if metro::exports_name(expr_gen::expr_text(g, args[0])) {
            Some(0)
        } else {
            Some(1)
        }
    } else {
        None
    }
}

/// The arguments of a property definition on the exports: name and descriptor.
pub open spec fn define_on_exports(g: Gen, e: Expr) -> Option<(Expr, Expr)> {
    match e {
        Expr::Call { callee, arguments } => {
            let args = resolve::effective(arguments);
            match define_target(g, args) {
                Some(t) => if text::has_part(
                    expr_gen::expr_text(g, *callee),
                    "defineProperty"@,
                ) && metro::exports_name(expr_gen::expr_text(g, args[t])) {
                    Some((args[t + 1], args[t + 2]))
                } else {
                    None
                },
                None => None,
            }
        },
        _ => None,
    }
}

/// The name under which a property definition exports: a string, or a variable that reads like
/// a real name.
pub open spec fn export_name(e: Expr) -> Option<Seq<char>> {
    match e {
        Expr::Value(Val::Constant(Const::String(s))) => Some(s),
        Expr::Value(Val::Variable(n)) => if names::valid_identifier(n) && !text::has_prefix(
            n,
            "arg"@,
        ) {
            Some(n)
        } else {
            None
        },
        _ => None,
    }
}

/// The export line for a name and its value.
pub open spec fn export_line(name: Seq<char>, value: Option<Seq<char>>) -> Seq<char> {
    let val = match value {
        Some(v) => v,
        None => "undefined"@,
    };
    if name == "default"@ {
        "export default "@ + val + ";"@
    } else if value == Some(name) {
        "export { "@ + name + " };"@
    } else {
        "export const "@ + name + " = "@ + val + ";"@
    }
}

/// The export that `Object.defineProperty(exports, "name", descriptor)` becomes.
pub open spec fn defined_export(g: Gen, e: Expr, vars: Map<Seq<char>, Desc>) -> Option<Seq<char>> {
    match define_on_exports(g, e) {
        Some(d) => match export_name(d.0) {
            Some(name) => if name == "__esModule"@ {
                None
            } else {
                Some(export_line(name, esm_descriptors::descriptor_value(g, d.1, vars)))
            },
            None => None,
        },
        None => None,
    }
}

fn is_exports_text(s: &str) -> (r: bool)
    ensures
        r == metro::exports_name(s@),
{
    metro::is_exports_name(s)
}

fn format_export(name: &str, value: Option<String>) -> (r: String)
    ensures
        r@ == export_line(name@, text::opt(value)),
{
    let shorthand: bool = match &value {
        Some(v) => text::same(v, name),
        None => false,
    };
    let val = match value {
        Some(v) => v,
        None => "undefined".to_owned(),
    };
    if text::same(name, "default") {
        text::concat3("export default ", &val, ";")
    } else if shorthand {
        text::concat3("export { ", name, " };")
    } else {
        text::concat5("export const ", name, " = ", &val, ";")
    }
}

fn find_export_name(e: &Expression) -> (r: Option<String>)
    ensures
        text::opt(r) == export_name(e@),
{
    match e {
        Expression::Value(Value::Constant(Constant::String(s))) => Some(s.clone()),
        Expression::Value(Value::Variable(n)) => if names::is_valid_identifier(n)
            && !text::starts_with(n, "arg") {
            Some(n.clone())
        } else {
            None
        },
        _ => None,
    }
}

impl Codegen {
    /// The name that a property key stands for.
    pub fn format_key(&self, key: &PropertyKey) -> (r: String)
        ensures
            r@ == key_name(self@, key@),
    {
        match key {
            PropertyKey::Ident(n) | PropertyKey::String(n) => n.clone(),
            PropertyKey::Index(i) => text::decimal_of_int(*i),
            PropertyKey::Computed(k) => text::concat3("[", &self.generate_expr(k), "]"),
        }
    }

    /// The import that a definition becomes, where its value loads a module.
    pub fn try_import_from_expr(&self, var_name: &str, value: &Expression) -> (r: Option<String>)
        ensures
            text::opt(r) == import_of(self@, var_name@, value@),
    {
        let local = names::sanitize_identifier(var_name);
        if local.as_str().is_empty() {
            return None;
        }
        if let Some((m, id)) = self.resolve_require_module_id(value) {
            return Some(format_default_import(&local, &m, id));
        }
        match value {
            Expression::Member { object, property, .. } => {
                if let Some((m, id)) = self.resolve_require_module_id(object) {
                    let prop = self.format_key(property);
                    return Some(format_named_import(&prop, &local, &m, Some(id)));
                }
                if let Some((m, id)) = self.resolve_wrapped_module(object) {
                    let prop = self.format_key(property);
                    return Some(format_named_import(&prop, &local, &m, Some(id)));
                }
                None
            },
            _ => match self.resolve_wrapped_module(value) {
                Some((m, id)) => Some(format_default_import(&local, &m, id)),
                None => None,
            },
        }
    }

    /// The import that a bare module load becomes.
    pub fn try_side_effect_import(&self, e: &Expression) -> (r: Option<String>)
        ensures
            text::opt(r) == side_effect_import(self@, e@),
    {
        match self.resolve_require_module(e) {
            Some(m) => Some(text::concat3("import \"", &m, "\";")),
            None => None,
        }
    }

    /// The index of the name among the arguments of a property definition on the exports; the
    /// descriptor follows it.
    pub fn find_define_on_exports(&self, e: &Expression) -> (r: Option<usize>)
        ensures
            match r {
                Some(k) => {
                    &&& k < usize::MAX
                    &&& e matches Expression::Call { arguments, .. } && k + 1 < arguments@.len()
                        && define_on_exports(self@, e@) == Some(
                        (arguments@[k as int]@, arguments@[k + 1]@),
                    )
                },
                None => define_on_exports(self@, e@) is None,
            },
    {
        if let Expression::Call { callee, arguments } = e {
            let callee_text = self.generate_expr(callee);
            let from: usize = first_effective(arguments);
            let ghost args = resolve::effective(model::exprs(arguments@));
            let n: usize = arguments.len() - from;
            assert(args.len() == n);
            assert(forall|k: int| 0 <= k < n ==> args[k] == arguments@[from + k]@);
            if n < 3 {
                return None;
            }
            let t: usize = if n == 3 || is_exports_text(&self.generate_expr(&arguments[from])) {
                0
            } else {
                1
            };
            if !text::contains(&callee_text, "defineProperty") || !is_exports_text(
                &self.generate_expr(&arguments[from + t]),
            ) {
                return None;
            }
            Some(from + t + 1)
        } else {
            None
        }
    }

    /// The export that a property definition on the exports becomes.
    pub fn try_define_property_export_with_descriptors(
        &self,
        e: &Expression,
        descriptor_vars: &Dict<DescriptorInfo>,
    ) -> (r: Option<String>)
        ensures
            text::opt(r) == defined_export(
                self@,
                e@,
                esm_descriptors::desc_map(descriptor_vars@),
            ),
    {
        match self.find_define_on_exports(e) {
            Some(k) => if let Expression::Call { arguments, .. } = e {
                match find_export_name(&arguments[k]) {
                    Some(name) => if text::same(&name, "__esModule") {
                        None
                    } else {
                        let value = self.resolve_descriptor_value(
                            &arguments[k + 1],
                            descriptor_vars,
                        );
                        Some(format_export(&name, value))
                    },
                    None => None,
                }
            } else {
                None
            },
            None => None,
        }
    }
}

} // verus!
