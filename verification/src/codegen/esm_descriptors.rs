//! Property descriptors, and modules that only re-export another one.

use super::esm_boilerplate;
use super::esm_boilerplate::is_interop_default_check;
use super::esm_patterns;
use super::expr_gen;
use super::resolve::{first_effective, is_undefined_expr};
use super::{lookup_name, resolve, Codegen, Gen};
use crate::dict::Dict;
use crate::ir::bindings;
use crate::ir::bindings::as_binding;
use crate::ir::model;
use crate::ir::model::{Const, Expr, Key, Prop, Stmt, Val};
use crate::ir::{
    Constant, Expression, ObjectProperty, PropertyKey, Statement, Value,
};
use crate::names;
use crate::text;
use vstd::prelude::*;

verus! {

/// What is known of a property descriptor.
pub struct DescriptorInfo {
    /// What its getter returns, as text.
    pub getter_return: Option<String>,
    /// Its `value` property, as text.
    pub value_prop: Option<String>,
}

/// The mathematical model of a [`DescriptorInfo`].
#[verifier::ext_equal]
pub struct Desc {
    pub getter: Option<Seq<char>>,
    pub value: Option<Seq<char>>,
}

impl DescriptorInfo {
    pub open spec fn view(&self) -> Desc {
        Desc { getter: text::opt(self.getter_return), value: text::opt(self.value_prop) }
    }
}

/// The models of the descriptors in a map.
pub open spec fn desc_map(m: Map<Seq<char>, DescriptorInfo>) -> Map<Seq<char>, Desc> {
    m.map_values(|d: DescriptorInfo| d@)
}

/// The value that a rendered getter returns: what follows `=>` of an arrow function, or what
/// stands between `return` and the semicolon or the closing brace.
pub open spec fn getter_value(rendered: Seq<char>) -> Option<Seq<char>> {
    let t = text::trimmed(rendered);
    if text::has_prefix(t, "("@) && text::has_part(t.subrange(1, t.len() as int), "=> "@) {
        match text::cut(t, "=> "@) {
            Some(p) => Some(p.1),
            None => None,
        }
    } else {
        match text::cut(t, "return "@) {
            Some(p) => match text::cut(p.1, ";"@) {
                Some(q) => Some(text::trimmed(q.0)),
                None => {
                    let val = text::trimmed(
                        text::stripped_end(
                            text::trimmed(text::stripped_end(text::trimmed(p.1), "}"@)),
                            "\n"@,
                        ),
                    );
                    if val.len() == 0 {
                        None
                    } else {
                        Some(val)
                    }
                },
            },
            None => None,
        }
    }
}

/// The descriptor read so far, with one more property taken into account.
pub open spec fn desc_step(g: Gen, d: Desc, p: Prop) -> Desc {
    match p.key {
        Key::Ident(k) => desc_named(g, d, k, p.value),
        Key::String(k) => desc_named(g, d, k, p.value),
        _ => d,
    }
}

pub open spec fn desc_named(g: Gen, d: Desc, key: Seq<char>, value: Expr) -> Desc {
    if key == "get"@ {
        match value {
            Expr::Function { id, .. } => match super::named(g.bodies, id.0) {
                Some(rendered) => match getter_value(rendered) {
                    Some(v) => Desc { getter: Some(v), ..d },
                    None => d,
                },
                None => d,
            },
            _ => d,
        }
    } else if key == "value"@ {
        Desc { value: Some(expr_gen::expr_text(g, value)), ..d }
    } else {
        d
    }
}

pub open spec fn desc_fold(g: Gen, ps: Seq<Prop>) -> Desc
    decreases ps.len(),
{
    if ps.len() == 0 {
        Desc { getter: None, value: None }
    } else {
        desc_step(g, desc_fold(g, ps.drop_last()), ps.last())
    }
}

/// The descriptor that an object literal is, where a getter or a value is known.
pub open spec fn descriptor_of(g: Gen, e: Expr) -> Option<Desc> {
    match e {
        Expr::Object { properties } => {
            let d = desc_fold(g, properties);
            if d.getter is Some || d.value is Some {
                Some(d)
            } else {
                None
            }
        },
        _ => None,
    }
}

pub open spec fn getter_or_value(d: Desc) -> Option<Seq<char>> {
    match d.getter {
        Some(v) => Some(v),
        None => d.value,
    }
}

/// The variable or register that an expression reads, by name.
pub open spec fn operand_name(e: Expr) -> Option<Seq<char>> {
    match e {
        Expr::Value(Val::Variable(n)) => Some(n),
        Expr::Value(Val::Register(r)) => Some(names::register_name(r)),
        _ => None,
    }
}

/// The value that a descriptor gives, looked up where it is a known variable.
pub open spec fn descriptor_value(g: Gen, e: Expr, vars: Map<Seq<char>, Desc>) -> Option<Seq<char>> {
    match operand_name(e) {
        Some(n) => if vars.dom().contains(n) {
            getter_or_value(vars[n])
        } else {
            None
        },
        None => match descriptor_of(g, e) {
            Some(d) => getter_or_value(d),
            None => None,
        },
    }
}

/// The variable that holds the descriptor of a property definition on the exports.
pub open spec fn descriptor_var(g: Gen, e: Expr) -> Option<Seq<char>> {
    match esm_patterns::define_on_exports(g, e) {
        Some(d) => if d.0 == Expr::Value(Val::Constant(Const::String("__esModule"@))) {
            None
        } else {
            operand_name(d.1)
        },
        None => None,
    }
}

/// The expression that a definition, an assignment or an expression statement evaluates.
pub open spec fn evaluated(s: Stmt) -> Option<Expr> {
    match s {
        Stmt::Assign { value, .. } => Some(value),
        Stmt::Let { value, .. } => Some(value),
        Stmt::Expr(e) => Some(e),
        _ => None,
    }
}

pub open spec fn calls_method(e: Expr, method: Seq<char>) -> bool {
    match e {
        Expr::Call { callee, .. } => match *callee {
            Expr::Member { property: Key::Ident(n), .. } => n == method,
            _ => false,
        },
        _ => false,
    }
}

pub open spec fn evaluates_method(s: Stmt, method: Seq<char>) -> bool {
    match evaluated(s) {
        Some(e) => calls_method(e, method),
        None => false,
    }
}

/// The variable whose keys `keys(SRC)` lists.
pub open spec fn keys_source(e: Expr) -> Option<Seq<char>> {
    match e {
        Expr::Call { arguments, .. } => {
            let args = resolve::effective(arguments);
            if calls_method(e, "keys"@) && args.len() > 0 {
                match args[0] {
                    Expr::Value(Val::Variable(n)) => Some(n),
                    _ => None,
                }
            } else {
                None
            }
        },
        _ => None,
    }
}

/// Whether an expression is `VAR.forEach(..)` for the given variable.
pub open spec fn foreach_on(e: Expr, var: Seq<char>) -> bool {
    match e {
        Expr::Call { callee, .. } => match *callee {
            Expr::Member { object, property: Key::Ident(n), .. } => n == "forEach"@ && *object
                == Expr::Value(Val::Variable(var)),
            _ => false,
        },
        _ => false,
    }
}

/// What a re-export module is made of besides noise: no `return undefined`, no comment, no ES
/// module mark, no check for a default export.
pub open spec fn meaningful(g: Gen, s: Stmt) -> bool {
    &&& s != Stmt::Return(None)
    &&& s != Stmt::Return(Some(Expr::Value(Val::Constant(Const::Undefined))))
    &&& !(s is Comment)
    &&& !esm_boilerplate::esmodule_mark_stmt(g, s)
    &&& !esm_boilerplate::interop_check(s)
}

pub open spec fn meaningful_stmts(g: Gen, s: Seq<Stmt>) -> Seq<Stmt> {
    s.filter(|x: Stmt| meaningful(g, x))
}

/// The module that the statements load: the last one loaded directly, or the first one loaded
/// inside a wrapper while none was found.
pub open spec fn source_module(g: Gen, s: Seq<Stmt>) -> Option<Seq<char>>
    decreases s.len(),
{
    if s.len() == 0 {
        None
    } else {
        source_step(g, source_module(g, s.drop_last()), s.last())
    }
}

pub open spec fn source_step(g: Gen, found: Option<Seq<char>>, s: Stmt) -> Option<Seq<char>> {
    match bindings::binding(s) {
        Some(d) => match esm_boilerplate::loaded_name(g, d.1) {
            Some(m) => Some(m),
            None => if found is None {
                match esm_boilerplate::wrapped_load(g, d.1) {
                    Some(m) => Some(m.0),
                    None => None,
                }
            } else {
                found
            },
        },
        None => found,
    }
}

pub open spec fn any_evaluates(s: Seq<Stmt>, method: Seq<char>) -> bool {
    exists|i: int| 0 <= i < s.len() && evaluates_method(#[trigger] s[i], method)
}

/// `export * from "module";`
pub open spec fn export_all(module: Seq<char>) -> Seq<char> {
    "export * from \""@ + module + "\";"@
}

/// The line that a module becomes which only re-exports another one: two to eight meaningful
/// statements that load a module, list keys and walk them.
pub open spec fn reexport_module(g: Gen, s: Seq<Stmt>) -> Option<Seq<char>> {
    let m = meaningful_stmts(g, s);
    if 2 <= m.len() <= 8 && any_evaluates(m, "keys"@) && any_evaluates(m, "forEach"@) {
        match source_module(g, m) {
            Some(module) => Some(export_all(module)),
            None => None,
        }
    } else {
        None
    }
}

fn read_getter(rendered: &str) -> (r: Option<String>)
    ensures
        text::opt(r) == getter_value(rendered@),
{
    let t = text::trim(rendered);
    let n: usize = t.as_str().unicode_len();
    proof {
        reveal_strlit("(");
    }
    if text::starts_with(&t, "(") && text::contains(&text::slice(&t, 1, n), "=> ") {
        return match text::split_once(&t, "=> ") {
            Some(p) => Some(p.1),
            None => None,
        };
    }
    match text::split_once(&t, "return ") {
        Some(p) => match text::split_once(&p.1, ";") {
            Some(q) => Some(text::trim(&q.0)),
            None => {
                let inner = text::trim(&text::strip_end(&text::trim(&p.1), "}"));
                let val = text::trim(&text::strip_end(&inner, "\n"));
                if val.as_str().is_empty() {
                    None
                } else {
                    Some(val)
                }
            },
        },
        None => None,
    }
}

fn name_of_operand(e: &Expression) -> (r: Option<String>)
    ensures
        text::opt(r) == operand_name(e@),
{
    match e {
        Expression::Value(Value::Variable(n)) => Some(n.clone()),
        Expression::Value(Value::Register(r)) => Some(names::name_of_register(*r)),
        _ => None,
    }
}

fn first_of(d: &DescriptorInfo) -> (r: Option<String>)
    ensures
        text::opt(r) == getter_or_value(d@),
{
    match &d.getter_return {
        Some(v) => Some(v.clone()),
        None => match &d.value_prop {
            Some(v) => Some(v.clone()),
            None => None,
        },
    }
}

/// The expression that a statement evaluates.
pub fn as_evaluated(s: &Statement) -> (r: Option<&Expression>)
    ensures
        match r {
            Some(e) => evaluated(s@) == Some(e@),
            None => evaluated(s@) is None,
        },
{
    match s {
        Statement::Assign { value, .. } => Some(value),
        Statement::Let { value, .. } => Some(value),
        Statement::Expr(e) => Some(e),
        _ => None,
    }
}

fn is_method_call(e: &Expression, method: &str) -> (r: bool)
    ensures
        r == calls_method(e@, method@),
{
    proof {
        reveal_with_fuel(Expression::view, 3);
        reveal_with_fuel(PropertyKey::view, 3);
    }
    if let Expression::Call { callee, .. } = e {
        if let Expression::Member { property: PropertyKey::Ident(n), .. } = &**callee {
            return text::same(n, method);
        }
    }
    false
}

/// Whether an expression is `Object.keys(X)` or `X.keys(X)`.
pub fn is_object_keys_call(e: &Expression) -> (r: bool)
    ensures
        r == calls_method(e@, "keys"@),
{
    is_method_call(e, "keys")
}

/// Whether an expression is `X.forEach(callback)`.
pub fn is_foreach_call(e: &Expression) -> (r: bool)
    ensures
        r == calls_method(e@, "forEach"@),
{
    is_method_call(e, "forEach")
}

/// The variable whose keys are listed.
pub fn extract_object_keys_source(e: &Expression) -> (r: Option<String>)
    ensures
        text::opt(r) == keys_source(e@),
{
    if let Expression::Call { arguments, .. } = e {
        let from: usize = first_effective(arguments);
        if is_object_keys_call(e) && from < arguments.len() {
            assert(resolve::effective(model::exprs(arguments@))[0] == arguments@[from as int]@);
            if let Expression::Value(Value::Variable(n)) = &arguments[from] {
                return Some(n.clone());
            }
        }
    }
    None
}

/// Whether an expression is `VAR.forEach(callback)` for the given variable.
pub fn is_foreach_on_var(e: &Expression, var_name: &str) -> (r: bool)
    ensures
        r == foreach_on(e@, var_name@),
{
    proof {
        reveal_with_fuel(Expression::view, 4);
        reveal_with_fuel(PropertyKey::view, 3);
    }
    if let Expression::Call { callee, .. } = e {
        if let Expression::Member { object, property: PropertyKey::Ident(n), .. } = &**callee {
            if text::same(n, "forEach") {
                if let Expression::Value(Value::Variable(v)) = &**object {
                    return text::same(v, var_name);
                }
            }
        }
    }
    false
}

fn evaluates_any(v: &Vec<&Statement>, method: &str) -> (r: bool)
    ensures
        r == any_evaluates(Seq::new(v@.len(), |i: int| v@[i]@), method@),
{
    let ghost all = Seq::new(v@.len(), |i: int| v@[i]@);
    let mut i: usize = 0;
    while i < v.len()
        invariant
            i <= v.len(),
            all == Seq::new(v@.len(), |i: int| v@[i]@),
            forall|k: int| 0 <= k < i ==> !evaluates_method(#[trigger] all[k], method@),
        decreases v.len() - i,
    {
        assert(all[i as int] == v@[i as int]@);
        if let Some(e) = as_evaluated(v[i]) {
            if is_method_call(e, method) {
                return true;
            }
        }
        i += 1;
    }
    false
}

impl Codegen {
    fn descriptor_step(&self, d: DescriptorInfo, p: &ObjectProperty) -> (r: DescriptorInfo)
        ensures
            r@ == desc_step(self@, d@, p@),
    {
        let key = match &p.key {
            PropertyKey::Ident(k) => k,
            PropertyKey::String(k) => k,
            _ => return d,
        };
        if text::same(key, "get") {
            if let Expression::Function { id, .. } = &p.value {
                if let Some(rendered) = lookup_name(&self.inline_bodies, id.0) {
                    if let Some(v) = read_getter(&rendered) {
                        return DescriptorInfo { getter_return: Some(v), value_prop: d.value_prop };
                    }
                }
            }
            d
        } else if text::same(key, "value") {
            DescriptorInfo {
                getter_return: d.getter_return,
                value_prop: Some(self.generate_expr(&p.value)),
            }
        } else {
            d
        }
    }

    /// The descriptor that an object literal is.
    pub fn extract_descriptor_info(&self, e: &Expression) -> (r: Option<DescriptorInfo>)
        ensures
            match r {
                Some(d) => descriptor_of(self@, e@) == Some(d@),
                None => descriptor_of(self@, e@) is None,
            },
    {
        let properties = match e {
            Expression::Object { properties } => properties,
            _ => return None,
        };
        let ghost all = model::props(properties@);
        let mut d = DescriptorInfo { getter_return: None, value_prop: None };
        let mut i: usize = 0;
        assert(all.take(0) =~= Seq::empty());
        while i < properties.len()
            invariant
                i <= properties.len(),
                all == model::props(properties@),
                d@ == desc_fold(self@, all.take(i as int)),
            decreases properties.len() - i,
        {
            assert(all.take(i + 1).drop_last() =~= all.take(i as int));
            d = self.descriptor_step(d, &properties[i]);
            i += 1;
        }
        assert(all.take(all.len() as int) =~= all);
        if d.getter_return.is_some() || d.value_prop.is_some() {
            Some(d)
        } else {
            None
        }
    }

    /// The value that a descriptor gives.
    pub fn resolve_descriptor_value(
        &self,
        descriptor: &Expression,
        descriptor_vars: &Dict<DescriptorInfo>,
    ) -> (r: Option<String>)
        ensures
            text::opt(r) == descriptor_value(self@, descriptor@, desc_map(descriptor_vars@)),
    {
        if let Some(n) = name_of_operand(descriptor) {
            return match descriptor_vars.get(&n) {
                Some(d) => first_of(d),
                None => None,
            };
        }
        match self.extract_descriptor_info(descriptor) {
            Some(d) => first_of(&d),
            None => None,
        }
    }

    /// The variable that holds the descriptor of a property definition on the exports.
    pub fn get_define_property_descriptor_var(&self, e: &Expression) -> (r: Option<String>)
        ensures
            text::opt(r) == descriptor_var(self@, e@),
    {
        match self.find_define_on_exports(e) {
            Some(k) => if let Expression::Call { arguments, .. } = e {
                if let Expression::Value(Value::Constant(Constant::String(s))) = &arguments[k] {
                    if text::same(s, "__esModule") {
                        return None;
                    }
                }
                name_of_operand(&arguments[k + 1])
            } else {
                None
            },
            None => None,
        }
    }

    fn is_meaningful(&self, s: &Statement) -> (r: bool)
        ensures
            r == meaningful(self@, s@),
    {
        let noise: bool = match s {
            Statement::Return(None) => true,
            Statement::Return(Some(e)) => is_undefined_expr(e),
            Statement::Comment(_) => true,
            _ => false,
        };
        !noise && !self.is_esmodule_boilerplate_stmt(s) && !is_interop_default_check(s)
    }

    fn find_source(&self, v: &Vec<&Statement>) -> (r: Option<String>)
        ensures
            text::opt(r) == source_module(self@, Seq::new(v@.len(), |i: int| v@[i]@)),
    {
        let ghost all = Seq::new(v@.len(), |i: int| v@[i]@);
        let mut found: Option<String> = None;
        let mut i: usize = 0;
        assert(all.take(0) =~= Seq::empty());
        while i < v.len()
            invariant
                i <= v.len(),
                all == Seq::new(v@.len(), |i: int| v@[i]@),
                text::opt(found) == source_module(self@, all.take(i as int)),
            decreases v.len() - i,
        {
            assert(all.take(i + 1).drop_last() =~= all.take(i as int));
            if let Some((_, value)) = as_binding(v[i]) {
                if let Some(m) = self.resolve_require_module(value) {
                    found = Some(m);
                } else if found.is_none() {
                    if let Some((m, _)) = self.resolve_wrapped_module(value) {
                        found = Some(m);
                    }
                }
            }
            i += 1;
        }
        assert(all.take(all.len() as int) =~= all);
        found
    }

    /// The line that a module becomes which only re-exports another one.
    pub fn detect_reexport_module(&self, statements: &Vec<Statement>) -> (r: Option<String>)
        ensures
            text::opt(r) == reexport_module(self@, model::stmts(statements@)),
    {
        let ghost all = model::stmts(statements@);
        let ghost keep = |x: Stmt| meaningful(self@, x);
        let mut kept: Vec<&Statement> = Vec::new();
        let mut i: usize = 0;
        assert(all.take(0).filter(keep) =~= Seq::empty()) by {
            reveal(Seq::filter);
        }
        while i < statements.len()
            invariant
                i <= statements.len(),
                all == model::stmts(statements@),
                keep == (|x: Stmt| meaningful(self@, x)),
                Seq::new(kept@.len(), |i: int| kept@[i]@) == all.take(i as int).filter(keep),
            decreases statements.len() - i,
        {
            proof {
                reveal(Seq::filter);
                assert(all.take(i + 1).drop_last() =~= all.take(i as int));
            }
            let ghost before = kept@;
            if self.is_meaningful(&statements[i]) {
                kept.push(&statements[i]);
                assert(Seq::new(kept@.len(), |i: int| kept@[i]@) =~= Seq::new(
                    before.len(),
                    |i: int| before[i]@,
                ).push(all[i as int]));
            }
            i += 1;
        }
        assert(all.take(all.len() as int) =~= all);
        if kept.len() < 2 || kept.len() > 8 || !evaluates_any(&kept, "keys") || !evaluates_any(
            &kept,
            "forEach",
        ) {
            return None;
        }
        match self.find_source(&kept) {
            Some(m) => Some(text::concat3("export * from \"", &m, "\";")),
            None => None,
        }
    }
}

} // verus!
