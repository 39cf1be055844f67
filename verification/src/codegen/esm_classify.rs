//! What a statement becomes in an ES module: an import, an export, body code, or nothing.

use super::esm_boilerplate;
use super::esm_boilerplate::{is_global_alias_def, is_interop_wrapper_def};
use super::esm_descriptors;
use super::esm_descriptors::{Desc, DescriptorInfo};
use super::esm_patterns;
use super::expr_gen;
use super::expr_gen::format_call;
use super::resolve::is_undefined_expr;
use super::words::sanitize_import_name;
use super::{resolve, words, Codegen, Gen};
use crate::dict::{Dict, NameSet};
use crate::ir::model;
use crate::ir::model::{Expr, Stmt, Target};
use crate::ir::{AssignTarget, Expression, Statement};
use crate::metro;
use crate::names;
use crate::text;
use vstd::prelude::*;

verus! {

/// What a statement becomes in an ES module.
pub enum EsmClassification {
    /// An import line.
    Import(String),
    /// An export line.
    Export(String),
    /// An import line and an export line.
    ImportAndExport(String, String),
    /// An import line and a body line that binds it to a local name. It is for a name that the
    /// module writes again, since an import binding cannot be assigned to.
    ImportAndBody(String, String),
    /// Boilerplate that is left out.
    Skip,
    /// Code of the module body.
    Body,
}

/// The mathematical model of an [`EsmClassification`].
#[verifier::ext_equal]
pub enum Class {
    Import(Seq<char>),
    Export(Seq<char>),
    ImportAndExport(Seq<char>, Seq<char>),
    ImportAndBody(Seq<char>, Seq<char>),
    Skip,
    Body,
}

impl EsmClassification {
    pub open spec fn view(&self) -> Class {
        match self {
            EsmClassification::Import(a) => Class::Import(a@),
            EsmClassification::Export(a) => Class::Export(a@),
            EsmClassification::ImportAndExport(a, b) => Class::ImportAndExport(a@, b@),
            EsmClassification::ImportAndBody(a, b) => Class::ImportAndBody(a@, b@),
            EsmClassification::Skip => Class::Skip,
            EsmClassification::Body => Class::Body,
        }
    }
}

pub open spec fn opt_class(o: Option<EsmClassification>) -> Option<Class> {
    match o {
        Some(c) => Some(c@),
        None => None,
    }
}

/// The import for `name = value`. Where the module writes the name again, the import takes a
/// name of its own and the body binds the first name to it.
pub open spec fn import_class(
    g: Gen,
    name: Seq<char>,
    value: Expr,
    rebound: Set<Seq<char>>,
) -> Option<Class> {
    if !rebound.contains(name) {
        match esm_patterns::import_of(g, name, value) {
            Some(line) => Some(Class::Import(line)),
            None => None,
        }
    } else {
        let local = names::sanitized(name);
        let alias = local + "_mod"@;
        if local.len() == 0 {
            None
        } else {
            match esm_patterns::import_of(g, alias, value) {
                Some(line) => Some(
                    Class::ImportAndBody(line, "let "@ + local + " = "@ + alias + ";\n"@),
                ),
                None => None,
            }
        }
    }
}

/// The export of a module's default value. A loaded module, or a property of one, is
/// re-exported; a call of one is imported first.
pub open spec fn default_export(g: Gen, value: Expr) -> Class {
    let plain = Class::Export("export default "@ + expr_gen::expr_text(g, value) + ";"@);
    match esm_boilerplate::loaded_name(g, value) {
        Some(m) => Class::Export("export { default } from \""@ + m + "\";"@),
        None => match value {
            Expr::Member { object, property, .. } => match esm_boilerplate::loaded_name(
                g,
                *object,
            ) {
                Some(m) => Class::Export(
                    "export { "@ + esm_patterns::key_name(g, property) + " as default } from \""@
                        + m + "\";"@,
                ),
                None => plain,
            },
            Expr::Call { callee, arguments } => match esm_boilerplate::loaded_name(g, *callee) {
                Some(m) => {
                    let name = words::import_name(m);
                    if name.len() == 0 {
                        plain
                    } else {
                        Class::ImportAndExport(
                            "import "@ + name + " from \""@ + m + "\";"@,
                            "export default "@ + expr_gen::plain_call(
                                name,
                                None,
                                arguments,
                                expr_gen::exprs_text(g, arguments),
                                Seq::empty(),
                            ) + ";"@,
                        )
                    }
                },
                None => plain,
            },
            _ => plain,
        },
    }
}

/// The export under a name.
pub open spec fn named_export(g: Gen, property: Seq<char>, value: Expr) -> Seq<char> {
    let val = expr_gen::expr_text(g, value);
    if val == property {
        "export { "@ + property + " };"@
    } else if value matches Expr::Function { name, is_arrow, .. } && !is_arrow && name == Some(
        property,
    ) {
        "export "@ + val
    } else {
        "export const "@ + property + " = "@ + val + ";"@
    }
}

/// What an assignment to the property `property` of `object` becomes, where the object is the
/// exports or the module.
pub open spec fn member_class(
    g: Gen,
    object: Seq<char>,
    property: Seq<char>,
    value: Expr,
) -> Option<Class> {
    if metro::exports_name(object) {
        if resolve::undefined_expr(value) || property == "__esModule"@ {
            Some(Class::Skip)
        } else if property == "default"@ {
            Some(default_export(g, value))
        } else if property == "exports"@ {
            Some(Class::Export("export default "@ + expr_gen::expr_text(g, value) + ";"@))
        } else {
            Some(Class::Export(named_export(g, property, value)))
        }
    } else if metro::module_param_name(object) && property == "exports"@ {
        Some(default_export(g, value))
    } else if text::has_suffix(object, ".exports"@) && property == "__esModule"@ {
        Some(Class::Skip)
    } else if text::has_suffix(object, ".exports"@) && property == "default"@ && (text::has_suffix(
        expr_gen::expr_text(g, value),
        ".exports"@,
    ) || expr_gen::expr_text(g, value) == "module.exports"@) {
        Some(Class::Skip)
    } else {
        None
    }
}

/// What a statement becomes in an ES module.
pub open spec fn classified(g: Gen, s: Stmt, rebound: Set<Seq<char>>) -> Class {
    match s {
        Stmt::Return(None) => Class::Skip,
        Stmt::Return(Some(e)) => if resolve::undefined_expr(e) {
            Class::Skip
        } else {
            Class::Body
        },
        Stmt::Let { name, value, .. } => match import_class(g, name, value, rebound) {
            Some(c) => c,
            None => if esm_boilerplate::interop_wrapper(value) || esm_boilerplate::global_alias(
                name,
                value,
            ) || esm_boilerplate::esmodule_mark(g, value) {
                Class::Skip
            } else {
                Class::Body
            },
        },
        Stmt::Assign { target, value } => {
            let imported = match target {
                Target::Variable(name) => import_class(g, name, value, rebound),
                _ => None,
            };
            let exported = match target {
                Target::Member { object, property } => member_class(
                    g,
                    expr_gen::expr_text(g, object),
                    property,
                    value,
                ),
                _ => None,
            };
            if imported is Some {
                imported->0
            } else if esm_boilerplate::interop_wrapper(value) {
                Class::Skip
            } else if exported is Some {
                exported->0
            } else if esm_boilerplate::esmodule_mark(g, value) {
                Class::Skip
            } else {
                Class::Body
            }
        },
        Stmt::Expr(e) => if esm_boilerplate::esmodule_mark(g, e) {
            Class::Skip
        } else {
            match esm_patterns::side_effect_import(g, e) {
                Some(line) => Class::Import(line),
                None => Class::Body,
            }
        },
        _ => Class::Body,
    }
}

/// What a statement becomes, with property definitions on the exports resolved first.
pub open spec fn classified_with(
    g: Gen,
    s: Stmt,
    vars: Map<Seq<char>, Desc>,
    rebound: Set<Seq<char>>,
) -> Class {
    match s {
        Stmt::Expr(e) => if esm_boilerplate::esmodule_mark(g, e) {
            Class::Skip
        } else {
            match esm_patterns::defined_export(g, e, vars) {
                Some(line) => Class::Export(line),
                None => classified(g, s, rebound),
            }
        },
        _ => classified(g, s, rebound),
    }
}

impl Codegen {
    /// The import for a definition, kept valid where the module writes the name again.
    pub fn import_classification(
        &self,
        name: &str,
        value: &Expression,
        rebound: &NameSet,
    ) -> (r: Option<EsmClassification>)
        ensures
            opt_class(r) == import_class(self@, name@, value@, rebound@),
    {
        if !rebound.contains(name) {
            return match self.try_import_from_expr(name, value) {
                Some(line) => Some(EsmClassification::Import(line)),
                None => None,
            };
        }
        let local = names::sanitize_identifier(name);
        if local.as_str().is_empty() {
            return None;
        }
        let alias = text::concat2(&local, "_mod");
        match self.try_import_from_expr(&alias, value) {
            Some(line) => Some(
                EsmClassification::ImportAndBody(
                    line,
                    text::concat5("let ", &local, " = ", &alias, ";\n"),
                ),
            ),
            None => None,
        }
    }

    fn export_default(&self, value: &Expression) -> (r: EsmClassification)
        ensures
            r@ == default_export(self@, value@),
    {
        if let Some(m) = self.resolve_require_module(value) {
            return EsmClassification::Export(text::concat3("export { default } from \"", &m, "\";"));
        }
        match value {
            Expression::Member { object, property, .. } => {
                if let Some(m) = self.resolve_require_module(object) {
                    let prop = self.format_key(property);
                    return EsmClassification::Export(
                        text::concat5("export { ", &prop, " as default } from \"", &m, "\";"),
                    );
                }
            },
            Expression::Call { callee, arguments } => {
                if let Some(m) = self.resolve_require_module(callee) {
                    let name = sanitize_import_name(&m);
                    if !name.as_str().is_empty() {
                        let args = self.generate_exprs(arguments);
                        proof {
                            reveal_strlit("");
                            assert(""@ =~= Seq::<char>::empty());
                        }
                        let call = format_call(&name, None, arguments, &args, "");
                        return EsmClassification::ImportAndExport(
                            text::concat5("import ", &name, " from \"", &m, "\";"),
                            text::concat3("export default ", &call, ";"),
                        );
                    }
                }
            },
            _ => {},
        }
        EsmClassification::Export(
            text::concat3("export default ", &self.generate_expr(value), ";"),
        )
    }

    fn export_named(&self, property: &str, value: &Expression) -> (r: String)
        ensures
            r@ == named_export(self@, property@, value@),
    {
        let val = self.generate_expr(value);
        if text::same(&val, property) {
            return text::concat3("export { ", property, " };");
        }
        if let Expression::Function { name: Some(n), is_arrow: false, .. } = value {
            if text::same(n, property) {
                return text::concat2("export ", &val);
            }
        }
        text::concat5("export const ", property, " = ", &val, ";")
    }

    fn classify_member(
        &self,
        object: &str,
        property: &str,
        value: &Expression,
    ) -> (r: Option<EsmClassification>)
        ensures
            opt_class(r) == member_class(self@, object@, property@, value@),
    {
        if metro::is_exports_name(object) {
            if is_undefined_expr(value) || text::same(property, "__esModule") {
                return Some(EsmClassification::Skip);
            }
            if text::same(property, "default") {
                return Some(self.export_default(value));
            }
            if text::same(property, "exports") {
                return Some(
                    EsmClassification::Export(
                        text::concat3("export default ", &self.generate_expr(value), ";"),
                    ),
                );
            }
            return Some(EsmClassification::Export(self.export_named(property, value)));
        }
        if metro::is_module_name(object) && text::same(property, "exports") {
            return Some(self.export_default(value));
        }
        if text::ends_with(object, ".exports") {
            if text::same(property, "__esModule") {
                return Some(EsmClassification::Skip);
            }
            if text::same(property, "default") {
                let val = self.generate_expr(value);
                if text::ends_with(&val, ".exports") || text::same(&val, "module.exports") {
                    return Some(EsmClassification::Skip);
                }
            }
        }
        None
    }

    /// What a statement becomes in an ES module.
    pub fn classify_esm_stmt(&self, s: &Statement, rebound: &NameSet) -> (r: EsmClassification)
        ensures
            r@ == classified(self@, s@, rebound@),
    {
        match s {
            Statement::Return(None) => EsmClassification::Skip,
            Statement::Return(Some(e)) => if is_undefined_expr(e) {
                EsmClassification::Skip
            } else {
                EsmClassification::Body
            },
            Statement::Let { name, value, .. } => {
                if let Some(c) = self.import_classification(name, value, rebound) {
                    return c;
                }
                if is_interop_wrapper_def(value) || is_global_alias_def(name, value)
                    || self.is_esmodule_boilerplate_expr(value) {
                    EsmClassification::Skip
                } else {
                    EsmClassification::Body
                }
            },
            Statement::Assign { target, value } => {
                if let AssignTarget::Variable(name) = target {
                    if let Some(c) = self.import_classification(name, value, rebound) {
                        return c;
                    }
                }
                if is_interop_wrapper_def(value) {
                    return EsmClassification::Skip;
                }
                if let AssignTarget::Member { object, property } = target {
                    let obj = self.generate_expr(object);
                    if let Some(c) = self.classify_member(&obj, property, value) {
                        return c;
                    }
                }
                if self.is_esmodule_boilerplate_expr(value) {
                    EsmClassification::Skip
                } else {
                    EsmClassification::Body
                }
            },
            Statement::Expr(e) => {
                if self.is_esmodule_boilerplate_expr(e) {
                    return EsmClassification::Skip;
                }
                match self.try_side_effect_import(e) {
                    Some(line) => EsmClassification::Import(line),
                    None => EsmClassification::Body,
                }
            },
            _ => EsmClassification::Body,
        }
    }

    /// What a statement becomes, with property definitions on the exports resolved first.
    pub fn classify_esm_stmt_with_descriptors(
        &self,
        s: &Statement,
        descriptor_vars: &Dict<DescriptorInfo>,
        rebound: &NameSet,
    ) -> (r: EsmClassification)
        ensures
            r@ == classified_with(
                self@,
                s@,
                esm_descriptors::desc_map(descriptor_vars@),
                rebound@,
            ),
    {
        if let Statement::Expr(e) = s {
            if self.is_esmodule_boilerplate_expr(e) {
                return EsmClassification::Skip;
            }
            if let Some(line) = self.try_define_property_export_with_descriptors(
                e,
                descriptor_vars,
            ) {
                return EsmClassification::Export(line);
            }
        }
        self.classify_esm_stmt(s, rebound)
    }
}

/// A name that the module writes again is never bound by an import under that name alone: where
/// it becomes an import at all, the import is accompanied by a local binding.
pub proof fn lemma_rebound_name_keeps_a_local(
    g: Gen,
    name: Seq<char>,
    value: Expr,
    rebound: Set<Seq<char>>,
)
    requires
        rebound.contains(name),
    ensures
        import_class(g, name, value, rebound) matches Some(c) ==> c is ImportAndBody,
{
}

} // verus!
