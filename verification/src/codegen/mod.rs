//! JavaScript source text of statements, expressions and whole modules.

pub mod esm_boilerplate;
pub mod esm_class_laws;
pub mod esm_classify;
pub mod esm_descriptors;
pub mod esm_gen;
pub mod esm_imports;
pub mod esm_laws;
pub mod esm_lines;
pub mod esm_load_laws;
pub mod esm_names;
pub mod esm_patterns;
pub mod esm_pieces;
pub mod esm_promote;
pub mod esm_specifiers;
pub mod expr_gen;
pub mod grammar;
pub mod grammar_laws;
pub mod literal_laws;
pub mod resolve;
pub mod stmt_gen;
pub mod stmt_grammar;
pub mod words;

use crate::names;
use crate::text;
use std::collections::BTreeMap;
use std::sync::Arc;
use vstd::prelude::*;

verus! {

/// Options for code generation.
#[derive(Debug)]
pub struct CodegenOptions {
    /// Indentation string.
    pub indent: String,
    /// Write block labels as comments.
    pub include_labels: bool,
}

impl Default for CodegenOptions {
    fn default() -> (r: Self)
        ensures
            r.indent@ == "  "@,
            !r.include_labels,
    {
        CodegenOptions { indent: "  ".to_owned(), include_labels: false }
    }
}

impl CodegenOptions {
    pub fn new() -> (r: Self)
        ensures
            r.indent@ == "  "@,
            !r.include_labels,
    {
        CodegenOptions { indent: "  ".to_owned(), include_labels: false }
    }
}

/// Code generator.
pub struct Codegen {
    pub options: CodegenOptions,
    pub indent_level: usize,
    /// Absolute module id -> module name.
    pub import_map: Option<BTreeMap<u32, String>>,
    /// Whether module factories are written as ES modules.
    pub esm_mode: bool,
    /// Dependency index -> module name.
    pub dep_names: Option<BTreeMap<u32, String>>,
    /// Dependency index -> absolute module id.
    pub dep_ids: Option<BTreeMap<u32, u32>>,
    /// Function id -> the function's rendered text.
    pub inline_bodies: Arc<BTreeMap<u32, String>>,
}

/// The mathematical model of a [`Codegen`].
#[verifier::ext_equal]
pub struct Gen {
    pub indent: Seq<char>,
    pub level: nat,
    pub imports: Option<Map<u32, Seq<char>>>,
    pub esm: bool,
    pub dep_names: Option<Map<u32, Seq<char>>>,
    pub dep_ids: Option<Map<u32, u32>>,
    pub bodies: Map<u32, Seq<char>>,
}

/// A map of names, by their characters.
pub open spec fn name_map(m: Map<u32, String>) -> Map<u32, Seq<char>> {
    m.map_values(|s: String| s@)
}

pub open spec fn opt_name_map(m: Option<BTreeMap<u32, String>>) -> Option<Map<u32, Seq<char>>> {
    match m {
        Some(m) => Some(name_map(m@)),
        None => None,
    }
}

pub open spec fn opt_id_map(m: Option<BTreeMap<u32, u32>>) -> Option<Map<u32, u32>> {
    match m {
        Some(m) => Some(m@),
        None => None,
    }
}

impl Codegen {
    pub open spec fn view(&self) -> Gen {
        Gen {
            indent: self.options.indent@,
            level: self.indent_level as nat,
            imports: opt_name_map(self.import_map),
            esm: self.esm_mode,
            dep_names: opt_name_map(self.dep_names),
            dep_ids: opt_id_map(self.dep_ids),
            bodies: name_map(self.inline_bodies@),
        }
    }

    pub fn new(options: CodegenOptions) -> (r: Self)
        ensures
            r@ == (Gen {
                indent: options.indent@,
                level: 0,
                imports: None,
                esm: false,
                dep_names: None,
                dep_ids: None,
                bodies: Map::empty(),
            }),
            r.options == options,
    {
        let r = Codegen {
            options,
            indent_level: 0,
            import_map: None,
            esm_mode: false,
            dep_names: None,
            dep_ids: None,
            inline_bodies: Arc::new(BTreeMap::new()),
        };
        assert(r@.bodies =~= Map::<u32, Seq<char>>::empty());
        r
    }

    pub fn with_imports(self, imports: BTreeMap<u32, String>) -> (r: Self)
        ensures
            r@ == (Gen { imports: Some(name_map(imports@)), ..self@ }),
            r.options == self.options,
    {
        Codegen {
            options: self.options,
            indent_level: self.indent_level,
            import_map: Some(imports),
            esm_mode: self.esm_mode,
            dep_names: self.dep_names,
            dep_ids: self.dep_ids,
            inline_bodies: self.inline_bodies,
        }
    }

    pub fn with_esm_mode(self, dep_names: BTreeMap<u32, String>) -> (r: Self)
        ensures
            r@ == (Gen { esm: true, dep_names: Some(name_map(dep_names@)), ..self@ }),
            r.options == self.options,
    {
        Codegen {
            options: self.options,
            indent_level: self.indent_level,
            import_map: self.import_map,
            esm_mode: true,
            dep_names: Some(dep_names),
            dep_ids: self.dep_ids,
            inline_bodies: self.inline_bodies,
        }
    }

    /// Gives the map from dependency index to absolute module id, so that an import can carry
    /// the module id as a comment.
    pub fn with_esm_module_meta(self, dep_ids: BTreeMap<u32, u32>) -> (r: Self)
        ensures
            r@ == (Gen { dep_ids: Some(dep_ids@), ..self@ }),
            r.options == self.options,
    {
        Codegen {
            options: self.options,
            indent_level: self.indent_level,
            import_map: self.import_map,
            esm_mode: self.esm_mode,
            dep_names: self.dep_names,
            dep_ids: Some(dep_ids),
            inline_bodies: self.inline_bodies,
        }
    }

    pub fn with_inline_bodies(self, bodies: Arc<BTreeMap<u32, String>>) -> (r: Self)
        ensures
            r@ == (Gen { bodies: name_map(bodies@), ..self@ }),
            r.options == self.options,
    {
        Codegen {
            options: self.options,
            indent_level: self.indent_level,
            import_map: self.import_map,
            esm_mode: self.esm_mode,
            dep_names: self.dep_names,
            dep_ids: self.dep_ids,
            inline_bodies: bodies,
        }
    }

    pub fn current_indent(&self) -> (r: String)
        ensures
            r@ == text::repeated(self@.indent, self@.level),
    {
        text::repeat(&self.options.indent, self.indent_level)
    }
}

/// The value under a key, in a model of a map of names.
pub open spec fn named(m: Map<u32, Seq<char>>, id: u32) -> Option<Seq<char>> {
    if m.dom().contains(id) {
        Some(m[id])
    } else {
        None
    }
}

pub fn lookup_name(m: &BTreeMap<u32, String>, id: u32) -> (r: Option<String>)
    ensures
        text::opt(r) == named(name_map(m@), id),
{
    match m.get(&id) {
        Some(s) => Some(s.clone()),
        None => None,
    }
}

} // verus!
