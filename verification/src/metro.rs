//! Metro modules: the registry of a bundle, and the names a factory gives its parameters.

use crate::text;
use std::collections::BTreeMap;
use vstd::prelude::*;

verus! {

/// One module of a bundle.
pub struct MetroModule {
    pub module_id: u32,
    pub function_id: u32,
    pub name: Option<String>,
    pub dependencies: Vec<u32>,
}

/// The modules of a bundle.
pub struct MetroRegistry {
    /// Factory function -> module id.
    pub function_to_module: BTreeMap<u32, u32>,
    /// Factory function -> its module.
    pub factories: BTreeMap<u32, MetroModule>,
    /// Module id -> module.
    pub modules: BTreeMap<u32, MetroModule>,
}

/// What the passes read of a bundle's modules.
#[verifier::ext_equal]
pub struct Bundle {
    /// Factory function -> module id.
    pub factories: Map<u32, u32>,
    /// Module id -> its name.
    pub names: Map<u32, Option<Seq<char>>>,
    /// Module id -> the modules it depends on.
    pub deps: Map<u32, Seq<u32>>,
}

impl MetroRegistry {
    pub open spec fn view(&self) -> Bundle {
        Bundle {
            factories: self.function_to_module@,
            names: self.modules@.map_values(|m: MetroModule| text::opt(m.name)),
            deps: self.modules@.map_values(|m: MetroModule| m.dependencies@),
        }
    }

    pub fn new() -> (r: MetroRegistry)
        ensures
            r@ == (Bundle { factories: Map::empty(), names: Map::empty(), deps: Map::empty() }),
    {
        let r = MetroRegistry {
            function_to_module: BTreeMap::new(),
            factories: BTreeMap::new(),
            modules: BTreeMap::new(),
        };
        assert(r@.names =~= Map::empty());
        assert(r@.deps =~= Map::empty());
        r
    }

    /// The module whose factory a function is.
    pub fn get_module_for_function(&self, function: u32) -> (r: Option<&MetroModule>)
        ensures
            match r {
                Some(m) => self.function_to_module@.dom().contains(function)
                    && self.modules@.dom().contains(self.function_to_module@[function]) && *m
                    == self.modules@[self.function_to_module@[function]],
                None => !(self.function_to_module@.dom().contains(function)
                    && self.modules@.dom().contains(self.function_to_module@[function])),
            },
    {
        broadcast use vstd::std_specs::btree::group_btree_axioms;

        match self.function_to_module.get(&function) {
            Some(id) => self.modules.get(id),
            None => None,
        }
    }
}

/// The names of the loader parameter.
pub open spec fn require_name(s: Seq<char>) -> bool {
    s == "require"@ || s == "arg1"@ || s == "p1"@
}

/// The names of the `exports` parameter.
pub open spec fn exports_name(s: Seq<char>) -> bool {
    s == "exports"@ || s == "arg3"@ || s == "p3"@
}

/// The names of the `module` parameter.
pub open spec fn module_param_name(s: Seq<char>) -> bool {
    s == "module"@ || s == "arg2"@ || s == "p2"@
}

pub fn is_require_name(s: &str) -> (r: bool)
    ensures
        r == require_name(s@),
{
    text::same(s, "require") || text::same(s, "arg1") || text::same(s, "p1")
}

pub fn is_exports_name(s: &str) -> (r: bool)
    ensures
        r == exports_name(s@),
{
    text::same(s, "exports") || text::same(s, "arg3") || text::same(s, "p3")
}

pub fn is_module_name(s: &str) -> (r: bool)
    ensures
        r == module_param_name(s@),
{
    text::same(s, "module") || text::same(s, "arg2") || text::same(s, "p2")
}

/// A module name that says nothing: `module_` and a number.
pub open spec fn generic_specifier(s: Seq<char>) -> bool {
    match text::after_prefix(s, "module_"@) {
        Some(rest) => rest.len() > 0 && text::all_digits(rest),
        None => false,
    }
}

pub fn is_generic_module_specifier(s: &str) -> (r: bool)
    ensures
        r == generic_specifier(s@),
{
    match text::strip_prefix(s, "module_") {
        Some(rest) => !rest.as_str().is_empty() && text::is_all_digits(&rest),
        None => false,
    }
}

} // verus!
