//! The loaders of a Metro module, and the names they reserve.

use crate::text;
use vstd::prelude::*;

verus! {

/// Which Metro loader performed a call. They are kept apart, so that `require(N)` and
/// `importDefault(N)` never share a binding.
#[derive(Debug, Clone, Copy, PartialEq, Eq, Structural)]
pub enum LoaderKind {
    Require,
    ImportDefault,
    ImportAll,
}

impl LoaderKind {
    /// The loader of a given name.
    pub open spec fn seed(name: Seq<char>) -> Option<LoaderKind> {
        if name == "require"@ {
            Some(LoaderKind::Require)
        } else if name == "importDefault"@ {
            Some(LoaderKind::ImportDefault)
        } else if name == "importAll"@ {
            Some(LoaderKind::ImportAll)
        } else {
            None
        }
    }

    pub fn from_seed(name: &str) -> (r: Option<LoaderKind>)
        ensures
            r == LoaderKind::seed(name@),
    {
        if text::same(name, "require") {
            Some(LoaderKind::Require)
        } else if text::same(name, "importDefault") {
            Some(LoaderKind::ImportDefault)
        } else if text::same(name, "importAll") {
            Some(LoaderKind::ImportAll)
        } else {
            None
        }
    }

    /// The place of a loader among those of one module.
    pub open spec fn place(self) -> int {
        match self {
            LoaderKind::Require => 0,
            LoaderKind::ImportDefault => 1,
            LoaderKind::ImportAll => 2,
        }
    }

    pub fn order(self) -> (r: u8)
        ensures
            r == self.place(),
    {
        match self {
            LoaderKind::Require => 0,
            LoaderKind::ImportDefault => 1,
            LoaderKind::ImportAll => 2,
        }
    }
}

/// A module and the loader it is loaded with.
#[derive(Debug, Clone, Copy, PartialEq, Eq, Structural)]
pub struct HoistKey {
    pub id: u32,
    pub kind: LoaderKind,
}

/// By module id, then by loader.
pub open spec fn key_before(a: HoistKey, b: HoistKey) -> bool {
    a.id < b.id || (a.id == b.id && a.kind.place() < b.kind.place())
}

pub fn is_key_before(a: HoistKey, b: HoistKey) -> (r: bool)
    ensures
        r == key_before(a, b),
{
    a.id < b.id || (a.id == b.id && a.kind.order() < b.kind.order())
}

/// Names that an injected binding must not take.
pub open spec fn reserved(n: Seq<char>) -> bool {
    ||| n == "require"@
    ||| n == "importDefault"@
    ||| n == "importAll"@
    ||| n == "module"@
    ||| n == "exports"@
    ||| n == "global"@
    ||| n == "dependencyMap"@
    ||| n == "default"@
    ||| n == "undefined"@
    ||| n == "arguments"@
    ||| n == "eval"@
}

pub fn is_reserved_binding(n: &str) -> (r: bool)
    ensures
        r == reserved(n@),
{
    text::same(n, "require") || text::same(n, "importDefault") || text::same(n, "importAll")
        || text::same(n, "module") || text::same(n, "exports") || text::same(n, "global")
        || text::same(n, "dependencyMap") || text::same(n, "default") || text::same(n, "undefined")
        || text::same(n, "arguments") || text::same(n, "eval")
}

} // verus!
