//! The local names that an import line introduces, and the line without them.

use super::esm_imports;
use super::esm_imports::split_commas;
use super::esm_lines;
use super::esm_lines::{alias_of, binding_of_line, module_of_line};
use super::esm_patterns;
use crate::dict::contains_name;
use crate::ir::model;
use crate::names;
use crate::text;
use vstd::prelude::*;

verus! {

/// The specifiers between the braces of an import line, and what follows the closing brace.
pub open spec fn listed(line: Seq<char>) -> Option<(Seq<Seq<char>>, Seq<char>)> {
    match text::after_prefix(line, "import {"@) {
        Some(inner) => match text::cut(inner, "}"@) {
            Some(p) => Some((esm_imports::comma_pieces(p.0), p.1)),
            None => None,
        },
        None => None,
    }
}

/// The local name of a specifier: what it is renamed to, or the name itself.
pub open spec fn local_name(spec: Seq<char>) -> Option<Seq<char>> {
    let b = text::trimmed(esm_lines::last_alias(" "@ + text::trimmed(spec)));
    if names::valid_identifier(b) {
        Some(b)
    } else {
        None
    }
}

/// The local names of specifiers, in order.
pub open spec fn locals(specs: Seq<Seq<char>>) -> Seq<Seq<char>>
    decreases specs.len(),
{
    if specs.len() == 0 {
        Seq::empty()
    } else {
        match local_name(specs.last()) {
            Some(b) => locals(specs.drop_last()).push(b),
            None => locals(specs.drop_last()),
        }
    }
}

/// Every local name that an import line introduces.
pub open spec fn line_bindings(line: Seq<char>) -> Seq<Seq<char>> {
    match listed(line) {
        Some(p) => locals(p.0),
        None => match esm_lines::line_binding(line) {
            Some(b) => seq![b],
            None => Seq::empty(),
        },
    }
}

/// The specifiers of a list, each local name once.
pub open spec fn kept(specs: Seq<Seq<char>>) -> Seq<Seq<char>>
    decreases specs.len(),
{
    if specs.len() == 0 {
        Seq::empty()
    } else {
        let before = kept(specs.drop_last());
        let t = text::trimmed(specs.last());
        match local_name(specs.last()) {
            Some(b) => if locals(specs.drop_last()).contains(b) {
                before
            } else {
                before.push(t)
            },
            None => if t.len() == 0 {
                before
            } else {
                before.push(t)
            },
        }
    }
}

/// A side-effect import of the module that a line names.
pub open spec fn bare(line: Seq<char>) -> Seq<char> {
    match esm_lines::line_module(line) {
        Some(m) => esm_patterns::bare_import(m),
        None => line,
    }
}

/// An import of some specifiers.
pub open spec fn list_line(specs: Seq<Seq<char>>, after: Seq<char>) -> Seq<char> {
    "import { "@ + text::joined(specs, ", "@) + " }"@ + after
}

/// An import line that introduces none of its names twice: a list that does is written again,
/// with the first specifier of each name.
pub open spec fn single(line: Seq<char>) -> Seq<char> {
    match listed(line) {
        Some(p) => if locals(p.0).no_duplicates() {
            line
        } else {
            list_line(kept(p.0), p.1)
        },
        None => line,
    }
}

fn read_list(line: &str) -> (r: Option<(Vec<String>, String)>)
    ensures
        match r {
            Some(p) => listed(line@) == Some((model::texts(p.0@), p.1@)),
            None => listed(line@) is None,
        },
{
    match text::strip_prefix(line, "import {") {
        Some(inner) => match text::split_once(&inner, "}") {
            Some(p) => Some((split_commas(&p.0), p.1)),
            None => None,
        },
        None => None,
    }
}

fn name_of_specifier(spec: &str) -> (r: Option<String>)
    ensures
        text::opt(r) == local_name(spec@),
{
    let b = text::trim(&alias_of(&text::concat2(" ", &text::trim(spec))));
    if names::is_valid_identifier(&b) {
        Some(b)
    } else {
        None
    }
}

fn names_of_specifiers(specs: &Vec<String>) -> (r: Vec<String>)
    ensures
        model::texts(r@) == locals(model::texts(specs@)),
{
    let ghost all = model::texts(specs@);
    let mut out: Vec<String> = Vec::new();
    let mut i: usize = 0;
    assert(model::texts(out@) =~= Seq::empty());
    while i < specs.len()
        invariant
            i <= specs.len(),
            all == model::texts(specs@),
            model::texts(out@) == locals(all.take(i as int)),
        decreases specs.len() - i,
    {
        assert(all.take(i + 1).drop_last() =~= all.take(i as int));
        assert(all[i as int] == specs@[i as int]@);
        let ghost before = out@;
        if let Some(b) = name_of_specifier(&specs[i]) {
            let ghost x = b@;
            out.push(b);
            assert(model::texts(out@) =~= model::texts(before).push(x));
        }
        i += 1;
    }
    assert(all.take(all.len() as int) =~= all);
    out
}

/// Reads every local name that an import line introduces.
pub fn bindings_of_line(line: &str) -> (r: Vec<String>)
    ensures
        model::texts(r@) == line_bindings(line@),
{
    if let Some(p) = read_list(line) {
        return names_of_specifiers(&p.0);
    }
    let mut out: Vec<String> = Vec::new();
    assert(model::texts(out@) =~= Seq::empty());
    if let Some(b) = binding_of_line(line) {
        let ghost x = b@;
        out.push(b);
        assert(model::texts(out@) =~= seq![x]);
    }
    out
}

fn has_repeat(names: &Vec<String>) -> (r: bool)
    ensures
        r == !model::texts(names@).no_duplicates(),
{
    let ghost all = model::texts(names@);
    let mut j: usize = 0;
    while j < names.len()
        invariant
            j <= names.len(),
            all == model::texts(names@),
            forall|a: int, b: int| 0 <= a < b < j ==> all[a] != all[b],
        decreases names.len() - j,
    {
        let mut i: usize = 0;
        assert(all[j as int] == names@[j as int]@);
        while i < j
            invariant
                i <= j < names.len(),
                all == model::texts(names@),
                all[j as int] == names@[j as int]@,
                forall|a: int| 0 <= a < i ==> #[trigger] all[a] != all[j as int],
            decreases j - i,
        {
            assert(all[i as int] == names@[i as int]@);
            if text::same(&names[i], &names[j]) {
                return true;
            }
            i += 1;
        }
        j += 1;
    }
    false
}

fn keep_specifiers(specs: &Vec<String>) -> (r: Vec<String>)
    ensures
        model::texts(r@) == kept(model::texts(specs@)),
{
    let ghost all = model::texts(specs@);
    let mut seen: Vec<String> = Vec::new();
    let mut out: Vec<String> = Vec::new();
    let mut i: usize = 0;
    assert(model::texts(out@) =~= Seq::empty());
    assert(model::texts(seen@) =~= Seq::empty());
    while i < specs.len()
        invariant
            i <= specs.len(),
            all == model::texts(specs@),
            model::texts(seen@) == locals(all.take(i as int)),
            model::texts(out@) == kept(all.take(i as int)),
        decreases specs.len() - i,
    {
        assert(all.take(i + 1).drop_last() =~= all.take(i as int));
        assert(all[i as int] == specs@[i as int]@);
        let ghost before = out@;
        let ghost known = seen@;
        let t = text::trim(&specs[i]);
        let ghost y = t@;
        match name_of_specifier(&specs[i]) {
            Some(b) => {
                let ghost x = b@;
                if !contains_name(&seen, &b) {
                    out.push(t);
                    assert(model::texts(out@) =~= model::texts(before).push(y));
                }
                seen.push(b);
                assert(model::texts(seen@) =~= model::texts(known).push(x));
            },
            None => {
                if !t.as_str().is_empty() {
                    out.push(t);
                    assert(model::texts(out@) =~= model::texts(before).push(y));
                }
            },
        }
        i += 1;
    }
    assert(all.take(all.len() as int) =~= all);
    out
}

/// Turns an import line into a side-effect import of its module.
pub fn bare_line(line: &str) -> (r: String)
    ensures
        r@ == bare(line@),
{
    match module_of_line(line) {
        Some(m) => text::concat3("import \"", &m, "\";"),
        None => line.to_owned(),
    }
}

/// Leaves one specifier to each name of an import line.
pub fn single_line(line: &str) -> (r: String)
    ensures
        r@ == single(line@),
{
    match read_list(line) {
        Some(p) => if has_repeat(&names_of_specifiers(&p.0)) {
            text::concat4("import { ", &text::join(&keep_specifiers(&p.0), ", "), " }", &p.1)
        } else {
            line.to_owned()
        },
        None => line.to_owned(),
    }
}

} // verus!
