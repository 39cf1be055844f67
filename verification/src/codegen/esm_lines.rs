//! Bindings and declarations read back from rendered lines, and collisions between them.

use super::esm_specifiers;
use super::esm_specifiers::{bare_line, bindings_of_line, single_line};
use super::words;
use super::words::sanitize_import_name;
use crate::dict::{contains_name, Dict};
use crate::ir::model;
use crate::ir::renaming;
use crate::names;
use crate::text;
use vstd::prelude::*;

verus! {

/// The module that an import line names: the string behind the last `from`, or behind `import`.
pub open spec fn line_module(line: Seq<char>) -> Option<Seq<char>> {
    let rest = match text::rfind_in(line, "from \""@) {
        Some(i) => Some(line.subrange(i + "from \""@.len(), line.len() as int)),
        None => text::after_prefix(line, "import \""@),
    };
    match rest {
        Some(r) => match text::cut(r, "\""@) {
            Some(p) => Some(p.0),
            None => None,
        },
        None => None,
    }
}

/// The first word of a text, where it has one.
pub open spec fn leading_word(s: Seq<char>) -> Option<Seq<char>> {
    let w = text::word(text::trimmed_start(s), Seq::empty());
    if w.len() == 0 {
        None
    } else {
        Some(w)
    }
}

/// What follows the last ` as `, or the whole text.
pub open spec fn last_alias(s: Seq<char>) -> Seq<char> {
    match text::rfind_in(s, " as "@) {
        Some(i) => s.subrange(i + " as "@.len(), s.len() as int),
        None => s,
    }
}

/// The local name that an import line of a single name introduces.
pub open spec fn line_binding(line: Seq<char>) -> Option<Seq<char>> {
    let found = match text::after_prefix(line, "import "@) {
        Some(rest) => match text::after_prefix(rest, "{"@) {
            Some(inner) => match text::cut(inner, "}"@) {
                Some(p) => Some(text::trimmed(last_alias(p.0))),
                None => None,
            },
            None => match text::after_prefix(rest, "* as "@) {
                Some(after) => leading_word(after),
                None => match leading_word(rest) {
                    Some(w) => if w == "from"@ {
                        None
                    } else {
                        Some(w)
                    },
                    None => None,
                },
            },
        },
        None => None,
    };
    match found {
        Some(b) => if names::valid_identifier(b) {
            Some(b)
        } else {
            None
        },
        None => None,
    }
}

pub fn first_token(s: &str) -> (r: Option<String>)
    ensures
        text::opt(r) == leading_word(s@),
{
    proof {
        reveal_strlit("");
        assert(""@ =~= Seq::<char>::empty());
    }
    let w = text::first_word(&text::trim_start(s), "");
    if w.as_str().is_empty() {
        None
    } else {
        Some(w)
    }
}

pub(super) fn module_of_line(line: &str) -> (r: Option<String>)
    ensures
        text::opt(r) == line_module(line@),
{
    let n: usize = line.unicode_len();
    let rest = match text::rfind(line, "from \"") {
        Some(i) => {
            let m: usize = "from \"".unicode_len();
            Some(text::slice(line, i + m, n))
        },
        None => text::strip_prefix(line, "import \""),
    };
    match rest {
        Some(r) => match text::split_once(&r, "\"") {
            Some(p) => Some(p.0),
            None => None,
        },
        None => None,
    }
}

pub(super) fn alias_of(s: &str) -> (r: String)
    ensures
        r@ == last_alias(s@),
{
    let n: usize = s.unicode_len();
    match text::rfind(s, " as ") {
        Some(i) => {
            let m: usize = " as ".unicode_len();
            text::slice(s, i + m, n)
        },
        None => s.to_owned(),
    }
}

pub(super) fn binding_of_line(line: &str) -> (r: Option<String>)
    ensures
        text::opt(r) == line_binding(line@),
{
    let rest = match text::strip_prefix(line, "import ") {
        Some(rest) => rest,
        None => return None,
    };
    let found = match text::strip_prefix(&rest, "{") {
        Some(inner) => match text::split_once(&inner, "}") {
            Some(p) => Some(text::trim(&alias_of(&p.0))),
            None => None,
        },
        None => match text::strip_prefix(&rest, "* as ") {
            Some(after) => first_token(&after),
            None => match first_token(&rest) {
                Some(w) => if text::same(&w, "from") {
                    None
                } else {
                    Some(w)
                },
                None => None,
            },
        },
    };
    match found {
        Some(b) => if names::is_valid_identifier(&b) {
            Some(b)
        } else {
            None
        },
        None => None,
    }
}

/// The binding that an import line introduces and the module it names.
pub fn parse_import_line(line: &str) -> (r: (Option<String>, Option<String>))
    ensures
        text::opt(r.0) == line_binding(line@),
        text::opt(r.1) == line_module(line@),
{
    (binding_of_line(line), module_of_line(line))
}

/// The lines without repeats, each where it first appeared.
pub open spec fn distinct(lines: Seq<Seq<char>>) -> Seq<Seq<char>>
    decreases lines.len(),
{
    if lines.len() == 0 {
        Seq::empty()
    } else {
        let before = distinct(lines.drop_last());
        if before.contains(lines.last()) {
            before
        } else {
            before.push(lines.last())
        }
    }
}

/// What is left has no repeats and holds exactly the lines that were there.
pub proof fn lemma_distinct(lines: Seq<Seq<char>>)
    ensures
        distinct(lines).no_duplicates(),
        forall|l: Seq<char>| distinct(lines).contains(l) <==> lines.contains(l),
    decreases lines.len(),
{
    if lines.len() > 0 {
        let d = lines.drop_last();
        lemma_distinct(d);
        let before = distinct(d);
        assert forall|l: Seq<char>| distinct(lines).contains(l) <==> lines.contains(l) by {
            if lines.contains(l) {
                let k = choose|k: int| 0 <= k < lines.len() && lines[k] == l;
                if k < lines.len() - 1 {
                    assert(d[k] == l);
                    assert(d.contains(l));
                    assert(before.contains(l));
                    let j = choose|j: int| 0 <= j < before.len() && before[j] == l;
                    assert(distinct(lines)[j] == l);
                } else if !before.contains(l) {
                    assert(distinct(lines)[before.len() as int] == l);
                }
            }
            if distinct(lines).contains(l) {
                let j = choose|j: int| 0 <= j < distinct(lines).len() && distinct(lines)[j] == l;
                if j < before.len() {
                    assert(before[j] == l);
                    assert(d.contains(l));
                    let k = choose|k: int| 0 <= k < d.len() && d[k] == l;
                    assert(lines[k] == l);
                } else {
                    assert(lines[lines.len() - 1] == l);
                }
            }
        }
    } else {
        assert forall|l: Seq<char>| distinct(lines).contains(l) <==> lines.contains(l) by {}
    }
}

/// Lines without a repeat are left as they are.
pub proof fn lemma_distinct_keeps(lines: Seq<Seq<char>>)
    requires
        lines.no_duplicates(),
    ensures
        distinct(lines) == lines,
    decreases lines.len(),
{
    if lines.len() > 0 {
        let d = lines.drop_last();
        assert(d.no_duplicates());
        lemma_distinct_keeps(d);
        assert(!d.contains(lines.last())) by {
            if d.contains(lines.last()) {
                let k = choose|k: int| 0 <= k < d.len() && d[k] == lines.last();
                assert(lines[k] == lines[lines.len() - 1]);
            }
        }
        assert(d.push(lines.last()) =~= lines);
    }
}

/// Drops repeated lines.
pub fn distinct_lines(lines: &Vec<String>) -> (r: Vec<String>)
    ensures
        model::texts(r@) == distinct(model::texts(lines@)),
{
    let ghost all = model::texts(lines@);
    let mut out: Vec<String> = Vec::new();
    let mut i: usize = 0;
    assert(model::texts(out@) =~= Seq::empty());
    while i < lines.len()
        invariant
            i <= lines.len(),
            all == model::texts(lines@),
            model::texts(out@) == distinct(all.take(i as int)),
        decreases lines.len() - i,
    {
        assert(all.take(i + 1).drop_last() =~= all.take(i as int));
        let ghost before = out@;
        if !contains_name(&out, &lines[i]) {
            out.push(lines[i].clone());
            assert(model::texts(out@) =~= model::texts(before).push(all[i as int]));
        }
        i += 1;
    }
    assert(all.take(all.len() as int) =~= all);
    out
}

/// Whether an import line binds a name that comes from the module it imports.
pub open spec fn named_after(line: Seq<char>) -> bool {
    match (line_binding(line), line_module(line)) {
        (Some(b), Some(m)) => words::import_name(m) == b,
        _ => false,
    }
}

/// Whether a line introduces none of the names.
pub open spec fn free_of(line: Seq<char>, names: Seq<Seq<char>>) -> bool {
    forall|k: int|
        0 <= k < esm_specifiers::line_bindings(line).len() ==> !names.contains(
            #[trigger] esm_specifiers::line_bindings(line)[k],
        )
}

/// The names in `first`, and those of the lines before `n` that keep theirs: of the lines named
/// after their module, or of the others, each that introduces no name taken before it.
pub open spec fn claimed(
    lines: Seq<Seq<char>>,
    first: Seq<Seq<char>>,
    named: bool,
    n: int,
) -> Seq<Seq<char>>
    decreases n,
{
    if n <= 0 {
        first
    } else {
        let before = claimed(lines, first, named, n - 1);
        let line = lines[n - 1];
        if named_after(line) == named && free_of(line, before) {
            before + esm_specifiers::line_bindings(line)
        } else {
            before
        }
    }
}

/// The names that go before those of the line at `i`. Lines named after their module come first,
/// then the others, each in order.
pub open spec fn claimed_before(lines: Seq<Seq<char>>, i: int) -> Seq<Seq<char>> {
    if named_after(lines[i]) {
        claimed(lines, Seq::empty(), true, i)
    } else {
        claimed(lines, claimed(lines, Seq::empty(), true, lines.len() as int), false, i)
    }
}

/// Whether the line at `i` keeps its names.
pub open spec fn keeps(lines: Seq<Seq<char>>, i: int) -> bool {
    free_of(lines[i], claimed_before(lines, i))
}

/// The line at `i`, as a side-effect import where one of its names belongs to another line.
pub open spec fn demoted(lines: Seq<Seq<char>>, i: int) -> Seq<char> {
    if keeps(lines, i) {
        esm_specifiers::single(lines[i])
    } else {
        esm_specifiers::bare(lines[i])
    }
}

pub open spec fn all_demoted(lines: Seq<Seq<char>>) -> Seq<Seq<char>> {
    Seq::new(lines.len(), |i: int| demoted(lines, i))
}

/// The imports with unique bindings.
pub open spec fn unique_bindings(lines: Seq<Seq<char>>) -> Seq<Seq<char>> {
    distinct(all_demoted(distinct(lines)))
}

fn is_named_after(line: &str) -> (r: bool)
    ensures
        r == named_after(line@),
{
    match (binding_of_line(line), module_of_line(line)) {
        (Some(b), Some(m)) => text::same(&sanitize_import_name(&m), &b),
        _ => false,
    }
}

fn is_free_of(line: &str, names: &Vec<String>) -> (r: bool)
    ensures
        r == free_of(line@, model::texts(names@)),
{
    let own = bindings_of_line(line);
    let ghost all = model::texts(own@);
    let mut i: usize = 0;
    while i < own.len()
        invariant
            i <= own.len(),
            all == model::texts(own@),
            all == esm_specifiers::line_bindings(line@),
            forall|k: int| 0 <= k < i ==> !model::texts(names@).contains(#[trigger] all[k]),
        decreases own.len() - i,
    {
        assert(all[i as int] == own@[i as int]@);
        if contains_name(names, &own[i]) {
            return false;
        }
        i += 1;
    }
    true
}

/// Goes through the lines named after their module, or through the others, and marks those that
/// keep their names, which are taken from then on.
fn claim(lines: &Vec<String>, named: bool, names: &mut Vec<String>, kept: &mut Vec<bool>)
    requires
        old(kept)@.len() == lines@.len(),
    ensures
        final(kept)@.len() == lines@.len(),
        model::texts(final(names)@) == claimed(
            model::texts(lines@),
            model::texts(old(names)@),
            named,
            lines@.len() as int,
        ),
        forall|k: int|
            0 <= k < lines@.len() ==> #[trigger] final(kept)@[k] == if named_after(lines@[k]@)
                == named {
                free_of(
                    lines@[k]@,
                    claimed(model::texts(lines@), model::texts(old(names)@), named, k),
                )
            } else {
                old(kept)@[k]
            },
{
    let ghost all = model::texts(lines@);
    let ghost first = model::texts(names@);
    let ghost marks = kept@;
    let mut i: usize = 0;
    while i < lines.len()
        invariant
            i <= lines.len(),
            all == model::texts(lines@),
            kept@.len() == lines@.len(),
            marks.len() == lines@.len(),
            model::texts(names@) == claimed(all, first, named, i as int),
            forall|k: int|
                0 <= k < lines@.len() ==> #[trigger] kept@[k] == if k < i && named_after(
                    lines@[k]@,
                ) == named {
                    free_of(lines@[k]@, claimed(all, first, named, k))
                } else {
                    marks[k]
                },
        decreases lines.len() - i,
    {
        assert(all[i as int] == lines@[i as int]@);
        let ghost before = model::texts(names@);
        if is_named_after(&lines[i]) == named {
            let free: bool = is_free_of(&lines[i], names);
            kept.set(i, free);
            if free {
                let mut own = bindings_of_line(&lines[i]);
                let ghost x = model::texts(own@);
                names.append(&mut own);
                assert(model::texts(names@) =~= before + x);
            }
        }
        i += 1;
    }
}

/// Makes import bindings unique, which a module needs in order to parse. An exact repeat is
/// dropped. Of the lines that introduce one name, the one named after its module keeps it, else
/// the first that does, and the others become side-effect imports.
pub fn dedupe_import_bindings(imports: &mut Vec<String>)
    ensures
        model::texts(final(imports)@) == unique_bindings(model::texts(old(imports)@)),
{
    let lines = distinct_lines(imports);
    let ghost all = model::texts(lines@);
    let mut names: Vec<String> = Vec::new();
    assert(model::texts(names@) =~= Seq::empty());
    let mut kept: Vec<bool> = Vec::new();
    while kept.len() < lines.len()
        invariant
            kept@.len() <= lines@.len(),
        decreases lines.len() - kept.len(),
    {
        kept.push(false);
    }
    claim(&lines, true, &mut names, &mut kept);
    claim(&lines, false, &mut names, &mut kept);
    let mut out: Vec<String> = Vec::new();
    let mut i: usize = 0;
    while i < lines.len()
        invariant
            i <= lines.len(),
            all == model::texts(lines@),
            kept@.len() == lines@.len(),
            out.len() == i,
            forall|k: int| 0 <= k < lines@.len() ==> #[trigger] kept@[k] == keeps(all, k),
            forall|k: int| 0 <= k < i ==> (#[trigger] out@[k])@ == demoted(all, k),
        decreases lines.len() - i,
    {
        assert(all[i as int] == lines@[i as int]@);
        if kept[i] {
            out.push(single_line(&lines[i]));
        } else {
            out.push(bare_line(&lines[i]));
        }
        i += 1;
    }
    assert(model::texts(out@) =~= all_demoted(all));
    *imports = distinct_lines(&out);
}

/// The rest behind the first of the declaration keywords that `s` begins with.
pub open spec fn after_keyword(s: Seq<char>) -> Option<Seq<char>> {
    if text::has_prefix(s, "const"@) {
        text::after_prefix(s, "const"@)
    } else if text::has_prefix(s, "let"@) {
        text::after_prefix(s, "let"@)
    } else if text::has_prefix(s, "var"@) {
        text::after_prefix(s, "var"@)
    } else if text::has_prefix(s, "function"@) {
        text::after_prefix(s, "function"@)
    } else {
        text::after_prefix(s, "class"@)
    }
}

pub open spec fn without_prefix(s: Seq<char>, p: Seq<char>) -> Seq<char> {
    match text::after_prefix(s, p) {
        Some(rest) => rest,
        None => s,
    }
}

/// The name that a top-level declaration line introduces. An indented line is nested in another
/// declaration, and the keyword has to end where the name's separator begins.
pub open spec fn declared(line: Seq<char>) -> Option<Seq<char>> {
    if line.len() > 0 && text::white(line[0]) {
        None
    } else {
        match after_keyword(without_prefix(without_prefix(line, "export "@), "async "@)) {
            Some(rest) => if rest.len() > 0 && (text::white(rest[0]) || rest[0] == '*') {
                let name = text::word(
                    text::trimmed_start(text::stripped_start(rest, "*"@)),
                    "(=;"@,
                );
                if names::valid_identifier(name) {
                    Some(name)
                } else {
                    None
                }
            } else {
                None
            },
            None => None,
        }
    }
}

fn drop_prefix(s: &str, p: &str) -> (r: String)
    ensures
        r@ == without_prefix(s@, p@),
{
    match text::strip_prefix(s, p) {
        Some(rest) => rest,
        None => s.to_owned(),
    }
}

fn drop_keyword(s: &str) -> (r: Option<String>)
    ensures
        text::opt(r) == after_keyword(s@),
{
    if text::starts_with(s, "const") {
        text::strip_prefix(s, "const")
    } else if text::starts_with(s, "let") {
        text::strip_prefix(s, "let")
    } else if text::starts_with(s, "var") {
        text::strip_prefix(s, "var")
    } else if text::starts_with(s, "function") {
        text::strip_prefix(s, "function")
    } else {
        text::strip_prefix(s, "class")
    }
}

/// The name that a top-level declaration line introduces.
pub fn declared_name(line: &str) -> (r: Option<String>)
    ensures
        text::opt(r) == declared(line@),
{
    if !line.is_empty() && text::is_white(line.get_char(0)) {
        return None;
    }
    let bare = drop_prefix(&drop_prefix(line, "export "), "async ");
    match drop_keyword(&bare) {
        Some(rest) => {
            if rest.as_str().is_empty() {
                return None;
            }
            let c: char = rest.as_str().get_char(0);
            if !text::is_white(c) && c != '*' {
                return None;
            }
            let name = text::first_word(&text::trim_start(&text::strip_start(&rest, "*")), "(=;");
            if names::is_valid_identifier(&name) {
                Some(name)
            } else {
                None
            }
        },
        None => None,
    }
}

/// `export { prop as name } from "module";`, spelled the short way where both names agree.
pub open spec fn reexport(prop: Seq<char>, name: Seq<char>, module: Seq<char>) -> Seq<char> {
    if prop == name {
        "export { "@ + name + " } from \""@ + module + "\";"@
    } else {
        "export { "@ + prop + " as "@ + name + " } from \""@ + module + "\";"@
    }
}

pub fn format_reexport(prop: &str, name: &str, module: &str) -> (r: String)
    ensures
        r@ == reexport(prop@, name@, module@),
{
    if text::same(prop, name) {
        text::concat5("export { ", name, " } from \"", module, "\";")
    } else {
        let mut out = text::concat5("export { ", prop, " as ", name, " } from \"");
        out.append(module);
        out.append("\";");
        out
    }
}

/// The bindings with those of one more line, of the module `m`.
pub open spec fn with_names(
    b: Map<Seq<char>, Seq<char>>,
    names: Seq<Seq<char>>,
    m: Seq<char>,
) -> Map<Seq<char>, Seq<char>>
    decreases names.len(),
{
    if names.len() == 0 {
        b
    } else {
        with_names(b, names.drop_last(), m).insert(names.last(), m)
    }
}

/// The import bindings: each to the module it comes from. The last line that introduces a binding
/// counts.
pub open spec fn bindings(lines: Seq<Seq<char>>) -> Map<Seq<char>, Seq<char>>
    decreases lines.len(),
{
    if lines.len() == 0 {
        Map::empty()
    } else {
        let before = bindings(lines.drop_last());
        match line_module(lines.last()) {
            Some(m) => with_names(before, esm_specifiers::line_bindings(lines.last()), m),
            None => before,
        }
    }
}

/// The initializer of `export const name = ..;`.
pub open spec fn initializer(line: Seq<char>, name: Seq<char>) -> Option<Seq<char>> {
    match text::after_prefix(line, "export const "@) {
        Some(rest) => match text::cut(rest, " = "@) {
            Some(p) => if p.0 == name {
                Some(text::stripped_end(text::trimmed(p.1), ";"@))
            } else {
                None
            },
            None => None,
        },
        None => None,
    }
}

/// The re-export that the export of an imported name stands for, where its initializer can be
/// written as one: a binding or a property of one, or a local name alone.
pub open spec fn as_reexport(
    line: Seq<char>,
    name: Seq<char>,
    b: Map<Seq<char>, Seq<char>>,
) -> Option<Seq<char>> {
    match initializer(line, name) {
        Some(init) => {
            let parts = match text::cut(init, "."@) {
                Some(p) => p,
                None => (init, "default"@),
            };
            if !names::valid_identifier(parts.0) || !names::valid_identifier(parts.1) {
                None
            } else if b.dom().contains(parts.0) {
                Some(reexport(parts.1, name, b[parts.0]))
            } else if init == parts.0 {
                Some("export { "@ + parts.0 + " as "@ + name + " };"@)
            } else {
                None
            }
        },
        None => None,
    }
}

/// The export line, rewritten where it declares an imported name.
pub open spec fn resolved_export(line: Seq<char>, b: Map<Seq<char>, Seq<char>>) -> Seq<char> {
    match declared(line) {
        Some(name) => if b.dom().contains(name) {
            match as_reexport(line, name, b) {
                Some(l) => l,
                None => line,
            }
        } else {
            line
        },
        None => line,
    }
}

/// Whether an export line takes an imported name: it declares that name and cannot be written as
/// a re-export.
pub open spec fn export_claims(
    line: Seq<char>,
    b: Map<Seq<char>, Seq<char>>,
    name: Seq<char>,
) -> bool {
    declared(line) == Some(name) && as_reexport(line, name, b) is None
}

pub open spec fn any_export_claims(
    exports: Seq<Seq<char>>,
    b: Map<Seq<char>, Seq<char>>,
    name: Seq<char>,
) -> bool {
    exists|k: int| 0 <= k < exports.len() && export_claims(#[trigger] exports[k], b, name)
}

/// Whether one of the lines declares a name.
pub open spec fn any_line_declares(lines: Seq<Seq<char>>, name: Seq<char>) -> bool {
    exists|k: int| 0 <= k < lines.len() && declared(#[trigger] lines[k]) == Some(name)
}

pub open spec fn any_body_declares(body: Seq<Seq<char>>, name: Seq<char>) -> bool {
    exists|k: int| 0 <= k < body.len() && any_line_declares(text::lines(#[trigger] body[k]), name)
}

/// Whether a declaration takes a name from the imports.
pub open spec fn declared_anew(
    b: Map<Seq<char>, Seq<char>>,
    body: Seq<Seq<char>>,
    exports: Seq<Seq<char>>,
    name: Seq<char>,
) -> bool {
    any_export_claims(exports, b, name) || any_body_declares(body, name)
}

/// Whether a declaration takes one of the names that an import line introduces.
pub open spec fn loses_name(
    b: Map<Seq<char>, Seq<char>>,
    body: Seq<Seq<char>>,
    exports: Seq<Seq<char>>,
    line: Seq<char>,
) -> bool {
    exists|k: int|
        0 <= k < esm_specifiers::line_bindings(line).len() && declared_anew(
            b,
            body,
            exports,
            #[trigger] esm_specifiers::line_bindings(line)[k],
        )
}

/// An import line, as a side-effect import where a declaration takes one of its names.
pub open spec fn resolved_import(
    line: Seq<char>,
    b: Map<Seq<char>, Seq<char>>,
    body: Seq<Seq<char>>,
    exports: Seq<Seq<char>>,
) -> Seq<char> {
    if loses_name(b, body, exports, line) {
        esm_specifiers::bare(line)
    } else {
        line
    }
}

pub open spec fn resolved_imports(
    imports: Seq<Seq<char>>,
    body: Seq<Seq<char>>,
    exports: Seq<Seq<char>>,
) -> Seq<Seq<char>> {
    Seq::new(
        imports.len(),
        |i: int| resolved_import(imports[i], bindings(imports), body, exports),
    )
}

pub open spec fn resolved_exports(
    imports: Seq<Seq<char>>,
    exports: Seq<Seq<char>>,
) -> Seq<Seq<char>> {
    Seq::new(exports.len(), |i: int| resolved_export(exports[i], bindings(imports)))
}

fn collect_bindings(imports: &Vec<String>) -> (r: Dict<String>)
    ensures
        renaming::names_of(r@) == bindings(model::texts(imports@)),
{
    let ghost all = model::texts(imports@);
    let mut out: Dict<String> = Dict::new();
    let mut i: usize = 0;
    assert(all.take(0) =~= Seq::empty());
    assert(renaming::names_of(out@) =~= Map::empty());
    while i < imports.len()
        invariant
            i <= imports.len(),
            all == model::texts(imports@),
            renaming::names_of(out@) == bindings(all.take(i as int)),
        decreases imports.len() - i,
    {
        assert(all.take(i + 1).drop_last() =~= all.take(i as int));
        assert(all[i as int] == imports@[i as int]@);
        let ghost before = out@;
        if let Some(m) = module_of_line(&imports[i]) {
            let names = bindings_of_line(&imports[i]);
            let ghost own = model::texts(names@);
            let mut k: usize = 0;
            while k < names.len()
                invariant
                    k <= names.len(),
                    own == model::texts(names@),
                    renaming::names_of(out@) == with_names(
                        renaming::names_of(before),
                        own.take(k as int),
                        m@,
                    ),
                decreases names.len() - k,
            {
                assert(own.take(k + 1).drop_last() =~= own.take(k as int));
                assert(own[k as int] == names@[k as int]@);
                let ghost held = out@;
                out.insert(&names[k], m.clone());
                assert(renaming::names_of(out@) =~= renaming::names_of(held).insert(
                    own[k as int],
                    m@,
                ));
                k += 1;
            }
            assert(own.take(own.len() as int) =~= own);
        }
        i += 1;
    }
    assert(all.take(all.len() as int) =~= all);
    out
}

fn read_initializer(line: &str, name: &str) -> (r: Option<String>)
    ensures
        text::opt(r) == initializer(line@, name@),
{
    match text::strip_prefix(line, "export const ") {
        Some(rest) => match text::split_once(&rest, " = ") {
            Some(p) => if text::same(&p.0, name) {
                Some(text::strip_end(&text::trim(&p.1), ";"))
            } else {
                None
            },
            None => None,
        },
        None => None,
    }
}

fn rewrite_export(line: &str, name: &str, b: &Dict<String>) -> (r: Option<String>)
    ensures
        text::opt(r) == as_reexport(line@, name@, renaming::names_of(b@)),
{
    let init = match read_initializer(line, name) {
        Some(init) => init,
        None => return None,
    };
    let (root, prop) = match text::split_once(&init, ".") {
        Some(p) => p,
        None => (init.clone(), "default".to_owned()),
    };
    if !names::is_valid_identifier(&root) || !names::is_valid_identifier(&prop) {
        return None;
    }
    match b.get(&root) {
        Some(m) => Some(format_reexport(&prop, name, m)),
        None => if text::same(&init, &root) {
            Some(text::concat5("export { ", &root, " as ", name, " };"))
        } else {
            None
        },
    }
}

fn claims_by_export(exports: &Vec<String>, b: &Dict<String>, name: &str) -> (r: bool)
    ensures
        r == any_export_claims(model::texts(exports@), renaming::names_of(b@), name@),
{
    let ghost all = model::texts(exports@);
    let mut k: usize = 0;
    while k < exports.len()
        invariant
            k <= exports.len(),
            all == model::texts(exports@),
            forall|j: int|
                0 <= j < k ==> !export_claims(#[trigger] all[j], renaming::names_of(b@), name@),
        decreases exports.len() - k,
    {
        assert(all[k as int] == exports@[k as int]@);
        if let Some(n) = declared_name(&exports[k]) {
            if text::same(&n, name) && rewrite_export(&exports[k], name, b).is_none() {
                return true;
            }
        }
        k += 1;
    }
    false
}

fn declares_in_lines(lines: &Vec<String>, name: &str) -> (r: bool)
    ensures
        r == any_line_declares(model::texts(lines@), name@),
{
    let ghost all = model::texts(lines@);
    let mut k: usize = 0;
    while k < lines.len()
        invariant
            k <= lines.len(),
            all == model::texts(lines@),
            forall|j: int| 0 <= j < k ==> declared(#[trigger] all[j]) != Some(name@),
        decreases lines.len() - k,
    {
        assert(all[k as int] == lines@[k as int]@);
        if let Some(n) = declared_name(&lines[k]) {
            if text::same(&n, name) {
                return true;
            }
        }
        k += 1;
    }
    false
}

fn declares_in_body(body: &Vec<String>, name: &str) -> (r: bool)
    ensures
        r == any_body_declares(model::texts(body@), name@),
{
    let ghost all = model::texts(body@);
    let mut k: usize = 0;
    while k < body.len()
        invariant
            k <= body.len(),
            all == model::texts(body@),
            forall|j: int| 0 <= j < k ==> !any_line_declares(text::lines(#[trigger] all[j]), name@),
        decreases body.len() - k,
    {
        assert(all[k as int] == body@[k as int]@);
        if declares_in_lines(&text::lines_of(&body[k]), name) {
            return true;
        }
        k += 1;
    }
    false
}

fn is_losing(
    b: &Dict<String>,
    body: &Vec<String>,
    exports: &Vec<String>,
    line: &str,
) -> (r: bool)
    ensures
        r == loses_name(
            renaming::names_of(b@),
            model::texts(body@),
            model::texts(exports@),
            line@,
        ),
{
    let names = bindings_of_line(line);
    let ghost all = model::texts(names@);
    let ghost bm = renaming::names_of(b@);
    let mut k: usize = 0;
    while k < names.len()
        invariant
            k <= names.len(),
            all == model::texts(names@),
            all == esm_specifiers::line_bindings(line@),
            bm == renaming::names_of(b@),
            forall|j: int|
                0 <= j < k ==> !declared_anew(
                    bm,
                    model::texts(body@),
                    model::texts(exports@),
                    #[trigger] all[j],
                ),
        decreases names.len() - k,
    {
        assert(all[k as int] == names@[k as int]@);
        if claims_by_export(exports, b, &names[k]) || declares_in_body(body, &names[k]) {
            return true;
        }
        k += 1;
    }
    false
}

/// Resolves a name shared by an import and a declaration, with which the module does not parse.
/// An export that only hands an import on becomes a re-export; otherwise the declaration keeps
/// the name, and the import becomes a side-effect import.
pub fn resolve_import_declaration_collisions(
    imports: &mut Vec<String>,
    body_stmts: &Vec<String>,
    exports: &mut Vec<String>,
)
    ensures
        model::texts(final(imports)@) == resolved_imports(
            model::texts(old(imports)@),
            model::texts(body_stmts@),
            model::texts(old(exports)@),
        ),
        model::texts(final(exports)@) == resolved_exports(
            model::texts(old(imports)@),
            model::texts(old(exports)@),
        ),
{
    let ghost im = model::texts(imports@);
    let ghost ex = model::texts(exports@);
    let ghost bo = model::texts(body_stmts@);
    let b = collect_bindings(imports);
    let mut new_imports: Vec<String> = Vec::new();
    let mut i: usize = 0;
    while i < imports.len()
        invariant
            i <= imports.len(),
            im == model::texts(imports@),
            ex == model::texts(exports@),
            bo == model::texts(body_stmts@),
            renaming::names_of(b@) == bindings(im),
            new_imports.len() == i,
            forall|k: int|
                0 <= k < i ==> (#[trigger] new_imports@[k])@ == resolved_import(
                    im[k],
                    bindings(im),
                    bo,
                    ex,
                ),
        decreases imports.len() - i,
    {
        assert(im[i as int] == imports@[i as int]@);
        if is_losing(&b, body_stmts, exports, &imports[i]) {
            new_imports.push(bare_line(&imports[i]));
        } else {
            new_imports.push(imports[i].clone());
        }
        i += 1;
    }
    assert(model::texts(new_imports@) =~= resolved_imports(im, bo, ex));
    let mut new_exports: Vec<String> = Vec::new();
    let mut j: usize = 0;
    while j < exports.len()
        invariant
            j <= exports.len(),
            ex == model::texts(exports@),
            renaming::names_of(b@) == bindings(im),
            new_exports.len() == j,
            forall|k: int|
                0 <= k < j ==> (#[trigger] new_exports@[k])@ == resolved_export(
                    ex[k],
                    bindings(im),
                ),
        decreases exports.len() - j,
    {
        assert(ex[j as int] == exports@[j as int]@);
        let mut line = exports[j].clone();
        if let Some(name) = declared_name(&exports[j]) {
            if b.contains(&name) {
                if let Some(l) = rewrite_export(&exports[j], &name, &b) {
                    line = l;
                }
            }
        }
        new_exports.push(line);
        j += 1;
    }
    assert(model::texts(new_exports@) =~= resolved_exports(im, ex));
    *imports = new_imports;
    *exports = new_exports;
}

} // verus!
