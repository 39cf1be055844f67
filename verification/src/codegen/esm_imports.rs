//! The import header: repeated lines collapse, and named imports of one module merge.

use crate::dict::contains_name;
use crate::ir::cloning::clone_texts;
use crate::ir::model;
use crate::text;
use vstd::prelude::*;

verus! {

/// The pieces of `s` between the commas.
pub open spec fn comma_pieces(s: Seq<char>) -> Seq<Seq<char>>
    decreases s.len(),
{
    match text::find_in(s, ","@) {
        Some(i) => if 0 <= i < s.len() {
            seq![s.subrange(0, i)] + comma_pieces(s.subrange(i + 1, s.len() as int))
        } else {
            seq![s]
        },
        None => seq![s],
    }
}

/// The pieces without surrounding white space, the empty ones left out.
pub open spec fn tidy(pieces: Seq<Seq<char>>) -> Seq<Seq<char>>
    decreases pieces.len(),
{
    if pieces.len() == 0 {
        Seq::empty()
    } else {
        let t = text::trimmed(pieces.last());
        if t.len() == 0 {
            tidy(pieces.drop_last())
        } else {
            tidy(pieces.drop_last()).push(t)
        }
    }
}

/// A line `import { a, b as c } from "src" ..;` as its specifiers and what follows the brace.
/// Other imports are none.
pub open spec fn named_parts(line: Seq<char>) -> Option<(Seq<Seq<char>>, Seq<char>)> {
    match text::after_prefix(line, "import { "@) {
        Some(rest) => match text::find_in(rest, " } from "@) {
            Some(at) => {
                let specs = tidy(comma_pieces(rest.subrange(0, at)));
                if specs.len() == 0 {
                    None
                } else {
                    Some((specs, rest.subrange(at + 3, rest.len() as int)))
                }
            },
            None => None,
        },
        None => None,
    }
}

/// A line without the module id comment before its semicolon.
pub open spec fn without_id(line: Seq<char>) -> Seq<char> {
    match text::before_suffix(line, ";"@) {
        Some(rest) => match text::rfind_in(rest, " /* "@) {
            Some(at) => match text::before_suffix(rest.subrange(at + 4, rest.len() as int), " */"@) {
                Some(num) => if num.len() > 0 && text::all_digits(num) {
                    rest.subrange(0, at) + ";"@
                } else {
                    line
                },
                None => line,
            },
            None => line,
        },
        None => line,
    }
}

/// One line of the header: a line kept as it is, under its text without the module id, or the
/// named imports of one module.
pub enum Slot {
    Line { key: String, line: String },
    Group { key: String, specs: Vec<String>, tail: String },
}

/// The mathematical model of a [`Slot`].
#[verifier::ext_equal]
#[allow(inconsistent_fields)]
pub enum Entry {
    Line { key: Seq<char>, line: Seq<char> },
    Group { key: Seq<char>, specs: Seq<Seq<char>>, tail: Seq<char> },
}

impl Slot {
    pub open spec fn view(&self) -> Entry {
        match self {
            Slot::Line { key, line } => Entry::Line { key: key@, line: line@ },
            Slot::Group { key, specs, tail } => Entry::Group {
                key: key@,
                specs: model::texts(specs@),
                tail: tail@,
            },
        }
    }
}

pub open spec fn entries(s: Seq<Slot>) -> Seq<Entry> {
    s.map_values(|x: Slot| x@)
}

/// The specifiers with new ones behind them, none twice.
pub open spec fn merged(specs: Seq<Seq<char>>, more: Seq<Seq<char>>) -> Seq<Seq<char>>
    decreases more.len(),
{
    if more.len() == 0 {
        specs
    } else {
        let before = merged(specs, more.drop_last());
        if before.contains(more.last()) {
            before
        } else {
            before.push(more.last())
        }
    }
}

pub open spec fn is_group(e: Entry, key: Seq<char>) -> bool {
    e matches Entry::Group { key: k, .. } && k == key
}

pub open spec fn is_line(e: Entry, key: Seq<char>) -> bool {
    e matches Entry::Line { key: k, .. } && k == key
}

pub open spec fn has_group(s: Seq<Entry>, key: Seq<char>) -> bool {
    exists|i: int| 0 <= i < s.len() && is_group(#[trigger] s[i], key)
}

pub open spec fn has_line(s: Seq<Entry>, key: Seq<char>) -> bool {
    exists|i: int| 0 <= i < s.len() && is_line(#[trigger] s[i], key)
}

/// The group under `key` with more specifiers; every other entry as it is.
pub open spec fn extended(e: Entry, key: Seq<char>, more: Seq<Seq<char>>) -> Entry {
    match e {
        Entry::Group { key: k, specs, tail } => if k == key {
            Entry::Group { key: k, specs: merged(specs, more), tail }
        } else {
            e
        },
        _ => e,
    }
}

/// The header with one more import line.
pub open spec fn header_step(s: Seq<Entry>, line: Seq<char>) -> Seq<Entry> {
    match named_parts(line) {
        Some(p) => {
            let key = without_id(p.1);
            if has_group(s, key) {
                Seq::new(s.len(), |i: int| extended(s[i], key, p.0))
            } else {
                s.push(Entry::Group { key, specs: merged(Seq::empty(), p.0), tail: p.1 })
            }
        },
        None => if has_line(s, without_id(line)) {
            s
        } else {
            s.push(Entry::Line { key: without_id(line), line })
        },
    }
}

pub open spec fn header(lines: Seq<Seq<char>>) -> Seq<Entry>
    decreases lines.len(),
{
    if lines.len() == 0 {
        Seq::empty()
    } else {
        header_step(header(lines.drop_last()), lines.last())
    }
}

pub open spec fn entry_line(e: Entry) -> Seq<char> {
    match e {
        Entry::Line { line, .. } => line,
        Entry::Group { specs, tail, .. } => "import { "@ + text::joined(specs, ", "@) + " } "@
            + tail,
    }
}

/// The collapsed header: lines that differ in the module id alone are written once, named
/// imports of one module together, each where it first appeared.
pub open spec fn consolidated(lines: Seq<Seq<char>>) -> Seq<Seq<char>> {
    Seq::new(header(lines).len(), |i: int| entry_line(header(lines)[i]))
}

/// No two entries of a header have the same kind and key.
pub open spec fn distinct_entries(s: Seq<Entry>) -> bool {
    forall|i: int, j: int|
        0 <= i < j < s.len() ==> match (#[trigger] s[i], #[trigger] s[j]) {
            (Entry::Line { key: a, .. }, Entry::Line { key: b, .. }) => a != b,
            (Entry::Group { key: a, .. }, Entry::Group { key: b, .. }) => a != b,
            _ => true,
        }
}

/// The header imports nothing twice: no two of its lines are equal up to the module id, and no
/// two groups name the same module.
pub proof fn lemma_header_is_distinct(lines: Seq<Seq<char>>)
    ensures
        distinct_entries(header(lines)),
    decreases lines.len(),
{
    if lines.len() > 0 {
        let s = header(lines.drop_last());
        let line = lines.last();
        lemma_header_is_distinct(lines.drop_last());
        match named_parts(line) {
            Some(p) => {
                let key = without_id(p.1);
                if !has_group(s, key) {
                    assert forall|i: int| 0 <= i < s.len() implies !is_group(
                        #[trigger] s[i],
                        key,
                    ) by {}
                }
            },
            None => {
                if !has_line(s, without_id(line)) {
                    assert forall|i: int| 0 <= i < s.len() implies !is_line(
                        #[trigger] s[i],
                        without_id(line),
                    ) by {}
                }
            },
        }
    }
}

/// The header never grows longer than the lines it was made of.
pub proof fn lemma_header_is_no_longer(lines: Seq<Seq<char>>)
    ensures
        consolidated(lines).len() <= lines.len(),
    decreases lines.len(),
{
    if lines.len() > 0 {
        lemma_header_is_no_longer(lines.drop_last());
    }
}

pub(super) fn split_commas(s: &str) -> (r: Vec<String>)
    ensures
        model::texts(r@) == comma_pieces(s@),
    decreases s@.len(),
{
    proof {
        reveal_strlit(",");
    }
    let mut out: Vec<String> = Vec::new();
    match text::find(s, ",") {
        Some(i) => {
            let n: usize = s.unicode_len();
            out.push(text::slice(s, 0, i));
            let ghost first = out@;
            let mut rest = split_commas(&text::slice(s, i + 1, n));
            let ghost tail = rest@;
            out.append(&mut rest);
            assert(model::texts(out@) =~= model::texts(first) + model::texts(tail));
            assert(model::texts(first) =~= seq![s@.subrange(0, i as int)]);
        },
        None => {
            out.push(s.to_owned());
            assert(model::texts(out@) =~= seq![s@]);
        },
    }
    out
}

fn tidy_pieces(v: &Vec<String>) -> (r: Vec<String>)
    ensures
        model::texts(r@) == tidy(model::texts(v@)),
{
    let ghost all = model::texts(v@);
    let mut out: Vec<String> = Vec::new();
    let mut i: usize = 0;
    assert(model::texts(out@) =~= Seq::empty());
    while i < v.len()
        invariant
            i <= v.len(),
            all == model::texts(v@),
            model::texts(out@) == tidy(all.take(i as int)),
        decreases v.len() - i,
    {
        assert(all.take(i + 1).drop_last() =~= all.take(i as int));
        let t = text::trim(&v[i]);
        let ghost before = out@;
        if !t.as_str().is_empty() {
            out.push(t);
            assert(model::texts(out@) =~= model::texts(before).push(t@));
        }
        i += 1;
    }
    assert(all.take(all.len() as int) =~= all);
    out
}

/// Reads a plain named import.
pub fn parse_named_import(line: &str) -> (r: Option<(Vec<String>, String)>)
    ensures
        match r {
            Some(p) => named_parts(line@) == Some((model::texts(p.0@), p.1@)),
            None => named_parts(line@) is None,
        },
{
    let rest = match text::strip_prefix(line, "import { ") {
        Some(rest) => rest,
        None => return None,
    };
    let n: usize = rest.as_str().unicode_len();
    match text::find(&rest, " } from ") {
        Some(at) => {
            proof {
                reveal_strlit(" } from ");
            }
            let specs = tidy_pieces(&split_commas(&text::slice(&rest, 0, at)));
            assert(model::texts(specs@).len() == specs@.len());
            if specs.len() == 0 {
                None
            } else {
                Some((specs, text::slice(&rest, at + 3, n)))
            }
        },
        None => None,
    }
}

/// Drops the module id comment before the semicolon, so that two imports of one binding under
/// different ids compare equal.
pub fn strip_id_comment(line: &str) -> (r: String)
    ensures
        r@ == without_id(line@),
{
    if let Some(rest) = text::strip_suffix(line, ";") {
        let n: usize = rest.as_str().unicode_len();
        if let Some(at) = text::rfind(&rest, " /* ") {
            proof {
                reveal_strlit(" /* ");
            }
            if let Some(num) = text::strip_suffix(&text::slice(&rest, at + 4, n), " */") {
                if !num.as_str().is_empty() && text::is_all_digits(&num) {
                    return text::concat2(&text::slice(&rest, 0, at), ";");
                }
            }
        }
    }
    line.to_owned()
}

fn merge_specs(specs: &Vec<String>, more: &Vec<String>) -> (r: Vec<String>)
    ensures
        model::texts(r@) == merged(model::texts(specs@), model::texts(more@)),
{
    let ghost all = model::texts(more@);
    let mut out = clone_texts(specs);
    let mut i: usize = 0;
    while i < more.len()
        invariant
            i <= more.len(),
            all == model::texts(more@),
            model::texts(out@) == merged(model::texts(specs@), all.take(i as int)),
        decreases more.len() - i,
    {
        assert(all.take(i + 1).drop_last() =~= all.take(i as int));
        let ghost before = out@;
        if !contains_name(&out, &more[i]) {
            out.push(more[i].clone());
            assert(model::texts(out@) =~= model::texts(before).push(all[i as int]));
        }
        i += 1;
    }
    assert(all.take(all.len() as int) =~= all);
    out
}

fn find_group(s: &Vec<Slot>, key: &str) -> (r: bool)
    ensures
        r == has_group(entries(s@), key@),
{
    let ghost all = entries(s@);
    let mut i: usize = 0;
    while i < s.len()
        invariant
            i <= s.len(),
            all == entries(s@),
            forall|k: int| 0 <= k < i ==> !is_group(#[trigger] all[k], key@),
        decreases s.len() - i,
    {
        assert(all[i as int] == s@[i as int]@);
        if let Slot::Group { key: k, .. } = &s[i] {
            if text::same(k, key) {
                return true;
            }
        }
        i += 1;
    }
    false
}

fn find_line(s: &Vec<Slot>, key: &str) -> (r: bool)
    ensures
        r == has_line(entries(s@), key@),
{
    let ghost all = entries(s@);
    let mut i: usize = 0;
    while i < s.len()
        invariant
            i <= s.len(),
            all == entries(s@),
            forall|k: int| 0 <= k < i ==> !is_line(#[trigger] all[k], key@),
        decreases s.len() - i,
    {
        assert(all[i as int] == s@[i as int]@);
        if let Slot::Line { key: k, .. } = &s[i] {
            if text::same(k, key) {
                return true;
            }
        }
        i += 1;
    }
    false
}

fn copy_slot(s: &Slot) -> (r: Slot)
    ensures
        r@ == s@,
{
    match s {
        Slot::Line { key, line } => Slot::Line { key: key.clone(), line: line.clone() },
        Slot::Group { key, specs, tail } => Slot::Group {
            key: key.clone(),
            specs: clone_texts(specs),
            tail: tail.clone(),
        },
    }
}

fn extend_group(s: &Vec<Slot>, key: &str, more: &Vec<String>) -> (r: Vec<Slot>)
    ensures
        entries(r@) == Seq::new(
            s@.len(),
            |i: int| extended(entries(s@)[i], key@, model::texts(more@)),
        ),
{
    let mut out: Vec<Slot> = Vec::new();
    let mut i: usize = 0;
    while i < s.len()
        invariant
            i <= s.len(),
            out.len() == i,
            forall|k: int|
                0 <= k < i ==> (#[trigger] out@[k])@ == extended(
                    s@[k]@,
                    key@,
                    model::texts(more@),
                ),
        decreases s.len() - i,
    {
        match &s[i] {
            Slot::Group { key: k, specs, tail } => if text::same(k, key) {
                out.push(
                    Slot::Group {
                        key: k.clone(),
                        specs: merge_specs(specs, more),
                        tail: tail.clone(),
                    },
                );
            } else {
                out.push(copy_slot(&s[i]));
            },
            _ => out.push(copy_slot(&s[i])),
        }
        i += 1;
    }
    assert(entries(out@) =~= Seq::new(
        s@.len(),
        |i: int| extended(entries(s@)[i], key@, model::texts(more@)),
    ));
    out
}

/// Collapses the import header: drops repeats and merges named imports of one module.
pub fn consolidate_imports(imports: Vec<String>) -> (r: Vec<String>)
    ensures
        model::texts(r@) == consolidated(model::texts(imports@)),
{
    let ghost all = model::texts(imports@);
    let mut order: Vec<Slot> = Vec::new();
    let mut i: usize = 0;
    assert(entries(order@) =~= Seq::empty());
    while i < imports.len()
        invariant
            i <= imports.len(),
            all == model::texts(imports@),
            entries(order@) == header(all.take(i as int)),
        decreases imports.len() - i,
    {
        assert(all.take(i + 1).drop_last() =~= all.take(i as int));
        let ghost before = order@;
        let line = &imports[i];
        match parse_named_import(line) {
            Some((specs, tail)) => {
                let key = strip_id_comment(&tail);
                if find_group(&order, &key) {
                    order = extend_group(&order, &key, &specs);
                } else {
                    let none: Vec<String> = Vec::new();
                    assert(model::texts(none@) =~= Seq::empty());
                    order.push(Slot::Group { key, specs: merge_specs(&none, &specs), tail });
                    assert(entries(order@) =~= entries(before).push(order@.last()@));
                }
            },
            None => {
                let key = strip_id_comment(line);
                if !find_line(&order, &key) {
                    order.push(Slot::Line { key, line: line.clone() });
                    assert(entries(order@) =~= entries(before).push(order@.last()@));
                }
            },
        }
        i += 1;
    }
    assert(all.take(all.len() as int) =~= all);
    let mut out: Vec<String> = Vec::new();
    let mut k: usize = 0;
    while k < order.len()
        invariant
            k <= order.len(),
            out.len() == k,
            forall|j: int| 0 <= j < k ==> (#[trigger] out@[j])@ == entry_line(order@[j]@),
        decreases order.len() - k,
    {
        match &order[k] {
            Slot::Line { line, .. } => out.push(line.clone()),
            Slot::Group { specs, tail, .. } => out.push(
                text::concat4("import { ", &text::join(specs, ", "), " } ", tail),
            ),
        }
        k += 1;
    }
    assert(model::texts(out@) =~= consolidated(all));
    out
}

} // verus!
