//! Text helpers of the code generator: indentation, binding names and whole-word renames.

use crate::ir::model;
use crate::ir::model::Stmt;
use crate::ir::Statement;
use crate::names;
use crate::text;
use vstd::prelude::*;

verus! {

/// Lines put under each other: `head` before the first one, `prefix` before each later one that
/// is not empty.
pub open spec fn hang(ls: Seq<Seq<char>>, head: Seq<char>, prefix: Seq<char>) -> Seq<char>
    decreases ls.len(),
{
    if ls.len() == 0 {
        Seq::empty()
    } else if ls.len() == 1 {
        head + ls[0]
    } else if ls.last().len() == 0 {
        hang(ls.drop_last(), head, prefix) + "\n"@ + ls.last()
    } else {
        hang(ls.drop_last(), head, prefix) + "\n"@ + prefix + ls.last()
    }
}

pub fn hang_lines(s: &str, head: &str, prefix: &str) -> (r: String)
    ensures
        r@ == hang(text::lines(s@), head@, prefix@),
{
    let ls = text::lines_of(s);
    let ghost all = model::texts(ls@);
    let mut out = String::new();
    let mut i: usize = 0;
    while i < ls.len()
        invariant
            i <= ls.len(),
            all == model::texts(ls@),
            out@ == hang(all.take(i as int), head@, prefix@),
        decreases ls.len() - i,
    {
        assert(all.take(i + 1).drop_last() =~= all.take(i as int));
        if i == 0 {
            out.append(head);
            out.append(ls[i].as_str());
            assert(out@ =~= head@ + all[0]);
        } else {
            out.append("\n");
            if !ls[i].as_str().is_empty() {
                out.append(prefix);
            }
            out.append(ls[i].as_str());
        }
        i += 1;
    }
    assert(all.take(all.len() as int) =~= all);
    out
}

/// `s` with `prefix` before its first line and before each later line that is not empty.
pub open spec fn indented(s: Seq<char>, prefix: Seq<char>) -> Seq<char> {
    hang(text::lines(s), prefix, prefix)
}

pub fn indent_multiline(s: &str, prefix: &str) -> (r: String)
    ensures
        r@ == indented(s@, prefix@),
{
    hang_lines(s, prefix, prefix)
}

/// Each text indented.
pub open spec fn all_indented(parts: Seq<Seq<char>>, prefix: Seq<char>) -> Seq<Seq<char>> {
    Seq::new(parts.len(), |i: int| indented(parts[i], prefix))
}

pub fn indent_all(parts: &Vec<String>, prefix: &str) -> (r: Vec<String>)
    ensures
        model::texts(r@) == all_indented(model::texts(parts@), prefix@),
{
    let mut out: Vec<String> = Vec::new();
    let mut i: usize = 0;
    while i < parts.len()
        invariant
            i <= parts.len(),
            out.len() == i,
            forall|k: int|
                0 <= k < i ==> (#[trigger] out@[k])@ == indented(parts@[k]@, prefix@),
        decreases parts.len() - i,
    {
        out.push(indent_multiline(&parts[i], prefix));
        i += 1;
    }
    assert(model::texts(out@) =~= all_indented(model::texts(parts@), prefix@));
    out
}

/// Whether one of the texts has more than one line.
pub open spec fn any_multiline(parts: Seq<Seq<char>>) -> bool {
    exists|i: int| 0 <= i < parts.len() && text::has_part(#[trigger] parts[i], "\n"@)
}

pub fn has_multiline(parts: &Vec<String>) -> (r: bool)
    ensures
        r == any_multiline(model::texts(parts@)),
{
    let ghost all = model::texts(parts@);
    let mut i: usize = 0;
    while i < parts.len()
        invariant
            i <= parts.len(),
            all == model::texts(parts@),
            forall|k: int| 0 <= k < i ==> !text::has_part(#[trigger] all[k], "\n"@),
        decreases parts.len() - i,
    {
        if text::contains(&parts[i], "\n") {
            assert(text::has_part(all[i as int], "\n"@));
            return true;
        }
        i += 1;
    }
    false
}

/// Whether the statements leave nothing to write: blocks of such statements, or `continue`.
pub open spec fn nothing_to_write(s: Seq<Stmt>) -> bool
    decreases s,
{
    forall|i: int|
        0 <= i < s.len() ==> match #[trigger] s[i] {
            Stmt::Block(inner) => nothing_to_write(inner),
            Stmt::Continue(_) => true,
            _ => false,
        }
}

pub fn is_effectively_empty(stmts: &Vec<Statement>) -> (r: bool)
    ensures
        r == nothing_to_write(model::stmts(stmts@)),
    decreases stmts,
{
    let ghost all = model::stmts(stmts@);
    let mut i: usize = 0;
    while i < stmts.len()
        invariant
            i <= stmts.len(),
            all == model::stmts(stmts@),
            forall|k: int|
                0 <= k < i ==> match #[trigger] all[k] {
                    Stmt::Block(inner) => nothing_to_write(inner),
                    Stmt::Continue(_) => true,
                    _ => false,
                },
        decreases stmts.len() - i,
    {
        assert(all[i as int] == stmts@[i as int]@);
        let empty: bool = match &stmts[i] {
            Statement::Block(inner) => is_effectively_empty(inner),
            Statement::Continue(_) => true,
            _ => false,
        };
        if !empty {
            return false;
        }
        i += 1;
    }
    true
}

/// What follows the last `/`, or the whole text.
pub open spec fn last_component(s: Seq<char>) -> Seq<char> {
    match text::rfind_in(s, "/"@) {
        Some(i) => s.subrange(i + 1, s.len() as int),
        None => s,
    }
}

pub open spec fn upper(c: char) -> char {
    if 'a' <= c <= 'z' {
        (c as int - 32) as char
    } else {
        c
    }
}

fn upper_char(c: char) -> (r: char)
    ensures
        r == upper(c),
{
    if 'a' <= c && c <= 'z' {
        let n: u32 = c as u32;
        (n as u8 - 32) as char
    } else {
        c
    }
}

/// The camel-case fold of a module path component: `-`, `.` and space are dropped and the
/// letter behind them is capitalised, every other non-identifier character is dropped. The
/// second part says whether a capital is due.
pub open spec fn camel(s: Seq<char>) -> (Seq<char>, bool)
    decreases s.len(),
{
    if s.len() == 0 {
        (Seq::empty(), false)
    } else {
        let (done, due) = camel(s.drop_last());
        let c = s.last();
        if names::ident_char(c) {
            if due && done.len() > 0 {
                (done.push(upper(c)), false)
            } else {
                (done.push(c), false)
            }
        } else if c == '-' || c == '.' || c == ' ' {
            (done, true)
        } else {
            (done, due)
        }
    }
}

/// Words that cannot name an import.
pub open spec fn reserved_import_name(s: Seq<char>) -> bool {
    ||| s == "default"@
    ||| s == "export"@
    ||| s == "import"@
    ||| s == "class"@
    ||| s == "function"@
    ||| s == "return"@
    ||| s == "var"@
    ||| s == "let"@
    ||| s == "const"@
    ||| s == "if"@
    ||| s == "else"@
    ||| s == "for"@
    ||| s == "while"@
    ||| s == "do"@
    ||| s == "switch"@
    ||| s == "case"@
    ||| s == "break"@
    ||| s == "continue"@
    ||| s == "new"@
    ||| s == "delete"@
    ||| s == "typeof"@
    ||| s == "void"@
    ||| s == "in"@
    ||| s == "of"@
    ||| s == "instanceof"@
    ||| s == "this"@
    ||| s == "super"@
    ||| s == "with"@
    ||| s == "throw"@
    ||| s == "try"@
    ||| s == "catch"@
    ||| s == "finally"@
    ||| s == "yield"@
    ||| s == "await"@
    ||| s == "async"@
    ||| s == "from"@
    ||| s == "true"@
    ||| s == "false"@
    ||| s == "null"@
    ||| s == "undefined"@
}

fn is_reserved_import_name(s: &str) -> (r: bool)
    ensures
        r == reserved_import_name(s@),
{
    text::same(s, "default") || text::same(s, "export") || text::same(s, "import") || text::same(
        s,
        "class",
    ) || text::same(s, "function") || text::same(s, "return") || text::same(s, "var")
        || text::same(s, "let") || text::same(s, "const") || text::same(s, "if") || text::same(
        s,
        "else",
    ) || text::same(s, "for") || text::same(s, "while") || text::same(s, "do") || text::same(
        s,
        "switch",
    ) || text::same(s, "case") || text::same(s, "break") || text::same(s, "continue")
        || text::same(s, "new") || text::same(s, "delete") || text::same(s, "typeof")
        || text::same(s, "void") || text::same(s, "in") || text::same(s, "of") || text::same(
        s,
        "instanceof",
    ) || text::same(s, "this") || text::same(s, "super") || text::same(s, "with") || text::same(
        s,
        "throw",
    ) || text::same(s, "try") || text::same(s, "catch") || text::same(s, "finally")
        || text::same(s, "yield") || text::same(s, "await") || text::same(s, "async")
        || text::same(s, "from") || text::same(s, "true") || text::same(s, "false") || text::same(
        s,
        "null",
    ) || text::same(s, "undefined")
}

/// The binding that a module name gives: its last path component in camel case, with `_` before
/// a leading digit. A result of at most one character, or a reserved word, gives the empty name.
pub open spec fn import_name(module: Seq<char>) -> Seq<char> {
    let folded = camel(last_component(module)).0;
    let named = if folded.len() > 0 && text::ascii_digit(folded[0]) {
        seq!['_'] + folded
    } else {
        folded
    };
    if named.len() <= 1 || reserved_import_name(named) {
        Seq::empty()
    } else {
        named
    }
}

/// The identifier that a module name gives for an import, e.g. `"react-native"` gives
/// `reactNative`; empty where none reads well.
pub fn sanitize_import_name(mod_name: &str) -> (r: String)
    ensures
        r@ == import_name(mod_name@),
{
    let n: usize = mod_name.unicode_len();
    proof {
        reveal_strlit("/");
    }
    let base = match text::rfind(mod_name, "/") {
        Some(i) => text::slice(mod_name, i + 1, n),
        None => mod_name.to_owned(),
    };
    let v = text::chars_of(&base);
    let mut out: Vec<char> = Vec::new();
    let mut due: bool = false;
    let mut i: usize = 0;
    while i < v.len()
        invariant
            v@ == base@,
            i <= v.len(),
            camel(base@.take(i as int)) == (out@, due),
        decreases v.len() - i,
    {
        let c: char = v[i];
        assert(base@.take(i + 1).drop_last() =~= base@.take(i as int));
        if names::is_ident_char(c) {
            if due && out.len() > 0 {
                out.push(upper_char(c));
            } else {
                out.push(c);
            }
            due = false;
        } else if c == '-' || c == '.' || c == ' ' {
            due = true;
        }
        i += 1;
    }
    assert(base@.take(base@.len() as int) =~= base@);
    let mut named = String::new();
    if out.len() > 0 && text::is_ascii_digit(out[0]) {
        named.push('_');
    }
    named.append(text::from_chars(&out).as_str());
    let ghost want = if out@.len() > 0 && text::ascii_digit(out@[0]) {
        seq!['_'] + out@
    } else {
        out@
    };
    assert(named@ =~= want);
    if named.as_str().unicode_len() <= 1 || is_reserved_import_name(&named) {
        return String::new();
    }
    named
}

/// A loop variable that is no more than a register name (`r` and digits) takes the fallback.
pub open spec fn loop_var(var: Seq<char>, fallback: Seq<char>) -> Seq<char> {
    if var.len() > 0 && var[0] == 'r' && text::all_digits(var.subrange(1, var.len() as int)) {
        fallback
    } else {
        var
    }
}

pub fn sanitize_loop_var(var: &str, fallback: &str) -> (r: String)
    ensures
        r@ == loop_var(var@, fallback@),
{
    let n: usize = var.unicode_len();
    if n > 0 && var.get_char(0) == 'r' && text::is_all_digits(&text::slice(var, 1, n)) {
        fallback.to_owned()
    } else {
        var.to_owned()
    }
}

/// Whether `w` stands in `s` at `i` as a whole word: no identifier character directly before or
/// behind it.
pub open spec fn word_at(s: Seq<char>, w: Seq<char>, i: int) -> bool {
    &&& text::occurs_at(s, w, i)
    &&& i > 0 ==> !names::ident_char(s[i - 1])
    &&& i + w.len() < s.len() ==> !names::ident_char(s[i + w.len()])
}

/// The rest of `s` from `i` on, with each whole word `old` replaced by `new_val`.
pub open spec fn renamed_from(s: Seq<char>, old_word: Seq<char>, new_val: Seq<char>, i: int) -> Seq<char>
    decreases s.len() - i,
{
    if i < 0 || i >= s.len() || old_word.len() == 0 {
        s.subrange(i, s.len() as int)
    } else if word_at(s, old_word, i) {
        new_val + renamed_from(s, old_word, new_val, i + old_word.len())
    } else {
        seq![s[i]] + renamed_from(s, old_word, new_val, i + 1)
    }
}

/// `s` with each whole word `old_word` replaced by `new_val`.
pub open spec fn renamed(s: Seq<char>, old_word: Seq<char>, new_val: Seq<char>) -> Seq<char> {
    renamed_from(s, old_word, new_val, 0)
}

fn is_word_at(s: &Vec<char>, w: &Vec<char>, i: usize) -> (r: bool)
    requires
        i <= s.len(),
    ensures
        r == word_at(s@, w@, i as int),
{
    text::occurs_here(s, w, i) && (i == 0 || !names::is_ident_char(s[i - 1])) && (i + w.len()
        >= s.len() || !names::is_ident_char(s[i + w.len()]))
}

/// Replaces every whole-word occurrence of `old_word`. A word boundary is a character that
/// cannot stand in an identifier, or an end of the text.
pub fn replace_whole_word(s: &str, old_word: &str, new_val: &str) -> (r: String)
    ensures
        r@ == renamed(s@, old_word@, new_val@),
{
    let v = text::chars_of(s);
    let w = text::chars_of(old_word);
    if w.len() == 0 {
        assert(s@.subrange(0, s@.len() as int) =~= s@);
        return s.to_owned();
    }
    let mut out = String::new();
    let mut i: usize = 0;
    assert(out@ + renamed(s@, w@, new_val@) =~= renamed(s@, w@, new_val@));
    while i < v.len()
        invariant
            v@ == s@,
            w@ == old_word@,
            w.len() > 0,
            i <= v.len(),
            renamed(s@, w@, new_val@) == out@ + renamed_from(s@, w@, new_val@, i as int),
        decreases v.len() - i,
    {
        let ghost before = out@;
        if is_word_at(&v, &w, i) {
            out.append(new_val);
            assert(before + (new_val@ + renamed_from(s@, w@, new_val@, i + w@.len())) =~= out@
                + renamed_from(s@, w@, new_val@, i + w@.len()));
            i += w.len();
        } else {
            out.push(v[i]);
            assert(before + (seq![s@[i as int]] + renamed_from(s@, w@, new_val@, i + 1)) =~= out@
                + renamed_from(s@, w@, new_val@, i + 1));
            i += 1;
        }
    }
    assert(out@ + s@.subrange(i as int, s@.len() as int) =~= out@);
    out
}

} // verus!
