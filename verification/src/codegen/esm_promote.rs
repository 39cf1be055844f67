//! Exports promoted into function declarations, and loads that the module still makes.

use crate::ir::model;
use crate::names;
use crate::text;
use vstd::prelude::*;

verus! {

/// The name of the function that a line declares without exporting it.
pub open spec fn function_line(line: Seq<char>) -> Option<Seq<char>> {
    let t = text::trimmed_start(line);
    let head = match text::after_prefix(t, "async function "@) {
        Some(r) => Some(r),
        None => text::after_prefix(t, "function "@),
    };
    if text::has_prefix(t, "export "@) {
        None
    } else {
        match head {
            Some(r) => {
                let name = text::word(text::trimmed_start(text::stripped_start(r, "*"@)), "("@);
                if names::valid_identifier(name) {
                    Some(name)
                } else {
                    None
                }
            },
            None => None,
        }
    }
}

/// Whether one of the lines of the body declares the function `name`.
pub open spec fn declares_function(body: Seq<Seq<char>>, name: Seq<char>) -> bool {
    exists|i: int, j: int|
        #![trigger text::lines(body[i])[j]]
        0 <= i < body.len() && 0 <= j < text::lines(body[i]).len() && function_line(
            text::lines(body[i])[j],
        ) == Some(name)
}

/// The name that `export const name = ..` exports.
pub open spec fn constant_export(line: Seq<char>) -> Option<Seq<char>> {
    match text::after_prefix(line, "export const "@) {
        Some(rest) => match text::cut(rest, " = "@) {
            Some(p) => Some(text::trimmed(p.0)),
            None => None,
        },
        None => None,
    }
}

/// Whether an export line exports a function that the body declares.
pub open spec fn promotes(body: Seq<Seq<char>>, line: Seq<char>) -> bool {
    match constant_export(line) {
        Some(n) => declares_function(body, n),
        None => false,
    }
}

/// The exports that stay.
pub open spec fn kept_exports(body: Seq<Seq<char>>, exports: Seq<Seq<char>>) -> Seq<Seq<char>>
    decreases exports.len(),
{
    if exports.len() == 0 {
        Seq::empty()
    } else if promotes(body, exports.last()) {
        kept_exports(body, exports.drop_last())
    } else {
        kept_exports(body, exports.drop_last()).push(exports.last())
    }
}

/// No export that stays declares a constant under the name of a function of the body.
pub proof fn lemma_kept_exports_redeclare_nothing(
    body: Seq<Seq<char>>,
    exports: Seq<Seq<char>>,
    i: int,
)
    requires
        0 <= i < kept_exports(body, exports).len(),
    ensures
        !promotes(body, kept_exports(body, exports)[i]),
    decreases exports.len(),
{
    let before = kept_exports(body, exports.drop_last());
    if i < before.len() {
        lemma_kept_exports_redeclare_nothing(body, exports.drop_last(), i);
    }
}

/// `export` put before the declarations of the function `name`, never twice.
pub open spec fn exported(s: Seq<char>, name: Seq<char>) -> Seq<char> {
    let a = text::replaced(
        s,
        "async function "@ + name + "("@,
        "export async function "@ + name + "("@,
    );
    let b = text::replaced(a, "function "@ + name + "("@, "export function "@ + name + "("@);
    let c = text::replaced(
        b,
        "async export function "@ + name + "("@,
        "async function "@ + name + "("@,
    );
    let d = text::replaced(
        c,
        "async function* "@ + name + "("@,
        "export async function* "@ + name + "("@,
    );
    let e = text::replaced(d, "function* "@ + name + "("@, "export function* "@ + name + "("@);
    let f = text::replaced(
        e,
        "async export function* "@ + name + "("@,
        "async function* "@ + name + "("@,
    );
    text::replaced(f, "export export "@, "export "@)
}

/// A body text with the functions promoted that the exports name, in the order of the exports.
pub open spec fn promoted(body: Seq<Seq<char>>, exports: Seq<Seq<char>>, s: Seq<char>) -> Seq<char>
    decreases exports.len(),
{
    if exports.len() == 0 {
        s
    } else {
        let before = promoted(body, exports.drop_last(), s);
        if promotes(body, exports.last()) {
            exported(before, constant_export(exports.last())->0)
        } else {
            before
        }
    }
}

pub open spec fn all_promoted(body: Seq<Seq<char>>, exports: Seq<Seq<char>>) -> Seq<Seq<char>> {
    Seq::new(body.len(), |i: int| promoted(body, exports, body[i]))
}

fn read_function_line(line: &str) -> (r: Option<String>)
    ensures
        text::opt(r) == function_line(line@),
{
    let t = text::trim_start(line);
    if text::starts_with(&t, "export ") {
        return None;
    }
    let head = match text::strip_prefix(&t, "async function ") {
        Some(r) => Some(r),
        None => text::strip_prefix(&t, "function "),
    };
    match head {
        Some(r) => {
            let name = text::first_word(&text::trim_start(&text::strip_start(&r, "*")), "(");
            if names::is_valid_identifier(&name) {
                Some(name)
            } else {
                None
            }
        },
        None => None,
    }
}

fn find_function(body: &Vec<String>, name: &str) -> (r: bool)
    ensures
        r == declares_function(model::texts(body@), name@),
{
    let ghost all = model::texts(body@);
    let mut i: usize = 0;
    while i < body.len()
        invariant
            i <= body.len(),
            all == model::texts(body@),
            forall|a: int, b: int|
                #![trigger text::lines(all[a])[b]]
                0 <= a < i && 0 <= b < text::lines(all[a]).len() ==> function_line(
                    text::lines(all[a])[b],
                ) != Some(name@),
        decreases body.len() - i,
    {
        assert(all[i as int] == body@[i as int]@);
        let ls = text::lines_of(&body[i]);
        let ghost lv = text::lines(all[i as int]);
        assert(model::texts(ls@) == lv);
        assert(lv.len() == ls@.len());
        let mut j: usize = 0;
        while j < ls.len()
            invariant
                i < body.len(),
                j <= ls.len(),
                all == model::texts(body@),
                lv == text::lines(all[i as int]),
                model::texts(ls@) == lv,
                lv.len() == ls@.len(),
                forall|b: int|
                    0 <= b < j ==> function_line(#[trigger] lv[b]) != Some(name@),
            decreases ls.len() - j,
        {
            assert(lv[j as int] == ls@[j as int]@);
            if let Some(n) = read_function_line(&ls[j]) {
                if text::same(&n, name) {
                    assert(function_line(text::lines(all[i as int])[j as int]) == Some(name@));
                    return true;
                }
            }
            j += 1;
        }
        i += 1;
    }
    false
}

fn read_constant_export(line: &str) -> (r: Option<String>)
    ensures
        text::opt(r) == constant_export(line@),
{
    match text::strip_prefix(line, "export const ") {
        Some(rest) => match text::split_once(&rest, " = ") {
            Some(p) => Some(text::trim(&p.0)),
            None => None,
        },
        None => None,
    }
}

fn swap_head(s: &str, from: &str, to: &str, name: &str) -> (r: String)
    requires
        from@.len() > 0,
    ensures
        r@ == text::replaced(s@, from@ + name@ + "("@, to@ + name@ + "("@),
{
    text::replace(s, &text::concat3(from, name, "("), &text::concat3(to, name, "("))
}

fn export_function(s: &str, name: &str) -> (r: String)
    ensures
        r@ == exported(s@, name@),
{
    proof {
        reveal_strlit("async function ");
        reveal_strlit("function ");
        reveal_strlit("async export function ");
        reveal_strlit("async function* ");
        reveal_strlit("function* ");
        reveal_strlit("async export function* ");
        reveal_strlit("export export ");
    }
    let a = swap_head(s, "async function ", "export async function ", name);
    let b = swap_head(&a, "function ", "export function ", name);
    let c = swap_head(&b, "async export function ", "async function ", name);
    let d = swap_head(&c, "async function* ", "export async function* ", name);
    let e = swap_head(&d, "function* ", "export function* ", name);
    let f = swap_head(&e, "async export function* ", "async function* ", name);
    text::replace(&f, "export export ", "export ")
}

fn promote_in(body: &Vec<String>, exports: &Vec<String>, s: &str) -> (r: String)
    ensures
        r@ == promoted(model::texts(body@), model::texts(exports@), s@),
{
    let ghost bo = model::texts(body@);
    let ghost all = model::texts(exports@);
    let mut out = s.to_owned();
    let mut i: usize = 0;
    while i < exports.len()
        invariant
            i <= exports.len(),
            bo == model::texts(body@),
            all == model::texts(exports@),
            out@ == promoted(bo, all.take(i as int), s@),
        decreases exports.len() - i,
    {
        assert(all.take(i + 1).drop_last() =~= all.take(i as int));
        if let Some(n) = read_constant_export(&exports[i]) {
            if find_function(body, &n) {
                out = export_function(&out, &n);
            }
        }
        i += 1;
    }
    assert(all.take(all.len() as int) =~= all);
    out
}

/// Where the body declares a function that an `export const` exports, exports the declaration
/// instead and drops the constant.
pub fn dedupe_function_export_collisions(body_stmts: &mut Vec<String>, exports: &mut Vec<String>)
    ensures
        model::texts(final(body_stmts)@) == all_promoted(
            model::texts(old(body_stmts)@),
            model::texts(old(exports)@),
        ),
        model::texts(final(exports)@) == kept_exports(
            model::texts(old(body_stmts)@),
            model::texts(old(exports)@),
        ),
{
    let ghost bo = model::texts(body_stmts@);
    let ghost ex = model::texts(exports@);
    let mut new_body: Vec<String> = Vec::new();
    let mut i: usize = 0;
    while i < body_stmts.len()
        invariant
            i <= body_stmts.len(),
            bo == model::texts(body_stmts@),
            ex == model::texts(exports@),
            new_body.len() == i,
            forall|k: int| 0 <= k < i ==> (#[trigger] new_body@[k])@ == promoted(bo, ex, bo[k]),
        decreases body_stmts.len() - i,
    {
        assert(bo[i as int] == body_stmts@[i as int]@);
        new_body.push(promote_in(body_stmts, exports, &body_stmts[i]));
        i += 1;
    }
    assert(model::texts(new_body@) =~= all_promoted(bo, ex));
    let mut kept: Vec<String> = Vec::new();
    let mut j: usize = 0;
    assert(model::texts(kept@) =~= Seq::empty());
    while j < exports.len()
        invariant
            j <= exports.len(),
            bo == model::texts(body_stmts@),
            ex == model::texts(exports@),
            model::texts(kept@) == kept_exports(bo, ex.take(j as int)),
        decreases exports.len() - j,
    {
        assert(ex.take(j + 1).drop_last() =~= ex.take(j as int));
        let goes: bool = match read_constant_export(&exports[j]) {
            Some(n) => find_function(body_stmts, &n),
            None => false,
        };
        let ghost before = kept@;
        if !goes {
            kept.push(exports[j].clone());
            assert(model::texts(kept@) =~= model::texts(before).push(ex[j as int]));
        }
        j += 1;
    }
    assert(ex.take(ex.len() as int) =~= ex);
    *body_stmts = new_body;
    *exports = kept;
}

/// Whether the word `require` stands at `i` by itself: not as a property, nor as the end of a
/// longer name.
pub open spec fn require_word(s: Seq<char>, i: int) -> bool {
    &&& text::occurs_at(s, "require"@, i)
    &&& i > 0 ==> s[i - 1] != '.' && s[i - 1] != '_' && !text::alphanumeric(s[i - 1])
}

/// What follows the word `require` at `i`, white space skipped.
pub open spec fn behind_require(s: Seq<char>, i: int) -> Seq<char> {
    text::trimmed_start(s.subrange(i + "require"@.len(), s.len() as int))
}

pub open spec fn calls_at(s: Seq<char>, i: int) -> bool {
    require_word(s, i) && text::has_prefix(behind_require(s, i), "("@)
}

pub open spec fn binds_at(s: Seq<char>, i: int) -> bool {
    &&& require_word(s, i)
    &&& text::has_prefix(behind_require(s, i), "="@)
    &&& !text::has_prefix(behind_require(s, i), "=="@)
}

pub open spec fn line_calls(s: Seq<char>) -> bool {
    exists|i: int| calls_at(s, i)
}

pub open spec fn line_binds(s: Seq<char>) -> bool {
    exists|i: int| binds_at(s, i)
}

pub open spec fn any_calls(lines: Seq<Seq<char>>) -> bool {
    exists|k: int| 0 <= k < lines.len() && line_calls(#[trigger] lines[k])
}

pub open spec fn any_binds(lines: Seq<Seq<char>>) -> bool {
    exists|k: int| 0 <= k < lines.len() && line_binds(#[trigger] lines[k])
}

/// Whether the lines call `require` without binding it.
pub open spec fn dangling_require(lines: Seq<Seq<char>>) -> bool {
    any_calls(lines) && !any_binds(lines)
}

/// Whether one line calls `require`, and whether it binds the name.
fn scan_require(s: &str) -> (r: (bool, bool))
    ensures
        r.0 == line_calls(s@),
        r.1 == line_binds(s@),
{
    let v = text::chars_of(s);
    let w = text::chars_of("require");
    let mut calls: bool = false;
    let mut binds: bool = false;
    let mut i: usize = 0;
    while i < v.len()
        invariant
            v@ == s@,
            w@ == "require"@,
            i <= v.len(),
            calls == exists|k: int| 0 <= k < i && #[trigger] calls_at(s@, k),
            binds == exists|k: int| 0 <= k < i && #[trigger] binds_at(s@, k),
        decreases v.len() - i,
    {
        let free: bool = i == 0 || (v[i - 1] != '.' && v[i - 1] != '_' && !text::is_alphanumeric(
            v[i - 1],
        ));
        if text::occurs_here(&v, &w, i) && free {
            let after = text::trim_start(&text::slice(s, i + w.len(), v.len()));
            assert(after@ == behind_require(s@, i as int));
            if text::starts_with(&after, "(") {
                assert(calls_at(s@, i as int));
                calls = true;
            }
            if text::starts_with(&after, "=") && !text::starts_with(&after, "==") {
                assert(binds_at(s@, i as int));
                binds = true;
            }
        }
        i += 1;
    }
    proof {
        reveal_strlit("require");
        assert forall|k: int| calls_at(s@, k) implies 0 <= k < s@.len() by {}
        assert forall|k: int| binds_at(s@, k) implies 0 <= k < s@.len() by {}
    }
    (calls, binds)
}

/// Whether the rendered lines call `require` without binding it first. A property access or a
/// longer identifier that ends in `require` is no call of the module loader.
pub fn body_calls_require(lines: &Vec<String>) -> (r: bool)
    ensures
        r == dangling_require(model::texts(lines@)),
{
    let ghost all = model::texts(lines@);
    let mut calls: bool = false;
    let mut binds: bool = false;
    let mut i: usize = 0;
    while i < lines.len()
        invariant
            i <= lines.len(),
            all == model::texts(lines@),
            calls == exists|k: int| 0 <= k < i && line_calls(#[trigger] all[k]),
            binds == exists|k: int| 0 <= k < i && line_binds(#[trigger] all[k]),
        decreases lines.len() - i,
    {
        assert(all[i as int] == lines@[i as int]@);
        let (c, b) = scan_require(&lines[i]);
        if c {
            calls = true;
        }
        if b {
            binds = true;
        }
        i += 1;
    }
    calls && !binds
}

} // verus!
