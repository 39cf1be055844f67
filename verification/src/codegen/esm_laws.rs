//! What holds of the import header as a whole: what it keeps, and that it settles.

use super::esm_imports;
use super::esm_imports::Entry;
use super::esm_lines;
use super::esm_patterns;
use super::esm_pieces;
use super::esm_pieces::{
    leading, lemma_comma, lemma_find_char, lemma_joined_holds_no_brace,
    lemma_joined_pieces, lemma_last_piece, lemma_piece_chars, lemma_push_contains, lemma_rfind,
    lemma_rfind_behind, lemma_rfind_bound, lemma_rfind_is, lemma_tidy, lemma_tidy_keeps,
    lemma_tight_is_trimmed, lemma_trimmed, lemma_trimmed_start,
    lemma_trimmed_twice, trailing,
};
use super::esm_specifiers;
use crate::names;
use crate::text;
use vstd::prelude::*;

verus! {

proof fn lemma_same_locals(p: Seq<Seq<char>>, k: Seq<Seq<char>>)
    requires
        p.len() == k.len(),
        forall|i: int| 0 <= i < k.len() ==> text::trimmed(#[trigger] p[i]) == text::trimmed(k[i]),
    ensures
        esm_specifiers::locals(p) == esm_specifiers::locals(k),
    decreases k.len(),
{
    if k.len() > 0 {
        let p1 = p.drop_last();
        let k1 = k.drop_last();
        assert forall|i: int| 0 <= i < k1.len() implies text::trimmed(#[trigger] p1[i])
            == text::trimmed(k1[i]) by {
            assert(text::trimmed(p[i]) == text::trimmed(k[i]));
        }
        lemma_same_locals(p1, k1);
        assert(text::trimmed(p[p.len() - 1]) == text::trimmed(k[k.len() - 1]));
    }
}

/// A list that was written is read back with its names.
proof fn lemma_list_line(k: Seq<Seq<char>>, after: Seq<char>)
    requires
        k.len() > 0,
        esm_pieces::all_clean(k),
        esm_pieces::unbraced(k),
    ensures
        esm_specifiers::listed(esm_specifiers::list_line(k, after)) matches Some(p) && p.1 == after,
        esm_specifiers::line_bindings(esm_specifiers::list_line(k, after))
            == esm_specifiers::locals(k),
{
    lemma_comma();
    reveal_strlit("import {");
    reveal_strlit("import { ");
    reveal_strlit(" }");
    let line = esm_specifiers::list_line(k, after);
    let j = text::joined(k, ", "@);
    let inner = seq![' '] + j + seq![' '];
    let rest = line.subrange("import {"@.len() as int, line.len() as int);
    assert(line.subrange(0, "import {"@.len() as int) =~= "import {"@);
    assert(rest =~= inner + seq!['}'] + after);
    lemma_joined_holds_no_brace(k);
    assert forall|n: int| 0 <= n < inner.len() implies rest[n] != '}' by {
        if 1 <= n < 1 + j.len() {
            assert(rest[n] == j[n - 1]);
            assert(j.contains(j[n - 1]));
        }
    }
    assert(rest[inner.len() as int] == '}');
    lemma_find_char(rest, '}', inner.len() as int);
    assert(rest.subrange(0, inner.len() as int) =~= inner);
    assert(rest.subrange(inner.len() as int + 1, rest.len() as int) =~= after);
    lemma_joined_pieces(k, seq![' '], seq![' ']);
    let p = esm_imports::comma_pieces(inner);
    assert forall|i: int| 0 <= i < k.len() implies text::trimmed(#[trigger] p[i])
        == text::trimmed(k[i]) by {
        assert(esm_pieces::clean(k[i]));
        lemma_tight_is_trimmed(Seq::empty(), k[i], Seq::empty());
        assert(Seq::<char>::empty() + k[i] + Seq::<char>::empty() =~= k[i]);
    }
    lemma_same_locals(p, k);
}

/// The names of the specifiers kept are those of all specifiers, each once.
proof fn lemma_kept_names(specs: Seq<Seq<char>>)
    ensures
        ({
            let names = esm_specifiers::locals(esm_specifiers::kept(specs));
            names.no_duplicates() && forall|b: Seq<char>| #[trigger]
                names.contains(b) <==> esm_specifiers::locals(specs).contains(b)
        }),
    decreases specs.len(),
{
    let names = esm_specifiers::locals(esm_specifiers::kept(specs));
    let all = esm_specifiers::locals(specs);
    if specs.len() > 0 {
        let rest = specs.drop_last();
        let x = specs.last();
        lemma_kept_names(rest);
        lemma_trimmed_twice(x);
        let k = esm_specifiers::kept(rest);
        let before = esm_specifiers::locals(k);
        let t = text::trimmed(x);
        assert(k.push(t).drop_last() =~= k);
        assert(esm_specifiers::local_name(t) == esm_specifiers::local_name(x));
        if let Some(n) = esm_specifiers::local_name(x) {
            let was = esm_specifiers::locals(rest);
            assert forall|b: Seq<char>| #[trigger] all.contains(b) <==> was.contains(b) || b
                == n by {
                lemma_push_contains(was, n, b);
            }
            if was.contains(n) {
                assert(names == before);
            } else {
                assert(names == before.push(n));
                assert forall|b: Seq<char>| #[trigger] names.contains(b) <==> before.contains(b)
                    || b == n by {
                    lemma_push_contains(before, n, b);
                }
                assert(!before.contains(n));
                assert(names.no_duplicates());
            }
        }
    } else {
        assert(names =~= Seq::empty());
        assert(all =~= Seq::empty());
    }
}

/// The specifiers kept of a list can be written again.
proof fn lemma_kept_is_clean(inner: Seq<char>, specs: Seq<Seq<char>>)
    requires
        !inner.contains('}'),
        forall|i: int, c: char|
            0 <= i < specs.len() && #[trigger] specs[i].contains(c) ==> c != ',' && inner.contains(
                c,
            ),
    ensures
        esm_pieces::all_clean(esm_specifiers::kept(specs)),
        esm_pieces::unbraced(esm_specifiers::kept(specs)),
    decreases specs.len(),
{
    if specs.len() > 0 {
        let rest = specs.drop_last();
        let x = specs.last();
        assert forall|i: int, c: char| 0 <= i < rest.len() && #[trigger] rest[i].contains(
            c,
        ) implies c != ',' && inner.contains(c) by {
            assert(specs[i].contains(c));
        }
        lemma_kept_is_clean(inner, rest);
        let t = text::trimmed(x);
        lemma_trimmed(x);
        if t.len() == 0 {
            lemma_empty_has_no_name(x);
        } else {
            assert(specs[specs.len() - 1] == x);
            if t.contains(',') {
                let n = choose|n: int| 0 <= n < t.len() && t[n] == ',';
                assert(x.contains(t[n]));
                assert(specs[specs.len() - 1].contains(','));
            }
            if t.contains('}') {
                let n = choose|n: int| 0 <= n < t.len() && t[n] == '}';
                assert(x.contains(t[n]));
                assert(specs[specs.len() - 1].contains('}'));
            }
            assert(esm_pieces::clean(t));
        }
        let k = esm_specifiers::kept(specs);
        let before = esm_specifiers::kept(rest);
        assert forall|i: int| 0 <= i < k.len() implies esm_pieces::clean(#[trigger] k[i])
            && !k[i].contains('}') by {
            if i < before.len() {
                assert(esm_pieces::clean(before[i]));
                assert(!before[i].contains('}'));
            }
        }
    }
}

proof fn lemma_empty_has_no_name(x: Seq<char>)
    requires
        text::trimmed(x).len() == 0,
    ensures
        esm_specifiers::local_name(x) is None,
{
    reveal_strlit(" as ");
    reveal_strlit(" ");
    let t = " "@ + text::trimmed(x);
    assert(t =~= seq![' ']);
    assert(esm_lines::last_alias(t) == t);
    assert(t.subrange(1, 1) =~= Seq::<char>::empty());
    assert(text::trimmed_start(t).len() == 0) by {
        reveal_with_fuel(text::trimmed_start, 2);
    }
}

/// A side-effect import introduces no name.
pub proof fn lemma_bare_import_binds_nothing(m: Seq<char>)
    ensures
        esm_specifiers::line_bindings(esm_patterns::bare_import(m)) == Seq::<Seq<char>>::empty(),
{
    reveal_strlit("import \"");
    reveal_strlit("import ");
    reveal_strlit("import {");
    reveal_strlit("{");
    reveal_strlit("* as ");
    let line = esm_patterns::bare_import(m);
    let head = "import "@;
    assert(line.subrange(0, head.len() as int) =~= head);
    let rest = line.subrange(head.len() as int, line.len() as int);
    assert(rest[0] == '"');
    assert(line[7] == '"');
    if text::has_prefix(line, "import {"@) {
        assert(line.subrange(0, "import {"@.len() as int)[7] == '{');
    }
    if text::has_prefix(rest, "{"@) {
        assert(rest.subrange(0, 1)[0] == '{');
    }
    if text::has_prefix(rest, "* as "@) {
        assert(rest.subrange(0, "* as "@.len() as int)[0] == '*');
    }
    assert(text::trimmed_start(rest) == rest);
    let w = text::word(rest, Seq::empty());
    assert(w[0] == '"');
    assert(!names::ident_char('"'));
}

/// Whether a line that introduces a name also names a module.
pub open spec fn sourced(line: Seq<char>) -> bool {
    esm_specifiers::line_bindings(line).len() > 0 ==> esm_lines::line_module(line) is Some
}

/// A line with each name once introduces the names that it had.
pub proof fn lemma_single_names(line: Seq<char>)
    ensures
        ({
            let names = esm_specifiers::line_bindings(esm_specifiers::single(line));
            names.no_duplicates() && forall|b: Seq<char>| #[trigger]
                names.contains(b) <==> esm_specifiers::line_bindings(line).contains(b)
        }),
{
    if let Some(p) = esm_specifiers::listed(line) {
        if !esm_specifiers::locals(p.0).no_duplicates() {
            let k = esm_specifiers::kept(p.0);
            lemma_kept_names(p.0);
            lemma_list_is_clean(line);
            assert(k.len() > 0) by {
                let all = esm_specifiers::locals(p.0);
                assert(all.len() > 0);
                assert(all.contains(all[0]));
                assert(esm_specifiers::locals(k).contains(all[0]));
            }
            lemma_list_line(k, p.1);
        }
    }
}

proof fn lemma_list_is_clean(line: Seq<char>)
    requires
        esm_specifiers::listed(line) is Some,
    ensures
        esm_specifiers::listed(line) matches Some(p) && esm_pieces::all_clean(
            esm_specifiers::kept(p.0),
        ) && esm_pieces::unbraced(esm_specifiers::kept(p.0)),
{
    lemma_comma();
    let rest = text::after_prefix(line, "import {"@)->0;
    text::lemma_find_from(rest, "}"@, 0);
    let at = text::find_in(rest, "}"@)->0;
    let inner = rest.subrange(0, at);
    if inner.contains('}') {
        let n = choose|n: int| 0 <= n < inner.len() && inner[n] == '}';
        assert(rest.subrange(n, n + 1) =~= seq!['}']);
        assert(text::occurs_at(rest, "}"@, n));
    }
    let specs = esm_imports::comma_pieces(inner);
    assert forall|i: int, c: char| 0 <= i < specs.len() && #[trigger] specs[i].contains(
        c,
    ) implies c != ',' && inner.contains(c) by {
        lemma_piece_chars(inner, i, c);
    }
    lemma_kept_is_clean(inner, specs);
}

/// The name behind the last ` as ` of a specifier is its local name.
proof fn lemma_alias_is_local(w: Seq<char>, a: Seq<char>)
    requires
        names::valid_identifier(text::trimmed(a)),
        forall|j: int| w.len() < j ==> !text::occurs_at(w + " as "@ + a, " as "@, j),
    ensures
        esm_specifiers::local_name(w + " as "@ + a) == Some(text::trimmed(a)),
{
    reveal_strlit(" as ");
    reveal_strlit(" ");
    let p = " as "@;
    let b = text::trimmed(a);
    let r = w + p + a;
    lemma_trimmed(a);
    let la = leading(a);
    let ea = trailing(text::trimmed_start(a));
    assert(a =~= la + b + ea);
    let core = w + p + la + b;
    assert(r =~= core + ea);
    let l = leading(core);
    let t = text::trimmed_start(core);
    lemma_trimmed_start(core);
    assert(core =~= l + t);
    let q = w.len() as int;
    assert(core[q + 1] == 'a');
    if l.len() > q + 1 {
        assert(l[q + 1] == core[q + 1]);
        assert(text::white(l[q + 1]));
    }
    assert(t.len() > 0);
    assert(t.last() == core.last());
    assert(core.last() == b.last());
    assert(r =~= l + t + ea);
    lemma_tight_is_trimmed(l, t, ea);
    let u = " "@ + t;
    let k = q - l.len() + 1;
    assert forall|n: int| 0 <= n < 4 implies u[k + n] == p[n] by {
        if k + n > 0 {
            assert(u[k + n] == t[k + n - 1]);
            assert(t[k + n - 1] == core[q + n]);
        }
    }
    assert(u.subrange(k, k + 4) =~= p);
    assert forall|j: int| k < j implies !text::occurs_at(u, p, j) by {
        if text::occurs_at(u, p, j) {
            let i = j - 1 + l.len();
            assert forall|n: int| 0 <= n < 4 implies r[i + n] == p[n] by {
                assert(u.subrange(j, j + 4)[n] == u[j + n]);
                assert(u[j + n] == t[j + n - 1]);
                assert(t[j + n - 1] == core[i + n]);
            }
            assert(r.subrange(i, i + 4) =~= p);
            assert(text::occurs_at(r, p, i));
        }
    }
    lemma_rfind_is(u, p, k);
    let rest = u.subrange(k + 4, u.len() as int);
    assert(rest =~= la + b + Seq::<char>::empty()) by {
        assert forall|n: int| 0 <= n < rest.len() implies rest[n] == (la + b)[n] by {
            assert(rest[n] == u[k + 4 + n]);
            assert(u[k + 4 + n] == t[k + 3 + n]);
            assert(t[k + 3 + n] == core[q + 4 + n]);
        }
    }
    lemma_tight_is_trimmed(la, b, Seq::empty());
}

/// A name alone is its own local name.
proof fn lemma_name_is_local(a: Seq<char>)
    requires
        names::valid_identifier(text::trimmed(a)),
    ensures
        esm_specifiers::local_name(a) == Some(text::trimmed(a)),
{
    reveal_strlit(" as ");
    reveal_strlit(" ");
    let b = text::trimmed(a);
    let u = " "@ + b;
    lemma_trimmed(a);
    lemma_rfind(u, " as "@, u.len() - 4);
    if let Some(k) = text::rfind_in(u, " as "@) {
        assert(u.subrange(k, k + 4)[3] == ' ');
        assert(u[k + 3] == b[k + 2]);
        assert(names::ident_char(b[k + 2]));
    }
    assert(u =~= seq![' '] + b + Seq::<char>::empty());
    lemma_tight_is_trimmed(seq![' '], b, Seq::empty());
}

/// A text whose trimmed form is a name holds no comma.
proof fn lemma_named_text_has_no_comma(a: Seq<char>)
    requires
        names::valid_identifier(text::trimmed(a)),
    ensures
        !a.contains(','),
{
    let b = text::trimmed(a);
    let la = leading(a);
    let ea = trailing(text::trimmed_start(a));
    assert(a =~= la + b + ea);
    if a.contains(',') {
        let k = choose|k: int| 0 <= k < a.len() && a[k] == ',';
        if k < la.len() {
            assert(text::white(la[k]));
        } else if k < la.len() + b.len() {
            assert(names::ident_char(b[k - la.len()]));
        } else {
            assert(text::white(ea[k - la.len() - b.len()]));
        }
    }
}

/// The name that the end of a list gives is the local name of its last specifier.
proof fn lemma_last_specifier(inner: Seq<char>)
    requires
        names::valid_identifier(text::trimmed(esm_lines::last_alias(inner))),
    ensures
        esm_imports::comma_pieces(inner).len() > 0,
        esm_specifiers::local_name(esm_imports::comma_pieces(inner).last()) == Some(
            text::trimmed(esm_lines::last_alias(inner)),
        ),
{
    reveal_strlit(" as ");
    let p = " as "@;
    let a = esm_lines::last_alias(inner);
    lemma_named_text_has_no_comma(a);
    lemma_rfind(inner, p, inner.len() - 4);
    match text::rfind_in(inner, p) {
        Some(i) => {
            let x = inner.subrange(0, i + 4);
            assert(inner =~= x + a);
            assert forall|j: int| i <= j < x.len() implies x[j] != ',' by {
                assert(inner.subrange(i, i + 4)[j - i] == p[j - i]);
            }
            let n = lemma_last_piece(x, a, i);
            let r = x.subrange(n, x.len() as int) + a;
            let w = x.subrange(n, i);
            assert forall|j: int| 0 <= j < 4 implies x[i + j] == p[j] by {
                assert(inner.subrange(i, i + 4)[j] == p[j]);
            }
            assert(r =~= w + p + a);
            assert forall|j: int| w.len() < j implies !text::occurs_at(w + p + a, p, j) by {
                if text::occurs_at(w + p + a, p, j) {
                    assert(inner.subrange(j + n, j + n + 4) =~= r.subrange(j, j + 4));
                    assert(text::occurs_at(inner, p, j + n));
                }
            }
            lemma_alias_is_local(w, a);
        },
        None => {
            let n = lemma_last_piece(Seq::empty(), a, 0);
            assert(Seq::<char>::empty() + a =~= a);
            assert(Seq::<char>::empty().subrange(0, 0) + a =~= a);
            lemma_name_is_local(a);
        },
    }
}

/// The binding that an import line introduces is among all the names that it introduces.
pub proof fn lemma_binding_is_among_names(line: Seq<char>)
    ensures
        esm_lines::line_binding(line) matches Some(b) ==> esm_specifiers::line_bindings(
            line,
        ).contains(b),
{
    if let Some(b) = esm_lines::line_binding(line) {
        match esm_specifiers::listed(line) {
            Some(p) => {
                reveal_strlit("import ");
                reveal_strlit("import {");
                reveal_strlit("{");
                let whole = "import {"@;
                let head = "import "@;
                assert(line.subrange(0, 8) == whole);
                assert(line.subrange(0, 7) =~= head) by {
                    assert forall|i: int| 0 <= i < 7 implies line[i] == head[i] by {
                        assert(line.subrange(0, 8)[i] == whole[i]);
                    }
                }
                let rest = line.subrange(7, line.len() as int);
                assert(rest[0] == line.subrange(0, 8)[7]);
                assert(rest.subrange(0, 1) =~= "{"@);
                assert(rest.subrange(1, rest.len() as int) =~= line.subrange(
                    8,
                    line.len() as int,
                ));
                let inner = text::cut(line.subrange(8, line.len() as int), "}"@)->0;
                lemma_last_specifier(inner.0);
                let names = esm_specifiers::line_bindings(line);
                assert(names[names.len() - 1] == b);
            },
            None => {
                assert(esm_specifiers::line_bindings(line)[0] == b);
            },
        }
    }
}

pub open spec fn all_sourced(lines: Seq<Seq<char>>) -> bool {
    forall|k: int| 0 <= k < lines.len() ==> sourced(#[trigger] lines[k])
}

/// Whether a line for which a binding can be read also names a module.
pub open spec fn anchored(line: Seq<char>) -> bool {
    esm_lines::line_binding(line) is Some ==> esm_lines::line_module(line) is Some
}

/// A name is claimed that was before, or by a line that keeps it.
proof fn lemma_claimed(
    lines: Seq<Seq<char>>,
    first: Seq<Seq<char>>,
    named: bool,
    n: int,
    b: Seq<char>,
)
    requires
        0 <= n <= lines.len(),
    ensures
        esm_lines::claimed(lines, first, named, n).contains(b) <==> first.contains(b) || exists|
            k: int,
        |
            0 <= k < n && claims(lines, first, named, k, b),
    decreases n,
{
    if n > 0 {
        let before = esm_lines::claimed(lines, first, named, n - 1);
        lemma_claimed(lines, first, named, n - 1, b);
        let own = esm_specifiers::line_bindings(lines[n - 1]);
        let now = esm_lines::claimed(lines, first, named, n);
        if now != before {
            assert(now == before + own);
            if before.contains(b) {
                let k = choose|k: int| 0 <= k < before.len() && before[k] == b;
                assert(now[k] == b);
            }
            if own.contains(b) {
                let k = choose|k: int| 0 <= k < own.len() && own[k] == b;
                assert(now[before.len() + k] == b);
            }
            if now.contains(b) {
                let k = choose|k: int| 0 <= k < now.len() && now[k] == b;
                if k < before.len() {
                    assert(before[k] == b);
                } else {
                    assert(own[k - before.len()] == b);
                    assert(claims(lines, first, named, n - 1, b));
                }
            }
        }
        if exists|k: int| 0 <= k < n && claims(lines, first, named, k, b) {
            let k = choose|k: int| 0 <= k < n && claims(lines, first, named, k, b);
            if k < n - 1 {
                assert(before.contains(b));
            }
        }
    }
}

/// Whether the line at `k` keeps the name `b`, where the names in `first` are taken.
spec fn claims(
    lines: Seq<Seq<char>>,
    first: Seq<Seq<char>>,
    named: bool,
    k: int,
    b: Seq<char>,
) -> bool {
    &&& esm_lines::named_after(lines[k]) == named
    &&& esm_lines::free_of(lines[k], esm_lines::claimed(lines, first, named, k))
    &&& esm_specifiers::line_bindings(lines[k]).contains(b)
}

/// The names before a line belong to other lines that keep them.
proof fn lemma_claimed_before(lines: Seq<Seq<char>>, i: int, b: Seq<char>) -> (k: int)
    requires
        0 <= i < lines.len(),
        esm_lines::claimed_before(lines, i).contains(b),
    ensures
        0 <= k < lines.len(),
        k != i,
        esm_lines::keeps(lines, k),
        esm_specifiers::line_bindings(lines[k]).contains(b),
{
    let n = lines.len() as int;
    let none = Seq::<Seq<char>>::empty();
    if esm_lines::named_after(lines[i]) {
        lemma_claimed(lines, none, true, i, b);
        choose|k: int| 0 <= k < i && claims(lines, none, true, k, b)
    } else {
        let first = esm_lines::claimed(lines, none, true, n);
        lemma_claimed(lines, first, false, i, b);
        if first.contains(b) {
            lemma_claimed(lines, none, true, n, b);
            choose|k: int| 0 <= k < n && claims(lines, none, true, k, b)
        } else {
            choose|k: int| 0 <= k < i && claims(lines, first, false, k, b)
        }
    }
}

/// No two lines that keep their names share one.
proof fn lemma_keepers_share_nothing(lines: Seq<Seq<char>>, i: int, j: int, b: Seq<char>)
    requires
        0 <= i < lines.len(),
        0 <= j < lines.len(),
        i != j,
        esm_lines::keeps(lines, i),
        esm_specifiers::line_bindings(lines[i]).contains(b),
        esm_specifiers::line_bindings(lines[j]).contains(b),
    ensures
        !esm_lines::keeps(lines, j),
    decreases (if esm_lines::named_after(lines[i]) == esm_lines::named_after(lines[j]) && i > j {
        1nat
    } else if !esm_lines::named_after(lines[i]) && esm_lines::named_after(lines[j]) {
        1nat
    } else {
        0nat
    }),
{
    let n = lines.len() as int;
    let none = Seq::<Seq<char>>::empty();
    let ni = esm_lines::named_after(lines[i]);
    let nj = esm_lines::named_after(lines[j]);
    if (ni == nj && i > j) || (!ni && nj) {
        if esm_lines::keeps(lines, j) {
            lemma_keepers_share_nothing(lines, j, i, b);
        }
    } else {
        let own = esm_specifiers::line_bindings(lines[j]);
        let first = esm_lines::claimed(lines, none, true, n);
        if ni && nj {
            assert(claims(lines, none, true, i, b));
            lemma_claimed(lines, none, true, j, b);
        } else if ni {
            assert(claims(lines, none, true, i, b));
            lemma_claimed(lines, none, true, n, b);
            lemma_claimed(lines, first, false, j, b);
        } else {
            assert(claims(lines, first, false, i, b));
            lemma_claimed(lines, first, false, j, b);
        }
        let m = choose|m: int| 0 <= m < own.len() && own[m] == b;
        assert(esm_lines::claimed_before(lines, j).contains(own[m]));
    }
}

/// A line of the demoted ones introduces its names where it keeps them, and else none.
proof fn lemma_demoted_names(lines: Seq<Seq<char>>, k: int)
    requires
        0 <= k < lines.len(),
    ensures
        ({
            let names = esm_specifiers::line_bindings(esm_lines::all_demoted(lines)[k]);
            if esm_lines::keeps(lines, k) {
                names.no_duplicates() && forall|b: Seq<char>| #[trigger]
                    names.contains(b) <==> esm_specifiers::line_bindings(lines[k]).contains(b)
            } else {
                esm_lines::line_module(lines[k]) is Some ==> names.len() == 0
            }
        }),
{
    if esm_lines::keeps(lines, k) {
        lemma_single_names(lines[k]);
    } else if let Some(m) = esm_lines::line_module(lines[k]) {
        lemma_bare_import_binds_nothing(m);
    }
}

proof fn lemma_distinct_is_sourced(lines: Seq<Seq<char>>)
    requires
        all_sourced(lines),
    ensures
        all_sourced(esm_lines::distinct(lines)),
{
    let d = esm_lines::distinct(lines);
    esm_lines::lemma_distinct(lines);
    assert forall|k: int| 0 <= k < d.len() implies sourced(#[trigger] d[k]) by {
        assert(d.contains(d[k]));
        assert(lines.contains(d[k]));
        let n = choose|n: int| 0 <= n < lines.len() && lines[n] == d[k];
        assert(sourced(lines[n]));
    }
}

/// The position among the demoted lines that a line of the result has.
proof fn lemma_origin(lines: Seq<Seq<char>>, i: int) -> (p: int)
    requires
        0 <= i < esm_lines::unique_bindings(lines).len(),
    ensures
        0 <= p < esm_lines::distinct(lines).len(),
        esm_lines::all_demoted(esm_lines::distinct(lines))[p] == esm_lines::unique_bindings(
            lines,
        )[i],
{
    let a = esm_lines::all_demoted(esm_lines::distinct(lines));
    let r = esm_lines::unique_bindings(lines);
    esm_lines::lemma_distinct(a);
    assert(r.contains(r[i]));
    assert(a.contains(r[i]));
    choose|p: int| 0 <= p < a.len() && a[p] == r[i]
}

/// A line that introduces a name after all has kept it, where every such line names a module.
proof fn lemma_kept_origin(lines: Seq<Seq<char>>, i: int) -> (p: int)
    requires
        0 <= i < esm_lines::unique_bindings(lines).len(),
        all_sourced(lines),
    ensures
        0 <= p < esm_lines::distinct(lines).len(),
        esm_lines::all_demoted(esm_lines::distinct(lines))[p] == esm_lines::unique_bindings(
            lines,
        )[i],
        esm_specifiers::line_bindings(esm_lines::unique_bindings(lines)[i]).no_duplicates(),
        forall|b: Seq<char>| #[trigger]
            esm_specifiers::line_bindings(esm_lines::unique_bindings(lines)[i]).contains(b)
                ==> esm_lines::keeps(esm_lines::distinct(lines), p)
                && esm_specifiers::line_bindings(esm_lines::distinct(lines)[p]).contains(b),
{
    let d = esm_lines::distinct(lines);
    lemma_distinct_is_sourced(lines);
    let p = lemma_origin(lines, i);
    lemma_demoted_names(d, p);
    assert(sourced(d[p]));
    if !esm_lines::keeps(d, p) && esm_lines::line_module(d[p]) is None {
        assert(esm_specifiers::bare(d[p]) == d[p]);
    }
    p
}

/// Import bindings are unique: no two lines introduce the same name, and none introduces a name
/// twice.
pub proof fn lemma_bindings_are_unique(lines: Seq<Seq<char>>, i: int, j: int)
    requires
        0 <= i < j < esm_lines::unique_bindings(lines).len(),
        all_sourced(lines),
    ensures
        esm_specifiers::line_bindings(esm_lines::unique_bindings(lines)[i]).no_duplicates(),
        esm_specifiers::line_bindings(esm_lines::unique_bindings(lines)[j]).no_duplicates(),
        forall|b: Seq<char>|
            !(#[trigger] esm_specifiers::line_bindings(esm_lines::unique_bindings(lines)[i]).contains(
                b,
            ) && esm_specifiers::line_bindings(esm_lines::unique_bindings(lines)[j]).contains(b)),
{
    let d = esm_lines::distinct(lines);
    let r = esm_lines::unique_bindings(lines);
    lemma_unique_lines_are_distinct(lines);
    let p = lemma_kept_origin(lines, i);
    let q = lemma_kept_origin(lines, j);
    assert(r[i] != r[j]);
    assert forall|b: Seq<char>|
        !(#[trigger] esm_specifiers::line_bindings(r[i]).contains(b) && esm_specifiers::line_bindings(
            r[j],
        ).contains(b)) by {
        if esm_specifiers::line_bindings(r[i]).contains(b) && esm_specifiers::line_bindings(
            r[j],
        ).contains(b) {
            lemma_keepers_share_nothing(d, p, q, b);
        }
    }
}

/// The bindings read from import lines are unique: no two lines give the same one.
pub proof fn lemma_read_bindings_are_unique(lines: Seq<Seq<char>>, i: int, j: int)
    requires
        0 <= i < j < esm_lines::unique_bindings(lines).len(),
        forall|k: int| 0 <= k < lines.len() ==> anchored(#[trigger] lines[k]),
    ensures
        esm_lines::line_binding(esm_lines::unique_bindings(lines)[i]) is Some
            ==> esm_lines::line_binding(esm_lines::unique_bindings(lines)[i])
            != esm_lines::line_binding(esm_lines::unique_bindings(lines)[j]),
{
    let d = esm_lines::distinct(lines);
    let r = esm_lines::unique_bindings(lines);
    if esm_lines::line_binding(r[i]) is Some && esm_lines::line_binding(r[i])
        == esm_lines::line_binding(r[j]) {
        let b = esm_lines::line_binding(r[i])->0;
        lemma_unique_lines_are_distinct(lines);
        let p = lemma_read_origin(lines, i, b);
        let q = lemma_read_origin(lines, j, b);
        assert(r[i] != r[j]);
        lemma_keepers_share_nothing(d, p, q, b);
    }
}

proof fn lemma_read_origin(lines: Seq<Seq<char>>, i: int, b: Seq<char>) -> (p: int)
    requires
        0 <= i < esm_lines::unique_bindings(lines).len(),
        forall|k: int| 0 <= k < lines.len() ==> anchored(#[trigger] lines[k]),
        esm_lines::line_binding(esm_lines::unique_bindings(lines)[i]) == Some(b),
    ensures
        0 <= p < esm_lines::distinct(lines).len(),
        esm_lines::all_demoted(esm_lines::distinct(lines))[p] == esm_lines::unique_bindings(
            lines,
        )[i],
        esm_lines::keeps(esm_lines::distinct(lines), p),
        esm_specifiers::line_bindings(esm_lines::distinct(lines)[p]).contains(b),
{
    let d = esm_lines::distinct(lines);
    let r = esm_lines::unique_bindings(lines);
    let p = lemma_origin(lines, i);
    esm_lines::lemma_distinct(lines);
    assert(d.contains(d[p]));
    assert(lines.contains(d[p]));
    let n = choose|n: int| 0 <= n < lines.len() && lines[n] == d[p];
    assert(anchored(lines[n]));
    lemma_demoted_names(d, p);
    lemma_binding_is_among_names(r[i]);
    if !esm_lines::keeps(d, p) && esm_lines::line_module(d[p]) is None {
        assert(r[i] == d[p]);
    }
    p
}

/// No two lines of the imports with unique bindings are equal.
pub proof fn lemma_unique_lines_are_distinct(lines: Seq<Seq<char>>)
    ensures
        esm_lines::unique_bindings(lines).no_duplicates(),
{
    esm_lines::lemma_distinct(esm_lines::all_demoted(esm_lines::distinct(lines)));
}

/// Where bindings are made unique, an import line stays as it is or becomes a side-effect import of
/// its module, but for a list that introduces a name twice.
pub proof fn lemma_conflicting_imports_stay_or_are_demoted(lines: Seq<Seq<char>>, i: int)
    requires
        0 <= i < lines.len(),
        esm_specifiers::listed(lines[i]) matches Some(p) ==> esm_specifiers::locals(
            p.0,
        ).no_duplicates(),
    ensures
        ({
            let line = esm_lines::all_demoted(lines)[i];
            line == lines[i] || (esm_lines::line_module(lines[i]) matches Some(m) && line
                == esm_patterns::bare_import(m))
        }),
{
}

/// A line loses its names only to lines that keep a name of it: every name in conflict stays bound.
pub proof fn lemma_conflicts_keep_one(lines: Seq<Seq<char>>, i: int)
    requires
        0 <= i < lines.len(),
        !esm_lines::keeps(lines, i),
    ensures
        exists|k: int, b: Seq<char>|
            0 <= k < lines.len() && k != i && esm_lines::keeps(lines, k)
                && esm_specifiers::line_bindings(lines[i]).contains(b)
                && #[trigger] esm_specifiers::line_bindings(lines[k]).contains(b),
{
    let own = esm_specifiers::line_bindings(lines[i]);
    let before = esm_lines::claimed_before(lines, i);
    let m = choose|m: int| 0 <= m < own.len() && before.contains(#[trigger] own[m]);
    assert(own.contains(own[m]));
    let k = lemma_claimed_before(lines, i, own[m]);
    assert(esm_specifiers::line_bindings(lines[k]).contains(own[m]));
}

/// Once import bindings are unique, making them unique again changes nothing.
pub proof fn lemma_uniqueness_settles(lines: Seq<Seq<char>>)
    requires
        all_sourced(lines),
    ensures
        esm_lines::unique_bindings(esm_lines::unique_bindings(lines)) == esm_lines::unique_bindings(
            lines,
        ),
{
    let u = esm_lines::unique_bindings(lines);
    lemma_unique_lines_are_distinct(lines);
    esm_lines::lemma_distinct_keeps(u);
    let a = esm_lines::all_demoted(u);
    assert forall|i: int| 0 <= i < u.len() implies a[i] == u[i] by {
        let own = esm_specifiers::line_bindings(u[i]);
        let before = esm_lines::claimed_before(u, i);
        let p = lemma_kept_origin(lines, i);
        assert forall|m: int| 0 <= m < own.len() implies !before.contains(#[trigger] own[m]) by {
            if before.contains(own[m]) {
                let k = lemma_claimed_before(u, i, own[m]);
                assert(own.contains(own[m]));
                if k < i {
                    lemma_bindings_are_unique(lines, k, i);
                } else {
                    lemma_bindings_are_unique(lines, i, k);
                }
            }
        }
        assert(esm_lines::keeps(u, i));
    }
    assert(a =~= u);
}

/// Whether `r` is `s` with some lines left out.
pub open spec fn part_of(r: Seq<Seq<char>>, s: Seq<Seq<char>>) -> bool
    decreases s.len(),
{
    if s.len() == 0 {
        r.len() == 0
    } else {
        part_of(r, s.drop_last()) || (r.len() > 0 && r.last() == s.last() && part_of(
            r.drop_last(),
            s.drop_last(),
        ))
    }
}

proof fn lemma_distinct_is_part(s: Seq<Seq<char>>)
    ensures
        part_of(esm_lines::distinct(s), s),
    decreases s.len(),
{
    if s.len() > 0 {
        lemma_distinct_is_part(s.drop_last());
        let before = esm_lines::distinct(s.drop_last());
        assert(before.push(s.last()).drop_last() =~= before);
    }
}

/// Lines keep their order: the imports are the distinct lines, each demoted where it stands, and of
/// equal ones the first.
pub proof fn lemma_order_is_kept(lines: Seq<Seq<char>>)
    ensures
        part_of(esm_lines::distinct(lines), lines),
        esm_lines::all_demoted(esm_lines::distinct(lines)).len() == esm_lines::distinct(
            lines,
        ).len(),
        part_of(
            esm_lines::unique_bindings(lines),
            esm_lines::all_demoted(esm_lines::distinct(lines)),
        ),
{
    lemma_distinct_is_part(lines);
    lemma_distinct_is_part(esm_lines::all_demoted(esm_lines::distinct(lines)));
}

/// Whether the module of a line can be read again from the line that is left of it.
pub open spec fn readable(line: Seq<char>) -> bool {
    &&& esm_specifiers::listed(line) matches Some(p) ==> esm_specifiers::locals(
        p.0,
    ).no_duplicates() || text::rfind_in(p.1, "from \""@) is Some
    &&& esm_lines::line_module(line) matches Some(m) ==> esm_lines::line_module(
        esm_patterns::bare_import(m),
    ) == Some(m)
}

/// A line with the module behind its end names that module, whatever stands before.
proof fn lemma_module_behind(x: Seq<char>, y: Seq<char>, s: Seq<char>)
    requires
        text::rfind_in(s, "from \""@) is Some,
    ensures
        esm_lines::line_module(x + s) == esm_lines::line_module(y + s),
{
    let p = "from \""@;
    let n = s.len() - p.len();
    let k = text::rfind_in(s, p)->0;
    lemma_rfind_behind(x, s, p, n);
    lemma_rfind_behind(y, s, p, n);
    lemma_rfind_bound(s, p, n);
    assert((x + s).subrange(x.len() + k + p.len(), (x + s).len() as int) =~= s.subrange(
        k + p.len(),
        s.len() as int,
    ));
    assert((y + s).subrange(y.len() + k + p.len(), (y + s).len() as int) =~= s.subrange(
        k + p.len(),
        s.len() as int,
    ));
}

/// A line with each name once names the module that it named.
proof fn lemma_single_module(line: Seq<char>)
    requires
        readable(line),
    ensures
        esm_lines::line_module(esm_specifiers::single(line)) == esm_lines::line_module(line),
{
    if let Some(p) = esm_specifiers::listed(line) {
        if !esm_specifiers::locals(p.0).no_duplicates() {
            let rest = text::after_prefix(line, "import {"@)->0;
            lemma_comma();
            text::lemma_find_from(rest, "}"@, 0);
            let x = line.subrange(0, line.len() - p.1.len());
            assert(line =~= x + p.1);
            let k = esm_specifiers::kept(p.0);
            let y = "import { "@ + text::joined(k, ", "@) + " }"@;
            assert(esm_specifiers::list_line(k, p.1) =~= y + p.1);
            lemma_module_behind(x, y, p.1);
        }
    }
}

/// The modules imported stay the same ones.
pub proof fn lemma_modules_are_kept(lines: Seq<Seq<char>>, m: Seq<char>)
    requires
        forall|k: int| 0 <= k < lines.len() ==> readable(#[trigger] lines[k]),
    ensures
        (exists|k: int| 0 <= k < lines.len() && esm_lines::line_module(#[trigger] lines[k]) == Some(m))
            <==> (exists|k: int|
            0 <= k < esm_lines::unique_bindings(lines).len() && esm_lines::line_module(
                #[trigger] esm_lines::unique_bindings(lines)[k],
            ) == Some(m)),
{
    let d = esm_lines::distinct(lines);
    let a = esm_lines::all_demoted(d);
    let r = esm_lines::unique_bindings(lines);
    esm_lines::lemma_distinct(lines);
    esm_lines::lemma_distinct(a);
    assert forall|k: int| 0 <= k < d.len() implies esm_lines::line_module(#[trigger] a[k])
        == esm_lines::line_module(d[k]) by {
        assert(d.contains(d[k]));
        assert(lines.contains(d[k]));
        let n = choose|n: int| 0 <= n < lines.len() && lines[n] == d[k];
        assert(readable(lines[n]));
        if esm_lines::keeps(d, k) {
            lemma_single_module(d[k]);
        }
    }
    if exists|k: int|
        0 <= k < lines.len() && esm_lines::line_module(#[trigger] lines[k]) == Some(m) {
        let k = choose|k: int|
            0 <= k < lines.len() && esm_lines::line_module(#[trigger] lines[k]) == Some(m);
        assert(lines.contains(lines[k]));
        assert(d.contains(lines[k]));
        let n = choose|n: int| 0 <= n < d.len() && d[n] == lines[k];
        assert(esm_lines::line_module(a[n]) == Some(m));
        assert(a.contains(a[n]));
        assert(r.contains(a[n]));
        let x = choose|x: int| 0 <= x < r.len() && r[x] == a[n];
        assert(esm_lines::line_module(r[x]) == Some(m));
    }
    if exists|k: int| 0 <= k < r.len() && esm_lines::line_module(#[trigger] r[k]) == Some(m) {
        let k = choose|k: int|
            0 <= k < r.len() && esm_lines::line_module(#[trigger] r[k]) == Some(m);
        let p = lemma_origin(lines, k);
        assert(esm_lines::line_module(a[p]) == Some(m));
        assert(d.contains(d[p]));
        assert(lines.contains(d[p]));
        let n = choose|n: int| 0 <= n < lines.len() && lines[n] == d[p];
        assert(esm_lines::line_module(lines[n]) == Some(m));
    }
}

/// A re-export declares nothing.
proof fn lemma_reexport_declares_nothing(s: Seq<char>)
    ensures
        esm_lines::declared("export { "@ + s) is None,
{
    reveal_strlit("export { ");
    reveal_strlit("export ");
    reveal_strlit("async ");
    reveal_strlit("const");
    reveal_strlit("let");
    reveal_strlit("var");
    reveal_strlit("function");
    reveal_strlit("class");
    let line = "export { "@ + s;
    assert(line.subrange(0, 7) =~= "export "@);
    let rest = line.subrange(7, line.len() as int);
    assert(rest[0] == '{');
    if text::has_prefix(rest, "async "@) {
        assert(rest.subrange(0, 6)[0] == 'a');
    }
    if text::has_prefix(rest, "const"@) {
        assert(rest.subrange(0, 5)[0] == 'c');
    }
    if text::has_prefix(rest, "let"@) {
        assert(rest.subrange(0, 3)[0] == 'l');
    }
    if text::has_prefix(rest, "var"@) {
        assert(rest.subrange(0, 3)[0] == 'v');
    }
    if text::has_prefix(rest, "function"@) {
        assert(rest.subrange(0, 8)[0] == 'f');
    }
    if text::has_prefix(rest, "class"@) {
        assert(rest.subrange(0, 5)[0] == 'c');
    }
}

proof fn lemma_with_names(
    b: Map<Seq<char>, Seq<char>>,
    names: Seq<Seq<char>>,
    m: Seq<char>,
    n: Seq<char>,
)
    ensures
        esm_lines::with_names(b, names, m).dom().contains(n) <==> b.dom().contains(n)
            || names.contains(n),
    decreases names.len(),
{
    if names.len() > 0 {
        let rest = names.drop_last();
        lemma_with_names(b, rest, m, n);
        lemma_push_contains(rest, names.last(), n);
        assert(rest.push(names.last()) =~= names);
    }
}

/// Every name that a line with a module introduces is a binding.
proof fn lemma_bindings(lines: Seq<Seq<char>>, i: int, n: Seq<char>)
    requires
        0 <= i < lines.len(),
        esm_lines::line_module(lines[i]) is Some,
        esm_specifiers::line_bindings(lines[i]).contains(n),
    ensures
        esm_lines::bindings(lines).dom().contains(n),
    decreases lines.len(),
{
    let rest = lines.drop_last();
    let before = esm_lines::bindings(rest);
    if let Some(m) = esm_lines::line_module(lines.last()) {
        lemma_with_names(before, esm_specifiers::line_bindings(lines.last()), m, n);
    }
    if i < rest.len() {
        assert(rest[i] == lines[i]);
        lemma_bindings(rest, i, n);
    }
}

/// An import line stays as it is or becomes a side-effect import of its module.
pub proof fn lemma_imports_stay_or_are_demoted(
    imports: Seq<Seq<char>>,
    body: Seq<Seq<char>>,
    exports: Seq<Seq<char>>,
    i: int,
)
    requires
        0 <= i < imports.len(),
    ensures
        ({
            let line = esm_lines::resolved_imports(imports, body, exports)[i];
            line == imports[i] || (esm_lines::line_module(imports[i]) matches Some(m) && line
                == esm_patterns::bare_import(m))
        }),
{
}

/// No name that the module declares is still bound by an import, where every import that binds a
/// name names a module.
pub proof fn lemma_declared_names_are_not_imported(
    imports: Seq<Seq<char>>,
    body: Seq<Seq<char>>,
    exports: Seq<Seq<char>>,
    i: int,
    n: Seq<char>,
)
    requires
        0 <= i < imports.len(),
        esm_lines::any_body_declares(body, n) || esm_lines::any_line_declares(
            esm_lines::resolved_exports(imports, exports),
            n,
        ),
    ensures
        ({
            let line = esm_lines::resolved_imports(imports, body, exports)[i];
            &&& sourced(imports[i]) ==> !esm_specifiers::line_bindings(line).contains(n)
            &&& anchored(imports[i]) ==> esm_lines::line_binding(line) != Some(n)
        }),
{
    let b = esm_lines::bindings(imports);
    let own = esm_specifiers::line_bindings(imports[i]);
    let line = esm_lines::resolved_imports(imports, body, exports)[i];
    lemma_binding_is_among_names(line);
    lemma_binding_is_among_names(imports[i]);
    if let Some(m) = esm_lines::line_module(imports[i]) {
        lemma_bare_import_binds_nothing(m);
    }
    if own.contains(n) && esm_lines::line_module(imports[i]) is Some {
        let m = esm_lines::line_module(imports[i])->0;
        lemma_bindings(imports, i, n);
        let k = choose|k: int| 0 <= k < own.len() && own[k] == n;
        if !esm_lines::any_body_declares(body, n) {
            let ex = esm_lines::resolved_exports(imports, exports);
            let e = choose|e: int|
                0 <= e < ex.len() && esm_lines::declared(#[trigger] ex[e]) == Some(n);
            if let Some(name) = esm_lines::declared(exports[e]) {
                lemma_rewritten_declares_nothing(exports[e], name, b);
            }
            assert(esm_lines::export_claims(exports[e], b, n));
        }
        assert(esm_lines::declared_anew(b, body, exports, own[k]));
        assert(line == esm_patterns::bare_import(m));
    }
}

proof fn lemma_rewritten_declares_nothing(
    line: Seq<char>,
    name: Seq<char>,
    b: Map<Seq<char>, Seq<char>>,
)
    ensures
        esm_lines::as_reexport(line, name, b) matches Some(l) ==> esm_lines::declared(l) is None,
{
    if let Some(l) = esm_lines::as_reexport(line, name, b) {
        let rest = l.subrange("export { "@.len() as int, l.len() as int);
        reveal_strlit("export { ");
        assert(l =~= "export { "@ + rest);
        lemma_reexport_declares_nothing(rest);
    }
}

/// Whether a list of specifiers holds no ` } from ` before the one that ends it.
pub open spec fn closes_once(specs: Seq<Seq<char>>) -> bool {
    let s = text::joined(specs, ", "@);
    text::find_in(s + " } from "@, " } from "@) == Some(s.len() as int)
}

/// A named import that was written is read back.
proof fn lemma_named_parts(specs: Seq<Seq<char>>, tail: Seq<char>)
    requires
        specs.len() > 0,
        esm_pieces::all_clean(specs),
        closes_once(specs),
        text::has_prefix(tail, "from "@),
    ensures
        esm_imports::named_parts("import { "@ + text::joined(specs, ", "@) + " } "@ + tail) == Some(
            (specs, tail),
        ),
{
    reveal_strlit("import { ");
    reveal_strlit(" } ");
    reveal_strlit(" } from ");
    reveal_strlit("from ");
    let j = text::joined(specs, ", "@);
    let head = "import { "@;
    let line = head + j + " } "@ + tail;
    let rest = line.subrange(head.len() as int, line.len() as int);
    assert(line.subrange(0, head.len() as int) =~= head);
    assert(rest =~= j + " } "@ + tail);
    let p = " } from "@;
    let at = j.len() as int;
    assert(tail.subrange(0, 5) == "from "@);
    assert forall|n: int| 0 <= n < 8 implies rest[at + n] == p[n] by {
        if n >= 3 {
            assert(tail.subrange(0, 5)[n - 3] == tail[n - 3]);
            assert(rest[at + n] == tail[n - 3]);
        }
    }
    assert(rest.subrange(at, at + 8) =~= p);
    assert(text::occurs_at(rest, p, at));
    text::lemma_find_from(j + p, p, 0);
    assert forall|n: int| 0 <= n < at implies !text::occurs_at(rest, p, n) by {
        assert((j + p).subrange(n, n + 8) =~= rest.subrange(n, n + 8)) by {
            assert forall|k: int| 0 <= k < at + 8 implies (j + p)[k] == rest[k] by {
                if k >= at {
                    assert(rest[at + (k - at)] == p[k - at]);
                }
            }
        }
        assert(!text::occurs_at(j + p, p, n));
    }
    text::lemma_find_from(rest, p, 0);
    assert(text::find_in(rest, p) == Some(at));
    assert(rest.subrange(0, at) =~= j);
    assert(rest.subrange(at + 3, rest.len() as int) =~= tail);
    lemma_joined_pieces(specs, Seq::empty(), Seq::empty());
    assert(Seq::<char>::empty() + j + Seq::<char>::empty() =~= j);
    assert forall|i: int| 0 <= i < specs.len() implies (#[trigger] specs[i]).len() > 0 by {
        assert(esm_pieces::clean(specs[i]));
    }
    lemma_tidy_keeps(esm_imports::comma_pieces(j), specs);
}

/// Whether every merged list of named imports can be read back.
pub open spec fn legible(lines: Seq<Seq<char>>) -> bool {
    forall|i: int|
        0 <= i < esm_imports::header(lines).len() ==> (
        #[trigger] esm_imports::header(lines)[i] matches Entry::Group { specs, .. } ==> closes_once(
            specs,
        ))
}

/// The parts of a named import can be written and read again.
proof fn lemma_parts_are_clean(line: Seq<char>)
    ensures
        esm_imports::named_parts(line) matches Some(p) ==> p.0.len() > 0 && esm_pieces::all_clean(p.0)
            && text::has_prefix(p.1, "from "@),
{
    if let Some(p) = esm_imports::named_parts(line) {
        reveal_strlit(" } from ");
        reveal_strlit("from ");
        let rest = text::after_prefix(line, "import { "@)->0;
        text::lemma_find_from(rest, " } from "@, 0);
        let at = text::find_in(rest, " } from "@)->0;
        let inner = rest.subrange(0, at);
        let pieces = esm_imports::comma_pieces(inner);
        assert forall|i: int, c: char| 0 <= i < pieces.len() && #[trigger] pieces[i].contains(
            c,
        ) implies c != ',' by {
            lemma_piece_chars(inner, i, c);
        }
        lemma_tidy(pieces);
        assert(rest.subrange(at, at + 8) == " } from "@);
        assert forall|n: int| 0 <= n < 5 implies p.1[n] == "from "@[n] by {
            assert(rest.subrange(at, at + 8)[n + 3] == rest[at + n + 3]);
        }
        assert(p.1.subrange(0, 5) =~= "from "@);
    }
}

/// What an entry of a header is made of.
spec fn sound(e: Entry) -> bool {
    match e {
        Entry::Line { key, line } => esm_imports::named_parts(line) is None && key
            == esm_imports::without_id(line),
        Entry::Group { key, specs, tail } => specs.len() > 0 && specs.no_duplicates()
            && esm_pieces::all_clean(specs) && text::has_prefix(tail, "from "@) && key == esm_imports::without_id(tail),
    }
}

proof fn lemma_merged(specs: Seq<Seq<char>>, more: Seq<Seq<char>>)
    requires
        specs.no_duplicates(),
        esm_pieces::all_clean(specs),
        esm_pieces::all_clean(more),
    ensures
        esm_imports::merged(specs, more).no_duplicates(),
        esm_pieces::all_clean(esm_imports::merged(specs, more)),
        esm_imports::merged(specs, more).len() >= specs.len(),
        more.len() > 0 ==> esm_imports::merged(specs, more).len() > 0,
    decreases more.len(),
{
    if more.len() > 0 {
        let rest = more.drop_last();
        assert forall|i: int| 0 <= i < rest.len() implies esm_pieces::clean(#[trigger] rest[i]) by {
            assert(esm_pieces::clean(more[i]));
        }
        lemma_merged(specs, rest);
        let before = esm_imports::merged(specs, rest);
        let r = esm_imports::merged(specs, more);
        assert(esm_pieces::clean(more[more.len() - 1]));
        assert forall|i: int| 0 <= i < r.len() implies esm_pieces::clean(#[trigger] r[i]) by {
            if i < before.len() {
                assert(esm_pieces::clean(before[i]));
            }
        }
        if before.contains(more.last()) {
            assert(before.len() > 0);
        }
    }
}

proof fn lemma_merged_keeps(more: Seq<Seq<char>>)
    requires
        more.no_duplicates(),
    ensures
        esm_imports::merged(Seq::empty(), more) == more,
    decreases more.len(),
{
    if more.len() > 0 {
        let rest = more.drop_last();
        assert(rest.no_duplicates());
        lemma_merged_keeps(rest);
        if rest.contains(more.last()) {
            let k = choose|k: int| 0 <= k < rest.len() && rest[k] == more.last();
            assert(more[k] == more[more.len() - 1]);
        }
        assert(rest.push(more.last()) =~= more);
    }
}

proof fn lemma_header_is_sound(lines: Seq<Seq<char>>)
    ensures
        forall|i: int| 0 <= i < esm_imports::header(lines).len() ==> sound(
            #[trigger] esm_imports::header(lines)[i],
        ),
    decreases lines.len(),
{
    if lines.len() > 0 {
        let rest = lines.drop_last();
        lemma_header_is_sound(rest);
        lemma_parts_are_clean(lines.last());
        let s = esm_imports::header(rest);
        let h = esm_imports::header(lines);
        assert forall|i: int| 0 <= i < h.len() implies sound(#[trigger] h[i]) by {
            if i < s.len() {
                assert(sound(s[i]));
            }
            if let Some(p) = esm_imports::named_parts(lines.last()) {
                lemma_merged(Seq::empty(), p.0);
                if i < s.len() {
                    if let Entry::Group { specs, .. } = s[i] {
                        lemma_merged(specs, p.0);
                    }
                }
            }
        }
    }
}

proof fn lemma_header_again(lines: Seq<Seq<char>>, n: int)
    requires
        legible(lines),
        0 <= n <= esm_imports::header(lines).len(),
    ensures
        esm_imports::header(esm_imports::consolidated(lines).take(n)) == esm_imports::header(
            lines,
        ).take(n),
    decreases n,
{
    let h = esm_imports::header(lines);
    let c = esm_imports::consolidated(lines);
    if n > 0 {
        lemma_header_again(lines, n - 1);
        lemma_header_is_sound(lines);
        esm_imports::lemma_header_is_distinct(lines);
        let e = h[n - 1];
        let s = h.take(n - 1);
        assert(c.take(n).drop_last() =~= c.take(n - 1));
        assert(c.take(n).last() == esm_imports::entry_line(e));
        assert(sound(h[n - 1]));
        match e {
            Entry::Line { key, line } => {
                assert forall|i: int| 0 <= i < s.len() implies !esm_imports::is_line(
                    #[trigger] s[i],
                    key,
                ) by {
                    assert(s[i] == h[i]);
                }
            },
            Entry::Group { key, specs, tail } => {
                lemma_named_parts(specs, tail);
                lemma_merged_keeps(specs);
                assert forall|i: int| 0 <= i < s.len() implies !esm_imports::is_group(
                    #[trigger] s[i],
                    key,
                ) by {
                    assert(s[i] == h[i]);
                }
            },
        }
        assert(s.push(e) =~= h.take(n));
    } else {
        assert(esm_imports::header(c.take(0)) =~= h.take(0));
    }
}

/// Collapsing the header twice is collapsing it once.
pub proof fn lemma_consolidation_settles(lines: Seq<Seq<char>>)
    requires
        legible(lines),
    ensures
        esm_imports::consolidated(esm_imports::consolidated(lines)) == esm_imports::consolidated(
            lines,
        ),
{
    let h = esm_imports::header(lines);
    let c = esm_imports::consolidated(lines);
    lemma_header_again(lines, h.len() as int);
    assert(c.take(h.len() as int) =~= c);
    assert(h.take(h.len() as int) =~= h);
    assert(esm_imports::consolidated(c) =~= c);
}

} // verus!
