//! Texts trimmed, cut at commas and joined again.

use super::esm_imports;
use crate::text;
use vstd::prelude::*;

verus! {

/// Whether a text begins and ends with something other than white space.
pub open spec fn tight(s: Seq<char>) -> bool {
    s.len() > 0 && !text::white(s[0]) && !text::white(s.last())
}

/// Whether a specifier can be written between commas and read back.
pub open spec fn clean(s: Seq<char>) -> bool {
    tight(s) && !s.contains(',')
}

pub open spec fn all_clean(s: Seq<Seq<char>>) -> bool {
    forall|i: int| 0 <= i < s.len() ==> clean(#[trigger] s[i])
}

/// Whether no text holds a closing brace.
pub open spec fn unbraced(s: Seq<Seq<char>>) -> bool {
    forall|i: int| 0 <= i < s.len() ==> !(#[trigger] s[i]).contains('}')
}

/// Whether a text is white space.
pub open spec fn blank(s: Seq<char>) -> bool {
    forall|i: int| 0 <= i < s.len() ==> text::white(#[trigger] s[i])
}

pub(super) proof fn lemma_trimmed_start(s: Seq<char>)
    ensures
        text::trimmed_start(s).len() == 0 || !text::white(text::trimmed_start(s)[0]),
        forall|i: int|
            0 <= i < text::trimmed_start(s).len() ==> s.contains(
                #[trigger] text::trimmed_start(s)[i],
            ),
    decreases s.len(),
{
    let r = text::trimmed_start(s);
    if s.len() > 0 && text::white(s[0]) {
        let t = s.subrange(1, s.len() as int);
        lemma_trimmed_start(t);
        assert forall|i: int| 0 <= i < r.len() implies s.contains(#[trigger] r[i]) by {
            assert(t.contains(r[i]));
            let k = choose|k: int| 0 <= k < t.len() && t[k] == r[i];
            assert(s[k + 1] == r[i]);
        }
    }
}

pub(super) proof fn lemma_trimmed_end(s: Seq<char>)
    ensures
        text::trimmed_end(s).len() == 0 || !text::white(text::trimmed_end(s).last()),
        text::trimmed_end(s).len() <= s.len(),
        forall|i: int|
            0 <= i < text::trimmed_end(s).len() ==> #[trigger] text::trimmed_end(s)[i] == s[i],
    decreases s.len(),
{
    if s.len() > 0 && text::white(s.last()) {
        lemma_trimmed_end(s.drop_last());
    }
}

/// A text without its surrounding white space is empty or tight, and holds nothing new.
pub(super) proof fn lemma_trimmed(s: Seq<char>)
    ensures
        text::trimmed(s).len() == 0 || tight(text::trimmed(s)),
        forall|i: int|
            0 <= i < text::trimmed(s).len() ==> s.contains(#[trigger] text::trimmed(s)[i]),
{
    let r = text::trimmed_start(s);
    lemma_trimmed_start(s);
    lemma_trimmed_end(r);
    let t = text::trimmed(s);
    assert forall|i: int| 0 <= i < t.len() implies s.contains(#[trigger] t[i]) by {
        assert(r[i] == t[i]);
    }
}

/// White space around a text is what trimming takes away.
pub(super) proof fn lemma_tight_is_trimmed(l: Seq<char>, t: Seq<char>, e: Seq<char>)
    requires
        tight(t),
        blank(l),
        blank(e),
    ensures
        text::trimmed(l + t + e) == t,
    decreases l.len() + e.len(),
{
    let s = l + t + e;
    if l.len() > 0 {
        let m = l.subrange(1, l.len() as int);
        assert forall|i: int| 0 <= i < m.len() implies text::white(#[trigger] m[i]) by {
            assert(text::white(l[i + 1]));
        }
        lemma_tight_is_trimmed(m, t, e);
        assert(s[0] == l[0]);
        assert(text::white(l[0]));
        assert(s.subrange(1, s.len() as int) =~= m + t + e);
        assert(text::trimmed_start(s) == text::trimmed_start(m + t + e));
    } else {
        assert(s =~= t + e);
        assert(s[0] == t[0]);
        assert(text::trimmed_start(s) == s);
        if e.len() > 0 {
            let m = e.drop_last();
            assert forall|i: int| 0 <= i < m.len() implies text::white(#[trigger] m[i]) by {
                assert(text::white(e[i]));
            }
            lemma_tight_is_trimmed(l, t, m);
            assert(text::white(e[e.len() - 1]));
            assert(s.last() == e.last());
            assert(s.drop_last() =~= l + t + m);
            assert(l + t + m =~= t + m);
            assert((t + m)[0] == t[0]);
            assert(text::trimmed_start(l + t + m) == l + t + m);
        } else {
            assert(s =~= t);
        }
    }
}

/// The white space at the start of a text.
pub(super) proof fn leading(s: Seq<char>) -> (l: Seq<char>)
    ensures
        blank(l),
        s == l + text::trimmed_start(s),
    decreases s.len(),
{
    if s.len() > 0 && text::white(s[0]) {
        let m = leading(s.subrange(1, s.len() as int));
        let l = seq![s[0]] + m;
        assert forall|i: int| 0 <= i < l.len() implies text::white(#[trigger] l[i]) by {
            if i > 0 {
                assert(text::white(m[i - 1]));
            }
        }
        let r = s.subrange(1, s.len() as int);
        assert(text::trimmed_start(s) == text::trimmed_start(r));
        assert(s =~= seq![s[0]] + r);
        assert(seq![s[0]] + (m + text::trimmed_start(r)) =~= l + text::trimmed_start(s));
        l
    } else {
        assert(s =~= Seq::<char>::empty() + s);
        Seq::empty()
    }
}

/// The white space at the end of a text.
pub(super) proof fn trailing(s: Seq<char>) -> (e: Seq<char>)
    ensures
        blank(e),
        s == text::trimmed_end(s) + e,
    decreases s.len(),
{
    if s.len() > 0 && text::white(s.last()) {
        let m = trailing(s.drop_last());
        let e = m.push(s.last());
        assert forall|i: int| 0 <= i < e.len() implies text::white(#[trigger] e[i]) by {
            if i < m.len() {
                assert(text::white(m[i]));
            }
        }
        let r = s.drop_last();
        assert(text::trimmed_end(s) == text::trimmed_end(r));
        assert(s =~= r.push(s.last()));
        assert((text::trimmed_end(r) + m).push(s.last()) =~= text::trimmed_end(s) + e);
        e
    } else {
        assert(s =~= s + Seq::<char>::empty());
        Seq::empty()
    }
}

pub(super) proof fn lemma_trimmed_twice(s: Seq<char>)
    ensures
        text::trimmed(text::trimmed(s)) == text::trimmed(s),
{
    let t = text::trimmed(s);
    lemma_trimmed(s);
    if t.len() > 0 {
        lemma_tight_is_trimmed(Seq::empty(), t, Seq::empty());
        assert(Seq::<char>::empty() + t + Seq::<char>::empty() =~= t);
    }
}

/// The first place of a character is where it is found.
pub(super) proof fn lemma_find_char(s: Seq<char>, c: char, i: int)
    requires
        0 <= i < s.len(),
        s[i] == c,
        forall|j: int| 0 <= j < i ==> s[j] != c,
    ensures
        text::find_in(s, seq![c]) == Some(i),
{
    text::lemma_find_from(s, seq![c], 0);
    assert(s.subrange(i, i + 1) =~= seq![c]);
    assert(text::occurs_at(s, seq![c], i));
    if let Some(k) = text::find_in(s, seq![c]) {
        assert(s.subrange(k, k + 1)[0] == c);
        assert(s[k] == c);
    }
}

pub(super) proof fn lemma_find_no_char(s: Seq<char>, c: char)
    requires
        !s.contains(c),
    ensures
        text::find_in(s, seq![c]) is None,
{
    text::lemma_find_from(s, seq![c], 0);
    if let Some(k) = text::find_in(s, seq![c]) {
        assert(s.subrange(k, k + 1)[0] == c);
        assert(s[k] == c);
    }
}

pub(super) proof fn lemma_comma()
    ensures
        ","@ == seq![','],
        "}"@ == seq!['}'],
{
    reveal_strlit(",");
    reveal_strlit("}");
    assert(","@ =~= seq![',']);
    assert("}"@ =~= seq!['}']);
}

/// The position of the first character `c` of a text that holds one.
pub(super) proof fn first_place(s: Seq<char>, c: char) -> (i: int)
    requires
        s.contains(c),
    ensures
        0 <= i < s.len(),
        s[i] == c,
        forall|j: int| 0 <= j < i ==> s[j] != c,
    decreases s.len(),
{
    if s[0] == c {
        0
    } else {
        let t = s.skip(1);
        let k = choose|k: int| 0 <= k < s.len() && s[k] == c;
        assert(t[k - 1] == c);
        let i = first_place(t, c);
        assert forall|j: int| 0 <= j < i + 1 implies s[j] != c by {
            if j > 0 {
                assert(t[j - 1] == s[j]);
            }
        }
        i + 1
    }
}

pub(super) proof fn lemma_one_piece(s: Seq<char>)
    requires
        !s.contains(','),
    ensures
        esm_imports::comma_pieces(s) == seq![s],
{
    lemma_comma();
    lemma_find_no_char(s, ',');
}

/// Two texts with a comma between them have the pieces of both.
pub(super) proof fn lemma_comma_split(a: Seq<char>, b: Seq<char>)
    ensures
        esm_imports::comma_pieces(a + seq![','] + b) == esm_imports::comma_pieces(a)
            + esm_imports::comma_pieces(b),
    decreases a.len(),
{
    lemma_comma();
    let s = a + seq![','] + b;
    if a.contains(',') {
        let i = first_place(a, ',');
        let rest = a.subrange(i + 1, a.len() as int);
        lemma_find_char(a, ',', i);
        assert forall|j: int| 0 <= j < i implies s[j] != ',' by {
            assert(s[j] == a[j]);
        }
        assert(s[i] == a[i]);
        lemma_find_char(s, ',', i);
        lemma_comma_split(rest, b);
        assert(s.subrange(0, i) =~= a.subrange(0, i));
        assert(s.subrange(i + 1, s.len() as int) =~= rest + seq![','] + b);
        assert(esm_imports::comma_pieces(s) =~= esm_imports::comma_pieces(a)
            + esm_imports::comma_pieces(b));
    } else {
        let i = a.len() as int;
        lemma_one_piece(a);
        assert forall|j: int| 0 <= j < i implies s[j] != ',' by {
            assert(s[j] == a[j]);
            assert(a.contains(a[j]));
        }
        assert(s[i] == ',');
        lemma_find_char(s, ',', i);
        assert(s.subrange(0, i) =~= a);
        assert(s.subrange(i + 1, s.len() as int) =~= b);
    }
}

/// A piece holds no comma, and nothing that the text does not hold.
pub(super) proof fn lemma_piece_chars(s: Seq<char>, k: int, c: char)
    requires
        0 <= k < esm_imports::comma_pieces(s).len(),
        esm_imports::comma_pieces(s)[k].contains(c),
    ensures
        c != ',',
        s.contains(c),
    decreases s.len(),
{
    lemma_comma();
    let p = esm_imports::comma_pieces(s)[k];
    let n = choose|n: int| 0 <= n < p.len() && p[n] == c;
    if s.contains(',') {
        let i = first_place(s, ',');
        lemma_find_char(s, ',', i);
        let rest = s.subrange(i + 1, s.len() as int);
        if k == 0 {
            assert(p == s.subrange(0, i));
            assert(s[n] == c);
        } else {
            assert(p == esm_imports::comma_pieces(rest)[k - 1]);
            lemma_piece_chars(rest, k - 1, c);
            let m = choose|m: int| 0 <= m < rest.len() && rest[m] == c;
            assert(s[m + i + 1] == c);
        }
    } else {
        lemma_one_piece(s);
        assert(p == s);
        assert(s[n] == c);
    }
}

/// The pieces of joined specifiers are the specifiers again.
pub(super) proof fn lemma_joined_pieces(k: Seq<Seq<char>>, l: Seq<char>, e: Seq<char>)
    requires
        k.len() > 0,
        all_clean(k),
        l == Seq::<char>::empty() || l == seq![' '],
        e == Seq::<char>::empty() || e == seq![' '],
    ensures
        ({
            let p = esm_imports::comma_pieces(l + text::joined(k, ", "@) + e);
            p.len() == k.len() && forall|i: int|
                0 <= i < k.len() ==> text::trimmed(#[trigger] p[i]) == k[i]
        }),
    decreases k.len(),
{
    reveal_strlit(", ");
    assert(", "@ =~= seq![',', ' ']);
    let x = k.last();
    assert(clean(k[k.len() - 1]));
    if k.len() == 1 {
        let s = l + x + e;
        assert(!s.contains(',')) by {
            if s.contains(',') {
                let n = choose|n: int| 0 <= n < s.len() && s[n] == ',';
                assert(l.len() <= n < l.len() + x.len());
                assert(x[n - l.len()] == ',');
            }
        }
        lemma_one_piece(s);
        lemma_tight_is_trimmed(l, x, e);
    } else {
        let rest = k.drop_last();
        assert(all_clean(rest)) by {
            assert forall|i: int| 0 <= i < rest.len() implies clean(#[trigger] rest[i]) by {
                assert(clean(k[i]));
            }
        }
        lemma_joined_pieces(rest, l, Seq::empty());
        let a = l + text::joined(rest, ", "@) + Seq::<char>::empty();
        let b = seq![' '] + x + e;
        assert(l + text::joined(k, ", "@) + e =~= a + seq![','] + b);
        lemma_comma_split(a, b);
        assert(!b.contains(',')) by {
            if b.contains(',') {
                let n = choose|n: int| 0 <= n < b.len() && b[n] == ',';
                assert(1 <= n < 1 + x.len());
                assert(x[n - 1] == ',');
            }
        }
        lemma_one_piece(b);
        lemma_tight_is_trimmed(seq![' '], x, e);
        let p = esm_imports::comma_pieces(l + text::joined(k, ", "@) + e);
        let q = esm_imports::comma_pieces(a);
        assert(p =~= q.push(b));
        assert forall|i: int| 0 <= i < k.len() implies text::trimmed(#[trigger] p[i]) == k[i] by {
            if i < rest.len() {
                assert(p[i] == q[i]);
                assert(text::trimmed(q[i]) == rest[i]);
            }
        }
    }
}

pub(super) proof fn lemma_joined_holds_no_brace(k: Seq<Seq<char>>)
    requires
        unbraced(k),
    ensures
        !text::joined(k, ", "@).contains('}'),
    decreases k.len(),
{
    reveal_strlit(", ");
    let s = text::joined(k, ", "@);
    if k.len() > 0 {
        let x = k.last();
        let rest = k.drop_last();
        assert(!k[k.len() - 1].contains('}'));
        assert forall|i: int| 0 <= i < rest.len() implies !(#[trigger] rest[i]).contains('}') by {
            assert(!k[i].contains('}'));
        }
        lemma_joined_holds_no_brace(rest);
        let before = text::joined(rest, ", "@);
        if s.contains('}') {
            let n = choose|n: int| 0 <= n < s.len() && s[n] == '}';
            if k.len() == 1 {
                assert(x[n] == '}');
            } else if n < before.len() {
                assert(before[n] == '}');
            } else {
                assert(n >= before.len() + 2);
                assert(x[n - before.len() - 2] == '}');
            }
        }
    }
}

pub(super) proof fn lemma_push_contains(s: Seq<Seq<char>>, x: Seq<char>, b: Seq<char>)
    ensures
        s.push(x).contains(b) <==> s.contains(b) || b == x,
{
    let t = s.push(x);
    if s.contains(b) {
        let k = choose|k: int| 0 <= k < s.len() && s[k] == b;
        assert(t[k] == b);
    }
    assert(t[s.len() as int] == x);
    if t.contains(b) {
        let k = choose|k: int| 0 <= k < t.len() && t[k] == b;
        if k < s.len() {
            assert(s[k] == b);
        }
    }
}

pub(super) proof fn lemma_tidy_keeps(p: Seq<Seq<char>>, k: Seq<Seq<char>>)
    requires
        p.len() == k.len(),
        forall|i: int| 0 <= i < k.len() ==> text::trimmed(#[trigger] p[i]) == k[i],
        forall|i: int| 0 <= i < k.len() ==> (#[trigger] k[i]).len() > 0,
    ensures
        esm_imports::tidy(p) == k,
    decreases k.len(),
{
    if k.len() > 0 {
        let p1 = p.drop_last();
        let k1 = k.drop_last();
        assert forall|i: int| 0 <= i < k1.len() implies text::trimmed(#[trigger] p1[i]) == k1[i] by {
            assert(text::trimmed(p[i]) == k[i]);
        }
        assert forall|i: int| 0 <= i < k1.len() implies (#[trigger] k1[i]).len() > 0 by {
            assert(k[i].len() > 0);
        }
        lemma_tidy_keeps(p1, k1);
        assert(text::trimmed(p[p.len() - 1]) == k[k.len() - 1]);
        assert(k[k.len() - 1].len() > 0);
        assert(k1.push(k.last()) =~= k);
    }
}

pub(super) proof fn lemma_tidy(p: Seq<Seq<char>>)
    requires
        forall|i: int, c: char|
            0 <= i < p.len() && #[trigger] p[i].contains(c) ==> c != ',',
    ensures
        all_clean(esm_imports::tidy(p)),
    decreases p.len(),
{
    if p.len() > 0 {
        let rest = p.drop_last();
        let x = p.last();
        assert forall|i: int, c: char| 0 <= i < rest.len() && #[trigger] rest[i].contains(
            c,
        ) implies c != ',' by {
            assert(p[i].contains(c));
        }
        lemma_tidy(rest);
        lemma_trimmed(x);
        let t = text::trimmed(x);
        if t.contains(',') {
            let n = choose|n: int| 0 <= n < t.len() && t[n] == ',';
            assert(x.contains(t[n]));
            assert(p[p.len() - 1].contains(','));
        }
        let before = esm_imports::tidy(rest);
        let r = esm_imports::tidy(p);
        assert forall|i: int| 0 <= i < r.len() implies clean(#[trigger] r[i]) by {
            if i < before.len() {
                assert(clean(before[i]));
            }
        }
    }
}

/// The last place of a pattern in the end of a text is its last place in the text.
pub(super) proof fn lemma_rfind_behind(x: Seq<char>, s: Seq<char>, p: Seq<char>, i: int)
    requires
        i <= s.len() - p.len(),
        text::rfind_from(s, p, i) is Some,
    ensures
        text::rfind_from(x + s, p, x.len() + i) == Some(x.len() + text::rfind_from(s, p, i)->0),
    decreases i + 1,
{
    let t = x + s;
    if i >= 0 {
        assert(t.subrange(x.len() + i, x.len() + i + p.len()) =~= s.subrange(i, i + p.len()));
        if !text::occurs_at(s, p, i) {
            lemma_rfind_behind(x, s, p, i - 1);
        }
    }
}

pub(super) proof fn lemma_rfind_bound(s: Seq<char>, p: Seq<char>, i: int)
    ensures
        text::rfind_from(s, p, i) matches Some(k) ==> 0 <= k <= i && k + p.len() <= s.len(),
    decreases i + 1,
{
    if i >= 0 && !text::occurs_at(s, p, i) {
        lemma_rfind_bound(s, p, i - 1);
    }
}

/// What is found last stands where it is found, and nowhere behind.
pub(super) proof fn lemma_rfind(s: Seq<char>, p: Seq<char>, i: int)
    ensures
        match text::rfind_from(s, p, i) {
            Some(k) => {
                &&& 0 <= k <= i
                &&& text::occurs_at(s, p, k)
                &&& forall|j: int| k < j <= i ==> !text::occurs_at(s, p, j)
            },
            None => forall|j: int| j <= i ==> !text::occurs_at(s, p, j),
        },
    decreases i + 1,
{
    if i >= 0 && !text::occurs_at(s, p, i) {
        lemma_rfind(s, p, i - 1);
    }
}

/// The last place of a pattern is the one behind which it does not occur.
pub(super) proof fn lemma_rfind_is(s: Seq<char>, p: Seq<char>, k: int)
    requires
        text::occurs_at(s, p, k),
        forall|j: int| k < j ==> !text::occurs_at(s, p, j),
    ensures
        text::rfind_in(s, p) == Some(k),
{
    lemma_rfind(s, p, s.len() - p.len());
}

/// The last piece of a text that ends in a text without commas, as the place where it begins.
pub(super) proof fn lemma_last_piece(x: Seq<char>, a: Seq<char>, m: int) -> (n: int)
    requires
        !a.contains(','),
        0 <= m <= x.len(),
        forall|i: int| m <= i < x.len() ==> x[i] != ',',
    ensures
        0 <= n <= m,
        esm_imports::comma_pieces(x + a).len() > 0,
        esm_imports::comma_pieces(x + a).last() == x.subrange(n, x.len() as int) + a,
    decreases x.len(),
{
    if x.contains(',') {
        let i = first_place(x, ',');
        let s = x + a;
        let y = x.subrange(i + 1, x.len() as int);
        assert(i < m);
        assert forall|j: int| m - i - 1 <= j < y.len() implies y[j] != ',' by {
            assert(y[j] == x[j + i + 1]);
        }
        let n = lemma_last_piece(y, a, m - i - 1);
        assert(s =~= x.subrange(0, i) + seq![','] + (y + a));
        lemma_comma_split(x.subrange(0, i), y + a);
        assert(y.subrange(n, y.len() as int) =~= x.subrange(n + i + 1, x.len() as int));
        n + i + 1
    } else {
        assert(!(x + a).contains(',')) by {
            if (x + a).contains(',') {
                let k = choose|k: int| 0 <= k < (x + a).len() && (x + a)[k] == ',';
                if k < x.len() {
                    assert(x[k] == ',');
                } else {
                    assert(a[k - x.len()] == ',');
                }
            }
        }
        lemma_one_piece(x + a);
        assert(x.subrange(0, x.len() as int) =~= x);
        0
    }
}

} // verus!
