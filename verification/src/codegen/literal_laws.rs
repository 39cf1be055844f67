//! Literals read back as what they were written from.

use super::expr_gen;
use crate::ir::display;
use crate::ir::model::{Const, Val};
use crate::ir::BinaryOp;
use crate::names;
use crate::text;
use vstd::prelude::*;

verus! {

/// The character that a backslash and a character stand for.
pub open spec fn unescaped(c: char) -> char {
    if c == 'n' {
        '\n'
    } else if c == 'r' {
        '\r'
    } else if c == 't' {
        '\t'
    } else {
        c
    }
}

/// The characters that the inside of a string literal stands for.
pub open spec fn meant(t: Seq<char>) -> Seq<char>
    decreases t.len(),
{
    if t.len() == 0 {
        Seq::empty()
    } else if t[0] == '\\' && t.len() > 1 {
        seq![unescaped(t[1])] + meant(t.skip(2))
    } else {
        seq![t[0]] + meant(t.skip(1))
    }
}

/// Whether a text can stand between double quotes: no quote and no line end stands in it by itself,
/// and no backslash at its end.
pub open spec fn fits_quotes(t: Seq<char>) -> bool
    decreases t.len(),
{
    t.len() == 0 || (if t[0] == '\\' {
        t.len() > 1 && fits_quotes(t.skip(2))
    } else {
        t[0] != '"' && t[0] != '\n' && t[0] != '\r' && fits_quotes(t.skip(1))
    })
}

proof fn lemma_escaped_front(s: Seq<char>)
    requires
        s.len() > 0,
    ensures
        names::escaped(s) == names::escaped_char(s[0]) + names::escaped(s.skip(1)),
    decreases s.len(),
{
    let d = s.drop_last();
    if s.len() == 1 {
        assert(d =~= Seq::<char>::empty());
        assert(s.skip(1) =~= Seq::<char>::empty());
        assert(names::escaped(d) =~= Seq::<char>::empty());
        assert(names::escaped(s.skip(1)) =~= Seq::<char>::empty());
        assert(names::escaped(s) =~= names::escaped_char(s[0]) + names::escaped(s.skip(1)));
    } else {
        lemma_escaped_front(d);
        assert(d.skip(1) =~= s.skip(1).drop_last());
        assert(s.skip(1).last() == s.last());
        assert(names::escaped(s) =~= names::escaped_char(s[0]) + (names::escaped(d.skip(1))
            + names::escaped_char(s.last())));
    }
}

/// A string literal reads back as the string.
pub proof fn lemma_string_reads_back(s: Seq<char>)
    ensures
        fits_quotes(names::escaped(s)),
        meant(names::escaped(s)) == s,
    decreases s.len(),
{
    if s.len() > 0 {
        let rest = names::escaped(s.skip(1));
        let first = names::escaped_char(s[0]);
        lemma_escaped_front(s);
        lemma_string_reads_back(s.skip(1));
        let t = first + rest;
        assert(t[0] == first[0]);
        if first.len() == 2 {
            assert(t[1] == first[1]);
            assert(t.skip(2) =~= rest);
            assert(unescaped(first[1]) == s[0]);
        } else {
            assert(t.skip(1) =~= rest);
            assert(t[0] == s[0]);
        }
        assert(seq![s[0]] + s.skip(1) =~= s);
    }
}

/// The characters that a text part of a template stands for.
pub open spec fn meant_part(t: Seq<char>) -> Seq<char>
    decreases t.len(),
{
    if t.len() == 0 {
        Seq::empty()
    } else if t[0] == '\\' && t.len() > 1 {
        seq![t[1]] + meant_part(t.skip(2))
    } else {
        seq![t[0]] + meant_part(t.skip(1))
    }
}

/// Whether a text can stand in a template: neither the end of the template nor the start of a
/// substitution stands in it by itself.
pub open spec fn fits_template(t: Seq<char>) -> bool
    decreases t.len(),
{
    t.len() == 0 || (if t[0] == '\\' {
        t.len() > 1 && (t[1] == '\\' || t[1] == '`' || t[1] == '$') && fits_template(t.skip(2))
    } else {
        t[0] != '`' && !(t[0] == '$' && t.len() > 1 && t[1] == '{') && fits_template(t.skip(1))
    })
}

/// A text part of a template reads back as what it was written from.
pub proof fn lemma_template_part_reads_back(s: Seq<char>)
    ensures
        fits_template(expr_gen::quasi_text(s)),
        meant_part(expr_gen::quasi_text(s)) == s,
        s.len() > 0 && s[0] != '{' ==> expr_gen::quasi_text(s).len() > 0 && expr_gen::quasi_text(
            s,
        )[0] != '{',
        s.len() == 0 ==> expr_gen::quasi_text(s).len() == 0,
    decreases s.len(),
{
    if s.len() > 0 {
        let rest = s.subrange(1, s.len() as int);
        lemma_template_part_reads_back(rest);
        let t = expr_gen::quasi_text(s);
        let u = expr_gen::quasi_text(rest);
        assert(seq![s[0]] + rest =~= s);
        if s[0] == '\\' || s[0] == '`' || (s[0] == '$' && s.len() > 1 && s[1] == '{') {
            assert(t =~= seq!['\\', s[0]] + u);
            assert(t.skip(2) =~= u);
        } else {
            assert(t =~= seq![s[0]] + u);
            assert(t.skip(1) =~= u);
            if s[0] == '$' && t.len() > 1 {
                assert(t[1] == u[0]);
                assert(rest[0] == s[1]);
            }
        }
    }
}

/// The number that digits are.
pub open spec fn number(t: Seq<char>) -> int
    decreases t.len(),
{
    if t.len() == 0 {
        0
    } else {
        10 * number(t.drop_last()) + (t.last() as int - '0' as int)
    }
}

/// A number is written in digits, without a zero before the others, and reads back as the number.
pub proof fn lemma_number_reads_back(n: nat)
    ensures
        number(text::decimal(n)) == n,
        text::decimal(n).len() > 0,
        forall|i: int|
            0 <= i < text::decimal(n).len() ==> '0' <= #[trigger] text::decimal(n)[i] <= '9',
        n > 0 ==> text::decimal(n)[0] != '0',
    decreases n,
{
    let t = text::decimal(n);
    if n < 10 {
        assert(t.drop_last() =~= Seq::<char>::empty());
        assert(number(t.drop_last()) == 0);
    } else {
        lemma_number_reads_back(n / 10);
        assert(t.drop_last() =~= text::decimal(n / 10));
    }
}

/// Different numbers are written differently.
pub proof fn lemma_numbers_stay_distinct(m: nat, n: nat)
    requires
        text::decimal(m) == text::decimal(n),
    ensures
        m == n,
{
    lemma_number_reads_back(m);
    lemma_number_reads_back(n);
}

/// Different parameters and registers have different names.
pub proof fn lemma_numbered_names_stay_distinct(p: Seq<char>, m: nat, n: nat)
    requires
        names::numbered(p, m) == names::numbered(p, n),
    ensures
        m == n,
{
    let a = names::numbered(p, m);
    let b = names::numbered(p, n);
    assert(a.skip(p.len() as int) =~= text::decimal(m));
    assert(b.skip(p.len() as int) =~= text::decimal(n));
    lemma_numbers_stay_distinct(m, n);
}

/// The words of the language for leaves that have one.
pub open spec fn word(v: Val) -> Option<Seq<char>> {
    match v {
        Val::This => Some("this"@),
        Val::Super => Some("super"@),
        Val::NewTarget => Some("new.target"@),
        Val::Global => Some("globalThis"@),
        Val::Constant(Const::Undefined) => Some("undefined"@),
        Val::Constant(Const::Null) => Some("null"@),
        Val::Constant(Const::Bool(b)) => Some(
            if b {
                "true"@
            } else {
                "false"@
            },
        ),
        _ => None,
    }
}

/// A leaf that has a word of its own is written as that word.
pub proof fn lemma_words_are_written(v: Val)
    requires
        word(v) is Some,
    ensures
        display::val_text(v) == word(v)->Some_0,
{
}

/// Whether a comparison of numbers holds.
pub open spec fn compares(op: BinaryOp, a: int, b: int) -> bool {
    match op {
        BinaryOp::Eq => a == b,
        BinaryOp::StrictEq => a == b,
        BinaryOp::Neq => a != b,
        BinaryOp::StrictNeq => a != b,
        BinaryOp::Lt => a < b,
        BinaryOp::Le => a <= b,
        BinaryOp::Gt => a > b,
        BinaryOp::Ge => a >= b,
        _ => false,
    }
}

/// The opposite of a comparison holds where the comparison does not.
pub proof fn lemma_opposite_negates(op: BinaryOp, a: int, b: int)
    requires
        op.opposite() is Some,
    ensures
        compares(op.opposite()->Some_0, a, b) == !compares(op, a, b),
{
}

} // verus!
