//! What a recovered loop iterates over, names and does.

use super::legacy;
use super::modern;
use crate::ir::model::{Const, Expr, Key, Stmt, Target, Val};
use crate::ir::naming;
use crate::ir::{BinaryOp, UnaryOp};
use vstd::prelude::*;

verus! {

/// A read of a register.
pub open spec fn reg(r: u32) -> Expr {
    Expr::Value(Val::Register(r))
}

/// `e.name`
pub open spec fn dot(e: Expr, name: Seq<char>) -> Expr {
    Expr::Member { object: Box::new(e), property: Key::Ident(name), optional: false }
}

/// `e()`
pub open spec fn call(e: Expr) -> Expr {
    Expr::Call { callee: Box::new(e), arguments: Seq::empty() }
}

/// `c[Symbol.iterator]()`
pub open spec fn iterator_over(c: Expr) -> Expr {
    call(
        Expr::Member {
            object: Box::new(c),
            property: Key::Computed(
                Box::new(dot(Expr::Value(Val::Variable("Symbol"@)), "iterator"@)),
            ),
            optional: false,
        },
    )
}

pub open spec fn set_to(r: u32, e: Expr) -> Stmt {
    Stmt::Assign { target: Target::Register(r), value: e }
}

/// `i = c[Symbol.iterator](); v = i.next(); while (i !== undefined) { b }` is a loop over `c`, whose
/// body is `b` with `v` named.
pub proof fn lemma_protocol_becomes_a_loop(s: Seq<Stmt>, n: int, c: Expr, i: u32, v: u32, b: Seq<Stmt>)
    requires
        0 <= n,
        n + 2 < s.len(),
        s[n] == set_to(i, iterator_over(c)),
        s[n + 1] == set_to(v, call(dot(reg(i), "next"@))),
        s[n + 2] == (Stmt::While {
            condition: Expr::Binary {
                op: BinaryOp::StrictNeq,
                left: Box::new(reg(i)),
                right: Box::new(Expr::Value(Val::Constant(Const::Undefined))),
            },
            body: b,
        }),
    ensures
        modern::for_of_from(s, n) == seq![
            Stmt::ForOf {
                variable: super::item_name(v),
                iterable: c,
                body: modern::for_of(
                    naming::nam_stmts(
                        Map::empty().insert(v, super::item_name(v)),
                        super::unwrapped(b),
                    ),
                ),
            },
        ] + modern::for_of_from(s, n + 3),
{
    let none = Seq::<Stmt>::empty();
    let p = modern::Plumbing { aliases: seq![i], value: None, kept: none };
    let q = modern::Plumbing { aliases: seq![i], value: Some(v), kept: none };
    assert(seq![i][0] == i);
    assert(seq![i].contains(i));
    assert(modern::plumb(p, s[n + 1]) == Some(q));
    assert(modern::plumb(q, s[n + 2]) is None);
    reveal_with_fuel(modern::plumbed, 3);
    assert(modern::plumbed(s, n + 1, p) == (q, n + 2));
    assert(super::iterated(iterator_over(c)) == Some(c));
    let f = modern::loop_at(s, n);
    assert(f is Some);
    modern::lemma_loop_at(s, n);
    let made = Stmt::ForOf {
        variable: super::item_name(v),
        iterable: c,
        body: modern::for_of(modern::named_body(f->Some_0)),
    };
    assert(none + seq![made] =~= seq![made]);
}

/// Whether a statement gets an iterator.
pub open spec fn gets_iterator(s: Stmt) -> bool {
    match s {
        Stmt::Assign { target: Target::Register(_), value: Expr::Call { callee, arguments } } =>
            arguments.len() == 0 && match *callee {
                Expr::Member { property: Key::Computed(k), .. } => match *k {
                    Expr::Member { object, property: Key::Ident(p), .. } => p == "iterator"@
                        && *object == Expr::Value(Val::Variable("Symbol"@)),
                    _ => false,
                },
                _ => false,
            },
        _ => false,
    }
}

/// A list that gets no iterator stays as it is.
pub proof fn lemma_lists_without_iterators_stay(s: Seq<Stmt>, n: int)
    requires
        0 <= n <= s.len(),
        forall|k: int| 0 <= k < s.len() ==> !gets_iterator(#[trigger] s[k]),
    ensures
        modern::for_of_from(s, n) == s.skip(n),
    decreases s.len() - n,
{
    if n < s.len() {
        assert(!gets_iterator(s[n]));
        lemma_lists_without_iterators_stay(s, n + 1);
        assert(modern::loop_at(s, n) is None);
        assert(seq![s[n]] + s.skip(n + 1) =~= s.skip(n));
    }
}

/// Whether a list has none of the marks that a jump to the next round left.
pub open spec fn without_marks(s: Seq<Stmt>) -> bool {
    forall|k: int| 0 <= k < s.len() ==> #[trigger] s[k] != Stmt::Comment("continue"@)
}

proof fn lemma_marks(s: Seq<Stmt>)
    requires
        without_marks(s),
    ensures
        super::without_continues(s) == s,
    decreases s.len(),
{
    if s.len() > 0 {
        assert(without_marks(s.drop_last())) by {
            assert forall|k: int| 0 <= k < s.drop_last().len() implies #[trigger] s.drop_last()[k]
                != Stmt::Comment("continue"@) by {
                assert(s[k] != Stmt::Comment("continue"@));
            }
        }
        lemma_marks(s.drop_last());
        assert(s[s.len() - 1] != Stmt::Comment("continue"@));
        assert(s.drop_last().push(s.last()) =~= s);
    }
}

/// A body that is not wrapped stays whole.
pub proof fn lemma_plain_body_stays(s: Seq<Stmt>)
    requires
        without_marks(s),
        s.len() == 1 ==> !(s[0] is TryCatch),
    ensures
        super::unwrapped(s) == s,
{
    lemma_marks(s);
}

/// A body in a `try` whose handler throws the exception on is the body of the loop.
pub proof fn lemma_wrapped_body_is_the_body(b: Seq<Stmt>, e: Seq<char>)
    requires
        without_marks(b),
    ensures
        super::unwrapped(
            seq![
                Stmt::TryCatch {
                    try_body: b,
                    catch_param: Some(e),
                    catch_body: seq![Stmt::Throw(Expr::Value(Val::Variable(e)))],
                    finally_body: Seq::empty(),
                },
            ],
        ) == b,
{
    let h = seq![Stmt::Throw(Expr::Value(Val::Variable(e)))];
    assert(super::rethrows(Some(e), h, h[0]));
    assert(super::closing_handler(Some(e), h));
    lemma_marks(b);
}

/// Whether a statement does something that is the program's own: it is neither a call, a throw, an
/// assignment to a register nor a comment.
pub open spec fn own_work(s: Stmt) -> bool {
    !(s is Throw || s is Comment || s is Expr || (s matches Stmt::Assign {
        target: Target::Register(_),
        ..
    }))
}

/// A `try` of the program itself stays: one whose handler is empty or does some work, or one that has
/// something to do at its end.
pub proof fn lemma_own_try_stays(s: Seq<Stmt>, k: int)
    requires
        s.len() == 1,
        match s[0] {
            Stmt::TryCatch { catch_body, finally_body, .. } => catch_body.len() == 0
                || finally_body.len() > 0 || (0 <= k < catch_body.len() && own_work(catch_body[k])),
            _ => false,
        },
    ensures
        super::unwrapped(s) == s,
{
    lemma_marks(s);
}

/// In `i = c[Symbol.iterator](); r = i.next(); d = r.done; while (!d) { v = r.value; b }` the loop is
/// over `c`, its value is `v` and its body is `b`. The registers of the protocol are the iterator,
/// the result and the flag.
pub proof fn lemma_old_protocol_is_a_loop(
    s: Seq<Stmt>,
    c: Expr,
    i: u32,
    r: u32,
    d: u32,
    v: u32,
    b: Seq<Stmt>,
)
    requires
        i != r,
        i != d,
        r != d,
        s == seq![
            set_to(i, iterator_over(c)),
            set_to(r, call(dot(reg(i), "next"@))),
            set_to(d, dot(reg(r), "done"@)),
            Stmt::While {
                condition: Expr::Unary { op: UnaryOp::Not, operand: Box::new(reg(d)) },
                body: seq![set_to(v, dot(reg(r), "value"@))] + b,
            },
        ],
    ensures
        match legacy::protocol_at(s, 3) {
            Some(p) => p.iterable == c && p.value == v && p.body == super::unwrapped(b)
                && p.registers == set![i, r, d],
            None => false,
        },
        forall|k: int| 0 <= k < 3 ==> legacy::protocol_at(s, k) is None,
{
    let defs = legacy::defs_at(s);
    let body = seq![set_to(v, dot(reg(r), "value"@))] + b;
    assert(s.drop_last() =~= seq![
        set_to(i, iterator_over(c)),
        set_to(r, call(dot(reg(i), "next"@))),
        set_to(d, dot(reg(r), "done"@)),
    ]);
    assert(s.drop_last().drop_last() =~= seq![
        set_to(i, iterator_over(c)),
        set_to(r, call(dot(reg(i), "next"@))),
    ]);
    assert(s.drop_last().drop_last().drop_last() =~= seq![set_to(i, iterator_over(c))]);
    assert(s.drop_last().drop_last().drop_last().drop_last() =~= Seq::<Stmt>::empty());
    reveal_with_fuel(legacy::defs_at, 5);
    assert(defs[i] == iterator_over(c));
    assert(defs[r] == call(dot(reg(i), "next"@)));
    assert(defs[d] == dot(reg(r), "done"@));
    assert(body.subrange(1, body.len() as int) =~= b);
    assert(body[0] == set_to(v, dot(reg(r), "value"@)));
    assert(super::iterated(iterator_over(c)) == Some(c));
    let p = legacy::protocol_at(s, 3);
    assert(p is Some);
    let seeds = set![d, r].union(Set::<u32>::empty()).insert(i).union(Set::<u32>::empty());
    assert forall|x: u32| legacy::aliased(defs, seeds).contains(x) == set![i, r, d].contains(x) by {
        if seeds.contains(x) {
            assert(legacy::alias_in(defs, seeds, 0, x));
        }
        if legacy::aliased(defs, seeds).contains(x) {
            let n = choose|n: nat| legacy::alias_in(defs, seeds, n, x);
            assert(legacy::alias_in(defs, seeds, n, x));
        }
    }
    assert(legacy::aliased(defs, seeds) =~= set![i, r, d]);
}

/// Whether a statement is a call of `ensureObject`, or sets one of some registers.
pub open spec fn serves(s: Stmt, registers: Set<u32>) -> bool {
    match s {
        Stmt::Assign { target, value } => is_check(value) || (target matches Target::Register(r)
            && registers.contains(r)),
        Stmt::Expr(e) => is_check(e),
        _ => false,
    }
}

pub open spec fn is_check(e: Expr) -> bool {
    match e {
        Expr::Call { callee, .. } => match *callee {
            Expr::Member { property: Key::Ident(p), .. } => p == "ensureObject"@,
            _ => false,
        },
        _ => false,
    }
}

/// The loop takes the place of the `while`. Of the statements around it only those that serve the
/// protocol go.
pub proof fn lemma_only_the_protocol_goes(s: Seq<Stmt>, k: int, made: Stmt, registers: Set<u32>)
    requires
        0 <= k < s.len(),
    ensures
        legacy::rebuilt(s, k, made, registers) == s.take(k).filter(|x: Stmt| !serves(x, registers))
            + seq![made] + s.skip(k + 1).filter(|x: Stmt| !serves(x, registers)),
    decreases s.len(),
{
    reveal(Seq::filter);
    let keep = |x: Stmt| !serves(x, registers);
    let d = s.drop_last();
    if k == s.len() - 1 {
        lemma_before(d, k, made, registers);
        assert(s.take(k) =~= d);
        assert(s.skip(k + 1) =~= Seq::<Stmt>::empty());
        assert(d.filter(keep) + seq![made] + Seq::<Stmt>::empty() =~= d.filter(keep).push(made));
    } else {
        lemma_only_the_protocol_goes(d, k, made, registers);
        assert(d.take(k) =~= s.take(k));
        assert(s.skip(k + 1).drop_last() =~= d.skip(k + 1));
        assert(s.skip(k + 1).last() == s.last());
        assert(legacy::belongs(s.last(), registers) == serves(s.last(), registers));
        let tail = d.skip(k + 1).filter(keep);
        if keep(s.last()) {
            assert(s.take(k).filter(keep) + seq![made] + tail.push(s.last()) =~= (s.take(k).filter(
                keep,
            ) + seq![made] + tail).push(s.last()));
        }
    }
}

proof fn lemma_before(s: Seq<Stmt>, k: int, made: Stmt, registers: Set<u32>)
    requires
        k >= s.len(),
    ensures
        legacy::rebuilt(s, k, made, registers) == s.filter(|x: Stmt| !serves(x, registers)),
    decreases s.len(),
{
    reveal(Seq::filter);
    if s.len() > 0 {
        lemma_before(s.drop_last(), k, made, registers);
        assert(legacy::belongs(s.last(), registers) == serves(s.last(), registers));
    }
}

} // verus!
