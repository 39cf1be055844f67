//! An object literal holds what was written into the object, and nothing else moves.

use super::inline_literals;
use super::refs;
use super::refs::Ref;
use super::slot_fills;
use crate::ir::effects;
use crate::ir::model::{Const, Expr, Key, Prop, Stmt, Target, Val};
use crate::ir::nested;
use crate::ir::occurs;
use crate::ir::occurs::Atom;
use vstd::prelude::*;

verus! {

/// Whether a statement writes a property of the object in a register.
pub open spec fn puts(s: Stmt, r: u32) -> bool {
    match s {
        Stmt::Assign { target: Target::Member { object, .. }, .. } => object == Expr::Value(
            Val::Register(r),
        ),
        Stmt::Assign { target: Target::Index { object, .. }, .. } => object == Expr::Value(
            Val::Register(r),
        ),
        _ => false,
    }
}

/// The property that such a statement writes.
pub open spec fn put(s: Stmt) -> Prop {
    match s {
        Stmt::Assign { target: Target::Member { property, .. }, value } => Prop {
            key: Key::Ident(property),
            value,
        },
        Stmt::Assign { target: Target::Index { key, .. }, value } => Prop {
            key: Key::Computed(Box::new(key)),
            value,
        },
        _ => arbitrary(),
    }
}

/// The properties that statements write, in order.
pub open spec fn given(s: Seq<Stmt>, r: u32) -> Seq<Prop>
    decreases s.len(),
{
    if s.len() == 0 {
        Seq::empty()
    } else if puts(s[0], r) {
        seq![put(s[0])] + given(s.skip(1), r)
    } else {
        given(s.skip(1), r)
    }
}

/// The statements that write no property of the object, in order.
pub open spec fn others(s: Seq<Stmt>, r: u32) -> Seq<Stmt>
    decreases s.len(),
{
    if s.len() == 0 {
        Seq::empty()
    } else if puts(s[0], r) {
        others(s.skip(1), r)
    } else {
        seq![s[0]] + others(s.skip(1), r)
    }
}

/// Whether a statement has nothing to do with the object in a register: it is a comment, or it
/// evaluates something without side effects and binds that to another place. The object is not read,
/// except that a declaration may read it.
pub open spec fn leaves_alone(s: Stmt, r: u32) -> bool {
    match s {
        Stmt::Comment(_) => true,
        Stmt::Assign { target: Target::Register(q), value } => q != r && !effects::effects(value)
            && !refs::reads(value, seq![Ref::Register(r)]),
        Stmt::Let { value, .. } => !effects::effects(value),
        Stmt::Expr(e) => !effects::effects(e) && !refs::reads(e, seq![Ref::Register(r)]),
        _ => false,
    }
}

/// Whether a value is the same wherever it stands in a list: each register that it reads is given a
/// value no more than once.
pub open spec fn steady(all: Seq<u32>, e: Expr) -> bool {
    forall|q: u32|
        occurs::expr_atoms(e).contains(Atom::Use(Val::Register(q))) ==> #[trigger] super::times(
            all,
            q,
        ) <= 1
}

/// Whether a statement can be passed over on the way to more properties.
pub open spec fn passable(all: Seq<u32>, s: Stmt, r: u32) -> bool {
    if puts(s, r) {
        steady(all, put(s).value)
    } else {
        leaves_alone(s, r)
    }
}

/// Whether the properties are those that the first `n` statements write, the statements that remain
/// are all the others, and no more statements could be passed over.
pub open spec fn parted(
    all: Seq<u32>,
    r: u32,
    s: Seq<Stmt>,
    n: int,
    ps: Seq<Prop>,
    rest: Seq<Stmt>,
) -> bool {
    &&& 0 <= n <= s.len()
    &&& ps == given(s.take(n), r)
    &&& rest == others(s.take(n), r) + s.skip(n)
    &&& forall|i: int| 0 <= i < n ==> passable(all, #[trigger] s[i], r)
    &&& n < s.len() ==> !passable(all, s[n], r)
}

proof fn lemma_pass(all: Seq<u32>, s: Stmt, r: u32)
    ensures
        puts(s, r) == super::put_prop(s, r) is Some,
        puts(s, r) ==> super::put_prop(s, r) == Some(put(s)) && steady(all, put(s).value)
            == !super::unstable(all, put(s).value),
        !puts(s, r) ==> leaves_alone(s, r) == !slot_fills::ends_scan(s, Ref::Register(r)),
{
    if puts(s, r) {
        let e = put(s).value;
        if !steady(all, e) {
            let q = choose|q: u32|
                occurs::expr_atoms(e).contains(Atom::Use(Val::Register(q))) && !(
                #[trigger] super::times(all, q) <= 1);
            assert(super::times(all, q) >= 2);
        }
        if super::unstable(all, e) {
            let q = choose|q: u32| #[trigger]
                super::times(all, q) >= 2 && occurs::expr_atoms(e).contains(
                    Atom::Use(Val::Register(q)),
                );
            assert(!(super::times(all, q) <= 1));
        }
    }
}

/// The properties collected for an object are those that the statements after it write, each with
/// its key and its value, in order; the other statements stay, in order. Statements are passed over
/// as far as nothing reads the object or has side effects.
pub proof fn lemma_literal_holds_what_is_written(all: Seq<u32>, r: u32, s: Seq<Stmt>) -> (n: int)
    ensures
        parted(all, r, s, n, super::collected(all, r, s).0, super::collected(all, r, s).1),
    decreases s.len(),
{
    let x = super::collected(all, r, s);
    if s.len() == 0 {
        assert(s.take(0) =~= s);
        assert(others(s.take(0), r) + s.skip(0) =~= s);
        0
    } else {
        lemma_pass(all, s[0], r);
        if passable(all, s[0], r) {
            let t = s.skip(1);
            let m = lemma_literal_holds_what_is_written(all, r, t);
            let y = super::collected(all, r, t);
            let n: int = m + 1;
            assert(s.take(n).skip(1) =~= t.take(m));
            assert(s.take(n)[0] == s[0]);
            assert(s.skip(n) =~= t.skip(m));
            assert(x.1 =~= others(s.take(n), r) + s.skip(n));
            assert forall|i: int| 0 <= i < n implies passable(all, #[trigger] s[i], r) by {
                if i > 0 {
                    assert(t[i - 1] == s[i]);
                }
            }
            if n < s.len() {
                assert(t[m] == s[n]);
            }
            n
        } else {
            assert(s.take(0) =~= Seq::<Stmt>::empty());
            assert(others(s.take(0), r) + s.skip(0) =~= s);
            0
        }
    }
}

/// An empty literal takes in what is written into it, and the list goes on without those writes.
pub proof fn lemma_empty_literal_is_filled(all: Seq<u32>, r: u32, s: Seq<Stmt>) -> (n: int)
    requires
        s.len() > 0,
        s[0] == (Stmt::Assign {
            target: Target::Register(r),
            value: Expr::Object { properties: Seq::empty() },
        }),
    ensures
        0 <= n < s.len(),
        super::with_literals(all, s) == seq![
            Stmt::Assign {
                target: Target::Register(r),
                value: Expr::Object { properties: given(s.subrange(1, n + 1), r) },
            },
        ] + super::with_literals(all, others(s.subrange(1, n + 1), r) + s.skip(n + 1)),
        n + 1 < s.len() ==> !passable(all, s[n + 1], r),
{
    let t = s.skip(1);
    let n = lemma_literal_holds_what_is_written(all, r, t);
    let x = super::collected(all, r, t);
    assert(t.take(n) =~= s.subrange(1, n + 1));
    assert(t.skip(n) =~= s.skip(n + 1));
    super::lemma_collected(all, r, t);
    if n + 1 < s.len() {
        assert(t[n] == s[n + 1]);
    }
    if x.0.len() == 0 {
        assert(x.1.len() == t.len());
        lemma_none(t.take(n), r);
        assert(x.1 =~= t);
        assert(given(s.subrange(1, n + 1), r) =~= Seq::<Prop>::empty());
    }
    n
}

proof fn lemma_none(s: Seq<Stmt>, r: u32)
    requires
        given(s, r).len() == 0,
    ensures
        others(s, r) == s,
    decreases s.len(),
{
    if s.len() > 0 {
        lemma_none(s.skip(1), r);
        assert(seq![s[0]] + s.skip(1) =~= s);
    }
}

/// Whether a statement writes the slot of a property of the object in a place: by the number of the
/// slot, or by the name of the first property that has it.
pub open spec fn fills(by_name: bool, s: Stmt, o: Ref, ps: Seq<Prop>, k: int, e: Expr) -> bool {
    match s {
        Stmt::Assign { target: Target::Member { object, property }, value } => by_name && value == e
            && refs::as_ref(object) == Some(o) && called(ps, k, property),
        Stmt::Assign { target: Target::Index { object, key }, value } => !by_name && value == e
            && refs::as_ref(object) == Some(o) && match key {
            Expr::Value(Val::Constant(Const::Integer(i))) => i == k && k < ps.len(),
            _ => false,
        },
        _ => false,
    }
}

pub open spec fn has_name(p: Prop, n: Seq<char>) -> bool {
    p.key == Key::Ident(n) || p.key == Key::String(n)
}

/// Whether a property is the first of a name.
pub open spec fn called(ps: Seq<Prop>, k: int, n: Seq<char>) -> bool {
    0 <= k < ps.len() && has_name(ps[k], n) && forall|i: int|
        0 <= i < k ==> !has_name(#[trigger] ps[i], n)
}

proof fn lemma_position(ps: Seq<Prop>, n: Seq<char>, i: int)
    requires
        0 <= i,
        forall|m: int| 0 <= m < i && m < ps.len() ==> !has_name(#[trigger] ps[m], n),
    ensures
        slot_fills::position(ps, n, i) matches Some(k) ==> called(ps, k, n),
        slot_fills::position(ps, n, i) is None ==> forall|m: int|
            0 <= m < ps.len() ==> !has_name(#[trigger] ps[m], n),
    decreases ps.len() - i,
{
    if i < ps.len() && !has_name(ps[i], n) {
        lemma_position(ps, n, i + 1);
    }
}

/// Whether an expression is what stands in a slot before it is filled.
pub open spec fn open_slot(e: Expr) -> bool {
    e == Expr::Value(Val::Constant(Const::Null)) || e == Expr::Value(
        Val::Constant(Const::Undefined),
    )
}

/// Whether a statement writes a slot of the object in a place.
pub open spec fn writes_slot(by_name: bool, s: Stmt, o: Ref, ps: Seq<Prop>, k: int) -> bool {
    exists|e: Expr| #[trigger] fills(by_name, s, o, ps, k, e)
}

/// Whether a statement writes a property of the object in a place.
pub open spec fn writes_into(s: Stmt, o: Ref) -> bool {
    match s {
        Stmt::Assign { target: Target::Member { object, .. }, .. } => refs::as_ref(object) == Some(o),
        Stmt::Assign { target: Target::Index { object, .. }, .. } => refs::as_ref(object) == Some(o),
        _ => false,
    }
}

/// Whether a statement has nothing to do with the object in a place.
pub open spec fn clear_of(s: Stmt, o: Ref) -> bool {
    match s {
        Stmt::Comment(_) => true,
        Stmt::Assign { target: Target::Register(q), value } => o != Ref::Register(q)
            && !effects::effects(value) && !refs::reads(value, seq![o]),
        Stmt::Let { name, value, .. } => o != Ref::Name(name) && !effects::effects(value) && (
        o is Name ==> !refs::reads(value, seq![o])),
        Stmt::Expr(e) => !effects::effects(e) && !refs::reads(e, seq![o]),
        _ => false,
    }
}

/// Whether a value reads what a statement binds.
pub open spec fn depends(e: Expr, s: Stmt) -> bool {
    match s {
        Stmt::Assign { target: Target::Register(r), .. } => refs::reads(e, seq![Ref::Register(r)]),
        Stmt::Assign { target: Target::Variable(n), .. } => refs::reads(e, seq![Ref::Name(n)]),
        Stmt::Let { name, .. } => refs::reads(e, seq![Ref::Name(name)]),
        _ => false,
    }
}

/// Whether the write of an open slot can go to the literal, which stands before position `j`: the
/// statements in between write the object or have nothing to do with it, and the value reads none of
/// what they bind, nor of some other places.
pub open spec fn can_go(
    by_name: bool,
    t: Seq<Stmt>,
    o: Ref,
    ps: Seq<Prop>,
    j: int,
    d: Seq<Ref>,
    m: int,
    k: int,
    e: Expr,
) -> bool {
    &&& j <= m < t.len()
    &&& 0 <= k < ps.len()
    &&& open_slot(ps[k].value)
    &&& fills(by_name, t[m], o, ps, k, e)
    &&& forall|i: int| j <= i < m ==> !depends(e, #[trigger] t[i])
    &&& forall|i: int| j <= i < m ==> writes_into(#[trigger] t[i], o) || clear_of(t[i], o)
    &&& forall|x: Ref| d.contains(x) ==> !#[trigger] refs::reads(e, seq![x])
}

/// Whether a write of a slot went to the literal.
pub open spec fn gone(
    by_name: bool,
    t: Seq<Stmt>,
    o: Ref,
    ps: Seq<Prop>,
    c: Seq<bool>,
    f: Seq<bool>,
    l: int,
    k: int,
) -> bool {
    0 <= l < t.len() && f[l] && !c[l] && writes_slot(by_name, t[l], o, ps, k)
}

/// Whether a value is that of the last write of a slot that went to the literal.
pub open spec fn last_write(
    by_name: bool,
    t: Seq<Stmt>,
    o: Ref,
    ps: Seq<Prop>,
    c: Seq<bool>,
    f: Seq<bool>,
    j: int,
    d: Seq<Ref>,
    m: int,
    k: int,
    e: Expr,
) -> bool {
    &&& can_go(by_name, t, o, ps, j, d, m, k, e)
    &&& f[m]
    &&& forall|l: int| m < l < t.len() ==> !#[trigger] gone(by_name, t, o, ps, c, f, l, k)
}

/// Whether a slot holds what was written to it: its own value where no write of it went, and the
/// value of the last write that went otherwise.
pub open spec fn settled(
    by_name: bool,
    t: Seq<Stmt>,
    o: Ref,
    ps: Seq<Prop>,
    c: Seq<bool>,
    f: Seq<bool>,
    j: int,
    d: Seq<Ref>,
    k: int,
    e: Expr,
) -> bool {
    ||| e == ps[k].value && forall|l: int|
        j <= l < t.len() ==> !#[trigger] gone(by_name, t, o, ps, c, f, l, k)
    ||| exists|m: int| #[trigger] last_write(by_name, t, o, ps, c, f, j, d, m, k, e)
}

/// Whether folding the writes from a position on into a literal is right: the keys stay; a property
/// keeps its value where no write of it went, and has the value of the last write that went
/// otherwise; and only writes that can go went.
pub open spec fn well_filled(
    by_name: bool,
    t: Seq<Stmt>,
    o: Ref,
    ps: Seq<Prop>,
    c: Seq<bool>,
    j: int,
    d: Seq<Ref>,
    qs: Seq<Prop>,
    f: Seq<bool>,
) -> bool {
    &&& qs.len() == ps.len()
    &&& f.len() == c.len()
    &&& forall|k: int| 0 <= k < ps.len() ==> (#[trigger] qs[k]).key == ps[k].key
    &&& forall|k: int|
        0 <= k < ps.len() ==> settled(by_name, t, o, ps, c, f, j, d, k, (#[trigger] qs[k]).value)
    &&& forall|m: int|
        0 <= m < c.len() ==> (#[trigger] f[m]) == c[m] || (f[m] && exists|k: int, e: Expr| #[trigger]
            can_go(by_name, t, o, ps, j, d, m, k, e))
}

proof fn lemma_any_ref(s: Seq<Expr>, d: Seq<Ref>, x: Ref)
    requires
        d.contains(x),
        !refs::any_ref(s, d),
    ensures
        !refs::any_ref(s, seq![x]),
    decreases s.len(),
{
    if s.len() > 0 {
        lemma_any_ref(s.drop_last(), d, x);
        if let Some(y) = refs::as_ref(s.last()) {
            if seq![x].contains(y) {
                assert(y == x);
            }
        }
    }
}

proof fn lemma_same_keys(by_name: bool, s: Stmt, o: Ref, ps: Seq<Prop>, qs: Seq<Prop>, k: int, e: Expr)
    requires
        ps.len() == qs.len(),
        forall|i: int| 0 <= i < ps.len() ==> (#[trigger] qs[i]).key == ps[i].key,
    ensures
        fills(by_name, s, o, ps, k, e) == fills(by_name, s, o, qs, k, e),
{
    if let Stmt::Assign { target: Target::Member { object, property }, value } = s {
        assert(forall|i: int|
            0 <= i < ps.len() ==> has_name(#[trigger] ps[i], property) == has_name(qs[i], property));
        if called(ps, k, property) {
            assert(forall|i: int| 0 <= i < k ==> !has_name(#[trigger] qs[i], property));
        }
        if called(qs, k, property) {
            assert(forall|i: int| 0 <= i < k ==> !has_name(#[trigger] ps[i], property));
        }
    }
}

proof fn lemma_one_slot(by_name: bool, s: Stmt, o: Ref, ps: Seq<Prop>, k: int, l: int, e: Expr, g: Expr)
    requires
        fills(by_name, s, o, ps, k, e),
        fills(by_name, s, o, ps, l, g),
    ensures
        k == l,
        e == g,
{
    if let Stmt::Assign { target: Target::Member { object, property }, value } = s {
        if k < l {
            assert(!has_name(ps[k], property));
        }
        if l < k {
            assert(!has_name(ps[l], property));
        }
    }
}

proof fn lemma_fill(by_name: bool, s: Stmt, o: Ref, ps: Seq<Prop>)
    ensures
        match slot_fills::fill(by_name, s, o, ps) {
            Some((Some(k), e)) => 0 <= k < ps.len() && fills(by_name, s, o, ps, k, e) && writes_into(
                s,
                o,
            ),
            Some((None, _)) => writes_into(s, o),
            None => !slot_fills::ends_scan(s, o) ==> clear_of(s, o),
        },
{
    if let Stmt::Assign { target: Target::Member { property, .. }, .. } = s {
        lemma_position(ps, property, 0);
    }
}

/// From a later start, a write that can go can go from an earlier one.
proof fn lemma_earlier(
    by_name: bool,
    t: Seq<Stmt>,
    o: Ref,
    ps: Seq<Prop>,
    qs: Seq<Prop>,
    j: int,
    d: Seq<Ref>,
    m: int,
    k: int,
    e: Expr,
)
    requires
        0 <= j < t.len(),
        can_go(by_name, t, o, qs, j + 1, slot_fills::noted(d, t[j]), m, k, e),
        writes_into(t[j], o) || clear_of(t[j], o),
        ps.len() == qs.len(),
        forall|i: int| 0 <= i < ps.len() ==> (#[trigger] qs[i]).key == ps[i].key,
        forall|i: int| 0 <= i < ps.len() && open_slot((#[trigger] qs[i]).value) ==> open_slot(ps[i].value),
    ensures
        can_go(by_name, t, o, ps, j, d, m, k, e),
{
    let d1 = slot_fills::noted(d, t[j]);
    lemma_same_keys(by_name, t[m], o, ps, qs, k, e);
    assert(open_slot(qs[k].value));
    assert forall|x: Ref| d.contains(x) implies !#[trigger] refs::reads(e, seq![x]) by {
        let i = choose|i: int| 0 <= i < d.len() && d[i] == x;
        assert(d1[i] == x);
    }
    if let Some(x) = refs::defined(t[j]) {
        assert(d1[d.len() as int] == x);
        assert(!refs::reads(e, seq![x]));
    }
    assert forall|i: int| j <= i < m implies !depends(e, #[trigger] t[i]) by {
        if i == j {
        }
    }
}

/// Folding the writes after a literal into it gives each slot the last value written to it.
#[verifier::rlimit(60)]
pub proof fn lemma_slots_hold_what_is_written(
    by_name: bool,
    t: Seq<Stmt>,
    o: Ref,
    ps: Seq<Prop>,
    c: Seq<bool>,
    j: int,
    d: Seq<Ref>,
)
    requires
        0 <= j <= t.len(),
        c.len() == t.len(),
    ensures
        well_filled(
            by_name,
            t,
            o,
            ps,
            c,
            j,
            d,
            slot_fills::scanned(by_name, t, o, ps, c, j, d).0,
            slot_fills::scanned(by_name, t, o, ps, c, j, d).1,
        ),
    decreases t.len() - j,
{
    let out = slot_fills::scanned(by_name, t, o, ps, c, j, d);
    let qs = out.0;
    let f = out.1;
    if j < t.len() {
        lemma_fill(by_name, t[j], o, ps);
        match slot_fills::fill(by_name, t[j], o, ps) {
            Some((Some(k), e)) if !refs::reads(e, d) && slot_fills::placeholder(ps[k].value) => {
                let ps1 = ps.update(k, Prop { key: ps[k].key, value: e });
                let c1 = c.update(j, true);
                let d1 = slot_fills::noted(d, t[j]);
                lemma_slots_hold_what_is_written(by_name, t, o, ps1, c1, j + 1, d1);
                assert forall|i: int| 0 <= i < ps.len() implies (#[trigger] qs[i]).key == ps[i].key by {
                    assert(qs[i].key == ps1[i].key);
                }
                assert(forall|i: int| 0 <= i < ps.len() ==> (#[trigger] ps1[i]).key == ps[i].key);
                assert forall|x: Ref| d.contains(x) implies !#[trigger] refs::reads(e, seq![x]) by {
                    lemma_any_ref(crate::ir::visit::expr_visits(e), d, x);
                }
                assert(can_go(by_name, t, o, ps, j, d, j, k, e));
                assert(f[j]) by {
                    assert(c1[j]);
                }
                assert forall|l: int, i: int| j < l < t.len() implies #[trigger] gone(by_name, t, o, ps, c, f, l, i)
                    == gone(by_name, t, o, ps1, c1, f, l, i) by {
                    assert(writes_slot(by_name, t[l], o, ps, i) == writes_slot(by_name, t[l], o, ps1, i)) by {
                        assert forall|g: Expr| fills(by_name, t[l], o, ps, i, g) == #[trigger] fills(by_name, t[l], o, ps1, i, g) by {
                            lemma_same_keys(by_name, t[l], o, ps, ps1, i, g);
                        }
                        if writes_slot(by_name, t[l], o, ps, i) {
                            let g = choose|g: Expr| #[trigger] fills(by_name, t[l], o, ps, i, g);
                            assert(fills(by_name, t[l], o, ps1, i, g));
                        }
                    }
                }
                assert forall|i: int| 0 <= i < ps.len() implies settled(by_name, t, o, ps, c, f, j, d, i, #[trigger] qs[i].value) by {
                    let w = qs[i].value;
                    if exists|m: int| #[trigger] last_write(by_name, t, o, ps1, c1, f, j + 1, d1, m, i, w) {
                        let m = choose|m: int| #[trigger] last_write(by_name, t, o, ps1, c1, f, j + 1, d1, m, i, w);
                        lemma_earlier(by_name, t, o, ps, ps1, j, d, m, i, w);
                        assert(last_write(by_name, t, o, ps, c, f, j, d, m, i, w));
                    } else {
                        assert(w == ps1[i].value);
                        if i == k {
                            assert(last_write(by_name, t, o, ps, c, f, j, d, j, k, e));
                        } else {
                            assert forall|l: int| j <= l < t.len() implies !#[trigger] gone(by_name, t, o, ps, c, f, l, i) by {
                                if l == j && writes_slot(by_name, t[j], o, ps, i) {
                                    let g = choose|g: Expr| #[trigger] fills(by_name, t[j], o, ps, i, g);
                                    lemma_one_slot(by_name, t[j], o, ps, k, i, e, g);
                                }
                            }
                        }
                    }
                }
                assert forall|m: int| 0 <= m < c.len() implies (#[trigger] f[m]) == c[m] || (f[m]
                    && exists|k: int, e: Expr| #[trigger] can_go(by_name, t, o, ps, j, d, m, k, e)) by {
                    if m != j && f[m] != c[m] {
                        assert(f[m] != c1[m]);
                        let (i, g) = choose|i: int, g: Expr| #[trigger] can_go(by_name, t, o, ps1, j + 1, d1, m, i, g);
                        lemma_earlier(by_name, t, o, ps, ps1, j, d, m, i, g);
                    }
                }
            },
            Some((k, e)) => {
                if refs::reads(e, d) {
                    assert(slot_fills::noted(d, t[j]) == d);
                    lemma_slots_hold_what_is_written(by_name, t, o, ps, c, j + 1, d);
                    lemma_skipped(by_name, t, o, ps, c, j, d, qs, f);
                } else {
                    lemma_untouched(by_name, t, o, ps, c, j, d);
                }
            },
            None => {
                if slot_fills::ends_scan(t[j], o) {
                    lemma_untouched(by_name, t, o, ps, c, j, d);
                } else {
                    lemma_slots_hold_what_is_written(by_name, t, o, ps, c, j + 1, slot_fills::noted(d, t[j]));
                    lemma_skipped(by_name, t, o, ps, c, j, d, qs, f);
                }
            },
        }
    } else {
        lemma_untouched(by_name, t, o, ps, c, j, d);
    }
}

proof fn lemma_untouched(
    by_name: bool,
    t: Seq<Stmt>,
    o: Ref,
    ps: Seq<Prop>,
    c: Seq<bool>,
    j: int,
    d: Seq<Ref>,
)
    requires
        0 <= j <= t.len(),
    ensures
        well_filled(by_name, t, o, ps, c, j, d, ps, c),
{
    assert forall|i: int| 0 <= i < ps.len() implies settled(by_name, t, o, ps, c, c, j, d, i, #[trigger] ps[i].value) by {
    }
}

/// A step that folds nothing.
proof fn lemma_skipped(
    by_name: bool,
    t: Seq<Stmt>,
    o: Ref,
    ps: Seq<Prop>,
    c: Seq<bool>,
    j: int,
    d: Seq<Ref>,
    qs: Seq<Prop>,
    f: Seq<bool>,
)
    requires
        0 <= j < t.len(),
        c.len() == t.len(),
        well_filled(by_name, t, o, ps, c, j + 1, slot_fills::noted(d, t[j]), qs, f),
        writes_into(t[j], o) || clear_of(t[j], o),
    ensures
        well_filled(by_name, t, o, ps, c, j, d, qs, f),
{
    let d1 = slot_fills::noted(d, t[j]);
    assert(f[j] == c[j]) by {
        if f[j] != c[j] {
            let (i, g) = choose|i: int, g: Expr| #[trigger] can_go(by_name, t, o, ps, j + 1, d1, j, i, g);
            assert(false);
        }
    }
    assert forall|i: int| 0 <= i < ps.len() implies settled(by_name, t, o, ps, c, f, j, d, i, #[trigger] qs[i].value) by {
        let w = qs[i].value;
        assert(settled(by_name, t, o, ps, c, f, j + 1, d1, i, qs[i].value));
        if exists|m: int| #[trigger] last_write(by_name, t, o, ps, c, f, j + 1, d1, m, i, w) {
            let m = choose|m: int| #[trigger] last_write(by_name, t, o, ps, c, f, j + 1, d1, m, i, w);
            lemma_earlier(by_name, t, o, ps, ps, j, d, m, i, w);
            assert(last_write(by_name, t, o, ps, c, f, j, d, m, i, w));
        } else {
            assert forall|l: int| j <= l < t.len() implies !#[trigger] gone(by_name, t, o, ps, c, f, l, i) by {
                if l == j {
                }
            }
        }
    }
    assert forall|m: int| 0 <= m < c.len() implies (#[trigger] f[m]) == c[m] || (f[m] && exists|k: int, e: Expr| #[trigger]
        can_go(by_name, t, o, ps, j, d, m, k, e)) by {
        if f[m] != c[m] {
            let (i, g) = choose|i: int, g: Expr| #[trigger] can_go(by_name, t, o, ps, j + 1, d1, m, i, g);
            lemma_earlier(by_name, t, o, ps, ps, j, d, m, i, g);
        }
    }
}

/// Whether a statement stores a literal that may stand where its register is read: the function gives
/// the register no other value and reads it at one place.
pub open spec fn stores_literal(all: Seq<Stmt>, s: Stmt, r: u32, e: Expr) -> bool {
    &&& s == (Stmt::Assign { target: Target::Register(r), value: e })
    &&& e is Object || e is Array
    &&& inline_literals::definitions(nested::flat(all), r) == 1
    &&& inline_literals::times(inline_literals::all_visits(nested::flat(all)), r) == 1
    &&& inline_literals::pure(e)
}

/// A literal that is put elsewhere is one that a statement of the list stores, for the register that
/// it takes the place of.
pub proof fn lemma_moved_literal_is_stored(all: Seq<Stmt>, part: Seq<Stmt>, r: u32) -> (i: int)
    requires
        inline_literals::inline_map(all, part).dom().contains(r),
    ensures
        0 <= i < part.len(),
        stores_literal(all, part[i], r, inline_literals::inline_map(all, part)[r]),
    decreases part.len(),
{
    if part.len() == 0 {
        0
    } else {
        match inline_literals::inlinable(all, part.last()) {
            Some(x) => if x.0 == r {
                part.len() - 1
            } else {
                lemma_moved_literal_is_stored(all, part.drop_last(), r)
            },
            None => lemma_moved_literal_is_stored(all, part.drop_last(), r),
        }
    }
}

/// Every literal that may be put elsewhere is.
pub proof fn lemma_single_literals_are_moved(
    all: Seq<Stmt>,
    part: Seq<Stmt>,
    i: int,
    r: u32,
    e: Expr,
)
    requires
        0 <= i < part.len(),
        stores_literal(all, part[i], r, e),
    ensures
        inline_literals::inline_map(all, part).dom().contains(r),
    decreases part.len(),
{
    if i < part.len() - 1 {
        assert(part.drop_last()[i] == part[i]);
        lemma_single_literals_are_moved(all, part.drop_last(), i, r, e);
    }
}

/// Only the statements that store a literal that was put elsewhere go.
pub proof fn lemma_only_moved_literals_go(m: Map<u32, Expr>, s: Seq<Stmt>)
    ensures
        inline_literals::remaining(m, s) == s.filter(
            |x: Stmt|
                match x {
                    Stmt::Assign { target: Target::Register(r), .. } => !m.dom().contains(r),
                    _ => true,
                },
        ),
    decreases s.len(),
{
    reveal(Seq::filter);
    if s.len() > 0 {
        lemma_only_moved_literals_go(m, s.drop_last());
    }
}

} // verus!
