//! What holds of propagating copies twice.

use super::reaching;
use super::reaching::DefSite;
use super::reaching_passes;
use super::substitute;
use crate::ir::cfg;
use crate::ir::cfg::{BlockId, Node, Term, CFG};
use crate::ir::model::{Expr, Key, Prop, Stmt, Target, Val};
use vstd::prelude::*;

verus! {

/// Whether every register that an expression reads, where registers are replaced, is in a set.
pub open spec fn within(e: Expr, s: Set<u32>) -> bool
    decreases e,
{
    match e {
        Expr::Value(Val::Register(r)) => s.contains(r),
        Expr::Binary { left, right, .. } => within(*left, s) && within(*right, s),
        Expr::Unary { operand, .. } => within(*operand, s),
        Expr::Call { callee, arguments } => within(*callee, s) && all_within(arguments, s),
        Expr::New { callee, arguments } => within(*callee, s) && all_within(arguments, s),
        Expr::Member { object, property, .. } => within(*object, s) && key_within(property, s),
        Expr::Array { elements } => forall|i: int|
            0 <= i < elements.len() ==> element_within(#[trigger] elements[i], s),
        Expr::Object { properties } => forall|i: int|
            0 <= i < properties.len() ==> prop_within(#[trigger] properties[i], s),
        Expr::Conditional { condition, then_expr, else_expr } => within(*condition, s) && within(
            *then_expr,
            s,
        ) && within(*else_expr, s),
        Expr::Assignment { target, value } => within(*target, s) && within(*value, s),
        Expr::Spread(x) => within(*x, s),
        _ => true,
    }
}

pub open spec fn key_within(k: Key, s: Set<u32>) -> bool
    decreases k,
{
    match k {
        Key::Computed(e) => within(*e, s),
        _ => true,
    }
}

pub open spec fn element_within(o: Option<Expr>, s: Set<u32>) -> bool
    decreases o,
{
    match o {
        Some(e) => within(e, s),
        None => true,
    }
}

pub open spec fn prop_within(p: Prop, s: Set<u32>) -> bool
    decreases p,
{
    key_within(p.key, s) && within(p.value, s)
}

pub open spec fn all_within(v: Seq<Expr>, s: Set<u32>) -> bool
    decreases v,
{
    forall|i: int| 0 <= i < v.len() ==> within(#[trigger] v[i], s)
}

/// Whether every register that a plain statement reads is in a set.
pub open spec fn stmt_within(t: Stmt, s: Set<u32>) -> bool {
    match t {
        Stmt::Expr(e) => within(e, s),
        Stmt::Let { value, .. } => within(value, s),
        Stmt::Assign { target, value } => within(value, s) && match target {
            Target::Index { object, key } => within(object, s) && within(key, s),
            Target::Member { object, .. } => within(object, s),
            _ => true,
        },
        Stmt::Return(Some(e)) => within(e, s),
        Stmt::Throw(e) => within(e, s),
        _ => true,
    }
}

/// Whether every register that a terminator reads is in a set.
pub open spec fn term_within(t: Term, s: Set<u32>) -> bool {
    match t {
        Term::Branch { condition, .. } => within(condition, s),
        Term::Return(Some(e)) => within(e, s),
        Term::Throw(e) => within(e, s),
        Term::Switch { value, cases, .. } => within(value, s) && forall|i: int|
            0 <= i < cases.len() ==> within((#[trigger] cases[i]).0, s),
        _ => true,
    }
}

/// Whether what one map gives for the registers of a set, or leaves of them, another leaves alone.
spec fn settles(m: Map<u32, Expr>, n: Map<u32, Expr>, s: Set<u32>) -> bool {
    forall|r: u32| #[trigger]
        s.contains(r) ==> if m.dom().contains(r) {
            m[r] matches Expr::Value(Val::Register(c)) && !n.dom().contains(c)
        } else {
            !n.dom().contains(r)
        }
}

proof fn lemma_expr_twice(e: Expr, m: Map<u32, Expr>, n: Map<u32, Expr>, s: Set<u32>)
    requires
        settles(m, n, s),
        within(e, s),
    ensures
        substitute::subst_expr(substitute::subst_expr(e, m), n) == substitute::subst_expr(e, m),
    decreases e,
{
    match e {
        Expr::Value(Val::Register(r)) => {
            assert(s.contains(r));
        },
        Expr::Binary { left, right, .. } => {
            lemma_expr_twice(*left, m, n, s);
            lemma_expr_twice(*right, m, n, s);
        },
        Expr::Unary { operand, .. } => lemma_expr_twice(*operand, m, n, s),
        Expr::Call { callee, arguments } => {
            lemma_expr_twice(*callee, m, n, s);
            lemma_exprs_twice(arguments, m, n, s);
        },
        Expr::New { callee, arguments } => {
            lemma_expr_twice(*callee, m, n, s);
            lemma_exprs_twice(arguments, m, n, s);
        },
        Expr::Member { object, property, .. } => {
            lemma_expr_twice(*object, m, n, s);
            lemma_key_twice(property, m, n, s);
        },
        Expr::Array { elements } => {
            let t = substitute::subst_elements(elements, m);
            assert forall|i: int| 0 <= i < elements.len() implies substitute::subst_elements(
                t,
                n,
            )[i] == t[i] by {
                assert(element_within(elements[i], s));
                if let Some(x) = elements[i] {
                    lemma_expr_twice(x, m, n, s);
                }
            }
            assert(substitute::subst_elements(t, n) =~= t);
        },
        Expr::Object { properties } => {
            let t = substitute::subst_props(properties, m);
            assert forall|i: int| 0 <= i < properties.len() implies substitute::subst_props(
                t,
                n,
            )[i] == t[i] by {
                assert(prop_within(properties[i], s));
                lemma_key_twice(properties[i].key, m, n, s);
                lemma_expr_twice(properties[i].value, m, n, s);
            }
            assert(substitute::subst_props(t, n) =~= t);
        },
        Expr::Conditional { condition, then_expr, else_expr } => {
            lemma_expr_twice(*condition, m, n, s);
            lemma_expr_twice(*then_expr, m, n, s);
            lemma_expr_twice(*else_expr, m, n, s);
        },
        Expr::Assignment { target, value } => {
            lemma_expr_twice(*target, m, n, s);
            lemma_expr_twice(*value, m, n, s);
        },
        Expr::Spread(x) => lemma_expr_twice(*x, m, n, s),
        _ => {},
    }
}

proof fn lemma_exprs_twice(v: Seq<Expr>, m: Map<u32, Expr>, n: Map<u32, Expr>, s: Set<u32>)
    requires
        settles(m, n, s),
        all_within(v, s),
    ensures
        substitute::subst_exprs(substitute::subst_exprs(v, m), n) == substitute::subst_exprs(v, m),
    decreases v,
{
    let t = substitute::subst_exprs(v, m);
    assert forall|i: int| 0 <= i < v.len() implies substitute::subst_exprs(t, n)[i] == t[i] by {
        assert(within(v[i], s));
        lemma_expr_twice(v[i], m, n, s);
    }
    assert(substitute::subst_exprs(t, n) =~= t);
}

proof fn lemma_key_twice(k: Key, m: Map<u32, Expr>, n: Map<u32, Expr>, s: Set<u32>)
    requires
        settles(m, n, s),
        key_within(k, s),
    ensures
        substitute::subst_key(substitute::subst_key(k, m), n) == substitute::subst_key(k, m),
    decreases k,
{
    if let Key::Computed(e) = k {
        lemma_expr_twice(*e, m, n, s);
    }
}

proof fn lemma_stmt_twice(t: Stmt, m: Map<u32, Expr>, n: Map<u32, Expr>, s: Set<u32>)
    requires
        settles(m, n, s),
        stmt_within(t, s),
    ensures
        substitute::subst_stmt(substitute::subst_stmt(t, m), n) == substitute::subst_stmt(t, m),
{
    match t {
        Stmt::Expr(e) => lemma_expr_twice(e, m, n, s),
        Stmt::Let { value, .. } => lemma_expr_twice(value, m, n, s),
        Stmt::Assign { target, value } => {
            lemma_expr_twice(value, m, n, s);
            match target {
                Target::Index { object, key } => {
                    lemma_expr_twice(object, m, n, s);
                    lemma_expr_twice(key, m, n, s);
                },
                Target::Member { object, .. } => lemma_expr_twice(object, m, n, s),
                _ => {},
            }
        },
        Stmt::Return(Some(e)) => lemma_expr_twice(e, m, n, s),
        Stmt::Throw(e) => lemma_expr_twice(e, m, n, s),
        _ => {},
    }
}

proof fn lemma_term_twice(t: Term, m: Map<u32, Expr>, n: Map<u32, Expr>, s: Set<u32>)
    requires
        settles(m, n, s),
        term_within(t, s),
    ensures
        substitute::subst_term(substitute::subst_term(t, m), n) == substitute::subst_term(t, m),
{
    match t {
        Term::Branch { condition, .. } => lemma_expr_twice(condition, m, n, s),
        Term::Return(Some(e)) => lemma_expr_twice(e, m, n, s),
        Term::Throw(e) => lemma_expr_twice(e, m, n, s),
        Term::Switch { value, cases, .. } => {
            lemma_expr_twice(value, m, n, s);
            let u = substitute::subst_arms(cases, m);
            assert forall|i: int| 0 <= i < cases.len() implies substitute::subst_arms(u, n)[i]
                == u[i] by {
                assert(within(cases[i].0, s));
                lemma_expr_twice(cases[i].0, m, n, s);
            }
            assert(substitute::subst_arms(u, n) =~= u);
        },
        _ => {},
    }
}

/// Whether two statements assign the same register, or neither assigns one.
spec fn same_def(s: Stmt, t: Stmt) -> bool {
    match (super::assigned(s), super::assigned(t)) {
        (Some(a), Some(b)) => a.0 == b.0,
        (None, None) => true,
        _ => false,
    }
}

/// Whether two graphs assign the same registers in the same places and have the same edges.
spec fn same_shape(g: Seq<Node>, h: Seq<Node>) -> bool {
    &&& g.len() == h.len()
    &&& forall|b: int|
        0 <= b < g.len() ==> (#[trigger] g[b]).stmts.len() == h[b].stmts.len()
    &&& forall|b: int, i: int|
        0 <= b < g.len() && 0 <= i < g[b].stmts.len() ==> same_def(
            #[trigger] g[b].stmts[i],
            h[b].stmts[i],
        )
    &&& forall|b: int, x: int|
        0 <= b < g.len() ==> (#[trigger] cfg::leads_to(g[b].term, x) == cfg::leads_to(
            h[b].term,
            x,
        ))
}

proof fn lemma_shape_last_def(g: Seq<Node>, h: Seq<Node>, b: int, n: int, r: u32)
    requires
        same_shape(g, h),
        0 <= b < g.len(),
        n <= g[b].stmts.len(),
    ensures
        reaching::last_def(g[b].stmts, n, r) == reaching::last_def(h[b].stmts, n, r),
    decreases n,
{
    if n > 0 {
        lemma_shape_last_def(g, h, b, n - 1, r);
        assert(same_def(g[b].stmts[n - 1], h[b].stmts[n - 1]));
    }
}

proof fn lemma_shape_reaches_in(g: Seq<Node>, h: Seq<Node>, n: nat, b: int, d: DefSite)
    requires
        same_shape(g, h),
    ensures
        reaching::reaches_in(g, n, b, d) == reaching::reaches_in(h, n, b, d),
    decreases n,
{
    if n > 0 {
        let m = (n - 1) as nat;
        assert forall|p: int| 0 <= p < g.len() implies reaching::leaves(
            g,
            p,
            d,
            reaching::reaches_in(g, m, p, d),
        ) == reaching::leaves(h, p, d, reaching::reaches_in(h, m, p, d)) && cfg::leads_to(
            #[trigger] g[p].term,
            b,
        ) == cfg::leads_to(h[p].term, b) by {
            lemma_shape_reaches_in(g, h, m, p, d);
            lemma_shape_last_def(g, h, p, g[p].stmts.len() as int, d.register);
        }
        if reaching::reaches_in(g, n, b, d) {
            let p = choose|p: int|
                0 <= p < g.len() && cfg::leads_to(#[trigger] g[p].term, b) && reaching::leaves(
                    g,
                    p,
                    d,
                    reaching::reaches_in(g, m, p, d),
                );
            assert(cfg::leads_to(h[p].term, b));
        }
        if reaching::reaches_in(h, n, b, d) {
            let p = choose|p: int|
                0 <= p < h.len() && cfg::leads_to(#[trigger] h[p].term, b) && reaching::leaves(
                    h,
                    p,
                    d,
                    reaching::reaches_in(h, m, p, d),
                );
            assert(cfg::leads_to(g[p].term, b));
        }
    }
}

proof fn lemma_shape_current(g: Seq<Node>, h: Seq<Node>, b: int, i: int, r: u32)
    requires
        same_shape(g, h),
        0 <= b < g.len(),
        i <= g[b].stmts.len(),
    ensures
        reaching::current(g, b, i, r) == reaching::current(h, b, i, r),
{
    lemma_shape_last_def(g, h, b, i, r);
    if reaching::last_def(g[b].stmts, i, r) is None {
        let s = reaching::current(g, b, i, r);
        let t = reaching::current(h, b, i, r);
        assert forall|d: DefSite| s.contains(d) == t.contains(d) by {
            assert(reaching::is_def(g, d) == reaching::is_def(h, d)) by {
                if d.block.0 < g.len() && d.stmt_index < g[d.block.0 as int].stmts.len() {
                    assert(same_def(
                        g[d.block.0 as int].stmts[d.stmt_index as int],
                        h[d.block.0 as int].stmts[d.stmt_index as int],
                    ));
                }
            }
            if reaching::reaches(g, b, d) {
                let n = choose|n: nat| reaching::reaches_in(g, n, b, d);
                lemma_shape_reaches_in(g, h, n, b, d);
                assert(reaching::reaches_in(h, n, b, d));
            }
            if reaching::reaches(h, b, d) {
                let n = choose|n: nat| reaching::reaches_in(h, n, b, d);
                lemma_shape_reaches_in(g, h, n, b, d);
                assert(reaching::reaches_in(g, n, b, d));
            }
        }
        assert(s =~= t);
    }
}

proof fn lemma_same_block_defs(b: int, s: Seq<Stmt>, t: Seq<Stmt>)
    requires
        s.len() == t.len(),
        forall|i: int| 0 <= i < s.len() ==> same_def(#[trigger] s[i], t[i]),
    ensures
        reaching::block_defs(b, s) == reaching::block_defs(b, t),
    decreases s.len(),
{
    if s.len() > 0 {
        let s1 = s.drop_last();
        let t1 = t.drop_last();
        assert forall|i: int| 0 <= i < s1.len() implies same_def(#[trigger] s1[i], t1[i]) by {
            assert(same_def(s[i], t[i]));
        }
        lemma_same_block_defs(b, s1, t1);
        assert(same_def(s[s.len() - 1], t[t.len() - 1]));
    }
}

proof fn lemma_same_all_defs(g: Seq<Node>, h: Seq<Node>)
    requires
        same_shape(g, h),
    ensures
        reaching::all_defs(g) == reaching::all_defs(h),
    decreases g.len(),
{
    if g.len() > 0 {
        let g1 = g.drop_last();
        let h1 = h.drop_last();
        assert forall|b: int, i: int|
            0 <= b < g1.len() && 0 <= i < g1[b].stmts.len() implies same_def(
            #[trigger] g1[b].stmts[i],
            h1[b].stmts[i],
        ) by {
            assert(same_def(g[b].stmts[i], h[b].stmts[i]));
        }
        assert forall|b: int| 0 <= b < g1.len() implies (#[trigger] g1[b]).stmts.len()
            == h1[b].stmts.len() by {
            assert(g[b].stmts.len() == h[b].stmts.len());
        }
        assert forall|b: int, x: int| 0 <= b < g1.len() implies (#[trigger] cfg::leads_to(
            g1[b].term,
            x,
        ) == cfg::leads_to(h1[b].term, x)) by {
            assert(cfg::leads_to(g[b].term, x) == cfg::leads_to(h[b].term, x));
        }
        lemma_same_all_defs(g1, h1);
        let k = g.len() - 1;
        assert(g[k].stmts.len() == h[k].stmts.len());
        assert forall|i: int| 0 <= i < g[k].stmts.len() implies same_def(
            #[trigger] g[k].stmts[i],
            h[k].stmts[i],
        ) by {}
        lemma_same_block_defs(k, g[k].stmts, h[k].stmts);
    }
}

/// The values that registers assigned once have in a graph.
pub open spec fn soles(g: Seq<Node>) -> Map<u32, Option<Expr>> {
    super::sole_values(super::all_stmts(g))
}

pub open spec fn as_register(e: Expr) -> Option<u32> {
    match e {
        Expr::Value(Val::Register(r)) => Some(r),
        _ => None,
    }
}

/// The register at the end of the copies followed from `a` over at most `n` of them.
pub open spec fn copy_end(m: Map<u32, Option<Expr>>, a: u32, n: nat) -> Option<u32>
    decreases n,
{
    match reaching_passes::copy_source(m, a) {
        Some(src) => if n == 0 {
            None
        } else {
            copy_end(m, src, (n - 1) as nat)
        },
        None => Some(a),
    }
}

/// Whether a value and what became of it are copies with the same end, or neither is a copy.
spec fn same_copy(m: Map<u32, Option<Expr>>, n: nat, v: Expr, w: Expr) -> bool {
    match as_register(v) {
        Some(b) => copy_end(m, b, n) matches Some(c) && w == Expr::Value(Val::Register(c)),
        None => as_register(w) is None,
    }
}

spec fn related(m: Map<u32, Option<Expr>>, n: nat, s: Stmt, t: Stmt) -> bool {
    match (super::assigned(s), super::assigned(t)) {
        (Some(a), Some(b)) => a.0 == b.0 && same_copy(m, n, a.1, b.1),
        (None, None) => true,
        _ => false,
    }
}

proof fn lemma_soles(m: Map<u32, Option<Expr>>, n: nat, s: Seq<Stmt>, t: Seq<Stmt>)
    requires
        s.len() == t.len(),
        forall|i: int| 0 <= i < s.len() ==> related(m, n, #[trigger] s[i], t[i]),
    ensures
        super::sole_values(s).dom() == super::sole_values(t).dom(),
        forall|a: u32| #[trigger]
            super::sole_values(s).dom().contains(a) ==> match (
                super::sole_values(s)[a],
                super::sole_values(t)[a],
            ) {
                (Some(v), Some(w)) => same_copy(m, n, v, w),
                (None, None) => true,
                _ => false,
            },
    decreases s.len(),
{
    if s.len() > 0 {
        let s1 = s.drop_last();
        let t1 = t.drop_last();
        assert forall|i: int| 0 <= i < s1.len() implies related(m, n, #[trigger] s1[i], t1[i]) by {
            assert(related(m, n, s[i], t[i]));
        }
        lemma_soles(m, n, s1, t1);
        assert(related(m, n, s[s.len() - 1], t[t.len() - 1]));
    }
    assert(super::sole_values(s).dom() =~= super::sole_values(t).dom());
}

proof fn lemma_all_related(m: Map<u32, Option<Expr>>, n: nat, g: Seq<Node>, h: Seq<Node>)
    requires
        g.len() == h.len(),
        forall|b: int| 0 <= b < g.len() ==> (#[trigger] g[b]).stmts.len() == h[b].stmts.len(),
        forall|b: int, i: int|
            0 <= b < g.len() && 0 <= i < g[b].stmts.len() ==> related(
                m,
                n,
                #[trigger] g[b].stmts[i],
                h[b].stmts[i],
            ),
    ensures
        super::all_stmts(g).len() == super::all_stmts(h).len(),
        forall|i: int|
            0 <= i < super::all_stmts(g).len() ==> related(
                m,
                n,
                #[trigger] super::all_stmts(g)[i],
                super::all_stmts(h)[i],
            ),
    decreases g.len(),
{
    if g.len() > 0 {
        let g1 = g.drop_last();
        let h1 = h.drop_last();
        assert forall|b: int, i: int|
            0 <= b < g1.len() && 0 <= i < g1[b].stmts.len() implies related(
            m,
            n,
            #[trigger] g1[b].stmts[i],
            h1[b].stmts[i],
        ) by {
            assert(related(m, n, g[b].stmts[i], h[b].stmts[i]));
        }
        assert forall|b: int| 0 <= b < g1.len() implies (#[trigger] g1[b]).stmts.len()
            == h1[b].stmts.len() by {
            assert(g[b].stmts.len() == h[b].stmts.len());
        }
        lemma_all_related(m, n, g1, h1);
        let k = g.len() - 1;
        assert(g[k].stmts.len() == h[k].stmts.len());
        let before = super::all_stmts(g1);
        assert forall|i: int| 0 <= i < super::all_stmts(g).len() implies related(
            m,
            n,
            #[trigger] super::all_stmts(g)[i],
            super::all_stmts(h)[i],
        ) by {
            if i < before.len() {
                assert(related(m, n, super::all_stmts(g1)[i], super::all_stmts(h1)[i]));
            } else {
                assert(related(m, n, g[k].stmts[i - before.len()], h[k].stmts[i - before.len()]));
            }
        }
    }
}


/// The registers that a point can read: those never assigned, and those whose assignment reaches
/// it.
pub open spec fn available(g: Seq<Node>, b: int, i: int) -> Set<u32> {
    Set::new(
        |r: u32|
            reaching_passes::site_of(reaching::all_defs(g), r) matches Some(d)
                ==> reaching::current(g, b, i, r).contains(d),
    )
}

/// Whether no register is assigned in two places.
pub open spec fn assigned_once(g: Seq<Node>) -> bool {
    forall|d: DefSite, f: DefSite| #[trigger]
        reaching::is_def(g, d) && #[trigger] reaching::is_def(g, f) && d.register == f.register
            ==> d == f
}

/// Whether a graph is in single-assignment form: no register is assigned twice, an assigned
/// register is read only where its assignment reaches, and no register is a copy of itself
/// through others.
pub open spec fn single_assignment(g: Seq<Node>) -> bool {
    &&& assigned_once(g)
    &&& forall|b: int, i: int|
        0 <= b < g.len() && 0 <= i < g[b].stmts.len() ==> stmt_within(
            #[trigger] g[b].stmts[i],
            available(g, b, i),
        )
    &&& forall|b: int|
        0 <= b < g.len() ==> term_within(
            (#[trigger] g[b]).term,
            available(g, b, g[b].stmts.len() as int),
        )
    &&& forall|a: u32| #[trigger] copy_end(soles(g), a, reaching::all_defs(g).len()) is Some
}

proof fn lemma_sole_stmt(s: Seq<Stmt>, a: u32) -> (k: int)
    requires
        super::sole_values(s).dom().contains(a),
        super::sole_values(s)[a] is Some,
    ensures
        0 <= k < s.len(),
        super::assigned(s[k]) == Some((a, super::sole_values(s)[a]->0)),
    decreases s.len(),
{
    let t = s.drop_last();
    if super::assigned(s.last()) matches Some(p) && p.0 == a {
        s.len() - 1
    } else {
        lemma_sole_stmt(t, a)
    }
}

proof fn lemma_place(g: Seq<Node>, k: int) -> (p: (int, int))
    requires
        0 <= k < super::all_stmts(g).len(),
    ensures
        0 <= p.0 < g.len(),
        0 <= p.1 < g[p.0].stmts.len(),
        g[p.0].stmts[p.1] == super::all_stmts(g)[k],
    decreases g.len(),
{
    let before = super::all_stmts(g.drop_last());
    if k < before.len() {
        lemma_place(g.drop_last(), k)
    } else {
        (g.len() - 1, k - before.len())
    }
}

proof fn lemma_site(s: Seq<DefSite>, a: u32)
    ensures
        reaching_passes::site_of(s, a) matches Some(d) ==> s.contains(d),
    decreases s.len(),
{
    if s.len() > 0 {
        lemma_site(s.drop_last(), a);
        if let Some(d) = reaching_passes::site_of(s.drop_last(), a) {
            let k = choose|k: int| 0 <= k < s.drop_last().len() && s.drop_last()[k] == d;
            assert(s[k] == d);
        } else {
            assert(s[s.len() - 1] == s.last());
        }
    }
}

proof fn lemma_site_found(s: Seq<DefSite>, d: DefSite)
    requires
        s.contains(d),
    ensures
        reaching_passes::site_of(s, d.register) matches Some(f) && f.register == d.register,
    decreases s.len(),
{
    let t = s.drop_last();
    let k = choose|k: int| 0 <= k < s.len() && s[k] == d;
    if k < t.len() {
        assert(t[k] == d);
        lemma_site_found(t, d);
    } else if let Some(f) = reaching_passes::site_of(t, d.register) {
        lemma_site_register(t, d.register);
    }
}

proof fn lemma_site_register(s: Seq<DefSite>, a: u32)
    ensures
        reaching_passes::site_of(s, a) matches Some(f) ==> f.register == a,
    decreases s.len(),
{
    if s.len() > 0 {
        lemma_site_register(s.drop_last(), a);
    }
}

/// The only assignment of a register is its site.
proof fn lemma_sole_site(cfg: &CFG, d: DefSite)
    requires
        assigned_once(cfg@),
        reaching::is_def(cfg@, d),
    ensures
        reaching_passes::site_of(reaching::all_defs(cfg@), d.register) == Some(d),
{
    let g = cfg@;
    let all = reaching::all_defs(g);
    reaching::lemma_graph_fits(cfg);
    reaching::lemma_all_defs(g);
    assert(all.contains(d));
    lemma_site_found(all, d);
    lemma_site(all, d.register);
    let f = reaching_passes::site_of(all, d.register)->0;
    assert(reaching::is_def(g, f));
}

/// Where a copy stands: its site, and the statement there.
proof fn lemma_copy_site(cfg: &CFG, a: u32)
    requires
        assigned_once(cfg@),
        soles(cfg@).dom().contains(a),
        soles(cfg@)[a] is Some,
    ensures
        reaching_passes::site_of(reaching::all_defs(cfg@), a) matches Some(d) && reaching::is_def(
            cfg@,
            d,
        ) && d.register == a && super::assigned(
            cfg@[d.block.0 as int].stmts[d.stmt_index as int],
        ) == Some((a, soles(cfg@)[a]->0)),
{
    let g = cfg@;
    let k = lemma_sole_stmt(super::all_stmts(g), a);
    let p = lemma_place(g, k);
    reaching::lemma_graph_fits(cfg);
    assert(g[p.0].stmts.len() <= usize::MAX);
    let d = DefSite { block: BlockId(p.0 as usize), stmt_index: p.1 as usize, register: a };
    assert(reaching::is_def(g, d));
    lemma_sole_site(cfg, d);
}

proof fn lemma_last_def_grows(s: Seq<Stmt>, i: int, j: int, r: u32)
    requires
        i <= j,
        reaching::last_def(s, i, r) is Some,
    ensures
        reaching::last_def(s, j, r) is Some,
    decreases j - i,
{
    if i < j {
        lemma_last_def_grows(s, i, j - 1, r);
    }
}

/// In a block that assigns a register, its site is there.
proof fn lemma_block_site(cfg: &CFG, b: int, i: int, r: u32)
    requires
        assigned_once(cfg@),
        0 <= b < cfg@.len(),
        0 <= i <= cfg@[b].stmts.len(),
        reaching::last_def(cfg@[b].stmts, i, r) is Some,
    ensures
        reaching_passes::site_of(reaching::all_defs(cfg@), r) == Some(
            DefSite {
                block: BlockId(b as usize),
                stmt_index: (reaching::last_def(cfg@[b].stmts, i, r)->0) as usize,
                register: r,
            },
        ),
        b <= usize::MAX,
        0 <= reaching::last_def(cfg@[b].stmts, i, r)->0 < i,
        cfg@[b].stmts.len() <= usize::MAX,
{
    let g = cfg@;
    let j = reaching::last_def(g[b].stmts, i, r)->0;
    reaching_passes::lemma_last_def(g[b].stmts, i, r);
    reaching::lemma_graph_fits(cfg);
    assert(g[b].stmts.len() <= usize::MAX);
    let d = DefSite { block: BlockId(b as usize), stmt_index: j as usize, register: r };
    assert(reaching::is_def(g, d));
    lemma_sole_site(cfg, d);
}

/// Where the assignment of `x` reaches a block, so does what reached that assignment.
proof fn lemma_reaches_on(cfg: &CFG, n: nat, b: int, dx: DefSite, dy: DefSite)
    requires
        assigned_once(cfg@),
        reaching::is_def(cfg@, dx),
        reaching::is_def(cfg@, dy),
        reaching::current(cfg@, dx.block.0 as int, dx.stmt_index as int, dy.register).contains(dy),
        reaching::reaches_in(cfg@, n, b, dx),
    ensures
        reaching::reaches(cfg@, b, dy),
    decreases n,
{
    let g = cfg@;
    let p = choose|p: int|
        0 <= p < g.len() && cfg::leads_to(#[trigger] g[p].term, b) && reaching::leaves(
            g,
            p,
            dx,
            reaching::reaches_in(g, (n - 1) as nat, p, dx),
        );
    let s = g[p].stmts;
    let len = s.len() as int;
    lemma_sole_site(cfg, dy);
    lemma_sole_site(cfg, dx);
    if reaching::last_def(s, len, dy.register) is Some {
        lemma_block_site(cfg, p, len, dy.register);
        assert(reaching::leaves(g, p, dy, reaching::reaches_in(g, 0, p, dy)));
        assert(reaching::reaches_in(g, 1, b, dy));
    } else {
        assert(reaching::reaches(g, p, dy)) by {
            if reaching::last_def(s, len, dx.register) is Some {
                lemma_block_site(cfg, p, len, dx.register);
                let j = dx.stmt_index as int;
                if reaching::last_def(s, j, dy.register) is Some {
                    lemma_last_def_grows(s, j, len, dy.register);
                }
            } else {
                lemma_reaches_on(cfg, (n - 1) as nat, p, dx, dy);
            }
        }
        let k = choose|k: nat| reaching::reaches_in(g, k, p, dy);
        assert(reaching::leaves(g, p, dy, reaching::reaches_in(g, k, p, dy)));
        assert(reaching::reaches_in(g, k + 1, b, dy));
    }
}

/// Where the assignment of `x` reaches a point, so does what reached that assignment.
proof fn lemma_current_on(cfg: &CFG, b: int, i: int, dx: DefSite, dy: DefSite)
    requires
        assigned_once(cfg@),
        0 <= b < cfg@.len(),
        0 <= i <= cfg@[b].stmts.len(),
        reaching::is_def(cfg@, dx),
        reaching::is_def(cfg@, dy),
        reaching::current(cfg@, dx.block.0 as int, dx.stmt_index as int, dy.register).contains(dy),
        reaching::current(cfg@, b, i, dx.register).contains(dx),
    ensures
        reaching::current(cfg@, b, i, dy.register).contains(dy),
{
    let g = cfg@;
    let s = g[b].stmts;
    lemma_sole_site(cfg, dy);
    lemma_sole_site(cfg, dx);
    if reaching::last_def(s, i, dy.register) is Some {
        lemma_block_site(cfg, b, i, dy.register);
    } else if reaching::last_def(s, i, dx.register) is Some {
        lemma_block_site(cfg, b, i, dx.register);
        let j = dx.stmt_index as int;
        if reaching::last_def(s, j, dy.register) is Some {
            lemma_last_def_grows(s, j, i, dy.register);
        }
    } else {
        let n = choose|n: nat| reaching::reaches_in(g, n, b, dx);
        lemma_reaches_on(cfg, n, b, dx, dy);
    }
}

/// The assignments of a register that reach a point that can read it.
spec fn only_site(g: Seq<Node>, r: u32) -> Set<DefSite> {
    match reaching_passes::site_of(reaching::all_defs(g), r) {
        Some(d) => set![d],
        None => Set::empty(),
    }
}

proof fn lemma_only_site(cfg: &CFG, b: int, i: int, r: u32)
    requires
        assigned_once(cfg@),
        0 <= b < cfg@.len(),
        0 <= i <= cfg@[b].stmts.len(),
        available(cfg@, b, i).contains(r),
    ensures
        reaching::current(cfg@, b, i, r) == only_site(cfg@, r),
{
    let g = cfg@;
    let c = reaching::current(g, b, i, r);
    reaching_passes::lemma_current_are_defs(cfg, b, i, r);
    assert forall|d: DefSite| c.contains(d) == only_site(g, r).contains(d) by {
        if c.contains(d) {
            lemma_sole_site(cfg, d);
        }
    }
    assert(c =~= only_site(g, r));
}

/// A copy that a point can read holds there, and the point can read what it copies.
proof fn lemma_copy_holds(cfg: &CFG, b: int, i: int, r: u32)
    requires
        single_assignment(cfg@),
        0 <= b < cfg@.len(),
        0 <= i <= cfg@[b].stmts.len(),
        available(cfg@, b, i).contains(r),
        reaching_passes::copy_source(soles(cfg@), r) is Some,
    ensures
        ({
            let src = reaching_passes::copy_source(soles(cfg@), r)->0;
            &&& available(cfg@, b, i).contains(src)
            &&& reaching_passes::held_source(cfg@, b, i, r) == Some(src)
        }),
{
    let g = cfg@;
    let src = reaching_passes::copy_source(soles(g), r)->0;
    lemma_copy_site(cfg, r);
    let d = reaching_passes::site_of(reaching::all_defs(g), r)->0;
    let x = d.block.0 as int;
    let y = d.stmt_index as int;
    assert(stmt_within(g[x].stmts[y], available(g, x, y)));
    assert(available(g, x, y).contains(src));
    if let Some(f) = reaching_passes::site_of(reaching::all_defs(g), src) {
        reaching::lemma_graph_fits(cfg);
        reaching::lemma_all_defs(g);
        lemma_site(reaching::all_defs(g), src);
        lemma_site_register(reaching::all_defs(g), src);
        assert(reaching::is_def(g, f));
        lemma_current_on(cfg, b, i, d, f);
    }
    lemma_only_site(cfg, x, y, src);
    lemma_only_site(cfg, b, i, src);
}

/// At a point that can read a register, its copies are followed to their end.
proof fn lemma_chain(cfg: &CFG, b: int, i: int, r: u32, n: nat)
    requires
        single_assignment(cfg@),
        0 <= b < cfg@.len(),
        0 <= i <= cfg@[b].stmts.len(),
        available(cfg@, b, i).contains(r),
    ensures
        reaching_passes::chain_end(cfg@, b, i, r, n) == copy_end(soles(cfg@), r, n),
        copy_end(soles(cfg@), r, n) matches Some(c) ==> available(cfg@, b, i).contains(c),
    decreases n,
{
    if reaching_passes::copy_source(soles(cfg@), r) is Some {
        lemma_copy_holds(cfg, b, i, r);
        if n > 0 {
            lemma_chain(
                cfg,
                b,
                i,
                reaching_passes::copy_source(soles(cfg@), r)->0,
                (n - 1) as nat,
            );
        }
    }
}

proof fn lemma_end_is_no_copy(m: Map<u32, Option<Expr>>, a: u32, n: nat)
    ensures
        copy_end(m, a, n) matches Some(c) ==> reaching_passes::copy_source(m, c) is None,
    decreases n,
{
    if let Some(src) = reaching_passes::copy_source(m, a) {
        if n > 0 {
            lemma_end_is_no_copy(m, src, (n - 1) as nat);
        }
    }
}

/// An end that was found is found with more steps too.
proof fn lemma_end_is_stable(m: Map<u32, Option<Expr>>, a: u32, n: nat, k: nat)
    requires
        copy_end(m, a, n) is Some,
        n <= k,
    ensures
        copy_end(m, a, k) == copy_end(m, a, n),
    decreases n,
{
    if let Some(src) = reaching_passes::copy_source(m, a) {
        lemma_end_is_stable(m, src, (n - 1) as nat, (k - 1) as nat);
    }
}

/// The last copy before the end.
proof fn lemma_last_copy(m: Map<u32, Option<Expr>>, a: u32, n: nat) -> (x: u32)
    requires
        reaching_passes::copy_source(m, a) is Some,
        copy_end(m, a, n) is Some,
    ensures
        reaching_passes::copy_source(m, x) == copy_end(m, a, n),
    decreases n,
{
    reveal_with_fuel(copy_end, 2);
    let src = reaching_passes::copy_source(m, a)->0;
    if reaching_passes::copy_source(m, src) is Some {
        lemma_last_copy(m, src, (n - 1) as nat)
    } else {
        a
    }
}

/// What a point reads becomes the end of its copies.
proof fn lemma_becomes_end(cfg: &CFG, b: int, i: int, r: u32)
    requires
        single_assignment(cfg@),
        0 <= b < cfg@.len(),
        0 <= i <= cfg@[b].stmts.len(),
        available(cfg@, b, i).contains(r),
    ensures
        ({
            let m = reaching_passes::copies_at(cfg@, b, i);
            let c = copy_end(soles(cfg@), r, reaching::all_defs(cfg@).len());
            &&& c is Some
            &&& m.dom().contains(r) <==> reaching_passes::copy_source(soles(cfg@), r) is Some
            &&& m.dom().contains(r) ==> m[r] == Expr::Value(Val::Register(c->0))
            &&& !m.dom().contains(r) ==> c == Some(r)
        }),
{
    let n = reaching::all_defs(cfg@).len();
    assert(copy_end(soles(cfg@), r, n) is Some);
    lemma_chain(cfg, b, i, r, n);
    if reaching_passes::copy_source(soles(cfg@), r) is Some {
        lemma_copy_holds(cfg, b, i, r);
    }
}

/// The graph after a pass assigns the same registers in the same places, and copies with the same
/// ends.
proof fn lemma_pass_keeps(cfg: &CFG)
    requires
        single_assignment(cfg@),
    ensures
        same_shape(cfg@, reaching_passes::with_copies(cfg@)),
        forall|b: int, i: int|
            0 <= b < cfg@.len() && 0 <= i < cfg@[b].stmts.len() ==> related(
                soles(cfg@),
                reaching::all_defs(cfg@).len(),
                #[trigger] cfg@[b].stmts[i],
                reaching_passes::with_copies(cfg@)[b].stmts[i],
            ),
{
    let g = cfg@;
    let n = reaching::all_defs(g).len();
    let h = reaching_passes::with_copies(g);
    assert forall|b: int, x: int| 0 <= b < g.len() implies (#[trigger] cfg::leads_to(
        g[b].term,
        x,
    ) == cfg::leads_to(h[b].term, x)) by {
        let m = reaching_passes::copies_at(g, b, g[b].stmts.len() as int);
        assert(h[b].term == reaching_passes::term_at(g[b].term, m));
        lemma_edges(g[b].term, m, x);
    }
    assert forall|b: int, i: int| 0 <= b < g.len() && 0 <= i < g[b].stmts.len() implies related(
        soles(g),
        n,
        #[trigger] g[b].stmts[i],
        h[b].stmts[i],
    ) by {
        let m = reaching_passes::copies_at(g, b, i);
        assert(h[b].stmts[i] == reaching_passes::stmt_at(g[b].stmts[i], m));
        assert(stmt_within(g[b].stmts[i], available(g, b, i)));
        if let Stmt::Assign { target: Target::Register(r), value } = g[b].stmts[i] {
            assert(h[b].stmts[i] is Assign);
            if let Expr::Value(Val::Register(v)) = value {
                lemma_becomes_end(cfg, b, i, v);
            }
        }
    }
    assert forall|b: int, i: int| 0 <= b < g.len() && 0 <= i < g[b].stmts.len() implies same_def(
        #[trigger] g[b].stmts[i],
        h[b].stmts[i],
    ) by {
        assert(related(soles(g), n, g[b].stmts[i], h[b].stmts[i]));
    }
}

proof fn lemma_edges(t: Term, m: Map<u32, Expr>, x: int)
    ensures
        cfg::leads_to(reaching_passes::term_at(t, m), x) == cfg::leads_to(t, x),
{
    if let Term::Switch { cases, .. } = t {
        let u = substitute::subst_arms(cases, m);
        let default = t->default;
        if cfg::leads_to(t, x) && default.0 != x {
            let i = choose|i: int| 0 <= i < cases.len() && (#[trigger] cases[i]).1.0 == x;
            assert(u[i].1 == cases[i].1);
        }
        if m.dom() != Set::<u32>::empty() && cfg::leads_to(substitute::subst_term(t, m), x)
            && default.0 != x {
            let i = choose|i: int| 0 <= i < u.len() && (#[trigger] u[i]).1.0 == x;
            assert(u[i].1 == cases[i].1);
        }
    }
}


/// After a pass, a copy copies the end of its copies, and what was no copy is none.
proof fn lemma_copies_after(cfg: &CFG, a: u32)
    requires
        single_assignment(cfg@),
    ensures
        reaching_passes::copy_source(soles(reaching_passes::with_copies(cfg@)), a) matches Some(c)
            ==> reaching_passes::copy_source(soles(cfg@), a) is Some && copy_end(
            soles(cfg@),
            a,
            reaching::all_defs(cfg@).len(),
        ) == Some(c),
{
    let g = cfg@;
    let n = reaching::all_defs(g).len();
    let h = reaching_passes::with_copies(g);
    lemma_pass_keeps(cfg);
    lemma_all_related(soles(g), n, g, h);
    lemma_soles(soles(g), n, super::all_stmts(g), super::all_stmts(h));
    assert(soles(g).dom().contains(a) == soles(h).dom().contains(a));
    if let Some(c) = reaching_passes::copy_source(soles(h), a) {
        let v = soles(g)[a]->0;
        let w = soles(h)[a]->0;
        assert(same_copy(soles(g), n, v, w));
        let b = as_register(v)->0;
        assert(copy_end(soles(g), b, n) == Some(c));
        if a != b {
            assert(reaching_passes::copy_source(soles(g), a) == Some(b));
            assert(copy_end(soles(g), a, n) is Some);
            lemma_end_is_stable(soles(g), b, (n - 1) as nat, n);
        } else {
            assert(reaching_passes::copy_source(soles(g), a) is None);
        }
    }
}

/// Where no copy holds, none holds after a pass.
proof fn lemma_none_after(cfg: &CFG, b: int, i: int)
    requires
        single_assignment(cfg@),
        0 <= b < cfg@.len(),
        0 <= i <= cfg@[b].stmts.len(),
        reaching_passes::copies_at(cfg@, b, i).dom() == Set::<u32>::empty(),
    ensures
        reaching_passes::copies_at(reaching_passes::with_copies(cfg@), b, i).dom() == Set::<
            u32,
        >::empty(),
{
    let g = cfg@;
    let h = reaching_passes::with_copies(g);
    let n = reaching::all_defs(g).len();
    let m = reaching_passes::copies_at(g, b, i);
    let k = reaching_passes::copies_at(h, b, i);
    lemma_pass_keeps(cfg);
    lemma_same_all_defs(g, h);
    assert forall|a: u32| !k.dom().contains(a) by {
        if k.dom().contains(a) {
            lemma_copies_after(cfg, a);
            let c = reaching_passes::copy_source(soles(h), a)->0;
            lemma_copy_site(cfg, a);
            let d = reaching_passes::site_of(reaching::all_defs(g), a)->0;
            let x = d.block.0 as int;
            let y = d.stmt_index as int;
            lemma_shape_current(g, h, b, i, c);
            lemma_shape_current(g, h, x, y, c);
            let src = reaching_passes::copy_source(soles(g), a)->0;
            assert(stmt_within(g[x].stmts[y], available(g, x, y)));
            assert(available(g, x, y).contains(src));
            lemma_chain(cfg, x, y, src, (n - 1) as nat);
            lemma_only_site(cfg, x, y, c);
            let z = lemma_last_copy(soles(g), a, n);
            lemma_copy_site(cfg, z);
            let e = reaching_passes::site_of(reaching::all_defs(g), z)->0;
            let u = e.block.0 as int;
            let v = e.stmt_index as int;
            assert(stmt_within(g[u].stmts[v], available(g, u, v)));
            assert(available(g, u, v).contains(c));
            lemma_only_site(cfg, u, v, c);
            assert(reaching_passes::copy_holds(g, z, c, b, i));
            lemma_end_is_no_copy(soles(g), a, n);
            assert(reaching_passes::held_source(g, b, i, c) is None);
            reaching::lemma_graph_fits(cfg);
            reaching::lemma_all_defs(g);
            assert(reaching::all_defs(g).contains(e));
            assert(n > 0);
            assert(reaching_passes::chain_end(g, b, i, c, (n - 1) as nat) == Some(c));
            assert(m.dom().contains(z));
        }
    }
    assert(k.dom() =~= Set::empty());
}

proof fn lemma_settles(cfg: &CFG, b: int, i: int)
    requires
        single_assignment(cfg@),
        0 <= b < cfg@.len(),
        0 <= i <= cfg@[b].stmts.len(),
    ensures
        settles(
            reaching_passes::copies_at(cfg@, b, i),
            reaching_passes::copies_at(reaching_passes::with_copies(cfg@), b, i),
            available(cfg@, b, i),
        ),
{
    let g = cfg@;
    let h = reaching_passes::with_copies(g);
    let m = reaching_passes::copies_at(g, b, i);
    let k = reaching_passes::copies_at(h, b, i);
    let s = available(g, b, i);
    assert forall|r: u32| #[trigger] s.contains(r) implies if m.dom().contains(r) {
        m[r] matches Expr::Value(Val::Register(c)) && !k.dom().contains(c)
    } else {
        !k.dom().contains(r)
    } by {
        lemma_becomes_end(cfg, b, i, r);
        let c = copy_end(soles(g), r, reaching::all_defs(g).len())->0;
        lemma_end_is_no_copy(soles(g), r, reaching::all_defs(g).len());
        lemma_copies_after(cfg, c);
        lemma_copies_after(cfg, r);
    }
}

/// Propagating copies twice is propagating them once, in a graph in single-assignment form.
pub proof fn lemma_copies_propagate_once(cfg: &CFG)
    requires
        single_assignment(cfg@),
    ensures
        reaching_passes::with_copies(reaching_passes::with_copies(cfg@))
            == reaching_passes::with_copies(cfg@),
{
    let g = cfg@;
    let h = reaching_passes::with_copies(g);
    assert forall|b: int| 0 <= b < g.len() implies reaching_passes::with_copies(h)[b] == h[b] by {
        let n = g[b].stmts.len() as int;
        assert(h[b].stmts.len() == n);
        let again = reaching_passes::with_copies(h)[b];
        assert forall|i: int| 0 <= i < n implies again.stmts[i] == h[b].stmts[i] by {
            let m = reaching_passes::copies_at(g, b, i);
            lemma_settles(cfg, b, i);
            assert(stmt_within(g[b].stmts[i], available(g, b, i)));
            if m.dom() == Set::<u32>::empty() {
                lemma_none_after(cfg, b, i);
            } else {
                lemma_stmt_twice(
                    g[b].stmts[i],
                    m,
                    reaching_passes::copies_at(h, b, i),
                    available(g, b, i),
                );
            }
        }
        assert(again.stmts =~= h[b].stmts);
        let m = reaching_passes::copies_at(g, b, n);
        lemma_settles(cfg, b, n);
        assert(term_within(g[b].term, available(g, b, n)));
        if m.dom() == Set::<u32>::empty() {
            lemma_none_after(cfg, b, n);
        } else {
            lemma_term_twice(
                g[b].term,
                m,
                reaching_passes::copies_at(h, b, n),
                available(g, b, n),
            );
        }
    }
    assert(reaching_passes::with_copies(h) =~= h);
}

} // verus!
