//! The assignments that reach a point are the last ones along the paths that lead there.

use super::reaching;
use super::reaching::DefSite;
use super::reaching_passes;
use crate::ir::cfg;
use crate::ir::cfg::Node;
use crate::ir::model::{Expr, Stmt, Target, Val};
use vstd::prelude::*;

verus! {

/// Whether a statement gives a register a value.
pub open spec fn sets(s: Stmt, r: u32) -> bool {
    match s {
        Stmt::Assign { target, .. } => target == Target::Register(r),
        _ => false,
    }
}

/// Whether some of the first `n` statements gives a register a value.
pub open spec fn set_before(s: Seq<Stmt>, n: int, r: u32) -> bool {
    exists|j: int| 0 <= j < n && sets(#[trigger] s[j], r)
}

/// Whether the statement at `j` is the last of the first `n` that gives a register a value.
pub open spec fn newest(s: Seq<Stmt>, n: int, r: u32, j: int) -> bool {
    0 <= j < n && sets(s[j], r) && forall|k: int| j < k < n ==> !sets(#[trigger] s[k], r)
}

/// Whether blocks are a path through a graph.
pub open spec fn is_path(g: Seq<Node>, p: Seq<int>) -> bool {
    &&& p.len() > 0
    &&& forall|k: int| 0 <= k < p.len() ==> 0 <= #[trigger] p[k] < g.len()
    &&& forall|k: int|
        0 <= k < p.len() - 1 ==> cfg::leads_to(g[#[trigger] p[k]].term, p[k + 1])
}

/// Whether an assignment is the last one of its register along a path, up to position `i` of the last
/// block.
pub open spec fn last_along(g: Seq<Node>, p: Seq<int>, i: int, d: DefSite) -> bool
    decreases p.len(),
{
    let s = g[p.last()].stmts;
    if set_before(s, i, d.register) {
        d.block.0 == p.last() && newest(s, i, d.register, d.stmt_index as int)
    } else {
        let q = p.drop_last();
        p.len() > 1 && last_along(g, q, g[q.last()].stmts.len() as int, d)
    }
}

proof fn lemma_last_def(s: Seq<Stmt>, n: int, r: u32)
    requires
        0 <= n <= s.len(),
    ensures
        match reaching::last_def(s, n, r) {
            Some(j) => newest(s, n, r, j),
            None => !set_before(s, n, r),
        },
    decreases n,
{
    if n > 0 {
        assert(reaching::assigns(s[n - 1], r) == sets(s[n - 1], r));
        lemma_last_def(s, n - 1, r);
        if !sets(s[n - 1], r) {
            match reaching::last_def(s, n - 1, r) {
                Some(j) => {
                    assert forall|k: int| j < k < n implies !sets(#[trigger] s[k], r) by {
                        if k == n - 1 {
                        }
                    }
                },
                None => {
                    if set_before(s, n, r) {
                        let j = choose|j: int| 0 <= j < n && sets(#[trigger] s[j], r);
                        assert(j < n - 1);
                        assert(set_before(s, n - 1, r));
                    }
                },
            }
        }
    }
}

proof fn lemma_newest_is_one(s: Seq<Stmt>, n: int, r: u32, i: int, j: int)
    requires
        newest(s, n, r, i),
        newest(s, n, r, j),
    ensures
        i == j,
{
    if i < j {
        assert(!sets(s[j], r));
    }
    if j < i {
        assert(!sets(s[i], r));
    }
}

proof fn lemma_shorter(g: Seq<Node>, p: Seq<int>)
    requires
        is_path(g, p),
        p.len() > 1,
    ensures
        is_path(g, p.drop_last()),
        cfg::leads_to(g[p.drop_last().last()].term, p.last()),
{
    let q = p.drop_last();
    assert(forall|k: int| 0 <= k < q.len() ==> q[k] == p[k]);
    assert forall|k: int| 0 <= k < q.len() - 1 implies cfg::leads_to(
        g[#[trigger] q[k]].term,
        q[k + 1],
    ) by {
        assert(cfg::leads_to(g[p[k]].term, p[k + 1]));
    }
    assert(cfg::leads_to(g[p[p.len() - 2]].term, p[p.len() - 2 + 1]));
}

proof fn lemma_leaves(g: Seq<Node>, p: Seq<int>, d: DefSite)
    requires
        is_path(g, p),
        last_along(g, p, g[p.last()].stmts.len() as int, d),
    ensures
        reaching::is_def(g, d),
        reaching::leaves(
            g,
            p.last(),
            d,
            reaching::reaches_in(g, (p.len() - 1) as nat, p.last(), d),
        ),
    decreases p.len(),
{
    let b = p.last();
    let s = g[b].stmts;
    let n = s.len() as int;
    assert(0 <= p[p.len() - 1] < g.len());
    lemma_last_def(s, n, d.register);
    if set_before(s, n, d.register) {
        let j = reaching::last_def(s, n, d.register)->Some_0;
        lemma_newest_is_one(s, n, d.register, j, d.stmt_index as int);
    } else {
        let q = p.drop_last();
        lemma_shorter(g, p);
        lemma_leaves(g, q, d);
        assert(0 <= q[q.len() - 1] < g.len());
        assert(cfg::leads_to(g[q.last()].term, b));
    }
}

/// The last assignment of a register along any path to a point reaches the point.
pub proof fn lemma_last_assignment_reaches(g: Seq<Node>, p: Seq<int>, i: int, d: DefSite)
    requires
        is_path(g, p),
        g.len() <= usize::MAX,
        0 <= i <= g[p.last()].stmts.len() <= usize::MAX,
        last_along(g, p, i, d),
    ensures
        reaching::current(g, p.last(), i, d.register).contains(d),
{
    let b = p.last();
    let s = g[b].stmts;
    assert(0 <= p[p.len() - 1] < g.len());
    lemma_last_def(s, i, d.register);
    if set_before(s, i, d.register) {
        let j = reaching::last_def(s, i, d.register)->Some_0;
        lemma_newest_is_one(s, i, d.register, j, d.stmt_index as int);
    } else {
        let q = p.drop_last();
        lemma_shorter(g, p);
        lemma_leaves(g, q, d);
        assert(0 <= q[q.len() - 1] < g.len());
        let n = q.len();
        assert(cfg::leads_to(g[q.last()].term, b));
        assert(reaching::reaches_in(g, n, b, d));
        assert(reaching::reaches(g, b, d));
    }
}

/// A path along which an assignment that leaves a block is the last one.
proof fn lemma_path_out(g: Seq<Node>, n: nat, b: int, d: DefSite) -> (p: Seq<int>)
    requires
        reaching::is_def(g, d),
        0 <= b < g.len(),
        reaching::leaves(g, b, d, reaching::reaches_in(g, n, b, d)),
    ensures
        is_path(g, p),
        p.last() == b,
        last_along(g, p, g[b].stmts.len() as int, d),
    decreases n,
{
    let s = g[b].stmts;
    let m = s.len() as int;
    lemma_last_def(s, m, d.register);
    if set_before(s, m, d.register) {
        seq![b]
    } else {
        lemma_extend(g, n, b, d, m)
    }
}

proof fn lemma_extend(g: Seq<Node>, n: nat, b: int, d: DefSite, i: int) -> (p: Seq<int>)
    requires
        reaching::is_def(g, d),
        0 <= b < g.len(),
        reaching::reaches_in(g, n, b, d),
        !set_before(g[b].stmts, i, d.register),
    ensures
        is_path(g, p),
        p.last() == b,
        last_along(g, p, i, d),
    decreases n, 0nat,
{
    let a = choose|a: int|
        0 <= a < g.len() && cfg::leads_to(#[trigger] g[a].term, b) && reaching::leaves(
            g,
            a,
            d,
            reaching::reaches_in(g, (n - 1) as nat, a, d),
        );
    let q = lemma_path_out(g, (n - 1) as nat, a, d);
    let p = q.push(b);
    assert(p.drop_last() =~= q);
    assert forall|k: int| 0 <= k < p.len() - 1 implies cfg::leads_to(
        g[#[trigger] p[k]].term,
        p[k + 1],
    ) by {
        assert(p[k] == q[k]);
        if k < q.len() - 1 {
            assert(cfg::leads_to(g[q[k]].term, q[k + 1]));
        }
    }
    p
}

/// An assignment that reaches a point is the last one of its register along some path to it.
pub proof fn lemma_reaching_assignment_is_the_last(g: Seq<Node>, b: int, i: int, d: DefSite) -> (p:
    Seq<int>)
    requires
        0 <= b < g.len() <= usize::MAX,
        0 <= i <= g[b].stmts.len() <= usize::MAX,
        reaching::current(g, b, i, d.register).contains(d),
    ensures
        is_path(g, p),
        p.last() == b,
        last_along(g, p, i, d),
{
    lemma_last_def(g[b].stmts, i, d.register);
    if set_before(g[b].stmts, i, d.register) {
        seq![b]
    } else {
        let n = choose|n: nat| reaching::reaches_in(g, n, b, d);
        lemma_extend(g, n, b, d, i)
    }
}

/// Where a register is read as the global object, the last assignment of it along every path gave it
/// the global object.
pub proof fn lemma_global_reads_are_right(g: Seq<Node>, p: Seq<int>, i: int, d: DefSite)
    requires
        is_path(g, p),
        g.len() <= usize::MAX,
        0 <= i <= g[p.last()].stmts.len() <= usize::MAX,
        reaching_passes::globals_at(g, p.last(), i).dom().contains(d.register),
        last_along(g, p, i, d),
    ensures
        g[d.block.0 as int].stmts[d.stmt_index as int] == (Stmt::Assign {
            target: Target::Register(d.register),
            value: Expr::Value(Val::Global),
        }),
{
    lemma_last_assignment_reaches(g, p, i, d);
    assert(reaching_passes::global_def(g, d));
}

/// A register whose last assignment along every path gives it the global object, and that has one
/// along some path, is read as the global object.
pub proof fn lemma_global_reads_are_found(g: Seq<Node>, b: int, i: int, r: u32, p: Seq<int>, d: DefSite)
    requires
        0 <= b < g.len() <= usize::MAX,
        0 <= i <= g[b].stmts.len() <= usize::MAX,
        is_path(g, p),
        p.last() == b,
        d.register == r,
        last_along(g, p, i, d),
        forall|q: Seq<int>, e: DefSite|
            is_path(g, q) && q.last() == b && e.register == r && #[trigger] last_along(g, q, i, e)
                ==> g[e.block.0 as int].stmts[e.stmt_index as int] == (Stmt::Assign {
                target: Target::Register(r),
                value: Expr::Value(Val::Global),
            }),
    ensures
        reaching_passes::globals_at(g, b, i).dom().contains(r),
        reaching_passes::globals_at(g, b, i)[r] == Expr::Value(Val::Global),
{
    lemma_last_assignment_reaches(g, p, i, d);
    let defs = reaching::current(g, b, i, r);
    assert forall|e: DefSite| #[trigger] defs.contains(e) implies reaching_passes::global_def(
        g,
        e,
    ) by {
        assert(e.register == r);
        let q = lemma_reaching_assignment_is_the_last(g, b, i, e);
        assert(last_along(g, q, i, e));
        lemma_is_def(g, q, i, e);
    }
}

proof fn lemma_is_def(g: Seq<Node>, p: Seq<int>, i: int, d: DefSite)
    requires
        is_path(g, p),
        0 <= i <= g[p.last()].stmts.len(),
        last_along(g, p, i, d),
    ensures
        reaching::is_def(g, d),
    decreases p.len(),
{
    assert(0 <= p[p.len() - 1] < g.len());
    if !set_before(g[p.last()].stmts, i, d.register) {
        lemma_shorter(g, p);
        lemma_leaves(g, p.drop_last(), d);
    }
}

} // verus!
