//! Propagation across blocks, by the assignments that reach each point.

use super::reaching;
use super::reaching::{find_last_def, DefSite, ReachingDefs};
use super::substitute;
use super::substitute::{substitute_stmt, substitute_terminator};
use super::{as_assigned, find_sole_values};
use crate::dict::keys_in_order;
use crate::ir::cfg::{BasicBlock, BlockId, Node, Term, CFG};
use crate::ir::model;
use crate::ir::model::{Expr, Stmt, Val};
use crate::ir::{Expression, Statement, Value};
use std::collections::BTreeMap;
use vstd::prelude::*;

verus! {

/// A statement with registers replaced, where there are any to replace.
pub open spec fn stmt_at(s: Stmt, m: Map<u32, Expr>) -> Stmt {
    if m.dom() == Set::<u32>::empty() {
        s
    } else {
        substitute::subst_stmt(s, m)
    }
}

pub open spec fn term_at(t: Term, m: Map<u32, Expr>) -> Term {
    if m.dom() == Set::<u32>::empty() {
        t
    } else {
        substitute::subst_term(t, m)
    }
}

/// A block in which each statement, and then the terminator, has the registers replaced that
/// `m` gives for its position.
pub open spec fn node_at(n: Node, m: spec_fn(int) -> Map<u32, Expr>) -> Node {
    Node {
        stmts: n.stmts.map(|i: int, s: Stmt| stmt_at(s, m(i))),
        term: term_at(n.term, m(n.stmts.len() as int)),
    }
}

/// Whether a site assigns the global object.
pub open spec fn global_def(g: Seq<Node>, d: DefSite) -> bool {
    reaching::is_def(g, d) && super::assigned(g[d.block.0 as int].stmts[d.stmt_index as int])
        == Some((d.register, Expr::Value(Val::Global)))
}

/// Whether every assignment of `r` that reaches a point, and at least one does, assigns the
/// global object.
pub open spec fn global_at(g: Seq<Node>, b: int, i: int, r: u32) -> bool {
    let defs = reaching::current(g, b, i, r);
    &&& exists|d: DefSite| #[trigger] defs.contains(d)
    &&& forall|d: DefSite| #[trigger] defs.contains(d) ==> global_def(g, d)
}

/// The registers that hold the global object at a point.
pub open spec fn globals_at(g: Seq<Node>, b: int, i: int) -> Map<u32, Expr> {
    Map::new(|r: u32| global_at(g, b, i, r), |r: u32| Expr::Value(Val::Global))
}

/// The graph once every read of a register that holds the global object reads that object.
pub open spec fn with_globals(g: Seq<Node>) -> Seq<Node> {
    g.map(|b: int, n: Node| node_at(n, |i: int| globals_at(g, b, i)))
}

/// The register that `a` copies, where that copy is the only assignment of `a`.
pub open spec fn copy_source(m: Map<u32, Option<Expr>>, a: u32) -> Option<u32> {
    if m.dom().contains(a) {
        match m[a] {
            Some(Expr::Value(Val::Register(b))) => if a != b {
                Some(b)
            } else {
                None
            },
            _ => None,
        }
    } else {
        None
    }
}

/// The first of the sites that assigns `a`.
pub open spec fn site_of(s: Seq<DefSite>, a: u32) -> Option<DefSite>
    decreases s.len(),
{
    if s.len() == 0 {
        None
    } else {
        match site_of(s.drop_last(), a) {
            Some(d) => Some(d),
            None => if s.last().register == a {
                Some(s.last())
            } else {
                None
            },
        }
    }
}

/// Whether the copy `a = src` still holds at a point: the same assignments of `src` reach it as
/// reach the copy.
pub open spec fn copy_holds(g: Seq<Node>, a: u32, src: u32, b: int, i: int) -> bool {
    match site_of(reaching::all_defs(g), a) {
        Some(d) => reaching::current(g, d.block.0 as int, d.stmt_index as int, src)
            == reaching::current(g, b, i, src),
        None => false,
    }
}

/// The register that `a` is a copy of, where that copy holds at a point.
pub open spec fn held_source(g: Seq<Node>, b: int, i: int, a: u32) -> Option<u32> {
    match copy_source(super::sole_values(super::all_stmts(g)), a) {
        Some(src) => if copy_holds(g, a, src, b, i) {
            Some(src)
        } else {
            None
        },
        None => None,
    }
}

/// The register at the end of the copies that hold at a point, followed from `a` over at most `n`
/// of them. Copies that lead round in a circle have no end.
pub open spec fn chain_end(g: Seq<Node>, b: int, i: int, a: u32, n: nat) -> Option<u32>
    decreases n,
{
    match held_source(g, b, i, a) {
        Some(src) => if n == 0 {
            None
        } else {
            chain_end(g, b, i, src, (n - 1) as nat)
        },
        None => Some(a),
    }
}

/// The copies that hold at a point, each with the register at its end.
pub open spec fn copies_at(g: Seq<Node>, b: int, i: int) -> Map<u32, Expr> {
    let n = reaching::all_defs(g).len();
    Map::new(
        |a: u32| held_source(g, b, i, a) is Some && chain_end(g, b, i, a, n) is Some,
        |a: u32| Expr::Value(Val::Register(chain_end(g, b, i, a, n)->0)),
    )
}

/// The graph once every read of a copy that holds reads what it copies.
pub open spec fn with_copies(g: Seq<Node>) -> Seq<Node> {
    g.map(|b: int, n: Node| node_at(n, |i: int| copies_at(g, b, i)))
}

/// Every assignment that reaches a point is one of the graph.
pub(super) proof fn lemma_current_are_defs(cfg: &CFG, b: int, i: int, r: u32)
    requires
        0 <= b < cfg@.len(),
        0 <= i <= cfg@[b].stmts.len(),
    ensures
        forall|d: DefSite| #[trigger]
            reaching::current(cfg@, b, i, r).contains(d) ==> reaching::is_def(cfg@, d)
                && d.register == r,
{
    let g = cfg@;
    reaching::lemma_graph_fits(cfg);
    assert(g[b].stmts.len() <= usize::MAX);
    lemma_last_def(g[b].stmts, i, r);
}

pub(super) proof fn lemma_last_def(s: Seq<Stmt>, n: int, r: u32)
    requires
        0 <= n <= s.len(),
    ensures
        reaching::last_def(s, n, r) matches Some(i) ==> 0 <= i < n && reaching::assigns(s[i], r),
    decreases n,
{
    if n > 0 {
        lemma_last_def(s, n - 1, r);
    }
}

/// Where no site assigns the global object, no register holds it.
proof fn lemma_no_globals(cfg: &CFG)
    requires
        forall|d: DefSite| !global_def(cfg@, d),
    ensures
        with_globals(cfg@) == cfg@,
{
    let g = cfg@;
    assert forall|b: int| 0 <= b < g.len() implies with_globals(g)[b] == g[b] by {
        assert forall|i: int| globals_at(g, b, i).dom() == Set::<u32>::empty() by {
            assert forall|r: u32| !global_at(g, b, i, r) by {
                if global_at(g, b, i, r) {
                    let d = choose|d: DefSite| reaching::current(g, b, i, r).contains(d);
                    assert(global_def(g, d));
                }
            }
            assert(globals_at(g, b, i).dom() =~= Set::<u32>::empty());
        }
        assert(with_globals(g)[b].stmts =~= g[b].stmts);
    }
    assert(with_globals(g) =~= g);
}

fn is_global_def(cfg: &CFG, d: DefSite) -> (r: bool)
    requires
        reaching::is_def(cfg@, d),
    ensures
        r == global_def(cfg@, d),
{
    let stmts = &cfg.blocks[d.block.0].statements;
    assert(cfg@[d.block.0 as int].stmts == model::stmts(stmts@));
    assert(model::stmts(stmts@)[d.stmt_index as int] == stmts@[d.stmt_index as int]@);
    match as_assigned(&stmts[d.stmt_index]) {
        Some((_, Expression::Value(Value::Global))) => true,
        _ => false,
    }
}

fn is_global_at(cfg: &CFG, rd: &ReachingDefs, b: usize, i: usize, r: u32) -> (res: bool)
    requires
        rd.exact(cfg@),
        b < cfg@.len(),
        i <= cfg@[b as int].stmts.len(),
    ensures
        res == global_at(cfg@, b as int, i as int, r),
{
    let ghost g = cfg@;
    let ghost now = reaching::current(g, b as int, i as int, r);
    let stmts = &cfg.blocks[b].statements;
    assert(g[b as int].stmts == model::stmts(stmts@));
    proof {
        lemma_current_are_defs(cfg, b as int, i as int, r);
        reaching::lemma_graph_fits(cfg);
        reaching::lemma_all_defs(g);
        lemma_last_def(g[b as int].stmts, i as int, r);
    }
    match find_last_def(stmts, i, r) {
        Some(j) => {
            let d = DefSite { block: BlockId(b), stmt_index: j, register: r };
            assert(now =~= set![d]);
            assert(now.contains(d));
            is_global_def(cfg, d)
        },
        None => {
            let mut any: bool = false;
            let mut k: usize = 0;
            while k < rd.defs.len()
                invariant
                    k <= rd.defs.len(),
                    g == cfg@,
                    b < g.len(),
                    rd.exact(g),
                    now == reaching::current(g, b as int, i as int, r),
                    reaching::last_def(g[b as int].stmts, i as int, r) is None,
                    forall|d: DefSite| #[trigger]
                        reaching::all_defs(g).contains(d) <==> reaching::is_def(g, d),
                    any == exists|n: int| 0 <= n < k && now.contains(#[trigger] rd.defs@[n]),
                    forall|n: int|
                        0 <= n < k && now.contains(#[trigger] rd.defs@[n]) ==> global_def(
                            g,
                            rd.defs@[n],
                        ),
                decreases rd.defs.len() - k,
            {
                let d: DefSite = rd.defs[k];
                assert(rd.defs@.contains(d));
                assert(rd.table@[b as int]@[k as int] <==> reaching::reaches(g, b as int, d));
                assert(rd.table@[b as int]@.len() == rd.defs@.len());
                if d.register == r && rd.table[b][k] {
                    assert(now.contains(d));
                    any = true;
                    if !is_global_def(cfg, d) {
                        return false;
                    }
                }
                k += 1;
            }
            assert forall|d: DefSite| #[trigger] now.contains(d) implies global_def(g, d) && any by {
                assert(reaching::all_defs(g).contains(d));
                let n = choose|n: int| 0 <= n < rd.defs@.len() && rd.defs@[n] == d;
                assert(now.contains(rd.defs@[n]));
            }
            if any {
                proof {
                    let n = choose|n: int|
                        0 <= n < rd.defs@.len() && now.contains(#[trigger] rd.defs@[n]);
                    assert(now.contains(rd.defs@[n]));
                }
            }
            any
        },
    }
}

/// The registers that some site sets to the global object.
fn global_registers(cfg: &CFG, rd: &ReachingDefs) -> (r: Vec<u32>)
    requires
        rd.defs@ == reaching::all_defs(cfg@),
    ensures
        forall|d: DefSite| #[trigger] global_def(cfg@, d) ==> r@.contains(d.register),
        r@.len() == 0 ==> forall|d: DefSite| !global_def(cfg@, d),
{
    let ghost g = cfg@;
    let mut out: Vec<u32> = Vec::new();
    let mut k: usize = 0;
    proof {
        reaching::lemma_graph_fits(cfg);
        reaching::lemma_all_defs(g);
    }
    while k < rd.defs.len()
        invariant
            k <= rd.defs.len(),
            g == cfg@,
            rd.defs@ == reaching::all_defs(g),
            forall|d: DefSite| #[trigger]
                reaching::all_defs(g).contains(d) <==> reaching::is_def(g, d),
            forall|n: int|
                0 <= n < k && global_def(g, #[trigger] rd.defs@[n]) ==> out@.contains(
                    rd.defs@[n].register,
                ),
        decreases rd.defs.len() - k,
    {
        let d: DefSite = rd.defs[k];
        assert(rd.defs@.contains(d));
        let ghost before = out@;
        if is_global_def(cfg, d) {
            let mut known: bool = false;
            let mut n: usize = 0;
            while n < out.len()
                invariant
                    n <= out.len(),
                    known ==> out@.contains(d.register),
                decreases out.len() - n,
            {
                if out[n] == d.register {
                    known = true;
                }
                n += 1;
            }
            if !known {
                out.push(d.register);
                assert(out@[before.len() as int] == d.register);
            }
            assert forall|x: u32| before.contains(x) implies out@.contains(x) by {
                let n = choose|n: int| 0 <= n < before.len() && before[n] == x;
                assert(out@[n] == x);
            }
        }
        k += 1;
    }
    assert forall|d: DefSite| #[trigger] global_def(g, d) implies out@.contains(d.register) by {
        assert(reaching::all_defs(g).contains(d));
        let n = choose|n: int| 0 <= n < rd.defs@.len() && rd.defs@[n] == d;
        assert(global_def(g, rd.defs@[n]));
    }
    out
}

/// The registers that hold the global object at a point, or nothing where there is none.
fn global_copies(
    cfg: &CFG,
    rd: &ReachingDefs,
    regs: &Vec<u32>,
    b: usize,
    i: usize,
) -> (r: Option<BTreeMap<u32, Expression>>)
    requires
        rd.exact(cfg@),
        b < cfg@.len(),
        i <= cfg@[b as int].stmts.len(),
        forall|d: DefSite| #[trigger] global_def(cfg@, d) ==> regs@.contains(d.register),
    ensures
        match r {
            Some(m) => substitute::held(m@) == globals_at(cfg@, b as int, i as int)
                && substitute::held(m@).dom() != Set::<u32>::empty(),
            None => globals_at(cfg@, b as int, i as int).dom() == Set::<u32>::empty(),
        },
{
    broadcast use vstd::std_specs::btree::group_btree_axioms;

    let ghost g = cfg@;
    let ghost want = globals_at(g, b as int, i as int);
    let mut out: BTreeMap<u32, Expression> = BTreeMap::new();
    let mut any: bool = false;
    let mut k: usize = 0;
    assert(substitute::held(out@).dom() =~= Set::<u32>::empty());
    while k < regs.len()
        invariant
            k <= regs.len(),
            g == cfg@,
            rd.exact(g),
            b < g.len(),
            i <= g[b as int].stmts.len(),
            want == globals_at(g, b as int, i as int),
            any == (substitute::held(out@).dom() != Set::<u32>::empty()),
            forall|r: u32| #[trigger]
                substitute::held(out@).dom().contains(r) ==> want.dom().contains(r)
                    && substitute::held(out@)[r] == want[r],
            forall|n: int|
                0 <= n < k && want.dom().contains(#[trigger] regs@[n]) ==> substitute::held(
                    out@,
                ).dom().contains(regs@[n]),
        decreases regs.len() - k,
    {
        broadcast use vstd::std_specs::btree::group_btree_axioms;

        let r: u32 = regs[k];
        if is_global_at(cfg, rd, b, i, r) {
            let ghost before = substitute::held(out@);
            let v = Expression::Value(Value::Global);
            let ghost e = v@;
            out.insert(r, v);
            any = true;
            assert(substitute::held(out@) =~= before.insert(r, e));
            assert(substitute::held(out@).dom().contains(r));
        }
        k += 1;
    }
    assert forall|r: u32| want.dom().contains(r) implies substitute::held(out@).dom().contains(
        r,
    ) by {
        let defs = reaching::current(g, b as int, i as int, r);
        let d = choose|d: DefSite| defs.contains(d);
        assert(global_def(g, d));
        lemma_current_are_defs(cfg, b as int, i as int, r);
        let n = choose|n: int| 0 <= n < regs@.len() && regs@[n] == r;
        assert(want.dom().contains(regs@[n]));
    }
    assert(substitute::held(out@) =~= want);
    if any {
        Some(out)
    } else {
        None
    }
}

fn statement_with(s: &Statement, m: &Option<BTreeMap<u32, Expression>>) -> (r: Statement)
    requires
        m matches Some(x) ==> substitute::held(x@).dom() != Set::<u32>::empty(),
    ensures
        r@ == (match m {
            Some(x) => stmt_at(s@, substitute::held(x@)),
            None => s@,
        }),
{
    match m {
        Some(x) => substitute_stmt(s, x),
        None => s.clone(),
    }
}

/// Makes every read of a register that can only hold the global object read that object.
pub fn resolve_global_reads(cfg: &mut CFG)
    ensures
        final(cfg)@ == with_globals(old(cfg)@),
{
    let ghost g = cfg@;
    let rd = ReachingDefs::analyze(cfg);
    let regs = global_registers(cfg, &rd);
    if regs.len() == 0 {
        proof {
            lemma_no_globals(cfg);
        }
        return;
    }
    let mut out: Vec<BasicBlock> = Vec::new();
    let mut b: usize = 0;
    while b < cfg.blocks.len()
        invariant
            b <= cfg.blocks.len(),
            g == cfg@,
            rd.exact(g),
            forall|d: DefSite| #[trigger] global_def(g, d) ==> regs@.contains(d.register),
            out.len() == b,
            forall|k: int| 0 <= k < b ==> (#[trigger] out@[k])@ == with_globals(g)[k],
        decreases cfg.blocks.len() - b,
    {
        let stmts = &cfg.blocks[b].statements;
        assert(g[b as int].stmts == model::stmts(stmts@));
        let ghost want = with_globals(g)[b as int];
        let mut new: Vec<Statement> = Vec::new();
        let mut i: usize = 0;
        while i < stmts.len()
            invariant
                i <= stmts.len(),
                b < cfg.blocks.len(),
                g == cfg@,
                g[b as int].stmts == model::stmts(stmts@),
                rd.exact(g),
                want == with_globals(g)[b as int],
                forall|d: DefSite| #[trigger] global_def(g, d) ==> regs@.contains(d.register),
                new.len() == i,
                forall|k: int| 0 <= k < i ==> (#[trigger] new@[k])@ == want.stmts[k],
            decreases stmts.len() - i,
        {
            let m = global_copies(cfg, &rd, &regs, b, i);
            new.push(statement_with(&stmts[i], &m));
            i += 1;
        }
        let m = global_copies(cfg, &rd, &regs, b, stmts.len());
        let terminator = match &m {
            Some(m) => substitute_terminator(&cfg.blocks[b].terminator, m),
            None => cfg.blocks[b].terminator.clone(),
        };
        assert(model::stmts(new@) =~= want.stmts);
        out.push(BasicBlock { statements: new, terminator });
        b += 1;
    }
    cfg.blocks = out;
    assert(cfg@ =~= with_globals(g));
}

/// The assignments of `r` that reach a point, as a mask over the assignments of the graph.
fn current_mask(cfg: &CFG, rd: &ReachingDefs, b: usize, i: usize, r: u32) -> (m: Vec<bool>)
    requires
        rd.exact(cfg@),
        b < cfg@.len(),
        i <= cfg@[b as int].stmts.len(),
    ensures
        m@.len() == rd.defs@.len(),
        forall|k: int|
            0 <= k < m@.len() ==> (#[trigger] m@[k] <==> reaching::current(
                cfg@,
                b as int,
                i as int,
                r,
            ).contains(rd.defs@[k])),
{
    let ghost g = cfg@;
    let ghost now = reaching::current(g, b as int, i as int, r);
    let stmts = &cfg.blocks[b].statements;
    assert(g[b as int].stmts == model::stmts(stmts@));
    let last: Option<usize> = find_last_def(stmts, i, r);
    let mut out: Vec<bool> = Vec::new();
    while out.len() < rd.defs.len()
        invariant
            out.len() <= rd.defs.len(),
            g == cfg@,
            rd.exact(g),
            b < g.len(),
            now == reaching::current(g, b as int, i as int, r),
            match last {
                Some(j) => reaching::last_def(g[b as int].stmts, i as int, r) == Some(j as int),
                None => reaching::last_def(g[b as int].stmts, i as int, r) is None,
            },
            forall|k: int|
                0 <= k < out@.len() ==> (#[trigger] out@[k] <==> now.contains(rd.defs@[k])),
        decreases rd.defs.len() - out.len(),
    {
        let k: usize = out.len();
        let d: DefSite = rd.defs[k];
        assert(rd.table@[b as int]@.len() == rd.defs@.len());
        assert(rd.table@[b as int]@[k as int] <==> reaching::reaches(g, b as int, d));
        let here: bool = match last {
            Some(j) => d.block.0 == b && d.stmt_index == j && d.register == r,
            None => d.register == r && rd.table[b][k],
        };
        proof {
            if let Some(j) = last {
                let only = DefSite { block: BlockId(b), stmt_index: j, register: r };
                assert(now =~= set![only]);
                assert(here == (d == only));
            }
        }
        out.push(here);
    }
    out
}

/// Two sets of assignments of a graph are equal where their masks are.
proof fn lemma_masks(cfg: &CFG, rd: &ReachingDefs, s: Set<DefSite>, t: Set<DefSite>)
    requires
        rd.defs@ == reaching::all_defs(cfg@),
        forall|d: DefSite| #[trigger] s.contains(d) ==> reaching::is_def(cfg@, d),
        forall|d: DefSite| #[trigger] t.contains(d) ==> reaching::is_def(cfg@, d),
        forall|k: int|
            0 <= k < rd.defs@.len() ==> s.contains(#[trigger] rd.defs@[k]) == t.contains(
                rd.defs@[k],
            ),
    ensures
        s == t,
{
    let g = cfg@;
    reaching::lemma_graph_fits(cfg);
    reaching::lemma_all_defs(g);
    assert forall|d: DefSite| s.contains(d) == t.contains(d) by {
        if s.contains(d) || t.contains(d) {
            assert(reaching::all_defs(g).contains(d));
            let k = choose|k: int| 0 <= k < rd.defs@.len() && rd.defs@[k] == d;
            assert(s.contains(rd.defs@[k]) == t.contains(rd.defs@[k]));
        }
    }
    assert(s =~= t);
}

fn same_mask(a: &Vec<bool>, b: &Vec<bool>) -> (r: bool)
    requires
        a@.len() == b@.len(),
    ensures
        r == (forall|k: int| 0 <= k < a@.len() ==> #[trigger] a@[k] == b@[k]),
{
    let mut i: usize = 0;
    while i < a.len()
        invariant
            i <= a.len(),
            a@.len() == b@.len(),
            forall|k: int| 0 <= k < i ==> #[trigger] a@[k] == b@[k],
        decreases a.len() - i,
    {
        if a[i] != b[i] {
            return false;
        }
        i += 1;
    }
    true
}

/// A copy `target = source` that is the only assignment of its target, with the assignments of
/// the source that reach it.
struct CopyInfo {
    target: u32,
    source: u32,
    signature: Vec<bool>,
}

impl CopyInfo {
    spec fn describes(&self, g: Seq<Node>, defs: Seq<DefSite>) -> bool {
        let m = super::sole_values(super::all_stmts(g));
        &&& copy_source(m, self.target) == Some(self.source)
        &&& site_of(reaching::all_defs(g), self.target) matches Some(d) && reaching::is_def(g, d)
            && self.signature@.len() == defs.len() && forall|k: int|
            0 <= k < defs.len() ==> (#[trigger] self.signature@[k] <==> reaching::current(
                g,
                d.block.0 as int,
                d.stmt_index as int,
                self.source,
            ).contains(defs[k]))
    }
}

fn find_site(defs: &Vec<DefSite>, a: u32) -> (r: Option<DefSite>)
    ensures
        r == site_of(defs@, a),
        r matches Some(d) ==> defs@.contains(d),
{
    let mut found: Option<DefSite> = None;
    let mut i: usize = 0;
    while i < defs.len()
        invariant
            i <= defs.len(),
            found == site_of(defs@.take(i as int), a),
            found matches Some(d) ==> defs@.contains(d),
        decreases defs.len() - i,
    {
        assert(defs@.take(i + 1).drop_last() =~= defs@.take(i as int));
        if found.is_none() && defs[i].register == a {
            found = Some(defs[i]);
            assert(defs@.contains(defs@[i as int]));
        }
        i += 1;
    }
    assert(defs@.take(defs@.len() as int) =~= defs@);
    found
}

fn find_copies(cfg: &CFG, rd: &ReachingDefs) -> (r: Vec<CopyInfo>)
    requires
        rd.exact(cfg@),
    ensures
        forall|k: int| 0 <= k < r@.len() ==> (#[trigger] r@[k]).describes(cfg@, rd.defs@),
        forall|a: u32|
            (copy_source(super::sole_values(super::all_stmts(cfg@)), a) is Some && #[trigger] site_of(
                reaching::all_defs(cfg@),
                a,
            ) is Some) ==> exists|k: int| 0 <= k < r@.len() && (#[trigger] r@[k]).target == a,
{
    broadcast use vstd::std_specs::btree::group_btree_axioms;

    let ghost g = cfg@;
    let values = find_sole_values(cfg);
    let ghost m = super::sole_values(super::all_stmts(g));
    let keys = keys_in_order(&values);
    let mut out: Vec<CopyInfo> = Vec::new();
    let mut i: usize = 0;
    proof {
        reaching::lemma_graph_fits(cfg);
        reaching::lemma_all_defs(g);
    }
    while i < keys.len()
        invariant
            i <= keys.len(),
            g == cfg@,
            rd.exact(g),
            m == super::soles(values@),
            m == super::sole_values(super::all_stmts(g)),
            forall|d: DefSite| #[trigger]
                reaching::all_defs(g).contains(d) <==> reaching::is_def(g, d),
            forall|k: int| 0 <= k < out@.len() ==> (#[trigger] out@[k]).describes(g, rd.defs@),
            forall|n: int|
                0 <= n < i && copy_source(m, #[trigger] keys@[n]) is Some && site_of(
                    reaching::all_defs(g),
                    keys@[n],
                ) is Some ==> exists|k: int|
                    0 <= k < out@.len() && (#[trigger] out@[k]).target == keys@[n],
        decreases keys.len() - i,
    {
        broadcast use vstd::std_specs::btree::group_btree_axioms;

        let a: u32 = keys[i];
        let ghost before = out@;
        let source: Option<u32> = match values.get(&a) {
            Some(o) => {
                assert(m[a] == model::opt_expr(*o));
                match o {
                    Some(Expression::Value(Value::Register(b))) => if a != *b {
                        Some(*b)
                    } else {
                        None
                    },
                    _ => None,
                }
            },
            None => None,
        };
        assert(source == copy_source(m, a));
        if let Some(source) = source {
            if let Some(d) = find_site(&rd.defs, a) {
                assert(reaching::is_def(g, d));
                let signature = current_mask(cfg, rd, d.block.0, d.stmt_index, source);
                out.push(CopyInfo { target: a, source, signature });
                assert(out@[before.len() as int].target == a);
            }
        }
        assert forall|n: int|
            0 <= n < i + 1 && copy_source(m, #[trigger] keys@[n]) is Some && site_of(
                reaching::all_defs(g),
                keys@[n],
            ) is Some implies exists|k: int|
            0 <= k < out@.len() && (#[trigger] out@[k]).target == keys@[n] by {
            if n < i {
                let k = choose|k: int| 0 <= k < before.len() && (#[trigger] before[k]).target
                    == keys@[n];
                assert(out@[k].target == keys@[n]);
            }
        }
        i += 1;
    }
    assert forall|a: u32|
        (copy_source(m, a) is Some && #[trigger] site_of(reaching::all_defs(g), a) is Some) implies exists|
        k: int,
    | 0 <= k < out@.len() && (#[trigger] out@[k]).target == a by {
        assert(keys@.contains(a));
        let n = choose|n: int| 0 <= n < keys@.len() && keys@[n] == a;
        assert(copy_source(m, keys@[n]) is Some);
    }
    out
}

/// Which of the copies hold at a point.
fn held_copies(
    cfg: &CFG,
    rd: &ReachingDefs,
    copies: &Vec<CopyInfo>,
    b: usize,
    i: usize,
) -> (r: Vec<bool>)
    requires
        rd.exact(cfg@),
        b < cfg@.len(),
        i <= cfg@[b as int].stmts.len(),
        forall|k: int| 0 <= k < copies@.len() ==> (#[trigger] copies@[k]).describes(cfg@, rd.defs@),
    ensures
        r@.len() == copies@.len(),
        forall|k: int|
            0 <= k < copies@.len() ==> (#[trigger] r@[k] == copy_holds(
                cfg@,
                copies@[k].target,
                copies@[k].source,
                b as int,
                i as int,
            )),
{
    let ghost g = cfg@;
    let mut out: Vec<bool> = Vec::new();
    while out.len() < copies.len()
        invariant
            out.len() <= copies.len(),
            g == cfg@,
            rd.exact(g),
            b < g.len(),
            i <= g[b as int].stmts.len(),
            forall|k: int|
                0 <= k < copies@.len() ==> (#[trigger] copies@[k]).describes(g, rd.defs@),
            forall|k: int|
                0 <= k < out@.len() ==> (#[trigger] out@[k] == copy_holds(
                    g,
                    copies@[k].target,
                    copies@[k].source,
                    b as int,
                    i as int,
                )),
        decreases copies.len() - out.len(),
    {
        let k: usize = out.len();
        let c = &copies[k];
        assert(copies@[k as int].describes(g, rd.defs@));
        let now = current_mask(cfg, rd, b, i, c.source);
        let holds: bool = same_mask(&now, &c.signature);
        proof {
            let d = site_of(reaching::all_defs(g), c.target)->0;
            let s = reaching::current(g, d.block.0 as int, d.stmt_index as int, c.source);
            let t = reaching::current(g, b as int, i as int, c.source);
            lemma_current_are_defs(cfg, b as int, i as int, c.source);
            lemma_current_are_defs(cfg, d.block.0 as int, d.stmt_index as int, c.source);
            if holds {
                assert forall|n: int| 0 <= n < rd.defs@.len() implies s.contains(
                    #[trigger] rd.defs@[n],
                ) == t.contains(rd.defs@[n]) by {
                    assert(now@[n] == c.signature@[n]);
                }
                lemma_masks(cfg, rd, s, t);
            } else {
                let n = choose|n: int| 0 <= n < now@.len() && #[trigger] now@[n] != c.signature@[n];
                assert(s.contains(rd.defs@[n]) != t.contains(rd.defs@[n]));
            }
        }
        out.push(holds);
    }
    out
}

fn find_held_source(
    cfg: &CFG,
    rd: &ReachingDefs,
    copies: &Vec<CopyInfo>,
    holds: &Vec<bool>,
    Ghost(b): Ghost<int>,
    Ghost(i): Ghost<int>,
    a: u32,
) -> (r: Option<u32>)
    requires
        forall|k: int| 0 <= k < copies@.len() ==> (#[trigger] copies@[k]).describes(cfg@, rd.defs@),
        forall|a: u32|
            (copy_source(super::sole_values(super::all_stmts(cfg@)), a) is Some && #[trigger] site_of(
                reaching::all_defs(cfg@),
                a,
            ) is Some) ==> exists|k: int|
                0 <= k < copies@.len() && (#[trigger] copies@[k]).target == a,
        holds@.len() == copies@.len(),
        forall|k: int|
            0 <= k < copies@.len() ==> (#[trigger] holds@[k] == copy_holds(
                cfg@,
                copies@[k].target,
                copies@[k].source,
                b,
                i,
            )),
    ensures
        r == held_source(cfg@, b, i, a),
{
    let mut k: usize = 0;
    while k < copies.len()
        invariant
            k <= copies.len(),
            holds@.len() == copies@.len(),
            forall|k: int|
                0 <= k < copies@.len() ==> (#[trigger] copies@[k]).describes(cfg@, rd.defs@),
            forall|k: int|
                0 <= k < copies@.len() ==> (#[trigger] holds@[k] == copy_holds(
                    cfg@,
                    copies@[k].target,
                    copies@[k].source,
                    b,
                    i,
                )),
            forall|n: int| 0 <= n < k ==> (#[trigger] copies@[n]).target != a,
        decreases copies.len() - k,
    {
        if copies[k].target == a {
            assert(copies@[k as int].describes(cfg@, rd.defs@));
            return if holds[k] {
                Some(copies[k].source)
            } else {
                None
            };
        }
        k += 1;
    }
    proof {
        let s = site_of(reaching::all_defs(cfg@), a);
    }
    None
}

fn find_chain_end(
    cfg: &CFG,
    rd: &ReachingDefs,
    copies: &Vec<CopyInfo>,
    holds: &Vec<bool>,
    Ghost(b): Ghost<int>,
    Ghost(i): Ghost<int>,
    a: u32,
) -> (r: Option<u32>)
    requires
        rd.exact(cfg@),
        forall|k: int| 0 <= k < copies@.len() ==> (#[trigger] copies@[k]).describes(cfg@, rd.defs@),
        forall|a: u32|
            (copy_source(super::sole_values(super::all_stmts(cfg@)), a) is Some && #[trigger] site_of(
                reaching::all_defs(cfg@),
                a,
            ) is Some) ==> exists|k: int|
                0 <= k < copies@.len() && (#[trigger] copies@[k]).target == a,
        holds@.len() == copies@.len(),
        forall|k: int|
            0 <= k < copies@.len() ==> (#[trigger] holds@[k] == copy_holds(
                cfg@,
                copies@[k].target,
                copies@[k].source,
                b,
                i,
            )),
    ensures
        r == chain_end(cfg@, b, i, a, reaching::all_defs(cfg@).len()),
{
    let ghost g = cfg@;
    let mut at: u32 = a;
    let mut n: usize = rd.defs.len();
    let ghost end = chain_end(g, b, i, a, reaching::all_defs(g).len());
    while n > 0
        invariant
            g == cfg@,
            end == chain_end(g, b, i, at, n as nat),
            end == chain_end(g, b, i, a, reaching::all_defs(g).len()),
            forall|k: int|
                0 <= k < copies@.len() ==> (#[trigger] copies@[k]).describes(cfg@, rd.defs@),
            forall|a: u32|
                (copy_source(super::sole_values(super::all_stmts(cfg@)), a) is Some
                    && #[trigger] site_of(reaching::all_defs(cfg@), a) is Some) ==> exists|k: int|
                    0 <= k < copies@.len() && (#[trigger] copies@[k]).target == a,
            holds@.len() == copies@.len(),
            forall|k: int|
                0 <= k < copies@.len() ==> (#[trigger] holds@[k] == copy_holds(
                    cfg@,
                    copies@[k].target,
                    copies@[k].source,
                    b,
                    i,
                )),
        decreases n,
    {
        match find_held_source(cfg, rd, copies, holds, Ghost(b), Ghost(i), at) {
            Some(src) => {
                at = src;
                n -= 1;
            },
            None => return Some(at),
        }
    }
    if find_held_source(cfg, rd, copies, holds, Ghost(b), Ghost(i), at).is_some() {
        None
    } else {
        Some(at)
    }
}

/// The copies that hold at a point, or nothing where there is none.
fn active_map(
    cfg: &CFG,
    rd: &ReachingDefs,
    copies: &Vec<CopyInfo>,
    b: usize,
    i: usize,
) -> (r: Option<BTreeMap<u32, Expression>>)
    requires
        rd.exact(cfg@),
        b < cfg@.len(),
        i <= cfg@[b as int].stmts.len(),
        forall|k: int| 0 <= k < copies@.len() ==> (#[trigger] copies@[k]).describes(cfg@, rd.defs@),
        forall|a: u32|
            (copy_source(super::sole_values(super::all_stmts(cfg@)), a) is Some && #[trigger] site_of(
                reaching::all_defs(cfg@),
                a,
            ) is Some) ==> exists|k: int|
                0 <= k < copies@.len() && (#[trigger] copies@[k]).target == a,
    ensures
        match r {
            Some(m) => substitute::held(m@) == copies_at(cfg@, b as int, i as int)
                && substitute::held(m@).dom() != Set::<u32>::empty(),
            None => copies_at(cfg@, b as int, i as int).dom() == Set::<u32>::empty(),
        },
{
    broadcast use vstd::std_specs::btree::group_btree_axioms;

    let ghost g = cfg@;
    let ghost want = copies_at(g, b as int, i as int);
    let holds = held_copies(cfg, rd, copies, b, i);
    let mut out: BTreeMap<u32, Expression> = BTreeMap::new();
    let mut any: bool = false;
    let mut k: usize = 0;
    assert(substitute::held(out@).dom() =~= Set::<u32>::empty());
    while k < copies.len()
        invariant
            k <= copies.len(),
            g == cfg@,
            rd.exact(g),
            want == copies_at(g, b as int, i as int),
            forall|k: int|
                0 <= k < copies@.len() ==> (#[trigger] copies@[k]).describes(g, rd.defs@),
            forall|a: u32|
                (copy_source(super::sole_values(super::all_stmts(g)), a) is Some && #[trigger] site_of(
                    reaching::all_defs(g),
                    a,
                ) is Some) ==> exists|k: int|
                    0 <= k < copies@.len() && (#[trigger] copies@[k]).target == a,
            holds@.len() == copies@.len(),
            forall|k: int|
                0 <= k < copies@.len() ==> (#[trigger] holds@[k] == copy_holds(
                    g,
                    copies@[k].target,
                    copies@[k].source,
                    b as int,
                    i as int,
                )),
            any == (substitute::held(out@).dom() != Set::<u32>::empty()),
            forall|r: u32| #[trigger]
                substitute::held(out@).dom().contains(r) ==> want.dom().contains(r)
                    && substitute::held(out@)[r] == want[r],
            forall|n: int|
                0 <= n < k && want.dom().contains((#[trigger] copies@[n]).target)
                    ==> substitute::held(out@).dom().contains(copies@[n].target),
        decreases copies.len() - k,
    {
        broadcast use vstd::std_specs::btree::group_btree_axioms;

        let c = &copies[k];
        assert(copies@[k as int].describes(g, rd.defs@));
        if holds[k] {
            if let Some(end) = find_chain_end(
                cfg,
                rd,
                copies,
                &holds,
                Ghost(b as int),
                Ghost(i as int),
                c.target,
            ) {
                let ghost before = substitute::held(out@);
                let v = Expression::Value(Value::Register(end));
                let ghost e = v@;
                out.insert(c.target, v);
                any = true;
                assert(substitute::held(out@) =~= before.insert(c.target, e));
                assert(substitute::held(out@).dom().contains(c.target));
                assert(want.dom().contains(c.target));
            }
        }
        k += 1;
    }
    assert forall|r: u32| want.dom().contains(r) implies substitute::held(out@).dom().contains(
        r,
    ) by {
        assert(site_of(reaching::all_defs(g), r) is Some);
        let n = choose|n: int| 0 <= n < copies@.len() && (#[trigger] copies@[n]).target == r;
        assert(want.dom().contains(copies@[n].target));
    }
    assert(substitute::held(out@) =~= want);
    if any {
        Some(out)
    } else {
        None
    }
}

/// Where there are no copies, none holds.
proof fn lemma_no_copies(cfg: &CFG)
    requires
        forall|a: u32|
            !(copy_source(super::sole_values(super::all_stmts(cfg@)), a) is Some && #[trigger] site_of(
                reaching::all_defs(cfg@),
                a,
            ) is Some),
    ensures
        with_copies(cfg@) == cfg@,
{
    let g = cfg@;
    assert forall|b: int| 0 <= b < g.len() implies with_copies(g)[b] == g[b] by {
        assert forall|i: int| copies_at(g, b, i).dom() == Set::<u32>::empty() by {
            assert forall|a: u32| !copies_at(g, b, i).dom().contains(a) by {
                let s = site_of(reaching::all_defs(g), a);
            }
            assert(copies_at(g, b, i).dom() =~= Set::<u32>::empty());
        }
        assert(with_copies(g)[b].stmts =~= g[b].stmts);
    }
    assert(with_copies(g) =~= g);
}

/// Propagates copies of registers (`a = b`) across blocks: a read of `a` becomes a read of `b`
/// where `b` cannot have changed since the copy, and so on to the end of a chain of copies.
pub fn propagate_copies(cfg: &mut CFG)
    ensures
        final(cfg)@ == with_copies(old(cfg)@),
{
    let ghost g = cfg@;
    let rd = ReachingDefs::analyze(cfg);
    let copies = find_copies(cfg, &rd);
    if copies.len() == 0 {
        proof {
            lemma_no_copies(cfg);
        }
        return;
    }
    let mut out: Vec<BasicBlock> = Vec::new();
    let mut b: usize = 0;
    while b < cfg.blocks.len()
        invariant
            b <= cfg.blocks.len(),
            g == cfg@,
            rd.exact(g),
            forall|k: int| 0 <= k < copies@.len() ==> (#[trigger] copies@[k]).describes(g, rd.defs@),
            forall|a: u32|
                (copy_source(super::sole_values(super::all_stmts(g)), a) is Some && #[trigger] site_of(
                    reaching::all_defs(g),
                    a,
                ) is Some) ==> exists|k: int|
                    0 <= k < copies@.len() && (#[trigger] copies@[k]).target == a,
            out.len() == b,
            forall|k: int| 0 <= k < b ==> (#[trigger] out@[k])@ == with_copies(g)[k],
        decreases cfg.blocks.len() - b,
    {
        let stmts = &cfg.blocks[b].statements;
        assert(g[b as int].stmts == model::stmts(stmts@));
        let ghost want = with_copies(g)[b as int];
        let mut new: Vec<Statement> = Vec::new();
        let mut i: usize = 0;
        while i < stmts.len()
            invariant
                i <= stmts.len(),
                b < cfg.blocks.len(),
                g == cfg@,
                g[b as int].stmts == model::stmts(stmts@),
                rd.exact(g),
                want == with_copies(g)[b as int],
                forall|k: int|
                    0 <= k < copies@.len() ==> (#[trigger] copies@[k]).describes(g, rd.defs@),
                forall|a: u32|
                    (copy_source(super::sole_values(super::all_stmts(g)), a) is Some && #[trigger] site_of(
                        reaching::all_defs(g),
                        a,
                    ) is Some) ==> exists|k: int|
                        0 <= k < copies@.len() && (#[trigger] copies@[k]).target == a,
                new.len() == i,
                forall|k: int| 0 <= k < i ==> (#[trigger] new@[k])@ == want.stmts[k],
            decreases stmts.len() - i,
        {
            let m = active_map(cfg, &rd, &copies, b, i);
            new.push(statement_with(&stmts[i], &m));
            i += 1;
        }
        let m = active_map(cfg, &rd, &copies, b, stmts.len());
        let terminator = match &m {
            Some(m) => substitute_terminator(&cfg.blocks[b].terminator, m),
            None => cfg.blocks[b].terminator.clone(),
        };
        assert(model::stmts(new@) =~= want.stmts);
        out.push(BasicBlock { statements: new, terminator });
        b += 1;
    }
    cfg.blocks = out;
    assert(cfg@ =~= with_copies(g));
}

} // verus!
