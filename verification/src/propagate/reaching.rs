//! Which assignments of registers reach which blocks.

use super::as_assigned;
use crate::ir::cfg;
use crate::ir::cfg::{BlockId, Node, Term, Terminator, CFG};
use crate::ir::model;
use crate::ir::model::Stmt;
use crate::ir::Statement;
use vstd::prelude::*;

verus! {

/// A statement that assigns a register.
#[derive(Debug, Clone, Copy, PartialEq, Eq, Structural)]
pub struct DefSite {
    pub block: BlockId,
    pub stmt_index: usize,
    pub register: u32,
}

/// Whether a statement assigns a register.
pub open spec fn assigns(s: Stmt, r: u32) -> bool {
    super::assigned(s) matches Some(p) && p.0 == r
}

/// Whether a site is a statement of the graph that assigns its register.
pub open spec fn is_def(g: Seq<Node>, d: DefSite) -> bool {
    d.block.0 < g.len() && d.stmt_index < g[d.block.0 as int].stmts.len() && assigns(
        g[d.block.0 as int].stmts[d.stmt_index as int],
        d.register,
    )
}

/// The position of the last of the first `n` statements that assigns `r`.
pub open spec fn last_def(s: Seq<Stmt>, n: int, r: u32) -> Option<int>
    decreases n,
{
    if n <= 0 {
        None
    } else if assigns(s[n - 1], r) {
        Some(n - 1)
    } else {
        last_def(s, n - 1, r)
    }
}

/// Whether an assignment that reaches the start of a block, or stands in it, reaches its end.
pub open spec fn leaves(g: Seq<Node>, b: int, d: DefSite, enters: bool) -> bool {
    let s = g[b].stmts;
    match last_def(s, s.len() as int, d.register) {
        Some(i) => d.block.0 == b && d.stmt_index == i,
        None => enters,
    }
}

/// Whether an assignment reaches the start of a block along a path of `n` edges.
pub open spec fn reaches_in(g: Seq<Node>, n: nat, b: int, d: DefSite) -> bool
    decreases n,
{
    n > 0 && exists|p: int|
        0 <= p < g.len() && cfg::leads_to(#[trigger] g[p].term, b) && leaves(
            g,
            p,
            d,
            reaches_in(g, (n - 1) as nat, p, d),
        )
}

/// Whether an assignment reaches the start of a block along some path.
pub open spec fn reaches(g: Seq<Node>, b: int, d: DefSite) -> bool {
    is_def(g, d) && exists|n: nat| reaches_in(g, n, b, d)
}

/// The assignments of `r` that reach the statement at position `i` of a block.
pub open spec fn current(g: Seq<Node>, b: int, i: int, r: u32) -> Set<DefSite> {
    match last_def(g[b].stmts, i, r) {
        Some(j) => set![DefSite { block: BlockId(b as usize), stmt_index: j as usize, register: r }],
        None => Set::new(|d: DefSite| d.register == r && reaches(g, b, d)),
    }
}

/// The assignments in a run of statements of block `b`, the first of them at position 0.
pub open spec fn block_defs(b: int, s: Seq<Stmt>) -> Seq<DefSite>
    decreases s.len(),
{
    if s.len() == 0 {
        Seq::empty()
    } else {
        let before = block_defs(b, s.drop_last());
        match super::assigned(s.last()) {
            Some(p) => before.push(
                DefSite {
                    block: BlockId(b as usize),
                    stmt_index: (s.len() - 1) as usize,
                    register: p.0,
                },
            ),
            None => before,
        }
    }
}

/// The assignments in a graph, in order.
pub open spec fn all_defs(g: Seq<Node>) -> Seq<DefSite>
    decreases g.len(),
{
    if g.len() == 0 {
        Seq::empty()
    } else {
        all_defs(g.drop_last()) + block_defs(g.len() - 1, g.last().stmts)
    }
}

/// A site among the assignments of the first statements of a block.
pub open spec fn is_block_def(b: int, s: Seq<Stmt>, d: DefSite) -> bool {
    d.block.0 == b && d.stmt_index < s.len() && assigns(s[d.stmt_index as int], d.register)
}

proof fn lemma_block_defs(b: int, s: Seq<Stmt>)
    requires
        0 <= b <= usize::MAX,
        s.len() <= usize::MAX,
    ensures
        forall|d: DefSite| #[trigger] block_defs(b, s).contains(d) <==> is_block_def(b, s, d),
        block_defs(b, s).no_duplicates(),
    decreases s.len(),
{
    if s.len() > 0 {
        let t = s.drop_last();
        let before = block_defs(b, t);
        let r = block_defs(b, s);
        lemma_block_defs(b, t);
        assert forall|d: DefSite| #[trigger] r.contains(d) <==> is_block_def(b, s, d) by {
            if r.contains(d) {
                let k = choose|k: int| 0 <= k < r.len() && r[k] == d;
                if k < before.len() {
                    assert(before.contains(d));
                    assert(is_block_def(b, t, d));
                }
            }
            if is_block_def(b, s, d) {
                if d.stmt_index < t.len() {
                    assert(is_block_def(b, t, d));
                    assert(before.contains(d));
                    let k = choose|k: int| 0 <= k < before.len() && before[k] == d;
                    assert(r[k] == d);
                } else {
                    assert(r[before.len() as int] == d);
                }
            }
        }
        assert forall|i: int, j: int| 0 <= i < r.len() && 0 <= j < r.len() && i != j implies r[i]
            != r[j] by {
            if i < before.len() && j < before.len() {
                assert(before[i] != before[j]);
            } else if i < before.len() {
                assert(before.contains(r[i]));
            } else if j < before.len() {
                assert(before.contains(r[j]));
            }
        }
    }
}

/// Every assignment of a graph is listed, once.
pub proof fn lemma_all_defs(g: Seq<Node>)
    requires
        g.len() <= usize::MAX,
        forall|b: int| 0 <= b < g.len() ==> (#[trigger] g[b]).stmts.len() <= usize::MAX,
    ensures
        forall|d: DefSite| #[trigger] all_defs(g).contains(d) <==> is_def(g, d),
        all_defs(g).no_duplicates(),
    decreases g.len(),
{
    if g.len() > 0 {
        let t = g.drop_last();
        let b = g.len() - 1;
        let before = all_defs(t);
        let own = block_defs(b, g.last().stmts);
        let r = all_defs(g);
        assert(g[b].stmts.len() <= usize::MAX);
        assert forall|i: int| 0 <= i < t.len() implies (#[trigger] t[i]).stmts.len()
            <= usize::MAX by {
            assert(t[i] == g[i]);
        }
        lemma_all_defs(t);
        lemma_block_defs(b, g.last().stmts);
        assert forall|d: DefSite| #[trigger] r.contains(d) <==> is_def(g, d) by {
            if r.contains(d) {
                let k = choose|k: int| 0 <= k < r.len() && r[k] == d;
                if k < before.len() {
                    assert(before.contains(d));
                    assert(is_def(t, d));
                    assert(t[d.block.0 as int] == g[d.block.0 as int]);
                } else {
                    assert(own[k - before.len()] == d);
                    assert(own.contains(d));
                    assert(is_block_def(b, g.last().stmts, d));
                }
            }
            if is_def(g, d) {
                if d.block.0 < b {
                    assert(t[d.block.0 as int] == g[d.block.0 as int]);
                    assert(is_def(t, d));
                    assert(before.contains(d));
                    let k = choose|k: int| 0 <= k < before.len() && before[k] == d;
                    assert(r[k] == d);
                } else {
                    assert(is_block_def(b, g.last().stmts, d));
                    assert(own.contains(d));
                    let k = choose|k: int| 0 <= k < own.len() && own[k] == d;
                    assert(r[before.len() + k] == d);
                }
            }
        }
        assert forall|i: int, j: int| 0 <= i < r.len() && 0 <= j < r.len() && i != j implies r[i]
            != r[j] by {
            if i < before.len() {
                assert(before[i] == r[i]);
                assert(before.contains(r[i]));
                assert(is_def(t, r[i]));
            } else {
                assert(own[i - before.len()] == r[i]);
                assert(own.contains(r[i]));
            }
            if j < before.len() {
                assert(before[j] == r[j]);
                assert(before.contains(r[j]));
                assert(is_def(t, r[j]));
            } else {
                assert(own[j - before.len()] == r[j]);
                assert(own.contains(r[j]));
            }
        }
    }
}

/// The assignments in a graph.
pub fn collect_defs(cfg: &CFG) -> (r: Vec<DefSite>)
    ensures
        r@ == all_defs(cfg@),
{
    let ghost g = cfg@;
    let mut out: Vec<DefSite> = Vec::new();
    let mut b: usize = 0;
    assert(out@ =~= Seq::empty());
    while b < cfg.blocks.len()
        invariant
            b <= cfg.blocks.len(),
            g == cfg@,
            out@ == all_defs(g.take(b as int)),
        decreases cfg.blocks.len() - b,
    {
        assert(g.take(b + 1).drop_last() =~= g.take(b as int));
        let stmts = &cfg.blocks[b].statements;
        let ghost before = out@;
        let ghost all = model::stmts(stmts@);
        assert(g[b as int].stmts == all);
        let mut i: usize = 0;
        assert(before + block_defs(b as int, all.take(0)) =~= before);
        while i < stmts.len()
            invariant
                i <= stmts.len(),
                all == model::stmts(stmts@),
                out@ == before + block_defs(b as int, all.take(i as int)),
            decreases stmts.len() - i,
        {
            assert(all.take(i + 1).drop_last() =~= all.take(i as int));
            assert(all[i as int] == stmts@[i as int]@);
            let ghost known = block_defs(b as int, all.take(i as int));
            if let Some((r, _)) = as_assigned(&stmts[i]) {
                let d = DefSite { block: BlockId(b), stmt_index: i, register: r };
                out.push(d);
                assert(out@ =~= before + known.push(d));
            }
            i += 1;
        }
        assert(all.take(all.len() as int) =~= all);
        b += 1;
    }
    assert(g.take(g.len() as int) =~= g);
    out
}

/// The position of the last of the first `n` statements that assigns `r`.
pub fn find_last_def(stmts: &Vec<Statement>, n: usize, r: u32) -> (res: Option<usize>)
    requires
        n <= stmts.len(),
    ensures
        match res {
            Some(i) => last_def(model::stmts(stmts@), n as int, r) == Some(i as int) && i < n,
            None => last_def(model::stmts(stmts@), n as int, r) is None,
        },
{
    let ghost all = model::stmts(stmts@);
    let mut i: usize = n;
    while i > 0
        invariant
            i <= n <= stmts.len(),
            all == model::stmts(stmts@),
            last_def(all, n as int, r) == last_def(all, i as int, r),
        decreases i,
    {
        assert(all[i - 1] == stmts@[i - 1]@);
        if let Some((x, _)) = as_assigned(&stmts[i - 1]) {
            if x == r {
                return Some(i - 1);
            }
        }
        i -= 1;
    }
    None
}

/// The entries of a table that are not set.
pub open spec fn unset_row(s: Seq<bool>) -> nat
    decreases s.len(),
{
    if s.len() == 0 {
        0
    } else if s.last() {
        unset_row(s.drop_last())
    } else {
        unset_row(s.drop_last()) + 1
    }
}

pub open spec fn unset(m: Seq<Vec<bool>>) -> nat
    decreases m.len(),
{
    if m.len() == 0 {
        0
    } else {
        unset(m.drop_last()) + unset_row(m.last()@)
    }
}

proof fn lemma_set_row(s: Seq<bool>, i: int)
    requires
        0 <= i < s.len(),
        !s[i],
    ensures
        unset_row(s.update(i, true)) + 1 == unset_row(s),
    decreases s.len(),
{
    let t = s.update(i, true);
    if i == s.len() - 1 {
        assert(t.drop_last() =~= s.drop_last());
    } else {
        assert(t.drop_last() =~= s.drop_last().update(i, true));
        lemma_set_row(s.drop_last(), i);
    }
}

proof fn lemma_set_entry(m: Seq<Vec<bool>>, t: Seq<Vec<bool>>, b: int, i: int)
    requires
        0 <= b < m.len(),
        0 <= i < m[b]@.len(),
        !m[b]@[i],
        t.len() == m.len(),
        t[b]@ == m[b]@.update(i, true),
        forall|k: int| 0 <= k < m.len() && k != b ==> t[k] == m[k],
    ensures
        unset(t) + 1 == unset(m),
    decreases m.len(),
{
    if b == m.len() - 1 {
        assert(t.drop_last() =~= m.drop_last());
        lemma_set_row(m[b]@, i);
    } else {
        lemma_set_entry(m.drop_last(), t.drop_last(), b, i);
    }
}

/// What is known of the assignments that reach the start of each block: one row per block, one
/// entry per assignment.
pub struct ReachingDefs {
    pub defs: Vec<DefSite>,
    pub table: Vec<Vec<bool>>,
}

impl ReachingDefs {
    /// Whether the table has an entry for each block and assignment of the graph, set only
    /// where the assignment reaches the block.
    pub open spec fn sound(&self, g: Seq<Node>) -> bool {
        &&& self.defs@ == all_defs(g)
        &&& self.table@.len() == g.len()
        &&& forall|b: int|
            0 <= b < g.len() ==> (#[trigger] self.table@[b])@.len() == self.defs@.len()
        &&& forall|b: int, i: int|
            0 <= b < g.len() && 0 <= i < self.defs@.len() && #[trigger] self.table@[b]@[i]
                ==> reaches(g, b, self.defs@[i])
    }

    /// Whether the table says exactly which assignments reach which blocks.
    pub open spec fn exact(&self, g: Seq<Node>) -> bool {
        &&& self.sound(g)
        &&& forall|b: int, i: int|
            0 <= b < g.len() && 0 <= i < self.defs@.len() ==> (#[trigger] self.table@[b]@[i]
                <==> reaches(g, b, self.defs@[i]))
    }
}

/// The positions in a graph are machine integers.
pub proof fn lemma_graph_fits(cfg: &CFG)
    ensures
        cfg@.len() <= usize::MAX,
        forall|b: int| 0 <= b < cfg@.len() ==> (#[trigger] cfg@[b]).stmts.len() <= usize::MAX,
{
    assert(cfg.blocks.len() <= usize::MAX);
    assert forall|b: int| 0 <= b < cfg@.len() implies (#[trigger] cfg@[b]).stmts.len()
        <= usize::MAX by {
        assert(cfg.blocks@[b].statements.len() <= usize::MAX);
    }
}

fn leaves_block(cfg: &CFG, b: usize, d: DefSite, enters: bool) -> (r: bool)
    requires
        b < cfg.blocks.len(),
    ensures
        r == leaves(cfg@, b as int, d, enters),
{
    let stmts = &cfg.blocks[b].statements;
    assert(cfg@[b as int].stmts == model::stmts(stmts@));
    match find_last_def(stmts, stmts.len(), d.register) {
        Some(i) => d.block.0 == b && d.stmt_index == i,
        None => enters,
    }
}

fn targets(t: &Terminator) -> (r: Vec<BlockId>)
    ensures
        forall|b: int|
            cfg::leads_to(t@, b) <==> exists|i: int| 0 <= i < r@.len() && (#[trigger] r@[i]).0 == b,
{
    let mut out: Vec<BlockId> = Vec::new();
    match t {
        Terminator::Jump(b) => {
            out.push(*b);
            assert(out@[0].0 == b.0);
        },
        Terminator::Branch { true_target, false_target, .. } => {
            out.push(*true_target);
            out.push(*false_target);
            assert(out@[0].0 == true_target.0);
            assert(out@[1].0 == false_target.0);
        },
        Terminator::Switch { cases, default, .. } => {
            out.push(*default);
            let mut i: usize = 0;
            while i < cases.len()
                invariant
                    i <= cases.len(),
                    out.len() == i + 1,
                    out@[0] == *default,
                    forall|k: int| 0 <= k < i ==> #[trigger] out@[k + 1] == cases@[k].1,
                decreases cases.len() - i,
            {
                out.push(cases[i].1);
                i += 1;
            }
            let ghost arms = cfg::arms(cases@);
            assert(t@ matches Term::Switch { cases: c, default: d, .. } && c == arms && d == *default);
            assert forall|b: int|
                cfg::leads_to(t@, b) <==> exists|i: int|
                    0 <= i < out@.len() && (#[trigger] out@[i]).0 == b by {
                if cfg::leads_to(t@, b) {
                    if default.0 == b {
                        assert(out@[0].0 == b);
                    } else {
                        let k = choose|k: int|
                            0 <= k < arms.len() && (#[trigger] arms[k]).1.0 == b;
                        assert(arms[k] == cfg::arm(cases@[k]));
                        assert(out@[k + 1] == cases@[k].1);
                        assert(out@[k + 1].0 == b);
                    }
                }
                if exists|i: int| 0 <= i < out@.len() && (#[trigger] out@[i]).0 == b {
                    let i = choose|i: int| 0 <= i < out@.len() && (#[trigger] out@[i]).0 == b;
                    if i > 0 {
                        assert(out@[(i - 1) + 1] == cases@[i - 1].1);
                        assert(arms[i - 1] == cfg::arm(cases@[i - 1]));
                        assert(arms[i - 1].1.0 == b);
                    }
                }
            }
        },
        _ => {},
    }
    out
}

/// Whether the table takes in all that leaves the blocks before `n`.
pub open spec fn closed_below(rd: ReachingDefs, g: Seq<Node>, n: int) -> bool {
    forall|p: int, b: int, i: int|
        #![trigger rd.table@[p]@[i], rd.table@[b]@[i]]
        0 <= p < n && 0 <= b < g.len() && 0 <= i < rd.defs@.len() && cfg::leads_to(g[p].term, b)
            && leaves(g, p, rd.defs@[i], rd.table@[p]@[i]) ==> rd.table@[b]@[i]
}

proof fn lemma_closed_is_exact(rd: ReachingDefs, g: Seq<Node>, n: nat, b: int, i: int)
    requires
        rd.sound(g),
        closed_below(rd, g, g.len() as int),
        0 <= b < g.len(),
        0 <= i < rd.defs@.len(),
        reaches_in(g, n, b, rd.defs@[i]),
    ensures
        rd.table@[b]@[i],
    decreases n,
{
    let d = rd.defs@[i];
    let p = choose|p: int|
        0 <= p < g.len() && cfg::leads_to(#[trigger] g[p].term, b) && leaves(
            g,
            p,
            d,
            reaches_in(g, (n - 1) as nat, p, d),
        );
    if reaches_in(g, (n - 1) as nat, p, d) {
        lemma_closed_is_exact(rd, g, (n - 1) as nat, p, i);
    }
    assert(leaves(g, p, d, rd.table@[p]@[i]));
}

proof fn lemma_leaving_reaches(g: Seq<Node>, p: int, b: int, d: DefSite, enters: bool)
    requires
        0 <= p < g.len(),
        is_def(g, d),
        cfg::leads_to(g[p].term, b),
        leaves(g, p, d, enters),
        enters ==> reaches(g, p, d),
    ensures
        reaches(g, b, d),
{
    if enters {
        let n = choose|n: nat| reaches_in(g, n, p, d);
        assert(leaves(g, p, d, reaches_in(g, n, p, d)));
        assert(reaches_in(g, n + 1, b, d));
    } else {
        assert(leaves(g, p, d, reaches_in(g, 0, p, d)));
        assert(reaches_in(g, 1, b, d));
    }
}

impl ReachingDefs {
    /// Hands the assignments that leave block `p` on to block `b`.
    fn hand_on(&mut self, cfg: &CFG, p: usize, b: usize) -> (changed: bool)
        requires
            old(self).sound(cfg@),
            p < cfg@.len(),
            b < cfg@.len(),
            cfg::leads_to(cfg@[p as int].term, b as int),
        ensures
            final(self).sound(cfg@),
            changed ==> unset(final(self).table@) < unset(old(self).table@),
            !changed ==> *final(self) == *old(self) && forall|i: int|
                0 <= i < final(self).defs@.len() && leaves(
                    cfg@,
                    p as int,
                    final(self).defs@[i],
                    #[trigger] final(self).table@[p as int]@[i],
                ) ==> final(self).table@[b as int]@[i],
    {
        let ghost g = cfg@;
        let ghost first = *self;
        let mut changed: bool = false;
        let mut i: usize = 0;
        proof {
            lemma_graph_fits(cfg);
            lemma_all_defs(g);
        }
        while i < self.defs.len()
            invariant
                i <= self.defs.len(),
                g == cfg@,
                p < g.len(),
                b < g.len(),
                p < cfg.blocks.len(),
                cfg::leads_to(g[p as int].term, b as int),
                self.sound(g),
                forall|d: DefSite| #[trigger] all_defs(g).contains(d) <==> is_def(g, d),
                changed ==> unset(self.table@) < unset(first.table@),
                !changed ==> *self == first && forall|k: int|
                    0 <= k < i && leaves(
                        g,
                        p as int,
                        self.defs@[k],
                        #[trigger] self.table@[p as int]@[k],
                    ) ==> self.table@[b as int]@[k],
            decreases self.defs.len() - i,
        {
            let d: DefSite = self.defs[i];
            let enters: bool = self.table[p][i];
            if !self.table[b][i] && leaves_block(cfg, p, d, enters) {
                let ghost before = *self;
                proof {
                    assert(self.defs@.contains(d));
                    assert(is_def(g, d));
                    if enters {
                        assert(self.table@[p as int]@[i as int]);
                    }
                    lemma_leaving_reaches(g, p as int, b as int, d, enters);
                }
                let mut row: Vec<bool> = self.table[b].clone();
                assert(row@ =~= before.table@[b as int]@);
                row.set(i, true);
                self.table.set(b, row);
                changed = true;
                proof {
                    lemma_set_entry(before.table@, self.table@, b as int, i as int);
                    assert forall|c: int| 0 <= c < g.len() implies (
                    #[trigger] self.table@[c])@.len() == self.defs@.len() by {
                        assert(before.table@[c]@.len() == before.defs@.len());
                    }
                    assert forall|c: int, k: int|
                        0 <= c < g.len() && 0 <= k < self.defs@.len()
                            && #[trigger] self.table@[c]@[k] implies reaches(
                        g,
                        c,
                        self.defs@[k],
                    ) by {
                        if c != b || k != i {
                            assert(before.table@[c]@[k]);
                        }
                    }
                }
            }
            i += 1;
        }
        changed
    }

    /// The assignments that reach each block.
    pub fn analyze(cfg: &CFG) -> (r: ReachingDefs)
        ensures
            r.exact(cfg@),
    {
        let ghost g = cfg@;
        let defs = collect_defs(cfg);
        let mut table: Vec<Vec<bool>> = Vec::new();
        while table.len() < cfg.blocks.len()
            invariant
                table.len() <= cfg.blocks.len(),
                forall|b: int| 0 <= b < table@.len() ==> (#[trigger] table@[b])@.len() == defs@.len(),
                forall|b: int, i: int|
                    0 <= b < table@.len() && 0 <= i < defs@.len() ==> !#[trigger] table@[b]@[i],
            decreases cfg.blocks.len() - table.len(),
        {
            let mut row: Vec<bool> = Vec::new();
            while row.len() < defs.len()
                invariant
                    row.len() <= defs.len(),
                    forall|i: int| 0 <= i < row@.len() ==> !#[trigger] row@[i],
                decreases defs.len() - row.len(),
            {
                row.push(false);
            }
            table.push(row);
        }
        let mut rd = ReachingDefs { defs, table };
        let mut changed: bool = true;
        while changed
            invariant
                g == cfg@,
                rd.sound(g),
                !changed ==> closed_below(rd, g, g.len() as int),
            decreases
                    unset(rd.table@),
                    (if changed {
                        1int
                    } else {
                        0int
                    }),
        {
            let ghost first = rd;
            changed = false;
            let mut p: usize = 0;
            while p < cfg.blocks.len()
                invariant
                    p <= cfg.blocks.len(),
                    g == cfg@,
                    rd.sound(g),
                    changed ==> unset(rd.table@) < unset(first.table@),
                    !changed ==> rd == first && closed_below(rd, g, p as int),
                decreases cfg.blocks.len() - p,
            {
                let ts = targets(&cfg.blocks[p].terminator);
                assert(g[p as int].term == cfg.blocks@[p as int].terminator@);
                let mut k: usize = 0;
                while k < ts.len()
                    invariant
                        k <= ts.len(),
                        p < cfg.blocks.len(),
                        g == cfg@,
                        rd.sound(g),
                        forall|b: int|
                            cfg::leads_to(g[p as int].term, b) <==> exists|i: int|
                                0 <= i < ts@.len() && (#[trigger] ts@[i]).0 == b,
                        changed ==> unset(rd.table@) < unset(first.table@),
                        !changed ==> rd == first && closed_below(rd, g, p as int),
                        !changed ==> forall|j: int, i: int|
                            #![trigger ts@[j], rd.table@[p as int]@[i]]
                            0 <= j < k && ts@[j].0 < g.len() && 0 <= i < rd.defs@.len() && leaves(
                                g,
                                p as int,
                                rd.defs@[i],
                                rd.table@[p as int]@[i],
                            ) ==> rd.table@[ts@[j].0 as int]@[i],
                    decreases ts.len() - k,
                {
                    let b: usize = ts[k].0;
                    assert(ts@[k as int].0 == b);
                    assert(cfg::leads_to(g[p as int].term, b as int));
                    if b < cfg.blocks.len() {
                        if rd.hand_on(cfg, p, b) {
                            changed = true;
                        }
                    }
                    k += 1;
                }
                p += 1;
                proof {
                    if !changed {
                        assert forall|q: int, b: int, i: int|
                            #![trigger rd.table@[q]@[i], rd.table@[b]@[i]]
                            0 <= q < p && 0 <= b < g.len() && 0 <= i < rd.defs@.len()
                                && cfg::leads_to(g[q].term, b) && leaves(
                                g,
                                q,
                                rd.defs@[i],
                                rd.table@[q]@[i],
                            ) implies rd.table@[b]@[i] by {
                            if q == p - 1 {
                                let j = choose|j: int|
                                    0 <= j < ts@.len() && (#[trigger] ts@[j]).0 == b;
                                assert(rd.table@[ts@[j].0 as int]@[i]);
                            }
                        }
                    }
                }
            }
        }
        proof {
            assert forall|b: int, i: int|
                0 <= b < g.len() && 0 <= i < rd.defs@.len() implies (#[trigger] rd.table@[b]@[i]
                <==> reaches(g, b, rd.defs@[i])) by {
                if reaches(g, b, rd.defs@[i]) {
                    let n = choose|n: nat| reaches_in(g, n, b, rd.defs@[i]);
                    lemma_closed_is_exact(rd, g, n, b, i);
                }
            }
        }
        rd
    }
}

} // verus!
