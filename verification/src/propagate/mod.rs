//! Copy and constant propagation over a control-flow graph.

pub mod laws;
pub mod meaning_laws;
pub mod reaching;
pub mod reaching_laws;
pub mod reaching_passes;
pub mod substitute;

use crate::dict::keys_in_order;
use crate::ir::cfg;
use crate::ir::cfg::{BasicBlock, Node, CFG};
use crate::ir::model;
use crate::ir::model::{Const, Expr, Key, Stmt, Target, Val};
use crate::ir::occurs;
use crate::ir::occurs::{Atom, Occurrence};
use crate::ir::{AssignTarget, Constant, Expression, PropertyKey, Statement, Value};
use crate::text;
use self::substitute::{substitute_stmt, substitute_terminator};
use std::collections::BTreeMap;
use vstd::prelude::*;

verus! {

/// How far propagation goes.
#[derive(Debug, Clone, Copy)]
pub struct PropagationConfig {
    /// The number of rounds; 0 stands for 10.
    pub max_iterations: usize,
}

impl Default for PropagationConfig {
    fn default() -> (r: PropagationConfig)
        ensures
            r.max_iterations == 0,
    {
        PropagationConfig { max_iterations: 0 }
    }
}

impl PropagationConfig {
    pub fn new() -> (r: PropagationConfig)
        ensures
            r.max_iterations == 10,
    {
        PropagationConfig { max_iterations: 10 }
    }

    /// The number of rounds at most.
    pub open spec fn rounds(&self) -> nat {
        if self.max_iterations == 0 {
            10
        } else {
            self.max_iterations as nat
        }
    }
}

/// The register that a statement assigns, and the value assigned.
pub open spec fn assigned(s: Stmt) -> Option<(u32, Expr)> {
    match s {
        Stmt::Assign { target: Target::Register(r), value } => Some((r, value)),
        _ => None,
    }
}

/// The register that a statement assigns, and the value assigned.
pub fn as_assigned(s: &Statement) -> (r: Option<(u32, &Expression)>)
    ensures
        match r {
            Some(p) => assigned(s@) == Some((p.0, p.1@)),
            None => assigned(s@) is None,
        },
{
    match s {
        Statement::Assign { target: AssignTarget::Register(n), value } => Some((*n, value)),
        _ => None,
    }
}

/// The registers assigned, each with its value where it is assigned exactly once.
pub open spec fn sole_values(s: Seq<Stmt>) -> Map<u32, Option<Expr>>
    decreases s.len(),
{
    if s.len() == 0 {
        Map::empty()
    } else {
        let before = sole_values(s.drop_last());
        match assigned(s.last()) {
            Some(p) => before.insert(
                p.0,
                if before.dom().contains(p.0) {
                    None
                } else {
                    Some(p.1)
                },
            ),
            None => before,
        }
    }
}

/// The statements of a graph, block after block.
pub open spec fn all_stmts(g: Seq<Node>) -> Seq<Stmt>
    decreases g.len(),
{
    if g.len() == 0 {
        Seq::empty()
    } else {
        all_stmts(g.drop_last()) + g.last().stmts
    }
}

/// A value that is the same everywhere in a function.
pub open spec fn is_invariant(e: Expr) -> bool {
    match e {
        Expr::Value(Val::Parameter(_)) => true,
        Expr::Value(Val::Global) => true,
        Expr::Value(Val::Constant(_)) => true,
        _ => false,
    }
}

/// The invariant value of a register that is assigned once, followed through copies of such
/// registers. Chains longer than 16 copies are given up.
pub open spec fn invariant_value(m: Map<u32, Option<Expr>>, r: u32, depth: nat) -> Option<Expr>
    decreases 17 - depth,
{
    if depth > 16 || !m.dom().contains(r) {
        None
    } else {
        match m[r] {
            None => None,
            Some(v) => if is_invariant(v) {
                Some(v)
            } else {
                match v {
                    Expr::Value(Val::Register(b)) => invariant_value(m, b, depth + 1),
                    _ => None,
                }
            },
        }
    }
}

/// The registers that hold the same value everywhere, with that value.
pub open spec fn invariants(m: Map<u32, Option<Expr>>) -> Map<u32, Expr> {
    Map::new(
        |r: u32| invariant_value(m, r, 0) is Some,
        |r: u32| invariant_value(m, r, 0)->0,
    )
}

/// A block with registers replaced by the same values throughout.
pub open spec fn subst_node(n: Node, m: Map<u32, Expr>) -> Node {
    Node {
        stmts: n.stmts.map_values(|s: Stmt| substitute::subst_stmt(s, m)),
        term: substitute::subst_term(n.term, m),
    }
}

/// The graph once the invariant registers are replaced.
pub open spec fn without_invariants(g: Seq<Node>) -> Seq<Node> {
    let m = invariants(sole_values(all_stmts(g)));
    if m.dom() == Set::<u32>::empty() {
        g
    } else {
        g.map_values(|n: Node| subst_node(n, m))
    }
}

/// A value that may take the place of the register it is assigned to. The caught exception stays
/// with its register, which becomes the catch parameter.
pub open spec fn propagatable(e: Expr) -> bool {
    match e {
        Expr::Value(Val::Variable(n)) => n != "__exception"@,
        Expr::Value(_) => true,
        Expr::Member { object, property: Key::Ident(_), optional: false } => match *object {
            Expr::Value(Val::Global) => true,
            Expr::Value(Val::Constant(Const::String(_))) => true,
            _ => false,
        },
        _ => false,
    }
}

/// Whether an expression reads a register.
pub open spec fn reads(e: Expr, r: u32) -> bool {
    occurs::expr_atoms(e).contains(Atom::Use(Val::Register(r)))
}

/// The copies that a redefinition of `r` leaves: none of `r`, and none whose value reads it.
pub open spec fn kept(m: Map<u32, Expr>, r: u32) -> Map<u32, Expr> {
    m.restrict(m.dom().filter(|x: u32| x != r && !reads(m[x], r)))
}

/// The statements rewritten so far and the copies known at that point.
#[verifier::ext_equal]
pub struct Progress {
    pub copies: Map<u32, Expr>,
    pub stmts: Seq<Stmt>,
}

/// The copies known after a statement.
pub open spec fn copies_after(m: Map<u32, Expr>, t: Stmt) -> Map<u32, Expr> {
    match assigned(t) {
        Some(d) => if propagatable(d.1) {
            kept(m, d.0).insert(d.0, d.1)
        } else {
            kept(m, d.0)
        },
        None => m,
    }
}

/// One statement of a block: rewritten with the copies known, which it may then change.
pub open spec fn block_step(p: Progress, s: Stmt) -> Progress {
    let t = substitute::subst_stmt(s, p.copies);
    Progress { copies: copies_after(p.copies, t), stmts: p.stmts.push(t) }
}

pub open spec fn block_walk(s: Seq<Stmt>) -> Progress
    decreases s.len(),
{
    if s.len() == 0 {
        Progress { copies: Map::empty(), stmts: Seq::empty() }
    } else {
        block_step(block_walk(s.drop_last()), s.last())
    }
}

/// A block after one round of propagation inside it.
pub open spec fn propagated_node(n: Node) -> Node {
    let p = block_walk(n.stmts);
    Node { stmts: p.stmts, term: substitute::subst_term(n.term, p.copies) }
}

pub open spec fn propagated_once(g: Seq<Node>) -> Seq<Node> {
    g.map_values(|n: Node| propagated_node(n))
}

/// The graph after `n` rounds of propagation inside blocks.
pub open spec fn propagated_times(g: Seq<Node>, n: nat) -> Seq<Node>
    decreases n,
{
    if n == 0 {
        g
    } else {
        propagated_once(propagated_times(g, (n - 1) as nat))
    }
}

/// Once a round changes nothing, no later round does.
pub proof fn lemma_propagation_settles(g: Seq<Node>, n: nat, m: nat)
    requires
        propagated_times(g, n + 1) == propagated_times(g, n),
        n <= m,
    ensures
        propagated_times(g, m) == propagated_times(g, n),
    decreases m - n,
{
    if n < m {
        lemma_propagation_settles(g, n, (m - 1) as nat);
    }
}

proof fn lemma_sole_values_append(a: Seq<Stmt>, b: Seq<Stmt>, i: int)
    requires
        0 <= i < b.len(),
    ensures
        (a + b.take(i + 1)).drop_last() == a + b.take(i),
        (a + b.take(i + 1)).last() == b[i],
{
    assert((a + b.take(i + 1)).drop_last() =~= a + b.take(i));
}

/// The model of the registers assigned.
pub open spec fn soles(m: Map<u32, Option<Expression>>) -> Map<u32, Option<Expr>> {
    m.map_values(|o: Option<Expression>| model::opt_expr(o))
}

/// The registers assigned in a graph, each with its value where it is assigned exactly once.
pub fn find_sole_values(cfg: &CFG) -> (r: BTreeMap<u32, Option<Expression>>)
    ensures
        soles(r@) == sole_values(all_stmts(cfg@)),
{
    broadcast use vstd::std_specs::btree::group_btree_axioms;

    let ghost g = cfg@;
    let mut out: BTreeMap<u32, Option<Expression>> = BTreeMap::new();
    let mut i: usize = 0;
    assert(soles(out@) =~= Map::empty());
    while i < cfg.blocks.len()
        invariant
            i <= cfg.blocks.len(),
            g == cfg@,
            soles(out@) == sole_values(all_stmts(g.take(i as int))),
        decreases cfg.blocks.len() - i,
    {
        assert(g.take(i + 1).drop_last() =~= g.take(i as int));
        let stmts = &cfg.blocks[i].statements;
        let ghost before = all_stmts(g.take(i as int));
        let ghost all = model::stmts(stmts@);
        assert(g[i as int].stmts == all);
        let mut j: usize = 0;
        assert(before + all.take(0) =~= before);
        while j < stmts.len()
            invariant
                j <= stmts.len(),
                all == model::stmts(stmts@),
                soles(out@) == sole_values(before + all.take(j as int)),
            decreases stmts.len() - j,
        {
            broadcast use vstd::std_specs::btree::group_btree_axioms;

            assert(all[j as int] == stmts@[j as int]@);
            proof {
                lemma_sole_values_append(before, all, j as int);
            }
            if let Some((r, v)) = as_assigned(&stmts[j]) {
                let ghost old = out@;
                let value: Option<Expression> = if out.contains_key(&r) {
                    None
                } else {
                    Some(v.clone())
                };
                let ghost o = model::opt_expr(value);
                out.insert(r, value);
                assert(soles(out@) =~= soles(old).insert(r, o));
            }
            j += 1;
        }
        assert(all.take(all.len() as int) =~= all);
        i += 1;
    }
    assert(g.take(g.len() as int) =~= g);
    out
}

fn resolve_invariant_register(
    r: u32,
    values: &BTreeMap<u32, Option<Expression>>,
    depth: u8,
) -> (res: Option<Expression>)
    requires
        depth <= 17,
    ensures
        model::opt_expr(res) == invariant_value(soles(values@), r, depth as nat),
    decreases 17 - depth,
{
    broadcast use vstd::std_specs::btree::group_btree_axioms;

    if depth > 16 {
        return None;
    }
    match values.get(&r) {
        Some(o) => {
            assert(soles(values@)[r] == model::opt_expr(*o));
            match o {
                Some(v) => match v {
                    Expression::Value(Value::Parameter(_)) | Expression::Value(
                        Value::Global,
                    ) | Expression::Value(Value::Constant(_)) => Some(v.clone()),
                    Expression::Value(Value::Register(b)) => resolve_invariant_register(
                        *b,
                        values,
                        depth + 1,
                    ),
                    _ => None,
                },
                None => None,
            }
        },
        None => None,
    }
}

/// The registers that hold the same value everywhere, or nothing where there is none.
fn global_invariant_copies(cfg: &CFG) -> (r: Option<BTreeMap<u32, Expression>>)
    ensures
        match r {
            Some(m) => substitute::held(m@) == invariants(sole_values(all_stmts(cfg@)))
                && substitute::held(m@).dom() != Set::<u32>::empty(),
            None => invariants(sole_values(all_stmts(cfg@))).dom() == Set::<u32>::empty(),
        },
{
    broadcast use vstd::std_specs::btree::group_btree_axioms;

    let values = find_sole_values(cfg);
    let ghost m = sole_values(all_stmts(cfg@));
    let keys = keys_in_order(&values);
    let mut out: BTreeMap<u32, Expression> = BTreeMap::new();
    let mut any: bool = false;
    let mut i: usize = 0;
    assert(substitute::held(out@).dom() =~= Set::<u32>::empty());
    while i < keys.len()
        invariant
            i <= keys.len(),
            m == soles(values@),
            any == (substitute::held(out@).dom() != Set::<u32>::empty()),
            forall|r: u32| #[trigger]
                substitute::held(out@).dom().contains(r) <==> keys@.take(i as int).contains(r)
                    && invariant_value(m, r, 0) is Some,
            forall|r: u32| #[trigger]
                substitute::held(out@).dom().contains(r) ==> invariant_value(m, r, 0) == Some(
                    substitute::held(out@)[r],
                ),
        decreases keys.len() - i,
    {
        broadcast use vstd::std_specs::btree::group_btree_axioms;

        let r: u32 = keys[i];
        let ghost before = substitute::held(out@);
        let ghost known = keys@.take(i as int);
        let ghost next = keys@.take(i + 1);
        assert(next =~= known.push(r));
        assert forall|x: u32| #[trigger] next.contains(x) <==> known.contains(x) || x == r by {
            if known.contains(x) {
                let k = choose|k: int| 0 <= k < known.len() && known[k] == x;
                assert(next[k] == x);
            }
            assert(next[i as int] == r);
        }
        if let Some(v) = resolve_invariant_register(r, &values, 0) {
            let ghost e = v@;
            out.insert(r, v);
            any = true;
            assert(substitute::held(out@) =~= before.insert(r, e));
            assert(substitute::held(out@).dom().contains(r));
        }
        i += 1;
    }
    assert(keys@.take(keys@.len() as int) =~= keys@);
    assert forall|r: u32| substitute::held(out@).dom().contains(r) == invariants(
        m,
    ).dom().contains(r) by {
        if invariant_value(m, r, 0) is Some {
            assert(m.dom().contains(r));
            assert(values@.dom().contains(r));
            assert(keys@.contains(r));
        }
    }
    assert(substitute::held(out@) =~= invariants(m));
    if any {
        Some(out)
    } else {
        None
    }
}

fn substitute_block(b: &BasicBlock, copies: &BTreeMap<u32, Expression>) -> (r: BasicBlock)
    ensures
        r@ == subst_node(b@, substitute::held(copies@)),
{
    let ghost m = substitute::held(copies@);
    let mut out: Vec<Statement> = Vec::new();
    let mut i: usize = 0;
    while i < b.statements.len()
        invariant
            i <= b.statements.len(),
            out.len() == i,
            m == substitute::held(copies@),
            forall|k: int|
                0 <= k < i ==> (#[trigger] out@[k])@ == substitute::subst_stmt(
                    b.statements@[k]@,
                    m,
                ),
        decreases b.statements.len() - i,
    {
        out.push(substitute_stmt(&b.statements[i], copies));
        i += 1;
    }
    assert(model::stmts(out@) =~= subst_node(b@, m).stmts);
    BasicBlock { statements: out, terminator: substitute_terminator(&b.terminator, copies) }
}

fn is_propagatable(e: &Expression) -> (r: bool)
    ensures
        r == propagatable(e@),
{
    proof {
        reveal_with_fuel(Expression::view, 3);
        reveal_with_fuel(PropertyKey::view, 2);
    }
    match e {
        Expression::Value(Value::Variable(n)) => !text::same(n, "__exception"),
        Expression::Value(_) => true,
        Expression::Member { object, property: PropertyKey::Ident(_), optional: false } => {
            match &**object {
                Expression::Value(Value::Global) => true,
                Expression::Value(Value::Constant(Constant::String(_))) => true,
                _ => false,
            }
        },
        _ => false,
    }
}

/// Whether an expression reads a register.
pub fn expr_uses_register(e: &Expression, r: u32) -> (res: bool)
    ensures
        res == reads(e@, r),
{
    occurs::has(&occurs::of_expr(e), &Occurrence::Use(Value::Register(r)))
}

fn drop_copies(copies: &mut BTreeMap<u32, Expression>, r: u32)
    ensures
        substitute::held(final(copies)@) == kept(substitute::held(old(copies)@), r),
{
    broadcast use vstd::std_specs::btree::group_btree_axioms;

    let ghost all = substitute::held(copies@);
    let keys = keys_in_order(copies);
    let mut out: BTreeMap<u32, Expression> = BTreeMap::new();
    let mut i: usize = 0;
    while i < keys.len()
        invariant
            i <= keys.len(),
            all == substitute::held(copies@),
            forall|x: u32| #[trigger]
                substitute::held(out@).dom().contains(x) <==> keys@.take(i as int).contains(x)
                    && all.dom().contains(x) && x != r && !reads(all[x], r),
            forall|x: u32| #[trigger]
                substitute::held(out@).dom().contains(x) ==> substitute::held(out@)[x] == all[x],
        decreases keys.len() - i,
    {
        broadcast use vstd::std_specs::btree::group_btree_axioms;

        let k: u32 = keys[i];
        let ghost before = substitute::held(out@);
        let ghost known = keys@.take(i as int);
        let ghost next = keys@.take(i + 1);
        assert(next =~= known.push(k));
        assert forall|x: u32| #[trigger] next.contains(x) <==> known.contains(x) || x == k by {
            if known.contains(x) {
                let n = choose|n: int| 0 <= n < known.len() && known[n] == x;
                assert(next[n] == x);
            }
            assert(next[i as int] == k);
        }
        if let Some(v) = copies.get(&k) {
            assert(all[k] == v@);
            if k != r && !expr_uses_register(v, r) {
                let ghost e = v@;
                out.insert(k, v.clone());
                assert(substitute::held(out@) =~= before.insert(k, e));
            }
        }
        i += 1;
    }
    assert(keys@.take(keys@.len() as int) =~= keys@);
    *copies = out;
    assert forall|x: u32| substitute::held(copies@).dom().contains(x) == kept(
        all,
        r,
    ).dom().contains(x) by {
        if all.dom().contains(x) {
            assert(keys@.contains(x));
        }
    }
    assert(substitute::held(copies@) =~= kept(all, r));
}

fn note_statement(copies: &mut BTreeMap<u32, Expression>, t: &Statement)
    ensures
        substitute::held(final(copies)@) == copies_after(substitute::held(old(copies)@), t@),
{
    broadcast use vstd::std_specs::btree::group_btree_axioms;

    if let Some((r, v)) = as_assigned(t) {
        drop_copies(copies, r);
        if is_propagatable(v) {
            let ghost left = substitute::held(copies@);
            copies.insert(r, v.clone());
            assert(substitute::held(copies@) =~= left.insert(r, v@));
        }
    }
}

proof fn lemma_push_differs<A>(a: Seq<A>, b: Seq<A>, x: A, y: A)
    ensures
        (a.push(x) == b.push(y)) == (a == b && x == y),
{
    if a.push(x) == b.push(y) {
        assert(a =~= a.push(x).drop_last());
        assert(b =~= b.push(y).drop_last());
        assert(a.push(x).last() == x);
        assert(b.push(y).last() == y);
    }
}

/// Propagates inside one block, and says whether that changes it.
fn propagate_block(b: &BasicBlock) -> (r: (BasicBlock, bool))
    ensures
        r.0@ == propagated_node(b@),
        r.1 == (r.0@ != b@),
{
    broadcast use vstd::std_specs::btree::group_btree_axioms;

    let stmts = &b.statements;
    let ghost all = model::stmts(stmts@);
    let mut copies: BTreeMap<u32, Expression> = BTreeMap::new();
    let mut out: Vec<Statement> = Vec::new();
    let mut changed: bool = false;
    let mut i: usize = 0;
    assert(substitute::held(copies@) =~= Map::empty());
    assert(model::stmts(out@) =~= Seq::empty());
    assert(all.take(0) =~= Seq::empty());
    while i < stmts.len()
        invariant
            i <= stmts.len(),
            all == model::stmts(stmts@),
            out.len() == i,
            block_walk(all.take(i as int)) == (Progress {
                copies: substitute::held(copies@),
                stmts: model::stmts(out@),
            }),
            changed == (model::stmts(out@) != all.take(i as int)),
        decreases stmts.len() - i,
    {
        broadcast use vstd::std_specs::btree::group_btree_axioms;

        assert(all.take(i + 1).drop_last() =~= all.take(i as int));
        assert(all[i as int] == stmts@[i as int]@);
        let ghost before = out@;
        let t = substitute_stmt(&stmts[i], &copies);
        let ghost new = t@;
        if !t.same(&stmts[i]) {
            changed = true;
        }
        note_statement(&mut copies, &t);
        out.push(t);
        i += 1;
        assert(model::stmts(out@) =~= model::stmts(before).push(new));
        proof {
            assert(all.take(i as int) =~= all.take(i - 1).push(all[i - 1]));
            lemma_push_differs(model::stmts(before), all.take(i - 1), new, all[i - 1]);
        }
    }
    assert(all.take(all.len() as int) =~= all);
    let terminator = substitute_terminator(&b.terminator, &copies);
    if !terminator.same(&b.terminator) {
        changed = true;
    }
    (BasicBlock { statements: out, terminator }, changed)
}

fn propagate_round(cfg: &mut CFG) -> (changed: bool)
    ensures
        final(cfg)@ == propagated_once(old(cfg)@),
        changed == (final(cfg)@ != old(cfg)@),
{
    let ghost g = cfg@;
    let mut out: Vec<BasicBlock> = Vec::new();
    let mut changed: bool = false;
    let mut i: usize = 0;
    while i < cfg.blocks.len()
        invariant
            i <= cfg.blocks.len(),
            g == cfg@,
            out.len() == i,
            forall|k: int| 0 <= k < i ==> (#[trigger] out@[k])@ == propagated_node(g[k]),
            changed == exists|k: int| 0 <= k < i && (#[trigger] out@[k])@ != g[k],
        decreases cfg.blocks.len() - i,
    {
        let ghost before = out@;
        let (b, c) = propagate_block(&cfg.blocks[i]);
        out.push(b);
        assert(out@[i as int] == b);
        assert(forall|k: int| 0 <= k < i ==> out@[k] == before[k]);
        if c {
            changed = true;
        }
        i += 1;
    }
    cfg.blocks = out;
    assert(cfg@ =~= propagated_once(g));
    proof {
        if changed {
            let k = choose|k: int| 0 <= k < g.len() && (#[trigger] out@[k])@ != g[k];
            assert(cfg@[k] != g[k]);
        } else {
            assert(cfg@ =~= g);
        }
    }
    changed
}

/// Replaces registers by the values they hold: first those that hold one value in the whole
/// function, then, round by round, those assigned in the same block.
pub fn propagate(cfg: &mut CFG, config: &PropagationConfig)
    ensures
        final(cfg)@ == propagated_times(without_invariants(old(cfg)@), config.rounds()),
{
    let rounds: usize = if config.max_iterations == 0 {
        10
    } else {
        config.max_iterations
    };
    let ghost first = cfg@;
    if let Some(m) = global_invariant_copies(cfg) {
        let ghost held = substitute::held(m@);
        let mut out: Vec<BasicBlock> = Vec::new();
        let mut i: usize = 0;
        while i < cfg.blocks.len()
            invariant
                i <= cfg.blocks.len(),
                first == cfg@,
                out.len() == i,
                held == substitute::held(m@),
                forall|k: int| 0 <= k < i ==> (#[trigger] out@[k])@ == subst_node(first[k], held),
            decreases cfg.blocks.len() - i,
        {
            out.push(substitute_block(&cfg.blocks[i], &m));
            i += 1;
        }
        cfg.blocks = out;
        assert(cfg@ =~= first.map_values(|n: Node| subst_node(n, held)));
    }
    let ghost g = without_invariants(first);
    assert(cfg@ == g);
    let mut n: usize = 0;
    while n < rounds
        invariant
            n <= rounds,
            rounds == config.rounds(),
            cfg@ == propagated_times(g, n as nat),
        ensures
            cfg@ == propagated_times(g, rounds as nat),
        decreases rounds - n,
    {
        let changed: bool = propagate_round(cfg);
        if !changed {
            proof {
                lemma_propagation_settles(g, n as nat, rounds as nat);
            }
            break;
        }
        n += 1;
    }
}

} // verus!
