//! Control-flow graphs.

use super::cloning::{clone_opt_expr, clone_stmts};
use super::model;
use super::model::{Expr, Stmt};
use super::{Expression, Statement};
use vstd::prelude::*;

verus! {

/// The position of a block in its graph.
#[derive(Debug, Clone, Copy, PartialEq, Eq, Structural)]
pub struct BlockId(pub usize);

/// How a block ends.
#[derive(Debug, PartialEq)]
#[allow(inconsistent_fields)]
pub enum Terminator {
    Jump(BlockId),
    Branch { condition: Expression, true_target: BlockId, false_target: BlockId },
    Return(Option<Expression>),
    Throw(Expression),
    Switch { value: Expression, cases: Vec<(Expression, BlockId)>, default: BlockId },
    Unreachable,
}

/// A straight run of statements.
#[derive(Debug, PartialEq)]
pub struct BasicBlock {
    pub statements: Vec<Statement>,
    pub terminator: Terminator,
}

/// A control-flow graph. The first block is the entry.
#[derive(Debug, PartialEq)]
pub struct CFG {
    pub blocks: Vec<BasicBlock>,
}

/// The mathematical model of a [`Terminator`].
#[verifier::ext_equal]
#[allow(inconsistent_fields)]
pub enum Term {
    Jump(BlockId),
    Branch { condition: Expr, true_target: BlockId, false_target: BlockId },
    Return(Option<Expr>),
    Throw(Expr),
    Switch { value: Expr, cases: Seq<(Expr, BlockId)>, default: BlockId },
    Unreachable,
}

/// The mathematical model of a [`BasicBlock`].
#[verifier::ext_equal]
pub struct Node {
    pub stmts: Seq<Stmt>,
    pub term: Term,
}

/// One arm of a switch terminator.
pub open spec fn arm(c: (Expression, BlockId)) -> (Expr, BlockId) {
    (c.0@, c.1)
}

pub open spec fn arms(s: Seq<(Expression, BlockId)>) -> Seq<(Expr, BlockId)> {
    s.map_values(|c: (Expression, BlockId)| arm(c))
}

/// The model of a list of blocks: the model of a graph.
pub open spec fn nodes(s: Seq<BasicBlock>) -> Seq<Node> {
    s.map_values(|b: BasicBlock| b@)
}

impl Terminator {
    pub open spec fn view(&self) -> Term {
        match self {
            Terminator::Jump(t) => Term::Jump(*t),
            Terminator::Branch { condition, true_target, false_target } => Term::Branch {
                condition: condition@,
                true_target: *true_target,
                false_target: *false_target,
            },
            Terminator::Return(e) => Term::Return(model::opt_expr(*e)),
            Terminator::Throw(e) => Term::Throw(e@),
            Terminator::Switch { value, cases, default } => Term::Switch {
                value: value@,
                cases: arms(cases@),
                default: *default,
            },
            Terminator::Unreachable => Term::Unreachable,
        }
    }

    /// Whether two terminators are the same.
    pub fn same(&self, other: &Terminator) -> (r: bool)
        ensures
            r == (self@ == other@),
    {
        match (self, other) {
            (Terminator::Jump(a), Terminator::Jump(b)) => *a == *b,
            (
                Terminator::Branch { condition: c, true_target: t, false_target: f },
                Terminator::Branch { condition: c2, true_target: t2, false_target: f2 },
            ) => c.same(c2) && *t == *t2 && *f == *f2,
            (Terminator::Return(a), Terminator::Return(b)) => super::equality::same_opt_expr(a, b),
            (Terminator::Throw(a), Terminator::Throw(b)) => a.same(b),
            (
                Terminator::Switch { value: v, cases: c, default: d },
                Terminator::Switch { value: v2, cases: c2, default: d2 },
            ) => v.same(v2) && same_arms(c, c2) && *d == *d2,
            (Terminator::Unreachable, Terminator::Unreachable) => true,
            _ => false,
        }
    }
}

impl Clone for Terminator {
    fn clone(&self) -> (r: Terminator)
        ensures
            r@ == self@,
    {
        match self {
            Terminator::Jump(t) => Terminator::Jump(*t),
            Terminator::Branch { condition, true_target, false_target } => Terminator::Branch {
                condition: condition.clone(),
                true_target: *true_target,
                false_target: *false_target,
            },
            Terminator::Return(e) => Terminator::Return(clone_opt_expr(e)),
            Terminator::Throw(e) => Terminator::Throw(e.clone()),
            Terminator::Switch { value, cases, default } => Terminator::Switch {
                value: value.clone(),
                cases: clone_arms(cases),
                default: *default,
            },
            Terminator::Unreachable => Terminator::Unreachable,
        }
    }
}

fn clone_arms(v: &Vec<(Expression, BlockId)>) -> (r: Vec<(Expression, BlockId)>)
    ensures
        arms(r@) == arms(v@),
{
    let mut out: Vec<(Expression, BlockId)> = Vec::new();
    let mut i: usize = 0;
    while i < v.len()
        invariant
            i <= v.len(),
            out.len() == i,
            forall|k: int| 0 <= k < i ==> arm(#[trigger] out@[k]) == arm(v@[k]),
        decreases v.len() - i,
    {
        out.push((v[i].0.clone(), v[i].1));
        i += 1;
    }
    assert(arms(out@) =~= arms(v@));
    out
}

fn same_arms(a: &Vec<(Expression, BlockId)>, b: &Vec<(Expression, BlockId)>) -> (r: bool)
    ensures
        r == (arms(a@) == arms(b@)),
{
    if a.len() != b.len() {
        assert(arms(a@).len() != arms(b@).len());
        return false;
    }
    let mut i: usize = 0;
    while i < a.len()
        invariant
            i <= a.len(),
            a.len() == b.len(),
            forall|k: int| 0 <= k < i ==> arm(#[trigger] a@[k]) == arm(b@[k]),
        decreases a.len() - i,
    {
        if !(a[i].0.same(&b[i].0) && a[i].1 == b[i].1) {
            assert(arms(a@)[i as int] != arms(b@)[i as int]);
            return false;
        }
        i += 1;
    }
    assert(arms(a@) =~= arms(b@));
    true
}

impl BasicBlock {
    pub open spec fn view(&self) -> Node {
        Node { stmts: model::stmts(self.statements@), term: self.terminator@ }
    }
}

impl Clone for BasicBlock {
    fn clone(&self) -> (r: BasicBlock)
        ensures
            r@ == self@,
    {
        BasicBlock { statements: clone_stmts(&self.statements), terminator: self.terminator.clone() }
    }
}

impl CFG {
    pub open spec fn view(&self) -> Seq<Node> {
        nodes(self.blocks@)
    }

    /// The block at a position.
    pub fn get(&self, id: BlockId) -> (r: Option<&BasicBlock>)
        ensures
            match r {
                Some(b) => id.0 < self@.len() && b@ == self@[id.0 as int],
                None => id.0 >= self@.len(),
            },
    {
        if id.0 < self.blocks.len() {
            Some(&self.blocks[id.0])
        } else {
            None
        }
    }

    /// The first block.
    pub fn entry_block(&self) -> (r: &BasicBlock)
        requires
            self@.len() > 0,
        ensures
            r@ == self@[0],
    {
        &self.blocks[0]
    }
}

/// Whether a terminator may lead to the block at `t`.
pub open spec fn leads_to(term: Term, t: int) -> bool {
    match term {
        Term::Jump(b) => b.0 == t,
        Term::Branch { true_target, false_target, .. } => true_target.0 == t || false_target.0 == t,
        Term::Switch { cases, default, .. } => default.0 == t || exists|i: int|
            0 <= i < cases.len() && (#[trigger] cases[i]).1.0 == t,
        _ => false,
    }
}

/// Builds a graph block by block.
pub struct CFGBuilder {
    blocks: Vec<BasicBlock>,
    current: usize,
}

impl CFGBuilder {
    pub closed spec fn view(&self) -> Seq<Node> {
        nodes(self.blocks@)
    }

    /// The block that statements go to.
    pub closed spec fn at(&self) -> int {
        self.current as int
    }

    /// Whether statements have a block to go to.
    pub open spec fn wf(&self) -> bool {
        0 <= self.at() < self@.len()
    }

    /// A builder with an empty entry block.
    pub fn new() -> (r: CFGBuilder)
        ensures
            r.wf(),
            r.at() == 0,
            r@ == seq![Node { stmts: Seq::empty(), term: Term::Unreachable }],
    {
        let mut blocks: Vec<BasicBlock> = Vec::new();
        blocks.push(BasicBlock { statements: Vec::new(), terminator: Terminator::Unreachable });
        assert(model::stmts(blocks@[0].statements@) =~= Seq::empty());
        assert(nodes(blocks@) =~= seq![Node { stmts: Seq::empty(), term: Term::Unreachable }]);
        CFGBuilder { blocks, current: 0 }
    }

    /// Adds an empty block.
    pub fn create_block(&mut self) -> (r: BlockId)
        requires
            old(self).wf(),
        ensures
            final(self).wf(),
            final(self).at() == old(self).at(),
            r.0 == old(self)@.len(),
            final(self)@ == old(self)@.push(
                Node { stmts: Seq::empty(), term: Term::Unreachable },
            ),
    {
        let ghost before = nodes(self.blocks@);
        let id: usize = self.blocks.len();
        self.blocks.push(
            BasicBlock { statements: Vec::new(), terminator: Terminator::Unreachable },
        );
        assert(model::stmts(self.blocks@[id as int].statements@) =~= Seq::empty());
        assert(nodes(self.blocks@) =~= before.push(
            Node { stmts: Seq::empty(), term: Term::Unreachable },
        ));
        BlockId(id)
    }

    /// Makes a block the one that statements go to.
    pub fn set_current_block(&mut self, id: BlockId)
        requires
            id.0 < old(self)@.len(),
        ensures
            final(self).wf(),
            final(self).at() == id.0,
            final(self)@ == old(self)@,
    {
        self.current = id.0;
    }

    /// Appends a statement to the current block.
    pub fn emit(&mut self, s: Statement)
        requires
            old(self).wf(),
        ensures
            final(self).wf(),
            final(self).at() == old(self).at(),
            final(self)@ == old(self)@.update(
                old(self).at(),
                Node {
                    stmts: old(self)@[old(self).at()].stmts.push(s@),
                    term: old(self)@[old(self).at()].term,
                },
            ),
    {
        let ghost before = nodes(self.blocks@);
        let i: usize = self.current;
        let mut block = self.blocks[i].clone();
        let ghost stmts = block.statements@;
        block.statements.push(s);
        assert(model::stmts(block.statements@) =~= model::stmts(stmts).push(s@));
        self.blocks.set(i, block);
        assert(nodes(self.blocks@) =~= before.update(
            i as int,
            Node { stmts: before[i as int].stmts.push(s@), term: before[i as int].term },
        ));
    }

    /// Ends the current block.
    pub fn terminate(&mut self, t: Terminator)
        requires
            old(self).wf(),
        ensures
            final(self).wf(),
            final(self).at() == old(self).at(),
            final(self)@ == old(self)@.update(
                old(self).at(),
                Node { stmts: old(self)@[old(self).at()].stmts, term: t@ },
            ),
    {
        let ghost before = nodes(self.blocks@);
        let i: usize = self.current;
        let statements = clone_stmts(&self.blocks[i].statements);
        self.blocks.set(i, BasicBlock { statements, terminator: t });
        assert(nodes(self.blocks@) =~= before.update(
            i as int,
            Node { stmts: before[i as int].stmts, term: t@ },
        ));
    }

    /// Ends the current block with a jump.
    pub fn emit_jump(&mut self, to: BlockId)
        requires
            old(self).wf(),
        ensures
            final(self).wf(),
            final(self).at() == old(self).at(),
            final(self)@ == old(self)@.update(
                old(self).at(),
                Node { stmts: old(self)@[old(self).at()].stmts, term: Term::Jump(to) },
            ),
    {
        self.terminate(Terminator::Jump(to));
    }

    /// Ends the current block with a return.
    pub fn emit_return(&mut self, value: Option<Expression>)
        requires
            old(self).wf(),
        ensures
            final(self).wf(),
            final(self).at() == old(self).at(),
            final(self)@ == old(self)@.update(
                old(self).at(),
                Node {
                    stmts: old(self)@[old(self).at()].stmts,
                    term: Term::Return(model::opt_expr(value)),
                },
            ),
    {
        self.terminate(Terminator::Return(value));
    }

    /// The graph built.
    pub fn finish(self) -> (r: CFG)
        ensures
            r@ == self@,
    {
        CFG { blocks: self.blocks }
    }
}

} // verus!
