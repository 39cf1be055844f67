//! The leaves of expressions, in order.

use super::model::{Expr, Val};
use vstd::prelude::*;

verus! {

/// The leaves among some expressions, in order.
pub open spec fn leaves_in(s: Seq<Expr>) -> Seq<Val>
    decreases s.len(),
{
    if s.len() == 0 {
        Seq::empty()
    } else {
        leaves_in(s.drop_last()) + match s.last() {
            Expr::Value(v) => seq![v],
            _ => Seq::empty(),
        }
    }
}

/// Leaves with each replaced by what a function gives for it.
pub open spec fn spread(g: spec_fn(Val) -> Seq<Val>, s: Seq<Val>) -> Seq<Val>
    decreases s.len(),
{
    if s.len() == 0 {
        Seq::empty()
    } else {
        spread(g, s.drop_last()) + g(s.last())
    }
}

/// Whether expressions have the leaves of others, each replaced by what a function gives for it.
pub open spec fn image(g: spec_fn(Val) -> Seq<Val>, s: Seq<Expr>, t: Seq<Expr>) -> bool {
    leaves_in(t) == spread(g, leaves_in(s))
}

pub proof fn lemma_leaves_join(s: Seq<Expr>, t: Seq<Expr>)
    ensures
        leaves_in(s + t) == leaves_in(s) + leaves_in(t),
    decreases t.len(),
{
    if t.len() == 0 {
        assert(s + t =~= s);
    } else {
        lemma_leaves_join(s, t.drop_last());
        assert((s + t).drop_last() =~= s + t.drop_last());
    }
}

proof fn lemma_spread_join(g: spec_fn(Val) -> Seq<Val>, s: Seq<Val>, t: Seq<Val>)
    ensures
        spread(g, s + t) == spread(g, s) + spread(g, t),
    decreases t.len(),
{
    if t.len() == 0 {
        assert(s + t =~= s);
    } else {
        lemma_spread_join(g, s, t.drop_last());
        assert((s + t).drop_last() =~= s + t.drop_last());
    }
}

pub proof fn lemma_two(
    g: spec_fn(Val) -> Seq<Val>,
    a: Seq<Expr>,
    b: Seq<Expr>,
    x: Seq<Expr>,
    y: Seq<Expr>,
)
    requires
        image(g, a, x),
        image(g, b, y),
    ensures
        image(g, a + b, x + y),
{
    lemma_leaves_join(a, b);
    lemma_leaves_join(x, y);
    lemma_spread_join(g, leaves_in(a), leaves_in(b));
}

pub proof fn lemma_none(g: spec_fn(Val) -> Seq<Val>)
    ensures
        image(g, Seq::empty(), Seq::empty()),
{
}

pub proof fn lemma_one(v: Val)
    ensures
        leaves_in(seq![Expr::Value(v)]) == seq![v],
{
    assert(seq![Expr::Value(v)].drop_last() =~= Seq::<Expr>::empty());
    assert(leaves_in(Seq::<Expr>::empty()) =~= Seq::<Val>::empty());
}

pub proof fn lemma_spread_one(g: spec_fn(Val) -> Seq<Val>, v: Val)
    ensures
        spread(g, seq![v]) == g(v),
{
    assert(seq![v].drop_last() =~= Seq::<Val>::empty());
    assert(spread(g, Seq::<Val>::empty()) =~= Seq::<Val>::empty());
}

pub proof fn lemma_node(
    g: spec_fn(Val) -> Seq<Val>,
    e: Expr,
    f: Expr,
    a: Seq<Expr>,
    x: Seq<Expr>,
)
    requires
        !(e is Value),
        !(f is Value),
        image(g, a, x),
    ensures
        image(g, seq![e] + a, seq![f] + x),
{
    assert(seq![e].drop_last() =~= Seq::<Expr>::empty());
    assert(seq![f].drop_last() =~= Seq::<Expr>::empty());
    assert(leaves_in(Seq::<Expr>::empty()) =~= Seq::<Val>::empty());
    assert(leaves_in(seq![e]) =~= Seq::<Val>::empty());
    assert(leaves_in(seq![f]) =~= Seq::<Val>::empty());
    lemma_two(g, seq![e], a, seq![f], x);
}

} // verus!
