//! A load becomes the binding of its module and its loader, and no other call does.

use super::kinds::HoistKey;
use super::rewrite;
use super::rewrite::Hoisting;
use crate::ir::model::{Const, Expr, Val};
use vstd::prelude::*;

verus! {

pub open spec fn undefined() -> Expr {
    Expr::Value(Val::Constant(Const::Undefined))
}

/// Whether the first entry of a key has a name.
pub open spec fn first_entry(s: Seq<(HoistKey, Seq<char>)>, k: HoistKey, i: int) -> bool {
    0 <= i < s.len() && s[i].0 == k && forall|j: int| 0 <= j < i ==> (#[trigger] s[j]).0 != k
}

proof fn lemma_first(s: Seq<(HoistKey, Seq<char>)>, k: HoistKey, i: int)
    requires
        first_entry(s, k, i),
    ensures
        rewrite::first_of(s, k) == Some(s[i].1),
    decreases s.len(),
{
    let d = s.drop_last();
    if i < d.len() {
        assert forall|j: int| 0 <= j < i implies (#[trigger] d[j]).0 != k by {
            assert(d[j] == s[j]);
        }
        lemma_first(d, k, i);
    } else {
        lemma_no_entry(d, k);
    }
}

proof fn lemma_no_entry(s: Seq<(HoistKey, Seq<char>)>, k: HoistKey)
    requires
        forall|j: int| 0 <= j < s.len() ==> (#[trigger] s[j]).0 != k,
    ensures
        rewrite::first_of(s, k) is None,
    decreases s.len(),
{
    if s.len() > 0 {
        let d = s.drop_last();
        assert forall|j: int| 0 <= j < d.len() implies (#[trigger] d[j]).0 != k by {
            assert(d[j] == s[j]);
        }
        lemma_no_entry(d, k);
        assert(s[s.len() - 1].0 != k);
    }
}

/// The call of a loader with a module id, with or without an `undefined` receiver.
pub open spec fn load(loader: Seq<char>, id: i32, receiver: bool) -> Expr {
    let own = Expr::Value(Val::Constant(Const::Integer(id)));
    Expr::Call {
        callee: Box::new(Expr::Value(Val::Variable(loader))),
        arguments: if receiver {
            seq![undefined(), own]
        } else {
            seq![own]
        },
    }
}

/// A load whose module has a binding for its loader becomes the variable of that binding.
pub proof fn lemma_load_becomes_its_binding(
    m: Hoisting,
    loader: Seq<char>,
    id: i32,
    receiver: bool,
    i: int,
)
    requires
        id >= 0,
        m.aliases.dom().contains(loader),
        first_entry(m.bindings, (HoistKey { id: id as u32, kind: m.aliases[loader] }), i),
    ensures
        rewrite::rw_expr(m, load(loader, id, receiver)) == Expr::Value(
            Val::Variable(m.bindings[i].1),
        ),
{
    lemma_first(m.bindings, HoistKey { id: id as u32, kind: m.aliases[loader] }, i);
    let own = Expr::Value(Val::Constant(Const::Integer(id)));
    assert(seq![undefined(), own][0] == undefined());
    assert(seq![undefined(), own][1] == own);
    assert(seq![own][0] == own);
}

/// A load whose module has no binding for its loader stays, whatever bindings the module has for
/// other loaders.
pub proof fn lemma_load_without_a_binding_stays(
    m: Hoisting,
    loader: Seq<char>,
    id: i32,
    receiver: bool,
)
    requires
        id >= 0,
        m.aliases.dom().contains(loader),
        forall|j: int|
            0 <= j < m.bindings.len() ==> (#[trigger] m.bindings[j]).0 != (HoistKey {
                id: id as u32,
                kind: m.aliases[loader],
            }),
    ensures
        rewrite::rw_expr(m, load(loader, id, receiver)) == load(loader, id, receiver),
{
    lemma_no_entry(m.bindings, HoistKey { id: id as u32, kind: m.aliases[loader] });
    lemma_stays(m, loader, id, receiver);
}

/// A call of anything but a loader stays a call of it.
pub proof fn lemma_other_calls_stay(m: Hoisting, callee: Seq<char>, id: i32, receiver: bool)
    requires
        !m.aliases.dom().contains(callee),
    ensures
        rewrite::rw_expr(m, load(callee, id, receiver)) == load(callee, id, receiver),
{
    lemma_stays(m, callee, id, receiver);
}

proof fn lemma_stays(m: Hoisting, callee: Seq<char>, id: i32, receiver: bool)
    requires
        rewrite::binding_of(m, load(callee, id, receiver)) is None,
    ensures
        rewrite::rw_expr(m, load(callee, id, receiver)) == load(callee, id, receiver),
{
    let own = Expr::Value(Val::Constant(Const::Integer(id)));
    let f = Expr::Value(Val::Variable(callee));
    let args = if receiver {
        seq![undefined(), own]
    } else {
        seq![own]
    };
    assert(rewrite::rw_expr(m, own) == own);
    assert(rewrite::rw_expr(m, undefined()) == undefined());
    assert(rewrite::rw_expr(m, f) == f);
    let t = rewrite::rw_exprs(m, args);
    assert forall|i: int| 0 <= i < args.len() implies #[trigger] t[i] == args[i] by {
        assert(t[i] == rewrite::rw_expr(m, args[i]));
    }
    assert(t =~= args);
}

} // verus!
