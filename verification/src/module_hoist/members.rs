//! The functions of one module: its factory and the closures inside it.

use std::collections::BTreeMap;
use vstd::prelude::*;

verus! {

/// A walk over nested functions: those found, in order, and those still to be looked into.
#[verifier::ext_equal]
pub struct Walk {
    pub found: Seq<u32>,
    pub stack: Seq<u32>,
}

/// Whether a child belongs to the module of `factory`: the factory of another module does not.
pub open spec fn inside(k: u32, factory: u32, factories: Set<u32>) -> bool {
    k == factory || !factories.contains(k)
}

/// The walk once the children `kids` are taken in.
pub open spec fn adopt(w: Walk, kids: Seq<u32>, factory: u32, factories: Set<u32>) -> Walk
    decreases kids.len(),
{
    if kids.len() == 0 {
        w
    } else {
        let before = adopt(w, kids.drop_last(), factory, factories);
        let k = kids.last();
        if inside(k, factory, factories) && !before.found.contains(k) {
            Walk { found: before.found.push(k), stack: before.stack.push(k) }
        } else {
            before
        }
    }
}

pub open spec fn kids_of(children: Map<u32, Seq<u32>>, id: u32) -> Seq<u32> {
    if children.dom().contains(id) {
        children[id]
    } else {
        Seq::empty()
    }
}

/// One step of the walk: looks into the function on top of the stack.
pub open spec fn look(
    w: Walk,
    children: Map<u32, Seq<u32>>,
    factory: u32,
    factories: Set<u32>,
) -> Walk {
    adopt(
        Walk { found: w.found, stack: w.stack.drop_last() },
        kids_of(children, w.stack.last()),
        factory,
        factories,
    )
}

/// Taking children in adds as many to the stack as it finds, and nothing twice.
pub proof fn lemma_adopt(w: Walk, kids: Seq<u32>, factory: u32, factories: Set<u32>)
    requires
        w.found.no_duplicates(),
    ensures
        ({
            let r = adopt(w, kids, factory, factories);
            &&& r.found.no_duplicates()
            &&& r.found.len() - w.found.len() == r.stack.len() - w.stack.len()
            &&& r.found.len() >= w.found.len()
            &&& forall|i: int| 0 <= i < w.found.len() ==> r.found[i] == w.found[i]
            &&& forall|i: int| 0 <= i < w.stack.len() ==> r.stack[i] == w.stack[i]
            &&& forall|i: int|
                0 <= i < kids.len() && inside(#[trigger] kids[i], factory, factories)
                    ==> r.found.contains(kids[i])
            &&& forall|x: u32| #[trigger]
                r.found.contains(x) ==> w.found.contains(x) || r.stack.contains(x)
        }),
    decreases kids.len(),
{
    if kids.len() > 0 {
        lemma_adopt(w, kids.drop_last(), factory, factories);
        let before = adopt(w, kids.drop_last(), factory, factories);
        let r = adopt(w, kids, factory, factories);
        let k = kids.last();
        if inside(k, factory, factories) && !before.found.contains(k) {
            assert(r.found[before.found.len() as int] == k);
            assert(r.stack[before.stack.len() as int] == k);
            assert forall|x: u32| before.found.contains(x) implies r.found.contains(x) by {
                let i = choose|i: int| 0 <= i < before.found.len() && before.found[i] == x;
                assert(r.found[i] == x);
            }
            assert forall|x: u32| before.stack.contains(x) implies r.stack.contains(x) by {
                let i = choose|i: int| 0 <= i < before.stack.len() && before.stack[i] == x;
                assert(r.stack[i] == x);
            }
            assert(r.stack.contains(k));
            assert forall|x: u32| #[trigger] r.found.contains(x) implies w.found.contains(x)
                || r.stack.contains(x) by {
                let i = choose|i: int| 0 <= i < r.found.len() && r.found[i] == x;
                if i < before.found.len() {
                    assert(before.found.contains(x));
                }
            }
        }
        assert forall|i: int|
            0 <= i < kids.len() && inside(#[trigger] kids[i], factory, factories) implies
            r.found.contains(kids[i]) by {
            if i < kids.len() - 1 {
                assert(kids.drop_last()[i] == kids[i]);
            }
        }
    }
}

/// There are no more different functions than function ids.
pub proof fn lemma_ids_bounded(s: Seq<u32>)
    requires
        s.no_duplicates(),
    ensures
        s.len() <= 0x1_0000_0000,
{
    let t = s.map_values(|x: u32| x as int);
    assert(t.no_duplicates());
    t.unique_seq_to_set();
    vstd::set_lib::lemma_int_range(0, 0x1_0000_0000);
    assert(t.to_set().subset_of(vstd::set_lib::set_int_range(0, 0x1_0000_0000)));
    vstd::set_lib::lemma_len_subset(t.to_set(), vstd::set_lib::set_int_range(0, 0x1_0000_0000));
}

/// The functions found once nothing is left to look into.
pub open spec fn walked(
    w: Walk,
    children: Map<u32, Seq<u32>>,
    factory: u32,
    factories: Set<u32>,
) -> Seq<u32>
    decreases 0x1_0000_0000 - w.found.len(), w.stack.len(),
    when w.found.no_duplicates()
{
    if w.stack.len() == 0 {
        w.found
    } else {
        proof {
            let next = look(w, children, factory, factories);
            lemma_adopt(
                Walk { found: w.found, stack: w.stack.drop_last() },
                kids_of(children, w.stack.last()),
                factory,
                factories,
            );
            lemma_ids_bounded(next.found);
        }
        walked(look(w, children, factory, factories), children, factory, factories)
    }
}

/// The functions of a module: its factory, then the closures inside it.
pub open spec fn members(
    factory: u32,
    children: Map<u32, Seq<u32>>,
    factories: Set<u32>,
) -> Seq<u32> {
    walked(Walk { found: seq![factory], stack: seq![factory] }, children, factory, factories)
}

/// Whether every child of a function belongs to `s`, where it is inside the module.
pub open spec fn closed_under(
    s: Seq<u32>,
    id: u32,
    children: Map<u32, Seq<u32>>,
    factory: u32,
    factories: Set<u32>,
) -> bool {
    forall|i: int|
        0 <= i < kids_of(children, id).len() && inside(
            #[trigger] kids_of(children, id)[i],
            factory,
            factories,
        ) ==> s.contains(kids_of(children, id)[i])
}

proof fn lemma_walked(
    w: Walk,
    children: Map<u32, Seq<u32>>,
    factory: u32,
    factories: Set<u32>,
)
    requires
        w.found.no_duplicates(),
        w.found.len() > 0,
        forall|x: u32|
            w.found.contains(x) && !w.stack.contains(x) ==> #[trigger] closed_under(
                w.found,
                x,
                children,
                factory,
                factories,
            ),
    ensures
        ({
            let r = walked(w, children, factory, factories);
            &&& r.no_duplicates()
            &&& r.len() > 0
            &&& r[0] == w.found[0]
            &&& forall|x: u32|
                r.contains(x) ==> #[trigger] closed_under(r, x, children, factory, factories)
        }),
    decreases 0x1_0000_0000 - w.found.len(), w.stack.len(),
{
    if w.stack.len() > 0 {
        let popped = Walk { found: w.found, stack: w.stack.drop_last() };
        let id = w.stack.last();
        let kids = kids_of(children, id);
        let next = look(w, children, factory, factories);
        lemma_adopt(popped, kids, factory, factories);
        lemma_ids_bounded(next.found);
        assert forall|x: u32|
            next.found.contains(x) && !next.stack.contains(x) implies #[trigger] closed_under(
            next.found,
            x,
            children,
            factory,
            factories,
        ) by {
            if x != id {
                assert(w.found.contains(x));
                if w.stack.contains(x) {
                    let i = choose|i: int| 0 <= i < w.stack.len() && w.stack[i] == x;
                    assert(i < w.stack.len() - 1);
                    assert(next.stack[i] == popped.stack[i]);
                    assert(next.stack.contains(x));
                }
                assert(closed_under(w.found, x, children, factory, factories));
                assert forall|i: int|
                    0 <= i < kids_of(children, x).len() && inside(
                        #[trigger] kids_of(children, x)[i],
                        factory,
                        factories,
                    ) implies next.found.contains(kids_of(children, x)[i]) by {
                    let k = kids_of(children, x)[i];
                    assert(w.found.contains(k));
                    let j = choose|j: int| 0 <= j < w.found.len() && w.found[j] == k;
                    assert(next.found[j] == k);
                }
            }
        }
        lemma_walked(next, children, factory, factories);
    }
}

/// The functions of a module are different, start with the factory, and hold with a function
/// every child of it that is no factory of another module.
pub proof fn lemma_members(factory: u32, children: Map<u32, Seq<u32>>, factories: Set<u32>)
    ensures
        members(factory, children, factories).no_duplicates(),
        members(factory, children, factories).len() > 0,
        members(factory, children, factories)[0] == factory,
        forall|x: u32|
            members(factory, children, factories).contains(x) ==> #[trigger] closed_under(
                members(factory, children, factories),
                x,
                children,
                factory,
                factories,
            ),
{
    lemma_walked(
        Walk { found: seq![factory], stack: seq![factory] },
        children,
        factory,
        factories,
    );
}

/// The model of lists of children.
pub open spec fn child_lists(m: Map<u32, Vec<u32>>) -> Map<u32, Seq<u32>> {
    m.map_values(|v: Vec<u32>| v@)
}

fn holds(v: &Vec<u32>, x: u32) -> (r: bool)
    ensures
        r == v@.contains(x),
{
    let mut i: usize = 0;
    while i < v.len()
        invariant
            i <= v.len(),
            forall|k: int| 0 <= k < i ==> v@[k] != x,
        decreases v.len() - i,
    {
        if v[i] == x {
            return true;
        }
        i += 1;
    }
    false
}

/// The functions of a module: its factory, then the closures inside it. The factory of another
/// module is never one of them.
pub fn descendants(
    factory: u32,
    children: &BTreeMap<u32, Vec<u32>>,
    factories: &BTreeMap<u32, u32>,
) -> (r: Vec<u32>)
    ensures
        r@ == members(factory, child_lists(children@), factories@.dom()),
{
    broadcast use vstd::std_specs::btree::group_btree_axioms;

    let ghost lists = child_lists(children@);
    let ghost others = factories@.dom();
    let mut found: Vec<u32> = Vec::new();
    found.push(factory);
    let mut stack: Vec<u32> = Vec::new();
    stack.push(factory);
    assert(found@ =~= seq![factory]);
    assert(stack@ =~= seq![factory]);
    while stack.len() > 0
        invariant
            lists == child_lists(children@),
            others == factories@.dom(),
            found@.no_duplicates(),
            members(factory, lists, others) == walked(
                (Walk { found: found@, stack: stack@ }),
                lists,
                factory,
                others,
            ),
        decreases 0x1_0000_0000 - found.len(), stack.len(),
    {
        let ghost before = Walk { found: found@, stack: stack@ };
        let id: u32 = stack[stack.len() - 1];
        stack.pop();
        let ghost popped = Walk { found: found@, stack: stack@ };
        assert(popped.stack =~= before.stack.drop_last());
        if let Some(kids) = children.get(&id) {
            assert(kids_of(lists, id) == kids@);
            let mut i: usize = 0;
            while i < kids.len()
                invariant
                    i <= kids.len(),
                    others == factories@.dom(),
                    (Walk { found: found@, stack: stack@ }) == adopt(
                        popped,
                        kids@.take(i as int),
                        factory,
                        others,
                    ),
                decreases kids.len() - i,
            {
                assert(kids@.take(i + 1).drop_last() =~= kids@.take(i as int));
                let k: u32 = kids[i];
                if (k == factory || !factories.contains_key(&k)) && !holds(&found, k) {
                    found.push(k);
                    stack.push(k);
                }
                i += 1;
            }
            assert(kids@.take(kids@.len() as int) =~= kids@);
        } else {
            assert(kids_of(lists, id) == Seq::<u32>::empty());
        }
        proof {
            lemma_adopt(popped, kids_of(lists, id), factory, others);
            lemma_ids_bounded(found@);
        }
    }
    found
}

} // verus!
