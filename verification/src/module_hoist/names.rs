//! Names for hoisted bindings.

use crate::dict::NameSet;
use crate::text;
use vstd::prelude::*;

verus! {

/// Names that are at least `n` long.
pub open spec fn long_names(used: Set<Seq<char>>, n: nat) -> Set<Seq<char>> {
    used.filter(|s: Seq<char>| s.len() >= n)
}

pub proof fn lemma_fewer_long(used: Set<Seq<char>>, base: Seq<char>)
    requires
        used.finite(),
        used.contains(base),
    ensures
        long_names(used, base.push('_').len()).len() < long_names(used, base.len()).len(),
{
    let a = long_names(used, base.len());
    let b = long_names(used, base.push('_').len());
    used.lemma_len_filter(|s: Seq<char>| s.len() >= base.len());
    assert(a.contains(base));
    assert(b.subset_of(a.remove(base)));
    vstd::set_lib::lemma_len_subset(b, a.remove(base));
}

/// The first of `base`, `base_`, `base__`, .. that is not used.
pub open spec fn free_name(used: Set<Seq<char>>, base: Seq<char>) -> Seq<char>
    decreases long_names(used, base.len()).len(),
    when used.finite()
{
    if used.contains(base) {
        proof {
            lemma_fewer_long(used, base);
        }
        free_name(used, base.push('_'))
    } else {
        base
    }
}

/// A free name is free.
pub proof fn lemma_free_name(used: Set<Seq<char>>, base: Seq<char>)
    requires
        used.finite(),
    ensures
        !used.contains(free_name(used, base)),
    decreases long_names(used, base.len()).len(),
{
    if used.contains(base) {
        lemma_fewer_long(used, base);
        lemma_free_name(used, base.push('_'));
    }
}

fn pick_free(used: &NameSet, base: String) -> (r: String)
    ensures
        r@ == free_name(used@, base@),
{
    proof {
        used.lemma_finite();
    }
    let mut n = base;
    while used.contains(&n)
        invariant
            used@.finite(),
            free_name(used@, n@) == free_name(used@, base@),
        decreases long_names(used@, n@.len()).len(),
    {
        proof {
            lemma_fewer_long(used@, n@);
        }
        n.push('_');
    }
    n
}

/// The name of a new binding for a module: the preferred name where it is free, or else one
/// made of the module's id.
pub open spec fn binding_name(
    used: Set<Seq<char>>,
    preferred: Option<Seq<char>>,
    id: u32,
) -> Seq<char> {
    let own = free_name(used, "_mod"@ + text::decimal(id as nat));
    match preferred {
        Some(p) => if used.contains(p) {
            own
        } else {
            p
        },
        None => own,
    }
}

/// Picks the name of a new binding and marks it as used.
pub fn allocate_binding_name(preferred: Option<String>, id: u32, used: &mut NameSet) -> (r: String)
    ensures
        r@ == binding_name(old(used)@, text::opt(preferred), id),
        final(used)@ == old(used)@.insert(r@),
{
    let name: String = match preferred {
        Some(p) => if used.contains(&p) {
            pick_free(used, text::concat2("_mod", &text::decimal_of(id as u64)))
        } else {
            p
        },
        None => pick_free(used, text::concat2("_mod", &text::decimal_of(id as u64))),
    };
    used.insert(&name);
    name
}

/// A new binding takes no name that is in use.
pub proof fn lemma_binding_name(used: Set<Seq<char>>, preferred: Option<Seq<char>>, id: u32)
    requires
        used.finite(),
    ensures
        !used.contains(binding_name(used, preferred, id)),
{
    lemma_free_name(used, "_mod"@ + text::decimal(id as nat));
}

} // verus!
