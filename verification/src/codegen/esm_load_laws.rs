//! Which module a load names, and what a property definition exports.

use super::esm_boilerplate;
use super::esm_class_laws;
use super::esm_classify;
use super::esm_classify::Class;
use super::esm_descriptors;
use super::esm_descriptors::Desc;
use super::esm_patterns;
use super::expr_gen;
use super::resolve;
use super::Gen;
use crate::ir::model::{Const, Expr, Key, Prop, Stmt, Val};
use crate::text;
use vstd::prelude::*;

verus! {

/// Whether a callee loads modules: any callee does in an ES module, and elsewhere the parameter of
/// the factory that is the loader.
pub open spec fn loader(g: Gen, callee: Expr) -> bool {
    let t = expr_gen::expr_text(g, callee);
    g.esm || t == "require"@ || t == "arg1"@ || t == "p1"@
}

/// Whether the arguments of a call are some others, by themselves or behind an `undefined` receiver.
pub open spec fn passes(args: Seq<Expr>, own: Seq<Expr>) -> bool {
    &&& own.len() > 0
    &&& own[0] != esm_class_laws::undefined()
    &&& args == own || args == seq![esm_class_laws::undefined()] + own
}

proof fn lemma_passes(args: Seq<Expr>, own: Seq<Expr>)
    requires
        passes(args, own),
    ensures
        resolve::effective(args) == own,
{
    let u = seq![esm_class_laws::undefined()];
    if args == u + own {
        assert(args[0] == esm_class_laws::undefined());
        assert((u + own).subrange(1, args.len() as int) =~= own);
    } else {
        assert(args[0] == own[0]);
        assert(own.subrange(0, own.len() as int) =~= own);
    }
}

/// `require(N)` loads the module that the imports name for `N`; a module without a name is called by
/// its number.
pub proof fn lemma_numbered_module_is_loaded(g: Gen, callee: Expr, args: Seq<Expr>, id: i32)
    requires
        loader(g, callee),
        id >= 0,
        passes(args, seq![Expr::Value(Val::Constant(Const::Integer(id)))]),
    ensures
        esm_boilerplate::loaded(g, Expr::Call { callee: Box::new(callee), arguments: args }) == Some(
            (
                match g.imports {
                    Some(m) => if m.dom().contains(id as u32) {
                        m[id as u32]
                    } else {
                        "module_"@ + text::decimal(id as nat)
                    },
                    None => "module_"@ + text::decimal(id as nat),
                },
                id as u32,
            ),
        ),
{
    let own = seq![Expr::Value(Val::Constant(Const::Integer(id)))];
    lemma_passes(args, own);
    assert(own[0] == Expr::Value(Val::Constant(Const::Integer(id))));
}

/// `require(map[I])` loads the dependency of that index, if it has a name, under its own number where
/// that is known.
pub proof fn lemma_dependency_is_loaded(
    g: Gen,
    callee: Expr,
    args: Seq<Expr>,
    map: Expr,
    i: i64,
    names: Map<u32, Seq<char>>,
)
    requires
        loader(g, callee),
        0 <= i <= u32::MAX,
        passes(
            args,
            seq![
                Expr::Member { object: Box::new(map), property: Key::Index(i), optional: false },
            ],
        ),
        g.dep_names == Some(names),
    ensures
        ({
            let m = esm_boilerplate::loaded(
                g,
                Expr::Call { callee: Box::new(callee), arguments: args },
            );
            if names.dom().contains(i as u32) {
                m == Some(
                    (
                        names[i as u32],
                        match g.dep_ids {
                            Some(ids) => if ids.dom().contains(i as u32) {
                                ids[i as u32]
                            } else {
                                i as u32
                            },
                            None => i as u32,
                        },
                    ),
                )
            } else {
                m is None
            }
        }),
{
    let own = seq![
        Expr::Member { object: Box::new(map), property: Key::Index(i), optional: false },
    ];
    lemma_passes(args, own);
    assert(own[0] is Member);
}

/// Outside an ES module, only the loader loads modules.
pub proof fn lemma_other_calls_load_nothing(g: Gen, callee: Expr, args: Seq<Expr>)
    requires
        !loader(g, callee),
    ensures
        esm_boilerplate::loaded(g, Expr::Call { callee: Box::new(callee), arguments: args }) is None,
{
}

/// Whether a property gives a descriptor a key.
pub open spec fn is_key(p: Prop, k: Seq<char>) -> bool {
    p.key == Key::Ident(k) || p.key == Key::String(k)
}

proof fn lemma_value(g: Gen, ps: Seq<Prop>, k: int)
    requires
        0 <= k < ps.len(),
        is_key(ps[k], "value"@),
        forall|i: int| k < i < ps.len() ==> !is_key(#[trigger] ps[i], "value"@),
        forall|i: int| 0 <= i < ps.len() ==> !is_key(#[trigger] ps[i], "get"@),
    ensures
        esm_descriptors::desc_fold(g, ps) == (Desc {
            getter: None,
            value: Some(expr_gen::expr_text(g, ps[k].value)),
        }),
    decreases ps.len(),
{
    reveal_strlit("value");
    reveal_strlit("get");
    let d = ps.drop_last();
    assert forall|i: int| 0 <= i < d.len() implies !is_key(#[trigger] d[i], "get"@) by {
        assert(!is_key(ps[i], "get"@));
    }
    assert(!is_key(ps[ps.len() - 1], "get"@));
    if k == ps.len() - 1 {
        lemma_no_getter(g, d);
    } else {
        assert(!is_key(ps[ps.len() - 1], "value"@));
        assert(d[k] == ps[k]);
        assert forall|i: int| k < i < d.len() implies !is_key(#[trigger] d[i], "value"@) by {
            assert(!is_key(ps[i], "value"@));
        }
        lemma_value(g, d, k);
    }
}

proof fn lemma_no_getter(g: Gen, ps: Seq<Prop>)
    requires
        forall|i: int| 0 <= i < ps.len() ==> !is_key(#[trigger] ps[i], "get"@),
    ensures
        esm_descriptors::desc_fold(g, ps).getter is None,
    decreases ps.len(),
{
    if ps.len() > 0 {
        let d = ps.drop_last();
        assert forall|i: int| 0 <= i < d.len() implies !is_key(#[trigger] d[i], "get"@) by {
            assert(!is_key(ps[i], "get"@));
        }
        lemma_no_getter(g, d);
        assert(!is_key(ps[ps.len() - 1], "get"@));
    }
}

/// `Object.defineProperty(exports, "n", { value: v })` exports the text of `v` as `n`: the last
/// `value` counts, whatever else the descriptor says.
pub proof fn lemma_defined_property_is_exported(
    g: Gen,
    callee: Expr,
    target: Expr,
    n: Seq<char>,
    ps: Seq<Prop>,
    k: int,
    vars: Map<Seq<char>, Desc>,
    rebound: Set<Seq<char>>,
)
    requires
        text::has_part(expr_gen::expr_text(g, callee), "defineProperty"@),
        esm_class_laws::is_exports(expr_gen::expr_text(g, target)),
        target != esm_class_laws::undefined(),
        n != "__esModule"@,
        0 <= k < ps.len(),
        is_key(ps[k], "value"@),
        forall|i: int| k < i < ps.len() ==> !is_key(#[trigger] ps[i], "value"@),
        forall|i: int| 0 <= i < ps.len() ==> !is_key(#[trigger] ps[i], "get"@),
    ensures
        ({
            let v = expr_gen::expr_text(g, ps[k].value);
            esm_classify::classified_with(
                g,
                Stmt::Expr(
                    Expr::Call {
                        callee: Box::new(callee),
                        arguments: seq![
                            target,
                            Expr::Value(Val::Constant(Const::String(n))),
                            Expr::Object { properties: ps },
                        ],
                    },
                ),
                vars,
                rebound,
            ) == Class::Export(
                if n == "default"@ {
                    "export default "@ + v + ";"@
                } else if v == n {
                    "export { "@ + n + " };"@
                } else {
                    "export const "@ + n + " = "@ + v + ";"@
                },
            )
        }),
{
    let name = Expr::Value(Val::Constant(Const::String(n)));
    let own = seq![target, name, Expr::Object { properties: ps }];
    lemma_passes(own, own);
    lemma_value(g, ps, k);
    assert(own[1] == name);
    assert(own[2] == (Expr::Object { properties: ps }));
    assert(!(own[1] == Expr::Value(Val::Constant(Const::String("__esModule"@)))));
    let e = Expr::Call { callee: Box::new(callee), arguments: own };
    assert(esm_patterns::define_on_exports(g, e) == Some((name, own[2])));
    assert(esm_patterns::defined_export(g, e, vars) == Some(
        esm_patterns::export_line(n, Some(expr_gen::expr_text(g, ps[k].value))),
    ));
}

} // verus!
