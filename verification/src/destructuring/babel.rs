//! Recovers array patterns from calls of a helper that copies an array and reads of the copy.
//!
//! `tmp = _slicedToArray(src, 2); a = tmp[0]; b = tmp[1]` is `[a, b] = src`.

use crate::ir::bindings;
use crate::ir::bodies;
use crate::ir::cloning::{clone_opt_expr, clone_opt_stmt, clone_opt_text};
use crate::ir::model;
use crate::ir::model::{Expr, Key, Stmt, Target, Val};
use crate::ir::occurs;
use crate::ir::occurs::{Atom, Occurrence};
use crate::ir::{AssignTarget, Expression, PropertyKey, Statement, Value};
use crate::text;
use vstd::prelude::*;

verus! {

/// The helpers whose result is a copy of their first argument as an array.
pub open spec fn helper(n: Seq<char>) -> bool {
    n == "_slicedToArray"@ || n == "_toArray"@ || n == "_toConsumableArray"@
}

/// What a call of a helper copies.
pub open spec fn helper_source(e: Expr) -> Option<Expr> {
    match e {
        Expr::Call { callee, arguments } => match *callee {
            Expr::Value(Val::Variable(n)) => if helper(n) && arguments.len() > 0 {
                Some(arguments[0])
            } else {
                None
            },
            _ => None,
        },
        _ => None,
    }
}

/// The name that a statement gives a copy made by a helper, and what is copied.
pub open spec fn anchor(s: Stmt) -> Option<(Seq<char>, Expr)> {
    match bindings::binding(s) {
        Some(b) => match helper_source(b.1) {
            Some(e) => Some((b.0, e)),
            None => None,
        },
        None => None,
    }
}

/// A statement without the helper between an array pattern and its value.
pub open spec fn unwrapped(s: Stmt) -> Stmt {
    match s {
        Stmt::Assign { target, value } => match helper_source(value) {
            Some(e) => if target is DestructuringArray || target is DestructuringArrayRest {
                Stmt::Assign { target, value: e }
            } else {
                s
            },
            None => s,
        },
        _ => s,
    }
}

/// Whether a name is read, assigned or declared in a statement.
pub open spec fn mentions(s: Stmt, n: Seq<char>) -> bool {
    let a = occurs::stmt_atoms(s);
    a.contains(Atom::Use(Val::Variable(n))) || a.contains(Atom::WriteVariable(n)) || a.contains(
        Atom::Declare(n),
    ) || a.contains(Atom::LoopVar(n)) || a.contains(Atom::CatchParam(n))
}

/// Whether a register is read or written in a statement.
pub open spec fn mentions_register(s: Stmt, r: u32) -> bool {
    let a = occurs::stmt_atoms(s);
    a.contains(Atom::Use(Val::Register(r))) || a.contains(Atom::WriteRegister(r))
}

/// How often a name is assigned or declared.
pub open spec fn bindings_of(w: Seq<Atom>, n: Seq<char>) -> nat {
    occurs::count(w, Atom::WriteVariable(n)) + occurs::count(w, Atom::Declare(n)) + occurs::count(
        w,
        Atom::LoopVar(n),
    ) + occurs::count(w, Atom::CatchParam(n))
}

/// Whether a name is bound once and read `k` times.
pub open spec fn only_read(w: Seq<Atom>, n: Seq<char>, k: nat) -> bool {
    occurs::count(w, Atom::Use(Val::Variable(n))) == k && bindings_of(w, n) == 1
}

/// An index that an array can have.
pub open spec fn index(k: Key) -> Option<int> {
    match k {
        Key::Index(n) => if 0 <= n && n < usize::MAX {
            Some(n as int)
        } else {
            None
        },
        _ => None,
    }
}

/// The target and the index of a read of an element of an array.
pub open spec fn read_of(s: Stmt, tmp: Seq<char>) -> Option<(Target, int)> {
    let x = match s {
        Stmt::Let { name, value, .. } => Some((Target::Variable(name), value)),
        Stmt::Assign { target, value } => Some((target, value)),
        _ => None,
    };
    match x {
        Some((target, Expr::Member { object, property, .. })) => if *object == Expr::Value(
            Val::Variable(tmp),
        ) {
            match index(property) {
                Some(n) => Some((target, n)),
                None => None,
            }
        } else {
            None
        },
        _ => None,
    }
}

/// Where the run of reads from a position on ends: at a statement that uses the array otherwise.
pub open spec fn run_end(t: Seq<Stmt>, j: int, tmp: Seq<char>) -> int
    decreases t.len() - j,
{
    if j < 0 || j >= t.len() {
        t.len() as int
    } else if read_of(t[j], tmp) is None && mentions(t[j], tmp) {
        j
    } else {
        run_end(t, j + 1, tmp)
    }
}

/// The run ends within the list.
pub proof fn lemma_run_end(t: Seq<Stmt>, j: int, tmp: Seq<char>)
    requires
        0 <= j <= t.len(),
    ensures
        j <= run_end(t, j, tmp) <= t.len(),
    decreases t.len() - j,
{
    if j < t.len() {
        lemma_run_end(t, j + 1, tmp);
    }
}

/// The reads in a part of a list: their indices and targets.
pub open spec fn found(t: Seq<Stmt>, from: int, to: int, tmp: Seq<char>) -> Seq<(int, Target)>
    decreases to - from,
{
    if to <= from {
        Seq::empty()
    } else {
        match read_of(t[to - 1], tmp) {
            Some(x) => found(t, from, to - 1, tmp).push((x.1, x.0)),
            None => found(t, from, to - 1, tmp),
        }
    }
}

/// The position after the last read in a part of a list.
pub open spec fn last_read(t: Seq<Stmt>, from: int, to: int, tmp: Seq<char>) -> int
    decreases to - from,
{
    if to <= from {
        from
    } else if read_of(t[to - 1], tmp) is Some {
        to
    } else {
        last_read(t, from, to - 1, tmp)
    }
}

/// The last read of a part is in the part.
pub proof fn lemma_last_read(t: Seq<Stmt>, from: int, to: int, tmp: Seq<char>)
    ensures
        from <= last_read(t, from, to, tmp),
        last_read(t, from, to, tmp) <= to || to <= from,
    decreases to - from,
{
    if to > from {
        lemma_last_read(t, from, to - 1, tmp);
    }
}

/// The statements of a part of a list that are no reads.
pub open spec fn kept(t: Seq<Stmt>, from: int, to: int, tmp: Seq<char>) -> Seq<Stmt>
    decreases to - from,
{
    if to <= from {
        Seq::empty()
    } else if read_of(t[to - 1], tmp) is Some {
        kept(t, from, to - 1, tmp)
    } else {
        kept(t, from, to - 1, tmp).push(t[to - 1])
    }
}

/// Nothing between the reads is lost.
pub proof fn lemma_kept(t: Seq<Stmt>, from: int, to: int, tmp: Seq<char>, k: int)
    requires
        from <= k < to,
        read_of(t[k], tmp) is None,
    ensures
        kept(t, from, to, tmp).contains(t[k]),
    decreases to - from,
{
    let all = kept(t, from, to, tmp);
    let before = kept(t, from, to - 1, tmp);
    if k == to - 1 {
        assert(all[before.len() as int] == t[k]);
    } else {
        lemma_kept(t, from, to - 1, tmp, k);
        let i = choose|i: int| 0 <= i < before.len() && before[i] == t[k];
        assert(all[i] == t[k]);
    }
}

/// Whether the statement at `k`, no read, mentions what the read at `p` binds.
pub open spec fn crosses(t: Seq<Stmt>, k: int, p: int, tmp: Seq<char>) -> bool {
    read_of(t[k], tmp) is None && match read_of(t[p], tmp) {
        Some((Target::Variable(n), _)) => mentions(t[k], n),
        Some((Target::Register(r), _)) => mentions_register(t[k], r),
        _ => false,
    }
}

/// Whether a read in a part of a list cannot move up to its start.
pub open spec fn blocked(t: Seq<Stmt>, from: int, to: int, tmp: Seq<char>) -> bool {
    exists|k: int, p: int| from <= k < p < to && crosses(t, k, p, tmp)
}

pub open spec fn distinct(f: Seq<(int, Target)>) -> bool {
    forall|i: int, j: int| 0 <= i < j < f.len() ==> f[i].0 != f[j].0
}

/// The greatest index read.
pub open spec fn highest(f: Seq<(int, Target)>) -> int
    decreases f.len(),
{
    if f.len() == 0 {
        -1
    } else if f.last().0 > highest(f.drop_last()) {
        f.last().0
    } else {
        highest(f.drop_last())
    }
}

/// What the element of an index is read into.
pub open spec fn slot_of(f: Seq<(int, Target)>, n: int) -> Option<(Target, Option<Expr>)>
    decreases f.len(),
{
    if f.len() == 0 {
        None
    } else if f.last().0 == n {
        Some((f.last().1, None))
    } else {
        slot_of(f.drop_last(), n)
    }
}

/// The elements of the pattern that the reads are, up to the greatest index.
pub open spec fn pattern(f: Seq<(int, Target)>) -> Seq<Option<(Target, Option<Expr>)>> {
    Seq::new((highest(f) + 1) as nat, |n: int| slot_of(f, n))
}

/// Where the reads of the copy made at `i` end.
pub open spec fn reads_end(t: Seq<Stmt>, i: int, tmp: Seq<char>) -> int {
    last_read(t, i + 1, run_end(t, i + 1, tmp), tmp)
}

/// The pattern assignment that a copy made at `i` and its reads are, in a function with the
/// occurrences `w`. The indices differ, a statement between the reads mentions nothing that a
/// later read binds, and the copy occurs nowhere else in the function.
pub open spec fn fold(w: Seq<Atom>, t: Seq<Stmt>, i: int) -> Option<Stmt> {
    match anchor(t[i]) {
        Some(a) => {
            let tmp = a.0;
            let f = found(t, i + 1, run_end(t, i + 1, tmp), tmp);
            let last = reads_end(t, i, tmp);
            if f.len() > 0 && distinct(f) && !blocked(t, i + 1, last, tmp) && only_read(
                w,
                tmp,
                f.len(),
            ) {
                Some(Stmt::Assign { target: Target::DestructuringArray(pattern(f)), value: a.1 })
            } else {
                None
            }
        },
        None => None,
    }
}

pub open spec fn anchor_name(s: Stmt) -> Seq<char> {
    match anchor(s) {
        Some(a) => a.0,
        None => Seq::empty(),
    }
}

/// The list from a position on with its patterns recovered. The statements between the reads
/// follow the pattern.
pub open spec fn rebuilt(w: Seq<Atom>, t: Seq<Stmt>, i: int) -> Seq<Stmt>
    decreases t.len() - i,
{
    if i < 0 || i >= t.len() {
        Seq::empty()
    } else {
        match fold(w, t, i) {
            Some(x) => {
                let tmp = anchor_name(t[i]);
                let last = reads_end(t, i, tmp);
                proof {
                    lemma_run_end(t, i + 1, tmp);
                    lemma_last_read(t, i + 1, run_end(t, i + 1, tmp), tmp);
                }
                seq![x] + kept(t, i + 1, last, tmp) + rebuilt(w, t, last)
            },
            None => seq![unwrapped(t[i])] + rebuilt(w, t, i + 1),
        }
    }
}

/// The list with its patterns recovered, nested lists first, in a function with the occurrences
/// `w`.
pub open spec fn babel(w: Seq<Atom>, s: Seq<Stmt>) -> Seq<Stmt>
    decreases s, 2nat,
{
    rebuilt(w, babel_list(w, s), 0)
}

pub open spec fn babel_list(w: Seq<Atom>, s: Seq<Stmt>) -> Seq<Stmt>
    decreases s, 1nat,
{
    Seq::new(
        s.len(),
        |i: int|
            if 0 <= i < s.len() {
                babel_nested(w, s[i])
            } else {
                arbitrary()
            },
    )
}

/// The statement with the array patterns in its nested lists recovered.
pub open spec fn babel_nested(w: Seq<Atom>, s: Stmt) -> Stmt
    decreases s, 0nat,
{
    match s {
        Stmt::If { condition, then_body, else_body } => Stmt::If {
            condition,
            then_body: babel(w, then_body),
            else_body: babel(w, else_body),
        },
        Stmt::While { condition, body } => Stmt::While {
            condition,
            body: babel(w, body),
        },
        Stmt::DoWhile { body, condition } => Stmt::DoWhile {
            body: babel(w, body),
            condition,
        },
        Stmt::For { init, condition, update, body } => Stmt::For {
            init,
            condition,
            update,
            body: babel(w, body),
        },
        Stmt::ForIn { variable, object, body } => Stmt::ForIn {
            variable,
            object,
            body: babel(w, body),
        },
        Stmt::ForOf { variable, iterable, body } => Stmt::ForOf {
            variable,
            iterable,
            body: babel(w, body),
        },
        Stmt::Block(body) => Stmt::Block(babel(w, body)),
        Stmt::TryCatch { try_body, catch_param, catch_body, finally_body } => Stmt::TryCatch {
            try_body: babel(w, try_body),
            catch_param,
            catch_body: babel(w, catch_body),
            finally_body: babel(w, finally_body),
        },
        Stmt::Switch { discriminant, cases, default } => Stmt::Switch {
            discriminant,
            cases: babel_nested_cases(w, cases),
            default: babel_nested_default(w, default),
        },
        _ => s,
    }
}

pub open spec fn babel_nested_case(w: Seq<Atom>, c: (Expr, Seq<Stmt>)) -> (Expr, Seq<Stmt>)
    decreases c, 0nat,
{
    (c.0, babel(w, c.1))
}

pub open spec fn babel_nested_cases(w: Seq<Atom>, s: Seq<(Expr, Seq<Stmt>)>) -> Seq<(Expr, Seq<Stmt>)>
    decreases s, 0nat,
{
    Seq::new(
        s.len(),
        |i: int|
            if 0 <= i < s.len() {
                babel_nested_case(w, s[i])
            } else {
                arbitrary()
            },
    )
}

pub open spec fn babel_nested_default(w: Seq<Atom>, d: Option<Seq<Stmt>>) -> Option<Seq<Stmt>>
    decreases d, 0nat,
{
    match d {
        Some(b) => Some(babel(w, b)),
        None => None,
    }
}

fn is_helper(n: &str) -> (r: bool)
    ensures
        r == helper(n@),
{
    text::same(n, "_slicedToArray") || text::same(n, "_toArray") || text::same(
        n,
        "_toConsumableArray",
    )
}

fn find_source(e: &Expression) -> (r: Option<&Expression>)
    ensures
        match r {
            Some(x) => helper_source(e@) == Some(x@),
            None => helper_source(e@) is None,
        },
{
    proof {
        reveal_with_fuel(Expression::view, 2);
    }
    match e {
        Expression::Call { callee, arguments } => match &**callee {
            Expression::Value(Value::Variable(n)) => {
                assert(model::exprs(arguments@).len() == arguments@.len());
                if is_helper(n) && arguments.len() > 0 {
                    assert(model::exprs(arguments@)[0] == arguments@[0]@);
                    Some(&arguments[0])
                } else {
                    None
                }
            },
            _ => None,
        },
        _ => None,
    }
}

fn helper_anchor(s: &Statement) -> (r: Option<(&String, &Expression)>)
    ensures
        match r {
            Some(x) => anchor(s@) == Some((x.0@, x.1@)),
            None => anchor(s@) is None,
        },
{
    match bindings::as_binding(s) {
        Some(b) => match find_source(b.1) {
            Some(e) => Some((b.0, e)),
            None => None,
        },
        None => None,
    }
}

fn unwrap_helper_source(s: &Statement) -> (r: Statement)
    ensures
        r@ == unwrapped(s@),
{
    match s {
        Statement::Assign { target, value } => {
            if let Some(e) = find_source(value) {
                let is_pattern: bool = match target {
                    AssignTarget::DestructuringArray(_) => true,
                    AssignTarget::DestructuringArrayRest { .. } => true,
                    _ => false,
                };
                assert(is_pattern == (target@ is DestructuringArray
                    || target@ is DestructuringArrayRest));
                if is_pattern {
                    return Statement::Assign { target: target.clone(), value: e.clone() };
                }
            }
            s.clone()
        },
        _ => s.clone(),
    }
}

fn reads_name(s: &Statement, n: &String) -> (r: bool)
    ensures
        r == mentions(s@, n@),
{
    let a = occurs::of_stmt(s);
    occurs::has(&a, &Occurrence::Use(Value::Variable(n.clone()))) || occurs::has(
        &a,
        &Occurrence::WriteVariable(n.clone()),
    ) || occurs::has(&a, &Occurrence::Declare(n.clone())) || occurs::has(
        &a,
        &Occurrence::LoopVar(n.clone()),
    ) || occurs::has(&a, &Occurrence::CatchParam(n.clone()))
}

fn touches_register(s: &Statement, r: u32) -> (res: bool)
    ensures
        res == mentions_register(s@, r),
{
    let a = occurs::of_stmt(s);
    occurs::has(&a, &Occurrence::Use(Value::Register(r))) || occurs::has(
        &a,
        &Occurrence::WriteRegister(r),
    )
}

fn make_one(a: usize, b: usize, c: usize, d: usize) -> (r: bool)
    ensures
        r == (a + b + c + d == 1),
{
    a <= 1 && b <= 1 && c <= 1 && d <= 1 && a + b + c + d == 1
}

fn is_only_read(w: &Vec<Occurrence>, n: &String, k: usize) -> (r: bool)
    ensures
        r == only_read(occurs::occs(w@), n@, k as nat),
{
    occurs::count_of(w, &Occurrence::Use(Value::Variable(n.clone()))) == k && make_one(
        occurs::count_of(w, &Occurrence::WriteVariable(n.clone())),
        occurs::count_of(w, &Occurrence::Declare(n.clone())),
        occurs::count_of(w, &Occurrence::LoopVar(n.clone())),
        occurs::count_of(w, &Occurrence::CatchParam(n.clone())),
    )
}

fn find_index(k: &PropertyKey) -> (r: Option<usize>)
    ensures
        match r {
            Some(n) => index(k@) == Some(n as int) && n < usize::MAX,
            None => index(k@) is None,
        },
{
    match k {
        PropertyKey::Index(n) => {
            if *n >= 0 && (*n as u64) < (usize::MAX as u64) {
                Some(*n as usize)
            } else {
                None
            }
        },
        _ => None,
    }
}

fn indexed_read(s: &Statement, tmp: &str) -> (r: Option<(AssignTarget, usize)>)
    ensures
        match r {
            Some(x) => read_of(s@, tmp@) == Some((x.0@, x.1 as int)) && x.1 < usize::MAX,
            None => read_of(s@, tmp@) is None,
        },
{
    proof {
        reveal_with_fuel(Expression::view, 2);
        reveal_with_fuel(AssignTarget::view, 2);
    }
    let value: &Expression = match s {
        Statement::Let { value, .. } => value,
        Statement::Assign { value, .. } => value,
        _ => return None,
    };
    match value {
        Expression::Member { object, property, .. } => match &**object {
            Expression::Value(Value::Variable(name)) => {
                if !text::same(name, tmp) {
                    return None;
                }
                match find_index(property) {
                    Some(n) => {
                        let target: AssignTarget = match s {
                            Statement::Let { name, .. } => AssignTarget::Variable(name.clone()),
                            Statement::Assign { target, .. } => target.clone(),
                            _ => return None,
                        };
                        Some((target, n))
                    },
                    None => None,
                }
            },
            _ => None,
        },
        _ => None,
    }
}

fn find_run_end(v: &Vec<Statement>, from: usize, tmp: &String) -> (r: usize)
    requires
        from <= v@.len(),
    ensures
        r == run_end(model::stmts(v@), from as int, tmp@),
        from <= r <= v@.len(),
{
    let ghost all = model::stmts(v@);
    let mut j: usize = from;
    while j < v.len()
        invariant
            from <= j <= v.len(),
            all == model::stmts(v@),
            run_end(all, from as int, tmp@) == run_end(all, j as int, tmp@),
        decreases v.len() - j,
    {
        assert(all[j as int] == v@[j as int]@);
        if indexed_read(&v[j], tmp).is_none() && reads_name(&v[j], tmp) {
            return j;
        }
        j += 1;
    }
    assert(all.len() == v@.len());
    j
}

pub open spec fn read_view(x: (usize, AssignTarget)) -> (int, Target) {
    (x.0 as int, x.1@)
}

pub open spec fn reads_view(s: Seq<(usize, AssignTarget)>) -> Seq<(int, Target)> {
    s.map_values(|x: (usize, AssignTarget)| read_view(x))
}

/// The reads of an array from a position on, and where they end.
fn collect_reads(v: &Vec<Statement>, from: usize, tmp: &String) -> (r: (
    Vec<(usize, AssignTarget)>,
    usize,
))
    requires
        from <= v@.len(),
    ensures
        reads_view(r.0@) == found(
            model::stmts(v@),
            from as int,
            run_end(model::stmts(v@), from as int, tmp@),
            tmp@,
        ),
        r.1 == last_read(
            model::stmts(v@),
            from as int,
            run_end(model::stmts(v@), from as int, tmp@),
            tmp@,
        ),
        from <= r.1 <= v@.len(),
        forall|i: int| 0 <= i < r.0@.len() ==> (#[trigger] r.0@[i]).0 < usize::MAX,
{
    let ghost all = model::stmts(v@);
    let end: usize = find_run_end(v, from, tmp);
    let mut out: Vec<(usize, AssignTarget)> = Vec::new();
    let mut last: usize = from;
    let mut j: usize = from;
    assert(reads_view(out@) =~= Seq::empty());
    while j < end
        invariant
            from <= last <= j <= end <= v@.len(),
            all == model::stmts(v@),
            reads_view(out@) == found(all, from as int, j as int, tmp@),
            last == last_read(all, from as int, j as int, tmp@),
            forall|i: int| 0 <= i < out@.len() ==> (#[trigger] out@[i]).0 < usize::MAX,
        decreases end - j,
    {
        assert(all[j as int] == v@[j as int]@);
        if let Some(x) = indexed_read(&v[j], tmp) {
            let ghost before = reads_view(out@);
            let y = (x.1, x.0);
            let ghost z = read_view(y);
            out.push(y);
            assert(reads_view(out@) =~= before.push(z));
            last = j + 1;
        }
        j += 1;
    }
    (out, last)
}

fn are_distinct(v: &Vec<(usize, AssignTarget)>) -> (r: bool)
    ensures
        r == distinct(reads_view(v@)),
{
    let ghost all = reads_view(v@);
    let mut j: usize = 0;
    while j < v.len()
        invariant
            j <= v.len(),
            all == reads_view(v@),
            forall|a: int, b: int| 0 <= a < b < j ==> all[a].0 != all[b].0,
        decreases v.len() - j,
    {
        let mut i: usize = 0;
        assert(all[j as int] == read_view(v@[j as int]));
        while i < j
            invariant
                i <= j < v.len(),
                all == reads_view(v@),
                forall|a: int| 0 <= a < i ==> (#[trigger] all[a]).0 != all[j as int].0,
            decreases j - i,
        {
            assert(all[i as int] == read_view(v@[i as int]));
            assert(all[j as int] == read_view(v@[j as int]));
            if v[i].0 == v[j].0 {
                return false;
            }
            i += 1;
        }
        j += 1;
    }
    true
}

fn is_crossing(v: &Vec<Statement>, k: usize, p: usize, tmp: &String) -> (r: bool)
    requires
        k < v@.len(),
        p < v@.len(),
    ensures
        r == crosses(model::stmts(v@), k as int, p as int, tmp@),
{
    let ghost all = model::stmts(v@);
    assert(all[k as int] == v@[k as int]@);
    assert(all[p as int] == v@[p as int]@);
    if indexed_read(&v[k], tmp).is_some() {
        return false;
    }
    match indexed_read(&v[p], tmp) {
        Some((AssignTarget::Variable(n), _)) => reads_name(&v[k], &n),
        Some((AssignTarget::Register(r), _)) => touches_register(&v[k], r),
        _ => false,
    }
}

fn is_blocked(v: &Vec<Statement>, from: usize, to: usize, tmp: &String) -> (r: bool)
    requires
        to <= v@.len(),
    ensures
        r == blocked(model::stmts(v@), from as int, to as int, tmp@),
{
    let ghost all = model::stmts(v@);
    let mut k: usize = from;
    while k < to
        invariant
            from <= k,
            to <= v@.len(),
            all == model::stmts(v@),
            forall|a: int, b: int| from <= a < k && a < b < to ==> !crosses(all, a, b, tmp@),
        decreases to - k,
    {
        let mut p: usize = k + 1;
        while p < to
            invariant
                from <= k < p,
                k < to <= v@.len(),
                all == model::stmts(v@),
                forall|b: int| k < b < p ==> !crosses(all, k as int, b, tmp@),
            decreases to - p,
        {
            if is_crossing(v, k, p, tmp) {
                return true;
            }
            p += 1;
        }
        k += 1;
    }
    false
}

fn find_highest(v: &Vec<(usize, AssignTarget)>) -> (r: usize)
    requires
        forall|i: int| 0 <= i < v@.len() ==> (#[trigger] v@[i]).0 < usize::MAX,
    ensures
        r == highest(reads_view(v@)) + 1,
{
    let ghost all = reads_view(v@);
    let mut n: usize = 0;
    let mut i: usize = 0;
    while i < v.len()
        invariant
            i <= v.len(),
            all == reads_view(v@),
            n == highest(all.take(i as int)) + 1,
            forall|i: int| 0 <= i < v@.len() ==> (#[trigger] v@[i]).0 < usize::MAX,
        decreases v.len() - i,
    {
        assert(all.take(i + 1).drop_last() =~= all.take(i as int));
        assert(all[i as int] == read_view(v@[i as int]));
        if v[i].0 >= n {
            n = v[i].0 + 1;
        }
        i += 1;
    }
    assert(all.take(all.len() as int) =~= all);
    n
}

fn find_slot(v: &Vec<(usize, AssignTarget)>, n: usize) -> (r: Option<
    (AssignTarget, Option<Expression>),
>)
    ensures
        model::slot(r) == slot_of(reads_view(v@), n as int),
{
    let ghost all = reads_view(v@);
    let mut i: usize = v.len();
    assert(all.take(all.len() as int) =~= all);
    while i > 0
        invariant
            i <= v.len(),
            all == reads_view(v@),
            slot_of(all, n as int) == slot_of(all.take(i as int), n as int),
        decreases i,
    {
        assert(all.take(i as int).drop_last() =~= all.take(i - 1));
        assert(all[i - 1] == read_view(v@[i - 1]));
        if v[i - 1].0 == n {
            let r = Some((v[i - 1].1.clone(), None::<Expression>));
            return r;
        }
        i -= 1;
    }
    None
}

fn make_pattern(v: &Vec<(usize, AssignTarget)>) -> (r: Vec<
    Option<(AssignTarget, Option<Expression>)>,
>)
    requires
        forall|i: int| 0 <= i < v@.len() ==> (#[trigger] v@[i]).0 < usize::MAX,
    ensures
        model::slots(r@) == pattern(reads_view(v@)),
{
    let n: usize = find_highest(v);
    let mut out: Vec<Option<(AssignTarget, Option<Expression>)>> = Vec::new();
    while out.len() < n
        invariant
            out@.len() <= n,
            forall|k: int|
                0 <= k < out@.len() ==> model::slot(#[trigger] out@[k]) == slot_of(
                    reads_view(v@),
                    k,
                ),
        decreases n - out.len(),
    {
        let x = find_slot(v, out.len());
        out.push(x);
    }
    assert(model::slots(out@) =~= pattern(reads_view(v@)));
    out
}

fn push_kept(v: &Vec<Statement>, from: usize, to: usize, tmp: &str, out: &mut Vec<Statement>)
    requires
        from <= to <= v@.len(),
    ensures
        model::stmts(final(out)@) == model::stmts(old(out)@) + kept(
            model::stmts(v@),
            from as int,
            to as int,
            tmp@,
        ),
{
    let ghost all = model::stmts(v@);
    let ghost first = model::stmts(out@);
    let mut j: usize = from;
    assert(first + kept(all, from as int, from as int, tmp@) =~= first);
    while j < to
        invariant
            from <= j <= to <= v@.len(),
            all == model::stmts(v@),
            model::stmts(out@) == first + kept(all, from as int, j as int, tmp@),
        decreases to - j,
    {
        assert(all[j as int] == v@[j as int]@);
        if indexed_read(&v[j], tmp).is_none() {
            let ghost before = model::stmts(out@);
            out.push(v[j].clone());
            assert(model::stmts(out@) =~= before.push(all[j as int]));
            assert(model::stmts(out@) =~= first + kept(all, from as int, j + 1, tmp@));
        }
        j += 1;
    }
}

/// The pattern assignment at a position and where its reads end.
fn find_fold(w: &Vec<Occurrence>, v: &Vec<Statement>, i: usize) -> (r: Option<(Statement, usize)>)
    requires
        i < v.len(),
    ensures
        match r {
            Some(x) => {
                &&& fold(occurs::occs(w@), model::stmts(v@), i as int) == Some(x.0@)
                &&& x.1 == reads_end(
                    model::stmts(v@),
                    i as int,
                    anchor_name(model::stmts(v@)[i as int]),
                )
                &&& i < x.1 <= v@.len()
            },
            None => fold(occurs::occs(w@), model::stmts(v@), i as int) is None,
        },
{
    let ghost all = model::stmts(v@);
    assert(all[i as int] == v@[i as int]@);
    match helper_anchor(&v[i]) {
        Some(a) => {
            let x = collect_reads(v, i + 1, a.0);
            assert(reads_view(x.0@).len() == x.0@.len());
            if x.0.len() > 0 && are_distinct(&x.0) && !is_blocked(v, i + 1, x.1, a.0)
                && is_only_read(w, a.0, x.0.len()) {
                Some(
                    (
                        Statement::Assign {
                            target: AssignTarget::DestructuringArray(make_pattern(&x.0)),
                            value: a.1.clone(),
                        },
                        x.1,
                    ),
                )
            } else {
                None
            }
        },
        None => None,
    }
}

fn rebuild_list(w: &Vec<Occurrence>, v: &Vec<Statement>) -> (r: Vec<Statement>)
    ensures
        model::stmts(r@) == rebuilt(occurs::occs(w@), model::stmts(v@), 0),
{
    let ghost all = model::stmts(v@);
    let ghost wa = occurs::occs(w@);
    let ghost goal = rebuilt(wa, all, 0);
    let mut out: Vec<Statement> = Vec::new();
    let mut i: usize = 0;
    assert(model::stmts(out@) =~= Seq::empty());
    assert(goal =~= model::stmts(out@) + goal);
    while i < v.len()
        invariant
            i <= v.len(),
            all == model::stmts(v@),
            wa == occurs::occs(w@),
            goal == model::stmts(out@) + rebuilt(wa, all, i as int),
        decreases v.len() - i,
    {
        assert(all[i as int] == v@[i as int]@);
        let ghost out0 = model::stmts(out@);
        match find_fold(w, v, i) {
            Some(x) => {
                let ghost y = x.0@;
                let ghost tmp = anchor_name(all[i as int]);
                let ghost tail = rebuilt(wa, all, x.1 as int);
                out.push(x.0);
                assert(model::stmts(out@) =~= out0.push(y));
                if let Some(a) = helper_anchor(&v[i]) {
                    push_kept(v, i + 1, x.1, a.0, &mut out);
                }
                let ghost between = kept(all, i + 1, x.1 as int, tmp);
                assert(model::stmts(out@) == out0.push(y) + between);
                assert(rebuilt(wa, all, i as int) == seq![y] + between + tail);
                assert(out0 + (seq![y] + between + tail) =~= out0.push(y) + between + tail);
                i = x.1;
            },
            None => {
                let ghost tail = rebuilt(wa, all, i + 1);
                let s = unwrap_helper_source(&v[i]);
                let ghost y = s@;
                out.push(s);
                assert(model::stmts(out@) =~= out0.push(y));
                assert(rebuilt(wa, all, i as int) == seq![y] + tail);
                assert(out0 + (seq![y] + tail) =~= out0.push(y) + tail);
                i += 1;
            },
        }
    }
    assert(goal =~= model::stmts(out@));
    out
}

fn rebuild(w: &Vec<Occurrence>, v: &Vec<Statement>) -> (r: Vec<Statement>)
    ensures
        model::stmts(r@) == babel(occurs::occs(w@), model::stmts(v@)),
    decreases v, 2nat,
{
    let mut inner: Vec<Statement> = Vec::new();
    let mut i: usize = 0;
    while i < v.len()
        invariant
            i <= v.len(),
            inner.len() == i,
            forall|k: int|
                0 <= k < i ==> (#[trigger] inner@[k])@ == babel_nested(
                    occurs::occs(w@),
                    v@[k]@,
                ),
        decreases v.len() - i,
    {
        let x = rebuild_nested(w, &v[i]);
        inner.push(x);
        i += 1;
    }
    assert(model::stmts(inner@) =~= babel_list(occurs::occs(w@), model::stmts(v@)));
    rebuild_list(w, &inner)
}

fn rebuild_nested(w: &Vec<Occurrence>, s: &Statement) -> (r: Statement)
    ensures
        r@ == babel_nested(occurs::occs(w@), s@),
    decreases s, 0nat,
{
    match s {
        Statement::If { condition, then_body, else_body } => Statement::If {
            condition: condition.clone(),
            then_body: rebuild(w, then_body),
            else_body: rebuild(w, else_body),
        },
        Statement::While { condition, body } => Statement::While {
            condition: condition.clone(),
            body: rebuild(w, body),
        },
        Statement::DoWhile { body, condition } => Statement::DoWhile {
            body: rebuild(w, body),
            condition: condition.clone(),
        },
        Statement::For { init, condition, update, body } => Statement::For {
            init: clone_opt_stmt(init),
            condition: clone_opt_expr(condition),
            update: clone_opt_stmt(update),
            body: rebuild(w, body),
        },
        Statement::ForIn { variable, object, body } => Statement::ForIn {
            variable: variable.clone(),
            object: object.clone(),
            body: rebuild(w, body),
        },
        Statement::ForOf { variable, iterable, body } => Statement::ForOf {
            variable: variable.clone(),
            iterable: iterable.clone(),
            body: rebuild(w, body),
        },
        Statement::Block(body) => Statement::Block(rebuild(w, body)),
        Statement::TryCatch { try_body, catch_param, catch_body, finally_body } => Statement::TryCatch {
            try_body: rebuild(w, try_body),
            catch_param: clone_opt_text(catch_param),
            catch_body: rebuild(w, catch_body),
            finally_body: rebuild(w, finally_body),
        },
        Statement::Switch { discriminant, cases, default } => Statement::Switch {
            discriminant: discriminant.clone(),
            cases: rebuild_nested_cases(w, cases),
            default: rebuild_nested_default(w, default),
        },
        _ => s.clone(),
    }
}

fn rebuild_nested_cases(w: &Vec<Occurrence>, v: &Vec<(Expression, Vec<Statement>)>) -> (r: Vec<(Expression, Vec<Statement>)>)
    ensures
        model::case_arms(r@) == babel_nested_cases(occurs::occs(w@), model::case_arms(v@)),
    decreases v, 0nat,
{
    let mut out: Vec<(Expression, Vec<Statement>)> = Vec::new();
    let mut i: usize = 0;
    while i < v.len()
        invariant
            i <= v.len(),
            out.len() == i,
            forall|k: int|
                0 <= k < i ==> model::case_arm(#[trigger] out@[k]) == babel_nested_case(
                    occurs::occs(w@), model::case_arm(v@[k]),
                ),
        decreases v.len() - i,
    {
        out.push((v[i].0.clone(), rebuild(w, &v[i].1)));
        i += 1;
    }
    assert(model::case_arms(out@) =~= babel_nested_cases(occurs::occs(w@), model::case_arms(v@)));
    out
}

fn rebuild_nested_default(w: &Vec<Occurrence>, d: &Option<Vec<Statement>>) -> (r: Option<Vec<Statement>>)
    ensures
        model::opt_stmts(r) == babel_nested_default(occurs::occs(w@), model::opt_stmts(*d)),
    decreases d, 0nat,
{
    match d {
        Some(b) => Some(rebuild(w, b)),
        None => None,
    }
}

/// Recovers array patterns from copies made by a helper and reads of their elements.
pub fn reconstruct_babel_array_destructuring(stmts: Vec<Statement>) -> (r: Vec<Statement>)
    ensures
        model::stmts(r@) == babel(
            occurs::stmts_atoms(model::stmts(stmts@)),
            model::stmts(stmts@),
        ),
{
    let w = occurs::of_stmts(&stmts);
    rebuild(&w, &stmts)
}

/// The array patterns of every list in a statement are recovered, and the rest of it stays.
pub proof fn lemma_array_patterns_of_every_list(w: Seq<Atom>, s: Stmt)
    ensures
        bodies::within(babel_nested(w, s), s, |b: Seq<Stmt>| babel(w, b)),
{
    let f = |b: Seq<Stmt>| babel(w, b);
    let t = babel_nested(w, s);
    if let Stmt::Switch { cases, default, .. } = s {
        let made = babel_nested_cases(w, cases);
        let rest = babel_nested_default(w, default);
        assert forall|i: int| 0 <= i < cases.len() implies #[trigger] made[i] == (
            cases[i].0,
            f(cases[i].1),
        ) by {
            assert(made[i] == babel_nested_case(w, cases[i]));
        }
        assert(Seq::new(made.len(), |i: int| (made[i].0, Seq::<Stmt>::empty())) =~= Seq::new(
            cases.len(),
            |i: int| (cases[i].0, Seq::<Stmt>::empty()),
        ));
    }
    assert(bodies::bodies(t) =~= bodies::bodies(s).map_values(f));
}

} // verus!
