//! What a recovered generator has in common with the state machine that it was compiled to.

use super::state_machine_v98 as machine;
use super::state_machine_v98::{Case, Suspend};
use crate::ir::model::{Const, Expr, Key, Prop, Stmt, Target, Val};
use crate::ir::visit;
use crate::ir::{BinaryOp, UnaryOp};
use vstd::prelude::*;

verus! {

/// What a generator does to be seen from outside: it runs a statement, gives a value and stops,
/// takes the value that it is resumed with, or returns.
pub enum Event {
    Does(Stmt),
    Gives(Expr),
    Takes(Target),
    Returns(Expr),
}

pub open spec fn event_of(s: Stmt) -> Seq<Event> {
    match s {
        Stmt::Expr(Expr::Yield { value, delegate: false }) => seq![Event::Gives(*value)],
        Stmt::Assign { target, value: Expr::Yield { value, delegate: false } } => seq![
            Event::Gives(*value),
            Event::Takes(target),
        ],
        Stmt::Return(Some(v)) => seq![Event::Returns(v)],
        _ => seq![Event::Does(s)],
    }
}

/// What the body of a generator does, in order.
pub open spec fn events(s: Seq<Stmt>) -> Seq<Event>
    decreases s.len(),
{
    if s.len() == 0 {
        Seq::empty()
    } else {
        events(s.drop_last()) + event_of(s.last())
    }
}

pub open spec fn is_undefined(e: Expr) -> bool {
    e == Expr::Value(Val::Constant(Const::Undefined))
}

/// What a case of a machine does: it takes the value that it is resumed with, runs, and gives or
/// returns a value. To return `undefined` is to come to the end.
pub open spec fn case_events(c: Case) -> Seq<Event> {
    let takes = match c.resume {
        Some(t) => seq![Event::Takes(t)],
        None => Seq::empty(),
    };
    let leaves = if !c.suspend.done {
        seq![Event::Gives(c.suspend.value)]
    } else if is_undefined(c.suspend.value) {
        Seq::empty()
    } else {
        seq![Event::Returns(c.suspend.value)]
    };
    takes + events(c.suspend.pre) + leaves
}

/// What the cases of a machine do, one after the other.
pub open spec fn all_events(s: Seq<Case>) -> Seq<Event>
    decreases s.len(),
{
    if s.len() == 0 {
        Seq::empty()
    } else {
        all_events(s.drop_last()) + case_events(s.last())
    }
}

/// The same case, without the value that it is resumed with: nothing takes the value that starts a
/// generator.
pub open spec fn started(c: Case) -> Case {
    Case { resume: None, suspend: c.suspend }
}

proof fn lemma_events_append(a: Seq<Stmt>, b: Seq<Stmt>)
    ensures
        events(a + b) == events(a) + events(b),
    decreases b.len(),
{
    if b.len() == 0 {
        assert(a + b =~= a);
        assert(events(a) + events(b) =~= events(a));
    } else {
        assert((a + b).drop_last() =~= a + b.drop_last());
        assert((a + b).last() == b.last());
        lemma_events_append(a, b.drop_last());
        assert(events(a + b) =~= events(a) + events(b));
    }
}

proof fn lemma_one_event(s: Stmt)
    ensures
        events(seq![s]) == event_of(s),
{
    assert(seq![s].drop_last() =~= Seq::<Stmt>::empty());
    reveal_with_fuel(events, 2);
    assert(events(seq![s]) =~= event_of(s));
}

proof fn lemma_yield_events(v: Expr, t: Option<Target>)
    ensures
        event_of(machine::yield_stmt(v, t)) == seq![Event::Gives(v)] + (match t {
            Some(x) => seq![Event::Takes(x)],
            None => Seq::empty(),
        }),
{
    assert(event_of(machine::yield_stmt(v, t)) =~= seq![Event::Gives(v)] + (match t {
        Some(x) => seq![Event::Takes(x)],
        None => Seq::empty(),
    }));
}

/// The suspending cases but for the last value that they give.
proof fn lemma_chain_events(s: Seq<Case>)
    requires
        s.len() > 0,
        forall|i: int| 0 <= i < s.len() ==> !(#[trigger] s[i]).suspend.done,
    ensures
        events(machine::chain(s)) + seq![Event::Gives(s.last().suspend.value)] == all_events(
            s.update(0, started(s[0])),
        ),
    decreases s.len(),
{
    let u = s.update(0, started(s[0]));
    if s.len() == 1 {
        assert(u.drop_last() =~= Seq::<Case>::empty());
        assert(u.last() == started(s[0]));
        reveal_with_fuel(all_events, 2);
        assert(all_events(u) =~= case_events(started(s[0])));
        assert(events(machine::chain(s)) + seq![Event::Gives(s.last().suspend.value)]
            =~= all_events(u));
    } else {
        let rest = s.drop_last();
        let v = rest.last().suspend.value;
        let y = machine::yield_stmt(v, s.last().resume);
        assert forall|i: int| 0 <= i < rest.len() implies !(#[trigger] rest[i]).suspend.done by {
            assert(rest[i] == s[i]);
        }
        lemma_chain_events(rest);
        assert(u.drop_last() =~= rest.update(0, started(rest[0])));
        assert(u.last() == s.last());
        let c = machine::chain(rest);
        lemma_events_append(c + seq![y], s.last().suspend.pre);
        lemma_events_append(c, seq![y]);
        lemma_one_event(y);
        lemma_yield_events(v, s.last().resume);
        assert(!s[s.len() - 1].suspend.done);
        assert(events(machine::chain(s)) + seq![Event::Gives(s.last().suspend.value)]
            =~= all_events(u));
    }
}

/// The body of a generator does what the cases of its machine do, in order: one `yield` for each
/// suspending case, with the value that the case hands out, and then what the last case does and
/// returns.
pub proof fn lemma_body_does_what_the_cases_do(suspends: Seq<Case>, t: Case)
    requires
        suspends.len() > 0,
        forall|i: int| 0 <= i < suspends.len() ==> !(#[trigger] suspends[i]).suspend.done,
        t.suspend.done,
    ensures
        events(machine::emitted(suspends, t)) == all_events(
            suspends.update(0, started(suspends[0])),
        ) + case_events(t),
{
    let v = suspends.last().suspend.value;
    let y = machine::yield_stmt(v, t.resume);
    let c = machine::chain(suspends);
    let body = c + seq![y] + t.suspend.pre;
    lemma_chain_events(suspends);
    lemma_events_append(c + seq![y], t.suspend.pre);
    lemma_events_append(c, seq![y]);
    lemma_one_event(y);
    lemma_yield_events(v, t.resume);
    let r = Stmt::Return(Some(t.suspend.value));
    assert(body.push(r) =~= body + seq![r]);
    lemma_events_append(body, seq![r]);
    lemma_one_event(r);
    assert(events(machine::emitted(suspends, t)) =~= all_events(
        suspends.update(0, started(suspends[0])),
    ) + case_events(t));
}

/// How many of the first `n` cases suspend.
pub open spec fn suspending(bodies: Seq<Seq<Stmt>>, vars: Seq<Seq<char>>, n: int) -> int
    decreases n,
{
    if n <= 0 {
        0
    } else if machine::parsed(bodies[n - 1], vars) matches Some(c) && !c.suspend.done {
        suspending(bodies, vars, n - 1) + 1
    } else {
        suspending(bodies, vars, n - 1)
    }
}

/// Whether a case has something to say at its end: a value, or statements before it.
pub open spec fn ends_with_work(c: Case) -> bool {
    c.suspend.pre.len() > 0 || !(is_undefined(c.suspend.value) || c.suspend.value == Expr::Value(
        Val::Constant(Const::Null),
    ))
}

/// Whether a statement does nothing but leave.
pub open spec fn leaves(s: Stmt) -> bool
    decreases s,
{
    match s {
        Stmt::Throw(_) => true,
        Stmt::Return(_) => true,
        Stmt::Comment(_) => true,
        Stmt::If { then_body, else_body, .. } => all_leave(then_body) && all_leave(else_body),
        Stmt::Block(body) => all_leave(body),
        _ => false,
    }
}

pub open spec fn all_leave(s: Seq<Stmt>) -> bool
    decreases s,
{
    forall|i: int| 0 <= i < s.len() ==> leaves(#[trigger] s[i])
}

proof fn lemma_only_exits_leaves(s: Stmt)
    requires
        machine::only_exits(s),
    ensures
        leaves(s),
    decreases s,
{
    match s {
        Stmt::If { then_body, else_body, .. } => {
            lemma_all_leave(then_body);
            lemma_all_leave(else_body);
        },
        Stmt::Block(body) => lemma_all_leave(body),
        _ => {},
    }
}

proof fn lemma_all_leave(s: Seq<Stmt>)
    requires
        machine::all_only_exit(s),
    ensures
        all_leave(s),
    decreases s,
{
    assert forall|i: int| 0 <= i < s.len() implies leaves(#[trigger] s[i]) by {
        lemma_only_exits_leaves(s[i]);
    }
}

proof fn lemma_suspending_part(bodies: Seq<Seq<Stmt>>, vars: Seq<Seq<char>>, n: int)
    requires
        bodies.len() > 0,
        n <= bodies.len() - 1,
    ensures
        suspending(bodies.drop_last(), vars, n) == suspending(bodies, vars, n),
        suspending(bodies, vars, n) >= 0,
    decreases n,
{
    if n > 0 {
        lemma_suspending_part(bodies, vars, n - 1);
    }
}

/// A machine holds every case of its dispatch: those that suspend, in order, and one that ends it.
/// Any other end has nothing to say, and a case that is not understood does nothing but leave.
pub proof fn lemma_machine_holds_every_case(bodies: Seq<Seq<Stmt>>, vars: Seq<Seq<char>>)
    ensures
        machine::gathered(bodies, vars) matches Some(m) ==> {
            &&& m.suspends.len() == suspending(bodies, vars, bodies.len() as int)
            &&& forall|k: int|
                0 <= k < m.suspends.len() ==> !(#[trigger] m.suspends[k]).suspend.done
            &&& m.terminal matches Some(t) ==> t.suspend.done
            &&& forall|i: int|
                #![trigger bodies[i]]
                0 <= i < bodies.len() ==> match machine::parsed(bodies[i], vars) {
                    Some(c) => if c.suspend.done {
                        m.terminal is Some && (m.terminal == Some(c) || !ends_with_work(c))
                    } else {
                        let k = suspending(bodies, vars, i);
                        0 <= k < m.suspends.len() && m.suspends[k] == c
                    },
                    None => all_leave(machine::stripped(bodies[i])),
                }
        },
    decreases bodies.len(),
{
    if bodies.len() > 0 {
        let rest = bodies.drop_last();
        lemma_machine_holds_every_case(rest, vars);
        lemma_suspending_part(bodies, vars, rest.len() as int);
        if let Some(m) = machine::gathered(bodies, vars) {
            let before = machine::gathered(rest, vars)->0;
            let last = bodies[bodies.len() - 1];
            if machine::parsed(last, vars) is None {
                lemma_all_leave(machine::stripped(last));
            }
            assert forall|i: int|
                #![trigger bodies[i]]
                0 <= i < bodies.len() implies match machine::parsed(bodies[i], vars) {
                Some(c) => if c.suspend.done {
                    m.terminal is Some && (m.terminal == Some(c) || !ends_with_work(c))
                } else {
                    let k = suspending(bodies, vars, i);
                    0 <= k < m.suspends.len() && m.suspends[k] == c
                },
                None => all_leave(machine::stripped(bodies[i])),
            } by {
                if i < rest.len() {
                    assert(rest[i] == bodies[i]);
                    lemma_suspending_part(bodies, vars, i);
                }
            }
        }
    }
}

/// The last statement of a recovered generator returns what the last case of its machine hands
/// out, where that is not `undefined`; what it does is what the cases of the machine do.
pub proof fn lemma_generator_does_what_its_machine_does(body: Seq<Stmt>)
    ensures
        machine::generator(body) matches Some(out) ==> {
            let bodies = machine::cases(machine::dispatch(body)->0);
            let vars = machine::state_names(visit::stmts_visits(body));
            let m = machine::gathered(bodies, vars)->0;
            let t = m.terminal->0;
            &&& machine::gathered(bodies, vars) is Some && m.terminal is Some
            &&& t.suspend.done
            &&& m.suspends.len() == suspending(bodies, vars, bodies.len() as int)
            &&& m.suspends.len() > 0
            &&& events(out) == all_events(m.suspends.update(0, started(m.suspends[0])))
                + case_events(t)
            &&& !is_undefined(t.suspend.value) ==> out.last() == Stmt::Return(
                Some(t.suspend.value),
            )
        },
{
    if let Some(out) = machine::generator(body) {
        let bodies = machine::cases(machine::dispatch(body)->0);
        let vars = machine::state_names(visit::stmts_visits(body));
        lemma_machine_holds_every_case(bodies, vars);
        let m = machine::gathered(bodies, vars)->0;
        lemma_body_does_what_the_cases_do(m.suspends, m.terminal->0);
    }
}

/// The branch that a dispatch takes: that of the first condition that holds, or else what is left.
pub open spec fn taken(s: Stmt, holds: spec_fn(Expr) -> bool) -> Seq<Stmt>
    decreases s,
{
    match s {
        Stmt::If { condition, then_body, else_body } => if holds(condition) {
            then_body
        } else if else_body.len() == 1 && dispatches(else_body[0]) {
            taken(else_body[0], holds)
        } else {
            else_body
        },
        _ => Seq::empty(),
    }
}

/// Whether a condition compares a variable with a whole number.
pub open spec fn compares_label(e: Expr) -> bool {
    match e {
        Expr::Binary { op: BinaryOp::StrictEq, left, right } => {
            let number = |x: Expr| x matches Expr::Value(Val::Constant(Const::Integer(_)));
            let name = |x: Expr|
                match x {
                    Expr::Value(Val::Variable(_)) => true,
                    Expr::Value(Val::ClosureVar { .. }) => true,
                    _ => false,
                };
            number(*left) && name(*right) || name(*left) && number(*right)
        },
        _ => false,
    }
}

pub open spec fn dispatches(s: Stmt) -> bool {
    s matches Stmt::If { condition, .. } && compares_label(condition)
}

/// The number of conditions of a dispatch that fail before one holds.
pub open spec fn failures(s: Stmt, holds: spec_fn(Expr) -> bool) -> int
    decreases s,
{
    match s {
        Stmt::If { condition, else_body, .. } => if holds(condition) {
            0
        } else if else_body.len() == 1 && dispatches(else_body[0]) {
            1 + failures(else_body[0], holds)
        } else {
            1
        },
        _ => 0,
    }
}

/// The cases of a dispatch are its branches: whichever condition holds, the branch that is taken is
/// the case of that place, and what is left when none does is the last.
pub proof fn lemma_cases_are_the_branches(s: Stmt, holds: spec_fn(Expr) -> bool)
    requires
        dispatches(s),
    ensures
        ({
            let k = failures(s, holds);
            &&& 0 <= k <= machine::cases(s).len()
            &&& k < machine::cases(s).len() ==> taken(s, holds) == machine::cases(s)[k]
            &&& k == machine::cases(s).len() ==> taken(s, holds).len() == 0
        }),
    decreases s,
{
    if let Stmt::If { condition, then_body, else_body } = s {
        assert(machine::label_condition(condition));
        let all = machine::cases(s);
        if else_body.len() == 1 && dispatches(else_body[0]) {
            lemma_cases_are_the_branches(else_body[0], holds);
            assert(machine::dispatch_if(else_body[0]));
            let inner = machine::cases(else_body[0]);
            assert(all =~= seq![then_body] + inner);
        } else {
            assert(!(else_body.len() == 1 && machine::dispatch_if(else_body[0])));
        }
    }
}

/// How a case of a machine ends: it hands out a result, throws, comes to its end, or leaves in
/// another way.
pub enum End {
    Hands(Expr, bool),
    Throws(Expr),
    Open,
    Astray,
}

/// The value of the last property under a name: the one that counts.
pub open spec fn property(ps: Seq<Prop>, n: Seq<char>) -> Option<Expr>
    decreases ps.len(),
{
    if ps.len() == 0 {
        None
    } else if ps.last().key == Key::Ident(n) || ps.last().key == Key::String(n) {
        Some(ps.last().value)
    } else {
        property(ps.drop_last(), n)
    }
}

/// Whether at most one property has a name.
pub open spec fn once(ps: Seq<Prop>, n: Seq<char>) -> bool {
    forall|i: int, j: int|
        0 <= i < j < ps.len() && ((#[trigger] ps[i]).key == Key::Ident(n) || ps[i].key
            == Key::String(n)) ==> !((#[trigger] ps[j]).key == Key::Ident(n) || ps[j].key
            == Key::String(n))
}

pub open spec fn is_true(e: Expr) -> bool {
    match e {
        Expr::Value(Val::Constant(Const::Bool(b))) => b,
        Expr::Value(Val::Constant(Const::Integer(n))) => n != 0,
        _ => false,
    }
}

/// The result that an object is: its value, and whether it is the last.
pub open spec fn result(e: Expr) -> Option<(Expr, bool)> {
    match e {
        Expr::Object { properties } => match (
            property(properties, "value"@),
            property(properties, "done"@),
        ) {
            (Some(v), Some(d)) => Some((v, is_true(d))),
            _ => None,
        },
        _ => None,
    }
}

pub open spec fn returns_name(s: Stmt, n: Seq<char>) -> bool {
    s == Stmt::Return(Some(Expr::Value(Val::Variable(n))))
}

/// Whether a target is the value of the object in a variable, by its name or by its slot.
pub open spec fn is_value_of(t: Target, n: Seq<char>) -> bool {
    let o = Expr::Value(Val::Variable(n));
    ||| t == Target::Member { object: o, property: "value"@ }
    ||| t == Target::Index { object: o, key: Expr::Value(Val::Constant(Const::Integer(0))) }
}

/// The result that statements hand out, and do nothing else: they return an object, store it and
/// return it, or store it, give it its value and return it.
pub open spec fn handed(s: Seq<Stmt>) -> Option<(Expr, bool)> {
    if s.len() == 1 {
        match s[0] {
            Stmt::Return(Some(e)) => result(e),
            _ => None,
        }
    } else if s.len() == 2 {
        match s[0] {
            Stmt::Let { name, value, .. } => if returns_name(s[1], name) {
                result(value)
            } else {
                None
            },
            Stmt::Assign { target: Target::Variable(name), value } => if returns_name(s[1], name) {
                result(value)
            } else {
                None
            },
            _ => None,
        }
    } else if s.len() == 3 {
        match (s[0], s[1]) {
            (
                Stmt::Assign { target: Target::Variable(name), value: Expr::Object { properties } },
                Stmt::Assign { target, value },
            ) => if is_value_of(target, name) && returns_name(s[2], name) && once(
                properties,
                "done"@,
            ) {
                match property(properties, "done"@) {
                    Some(d) => Some((value, is_true(d))),
                    None => None,
                }
            } else {
                None
            },
            _ => None,
        }
    } else {
        None
    }
}

/// Whether a statement only keeps the state of a machine.
pub open spec fn keeps_state(s: Stmt, vars: Seq<Seq<char>>) -> bool {
    s matches Stmt::Assign { target: Target::Variable(n), value } && (vars.contains(n)
        || is_undefined(value) || (value matches Expr::Value(Val::Variable(m)) && vars.contains(m)))
}

/// What has been done, with one statement more: what only keeps the state of the machine does not
/// count.
pub open spec fn done_also(h: Seq<Stmt>, s: Stmt, vars: Seq<Seq<char>>) -> Seq<Stmt> {
    if keeps_state(s, vars) {
        h
    } else {
        h.push(s)
    }
}

/// A run of a case of a machine: what it has done at its end, and how it ends. Whether a condition
/// holds may depend on what has been done before. `last` says whether what the statements hand out
/// is what the case hands out.
pub open spec fn run(
    s: Seq<Stmt>,
    h: Seq<Stmt>,
    holds: spec_fn(Seq<Stmt>, Expr) -> bool,
    vars: Seq<Seq<char>>,
    last: bool,
) -> (Seq<Stmt>, End)
    decreases s,
{
    if s.len() == 0 {
        (h, End::Open)
    } else if last && handed(s) is Some {
        (h, End::Hands((handed(s)->0).0, (handed(s)->0).1))
    } else {
        match s[0] {
            Stmt::Throw(e) => (h, End::Throws(e)),
            Stmt::Return(_) => (h, End::Astray),
            Stmt::If { condition, then_body, else_body } => {
                let deep = last && s.len() == 1 && else_body.len() > 0;
                let b = if holds(h, condition) {
                    run(then_body, h, holds, vars, deep)
                } else {
                    run(else_body, h, holds, vars, deep)
                };
                if b.1 is Open {
                    run(s.skip(1), b.0, holds, vars, last)
                } else {
                    b
                }
            },
            _ => run(s.skip(1), done_also(h, s[0], vars), holds, vars, last),
        }
    }
}

/// A run of the body of a generator. A return hands out the last result.
pub open spec fn go(
    s: Seq<Stmt>,
    h: Seq<Stmt>,
    holds: spec_fn(Seq<Stmt>, Expr) -> bool,
    vars: Seq<Seq<char>>,
) -> (Seq<Stmt>, End)
    decreases s,
{
    if s.len() == 0 {
        (h, End::Open)
    } else {
        match s[0] {
            Stmt::Throw(e) => (h, End::Throws(e)),
            Stmt::Return(Some(v)) => (h, End::Hands(v, true)),
            Stmt::Return(None) => (
                h,
                End::Hands(Expr::Value(Val::Constant(Const::Undefined)), true),
            ),
            Stmt::If { condition, then_body, else_body } => {
                let b = if holds(h, condition) {
                    go(then_body, h, holds, vars)
                } else {
                    go(else_body, h, holds, vars)
                };
                if b.1 is Open {
                    go(s.skip(1), b.0, holds, vars)
                } else {
                    b
                }
            },
            _ => go(s.skip(1), done_also(h, s[0], vars), holds, vars),
        }
    }
}

/// A run of a generator up to a suspend point.
pub open spec fn go_to(
    x: Suspend,
    h: Seq<Stmt>,
    holds: spec_fn(Seq<Stmt>, Expr) -> bool,
    vars: Seq<Seq<char>>,
) -> (Seq<Stmt>, End) {
    let p = go(x.pre, h, holds, vars);
    if p.1 is Open {
        (p.0, End::Hands(x.value, x.done))
    } else {
        p
    }
}

/// Whether a condition holds exactly where its negation does not.
pub open spec fn negates(holds: spec_fn(Seq<Stmt>, Expr) -> bool) -> bool {
    forall|h: Seq<Stmt>, c: Expr| #[trigger]
        holds(h, Expr::Unary { op: UnaryOp::Not, operand: Box::new(c) }) == !holds(h, c)
}

proof fn lemma_property(ps: Seq<Prop>, n: Seq<char>)
    ensures
        machine::last_prop(ps, n) == property(ps, n),
    decreases ps.len(),
{
    if ps.len() > 0 {
        lemma_property(ps.drop_last(), n);
    }
}

proof fn lemma_first_is_last(ps: Seq<Prop>, n: Seq<char>)
    requires
        once(ps, n),
    ensures
        machine::first_prop(ps, n) == property(ps, n),
    decreases ps.len(),
{
    if ps.len() > 0 {
        if machine::key_is(ps[0].key, n) {
            lemma_property_of_first(ps, n);
        } else {
            let rest = ps.skip(1);
            assert forall|i: int, j: int|
                0 <= i < j < rest.len() && ((#[trigger] rest[i]).key == Key::Ident(n) || rest[i].key
                    == Key::String(n)) implies !((#[trigger] rest[j]).key == Key::Ident(n)
                || rest[j].key == Key::String(n)) by {
                assert(ps[i + 1].key == rest[i].key && ps[j + 1].key == rest[j].key);
            }
            lemma_first_is_last(rest, n);
            lemma_property_behind(ps, n);
        }
    }
}

proof fn lemma_property_of_first(ps: Seq<Prop>, n: Seq<char>)
    requires
        ps.len() > 0,
        once(ps, n),
        machine::key_is(ps[0].key, n),
    ensures
        property(ps, n) == Some(ps[0].value),
    decreases ps.len(),
{
    if ps.len() > 1 {
        let rest = ps.drop_last();
        assert(!machine::key_is(ps[ps.len() - 1].key, n));
        assert forall|i: int, j: int|
            0 <= i < j < rest.len() && ((#[trigger] rest[i]).key == Key::Ident(n) || rest[i].key
                == Key::String(n)) implies !((#[trigger] rest[j]).key == Key::Ident(n)
            || rest[j].key == Key::String(n)) by {
            assert(ps[i].key == rest[i].key && ps[j].key == rest[j].key);
        }
        lemma_property_of_first(rest, n);
    }
}

proof fn lemma_property_behind(ps: Seq<Prop>, n: Seq<char>)
    requires
        ps.len() > 0,
        !machine::key_is(ps[0].key, n),
    ensures
        property(ps.skip(1), n) == property(ps, n),
    decreases ps.len(),
{
    let rest = ps.skip(1);
    if rest.len() > 0 {
        assert(rest.last() == ps.last());
        assert(rest.drop_last() =~= ps.drop_last().skip(1));
        lemma_property_behind(ps.drop_last(), n);
    } else {
        assert(ps.drop_last() =~= Seq::<Prop>::empty());
        reveal_with_fuel(property, 2);
    }
}

/// The suspend point at the end of a list is what the rest of the list hands out.
proof fn lemma_handed(
    s: Seq<Stmt>,
    i: int,
    h: Seq<Stmt>,
    holds: spec_fn(Seq<Stmt>, Expr) -> bool,
    vars: Seq<Seq<char>>,
)
    requires
        0 <= i < s.len(),
    ensures
        handed(s.skip(i)) matches Some(x) ==> machine::result_return(s, i) == Some(
            (x.0, x.1, s.len() - i),
        ),
        handed(s.skip(i)) is None && machine::result_return(s, i) is Some && i + (
        machine::result_return(s, i)->0).2 == s.len() ==> run(
            s.skip(i),
            h,
            holds,
            vars,
            true,
        ).1 is Astray,
{
    let r = s.skip(i);
    assert(r[0] == s[i]);
    if r.len() >= 2 {
        assert(r[1] == s[i + 1]);
    }
    if r.len() >= 3 {
        assert(r[2] == s[i + 2]);
    }
    let ps = match s[i] {
        Stmt::Return(Some(Expr::Object { properties })) => properties,
        Stmt::Let { value: Expr::Object { properties }, .. } => properties,
        Stmt::Assign { value: Expr::Object { properties }, .. } => properties,
        _ => Seq::empty(),
    };
    lemma_property(ps, "value"@);
    lemma_property(ps, "done"@);
    if once(ps, "done"@) {
        lemma_first_is_last(ps, "done"@);
    }
    if handed(r) is None && machine::result_return(s, i) is Some && i + (machine::result_return(
        s,
        i,
    )->0).2 == s.len() {
        assert(r.len() == 3);
        let a = r.skip(1);
        let b = a.skip(1);
        assert(a[0] == r[1] && a[1] == r[2] && b[0] == r[2]);
        let h1 = done_also(h, r[0], vars);
        let h2 = done_also(h1, r[1], vars);
        assert(run(b, h2, holds, vars, true).1 is Astray);
        assert(run(a, h1, holds, vars, true) == run(b, h2, holds, vars, true));
    }
}

proof fn lemma_go_append(
    a: Seq<Stmt>,
    b: Seq<Stmt>,
    h: Seq<Stmt>,
    holds: spec_fn(Seq<Stmt>, Expr) -> bool,
    vars: Seq<Seq<char>>,
)
    ensures
        go(a + b, h, holds, vars) == ({
            let p = go(a, h, holds, vars);
            if p.1 is Open {
                go(b, p.0, holds, vars)
            } else {
                p
            }
        }),
    decreases a.len(),
{
    if a.len() == 0 {
        assert(a + b =~= b);
    } else {
        assert((a + b)[0] == a[0]);
        assert((a + b).skip(1) =~= a.skip(1) + b);
        match a[0] {
            Stmt::If { condition, then_body, else_body } => {
                let p = if holds(h, condition) {
                    go(then_body, h, holds, vars)
                } else {
                    go(else_body, h, holds, vars)
                };
                lemma_go_append(a.skip(1), b, p.0, holds, vars);
            },
            _ => lemma_go_append(a.skip(1), b, done_also(h, a[0], vars), holds, vars),
        }
    }
}

/// What a case does on the way to its suspend point, the body of a generator does too, unless the
/// case leaves on the way.
proof fn lemma_same_way(
    s: Seq<Stmt>,
    h: Seq<Stmt>,
    holds: spec_fn(Seq<Stmt>, Expr) -> bool,
    vars: Seq<Seq<char>>,
)
    ensures
        run(s, h, holds, vars, false).1 is Astray || run(s, h, holds, vars, false) == go(
            s,
            h,
            holds,
            vars,
        ),
    decreases s,
{
    if s.len() > 0 {
        match s[0] {
            Stmt::If { condition, then_body, else_body } => {
                let b = if holds(h, condition) {
                    then_body
                } else {
                    else_body
                };
                lemma_same_way(b, h, holds, vars);
                let p = run(b, h, holds, vars, false);
                lemma_same_way(s.skip(1), p.0, holds, vars);
            },
            _ => lemma_same_way(s.skip(1), done_also(h, s[0], vars), holds, vars),
        }
    }
}

proof fn lemma_step(
    s: Seq<Stmt>,
    h: Seq<Stmt>,
    holds: spec_fn(Seq<Stmt>, Expr) -> bool,
    vars: Seq<Seq<char>>,
)
    requires
        s.len() > 0,
        handed(s) is None,
        !(s[0] is If && s.len() == 1),
    ensures
        ({
            let one = go(seq![s[0]], h, holds, vars);
            ||| run(s, h, holds, vars, true).1 is Astray
            ||| one.1 is Open && run(s, h, holds, vars, true) == run(
                s.skip(1),
                one.0,
                holds,
                vars,
                true,
            )
            ||| !(one.1 is Open) && run(s, h, holds, vars, true) == one
        }),
{
    let t = seq![s[0]];
    assert(t.skip(1) =~= Seq::<Stmt>::empty());
    reveal_with_fuel(go, 2);
    match s[0] {
        Stmt::If { condition, then_body, else_body } => {
            let b = if holds(h, condition) {
                then_body
            } else {
                else_body
            };
            lemma_same_way(b, h, holds, vars);
        },
        _ => {},
    }
}

/// A branch that ends the generator ends it as the case does.
proof fn lemma_exit(
    s: Seq<Stmt>,
    i: int,
    h: Seq<Stmt>,
    holds: spec_fn(Seq<Stmt>, Expr) -> bool,
    vars: Seq<Seq<char>>,
)
    requires
        0 <= i <= s.len(),
    ensures
        machine::exit_from(s, i, vars) matches Some(x) ==> {
            let r = run(s.skip(i), h, holds, vars, true);
            r.1 is Astray || !(r.1 is Open) && r == go(x, h, holds, vars)
        },
    decreases s.len() - i,
{
    if let Some(x) = machine::exit_from(s, i, vars) {
        let r = s.skip(i);
        assert(r[0] == s[i]);
        assert(r.skip(1) =~= s.skip(i + 1));
        lemma_handed(s, i, h, holds, vars);
        if s[i] is Throw {
        } else if machine::result_return(s, i) is Some {
            reveal_with_fuel(go, 2);
        } else {
            assert(handed(r) is None);
            assert(machine::exit_from(s, i + 1, vars) is Some);
            if r.len() == 1 {
                assert(machine::exit_from(s, i + 1, vars) is None);
            }
            lemma_step(r, h, holds, vars);
            let one = go(seq![s[i]], h, holds, vars);
            let y = machine::exit_from(s, i + 1, vars)->0;
            lemma_exit(s, i + 1, one.0, holds, vars);
            if machine::bookkeeping(s[i], vars) {
                assert(one == (h, End::Open)) by {
                    reveal_with_fuel(go, 2);
                    assert(seq![s[i]].skip(1) =~= Seq::<Stmt>::empty());
                }
            } else {
                lemma_go_append(seq![s[i]], y, h, holds, vars);
            }
        }
    }
}

proof fn lemma_before(
    a: Seq<Stmt>,
    o: Suspend,
    h: Seq<Stmt>,
    holds: spec_fn(Seq<Stmt>, Expr) -> bool,
    vars: Seq<Seq<char>>,
)
    ensures
        go_to(Suspend { pre: a + o.pre, value: o.value, done: o.done }, h, holds, vars) == ({
            let p = go(a, h, holds, vars);
            if p.1 is Open {
                go_to(o, p.0, holds, vars)
            } else {
                p
            }
        }),
{
    lemma_go_append(a, o.pre, h, holds, vars);
}

proof fn lemma_suspend(
    s: Seq<Stmt>,
    i: int,
    h: Seq<Stmt>,
    holds: spec_fn(Seq<Stmt>, Expr) -> bool,
    vars: Seq<Seq<char>>,
)
    requires
        0 <= i <= s.len(),
        negates(holds),
    ensures
        machine::suspend_from(s, i, vars) matches Some(x) ==> {
            let r = run(s.skip(i), h, holds, vars, true);
            r.1 is Astray || r == go_to(x, h, holds, vars)
        },
    decreases s, s.len() - i,
{
    if let Some(x) = machine::suspend_from(s, i, vars) {
        let r = s.skip(i);
        assert(r[0] == s[i]);
        assert(r.skip(1) =~= s.skip(i + 1));
        lemma_handed(s, i, h, holds, vars);
        if machine::result_return(s, i) is Some {
        } else {
            assert(handed(r) is None);
            let last = i + 1 == s.len();
            if machine::branch_suspend(s[i], last, vars) is Some {
                lemma_branch(s[i], h, holds, vars);
                assert(r =~= seq![s[i]]);
            } else {
                if r.len() == 1 {
                    assert(machine::suspend_from(s, i + 1, vars) is None);
                }
                lemma_step(r, h, holds, vars);
                let one = go(seq![s[i]], h, holds, vars);
                let y = machine::suspend_from(s, i + 1, vars)->0;
                lemma_suspend(s, i + 1, one.0, holds, vars);
                if machine::bookkeeping(s[i], vars) {
                    assert(one == (h, End::Open)) by {
                        reveal_with_fuel(go, 2);
                        assert(seq![s[i]].skip(1) =~= Seq::<Stmt>::empty());
                    }
                } else {
                    lemma_before(seq![s[i]], y, h, holds, vars);
                }
            }
        }
    }
}

proof fn lemma_guard(
    c: Expr,
    body: Seq<Stmt>,
    h: Seq<Stmt>,
    holds: spec_fn(Seq<Stmt>, Expr) -> bool,
    vars: Seq<Seq<char>>,
)
    ensures
        go(seq![machine::guard(c, body)], h, holds, vars) == (if holds(h, c) {
            go(body, h, holds, vars)
        } else {
            (h, End::Open)
        }),
{
    let g = seq![machine::guard(c, body)];
    assert(g.skip(1) =~= Seq::<Stmt>::empty());
    reveal_with_fuel(go, 2);
}

proof fn lemma_branch(
    s: Stmt,
    h: Seq<Stmt>,
    holds: spec_fn(Seq<Stmt>, Expr) -> bool,
    vars: Seq<Seq<char>>,
)
    requires
        negates(holds),
        handed(seq![s]) is None,
    ensures
        machine::branch_suspend(s, true, vars) matches Some(Some(x)) ==> {
            let r = run(seq![s], h, holds, vars, true);
            r.1 is Astray || r == go_to(x, h, holds, vars)
        },
    decreases s, 0int,
{
    if let Some(Some(x)) = machine::branch_suspend(s, true, vars) {
        if let Stmt::If { condition, then_body, else_body } = s {
            assert(seq![s].skip(1) =~= Seq::<Stmt>::empty());
            assert(then_body.skip(0) =~= then_body);
            assert(else_body.skip(0) =~= else_body);
            lemma_exit(then_body, 0, h, holds, vars);
            lemma_exit(else_body, 0, h, holds, vars);
            lemma_suspend(else_body, 0, h, holds, vars);
            lemma_suspend(then_body, 0, h, holds, vars);
            let b = if holds(h, condition) {
                run(then_body, h, holds, vars, true)
            } else {
                run(else_body, h, holds, vars, true)
            };
            assert(run(seq![s], h, holds, vars, true) == b) by {
                reveal_with_fuel(run, 2);
            }
            match machine::exit_from(then_body, 0, vars) {
                Some(e) => {
                    let y = machine::suspend_from(else_body, 0, vars)->0;
                    lemma_guard(condition, e, h, holds, vars);
                    lemma_before(seq![machine::guard(condition, e)], y, h, holds, vars);
                },
                None => {
                    let e = machine::exit_from(else_body, 0, vars)->0;
                    let y = machine::suspend_from(then_body, 0, vars)->0;
                    let c = machine::negated(condition);
                    assert(holds(h, c) == !holds(h, condition));
                    lemma_guard(c, e, h, holds, vars);
                    lemma_before(seq![machine::guard(c, e)], y, h, holds, vars);
                },
            }
        }
    }
}

/// Whether a condition asks if a generator was resumed to throw or to return.
pub open spec fn asks_how_resumed(e: Expr) -> bool {
    let how = Expr::Value(Val::Parameter(0));
    let number = |x: Expr|
        x == Expr::Value(Val::Constant(Const::Integer(1))) || x == Expr::Value(
            Val::Constant(Const::Integer(2)),
        );
    match e {
        Expr::Binary { op: BinaryOp::StrictEq, left, right } => *left == how && number(*right)
            || *right == how && number(*left),
        _ => false,
    }
}

/// Whether a generator is resumed to go on.
pub open spec fn resumed_to_go_on(holds: spec_fn(Seq<Stmt>, Expr) -> bool) -> bool {
    forall|h: Seq<Stmt>, e: Expr| asks_how_resumed(e) ==> !#[trigger] holds(h, e)
}

proof fn lemma_stripped(
    s: Seq<Stmt>,
    h: Seq<Stmt>,
    holds: spec_fn(Seq<Stmt>, Expr) -> bool,
    vars: Seq<Seq<char>>,
)
    requires
        resumed_to_go_on(holds),
        machine::stripped(s).len() > 0,
    ensures
        run(s, h, holds, vars, true) == run(machine::stripped(s), h, holds, vars, true),
    decreases s,
{
    if s.len() == 1 {
        if let Stmt::If { condition, else_body, .. } = s[0] {
            if machine::protocol_condition(condition) {
                assert(asks_how_resumed(condition));
                assert(!holds(h, condition));
                lemma_stripped(else_body, h, holds, vars);
                assert(else_body.len() > 0);
                assert(s.skip(1) =~= Seq::<Stmt>::empty());
                reveal_with_fuel(run, 2);
            }
        }
    }
}

/// A case and what was recovered of it run alike. Whatever conditions hold, where the generator is
/// resumed to go on, the recovered code does what the case does, throws what it throws, and hands
/// out the value that it hands out, the last one where it is the last. The first statement may bind
/// the value that the case is resumed with. A case that leaves in another way is not spoken of.
pub proof fn lemma_recovered_case_runs_alike(
    body: Seq<Stmt>,
    h: Seq<Stmt>,
    holds: spec_fn(Seq<Stmt>, Expr) -> bool,
    vars: Seq<Seq<char>>,
)
    requires
        negates(holds),
        resumed_to_go_on(holds),
    ensures
        machine::parsed(body, vars) matches Some(c) ==> {
            let begun = match c.resume {
                Some(t) => done_also(
                    h,
                    Stmt::Assign { target: t, value: Expr::Value(Val::Parameter(1)) },
                    vars,
                ),
                None => h,
            };
            let r = run(body, h, holds, vars, true);
            r.1 is Astray || r == go_to(c.suspend, begun, holds, vars)
        },
{
    if let Some(c) = machine::parsed(body, vars) {
        let s = machine::stripped(body);
        lemma_stripped(body, h, holds, vars);
        if c.resume is Some {
            lemma_suspend(s, 1, done_also(h, s[0], vars), holds, vars);
        } else {
            assert(s.skip(0) =~= s);
            lemma_suspend(s, 0, h, holds, vars);
        }
    }
}

} // verus!
