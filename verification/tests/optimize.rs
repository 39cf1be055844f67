use hbc_transforms::ir::{AssignTarget, Constant, Expression, PropertyKey, Statement, Value, VarKind};
use hbc_transforms::optimize::dead_assign::remove_dead_assignments;
use hbc_transforms::optimize::dead_bindings::remove_dead_temp_bindings;

fn call(name: &str) -> Expression {
    // A call has side effects by default in `has_side_effects`.
    Expression::Call {
        callee: Box::new(Expression::Value(Value::Variable(name.into()))),
        arguments: vec![Expression::Value(Value::Constant(Constant::Integer(0)))],
    }
}

fn var(n: &str) -> Expression {
    Expression::Value(Value::Variable(n.into()))
}

#[test]
fn dead_store_of_side_effecting_call_keeps_call_drops_target() {
    // `x = __d(0); x = __r(0);` -> the first store is dead, keep the call only.
    let stmts = vec![
        Statement::Assign { target: AssignTarget::Variable("x".into()), value: call("__d") },
        Statement::Assign { target: AssignTarget::Variable("x".into()), value: call("__r") },
    ];
    let out = remove_dead_assignments(stmts);
    // First becomes a bare Expr(call), second stays (last store, not overwritten).
    assert!(matches!(&out[0], Statement::Expr(Expression::Call { .. })));
    assert!(matches!(&out[1], Statement::Assign { .. }));
}

#[test]
fn live_store_is_kept() {
    // `x = f(); g(x);` -> x is read, keep the assignment.
    let stmts = vec![
        Statement::Assign { target: AssignTarget::Variable("x".into()), value: call("f") },
        Statement::Expr(Expression::Call {
            callee: Box::new(Expression::Value(Value::Variable("g".into()))),
            arguments: vec![Expression::Value(Value::Variable("x".into()))],
        }),
    ];
    let out = remove_dead_assignments(stmts);
    assert!(matches!(&out[0], Statement::Assign { .. }));
}

#[test]
fn read_before_overwrite_is_kept() {
    // `x = f(); y.k = x; x = g();` -> next stmt reads x, so the first store lives.
    let stmts = vec![
        Statement::Assign { target: AssignTarget::Variable("x".into()), value: call("f") },
        Statement::Assign {
            target: AssignTarget::Member {
                object: Expression::Value(Value::Variable("y".into())),
                property: "k".into(),
            },
            value: Expression::Value(Value::Variable("x".into())),
        },
        Statement::Assign { target: AssignTarget::Variable("x".into()), value: call("g") },
    ];
    let out = remove_dead_assignments(stmts);
    assert!(matches!(&out[0], Statement::Assign { .. }));
    let _ = PropertyKey::Ident("k".into());
}

#[test]
fn drops_unread_pure_temp_copy() {
    // `let tmp19 = tmp12; f(tmp12);` -> tmp19 is never read, drop it.
    let stmts = vec![
        Statement::Let { name: "tmp19".into(), value: var("tmp12"), kind: VarKind::Let },
        Statement::Expr(Expression::Call {
            callee: Box::new(var("f")),
            arguments: vec![var("tmp12")],
        }),
    ];
    let out = remove_dead_temp_bindings(stmts);
    assert_eq!(out.len(), 1);
    assert!(matches!(&out[0], Statement::Expr(Expression::Call { .. })));
}

#[test]
fn keeps_read_temp() {
    let stmts = vec![
        Statement::Let { name: "tmp19".into(), value: var("tmp12"), kind: VarKind::Let },
        Statement::Expr(Expression::Call { callee: Box::new(var("f")), arguments: vec![var("tmp19")] }),
    ];
    let out = remove_dead_temp_bindings(stmts);
    assert_eq!(out.len(), 2);
}

#[test]
fn keeps_side_effecting_value() {
    // `let tmp1 = f();` unread but the call must run.
    let stmts = vec![Statement::Let {
        name: "tmp1".into(),
        value: Expression::Call { callee: Box::new(var("f")), arguments: vec![] },
        kind: VarKind::Let,
    }];
    let out = remove_dead_temp_bindings(stmts);
    assert_eq!(out.len(), 1);
}

#[test]
fn keeps_named_binding() {
    // A meaningful name is kept even if unread.
    let stmts = vec![Statement::Let { name: "email".into(), value: var("tmp1"), kind: VarKind::Const }];
    let out = remove_dead_temp_bindings(stmts);
    assert_eq!(out.len(), 1);
}
