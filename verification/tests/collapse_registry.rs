use hbc_transforms::collapse_registry::collapse_metro_registry;
use hbc_transforms::ir::{Constant, Expression, FunctionId, Statement, Value};

fn factory() -> Expression {
    Expression::Function { id: FunctionId(1), name: None, is_arrow: false, is_async: false, is_generator: false }
}

fn define(id: i32) -> Statement {
    Statement::Expr(Expression::Call {
        callee: Box::new(Expression::Value(Value::Variable("__d".into()))),
        arguments: vec![
            factory(),
            Expression::Value(Value::Constant(Constant::Integer(id))),
            Expression::Array { elements: vec![] },
        ],
    })
}

fn run_call(name: &str) -> Statement {
    Statement::Expr(Expression::Call {
        callee: Box::new(Expression::Value(Value::Variable(name.into()))),
        arguments: vec![Expression::Value(Value::Constant(Constant::Integer(0)))],
    })
}

#[test]
fn long_run_is_collapsed_and_run_calls_kept() {
    let mut stmts: Vec<Statement> = (0..20).map(define).collect();
    stmts.push(run_call("__r"));
    let out = collapse_metro_registry(stmts);
    // One comment for the 20 registrations, then the __r call.
    assert!(matches!(&out[0], Statement::Comment(c) if c.contains("20 module registrations")));
    assert!(matches!(&out[1], Statement::Expr(Expression::Call { .. })));
    assert_eq!(out.len(), 2);
}

#[test]
fn short_run_is_left_alone() {
    let stmts = vec![define(0), define(1), run_call("__r")];
    let out = collapse_metro_registry(stmts);
    assert_eq!(out.len(), 3);
    assert!(out.iter().all(|s| matches!(s, Statement::Expr(_))));
}
