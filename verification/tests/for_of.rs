use hbc_transforms::ir::{
    AssignTarget, BinaryOp, Constant, Expression, PropertyKey, Statement, UnaryOp, Value,
};
use hbc_transforms::patterns::loops::for_of::{
    detect_for_of_loops, detect_legacy_for_of, unwrap_iterator_body,
};

fn var(n: &str) -> Expression {
    Expression::Value(Value::Variable(n.into()))
}

fn member(object: Expression, name: &str) -> Expression {
    Expression::Member {
        object: Box::new(object),
        property: PropertyKey::Ident(name.into()),
        optional: false,
    }
}

fn call(callee: Expression, arguments: Vec<Expression>) -> Expression {
    Expression::Call { callee: Box::new(callee), arguments }
}

fn iterator_access(source: Expression) -> Expression {
    Expression::Member {
        object: Box::new(source),
        property: PropertyKey::Computed(Box::new(member(var("Symbol"), "iterator"))),
        optional: false,
    }
}

fn undefined() -> Expression {
    Expression::constant(Constant::Undefined)
}

fn done_check(r: u32) -> Expression {
    Expression::binary(BinaryOp::StrictNeq, Expression::register(r), undefined())
}

fn closing(body: Vec<Statement>, iter: u32) -> Statement {
    Statement::TryCatch {
        try_body: body,
        catch_param: Some("e".into()),
        catch_body: vec![
            Statement::Expr(call(member(Expression::register(iter), "return"), vec![])),
            Statement::Throw(var("e")),
        ],
        finally_body: vec![],
    }
}

fn print(e: Expression) -> Statement {
    Statement::Expr(call(var("print"), vec![e]))
}

#[test]
fn an_iterator_loop_becomes_for_of() {
    let stmts = vec![
        Statement::assign_reg(0, call(iterator_access(var("xs")), vec![])),
        Statement::assign_reg(1, call(member(Expression::register(0), "next"), vec![])),
        Statement::assign_reg(2, Expression::register(0)),
        Statement::assign_reg(3, undefined()),
        Statement::While {
            condition: done_check(2),
            body: vec![closing(
                vec![print(Expression::register(1)), Statement::Comment("continue".into())],
                0,
            )],
        },
        Statement::Return(Some(Expression::register(3))),
    ];
    assert_eq!(
        detect_for_of_loops(stmts),
        vec![
            Statement::assign_reg(3, undefined()),
            Statement::ForOf {
                variable: "item1".into(),
                iterable: var("xs"),
                body: vec![print(var("item1"))],
            },
            Statement::Return(Some(Expression::register(3))),
        ]
    );
}

#[test]
fn a_negated_done_check_and_a_nested_loop_are_recognised() {
    let inner = vec![
        Statement::assign_reg(5, call(iterator_access(Expression::register(1)), vec![])),
        Statement::assign_reg(6, call(member(Expression::register(5), "next"), vec![])),
        Statement::While { condition: done_check(5), body: vec![print(Expression::register(6))] },
    ];
    let stmts = vec![
        Statement::assign_reg(0, call(iterator_access(var("xs")), vec![])),
        Statement::assign_reg(1, call(member(Expression::register(0), "next"), vec![])),
        Statement::While {
            condition: Expression::unary(
                UnaryOp::Not,
                Expression::binary(BinaryOp::StrictEq, undefined(), Expression::register(0)),
            ),
            body: inner,
        },
    ];
    assert_eq!(
        detect_for_of_loops(stmts),
        vec![Statement::ForOf {
            variable: "item1".into(),
            iterable: var("xs"),
            body: vec![Statement::ForOf {
                variable: "item6".into(),
                iterable: var("item1"),
                body: vec![print(var("item6"))],
            }],
        }]
    );
}

#[test]
fn a_loop_without_next_stays() {
    let stmts = vec![
        Statement::assign_reg(0, call(iterator_access(var("xs")), vec![])),
        Statement::While { condition: done_check(0), body: vec![print(var("x"))] },
    ];
    assert_eq!(detect_for_of_loops(stmts.clone()), stmts);
}

#[test]
fn a_loop_of_the_full_protocol_becomes_for_of() {
    let ensure = |r: u32| {
        Statement::Expr(call(
            member(var("HermesInternal"), "ensureObject"),
            vec![Expression::register(r), Expression::constant(Constant::String("msg".into()))],
        ))
    };
    let stmts = vec![
        Statement::assign_reg(9, member(var("Symbol"), "iterator")),
        Statement::assign_reg(
            8,
            Expression::Member {
                object: Box::new(var("xs")),
                property: PropertyKey::Computed(Box::new(Expression::register(9))),
                optional: false,
            },
        ),
        Statement::assign_reg(0, call(Expression::register(8), vec![var("xs")])),
        ensure(0),
        Statement::assign_reg(1, member(Expression::register(0), "next")),
        Statement::assign_reg(2, call(Expression::register(1), vec![Expression::register(0)])),
        ensure(2),
        Statement::assign_reg(3, member(Expression::register(2), "done")),
        // A copy of a register of the protocol goes with it.
        Statement::assign_reg(7, Expression::register(0)),
        Statement::Assign { target: AssignTarget::Variable("y".into()), value: var("z") },
        Statement::While {
            condition: Expression::unary(UnaryOp::Not, Expression::register(3)),
            body: vec![
                Statement::assign_reg(4, member(Expression::register(2), "value")),
                closing(
                    vec![print(Expression::register(4)), Statement::Comment("continue".into())],
                    0,
                ),
            ],
        },
    ];
    assert_eq!(
        detect_legacy_for_of(stmts),
        vec![
            Statement::Assign { target: AssignTarget::Variable("y".into()), value: var("z") },
            Statement::ForOf {
                variable: "item4".into(),
                iterable: var("xs"),
                body: vec![print(var("item4"))],
            },
        ]
    );
}

#[test]
fn a_loop_of_another_shape_stays() {
    let stmts = vec![
        Statement::assign_reg(3, member(Expression::register(2), "done")),
        Statement::While {
            condition: Expression::unary(UnaryOp::Not, Expression::register(3)),
            body: vec![print(var("x"))],
        },
    ];
    assert_eq!(detect_legacy_for_of(stmts.clone()), stmts);
}

#[test]
fn the_handler_of_a_program_stays() {
    let body = vec![Statement::TryCatch {
        try_body: vec![Statement::Expr(call(var("a"), vec![]))],
        catch_param: Some("e".into()),
        catch_body: vec![Statement::Expr(call(var("log"), vec![var("e")]))],
        finally_body: vec![],
    }];
    assert_eq!(unwrap_iterator_body(&body), body);
    // A handler that swallows the exception is the program's too, and so is one that cleans up.
    let quiet = vec![Statement::TryCatch {
        try_body: vec![Statement::Expr(call(var("a"), vec![]))],
        catch_param: Some("e".into()),
        catch_body: vec![],
        finally_body: vec![],
    }];
    assert_eq!(unwrap_iterator_body(&quiet), quiet);
    let tidy = vec![Statement::TryCatch {
        try_body: vec![Statement::Expr(call(var("a"), vec![]))],
        catch_param: Some("e".into()),
        catch_body: vec![Statement::Throw(var("e"))],
        finally_body: vec![Statement::Expr(call(var("tidy"), vec![]))],
    }];
    assert_eq!(unwrap_iterator_body(&tidy), tidy);
}

#[test]
fn a_handler_that_only_closes_the_iterator_goes() {
    let body = vec![closing(vec![print(var("x"))], 0)];
    assert_eq!(unwrap_iterator_body(&body), vec![print(var("x"))]);
    let held = vec![Statement::TryCatch {
        try_body: vec![print(var("x"))],
        catch_param: None,
        catch_body: vec![
            Statement::assign_reg(7, var("__exception")),
            Statement::Throw(Expression::register(7)),
        ],
        finally_body: vec![],
    }];
    assert_eq!(unwrap_iterator_body(&held), vec![print(var("x"))]);
    let other = vec![Statement::TryCatch {
        try_body: vec![print(var("x"))],
        catch_param: Some("e".into()),
        catch_body: vec![Statement::Throw(var("f"))],
        finally_body: vec![],
    }];
    assert_eq!(unwrap_iterator_body(&other), other);
}
