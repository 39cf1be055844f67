use hbc_transforms::codegen::{Codegen, CodegenOptions};
use hbc_transforms::generator::state_machine_v98::reconstruct_generator_v98;
use hbc_transforms::generator::{
    cleanup_generator_comments, detect_generator_patterns, has_generator_patterns,
};
use hbc_transforms::ir::{
    AssignTarget, BinaryOp, Constant, Expression, ObjectProperty, PropertyKey, Statement, Value,
};

fn show(e: &Expression) -> String {
    Codegen::new(CodegenOptions::new()).generate_expr(e)
}

fn stmt_has_yield_deep(s: &Statement) -> bool {
    format!("{s:?}").contains("Yield {")
}

#[test]
fn test_detect_yield_point() {
    let stmts = vec![
        Statement::Comment("StartGenerator".to_string()),
        Statement::Assign {
            target: AssignTarget::Register(0),
            value: Expression::Value(Value::Constant(Constant::Integer(1))),
        },
        Statement::Comment("__yield_point__:100".to_string()),
        Statement::Return(Some(Expression::Value(Value::Register(0)))),
    ];

    assert!(has_generator_patterns(&stmts));
}

#[test]
fn test_transform_yield_with_result() {
    // Simulate: result = yield 42
    // Pattern:
    //   __yield_point__:100
    //   return 42
    //   result = gen.resume()
    let stmts = vec![
        Statement::Comment("__yield_point__:100".to_string()),
        Statement::Return(Some(Expression::Value(Value::Constant(Constant::Integer(
            42,
        ))))),
        Statement::Assign {
            target: AssignTarget::Register(5),
            value: Expression::Call {
                callee: Box::new(Expression::Member {
                    object: Box::new(Expression::Value(Value::Register(0))),
                    property: PropertyKey::Ident("resume".to_string()),
                    optional: false,
                }),
                arguments: vec![],
            },
        },
    ];

    let result = detect_generator_patterns(stmts, false);

    // Should have: r5 = yield 42
    let has_yield_assign = result.iter().any(|s| {
        if let Statement::Assign {
            target: AssignTarget::Register(5),
            value,
        } = s
        {
            matches!(value, Expression::Yield { .. })
        } else {
            false
        }
    });
    assert!(has_yield_assign, "Expected r5 = yield 42, got: {result:?}");
}

#[test]
fn test_transform_await_with_result() {
    let stmts = vec![
        Statement::Comment("__yield_point__:100".to_string()),
        Statement::Return(Some(Expression::Call {
            callee: Box::new(Expression::Value(Value::Variable("fetch".to_string()))),
            arguments: vec![Expression::Value(Value::Constant(Constant::String(
                "url".to_string(),
            )))],
        })),
        Statement::Assign {
            target: AssignTarget::Register(3),
            value: Expression::Call {
                callee: Box::new(Expression::Member {
                    object: Box::new(Expression::Value(Value::Register(0))),
                    property: PropertyKey::Ident("resume".to_string()),
                    optional: false,
                }),
                arguments: vec![],
            },
        },
    ];

    let result = detect_generator_patterns(stmts, true);

    // Should have: r3 = await fetch("url")
    let has_await_assign = result.iter().any(|s| {
        if let Statement::Assign {
            target: AssignTarget::Register(3),
            value,
        } = s
        {
            matches!(value, Expression::Await(_))
        } else {
            false
        }
    });
    assert!(
        has_await_assign,
        "Expected r3 = await fetch(...), got: {result:?}"
    );
}

#[test]
fn test_yield_expression_display() {
    let yield_expr = Expression::Yield {
        value: Box::new(Expression::Value(Value::Constant(Constant::Integer(42)))),
        delegate: false,
    };
    assert_eq!(show(&yield_expr), "yield 42");

    let yield_delegate = Expression::Yield {
        value: Box::new(Expression::Value(Value::Variable("iter".to_string()))),
        delegate: true,
    };
    assert_eq!(show(&yield_delegate), "yield* iter");
}

#[test]
fn test_await_expression_display() {
    // Hermes convention: first arg is `this` (undefined for global calls)
    let await_expr = Expression::Await(Box::new(Expression::Call {
        callee: Box::new(Expression::Value(Value::Variable("fetch".to_string()))),
        arguments: vec![
            Expression::Value(Value::Constant(Constant::Undefined)), // this
            Expression::Value(Value::Constant(Constant::String("url".to_string()))),
        ],
    }));
    assert_eq!(show(&await_expr), "await fetch(\"url\")");
}

#[test]
fn test_cleanup_generator_comments() {
    let stmts = vec![
        Statement::Comment("StartGenerator".to_string()),
        Statement::Assign {
            target: AssignTarget::Register(0),
            value: Expression::Value(Value::Constant(Constant::Integer(1))),
        },
        Statement::Comment("__yield_point__:100".to_string()),
        Statement::Return(Some(Expression::Value(Value::Register(0)))),
        Statement::Comment("Some other comment".to_string()),
    ];

    let result = cleanup_generator_comments(stmts);

    assert!(!result
        .iter()
        .any(|s| matches!(s, Statement::Comment(c) if c == "StartGenerator")));
    assert!(!result
        .iter()
        .any(|s| matches!(s, Statement::Comment(c) if c.starts_with("__yield_point__"))));
    assert!(result
        .iter()
        .any(|s| matches!(s, Statement::Comment(c) if c == "Some other comment")));
}

#[test]
fn test_multiple_yields_with_results() {
    // Simulate:
    //   a = yield 1
    //   b = yield 2
    let stmts = vec![
        Statement::Comment("StartGenerator".to_string()),
        Statement::Comment("__yield_point__:100".to_string()),
        Statement::Return(Some(Expression::Value(Value::Constant(Constant::Integer(
            1,
        ))))),
        Statement::Assign {
            target: AssignTarget::Register(1),
            value: Expression::Call {
                callee: Box::new(Expression::Member {
                    object: Box::new(Expression::Value(Value::Register(0))),
                    property: PropertyKey::Ident("resume".to_string()),
                    optional: false,
                }),
                arguments: vec![],
            },
        },
        Statement::Comment("__yield_point__:200".to_string()),
        Statement::Return(Some(Expression::Value(Value::Constant(Constant::Integer(
            2,
        ))))),
        Statement::Assign {
            target: AssignTarget::Register(2),
            value: Expression::Call {
                callee: Box::new(Expression::Member {
                    object: Box::new(Expression::Value(Value::Register(0))),
                    property: PropertyKey::Ident("resume".to_string()),
                    optional: false,
                }),
                arguments: vec![],
            },
        },
    ];

    let result = detect_generator_patterns(stmts, false);

    // Count yield assignments
    let yield_count = result
        .iter()
        .filter(|s| {
            matches!(
                s,
                Statement::Assign {
                    value: Expression::Yield { .. },
                    ..
                }
            )
        })
        .count();

    assert_eq!(
        yield_count, 2,
        "Expected 2 yield assignments, got: {result:?}"
    );
}

fn var(n: &str) -> Expression {
    Expression::Value(Value::Variable(n.into()))
}

fn param(i: u32) -> Expression {
    Expression::Value(Value::Parameter(i))
}

fn integer(n: i32) -> Expression {
    Expression::constant(Constant::Integer(n))
}

fn bool_c(b: bool) -> Expression {
    Expression::constant(Constant::Bool(b))
}

fn eq(l: Expression, r: Expression) -> Expression {
    Expression::binary(BinaryOp::StrictEq, l, r)
}

fn obj_value_done(value: Expression, done: bool) -> Expression {
    Expression::Object {
        properties: vec![
            ObjectProperty {
                key: PropertyKey::Ident("value".into()),
                value,
            },
            ObjectProperty {
                key: PropertyKey::Ident("done".into()),
                value: bool_c(done),
            },
        ],
    }
}

fn arg_protocol(real: Vec<Statement>) -> Vec<Statement> {
    vec![Statement::If {
        condition: eq(param(0), integer(1)),
        then_body: vec![Statement::Throw(param(1))],
        else_body: vec![Statement::If {
            condition: eq(param(0), integer(2)),
            then_body: vec![
                Statement::Assign {
                    target: AssignTarget::Variable("obj".into()),
                    value: obj_value_done(param(1), true),
                },
                Statement::Return(Some(var("obj"))),
            ],
            else_body: real,
        }],
    }]
}

#[test]
fn reconstructs_folded_two_statement_result_object() {
    // Shape after nested slot-fill: yield is a direct `{value,done}` return,
    // terminal is `obj = {value, done}; return obj` (the 2-stmt form).
    let yield_case = arg_protocol(vec![
        Statement::Expr(Expression::Call {
            callee: Box::new(var("dispatch")),
            arguments: vec![],
        }),
        Statement::Return(Some(obj_value_done(
            Expression::Call {
                callee: Box::new(var("post")),
                arguments: vec![],
            },
            false,
        ))),
    ]);
    let done_case = arg_protocol(vec![
        Statement::Assign {
            target: AssignTarget::Variable("obj".into()),
            value: obj_value_done(
                Expression::Member {
                    object: Box::new(param(1)),
                    property: PropertyKey::Ident("token".into()),
                    optional: false,
                },
                true,
            ),
        },
        Statement::Return(Some(var("obj"))),
    ]);
    let body = vec![Statement::If {
        condition: eq(var("status"), integer(2)),
        then_body: vec![Statement::Expr(Expression::Call {
            callee: Box::new(var("throwTypeError")),
            arguments: vec![],
        })],
        else_body: vec![Statement::TryCatch {
            try_body: vec![Statement::If {
                condition: eq(integer(0), var("label")),
                then_body: yield_case,
                else_body: done_case,
            }],
            catch_param: Some("e".into()),
            catch_body: vec![Statement::Throw(var("e"))],
            finally_body: vec![],
        }],
    }];

    let out = reconstruct_generator_v98(body);
    let has_yield = out.iter().any(stmt_has_yield_deep);
    assert!(has_yield, "expected flattened yield, got {out:?}");
    let dump = format!("{out:?}");
    assert!(!dump.contains("throwTypeError"), "raw executing-guard leaked: {dump}");
}

#[test]
fn reconstructs_async_try_catch_skipping_error_label() {
    // forgotPassword shape: label 0 yields, label 1 is the catch handler
    // (throw / early return), trailing else is the resume after the yield.
    let yield_case = arg_protocol(vec![
        Statement::Expr(Expression::Call {
            callee: Box::new(var("dispatchRequest")),
            arguments: vec![],
        }),
        Statement::Return(Some(obj_value_done(var("posted"), false))),
    ]);
    let catch_case = vec![Statement::If {
        condition: var("isPhone"),
        then_body: vec![Statement::Return(Some(obj_value_done(
            Expression::constant(Constant::Bool(false)),
            true,
        )))],
        else_body: vec![Statement::Throw(var("err"))],
    }];
    let done_case = arg_protocol(vec![
        Statement::Assign {
            target: AssignTarget::Variable("body".into()),
            value: param(1),
        },
        Statement::Expr(Expression::Call {
            callee: Box::new(var("dispatchSent")),
            arguments: vec![],
        }),
        Statement::Return(Some(obj_value_done(
            Expression::Member {
                object: Box::new(var("body")),
                property: PropertyKey::Ident("method".into()),
                optional: false,
            },
            true,
        ))),
    ]);
    let body = vec![Statement::If {
        condition: eq(var("status"), integer(2)),
        then_body: vec![Statement::Expr(Expression::Call {
            callee: Box::new(var("throwTypeError")),
            arguments: vec![],
        })],
        else_body: vec![Statement::TryCatch {
            try_body: vec![Statement::If {
                condition: eq(integer(0), var("label")),
                then_body: yield_case,
                else_body: vec![Statement::If {
                    condition: eq(integer(1), var("label")),
                    then_body: catch_case,
                    else_body: done_case,
                }],
            }],
            catch_param: Some("e".into()),
            catch_body: vec![Statement::Throw(var("e"))],
            finally_body: vec![],
        }],
    }];

    let out = reconstruct_generator_v98(body);
    let dump = format!("{out:?}");
    assert!(out.iter().any(stmt_has_yield_deep), "expected yield, got {dump}");
    assert!(!dump.contains("throwTypeError"), "raw guard leaked: {dump}");
    assert!(dump.contains("dispatchRequest"), "lost request dispatch: {dump}");
    assert!(dump.contains("dispatchSent"), "lost sent dispatch: {dump}");
}

fn machine(yielded: &str) -> Statement {
    let yield_case =
        arg_protocol(vec![Statement::Return(Some(obj_value_done(var(yielded), false)))]);
    let done_case = arg_protocol(vec![
        Statement::Assign {
            target: AssignTarget::Variable("obj".into()),
            value: obj_value_done(param(1), true),
        },
        Statement::Return(Some(var("obj"))),
    ]);
    Statement::If {
        condition: eq(integer(0), var("label")),
        then_body: yield_case,
        else_body: done_case,
    }
}

#[test]
fn the_dispatch_is_found_behind_its_guards() {
    let guard = |n: i32, rest: Vec<Statement>| {
        vec![Statement::If {
            condition: eq(var("status"), integer(n)),
            then_body: vec![Statement::Expr(Expression::Call {
                callee: Box::new(var("throwTypeError")),
                arguments: vec![],
            })],
            else_body: rest,
        }]
    };
    let plain = reconstruct_generator_v98(vec![machine("a")]);
    assert!(plain.iter().any(stmt_has_yield_deep), "{plain:?}");
    assert_eq!(reconstruct_generator_v98(guard(2, vec![machine("a")])), plain);
    assert_eq!(reconstruct_generator_v98(guard(2, guard(3, vec![machine("a")]))), plain);
}
