use hbc_transforms::codegen::{Codegen, CodegenOptions};
use hbc_transforms::destructuring::babel::reconstruct_babel_array_destructuring;
use hbc_transforms::destructuring::detect_destructuring;
use hbc_transforms::destructuring::transformer::transform_destructuring;
use hbc_transforms::ir::{
    AssignTarget, BinaryOp, Constant, Expression, PropertyKey, Statement, Value, VarKind,
};

fn var(n: &str) -> Expression {
    Expression::Value(Value::Variable(n.into()))
}

fn helper_call(src: &str, n: i64) -> Expression {
    Expression::Call {
        callee: Box::new(var("_slicedToArray")),
        arguments: vec![
            var(src),
            Expression::Value(Value::Constant(Constant::Integer(n as i32))),
        ],
    }
}

fn let_stmt(name: &str, value: Expression) -> Statement {
    Statement::Let {
        name: name.into(),
        value,
        kind: VarKind::Let,
    }
}

fn index_read(tmp: &str, i: i64) -> Expression {
    Expression::Member {
        object: Box::new(var(tmp)),
        property: PropertyKey::Index(i),
        optional: false,
    }
}

fn render(stmts: &Vec<Statement>) -> String {
    Codegen::new(CodegenOptions::new()).generate_statements(stmts)
}

#[test]
fn folds_the_helper_and_its_reads_into_one_pattern() {
    let out = reconstruct_babel_array_destructuring(vec![
        let_stmt("tmp", helper_call("src", 2)),
        let_stmt("a", index_read("tmp", 0)),
        let_stmt("b", index_read("tmp", 1)),
    ]);
    let text = render(&out);
    assert!(text.contains("[a, b] = src"), "{text}");
    assert!(!text.contains("_slicedToArray"), "{text}");
}

#[test]
fn a_statement_between_the_reads_survives() {
    // The reads move up to the call, so anything sitting between them has to be
    // re-emitted. Dropping it would silently delete code.
    let out = reconstruct_babel_array_destructuring(vec![
        let_stmt("tmp", helper_call("src", 2)),
        let_stmt("a", index_read("tmp", 0)),
        let_stmt("keepMe", var("somethingElse")),
        let_stmt("b", index_read("tmp", 1)),
    ]);
    let text = render(&out);
    assert!(text.contains("keepMe"), "the in between statement was lost: {text}");
    assert!(text.contains("[a, b] = src"), "{text}");
}

#[test]
fn a_temporary_read_elsewhere_is_left_alone() {
    // `tmp` outlives the reads, so folding it away would lose the later use.
    let out = reconstruct_babel_array_destructuring(vec![
        let_stmt("tmp", helper_call("src", 3)),
        let_stmt("a", index_read("tmp", 0)),
        let_stmt("later", var("tmp")),
    ]);
    let text = render(&out);
    assert!(text.contains("_slicedToArray"), "{text}");
    assert!(text.contains("later"), "{text}");
}

#[test]
fn an_already_reconstructed_pattern_drops_the_helper() {
    let out = reconstruct_babel_array_destructuring(vec![Statement::Assign {
        target: AssignTarget::DestructuringArray(vec![
            Some((AssignTarget::Variable("a".into()), None)),
            Some((AssignTarget::Variable("b".into()), None)),
        ]),
        value: helper_call("src", 2),
    }]);
    let text = render(&out);
    assert!(text.contains("= src"), "{text}");
    assert!(!text.contains("_slicedToArray"), "{text}");
}

#[test]
fn test_object_destructuring_detection() {
    // r1 = obj.x; r2 = obj.y;
    let obj = Expression::Value(Value::Register(0));
    let stmts = vec![
        Statement::Assign {
            target: AssignTarget::Register(1),
            value: Expression::Member {
                object: Box::new(obj.clone()),
                property: PropertyKey::Ident("x".to_string()),
                optional: false,
            },
        },
        Statement::Assign {
            target: AssignTarget::Register(2),
            value: Expression::Member {
                object: Box::new(obj.clone()),
                property: PropertyKey::Ident("y".to_string()),
                optional: false,
            },
        },
    ];

    let result = detect_destructuring(stmts);

    assert_eq!(result.len(), 1);
    if let Statement::Assign {
        target: AssignTarget::DestructuringObject(props),
        ..
    } = &result[0]
    {
        assert_eq!(props.len(), 2);
        assert_eq!(props[0].0, "x");
        assert_eq!(props[1].0, "y");
    } else {
        panic!("Expected destructuring object, got: {:?}", result[0]);
    }
}

#[test]
fn test_array_destructuring_detection() {
    // r1 = arr[0]; r2 = arr[1]; r3 = arr[2];
    let arr = Expression::Value(Value::Register(0));
    let stmts = vec![
        Statement::Assign {
            target: AssignTarget::Register(1),
            value: Expression::Member {
                object: Box::new(arr.clone()),
                property: PropertyKey::Index(0),
                optional: false,
            },
        },
        Statement::Assign {
            target: AssignTarget::Register(2),
            value: Expression::Member {
                object: Box::new(arr.clone()),
                property: PropertyKey::Index(1),
                optional: false,
            },
        },
        Statement::Assign {
            target: AssignTarget::Register(3),
            value: Expression::Member {
                object: Box::new(arr.clone()),
                property: PropertyKey::Index(2),
                optional: false,
            },
        },
    ];

    let result = detect_destructuring(stmts);

    assert_eq!(result.len(), 1);
    if let Statement::Assign {
        target: AssignTarget::DestructuringArray(elements),
        ..
    } = &result[0]
    {
        assert_eq!(elements.len(), 3);
        assert!(elements.iter().all(|e| e.is_some()));
    } else {
        panic!("Expected destructuring array, got: {:?}", result[0]);
    }
}

#[test]
fn test_computed_index_destructuring() {
    // r1 = arr[0]; r2 = arr[1]; using Computed property keys
    let arr = Expression::Value(Value::Register(0));
    let stmts = vec![
        Statement::Assign {
            target: AssignTarget::Register(1),
            value: Expression::Member {
                object: Box::new(arr.clone()),
                property: PropertyKey::Computed(Box::new(Expression::constant(
                    Constant::Integer(0),
                ))),
                optional: false,
            },
        },
        Statement::Assign {
            target: AssignTarget::Register(2),
            value: Expression::Member {
                object: Box::new(arr.clone()),
                property: PropertyKey::Computed(Box::new(Expression::constant(
                    Constant::Integer(1),
                ))),
                optional: false,
            },
        },
    ];

    let result = detect_destructuring(stmts);

    assert_eq!(result.len(), 1);
    if let Statement::Assign {
        target: AssignTarget::DestructuringArray(elements),
        ..
    } = &result[0]
    {
        assert_eq!(elements.len(), 2);
    } else {
        panic!("Expected destructuring array, got: {:?}", result[0]);
    }
}

#[test]
fn test_non_consecutive_indices_not_destructured() {
    // r1 = arr[0]; r2 = arr[2]; (skip index 1)
    let arr = Expression::Value(Value::Register(0));
    let stmts = vec![
        Statement::Assign {
            target: AssignTarget::Register(1),
            value: Expression::Member {
                object: Box::new(arr.clone()),
                property: PropertyKey::Index(0),
                optional: false,
            },
        },
        Statement::Assign {
            target: AssignTarget::Register(2),
            value: Expression::Member {
                object: Box::new(arr.clone()),
                property: PropertyKey::Index(2),
                optional: false,
            },
        },
    ];

    let result = detect_destructuring(stmts);

    // Should not be destructured since indices are not consecutive
    assert_eq!(result.len(), 2);
}

#[test]
fn test_single_access_not_destructured() {
    // r1 = obj.x; (single property - should not destructure)
    let obj = Expression::Value(Value::Register(0));
    let stmts = vec![Statement::Assign {
        target: AssignTarget::Register(1),
        value: Expression::Member {
            object: Box::new(obj),
            property: PropertyKey::Ident("x".to_string()),
            optional: false,
        },
    }];

    let result = detect_destructuring(stmts);

    assert_eq!(result.len(), 1);
    // Should remain as single property access
    if let Statement::Assign {
        target: AssignTarget::DestructuringObject(_),
        ..
    } = &result[0]
    {
        panic!("Should not destructure single property access");
    }
}

#[test]
fn test_different_objects_not_destructured() {
    // r1 = obj1.x; r2 = obj2.y; (different objects)
    let stmts = vec![
        Statement::Assign {
            target: AssignTarget::Register(1),
            value: Expression::Member {
                object: Box::new(Expression::Value(Value::Register(0))),
                property: PropertyKey::Ident("x".to_string()),
                optional: false,
            },
        },
        Statement::Assign {
            target: AssignTarget::Register(2),
            value: Expression::Member {
                object: Box::new(Expression::Value(Value::Register(10))),
                property: PropertyKey::Ident("y".to_string()),
                optional: false,
            },
        },
    ];

    let result = detect_destructuring(stmts);

    // Should remain as two separate assignments
    assert_eq!(result.len(), 2);
}

#[test]
fn test_nested_destructuring() {
    // Inside an if block
    let obj = Expression::Value(Value::Register(0));
    let stmts = vec![Statement::If {
        condition: Expression::constant(Constant::Bool(true)),
        then_body: vec![
            Statement::Assign {
                target: AssignTarget::Register(1),
                value: Expression::Member {
                    object: Box::new(obj.clone()),
                    property: PropertyKey::Ident("a".to_string()),
                    optional: false,
                },
            },
            Statement::Assign {
                target: AssignTarget::Register(2),
                value: Expression::Member {
                    object: Box::new(obj.clone()),
                    property: PropertyKey::Ident("b".to_string()),
                    optional: false,
                },
            },
        ],
        else_body: vec![],
    }];

    let result = detect_destructuring(stmts);

    assert_eq!(result.len(), 1);
    if let Statement::If { then_body, .. } = &result[0] {
        assert_eq!(then_body.len(), 1);
        if let Statement::Assign {
            target: AssignTarget::DestructuringObject(props),
            ..
        } = &then_body[0]
        {
            assert_eq!(props.len(), 2);
        } else {
            panic!("Expected destructuring object in then body");
        }
    } else {
        panic!("Expected if statement");
    }
}

#[test]
fn test_optional_member_not_destructured() {
    // r1 = obj?.x; r2 = obj?.y; (optional chaining should not destructure)
    let obj = Expression::Value(Value::Register(0));
    let stmts = vec![
        Statement::Assign {
            target: AssignTarget::Register(1),
            value: Expression::Member {
                object: Box::new(obj.clone()),
                property: PropertyKey::Ident("x".to_string()),
                optional: true, // Optional!
            },
        },
        Statement::Assign {
            target: AssignTarget::Register(2),
            value: Expression::Member {
                object: Box::new(obj.clone()),
                property: PropertyKey::Ident("y".to_string()),
                optional: true,
            },
        },
    ];

    let result = detect_destructuring(stmts);

    // Should not destructure because of optional chaining
    assert_eq!(result.len(), 2);
}

#[test]
fn test_three_properties_destructuring() {
    let obj = Expression::Value(Value::Variable("data".to_string()));
    let stmts = vec![
        Statement::Assign {
            target: AssignTarget::Variable("x".to_string()),
            value: Expression::Member {
                object: Box::new(obj.clone()),
                property: PropertyKey::Ident("x".to_string()),
                optional: false,
            },
        },
        Statement::Assign {
            target: AssignTarget::Variable("y".to_string()),
            value: Expression::Member {
                object: Box::new(obj.clone()),
                property: PropertyKey::Ident("y".to_string()),
                optional: false,
            },
        },
        Statement::Assign {
            target: AssignTarget::Variable("z".to_string()),
            value: Expression::Member {
                object: Box::new(obj.clone()),
                property: PropertyKey::Ident("z".to_string()),
                optional: false,
            },
        },
    ];

    let result = detect_destructuring(stmts);

    assert_eq!(result.len(), 1);
    if let Statement::Assign {
        target: AssignTarget::DestructuringObject(props),
        value,
    } = &result[0]
    {
        assert_eq!(props.len(), 3);
        assert_eq!(props[0].0, "x");
        assert_eq!(props[1].0, "y");
        assert_eq!(props[2].0, "z");
        // Check value is the original object
        if let Expression::Value(Value::Variable(name)) = value {
            assert_eq!(name, "data");
        } else {
            panic!("Expected variable 'data'");
        }
    } else {
        panic!("Expected destructuring object with 3 props");
    }
}

#[test]
fn test_default_value_destructuring() {
    let obj = Expression::Value(Value::Variable("param".to_string()));
    let stmts = vec![
        Statement::Assign {
            target: AssignTarget::Variable("x".to_string()),
            value: Expression::Member {
                object: Box::new(obj.clone()),
                property: PropertyKey::Ident("x".to_string()),
                optional: false,
            },
        },
        Statement::If {
            condition: Expression::Binary {
                op: BinaryOp::StrictEq,
                left: Box::new(Expression::Value(Value::Variable("x".to_string()))),
                right: Box::new(Expression::constant(Constant::Undefined)),
            },
            then_body: vec![Statement::Assign {
                target: AssignTarget::Variable("x".to_string()),
                value: Expression::constant(Constant::Integer(42)),
            }],
            else_body: vec![],
        },
        Statement::Assign {
            target: AssignTarget::Variable("y".to_string()),
            value: Expression::Member {
                object: Box::new(obj.clone()),
                property: PropertyKey::Ident("y".to_string()),
                optional: false,
            },
        },
    ];

    let mut stmts_mut = stmts.clone();
    transform_destructuring(&mut stmts_mut);

    assert_eq!(stmts_mut.len(), 1);
    if let Statement::Assign {
        target: AssignTarget::DestructuringObject(props),
        ..
    } = &stmts_mut[0]
    {
        assert_eq!(props.len(), 2);
        assert_eq!(props[0].0, "x");
        // Check default value for `x` was extracted
        if let Some(Expression::Value(Value::Constant(Constant::Integer(val)))) = &props[0].2 {
            assert_eq!(*val, 42);
        } else {
            panic!("Expected default value 42 for x");
        }
        assert_eq!(props[1].0, "y");
        assert!(props[1].2.is_none());
    } else {
        panic!("Expected destructuring object");
    }
}

#[test]
fn a_copy_used_outside_the_branch_is_left_alone() {
    let inner = vec![
        Statement::Assign {
            target: AssignTarget::Variable("tmp".into()),
            value: helper_call("src", 2),
        },
        let_stmt("a", index_read("tmp", 0)),
    ];
    let stmts = vec![
        Statement::If { condition: var("c"), then_body: inner, else_body: vec![] },
        Statement::Return(Some(var("tmp"))),
    ];
    assert_eq!(reconstruct_babel_array_destructuring(stmts.clone()), stmts);
}

#[test]
fn a_copy_of_its_own_former_value_is_left_alone() {
    let stmts = vec![let_stmt("tmp", helper_call("tmp", 2)), let_stmt("a", index_read("tmp", 0))];
    assert_eq!(reconstruct_babel_array_destructuring(stmts.clone()), stmts);
}

#[test]
fn a_read_does_not_move_above_a_use_of_its_register() {
    let stmts = vec![
        let_stmt("tmp", helper_call("src", 1)),
        Statement::Return(Some(Expression::register(5))),
        Statement::assign_reg(5, index_read("tmp", 0)),
    ];
    assert_eq!(reconstruct_babel_array_destructuring(stmts.clone()), stmts);
}
