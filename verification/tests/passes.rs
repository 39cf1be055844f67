use hbc_transforms::collapse_registry::collapse_metro_registry;
use hbc_transforms::generator::state_machine_v98::{
    reconstruct_generator_v98, try_reconstruct_generator_v98,
};
use hbc_transforms::ir::{
    AssignTarget, Constant, Expression, ObjectProperty, PropertyKey, Statement, UnaryOp, Value,
    VarKind,
};
use hbc_transforms::objects::inline_literals::inline_single_use_literals;
use hbc_transforms::objects::slot_fills::fold_slot_index_fills;
use hbc_transforms::objects::transform_object_literals;
use hbc_transforms::optimize::dead_bindings::remove_dead_temp_bindings;
use hbc_transforms::optimize::{eliminate_dead_stores, optimize_statements};
use hbc_transforms::patterns::jsx::reconstruct_jsx;

fn var(n: &str) -> Expression {
    Expression::Value(Value::Variable(n.into()))
}

fn integer(n: i32) -> Expression {
    Expression::constant(Constant::Integer(n))
}

fn call(f: &str, arguments: Vec<Expression>) -> Expression {
    Expression::Call { callee: Box::new(var(f)), arguments }
}

fn assign(n: &str, value: Expression) -> Statement {
    Statement::Assign { target: AssignTarget::Variable(n.into()), value }
}

fn object(properties: Vec<(&str, Expression)>) -> Expression {
    Expression::Object {
        properties: properties
            .into_iter()
            .map(|(k, value)| ObjectProperty { key: PropertyKey::Ident(k.into()), value })
            .collect(),
    }
}

fn conditional(c: Expression, a: Expression, b: Expression) -> Expression {
    Expression::Conditional {
        condition: Box::new(c),
        then_expr: Box::new(a),
        else_expr: Box::new(b),
    }
}

#[test]
fn choices_become_expressions_and_empty_branches_turn_around() {
    let stmts = vec![
        Statement::If {
            condition: var("c"),
            then_body: vec![],
            else_body: vec![Statement::Expr(call("f", vec![]))],
        },
        Statement::If {
            condition: var("d"),
            then_body: vec![Statement::Return(Some(integer(1)))],
            else_body: vec![Statement::Return(Some(integer(2)))],
        },
        Statement::Return(None),
    ];
    assert_eq!(
        optimize_statements(stmts),
        vec![
            Statement::If {
                condition: Expression::unary(UnaryOp::Not, var("c")),
                then_body: vec![Statement::Expr(call("f", vec![]))],
                else_body: vec![],
            },
            Statement::Return(Some(conditional(var("d"), integer(1), integer(2)))),
        ]
    );
}

#[test]
fn a_store_that_is_overwritten_leaves_only_its_call() {
    let stmts = vec![
        assign("x", call("f", vec![])),
        assign("x", integer(1)),
        assign("x", integer(2)),
        Statement::Return(Some(var("x"))),
    ];
    assert_eq!(
        eliminate_dead_stores(stmts),
        vec![
            Statement::Expr(call("f", vec![])),
            assign("x", integer(2)),
            Statement::Return(Some(var("x"))),
        ]
    );
}

#[test]
fn a_call_in_the_key_of_a_dead_copy_stays() {
    let copy = Expression::Member {
        object: Box::new(var("a")),
        property: PropertyKey::Computed(Box::new(call("f", vec![]))),
        optional: false,
    };
    let stmts = vec![assign("x", copy.clone()), assign("x", integer(1))];
    assert_eq!(
        eliminate_dead_stores(stmts),
        vec![Statement::Expr(copy), assign("x", integer(1))]
    );
}

#[test]
fn a_store_at_the_end_is_live() {
    let stmts = vec![assign("x", integer(1))];
    assert_eq!(eliminate_dead_stores(stmts.clone()), stmts);
}

#[test]
fn only_plain_temporaries_go() {
    let keep = vec![
        Statement::Let { name: "email".into(), value: integer(1), kind: VarKind::Let },
        Statement::Let { name: "tmp2".into(), value: call("f", vec![]), kind: VarKind::Let },
    ];
    let mut stmts = keep.clone();
    stmts.push(Statement::Let { name: "tmp3".into(), value: var("a"), kind: VarKind::Let });
    assert_eq!(remove_dead_temp_bindings(stmts), keep);
}

#[test]
fn properties_assigned_to_a_new_object_move_into_it() {
    let set = |name: &str, value: Expression| Statement::Assign {
        target: AssignTarget::Member { object: Expression::register(0), property: name.into() },
        value,
    };
    let mut stmts = vec![
        Statement::assign_reg(0, object(vec![])),
        set("a", integer(1)),
        set("b", var("x")),
        Statement::Return(Some(Expression::register(0))),
    ];
    transform_object_literals(&mut stmts);
    assert_eq!(
        stmts,
        vec![
            Statement::assign_reg(0, object(vec![("a", integer(1)), ("b", var("x"))])),
            Statement::Return(Some(Expression::register(0))),
        ]
    );
}

#[test]
fn a_property_that_reads_a_reassigned_register_stays_outside() {
    let mut stmts = vec![
        Statement::assign_reg(1, integer(1)),
        Statement::assign_reg(0, object(vec![])),
        Statement::Assign {
            target: AssignTarget::Member { object: Expression::register(0), property: "a".into() },
            value: Expression::register(1),
        },
        Statement::assign_reg(1, integer(2)),
        Statement::Return(Some(Expression::register(0))),
    ];
    let before = stmts.clone();
    transform_object_literals(&mut stmts);
    assert_eq!(stmts, before);
}

#[test]
fn a_value_that_is_no_placeholder_is_not_filled() {
    // The slot gets the name of its property, and the literal keeps its value.
    let literal =
        Statement::Let { name: "o".into(), value: object(vec![("a", integer(1))]), kind: VarKind::Let };
    let mut stmts = vec![
        literal.clone(),
        Statement::Assign {
            target: AssignTarget::Index { object: var("o"), key: integer(0) },
            value: integer(2),
        },
    ];
    fold_slot_index_fills(&mut stmts);
    assert_eq!(
        stmts,
        vec![
            literal,
            Statement::Assign {
                target: AssignTarget::Member { object: var("o"), property: "a".into() },
                value: integer(2),
            },
        ]
    );
}

#[test]
fn jsx_reconstruction_changes_nothing_the_second_time() {
    let stmts = vec![
        assign("p", object(vec![("a", integer(1)), ("children", call("jsx", vec![var("B"), object(vec![])]))])),
        Statement::Return(Some(call("jsx", vec![var("A"), var("p")]))),
    ];
    let once = reconstruct_jsx(stmts);
    let element = match &once[1] {
        Statement::Return(Some(e)) => e,
        _ => panic!("a return"),
    };
    assert_eq!(
        *element,
        Expression::JSXElement {
            tag: "A".into(),
            attributes: vec![("a".into(), integer(1))],
            children: vec![Expression::JSXElement {
                tag: "B".into(),
                attributes: vec![],
                children: vec![],
            }],
        }
    );
    assert_eq!(reconstruct_jsx(once.clone()), once);
}

#[test]
fn a_call_that_stays_a_call_takes_its_literal() {
    // The tag is a call and has no JSX form.
    let tag = || call("importDefault", vec![integer(36)]);
    let literal = || object(vec![("a", integer(1))]);
    let stmts = vec![
        assign("p", literal()),
        assign("x", call("jsx", vec![tag(), var("p")])),
        assign("p", integer(2)),
        assign("y", call("jsx", vec![tag(), var("p")])),
    ];
    let once = reconstruct_jsx(stmts.clone());
    assert_eq!(
        once,
        vec![
            assign("p", literal()),
            assign("x", call("jsx", vec![tag(), literal()])),
            stmts[2].clone(),
            stmts[3].clone(),
        ]
    );
    assert_eq!(reconstruct_jsx(once.clone()), once);
}

#[test]
fn a_literal_takes_those_that_were_recorded_after_it() {
    let first = |inner: Expression| object(vec![("a", call("jsx", vec![call("g", vec![]), inner]))]);
    let second = || object(vec![("b", integer(1))]);
    let stmts = vec![
        assign("p", first(var("q"))),
        assign("q", second()),
        assign("y", call("jsx", vec![call("f", vec![]), var("p")])),
    ];
    let once = reconstruct_jsx(stmts);
    assert_eq!(
        once,
        vec![
            assign("p", first(var("q"))),
            assign("q", second()),
            assign("y", call("jsx", vec![call("f", vec![]), first(second())])),
        ]
    );
    assert_eq!(reconstruct_jsx(once.clone()), once);
}

#[test]
fn a_literal_with_a_staying_call_on_its_own_name_is_not_put_in() {
    let stmts = vec![
        assign("p", object(vec![("a", call("jsx", vec![call("g", vec![]), var("p")]))])),
        assign("y", call("jsx", vec![call("f", vec![]), var("p")])),
    ];
    assert_eq!(reconstruct_jsx(stmts.clone()), stmts);
}

#[test]
fn elements_recovered_twice_are_recovered_once() {
    let stmts = vec![
        assign("p", object(vec![("a", call("jsx", vec![var("Inner"), var("p")]))])),
        assign("q", object(vec![("b", call("jsx", vec![call("f", vec![]), var("p")]))])),
        assign("y", call("jsx", vec![var("Outer"), var("q")])),
    ];
    let once = reconstruct_jsx(stmts);
    let inner = object(vec![(
        "a",
        Expression::JSXElement {
            tag: "Inner".into(),
            attributes: vec![("...".into(), var("p"))],
            children: vec![],
        },
    )]);
    assert_eq!(
        once[2],
        assign(
            "y",
            Expression::JSXElement {
                tag: "Outer".into(),
                attributes: vec![("b".into(), call("jsx", vec![call("f", vec![]), inner]))],
                children: vec![],
            }
        )
    );
    assert_eq!(reconstruct_jsx(once.clone()), once);
}

#[test]
fn a_property_that_reads_a_reassigned_register_deep_down_stays_outside() {
    let mut stmts = vec![
        Statement::assign_reg(1, integer(1)),
        Statement::assign_reg(0, object(vec![])),
        Statement::Assign {
            target: AssignTarget::Member { object: Expression::register(0), property: "a".into() },
            value: conditional(var("c"), Expression::register(1), integer(3)),
        },
        Statement::assign_reg(1, integer(2)),
        Statement::Return(Some(Expression::register(0))),
    ];
    let before = stmts.clone();
    transform_object_literals(&mut stmts);
    assert_eq!(stmts, before);
}

#[test]
fn only_a_plain_object_becomes_a_literal() {
    let build = |name: &str, arguments: Vec<Expression>| {
        vec![
            Statement::assign_reg(0, Expression::New { callee: Box::new(var(name)), arguments }),
            Statement::Assign {
                target: AssignTarget::Member {
                    object: Expression::register(0),
                    property: "a".into(),
                },
                value: integer(1),
            },
            Statement::Return(Some(Expression::register(0))),
        ]
    };
    let mut own = build("Foo", vec![var("x")]);
    transform_object_literals(&mut own);
    assert_eq!(own, build("Foo", vec![var("x")]));
    for arguments in [vec![], vec![var("parent")]] {
        let mut plain = build("Object", arguments);
        transform_object_literals(&mut plain);
        let made = format!("{plain:?}");
        assert!(!made.contains("New {"), "{made}");
    }
}

#[test]
fn a_body_without_a_state_machine_stays() {
    let body = vec![Statement::Expr(call("f", vec![])), Statement::Return(None)];
    assert_eq!(try_reconstruct_generator_v98(&body), None);
    assert_eq!(reconstruct_generator_v98(body.clone()), body);
}

#[test]
fn without_registrations_nothing_is_collapsed() {
    let body = vec![Statement::Expr(call("f", vec![])), Statement::Return(None)];
    assert_eq!(collapse_metro_registry(body.clone()), body);
}

#[test]
fn a_literal_read_once_moves_to_its_use() {
    let list = |n: i32| Expression::Array { elements: vec![Some(integer(n))] };
    let mut stmts = vec![
        Statement::assign_reg(1, list(1)),
        Statement::Expr(call("f", vec![Expression::register(1)])),
    ];
    inline_single_use_literals(&mut stmts);
    assert_eq!(stmts, vec![Statement::Expr(call("f", vec![list(1)]))]);
}

#[test]
fn a_literal_replaced_in_a_branch_stays() {
    let list = |n: i32| Expression::Array { elements: vec![Some(integer(n))] };
    let stmts = vec![
        Statement::assign_reg(1, list(1)),
        Statement::If {
            condition: var("c"),
            then_body: vec![Statement::assign_reg(1, list(2))],
            else_body: vec![],
        },
        Statement::Expr(call("f", vec![Expression::register(1)])),
    ];
    let mut again = stmts.clone();
    inline_single_use_literals(&mut again);
    assert_eq!(again, stmts);
}
