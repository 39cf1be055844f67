use hbc_transforms::dict::{Dict, NameSet};
use hbc_transforms::inline::aliases::eliminate_immutable_aliases;
use hbc_transforms::inline::declarations::{
    extra_writes_from_nested_bodies, insert_declarations, insert_declarations_with_extra_writes,
    insert_declarations_with_outer,
};
use hbc_transforms::inline::expressions::inline_expressions;
use hbc_transforms::inline::inline_named::{inline_named_variables, is_dead_inlinable_name};
use hbc_transforms::ir::{
    AssignTarget, BinaryOp, Constant, Expression, FunctionId, PropertyKey, Statement, Value, VarKind,
};

fn var(n: &str) -> Expression {
    Expression::Value(Value::Variable(n.into()))
}

fn integer(n: i32) -> Expression {
    Expression::constant(Constant::Integer(n))
}

fn call(f: &str, arguments: Vec<Expression>) -> Expression {
    Expression::Call { callee: Box::new(var(f)), arguments }
}

fn member(object: Expression, name: &str) -> Expression {
    Expression::Member {
        object: Box::new(object),
        property: PropertyKey::Ident(name.into()),
        optional: false,
    }
}

fn assign(n: &str, value: Expression) -> Statement {
    Statement::Assign { target: AssignTarget::Variable(n.into()), value }
}

fn lets(n: &str, value: Expression, kind: VarKind) -> Statement {
    Statement::Let { name: n.into(), value, kind }
}

fn function(id: u32) -> Expression {
    Expression::Function {
        id: FunctionId(id),
        name: None,
        is_arrow: true,
        is_async: false,
        is_generator: false,
    }
}

#[test]
fn temporaries_read_once_are_inlined() {
    let stmts = vec![
        assign("tmp", member(var("a"), "b")),
        Statement::Return(Some(call("f", vec![var("tmp")]))),
    ];
    assert_eq!(
        inline_named_variables(stmts),
        vec![Statement::Return(Some(call("f", vec![member(var("a"), "b")])))]
    );
}

#[test]
fn constants_reach_nested_blocks() {
    let stmts = vec![
        assign("tmp", integer(5)),
        Statement::If {
            condition: var("c"),
            then_body: vec![Statement::Return(Some(var("tmp")))],
            else_body: vec![],
        },
    ];
    assert_eq!(
        inline_named_variables(stmts),
        vec![Statement::If {
            condition: var("c"),
            then_body: vec![Statement::Return(Some(integer(5)))],
            else_body: vec![],
        }]
    );
}

#[test]
fn a_loop_bound_reaches_the_condition() {
    let stmts = vec![
        assign("num", integer(5)),
        Statement::While {
            condition: Expression::binary(BinaryOp::Lt, var("i"), var("num")),
            body: vec![Statement::Expr(call("f", vec![]))],
        },
    ];
    assert_eq!(
        inline_named_variables(stmts),
        vec![Statement::While {
            condition: Expression::binary(BinaryOp::Lt, var("i"), integer(5)),
            body: vec![Statement::Expr(call("f", vec![]))],
        }]
    );
}

#[test]
fn a_call_read_in_a_loop_is_still_made_once() {
    let stmts = vec![
        assign("tmp", call("f", vec![])),
        Statement::While {
            condition: var("c"),
            body: vec![Statement::Expr(call("g", vec![var("tmp")]))],
        },
    ];
    assert_eq!(inline_named_variables(stmts.clone()), stmts);
}

#[test]
fn a_call_read_in_a_branch_is_still_made() {
    let stmts = vec![
        assign("tmp", call("f", vec![])),
        Statement::If {
            condition: var("c"),
            then_body: vec![Statement::Expr(call("g", vec![var("tmp")]))],
            else_body: vec![],
        },
    ];
    assert_eq!(inline_named_variables(stmts.clone()), stmts);
}

#[test]
fn a_loop_carried_variable_keeps_its_update() {
    // `sum` is no temporary; neither its definition nor its update may go.
    let stmts = vec![
        assign("sum", integer(0)),
        Statement::While {
            condition: var("c"),
            body: vec![assign("sum", Expression::binary(BinaryOp::Add, var("sum"), integer(1)))],
        },
        Statement::Return(Some(var("sum"))),
    ];
    assert_eq!(inline_named_variables(stmts.clone()), stmts);
}

#[test]
fn simple_values_are_written_at_every_use() {
    let stmts = vec![
        assign("obj", member(var("a"), "b")),
        assign("x", call("f", vec![var("obj")])),
        Statement::Return(Some(var("obj"))),
    ];
    assert_eq!(
        inline_named_variables(stmts),
        vec![
            assign("x", call("f", vec![member(var("a"), "b")])),
            Statement::Return(Some(member(var("a"), "b"))),
        ]
    );
}

#[test]
fn a_dead_temporary_leaves_its_call() {
    let stmts = vec![
        assign("tmp", call("f", vec![])),
        assign("tmp2", member(var("a"), "b")),
        Statement::Return(None),
    ];
    assert_eq!(
        inline_named_variables(stmts),
        vec![Statement::Expr(call("f", vec![])), Statement::Return(None)]
    );
}

#[test]
fn functions_stay_where_they_are() {
    let stmts = vec![assign("fn", function(3)), Statement::Return(Some(var("fn")))];
    assert_eq!(inline_named_variables(stmts.clone()), stmts);
}

#[test]
fn only_names_of_temporaries_are_inlinable() {
    for name in ["tmp", "tmp12", "r0", "obj", "obj2", "flag7", "_interopDefault", "fetchResult3"] {
        assert!(is_dead_inlinable_name(name), "{name}");
    }
    for name in ["r", "closure_0", "object", "tmpx", "email", "resultant"] {
        assert!(!is_dead_inlinable_name(name), "{name}");
    }
}

#[test]
fn aliases_of_what_never_changes_go() {
    // `tmp` stands for `require` in a loop body too; `tmp2` for a variable that is written.
    let stmts = vec![
        assign("tmp", var("require")),
        Statement::While {
            condition: var("c"),
            body: vec![Statement::Expr(call("tmp", vec![integer(1)]))],
        },
        assign("tmp2", var("x")),
        assign("x", integer(2)),
        Statement::Return(Some(var("tmp2"))),
    ];
    assert_eq!(
        eliminate_immutable_aliases(stmts),
        vec![
            Statement::While {
                condition: var("c"),
                body: vec![Statement::Expr(call("require", vec![integer(1)]))],
            },
            assign("tmp2", var("x")),
            assign("x", integer(2)),
            Statement::Return(Some(var("tmp2"))),
        ]
    );
}

#[test]
fn chains_of_aliases_collapse() {
    let stmts = vec![
        assign("tmp", var("require")),
        assign("tmp2", var("tmp")),
        Statement::Return(Some(call("tmp2", vec![integer(1)]))),
    ];
    assert_eq!(
        eliminate_immutable_aliases(stmts),
        vec![Statement::Return(Some(call("require", vec![integer(1)])))]
    );
}

#[test]
fn a_copy_is_written_before_its_source_changes() {
    // r1 = r0; r0 = 7; return r1
    let stmts = vec![
        Statement::assign_reg(1, Expression::register(0)),
        Statement::assign_reg(0, integer(7)),
        Statement::Return(Some(Expression::register(1))),
    ];
    assert_eq!(inline_expressions(stmts.clone()), stmts);
}

#[test]
fn registers_assigned_twice_are_not_inlined() {
    let stmts = vec![
        Statement::assign_reg(0, integer(1)),
        Statement::assign_reg(0, integer(2)),
        Statement::Return(Some(Expression::register(0))),
    ];
    assert_eq!(inline_expressions(stmts.clone()), stmts);
}

#[test]
fn a_chain_of_registers_becomes_one_expression() {
    let stmts = vec![
        Statement::assign_reg(0, var("a")),
        Statement::assign_reg(1, member(Expression::register(0), "b")),
        Statement::Return(Some(Expression::register(1))),
    ];
    assert_eq!(
        inline_expressions(stmts),
        vec![Statement::Return(Some(member(var("a"), "b")))]
    );
}

#[test]
fn the_condition_of_a_do_while_gets_its_bound() {
    let stmts = vec![
        Statement::assign_reg(0, var("n")),
        Statement::DoWhile {
            body: vec![Statement::Expr(call("f", vec![]))],
            condition: Expression::binary(BinaryOp::Lt, var("i"), Expression::register(0)),
        },
    ];
    assert_eq!(
        inline_expressions(stmts),
        vec![Statement::DoWhile {
            body: vec![Statement::Expr(call("f", vec![]))],
            condition: Expression::binary(BinaryOp::Lt, var("i"), var("n")),
        }]
    );
}

#[test]
fn declared_variables_are_not_declared_again() {
    let mut stmts = vec![
        assign("x", integer(1)),
        assign("p", integer(2)),
        Statement::Return(Some(var("x"))),
    ];
    insert_declarations(&mut stmts, &vec!["p".to_string()]);
    assert_eq!(
        stmts,
        vec![
            lets("x", integer(1), VarKind::Const),
            assign("p", integer(2)),
            Statement::Return(Some(var("x"))),
        ]
    );
}

#[test]
fn a_variable_written_twice_is_let() {
    let mut stmts = vec![
        assign("x", integer(1)),
        assign("x", integer(2)),
        Statement::Return(Some(var("x"))),
    ];
    insert_declarations(&mut stmts, &vec![]);
    assert_eq!(
        stmts,
        vec![
            lets("x", integer(1), VarKind::Let),
            assign("x", integer(2)),
            Statement::Return(Some(var("x"))),
        ]
    );
}

#[test]
fn a_write_in_a_closure_makes_a_variable_let() {
    let nested = vec![assign("x", integer(2))];
    let extra = extra_writes_from_nested_bodies(&vec![&nested]);
    let mut stmts = vec![assign("x", integer(1)), Statement::Return(Some(var("x")))];
    insert_declarations_with_extra_writes(&mut stmts, &vec![], &extra);
    assert_eq!(
        stmts,
        vec![lets("x", integer(1), VarKind::Let), Statement::Return(Some(var("x")))]
    );
}

#[test]
fn variables_of_the_enclosing_function_stay_assignments() {
    let mut outer = NameSet::new();
    outer.insert("x");
    let mut stmts = vec![assign("x", integer(1)), assign("y", integer(2))];
    insert_declarations_with_outer(&mut stmts, &vec![], &Dict::new(), &outer, false);
    assert_eq!(stmts, vec![assign("x", integer(1)), lets("y", integer(2), VarKind::Const)]);
}

#[test]
fn environment_slots_are_let_or_stay_assignments() {
    let stmts = vec![assign("closure_1_2", integer(1)), assign("c0", integer(2))];
    let mut owned = stmts.clone();
    insert_declarations(&mut owned, &vec![]);
    assert_eq!(
        owned,
        vec![
            lets("closure_1_2", integer(1), VarKind::Let),
            lets("c0", integer(2), VarKind::Let),
        ]
    );
    let mut handler = stmts.clone();
    insert_declarations_with_outer(&mut handler, &vec![], &Dict::new(), &NameSet::new(), true);
    assert_eq!(handler, stmts);
}

#[test]
fn a_variable_read_before_it_is_written_is_captured() {
    let mut stmts = vec![assign("count", Expression::binary(BinaryOp::Add, var("count"), integer(1)))];
    let before = stmts.clone();
    insert_declarations(&mut stmts, &vec![]);
    assert_eq!(stmts, before);
}

#[test]
fn loop_carried_variables_are_declared_at_the_top() {
    let body = vec![assign("x", call("f", vec![]))];
    let mut stmts = vec![
        Statement::While { condition: var("c"), body: body.clone() },
        Statement::Return(Some(var("x"))),
    ];
    insert_declarations(&mut stmts, &vec![]);
    assert_eq!(
        stmts,
        vec![
            lets("x", Expression::constant(Constant::Undefined), VarKind::Let),
            Statement::While { condition: var("c"), body },
            Statement::Return(Some(var("x"))),
        ]
    );
}

#[test]
fn pattern_names_are_declared_once_at_the_top() {
    let pattern = |source: &str| Statement::Assign {
        target: AssignTarget::DestructuringArray(vec![
            Some((AssignTarget::Variable("b".into()), None)),
            Some((AssignTarget::Variable("a".into()), None)),
            Some((AssignTarget::Variable("p".into()), None)),
        ]),
        value: var(source),
    };
    let mut stmts = vec![pattern("u"), pattern("v"), assign("a", integer(1))];
    insert_declarations(&mut stmts, &vec!["p".to_string()]);
    assert_eq!(
        stmts,
        vec![
            lets("a", Expression::constant(Constant::Undefined), VarKind::Let),
            lets("b", Expression::constant(Constant::Undefined), VarKind::Let),
            pattern("u"),
            pattern("v"),
            assign("a", integer(1)),
        ]
    );
}

#[test]
fn writes_of_nested_functions_are_counted() {
    // The first body captures `x`, the second writes it first, the third owns it.
    let captures =
        vec![assign("x", Expression::binary(BinaryOp::Add, var("x"), integer(1)))];
    let writes = vec![assign("x", integer(1)), assign("y", integer(1))];
    let owns = vec![lets("x", integer(1), VarKind::Let), assign("x", integer(2))];
    let extra = extra_writes_from_nested_bodies(&vec![&captures, &writes, &owns]);
    assert_eq!(extra.get("x"), Some(&3));
    assert_eq!(extra.get("y"), Some(&1));
    assert_eq!(extra.get("z"), None);
}

#[test]
fn a_chain_of_temporaries_is_evaluated_once() {
    let stmts = vec![
        assign("tmp", call("f", vec![])),
        assign("tmp2", call("g", vec![var("tmp")])),
        Statement::Expr(call("use", vec![var("tmp2")])),
    ];
    assert_eq!(
        inline_named_variables(stmts),
        vec![Statement::Expr(call("use", vec![call("g", vec![call("f", vec![])])]))]
    );
}

#[test]
fn a_dead_temporary_takes_what_it_reads_along() {
    let stmts = vec![
        assign("tmp", call("f", vec![])),
        assign("tmp2", call("g", vec![var("tmp")])),
        Statement::Return(None),
    ];
    assert_eq!(
        inline_named_variables(stmts),
        vec![
            Statement::Expr(call("g", vec![call("f", vec![])])),
            Statement::Return(None),
        ]
    );
}

#[test]
fn declaring_twice_is_declaring_once() {
    let mut stmts = vec![
        assign("x", call("f", vec![])),
        assign("x", integer(2)),
        Statement::Expr(call("g", vec![var("captured")])),
        assign("captured", integer(1)),
        Statement::assign_reg(4, integer(1)),
        Statement::While {
            condition: var("c"),
            body: vec![assign("last", call("h", vec![])), assign("c", var("last"))],
        },
        Statement::Assign {
            target: AssignTarget::DestructuringArray(vec![Some((
                AssignTarget::Variable("p".into()),
                None,
            ))]),
            value: var("x"),
        },
        Statement::Return(Some(var("last"))),
    ];
    let params = vec!["c".to_string()];
    insert_declarations(&mut stmts, &params);
    assert_eq!(stmts[0], lets("last", Expression::constant(Constant::Undefined), VarKind::Let));
    assert_eq!(stmts[1], lets("p", Expression::constant(Constant::Undefined), VarKind::Let));
    assert_eq!(stmts[2], lets("x", call("f", vec![]), VarKind::Let));
    assert_eq!(stmts[5], assign("captured", integer(1)));
    assert_eq!(stmts[6], lets("r4", integer(1), VarKind::Const));
    let once = stmts.clone();
    insert_declarations(&mut stmts, &params);
    assert_eq!(stmts, once);
}

#[test]
fn a_write_in_the_update_of_a_for_makes_a_variable_let() {
    let loops = Statement::For {
        init: None,
        condition: Some(var("c")),
        update: Some(Box::new(assign("x", integer(1)))),
        body: vec![Statement::Expr(call("f", vec![var("x")]))],
    };
    let mut stmts = vec![assign("x", integer(0)), loops];
    insert_declarations(&mut stmts, &vec!["c".to_string()]);
    assert_eq!(stmts[0], lets("x", integer(0), VarKind::Let));
}

#[test]
fn a_write_inside_an_expression_makes_a_variable_let() {
    let write = Expression::Assignment { target: Box::new(var("x")), value: Box::new(integer(2)) };
    let mut stmts =
        vec![assign("x", integer(0)), Statement::Expr(call("f", vec![write.clone()]))];
    insert_declarations(&mut stmts, &vec![]);
    assert_eq!(
        stmts,
        vec![
            lets("x", integer(0), VarKind::Let),
            Statement::Expr(call("f", vec![write])),
        ]
    );
}
