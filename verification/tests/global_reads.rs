use hbc_transforms::ir::cfg::{BlockId, CFGBuilder, Terminator};
use hbc_transforms::ir::{Constant, Expression, PropertyKey, Statement, Value};
use hbc_transforms::propagate::reaching_passes::{propagate_copies, resolve_global_reads};
use hbc_transforms::propagate::{propagate, PropagationConfig};

fn global() -> Expression {
    Expression::Value(Value::Global)
}

fn text(s: &str) -> Expression {
    Expression::constant(Constant::String(s.into()))
}

fn print_of(object: Expression) -> Expression {
    Expression::Member {
        object: Box::new(object),
        property: PropertyKey::Ident("print".into()),
        optional: false,
    }
}

// b0: r0 = globalThis; r1 = r0.print; branch -> b1, b2
// b1: r0 = "pos" -> b2
// b2: return r0
#[test]
fn reads_that_only_the_global_object_reaches_are_resolved() {
    let mut builder = CFGBuilder::new();
    let b1 = builder.create_block();
    let b2 = builder.create_block();
    builder.emit(Statement::assign_reg(0, global()));
    builder.emit(Statement::assign_reg(1, print_of(Expression::register(0))));
    builder.terminate(Terminator::Branch {
        condition: Expression::register(1),
        true_target: b1,
        false_target: b2,
    });
    builder.set_current_block(b1);
    builder.emit(Statement::assign_reg(2, print_of(Expression::register(0))));
    builder.emit(Statement::assign_reg(0, text("pos")));
    builder.emit(Statement::assign_reg(3, Expression::register(0)));
    builder.emit_jump(b2);
    builder.set_current_block(b2);
    builder.emit_return(Some(Expression::register(0)));
    let mut cfg = builder.finish();
    resolve_global_reads(&mut cfg);

    let entry = cfg.entry_block();
    assert_eq!(entry.statements[1], Statement::assign_reg(1, print_of(global())));
    let block = cfg.get(b1).unwrap();
    assert_eq!(
        block.statements,
        vec![
            Statement::assign_reg(2, print_of(global())),
            Statement::assign_reg(0, text("pos")),
            Statement::assign_reg(3, Expression::register(0)),
        ]
    );
    // Both assignments reach the last block, so its read stays.
    match &cfg.get(b2).unwrap().terminator {
        Terminator::Return(Some(e)) => assert_eq!(*e, Expression::register(0)),
        _ => panic!("a return"),
    }
}

#[test]
fn copies_without_chains_settle_in_one_pass() {
    let mut builder = CFGBuilder::new();
    let b1 = builder.create_block();
    builder.emit(Statement::assign_reg(5, text("a")));
    builder.emit(Statement::assign_reg(0, Expression::register(5)));
    builder.emit_jump(b1);
    builder.set_current_block(b1);
    builder.emit(Statement::assign_reg(6, print_of(Expression::register(0))));
    builder.emit_return(Some(Expression::register(6)));
    let mut cfg = builder.finish();
    propagate_copies(&mut cfg);
    let once = cfg.get(b1).unwrap().statements.clone();
    assert_eq!(once, vec![Statement::assign_reg(6, print_of(Expression::register(5)))]);
    propagate_copies(&mut cfg);
    assert_eq!(cfg.get(b1).unwrap().statements, once);
}

#[test]
fn a_chain_of_copies_takes_one_pass() {
    let mut builder = CFGBuilder::new();
    builder.emit(Statement::assign_reg(0, Expression::Value(Value::This)));
    builder.emit(Statement::assign_reg(1, Expression::register(0)));
    builder.emit(Statement::assign_reg(2, Expression::register(1)));
    builder.emit_return(Some(Expression::register(2)));
    let mut cfg = builder.finish();
    for _ in 0..2 {
        propagate_copies(&mut cfg);
        assert_eq!(
            cfg.entry_block().statements,
            vec![
                Statement::assign_reg(0, Expression::Value(Value::This)),
                Statement::assign_reg(1, Expression::register(0)),
                Statement::assign_reg(2, Expression::register(0)),
            ]
        );
        match &cfg.entry_block().terminator {
            Terminator::Return(Some(e)) => assert_eq!(*e, Expression::register(0)),
            _ => panic!("a return"),
        }
    }
}

#[test]
fn copies_in_a_circle_stay() {
    let mut builder = CFGBuilder::new();
    builder.emit(Statement::assign_reg(1, Expression::register(2)));
    builder.emit(Statement::assign_reg(2, Expression::register(1)));
    builder.emit_jump(BlockId(0));
    let mut cfg = builder.finish();
    let before = cfg.entry_block().statements.clone();
    propagate_copies(&mut cfg);
    assert_eq!(cfg.entry_block().statements, before);
}

#[test]
fn a_chain_ends_where_its_source_was_written_again() {
    let mut builder = CFGBuilder::new();
    builder.emit(Statement::assign_reg(0, text("x")));
    builder.emit(Statement::assign_reg(1, Expression::register(0)));
    builder.emit(Statement::assign_reg(0, text("y")));
    builder.emit(Statement::assign_reg(2, Expression::register(1)));
    builder.emit_return(Some(Expression::register(2)));
    let mut cfg = builder.finish();
    propagate_copies(&mut cfg);
    match &cfg.entry_block().terminator {
        Terminator::Return(Some(e)) => assert_eq!(*e, Expression::register(1)),
        _ => panic!("a return"),
    }
}

#[test]
fn a_default_configuration_leaves_the_number_of_rounds_open() {
    assert_eq!(PropagationConfig::default().max_iterations, 0);
}

#[test]
fn more_rounds_change_nothing_once_settled() {
    let build = || {
        let mut builder = CFGBuilder::new();
        builder.emit(Statement::assign_reg(0, Expression::Value(Value::Parameter(1))));
        builder.emit(Statement::assign_reg(1, Expression::register(0)));
        builder.emit(Statement::assign_reg(0, text("x")));
        builder.emit_return(Some(Expression::register(1)));
        builder.finish()
    };
    let mut a = build();
    let mut b = build();
    propagate(&mut a, &PropagationConfig { max_iterations: 3 });
    propagate(&mut b, &PropagationConfig { max_iterations: 30 });
    assert_eq!(a.entry_block().statements, b.entry_block().statements);
    // The copy holds the value from before its source was written again.
    match &a.entry_block().terminator {
        Terminator::Return(Some(e)) => assert_eq!(*e, Expression::Value(Value::Parameter(1))),
        _ => panic!("a return"),
    }
}

#[test]
fn a_computed_key_that_becomes_a_number_is_an_index() {
    let mut builder = CFGBuilder::new();
    builder.emit(Statement::assign_reg(0, Expression::constant(Constant::Integer(3))));
    builder.emit_return(Some(Expression::Member {
        object: Box::new(Expression::Value(Value::Parameter(0))),
        property: PropertyKey::Computed(Box::new(Expression::register(0))),
        optional: false,
    }));
    let mut cfg = builder.finish();
    propagate(&mut cfg, &PropagationConfig::new());
    match &cfg.entry_block().terminator {
        Terminator::Return(Some(Expression::Member { property, .. })) => {
            assert_eq!(*property, PropertyKey::Index(3))
        }
        _ => panic!("a member"),
    }
}

#[test]
fn a_caught_exception_stays_with_its_register() {
    let mut builder = CFGBuilder::new();
    let caught = Expression::Value(Value::Variable("__exception".into()));
    builder.emit(Statement::assign_reg(0, caught));
    builder.emit_return(Some(Expression::register(0)));
    let mut cfg = builder.finish();
    propagate(&mut cfg, &PropagationConfig::new());
    match &cfg.entry_block().terminator {
        Terminator::Return(Some(e)) => assert_eq!(*e, Expression::register(0)),
        _ => panic!("a return"),
    }
}
