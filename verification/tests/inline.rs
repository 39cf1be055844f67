use hbc_transforms::inline::expressions::inline_expressions;
use hbc_transforms::ir::{Constant, Expression, PropertyKey, Statement, Value};

#[test]
fn test_inline_simple() {
    let stmts = vec![
        Statement::assign_reg(
            0,
            Expression::constant(Constant::String("test".to_string())),
        ),
        Statement::assign_reg(
            1,
            Expression::Member {
                object: Box::new(Expression::Value(Value::Register(0))),
                property: PropertyKey::Ident("length".to_string()),
                optional: false,
            },
        ),
    ];

    let result = inline_expressions(stmts);

    // r0 should be inlined into r1's expression
    assert!(result.len() <= 2);
}
