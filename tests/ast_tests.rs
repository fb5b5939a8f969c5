use monkey::ast::{Expression, Precedence, Program, Statement};

#[test]
fn test_string() {
    let program = Program {
        statements: vec![Statement::LET {
            name: Expression::Identifier("myVar".to_string()),
            value: Expression::Identifier("anotherVar".to_string()),
        }],
    };
    assert_eq!("let myVar = anotherVar;\n", program.to_string())
}

#[test]
fn statements_render_one_per_line() {
    let program = Program {
        statements: vec![
            Statement::RETURN(Expression::Identifier("x".to_string())),
            Statement::EXPRESSION(Expression::Identifier("y".to_string())),
        ],
    };
    assert_eq!(program.to_string(), "return x\ny\n");
    assert_eq!(Program { statements: vec![] }.to_string(), "");
}

#[test]
fn precedence_ladder_order() {
    assert!(Precedence::LOWEST < Precedence::EQUALS);
    assert!(Precedence::EQUALS < Precedence::LESSGREATER);
    assert!(Precedence::LESSGREATER < Precedence::SUM);
    assert!(Precedence::SUM < Precedence::PRODUCT);
    assert!(Precedence::PRODUCT < Precedence::PREFIX);
    assert!(Precedence::PREFIX < Precedence::CALL);
    assert!(Precedence::CALL < Precedence::INDEX);
}
