use monkey::ast::{Expression, Program, Statement};
use monkey::lexer::Lexer;
use monkey::parser::Parser;
use monkey::token::TokenType;

fn check_parser_errors(parser: &Parser) {
    let errors = &parser.errors;
    if errors.is_empty() {
        return;
    }
    println!("parser has {} errors", errors.len());
    for error in &parser.errors {
        println!("{}", error)
    }
    panic!()
}

fn test_let_statement(statement: &Statement, expected_identifier: &str) {
    match statement {
        Statement::LET { name, .. } => match name {
            Expression::Identifier(identifier_name) => {
                assert_eq!(
                    identifier_name, expected_identifier,
                    "check let statement name"
                );
            }
        },
        x => {
            panic!("statement is not Statement::Let. got={:?}", x);
        }
    };
}

fn parse(input: &str) -> (Program, Vec<String>) {
    let lexer = Lexer::new(String::from(input));
    let mut parser = Parser::new(lexer);
    let program = parser.parse_program().unwrap();
    (program, parser.errors)
}

#[test]
fn test_let_statements() {
    let input = r#"
        let x = 5;
        let y = 10;
        let foobar = 838383;
        "#;

    let lexer = Lexer::new(String::from(input));
    let mut parser = Parser::new(lexer);
    let program = parser.parse_program().unwrap();
    check_parser_errors(&parser);
    assert_eq!(
        program.statements.len(),
        3,
        "program.statements does not contain 3 statements"
    );
    let tests = vec!["x", "y", "foobar"];
    for (i, expected_identifier) in tests.iter().enumerate() {
        let statement = &program.statements[i];
        test_let_statement(statement, &expected_identifier);
    }
}

#[test]
fn test_return_statements() {
    let input = r#"
        return 5;
        return 10;
        return 993322;
        "#;

    let lexer = Lexer::new(String::from(input));
    let mut parser = Parser::new(lexer);
    let program = parser.parse_program().unwrap();

    check_parser_errors(&parser);

    assert_eq!(
        program.statements.len(),
        3,
        "program.statements does not contain 3 statements."
    );

    for statement in program.statements {
        match statement {
            Statement::RETURN(_x) => {}
            _ => panic!("statement is not Statement::RETURN"),
        }
    }
}

#[test]
fn test_identifier_expression() {
    let input = r#"
        foobar;
        "#;

    let lexer = Lexer::new(String::from(input));
    let mut parser = Parser::new(lexer);
    let program = parser.parse_program().unwrap();

    check_parser_errors(&parser);
    assert_eq!(
        program.statements.len(),
        1,
        "program.statements does not contain 3 statements."
    );
    match &program.statements[0] {
        Statement::EXPRESSION(x) => match x {
            Expression::Identifier(s) => {
                assert_eq!(s, "foobar");
            }
        },
        _ => panic!("statement is not Statement::EXPRESSION"),
    }
}

#[test]
fn let_statements_render_with_empty_values() {
    let (program, errors) = parse("let x = 5; let y = 10; let foobar = 838383;");
    assert!(errors.is_empty());
    assert_eq!(program.to_string(), "let x = ;\nlet y = ;\nlet foobar = ;\n");
}

#[test]
fn return_statement_holds_current_token() {
    let (program, errors) = parse("return 5;");
    assert!(errors.is_empty());
    assert_eq!(program.statements.len(), 1);
    match &program.statements[0] {
        Statement::RETURN(Expression::Identifier(s)) => assert_eq!(s, "return"),
        _ => panic!("statement is not Statement::RETURN"),
    }
}

#[test]
fn expression_statement_without_semicolon() {
    let (program, errors) = parse("foo bar");
    assert!(errors.is_empty());
    assert_eq!(program.to_string(), "foo\nbar\n");
}

#[test]
fn missing_let_identifier_is_reported() {
    let (program, errors) = parse("let = 5;");
    assert!(!errors.is_empty());
    assert_eq!(errors[0], "expected next token to be IDENT, got ASSIGN instead");
    assert!(!program
        .statements
        .iter()
        .any(|s| matches!(s, Statement::LET { .. })));
}

#[test]
fn missing_assign_is_reported_and_parsing_goes_on() {
    let (program, errors) = parse("let x 5; y;");
    assert_eq!(errors, vec!["expected next token to be ASSIGN, got INT instead".to_string()]);
    assert_eq!(program.statements.len(), 1);
    match &program.statements[0] {
        Statement::EXPRESSION(Expression::Identifier(s)) => assert_eq!(s, "y"),
        _ => panic!("statement is not Statement::EXPRESSION"),
    }
}

#[test]
fn parsing_is_deterministic() {
    let input = "let = 1; let a = b; return c; d; let e 2;";
    let (first, first_errors) = parse(input);
    let (second, second_errors) = parse(input);
    assert_eq!(first.to_string(), second.to_string());
    assert_eq!(first_errors, second_errors);
    assert_eq!(first_errors.len(), 2);
}

#[test]
fn empty_input_gives_empty_program() {
    let (program, errors) = parse("   ");
    assert!(program.statements.is_empty());
    assert!(errors.is_empty());
}

#[test]
fn expect_peek_moves_only_on_match() {
    let mut parser = Parser::new(Lexer::new("let x 5".to_string()));
    assert!(parser.expect_peek(TokenType::IDENT));
    assert!(parser.errors.is_empty());
    assert!(!parser.expect_peek(TokenType::ASSIGN));
    assert_eq!(parser.errors, vec!["expected next token to be ASSIGN, got INT instead".to_string()]);
    assert!(parser.expect_peek(TokenType::INT));
    assert_eq!(parser.errors.len(), 1);
}
