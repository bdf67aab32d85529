use pratt_parser::ast::{Expression, Identifier, IntegerLiteral, Node, PrefixExpression, Statement};
use pratt_parser::lexer::Lexer;
use pratt_parser::parser::Parser;
use pratt_parser::Token;
use pratt_parser::TokenType;

#[test]
fn test_let_statements() {
    let input = "
			let x = 5;
			let y = 10;
			let foobar = 838383;
			";

    let lex = Lexer::new(input);
    let mut parse = Parser::new(lex);

    let prog = parse.parse_program();
    check_errors(&parse);

    assert_eq!(
        prog.statements.len(),
        3,
        "Program not three statements long. got={}",
        prog.statements.len()
    );

    let expected = ["x", "y", "foobar"];

    for (stmnt, expected) in prog.statements.iter().zip(expected) {
        test_let_statement(stmnt, expected)
    }
}

#[test]
fn test_return_statements() {
    let input = "
			return 5;
			return 10;
			return 838383;
			";

    let lex = Lexer::new(input);
    let mut parse = Parser::new(lex);

    let prog = parse.parse_program();
    check_errors(&parse);

    assert_eq!(
        prog.statements.len(),
        3,
        "Program not three statements long. got={}",
        prog.statements.len()
    );

    let mut errors = Vec::new();
    for stmnt in prog.statements.iter() {
        match stmnt {
            Statement::Return { .. } => continue,
            _ => errors.push(format!("Did not get Return statement, got={:?}", stmnt)),
        };
    }
    if !errors.is_empty() {
        panic_with_errors(&errors);
    }
}

#[test]
fn test_identifier_expression() {
    let input = "foobar;";

    let lex = Lexer::new(input);
    let mut parse = Parser::new(lex);

    let prog = parse.parse_program();
    check_errors(&parse);

    assert_eq!(
        prog.statements.len(),
        1,
        "Program not one statement long. got={}",
        prog.statements.len()
    );

    let Statement::Expression { ref value, .. } = prog.statements[0] else {
        panic!("Not Expression. got {:?}", prog.statements[0]);
    };

    let Expression::Identifier(Identifier { token }) = value else {
        panic!("Not Identifier. got {:?}", value);
    };

    assert_eq!(token.token_type, TokenType::Identifier);
    assert_eq!(token.literal, Some("foobar".into()));
}

#[test]
fn test_integer_literal() {
    let input = "5;";

    let lex = Lexer::new(input);
    let mut parse = Parser::new(lex);

    let prog = parse.parse_program();
    check_errors(&parse);

    assert_eq!(
        prog.statements.len(),
        1,
        "Program not one statement long. got={}",
        prog.statements.len()
    );

    let Statement::Expression { ref value, .. } = prog.statements[0] else {
        panic!("Not Expression. got {:?}", prog.statements[0]);
    };

    let Expression::IntegerLiteral(IntegerLiteral { token, value }) = value else {
        panic!("Not IntegerLiteral. got {:?}", value);
    };

    assert_eq!(token.token_type, TokenType::Integer);
    assert_eq!(token.literal, Some("5".into()));
    assert_eq!(*value, 5);
}

#[test]
fn test_prefix_expression() {
    let inputs = [("!5;", TokenType::Bang, 5), ("-15;", TokenType::Minus, 15)];

    for (input, token_type, expected) in inputs {
        let lex = Lexer::new(input);
        let mut parse = Parser::new(lex);

        let prog = parse.parse_program();
        check_errors(&parse);

        assert_eq!(
            prog.statements.len(),
            1,
            "Program not one statement long. got={}",
            prog.statements.len()
        );

        let Statement::Expression { ref value, .. } = prog.statements[0] else {
            panic!("Not Expression. got {:?}", prog.statements[0]);
        };

        let Expression::PrefixExpression(PrefixExpression { token, right }) = value else {
            panic!("Not PrefixExpression. got {:?}", value);
        };
        assert_eq!(token.token_type, token_type);

        let Expression::IntegerLiteral(IntegerLiteral {
            ref token,
            ref value,
        }) = **right
        else {
            panic!("Not IntegerLiteral. got {:?}", value);
        };

        assert_eq!(token.token_type, TokenType::Integer);
        assert_eq!(token.literal, Some(expected.to_string()));
        assert_eq!(*value, expected);
    }
}

#[test]
fn whitespace_only_input_yields_empty_program() {
    for input in ["", "   ", " \t\r\n \n\t "] {
        let lex = Lexer::new(input);
        let mut parse = Parser::new(lex);
        let prog = parse.parse_program();
        assert_eq!(prog.statements.len(), 0);
        assert_eq!(parse.errors.len(), 0);
    }
}

#[test]
fn let_value_is_parsed() {
    let lex = Lexer::new("let x = 5;");
    let mut parse = Parser::new(lex);
    let prog = parse.parse_program();
    check_errors(&parse);

    assert_eq!(prog.statements.len(), 1);
    let Statement::Let { token, name, value } = &prog.statements[0] else {
        panic!("Not let statement. Got {:?}", prog.statements[0]);
    };
    assert_eq!(token.token_type, TokenType::Let);
    assert_eq!(name.string(), "x");
    let Some(Expression::IntegerLiteral(IntegerLiteral { value, .. })) = value else {
        panic!("Let value not an integer literal. Got {:?}", value);
    };
    assert_eq!(*value, 5);
}

#[test]
fn two_malformed_lets_record_two_errors() {
    let lex = Lexer::new("let = 5; let = 10;");
    let mut parse = Parser::new(lex);
    let prog = parse.parse_program();

    assert_eq!(parse.errors.len(), 2);
    assert_eq!(prog.statements.len(), 0);
    assert_eq!(parse.errors[0], "expected Identifier, got Assign");
    assert_eq!(parse.errors[1], "expected Identifier, got Assign");
}

#[test]
fn missing_semicolon_after_let_is_an_error() {
    let lex = Lexer::new("let x = 5");
    let mut parse = Parser::new(lex);
    let prog = parse.parse_program();

    assert_eq!(prog.statements.len(), 0);
    assert_eq!(parse.errors.len(), 1);
    assert_eq!(parse.errors[0], "expected Semicolon, got EOF");
}

#[test]
fn no_prefix_rule_is_an_error() {
    let lex = Lexer::new("+;");
    let mut parse = Parser::new(lex);
    let prog = parse.parse_program();

    assert_eq!(prog.statements.len(), 0);
    assert_eq!(parse.errors.len(), 1);
    assert_eq!(parse.errors[0], "no prefix parse function for Plus");
}

#[test]
fn integer_overflow_is_an_error_not_a_panic() {
    let lex = Lexer::new("99999999999999999999;");
    let mut parse = Parser::new(lex);
    let prog = parse.parse_program();

    assert_eq!(prog.statements.len(), 0);
    assert_eq!(parse.errors.len(), 1);
    assert_eq!(parse.errors[0], "invalid integer");
}

#[test]
fn largest_integer_parses_and_one_more_fails() {
    let lex = Lexer::new("9223372036854775807;");
    let mut parse = Parser::new(lex);
    let prog = parse.parse_program();
    check_errors(&parse);
    let Statement::Expression {
        value: Expression::IntegerLiteral(IntegerLiteral { value, .. }),
        ..
    } = &prog.statements[0]
    else {
        panic!("Not IntegerLiteral. got {:?}", prog.statements[0]);
    };
    assert_eq!(*value, i64::MAX);

    let lex = Lexer::new("9223372036854775808;");
    let mut parse = Parser::new(lex);
    let prog = parse.parse_program();
    assert_eq!(prog.statements.len(), 0);
    assert_eq!(parse.errors, vec!["invalid integer".to_string()]);
}

#[test]
fn underscored_or_hex_literals_are_invalid_integers() {
    for input in ["5_0;", "5a;", "1F;"] {
        let lex = Lexer::new(input);
        let mut parse = Parser::new(lex);
        let prog = parse.parse_program();
        assert_eq!(prog.statements.len(), 0, "statements for {:?}", input);
        assert_eq!(parse.errors, vec!["invalid integer".to_string()]);
    }
}

#[test]
fn expression_statement_may_end_at_eof() {
    let lex = Lexer::new("foobar");
    let mut parse = Parser::new(lex);
    let prog = parse.parse_program();
    check_errors(&parse);
    assert_eq!(prog.statements.len(), 1);
    assert!(matches!(
        prog.statements[0],
        Statement::Expression {
            value: Expression::Identifier(_),
            ..
        }
    ));
}

#[test]
fn recovery_resumes_after_statement_boundary() {
    let lex = Lexer::new("let = 5; foobar; let 3 = 4; 7;");
    let mut parse = Parser::new(lex);
    let prog = parse.parse_program();

    assert_eq!(parse.errors.len(), 2);
    assert_eq!(prog.statements.len(), 2);
    assert!(matches!(
        prog.statements[0],
        Statement::Expression {
            value: Expression::Identifier(_),
            ..
        }
    ));
    assert!(matches!(
        prog.statements[1],
        Statement::Expression {
            value: Expression::IntegerLiteral(_),
            ..
        }
    ));
}

#[test]
fn round_trip_of_rendered_program() {
    for input in [
        "let x = 5;",
        "return 42;",
        "foobar",
        "let y = abc;",
        "-15;",
        "!flag;",
    ] {
        let lex = Lexer::new(input);
        let mut parse = Parser::new(lex);
        let prog = parse.parse_program();
        check_errors(&parse);
        let rendered = prog.string();

        if rendered.contains('(') {
            // A rendered prefix expression is parenthesized; the expression
            // grammar has no grouping rule yet, so the text cannot be read
            // back. Its rendering is still pinned down exactly.
            continue;
        }

        let lex2 = Lexer::new(rendered.as_str());
        let mut parse2 = Parser::new(lex2);
        let prog2 = parse2.parse_program();
        check_errors(&parse2);

        assert_eq!(prog2.string(), rendered);
        assert_eq!(prog.statements.len(), prog2.statements.len());
        for (a, b) in prog.statements.iter().zip(prog2.statements.iter()) {
            assert_eq!(a.token(), b.token());
            assert_eq!(a.string(), b.string());
        }
    }
}

#[test]
fn prefix_expression_renders_parenthesized() {
    let lex = Lexer::new("!5;");
    let mut parse = Parser::new(lex);
    let prog = parse.parse_program();
    check_errors(&parse);
    assert_eq!(prog.string(), "(!5)");

    let lex = Lexer::new("-  15 ;");
    let mut parse = Parser::new(lex);
    let prog = parse.parse_program();
    check_errors(&parse);
    assert_eq!(prog.string(), "(-15)");
}


#[test]
fn unicode_identifier_parses_in_let() {
    let lex = Lexer::new("let \u{3b1} = 1;");
    let mut parse = Parser::new(lex);
    let prog = parse.parse_program();
    check_errors(&parse);
    assert_eq!(prog.statements.len(), 1);
    let Statement::Let { name, .. } = &prog.statements[0] else {
        panic!("Not let statement. Got {:?}", prog.statements[0]);
    };
    assert_eq!(name.string(), "\u{3b1}");
}

#[test]
fn return_statement_renders_canonically() {
    let lex = Lexer::new("return   42 ;");
    let mut parse = Parser::new(lex);
    let prog = parse.parse_program();
    check_errors(&parse);
    assert_eq!(prog.string(), "return 42;");

    let lex = Lexer::new("let x=5;");
    let mut parse = Parser::new(lex);
    let prog = parse.parse_program();
    check_errors(&parse);
    assert_eq!(prog.string(), "let x = 5;");
}

fn test_let_statement(stmnt: &Statement, expected: &str) {
    let Statement::Let {
        token,
        name,
        value: _,
    } = stmnt
    else {
        panic!("Not let statement. Got {:?}", stmnt);
    };

    assert_eq!(
        token.token_type,
        TokenType::Let,
        "Not let token. Got {:?}",
        token
    );
    assert_eq!(
        name.string(),
        expected,
        "Not correct name. Got {} instead of {}",
        name.string(),
        expected
    );
    assert_eq!(
        name.token(),
        Some(&Token::new_ident(expected.into())),
        "Not correct token. Got {:?}",
        name.token()
    );
}

fn check_errors(p: &Parser) {
    if p.errors.is_empty() {
        return;
    };

    panic_with_errors(&p.errors);
}

fn panic_with_errors(e: &[String]) {
    let mut errors = String::from("Parsing failed with errors: \n");
    for error in e {
        errors.push_str(&format!(". {}", error))
    }
    panic!("{}", errors);
}
