use pratt_parser::ast::{Identifier, Node, Program, Statement};
use pratt_parser::Token;
use pratt_parser::TokenType;

#[test]
fn test_string() {
    let prog = Program {
        statements: vec![Statement::Let {
            token: Token::new(TokenType::Let),
            name: Identifier {
                token: Token::new_ident("myVar".into()),
            },
            value: Some(
                Identifier {
                    token: Token::new_ident("anotherVar".into()),
                }
                .into(),
            ),
        }],
    };

    assert_eq!(prog.string(), String::from("let myVar = anotherVar;"));
}

#[test]
fn empty_program_has_no_token_and_empty_string() {
    let prog = Program::new();
    assert_eq!(prog.token(), None);
    assert_eq!(prog.string(), "");
}

#[test]
fn program_token_is_first_statement_token() {
    let prog = Program {
        statements: vec![Statement::Return {
            token: Token::new(TokenType::Return),
            value: None,
        }],
    };
    assert_eq!(prog.token(), Some(&Token::new(TokenType::Return)));
    assert_eq!(prog.string(), "return ;");
}
