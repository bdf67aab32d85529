use pratt_parser::lexer::Lexer;
use pratt_parser::Token;
use pratt_parser::TokenType as T;

#[test]
fn symbols() {
    let input = "=+(){},;";

    let mut lex = Lexer::new(input);

    let expected = [
        T::Assign,
        T::Plus,
        T::LParen,
        T::RParen,
        T::LBrace,
        T::RBrace,
        T::Comma,
        T::Semicolon,
        T::EOF,
    ];

    for token in expected {
        assert_eq!(token, lex.next_token().token_type);
    }
}

#[test]
fn basic_example() {
    let input = "let five = 5;
			let ten = 10;
			let add = fn(x, y) {
			x + y;
			};
			let result = add(five, ten);
		";

    let mut lex = Lexer::new(input);

    let expected = [
        Token::new(T::Let),
        Token::new_ident("five".into()),
        Token::new(T::Assign),
        Token::new_integer("5".into()),
        Token::new(T::Semicolon),
        Token::new(T::Let),
        Token::new_ident("ten".into()),
        Token::new(T::Assign),
        Token::new_integer("10".into()),
        Token::new(T::Semicolon),
        Token::new(T::Let),
        Token::new_ident("add".into()),
        Token::new(T::Assign),
        Token::new(T::Function),
        Token::new(T::LParen),
        Token::new_ident("x".into()),
        Token::new(T::Comma),
        Token::new_ident("y".into()),
        Token::new(T::RParen),
        Token::new(T::LBrace),
        Token::new_ident("x".into()),
        Token::new(T::Plus),
        Token::new_ident("y".into()),
        Token::new(T::Semicolon),
        Token::new(T::RBrace),
        Token::new(T::Semicolon),
        Token::new(T::Let),
        Token::new_ident("result".into()),
        Token::new(T::Assign),
        Token::new_ident("add".into()),
        Token::new(T::LParen),
        Token::new_ident("five".into()),
        Token::new(T::Comma),
        Token::new_ident("ten".into()),
        Token::new(T::RParen),
        Token::new(T::Semicolon),
        Token::new(T::EOF),
    ];

    for token in expected {
        assert_eq!(token, lex.next_token());
    }
}

#[test]
fn basic_example_2() {
    let input = "let five = 5;
			let ten = 10;
			let add = fn(x, y) {
			x + y;
			};
			let result = add(five, ten);
			!-/*5;
			5 < 10 > 5;
			if (5 < 10) {
			return true;
			} else {
			return false;
			}
			10 == 10;
			10 != 9;
			<=
			>=
		";

    let mut lex = Lexer::new(input);

    let expected = [
        Token::new(T::Let),
        Token::new_ident("five".into()),
        Token::new(T::Assign),
        Token::new_integer("5".into()),
        Token::new(T::Semicolon),
        Token::new(T::Let),
        Token::new_ident("ten".into()),
        Token::new(T::Assign),
        Token::new_integer("10".into()),
        Token::new(T::Semicolon),
        Token::new(T::Let),
        Token::new_ident("add".into()),
        Token::new(T::Assign),
        Token::new(T::Function),
        Token::new(T::LParen),
        Token::new_ident("x".into()),
        Token::new(T::Comma),
        Token::new_ident("y".into()),
        Token::new(T::RParen),
        Token::new(T::LBrace),
        Token::new_ident("x".into()),
        Token::new(T::Plus),
        Token::new_ident("y".into()),
        Token::new(T::Semicolon),
        Token::new(T::RBrace),
        Token::new(T::Semicolon),
        Token::new(T::Let),
        Token::new_ident("result".into()),
        Token::new(T::Assign),
        Token::new_ident("add".into()),
        Token::new(T::LParen),
        Token::new_ident("five".into()),
        Token::new(T::Comma),
        Token::new_ident("ten".into()),
        Token::new(T::RParen),
        Token::new(T::Semicolon),
        Token::new(T::Bang),
        Token::new(T::Minus),
        Token::new(T::ForwardSlash),
        Token::new(T::Asterisk),
        Token::new_integer("5".into()),
        Token::new(T::Semicolon),
        Token::new_integer("5".into()),
        Token::new(T::LessThan),
        Token::new_integer("10".into()),
        Token::new(T::GreaterThan),
        Token::new_integer("5".into()),
        Token::new(T::Semicolon),
        Token::new(T::If),
        Token::new(T::LParen),
        Token::new_integer("5".into()),
        Token::new(T::LessThan),
        Token::new_integer("10".into()),
        Token::new(T::RParen),
        Token::new(T::LBrace),
        Token::new(T::Return),
        Token::new(T::True),
        Token::new(T::Semicolon),
        Token::new(T::RBrace),
        Token::new(T::Else),
        Token::new(T::LBrace),
        Token::new(T::Return),
        Token::new(T::False),
        Token::new(T::Semicolon),
        Token::new(T::RBrace),
        Token::new_integer("10".into()),
        Token::new(T::Equal),
        Token::new_integer("10".into()),
        Token::new(T::Semicolon),
        Token::new_integer("10".into()),
        Token::new(T::NotEqual),
        Token::new_integer("9".into()),
        Token::new(T::Semicolon),
        Token::new(T::LessThanOrEqual),
        Token::new(T::GreaterThanOrEqual),
        Token::new(T::EOF),
    ];

    for token in expected {
        assert_eq!(token, lex.next_token());
    }
}

#[test]
fn combined_operators_are_single_tokens() {
    for (input, kind) in [
        ("==", T::Equal),
        ("!=", T::NotEqual),
        ("<=", T::LessThanOrEqual),
        (">=", T::GreaterThanOrEqual),
    ] {
        let mut lex = Lexer::new(input);
        assert_eq!(lex.next_token(), Token::new(kind));
        assert_eq!(lex.next_token(), Token::new(T::EOF));
    }
}

#[test]
fn eof_is_permanent() {
    let mut lex = Lexer::new("x");
    assert_eq!(lex.next_token(), Token::new_ident("x".into()));
    for _ in 0..5 {
        assert_eq!(lex.next_token().token_type, T::EOF);
    }

    let mut empty = Lexer::new("");
    for _ in 0..3 {
        assert_eq!(empty.next_token().token_type, T::EOF);
    }
}

#[test]
fn unknown_character_is_illegal_token() {
    let mut lex = Lexer::new("@ #");
    assert_eq!(lex.next_token().token_type, T::Illegal);
    assert_eq!(lex.next_token().token_type, T::Illegal);
    assert_eq!(lex.next_token().token_type, T::EOF);
}

#[test]
fn identifier_may_start_with_underscore() {
    let mut lex = Lexer::new("_foo_9");
    assert_eq!(lex.next_token(), Token::new_ident("_foo_9".into()));
    assert_eq!(lex.next_token().token_type, T::EOF);
}

#[test]
fn identifier_ending_at_end_of_input() {
    let mut lex = Lexer::new("foobar");
    assert_eq!(lex.next_token(), Token::new_ident("foobar".into()));
    assert_eq!(lex.next_token().token_type, T::EOF);
}

#[test]
fn unicode_letters_form_identifiers() {
    let mut lex = Lexer::new("\u{3b1}b1;");
    assert_eq!(lex.next_token(), Token::new_ident("\u{3b1}b1".into()));
    assert_eq!(lex.next_token().token_type, T::Semicolon);
    assert_eq!(lex.next_token().token_type, T::EOF);
}

#[test]
fn number_scan_is_permissive() {
    let mut lex = Lexer::new("5a_3f");
    assert_eq!(lex.next_token(), Token::new_integer("5a_3f".into()));
    assert_eq!(lex.next_token().token_type, T::EOF);
}

#[test]
fn whitespace_only_input_scans_to_eof() {
    let mut lex = Lexer::new(" \t\r\n  ");
    assert_eq!(lex.next_token(), Token::new(T::EOF));
}

#[test]
fn token_text_renders_spelling_or_literal() {
    assert_eq!(Token::new(T::Equal).text(), "==");
    assert_eq!(Token::new(T::Semicolon).text(), ";");
    assert_eq!(Token::new(T::Function).text(), "fn");
    assert_eq!(Token::new_ident("abc".into()).text(), "abc");
    assert_eq!(Token::new_integer("42".into()).text(), "42");
    assert_eq!(Token::new(T::EOF).text(), "");
}
