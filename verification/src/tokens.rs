//! The token model: the closed set of lexical categories and the runtime
//! representation of one scanned unit (a kind plus an optional literal).

use vstd::prelude::*;

verus! {

/// The closed set of lexical categories the scanner can produce.
#[derive(Debug, Clone, Copy, PartialEq, Eq, Hash, Structural)]
pub enum TokenType {
    Illegal,
    EOF,

    // Identifiers & literals
    Identifier,
    Integer,

    // Operators
    Assign,
    Equal,
    Plus,
    Minus,
    Asterisk,
    ForwardSlash,
    Dot,
    Bang,
    NotEqual,
    LessThan,
    LessThanOrEqual,
    GreaterThan,
    GreaterThanOrEqual,

    // Delimiters
    Comma,
    Semicolon,

    LParen,
    RParen,
    LBrace,
    RBrace,

    // Keywords
    Function,
    Let,
    True,
    False,
    If,
    Else,
    Return,
}

/// The source spelling of a token kind whose text is derivable from the kind
/// alone; kinds that carry a literal (and `Illegal`/`EOF`) spell as nothing.
pub open spec fn spelling_of(k: TokenType) -> Seq<char> {
    match k {
        TokenType::Assign => "="@,
        TokenType::Equal => "=="@,
        TokenType::Plus => "+"@,
        TokenType::Minus => "-"@,
        TokenType::Asterisk => "*"@,
        TokenType::ForwardSlash => "/"@,
        TokenType::Dot => "."@,
        TokenType::Bang => "!"@,
        TokenType::NotEqual => "!="@,
        TokenType::LessThan => "<"@,
        TokenType::LessThanOrEqual => "<="@,
        TokenType::GreaterThan => ">"@,
        TokenType::GreaterThanOrEqual => ">="@,
        TokenType::Comma => ","@,
        TokenType::Semicolon => ";"@,
        TokenType::LParen => "("@,
        TokenType::RParen => ")"@,
        TokenType::LBrace => "{"@,
        TokenType::RBrace => "}"@,
        TokenType::Function => "fn"@,
        TokenType::Let => "let"@,
        TokenType::True => "true"@,
        TokenType::False => "false"@,
        TokenType::If => "if"@,
        TokenType::Else => "else"@,
        TokenType::Return => "return"@,
        _ => ""@,
    }
}

/// The name of a token kind, used in diagnostic messages.
pub open spec fn name_of(k: TokenType) -> Seq<char> {
    match k {
        TokenType::Illegal => "Illegal"@,
        TokenType::EOF => "EOF"@,
        TokenType::Identifier => "Identifier"@,
        TokenType::Integer => "Integer"@,
        TokenType::Assign => "Assign"@,
        TokenType::Equal => "Equal"@,
        TokenType::Plus => "Plus"@,
        TokenType::Minus => "Minus"@,
        TokenType::Asterisk => "Asterisk"@,
        TokenType::ForwardSlash => "ForwardSlash"@,
        TokenType::Dot => "Dot"@,
        TokenType::Bang => "Bang"@,
        TokenType::NotEqual => "NotEqual"@,
        TokenType::LessThan => "LessThan"@,
        TokenType::LessThanOrEqual => "LessThanOrEqual"@,
        TokenType::GreaterThan => "GreaterThan"@,
        TokenType::GreaterThanOrEqual => "GreaterThanOrEqual"@,
        TokenType::Comma => "Comma"@,
        TokenType::Semicolon => "Semicolon"@,
        TokenType::LParen => "LParen"@,
        TokenType::RParen => "RParen"@,
        TokenType::LBrace => "LBrace"@,
        TokenType::RBrace => "RBrace"@,
        TokenType::Function => "Function"@,
        TokenType::Let => "Let"@,
        TokenType::True => "True"@,
        TokenType::False => "False"@,
        TokenType::If => "If"@,
        TokenType::Else => "Else"@,
        TokenType::Return => "Return"@,
    }
}

impl TokenType {
    /// The executable rendering of this kind's source spelling.
    pub fn spelling(&self) -> (s: String)
        ensures
            s@ == spelling_of(*self),
    {
        match self {
            TokenType::Assign => String::from_str("="),
            TokenType::Equal => String::from_str("=="),
            TokenType::Plus => String::from_str("+"),
            TokenType::Minus => String::from_str("-"),
            TokenType::Asterisk => String::from_str("*"),
            TokenType::ForwardSlash => String::from_str("/"),
            TokenType::Dot => String::from_str("."),
            TokenType::Bang => String::from_str("!"),
            TokenType::NotEqual => String::from_str("!="),
            TokenType::LessThan => String::from_str("<"),
            TokenType::LessThanOrEqual => String::from_str("<="),
            TokenType::GreaterThan => String::from_str(">"),
            TokenType::GreaterThanOrEqual => String::from_str(">="),
            TokenType::Comma => String::from_str(","),
            TokenType::Semicolon => String::from_str(";"),
            TokenType::LParen => String::from_str("("),
            TokenType::RParen => String::from_str(")"),
            TokenType::LBrace => String::from_str("{"),
            TokenType::RBrace => String::from_str("}"),
            TokenType::Function => String::from_str("fn"),
            TokenType::Let => String::from_str("let"),
            TokenType::True => String::from_str("true"),
            TokenType::False => String::from_str("false"),
            TokenType::If => String::from_str("if"),
            TokenType::Else => String::from_str("else"),
            TokenType::Return => String::from_str("return"),
            _ => String::from_str(""),
        }
    }

    /// The executable rendering of this kind's name, for diagnostics.
    pub fn kind_name(&self) -> (s: String)
        ensures
            s@ == name_of(*self),
    {
        match self {
            TokenType::Illegal => String::from_str("Illegal"),
            TokenType::EOF => String::from_str("EOF"),
            TokenType::Identifier => String::from_str("Identifier"),
            TokenType::Integer => String::from_str("Integer"),
            TokenType::Assign => String::from_str("Assign"),
            TokenType::Equal => String::from_str("Equal"),
            TokenType::Plus => String::from_str("Plus"),
            TokenType::Minus => String::from_str("Minus"),
            TokenType::Asterisk => String::from_str("Asterisk"),
            TokenType::ForwardSlash => String::from_str("ForwardSlash"),
            TokenType::Dot => String::from_str("Dot"),
            TokenType::Bang => String::from_str("Bang"),
            TokenType::NotEqual => String::from_str("NotEqual"),
            TokenType::LessThan => String::from_str("LessThan"),
            TokenType::LessThanOrEqual => String::from_str("LessThanOrEqual"),
            TokenType::GreaterThan => String::from_str("GreaterThan"),
            TokenType::GreaterThanOrEqual => String::from_str("GreaterThanOrEqual"),
            TokenType::Comma => String::from_str("Comma"),
            TokenType::Semicolon => String::from_str("Semicolon"),
            TokenType::LParen => String::from_str("LParen"),
            TokenType::RParen => String::from_str("RParen"),
            TokenType::LBrace => String::from_str("LBrace"),
            TokenType::RBrace => String::from_str("RBrace"),
            TokenType::Function => String::from_str("Function"),
            TokenType::Let => String::from_str("Let"),
            TokenType::True => String::from_str("True"),
            TokenType::False => String::from_str("False"),
            TokenType::If => String::from_str("If"),
            TokenType::Else => String::from_str("Else"),
            TokenType::Return => String::from_str("Return"),
        }
    }
}

/// One scanned unit: a kind plus a literal payload that is present exactly
/// for identifiers and integer literals.
#[derive(Debug)]
pub struct Token {
    pub token_type: TokenType,
    pub literal: Option<String>,
}

impl Token {
    /// The token invariant: only identifiers and integer literals carry text.
    pub open spec fn wf(self) -> bool {
        match self.token_type {
            TokenType::Identifier | TokenType::Integer => self.literal is Some,
            _ => self.literal is None,
        }
    }

    /// The literal payload, seen as a character sequence.
    pub open spec fn lit_view(self) -> Option<Seq<char>> {
        match self.literal {
            Some(s) => Some(s@),
            None => None,
        }
    }

    /// The printable text of the token: its literal if it has one, else the
    /// spelling of its kind.
    pub open spec fn text_spec(self) -> Seq<char> {
        match self.token_type {
            TokenType::Identifier | TokenType::Integer => match self.literal {
                Some(s) => s@,
                None => ""@,
            },
            _ => spelling_of(self.token_type),
        }
    }

    pub fn new(token: TokenType) -> (t: Token)
        ensures
            t.token_type == token,
            t.literal is None,
    {
        Token { token_type: token, literal: None }
    }

    pub fn new_ident(value: String) -> (t: Token)
        ensures
            t.token_type == TokenType::Identifier,
            t.literal == Some(value),
    {
        Token { token_type: TokenType::Identifier, literal: Some(value) }
    }

    pub fn new_integer(value: String) -> (t: Token)
        ensures
            t.token_type == TokenType::Integer,
            t.literal == Some(value),
    {
        Token { token_type: TokenType::Integer, literal: Some(value) }
    }

    /// A fresh end-of-input token.
    pub fn eof() -> (t: Token)
        ensures
            t.token_type == TokenType::EOF,
            t.literal is None,
    {
        Token { token_type: TokenType::EOF, literal: None }
    }

    /// An explicit copy; the parser hands tokens into the tree while keeping
    /// its own cursor.
    pub fn duplicate(&self) -> (t: Token)
        ensures
            t == *self,
    {
        let literal = match &self.literal {
            Some(s) => Some(s.clone()),
            None => None,
        };
        Token { token_type: self.token_type, literal }
    }

    /// The executable rendering of the token's printable text.
    pub fn text(&self) -> (s: String)
        ensures
            s@ == self.text_spec(),
    {
        match self.token_type {
            TokenType::Identifier | TokenType::Integer => match &self.literal {
                Some(s) => s.clone(),
                None => String::from_str(""),
            },
            _ => self.token_type.spelling(),
        }
    }
}

impl PartialEq for Token {
    fn eq(&self, other: &Token) -> (r: bool) {
        let kinds_equal = self.token_type == other.token_type;
        let literals_equal = match (&self.literal, &other.literal) {
            (Some(a), Some(b)) => *a == *b,
            (None, None) => true,
            _ => false,
        };
        kinds_equal && literals_equal
    }
}

impl vstd::std_specs::cmp::PartialEqSpecImpl for Token {
    open spec fn obeys_eq_spec() -> bool {
        true
    }

    open spec fn eq_spec(&self, other: &Token) -> bool {
        self.token_type == other.token_type && match (self.literal, other.literal) {
            (Some(a), Some(b)) => a@ == b@,
            (None, None) => true,
            _ => false,
        }
    }
}

} // verus!
