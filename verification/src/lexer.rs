//! The lexical scanner: consumes a character sequence and produces one token
//! per call, on demand. `scan_at` is the specification of a single scan step;
//! `next_token` is proved to follow it exactly.

use vstd::prelude::*;

use crate::tokens::{Token, TokenType};

verus! {

/// Whether Unicode classifies a character beyond ASCII as alphabetic.
pub uninterp spec fn unicode_alpha_char(c: char) -> bool;

/// Whether a character is alphabetic: within ASCII, exactly the letters;
/// beyond ASCII, whatever Unicode's Alphabetic property says.
pub open spec fn is_alpha_char(c: char) -> bool {
    if (c as u32) < 128 {
        ('a' as u32 <= c as u32 && c as u32 <= 'z' as u32) || ('A' as u32 <= c as u32 && c as u32
            <= 'Z' as u32)
    } else {
        unicode_alpha_char(c)
    }
}

/// Relies on char::is_alphabetic: within ASCII it holds exactly of the
/// letters a-z and A-Z; beyond ASCII the result depends on the character
/// alone.
#[verifier::external_body]
fn char_is_alphabetic(c: char) -> (r: bool)
    ensures
        r == is_alpha_char(c),
        (c as u32) >= 128 ==> r == unicode_alpha_char(c),
{
    c.is_alphabetic()
}

/// Relies on String::push: appends exactly the one character.
#[verifier::external_body]
fn push_char(s: &mut String, c: char)
    ensures
        final(s)@ == old(s)@.push(c),
{
    s.push(c);
}

/// The whitespace the scanner skips: space, tab, newline, carriage return.
pub open spec fn is_ws_char(c: char) -> bool {
    c == ' ' || c == '\t' || c == '\n' || c == '\r'
}

/// A decimal digit.
pub open spec fn is_digit_char(c: char) -> bool {
    '0' as u32 <= c as u32 && c as u32 <= '9' as u32
}

/// A hexadecimal digit letter, in either case.
pub open spec fn is_hex_letter_char(c: char) -> bool {
    ('a' as u32 <= c as u32 && c as u32 <= 'f' as u32) || ('A' as u32 <= c as u32 && c as u32
        <= 'F' as u32)
}

/// A character that may begin an identifier.
pub open spec fn is_letter_char(c: char) -> bool {
    is_alpha_char(c) || c == '_'
}

/// A character that may continue an identifier.
pub open spec fn is_ident_char(c: char) -> bool {
    is_alpha_char(c) || c == '_' || is_digit_char(c)
}

/// A character that may continue a number literal; intentionally permissive
/// (hex digits and underscores), while numeric conversion stays base 10.
pub open spec fn is_number_char(c: char) -> bool {
    is_digit_char(c) || is_hex_letter_char(c) || c == '_'
}

fn is_valid_identifier_char(c: char) -> (r: bool)
    ensures
        r == is_ident_char(c),
{
    char_is_alphabetic(c) || c == '_' || ('0' as u32 <= c as u32 && c as u32 <= '9' as u32)
}

fn is_valid_number_char(c: char) -> (r: bool)
    ensures
        r == is_number_char(c),
{
    let u = c as u32;
    ('0' as u32 <= u && u <= '9' as u32) || ('a' as u32 <= u && u <= 'f' as u32) || ('A' as u32
        <= u && u <= 'F' as u32) || c == '_'
}

/// The position where the run of whitespace starting at `i` ends.
pub open spec fn ws_end(s: Seq<char>, i: int) -> int
    decreases s.len() - i,
{
    if 0 <= i < s.len() && is_ws_char(s[i]) {
        ws_end(s, i + 1)
    } else {
        i
    }
}

/// The position where the run of identifier characters starting at `i` ends.
pub open spec fn ident_end(s: Seq<char>, i: int) -> int
    decreases s.len() - i,
{
    if 0 <= i < s.len() && is_ident_char(s[i]) {
        ident_end(s, i + 1)
    } else {
        i
    }
}

/// The position where the run of number characters starting at `i` ends.
pub open spec fn number_end(s: Seq<char>, i: int) -> int
    decreases s.len() - i,
{
    if 0 <= i < s.len() && is_number_char(s[i]) {
        number_end(s, i + 1)
    } else {
        i
    }
}

/// The kind a scanned word denotes: one of the fixed keywords, or an
/// identifier.
pub open spec fn keyword_kind(w: Seq<char>) -> TokenType {
    if w == "let"@ {
        TokenType::Let
    } else if w == "fn"@ {
        TokenType::Function
    } else if w == "true"@ {
        TokenType::True
    } else if w == "false"@ {
        TokenType::False
    } else if w == "if"@ {
        TokenType::If
    } else if w == "else"@ {
        TokenType::Else
    } else if w == "return"@ {
        TokenType::Return
    } else {
        TokenType::Identifier
    }
}

/// One symbol token read at position `i`: the kind, no literal, and the
/// position after it. `=`, `!`, `<` and `>` combine with a following `=`;
/// a character with no mapping yields `Illegal`.
pub open spec fn scan_symbol(s: Seq<char>, i: int) -> (TokenType, Option<Seq<char>>, int)
    recommends
        0 <= i < s.len(),
{
    let c = s[i];
    if c == '=' {
        if i + 1 < s.len() && s[i + 1] == '=' {
            (TokenType::Equal, None, i + 2)
        } else {
            (TokenType::Assign, None, i + 1)
        }
    } else if c == '!' {
        if i + 1 < s.len() && s[i + 1] == '=' {
            (TokenType::NotEqual, None, i + 2)
        } else {
            (TokenType::Bang, None, i + 1)
        }
    } else if c == '<' {
        if i + 1 < s.len() && s[i + 1] == '=' {
            (TokenType::LessThanOrEqual, None, i + 2)
        } else {
            (TokenType::LessThan, None, i + 1)
        }
    } else if c == '>' {
        if i + 1 < s.len() && s[i + 1] == '=' {
            (TokenType::GreaterThanOrEqual, None, i + 2)
        } else {
            (TokenType::GreaterThan, None, i + 1)
        }
    } else if c == '+' {
        (TokenType::Plus, None, i + 1)
    } else if c == '-' {
        (TokenType::Minus, None, i + 1)
    } else if c == '*' {
        (TokenType::Asterisk, None, i + 1)
    } else if c == '/' {
        (TokenType::ForwardSlash, None, i + 1)
    } else if c == '(' {
        (TokenType::LParen, None, i + 1)
    } else if c == ')' {
        (TokenType::RParen, None, i + 1)
    } else if c == '{' {
        (TokenType::LBrace, None, i + 1)
    } else if c == '}' {
        (TokenType::RBrace, None, i + 1)
    } else if c == ',' {
        (TokenType::Comma, None, i + 1)
    } else if c == ';' {
        (TokenType::Semicolon, None, i + 1)
    } else if c == '.' {
        (TokenType::Dot, None, i + 1)
    } else {
        (TokenType::Illegal, None, i + 1)
    }
}

/// One full scan step from position `i`: skip whitespace, then classify and
/// read one token. Yields the token's kind, its literal (for identifiers and
/// integers), and the position after the token.
pub open spec fn scan_at(s: Seq<char>, i: int) -> (TokenType, Option<Seq<char>>, int) {
    let b = ws_end(s, i);
    if b >= s.len() {
        (TokenType::EOF, None, b)
    } else {
        let c = s[b];
        if is_letter_char(c) {
            let j = ident_end(s, b);
            let w = s.subrange(b, j);
            let k = keyword_kind(w);
            if k == TokenType::Identifier {
                (k, Some(w), j)
            } else {
                (k, None, j)
            }
        } else if is_digit_char(c) {
            let j = number_end(s, b);
            (TokenType::Integer, Some(s.subrange(b, j)), j)
        } else {
            scan_symbol(s, b)
        }
    }
}

pub proof fn lemma_ws_end(s: Seq<char>, i: int)
    requires
        0 <= i <= s.len(),
    ensures
        i <= ws_end(s, i) <= s.len(),
    decreases s.len() - i,
{
    if i < s.len() && is_ws_char(s[i]) {
        lemma_ws_end(s, i + 1);
    }
}

pub proof fn lemma_ident_end(s: Seq<char>, i: int)
    requires
        0 <= i <= s.len(),
    ensures
        i <= ident_end(s, i) <= s.len(),
    decreases s.len() - i,
{
    if i < s.len() && is_ident_char(s[i]) {
        lemma_ident_end(s, i + 1);
    }
}

pub proof fn lemma_number_end(s: Seq<char>, i: int)
    requires
        0 <= i <= s.len(),
    ensures
        i <= number_end(s, i) <= s.len(),
    decreases s.len() - i,
{
    if i < s.len() && is_number_char(s[i]) {
        lemma_number_end(s, i + 1);
    }
}

/// Bounds and progress of one scan step: the scan never moves backwards, a
/// token other than EOF consumes at least one character, and EOF is reached
/// exactly when only whitespace remains.
pub proof fn lemma_scan_at(s: Seq<char>, i: int)
    requires
        0 <= i <= s.len(),
    ensures
        ({
            let (k, l, j) = scan_at(s, i);
            &&& i <= j <= s.len()
            &&& (k != TokenType::EOF ==> i < j)
            &&& (k == TokenType::EOF <==> ws_end(s, i) == s.len())
            &&& (k == TokenType::EOF ==> j == s.len())
            &&& ((k == TokenType::Identifier || k == TokenType::Integer) <==> l is Some)
        }),
{
    lemma_ws_end(s, i);
    let b = ws_end(s, i);
    if b < s.len() {
        let c = s[b];
        if is_letter_char(c) {
            lemma_ident_end(s, b + 1);
            assert(ident_end(s, b) == ident_end(s, b + 1));
        } else if is_digit_char(c) {
            lemma_number_end(s, b + 1);
            assert(number_end(s, b) == number_end(s, b + 1));
        }
    }
}

/// A run of whitespace from `i` that stops at `j` ends exactly there.
pub proof fn lemma_ws_run(s: Seq<char>, i: int, j: int)
    requires
        0 <= i <= j <= s.len(),
        forall|k: int| i <= k < j ==> is_ws_char(#[trigger] s[k]),
        j < s.len() ==> !is_ws_char(s[j]),
    ensures
        ws_end(s, i) == j,
    decreases j - i,
{
    if i < j {
        lemma_ws_run(s, i + 1, j);
    }
}

/// A run of identifier characters from `i` that stops at `j` ends exactly
/// there.
pub proof fn lemma_ident_run(s: Seq<char>, i: int, j: int)
    requires
        0 <= i <= j <= s.len(),
        forall|k: int| i <= k < j ==> is_ident_char(#[trigger] s[k]),
        j < s.len() ==> !is_ident_char(s[j]),
    ensures
        ident_end(s, i) == j,
    decreases j - i,
{
    if i < j {
        lemma_ident_run(s, i + 1, j);
    }
}

/// A run of number characters from `i` that stops at `j` ends exactly
/// there.
pub proof fn lemma_number_run(s: Seq<char>, i: int, j: int)
    requires
        0 <= i <= j <= s.len(),
        forall|k: int| i <= k < j ==> is_number_char(#[trigger] s[k]),
        j < s.len() ==> !is_number_char(s[j]),
    ensures
        number_end(s, i) == j,
    decreases j - i,
{
    if i < j {
        lemma_number_run(s, i + 1, j);
    }
}

/// Scanning from `i` across whitespace reads the word lying at `b`: a
/// keyword token, or an identifier carrying the word.
pub proof fn lemma_scan_word(s: Seq<char>, i: int, b: int, w: Seq<char>)
    requires
        0 <= i <= b,
        b + w.len() <= s.len(),
        forall|k: int| i <= k < b ==> is_ws_char(#[trigger] s[k]),
        w.len() > 0,
        is_letter_char(w[0]),
        forall|k: int| 0 <= k < w.len() ==> is_ident_char(#[trigger] w[k]),
        forall|k: int| 0 <= k < w.len() ==> #[trigger] w[k] == s[b + k],
        b + w.len() < s.len() ==> !is_ident_char(s[b + w.len()]),
    ensures
        scan_at(s, i) == (
            keyword_kind(w),
            if keyword_kind(w) == TokenType::Identifier {
                Some(w)
            } else {
                None::<Seq<char>>
            },
            b + w.len(),
        ),
{
    assert(s[b] == w[0]);
    assert(!is_ws_char(s[b]));
    lemma_ws_run(s, i, b);
    assert forall|k: int| b <= k < b + w.len() implies is_ident_char(#[trigger] s[k]) by {
        assert(w[k - b] == s[b + (k - b)]);
        assert(is_ident_char(w[k - b]));
    };
    lemma_ident_run(s, b, b + w.len());
    assert(s.subrange(b, b + w.len()) =~= w);
}

/// Scanning from `i` across whitespace reads the digit run lying at `b` as
/// one integer token carrying its text.
pub proof fn lemma_scan_number(s: Seq<char>, i: int, b: int, w: Seq<char>)
    requires
        0 <= i <= b,
        b + w.len() <= s.len(),
        forall|k: int| i <= k < b ==> is_ws_char(#[trigger] s[k]),
        w.len() > 0,
        is_digit_char(w[0]),
        forall|k: int| 0 <= k < w.len() ==> is_number_char(#[trigger] w[k]),
        forall|k: int| 0 <= k < w.len() ==> #[trigger] w[k] == s[b + k],
        b + w.len() < s.len() ==> !is_number_char(s[b + w.len()]),
    ensures
        scan_at(s, i) == (TokenType::Integer, Some(w), b + w.len()),
{
    assert(s[b] == w[0]);
    assert(!is_ws_char(s[b]));
    assert(!is_letter_char(s[b]));
    lemma_ws_run(s, i, b);
    assert forall|k: int| b <= k < b + w.len() implies is_number_char(#[trigger] s[k]) by {
        assert(w[k - b] == s[b + (k - b)]);
        assert(is_number_char(w[k - b]));
    };
    lemma_number_run(s, b, b + w.len());
    assert(s.subrange(b, b + w.len()) =~= w);
}

/// Scanning from `i` across whitespace reads the `;` lying at `b`.
pub proof fn lemma_scan_semi(s: Seq<char>, i: int, b: int)
    requires
        0 <= i <= b < s.len(),
        forall|k: int| i <= k < b ==> is_ws_char(#[trigger] s[k]),
        s[b] == ';',
    ensures
        scan_at(s, i) == (TokenType::Semicolon, None::<Seq<char>>, b + 1),
{
    lemma_ws_run(s, i, b);
}

/// Scanning from `i` across whitespace reads the `=` lying at `b`, alone.
pub proof fn lemma_scan_assign(s: Seq<char>, i: int, b: int)
    requires
        0 <= i <= b < s.len(),
        forall|k: int| i <= k < b ==> is_ws_char(#[trigger] s[k]),
        s[b] == '=',
        b + 1 < s.len() ==> s[b + 1] != '=',
    ensures
        scan_at(s, i) == (TokenType::Assign, None::<Seq<char>>, b + 1),
{
    lemma_ws_run(s, i, b);
}

/// Scanning from `i` when only whitespace remains yields EOF at the end.
pub proof fn lemma_scan_eof(s: Seq<char>, i: int)
    requires
        0 <= i <= s.len(),
        forall|k: int| i <= k < s.len() ==> is_ws_char(#[trigger] s[k]),
    ensures
        scan_at(s, i) == (TokenType::EOF, None::<Seq<char>>, s.len() as int),
{
    lemma_ws_run(s, i, s.len() as int);
}

/// A well-formed scanner's cursor lies within its text.
pub proof fn lemma_lexer_bounds(l: &Lexer)
    requires
        l.wf(),
    ensures
        0 <= l.pos() <= l.text().len(),
{
}

/// Once the scanner has reached the end of input, every further scan yields
/// EOF again, at the same position: the terminal state is stable.
pub proof fn lemma_eof_stable(s: Seq<char>, i: int)
    requires
        0 <= i <= s.len(),
        scan_at(s, i).0 == TokenType::EOF,
    ensures
        ({
            let j = scan_at(s, i).2;
            &&& scan_at(s, j).0 == TokenType::EOF
            &&& scan_at(s, j).2 == j
        }),
{
    lemma_scan_at(s, i);
    assert(ws_end(s, s.len() as int) == s.len());
}

/// The scanner: a character buffer and a cursor. Between calls the cursor
/// rests on the next character still to be read (`ch`), or on nothing once
/// the input is exhausted.
pub struct Lexer {
    chars: Vec<char>,
    position: usize,
    ch: Option<char>,
}

impl Lexer {
    /// The scanned text.
    pub closed spec fn text(&self) -> Seq<char> {
        self.chars@
    }

    /// The cursor: the index of the current character, or the text length at
    /// end of input.
    pub closed spec fn pos(&self) -> int {
        self.position as int
    }

    /// The cursor invariant: the current character is the one at `position`,
    /// and it is absent exactly at end of input.
    pub closed spec fn wf(&self) -> bool {
        match self.ch {
            Some(c) => self.position < self.chars@.len() && self.chars@[self.position as int]
                == c,
            None => self.position == self.chars@.len(),
        }
    }

    pub fn new(input: &str) -> (lex: Lexer)
        ensures
            lex.wf(),
            lex.text() == input@,
            lex.pos() == 0,
    {
        let n = input.unicode_len();
        let mut chars: Vec<char> = Vec::new();
        let mut idx: usize = 0;
        while idx < n
            invariant
                n == input@.len(),
                idx <= n,
                chars@ == input@.subrange(0, idx as int),
            decreases n - idx,
        {
            let c = input.get_char(idx);
            chars.push(c);
            proof {
                assert(chars@ =~= input@.subrange(0, idx + 1 as int));
            }
            idx = idx + 1;
        }
        proof {
            assert(chars@ =~= input@);
        }
        let ch = if chars.len() > 0 {
            Some(chars[0])
        } else {
            None
        };
        Lexer { chars, position: 0, ch }
    }

    fn read_next_char(&mut self)
        requires
            old(self).wf(),
            old(self).ch is Some,
        ensures
            final(self).wf(),
            final(self).text() == old(self).text(),
            final(self).pos() == old(self).pos() + 1,
    {
        let n = self.chars.len();
        let next = self.position + 1;
        if next < n {
            self.ch = Some(self.chars[next]);
        } else {
            self.ch = None;
        }
        self.position = next;
    }

    fn peek_next_char(&self) -> (c: Option<char>)
        requires
            self.wf(),
        ensures
            c == (if self.pos() + 1 < self.text().len() {
                Some(self.text()[self.pos() + 1])
            } else {
                None::<char>
            }),
    {
        match self.ch {
            None => None,
            Some(_) => {
                let n = self.chars.len();
                let next = self.position + 1;
                if next < n {
                    Some(self.chars[next])
                } else {
                    None
                }
            },
        }
    }

    fn current_is_ws(&self) -> (r: bool)
        requires
            self.wf(),
        ensures
            r == (self.ch matches Some(c) && is_ws_char(c)),
    {
        match self.ch {
            Some(c) => c == ' ' || c == '\t' || c == '\n' || c == '\r',
            None => false,
        }
    }

    fn current_is_ident_char(&self) -> (r: bool)
        requires
            self.wf(),
        ensures
            r == (self.ch matches Some(c) && is_ident_char(c)),
    {
        match self.ch {
            Some(c) => is_valid_identifier_char(c),
            None => false,
        }
    }

    fn current_is_number_char(&self) -> (r: bool)
        requires
            self.wf(),
        ensures
            r == (self.ch matches Some(c) && is_number_char(c)),
    {
        match self.ch {
            Some(c) => is_valid_number_char(c),
            None => false,
        }
    }

    fn skip_whitespace(&mut self)
        requires
            old(self).wf(),
        ensures
            final(self).wf(),
            final(self).text() == old(self).text(),
            final(self).pos() == ws_end(old(self).text(), old(self).pos()),
    {
        let ghost s = self.text();
        let ghost i0 = self.pos();
        while self.current_is_ws()
            invariant
                self.wf(),
                self.text() == s,
                ws_end(s, self.pos()) == ws_end(s, i0),
            decreases s.len() - self.pos(),
        {
            self.read_next_char();
        }
    }

    /// Scan and return the next token, advancing the cursor past it. The
    /// result is exactly what `scan_at` specifies for the old cursor; the
    /// scanner itself never fails.
    pub fn next_token(&mut self) -> (t: Token)
        requires
            old(self).wf(),
        ensures
            final(self).wf(),
            final(self).text() == old(self).text(),
            ({
                let (k, l, j) = scan_at(old(self).text(), old(self).pos());
                &&& t.token_type == k
                &&& t.lit_view() == l
                &&& final(self).pos() == j
            }),
            t.wf(),
    {
        self.skip_whitespace();
        match self.ch {
            None => Token::eof(),
            Some(c) => {
                if char_is_alphabetic(c) || c == '_' {
                    self.match_identifier()
                } else if '0' as u32 <= c as u32 && c as u32 <= '9' as u32 {
                    self.match_number()
                } else {
                    self.match_symbol()
                }
            },
        }
    }

    /// Consume a maximal run of characters accepted by the given class,
    /// starting at the current one, which must itself be in the class.
    fn match_characters(&mut self, ident_mode: bool) -> (lit: String)
        requires
            old(self).wf(),
            old(self).ch matches Some(c) && (if ident_mode {
                is_ident_char(c)
            } else {
                is_number_char(c)
            }),
        ensures
            final(self).wf(),
            final(self).text() == old(self).text(),
            ({
                let j = if ident_mode {
                    ident_end(old(self).text(), old(self).pos())
                } else {
                    number_end(old(self).text(), old(self).pos())
                };
                &&& final(self).pos() == j
                &&& lit@ == old(self).text().subrange(old(self).pos(), j)
            }),
    {
        let ghost s = self.text();
        let ghost i0 = self.pos();
        let mut lit = String::new();
        let c0 = match self.ch {
            Some(c) => c,
            None => vstd::pervasive::unreached(),
        };
        push_char(&mut lit, c0);
        self.read_next_char();
        proof {
            assert(lit@ =~= s.subrange(i0, i0 + 1));
        }
        if ident_mode {
            while self.current_is_ident_char()
                invariant
                    self.wf(),
                    self.text() == s,
                    0 <= i0 < self.pos() <= s.len(),
                    lit@ == s.subrange(i0, self.pos()),
                    ident_end(s, self.pos()) == ident_end(s, i0),
                decreases s.len() - self.pos(),
            {
                let c = match self.ch {
                    Some(c) => c,
                    None => vstd::pervasive::unreached(),
                };
                let ghost p0 = self.pos();
                push_char(&mut lit, c);
                self.read_next_char();
                proof {
                    assert(lit@ =~= s.subrange(i0, p0 + 1));
                }
            }
        } else {
            while self.current_is_number_char()
                invariant
                    self.wf(),
                    self.text() == s,
                    0 <= i0 < self.pos() <= s.len(),
                    lit@ == s.subrange(i0, self.pos()),
                    number_end(s, self.pos()) == number_end(s, i0),
                decreases s.len() - self.pos(),
            {
                let c = match self.ch {
                    Some(c) => c,
                    None => vstd::pervasive::unreached(),
                };
                let ghost p0 = self.pos();
                push_char(&mut lit, c);
                self.read_next_char();
                proof {
                    assert(lit@ =~= s.subrange(i0, p0 + 1));
                }
            }
        }
        lit
    }

    /// Read an identifier or keyword starting at the current character.
    fn match_identifier(&mut self) -> (t: Token)
        requires
            old(self).wf(),
            old(self).ch matches Some(c) && is_letter_char(c),
        ensures
            final(self).wf(),
            final(self).text() == old(self).text(),
            ({
                let j = ident_end(old(self).text(), old(self).pos());
                let w = old(self).text().subrange(old(self).pos(), j);
                &&& final(self).pos() == j
                &&& t.token_type == keyword_kind(w)
                &&& (keyword_kind(w) == TokenType::Identifier ==> t.lit_view() == Some(w))
                &&& (keyword_kind(w) != TokenType::Identifier ==> t.literal is None)
            }),
    {
        let lit = self.match_characters(true);
        if lit == String::from_str("let") {
            Token::new(TokenType::Let)
        } else if lit == String::from_str("fn") {
            Token::new(TokenType::Function)
        } else if lit == String::from_str("true") {
            Token::new(TokenType::True)
        } else if lit == String::from_str("false") {
            Token::new(TokenType::False)
        } else if lit == String::from_str("if") {
            Token::new(TokenType::If)
        } else if lit == String::from_str("else") {
            Token::new(TokenType::Else)
        } else if lit == String::from_str("return") {
            Token::new(TokenType::Return)
        } else {
            Token::new_ident(lit)
        }
    }

    /// Read an integer literal starting at the current (digit) character.
    fn match_number(&mut self) -> (t: Token)
        requires
            old(self).wf(),
            old(self).ch matches Some(c) && is_digit_char(c),
        ensures
            final(self).wf(),
            final(self).text() == old(self).text(),
            ({
                let j = number_end(old(self).text(), old(self).pos());
                &&& final(self).pos() == j
                &&& t.token_type == TokenType::Integer
                &&& t.lit_view() == Some(old(self).text().subrange(old(self).pos(), j))
            }),
    {
        let lit = self.match_characters(false);
        Token::new_integer(lit)
    }

    /// Read a symbol token at the current character; an unknown character
    /// becomes `Illegal`, never a failure.
    fn match_symbol(&mut self) -> (t: Token)
        requires
            old(self).wf(),
            old(self).ch is Some,
        ensures
            final(self).wf(),
            final(self).text() == old(self).text(),
            ({
                let (k, l, j) = scan_symbol(old(self).text(), old(self).pos());
                &&& t.token_type == k
                &&& t.literal is None
                &&& final(self).pos() == j
            }),
    {
        let c = match self.ch {
            Some(c) => c,
            None => vstd::pervasive::unreached(),
        };
        let kind = if c == '=' {
            or_equal(self, TokenType::Equal, TokenType::Assign)
        } else if c == '!' {
            or_equal(self, TokenType::NotEqual, TokenType::Bang)
        } else if c == '<' {
            or_equal(self, TokenType::LessThanOrEqual, TokenType::LessThan)
        } else if c == '>' {
            or_equal(self, TokenType::GreaterThanOrEqual, TokenType::GreaterThan)
        } else if c == '+' {
            TokenType::Plus
        } else if c == '-' {
            TokenType::Minus
        } else if c == '*' {
            TokenType::Asterisk
        } else if c == '/' {
            TokenType::ForwardSlash
        } else if c == '(' {
            TokenType::LParen
        } else if c == ')' {
            TokenType::RParen
        } else if c == '{' {
            TokenType::LBrace
        } else if c == '}' {
            TokenType::RBrace
        } else if c == ',' {
            TokenType::Comma
        } else if c == ';' {
            TokenType::Semicolon
        } else if c == '.' {
            TokenType::Dot
        } else {
            TokenType::Illegal
        };
        self.read_next_char();
        Token::new(kind)
    }
}

/// If the character after the current one is `=`, consume it and choose the
/// combined kind; otherwise leave the cursor alone and choose the single one.
fn or_equal(lex: &mut Lexer, eq: TokenType, not: TokenType) -> (t: TokenType)
    requires
        old(lex).wf(),
        old(lex).ch is Some,
    ensures
        final(lex).wf(),
        final(lex).text() == old(lex).text(),
        final(lex).ch is Some,
        (if old(lex).pos() + 1 < old(lex).text().len() && old(lex).text()[old(lex).pos() + 1]
            == '=' {
            t == eq && final(lex).pos() == old(lex).pos() + 1
        } else {
            t == not && final(lex).pos() == old(lex).pos()
        }),
{
    match lex.peek_next_char() {
        Some(x) => {
            if x == '=' {
                lex.read_next_char();
                eq
            } else {
                not
            }
        },
        None => not,
    }
}

} // verus!
