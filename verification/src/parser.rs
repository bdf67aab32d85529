//! The parser: recursive descent for statements, precedence-climbing for
//! expressions, over a two-token lookahead window. The `sp_parse_*` family
//! is the specification; each executable method is proved to follow it. The
//! parser never aborts: a malformed statement contributes an error message
//! and parsing resumes at the next statement boundary.

use vstd::prelude::*;

use crate::ast::{
    expr_token, expr_view, expr_wf, prog_view, prog_wf, stmt_view, stmt_wf, ExprView, Expression,
    Identifier, IntegerLiteral, PrefixExpression, Program, Statement, StmtView,
};
use crate::lexer::{is_digit_char, scan_at, Lexer};
use crate::tokens::{name_of, Token, TokenType};

verus! {

/// The binding strength of each operator tier, lowest first. Only the
/// `Lowest` and `Prefix` tiers are exercised by the present expression
/// forms; the others fix the order for the infix tiers to come.
#[allow(dead_code)]
enum Precedence {
    Lowest,
    Equals,
    LessGreater,
    Sum,
    Product,
    Prefix,
    Call,
}

/// The kind of the token scanned at position `i`.
pub open spec fn tok_kind(s: Seq<char>, i: int) -> TokenType {
    scan_at(s, i).0
}

/// The literal of the token scanned at position `i`.
pub open spec fn tok_lit(s: Seq<char>, i: int) -> Option<Seq<char>> {
    scan_at(s, i).1
}

/// The position just after the token scanned at position `i`.
pub open spec fn tok_end(s: Seq<char>, i: int) -> int {
    scan_at(s, i).2
}

/// A literal payload, or nothing where the token carries none.
pub open spec fn lit_or_empty(l: Option<Seq<char>>) -> Seq<char> {
    match l {
        Some(t) => t,
        None => Seq::<char>::empty(),
    }
}

/// The message recorded when a required token kind is missing.
pub open spec fn msg_expected(expected: TokenType, got: TokenType) -> Seq<char> {
    "expected "@ + name_of(expected) + ", got "@ + name_of(got)
}

/// The message recorded when no expression can begin at a token kind.
pub open spec fn msg_no_prefix(k: TokenType) -> Seq<char> {
    "no prefix parse function for "@ + name_of(k)
}

/// The message recorded when an integer literal has no 64-bit base-10 value.
pub open spec fn msg_invalid_int() -> Seq<char> {
    "invalid integer"@
}

/// Whether a literal is a plain base-10 numeral: nonempty, decimal digits
/// only.
pub open spec fn is_dec_digits(t: Seq<char>) -> bool {
    t.len() > 0 && forall|k: int| 0 <= k < t.len() ==> is_digit_char(#[trigger] t[k])
}

/// The numeric value of a digit sequence, read in base 10.
pub open spec fn digits_val(t: Seq<char>) -> int
    decreases t.len(),
{
    if t.len() == 0 {
        0
    } else {
        digits_val(t.drop_last()) * 10 + ((t.last() as u32) as int - ('0' as u32) as int)
    }
}

proof fn lemma_digits_val_step(t: Seq<char>, i: int)
    requires
        0 <= i < t.len(),
    ensures
        digits_val(t.subrange(0, i + 1)) == digits_val(t.subrange(0, i)) * 10 + ((t[i] as u32)
            as int - ('0' as u32) as int),
{
    let u = t.subrange(0, i + 1);
    assert(u.drop_last() =~= t.subrange(0, i));
    assert(u.last() == t[i]);
}

proof fn lemma_digits_val_nonneg(t: Seq<char>)
    requires
        forall|k: int| 0 <= k < t.len() ==> is_digit_char(#[trigger] t[k]),
    ensures
        digits_val(t) >= 0,
    decreases t.len(),
{
    if t.len() > 0 {
        assert(forall|k: int|
            0 <= k < t.drop_last().len() ==> is_digit_char(#[trigger] t.drop_last()[k]));
        lemma_digits_val_nonneg(t.drop_last());
    }
}

/// A longer digit prefix never has a smaller value.
proof fn lemma_digits_val_grows(t: Seq<char>, i: int)
    requires
        0 <= i <= t.len(),
        forall|k: int| 0 <= k < t.len() ==> is_digit_char(#[trigger] t[k]),
    ensures
        digits_val(t.subrange(0, i)) <= digits_val(t),
    decreases t.len() - i,
{
    if i == t.len() {
        assert(t.subrange(0, i) =~= t);
    } else {
        lemma_digits_val_step(t, i);
        assert(forall|k: int|
            0 <= k < t.subrange(0, i).len() ==> is_digit_char(#[trigger] t.subrange(0, i)[k]));
        lemma_digits_val_nonneg(t.subrange(0, i));
        lemma_digits_val_grows(t, i + 1);
    }
}

/// Read a base-10 numeral as an `i64`. Succeeds exactly on nonempty strings
/// of decimal digits whose value fits; underscores, hex letters and anything
/// else make it fail, as does overflow.
fn parse_i64_decimal(s: &str) -> (r: Option<i64>)
    ensures
        ({
            let t = s@;
            if is_dec_digits(t) && digits_val(t) <= i64::MAX as int {
                r matches Some(v) && v as int == digits_val(t)
            } else {
                r is None
            }
        }),
{
    let n = s.unicode_len();
    if n == 0 {
        return None;
    }
    let mut acc: i64 = 0;
    let mut idx: usize = 0;
    while idx < n
        invariant
            n == s@.len(),
            0 < n,
            0 <= idx <= n,
            forall|k: int| 0 <= k < idx ==> is_digit_char(#[trigger] s@[k]),
            acc as int == digits_val(s@.subrange(0, idx as int)),
            0 <= acc,
        decreases n - idx,
    {
        let c = s.get_char(idx);
        let u = c as u32;
        if !('0' as u32 <= u && u <= '9' as u32) {
            return None;
        }
        let d = (u - '0' as u32) as i64;
        proof {
            lemma_digits_val_step(s@, idx as int);
        }
        let threshold = (i64::MAX - d) / 10;
        proof {
            vstd::arithmetic::div_mod::lemma_fundamental_div_mod(i64::MAX as int - d as int, 10);
            vstd::arithmetic::div_mod::lemma_mod_division_less_than_divisor(
                i64::MAX as int - d as int,
                10,
            );
        }
        if acc > threshold {
            proof {
                if is_dec_digits(s@) && digits_val(s@) <= i64::MAX as int {
                    lemma_digits_val_grows(s@, idx as int + 1);
                }
            }
            return None;
        }
        acc = acc * 10 + d;
        idx = idx + 1;
    }
    proof {
        assert(s@.subrange(0, n as int) =~= s@);
    }
    Some(acc)
}

/// One expression parse from cursor `i`, at prefix precedence and below:
/// an identifier or integer stands alone; `!` and `-` recurse on their
/// operand; any other kind has no prefix rule and fails. The cursor result
/// rests on the last token of the expression.
pub open spec fn sp_parse_expression(s: Seq<char>, i: int) -> (Result<ExprView, Seq<char>>, int)
    decreases s.len() - i,
    when 0 <= i <= s.len()
    via sp_parse_expression_dec
{
    let k = tok_kind(s, i);
    if k == TokenType::Identifier {
        (Ok(ExprView::Ident { name: lit_or_empty(tok_lit(s, i)) }), i)
    } else if k == TokenType::Integer {
        let t = lit_or_empty(tok_lit(s, i));
        if is_dec_digits(t) && digits_val(t) <= i64::MAX as int {
            (Ok(ExprView::IntLit { text: t, value: digits_val(t) }), i)
        } else {
            (Err(msg_invalid_int()), i)
        }
    } else if k == TokenType::Bang || k == TokenType::Minus {
        let inner = sp_parse_expression(s, tok_end(s, i));
        match inner.0 {
            Ok(v) => (Ok(ExprView::Prefix { op: k, operand: Box::new(v) }), inner.1),
            Err(m) => (Err(m), inner.1),
        }
    } else {
        (Err(msg_no_prefix(k)), i)
    }
}

#[via_fn]
proof fn sp_parse_expression_dec(s: Seq<char>, i: int) {
    crate::lexer::lemma_scan_at(s, i);
}

/// Bounds of an expression parse: the cursor never moves backwards, and a
/// successful parse leaves it on an identifier or integer token.
pub proof fn lemma_sp_parse_expression(s: Seq<char>, i: int)
    requires
        0 <= i <= s.len(),
    ensures
        ({
            let (r, j) = sp_parse_expression(s, i);
            &&& i <= j <= s.len()
            &&& (r is Ok ==> tok_kind(s, j) == TokenType::Identifier || tok_kind(s, j)
                == TokenType::Integer)
        }),
    decreases s.len() - i,
{
    crate::lexer::lemma_scan_at(s, i);
    let k = tok_kind(s, i);
    if k == TokenType::Bang || k == TokenType::Minus {
        lemma_sp_parse_expression(s, tok_end(s, i));
    }
}

/// One `let` statement parse from cursor `i` (which rests on `let`): the
/// name must follow, then `=`, then the bound expression, then `;`. The
/// first violated expectation fails the statement with its message.
pub open spec fn sp_parse_let(s: Seq<char>, i: int) -> (Result<StmtView, Seq<char>>, int) {
    let i1 = tok_end(s, i);
    if tok_kind(s, i1) != TokenType::Identifier {
        (Err(msg_expected(TokenType::Identifier, tok_kind(s, i1))), i)
    } else {
        let name = lit_or_empty(tok_lit(s, i1));
        let i2 = tok_end(s, i1);
        if tok_kind(s, i2) != TokenType::Assign {
            (Err(msg_expected(TokenType::Assign, tok_kind(s, i2))), i1)
        } else {
            let i3 = tok_end(s, i2);
            let inner = sp_parse_expression(s, i3);
            match inner.0 {
                Ok(v) => {
                    let i4 = tok_end(s, inner.1);
                    if tok_kind(s, i4) == TokenType::Semicolon {
                        (Ok(StmtView::LetStmt { name, value: Some(v) }), i4)
                    } else {
                        (Err(msg_expected(TokenType::Semicolon, tok_kind(s, i4))), inner.1)
                    }
                },
                Err(m) => (Err(m), inner.1),
            }
        }
    }
}

/// One `return` statement parse from cursor `i` (which rests on `return`):
/// the returned expression follows, then `;`.
pub open spec fn sp_parse_return(s: Seq<char>, i: int) -> (Result<StmtView, Seq<char>>, int) {
    let i1 = tok_end(s, i);
    let inner = sp_parse_expression(s, i1);
    match inner.0 {
        Ok(v) => {
            let i2 = tok_end(s, inner.1);
            if tok_kind(s, i2) == TokenType::Semicolon {
                (Ok(StmtView::ReturnStmt { value: Some(v) }), i2)
            } else {
                (Err(msg_expected(TokenType::Semicolon, tok_kind(s, i2))), inner.1)
            }
        },
        Err(m) => (Err(m), inner.1),
    }
}

/// One expression statement parse from cursor `i`: a single expression at
/// lowest precedence, with an optional trailing `;`.
pub open spec fn sp_parse_expression_statement(s: Seq<char>, i: int) -> (
    Result<StmtView, Seq<char>>,
    int,
) {
    let inner = sp_parse_expression(s, i);
    match inner.0 {
        Ok(v) => {
            if tok_kind(s, tok_end(s, inner.1)) == TokenType::Semicolon {
                (Ok(StmtView::ExprStmt { value: v }), tok_end(s, inner.1))
            } else {
                (Ok(StmtView::ExprStmt { value: v }), inner.1)
            }
        },
        Err(m) => (Err(m), inner.1),
    }
}

/// One statement parse from cursor `i`, dispatched on the current token.
pub open spec fn sp_parse_statement(s: Seq<char>, i: int) -> (Result<StmtView, Seq<char>>, int) {
    if tok_kind(s, i) == TokenType::Let {
        sp_parse_let(s, i)
    } else if tok_kind(s, i) == TokenType::Return {
        sp_parse_return(s, i)
    } else {
        sp_parse_expression_statement(s, i)
    }
}

/// Bounds of a statement parse: the cursor never moves backwards, and a
/// successful parse never leaves it on EOF.
pub proof fn lemma_sp_parse_statement(s: Seq<char>, i: int)
    requires
        0 <= i <= s.len(),
    ensures
        ({
            let (r, j) = sp_parse_statement(s, i);
            &&& i <= j <= s.len()
            &&& (r is Ok ==> tok_kind(s, j) != TokenType::EOF)
        }),
{
    crate::lexer::lemma_scan_at(s, i);
    let k = tok_kind(s, i);
    if k == TokenType::Let {
        let i1 = tok_end(s, i);
        crate::lexer::lemma_scan_at(s, i1);
        if tok_kind(s, i1) == TokenType::Identifier {
            let i2 = tok_end(s, i1);
            crate::lexer::lemma_scan_at(s, i2);
            if tok_kind(s, i2) == TokenType::Assign {
                let i3 = tok_end(s, i2);
                crate::lexer::lemma_scan_at(s, i3);
                lemma_sp_parse_expression(s, i3);
                let inner = sp_parse_expression(s, i3);
                crate::lexer::lemma_scan_at(s, inner.1);
            }
        }
    } else if k == TokenType::Return {
        let i1 = tok_end(s, i);
        crate::lexer::lemma_scan_at(s, i1);
        lemma_sp_parse_expression(s, i1);
        let inner = sp_parse_expression(s, i1);
        crate::lexer::lemma_scan_at(s, inner.1);
    } else {
        lemma_sp_parse_expression(s, i);
        let inner = sp_parse_expression(s, i);
        crate::lexer::lemma_scan_at(s, inner.1);
    }
}

/// The cursor of the next statement boundary at or after `i`: the first
/// token that is a semicolon or EOF.
pub open spec fn sp_skip_to_semi(s: Seq<char>, i: int) -> int
    decreases s.len() - i,
    when 0 <= i <= s.len()
    via sp_skip_to_semi_dec
{
    let k = tok_kind(s, i);
    if k == TokenType::Semicolon || k == TokenType::EOF {
        i
    } else {
        sp_skip_to_semi(s, tok_end(s, i))
    }
}

#[via_fn]
proof fn sp_skip_to_semi_dec(s: Seq<char>, i: int) {
    crate::lexer::lemma_scan_at(s, i);
}

pub proof fn lemma_sp_skip_to_semi(s: Seq<char>, i: int)
    requires
        0 <= i <= s.len(),
    ensures
        ({
            let j = sp_skip_to_semi(s, i);
            &&& i <= j <= s.len()
            &&& (tok_kind(s, j) == TokenType::Semicolon || tok_kind(s, j) == TokenType::EOF)
        }),
    decreases s.len() - i,
{
    crate::lexer::lemma_scan_at(s, i);
    let k = tok_kind(s, i);
    if k != TokenType::Semicolon && k != TokenType::EOF {
        lemma_sp_skip_to_semi(s, tok_end(s, i));
    }
}

/// The whole program parse from cursor `i`: every statement parsed in source
/// order, and the message of every failed statement, also in source order.
/// A failed statement contributes no node; recovery skips to the next
/// statement boundary and parsing continues.
pub open spec fn sp_parse_program(s: Seq<char>, i: int) -> (Seq<StmtView>, Seq<Seq<char>>)
    decreases s.len() - i,
    when 0 <= i <= s.len()
    via sp_parse_program_dec
{
    if tok_kind(s, i) == TokenType::EOF {
        (Seq::<StmtView>::empty(), Seq::<Seq<char>>::empty())
    } else {
        let step = sp_parse_statement(s, i);
        match step.0 {
            Ok(st) => {
                let rest = sp_parse_program(s, tok_end(s, step.1));
                (seq![st] + rest.0, rest.1)
            },
            Err(m) => {
                let j2 = sp_skip_to_semi(s, step.1);
                if tok_kind(s, j2) == TokenType::EOF {
                    (Seq::<StmtView>::empty(), seq![m])
                } else {
                    let rest = sp_parse_program(s, tok_end(s, j2));
                    (rest.0, seq![m] + rest.1)
                }
            },
        }
    }
}

#[via_fn]
proof fn sp_parse_program_dec(s: Seq<char>, i: int) {
    crate::lexer::lemma_scan_at(s, i);
    lemma_sp_parse_statement(s, i);
    let step = sp_parse_statement(s, i);
    match step.0 {
        Ok(_) => {
            crate::lexer::lemma_scan_at(s, step.1);
        },
        Err(_) => {
            lemma_sp_skip_to_semi(s, step.1);
            let j2 = sp_skip_to_semi(s, step.1);
            crate::lexer::lemma_scan_at(s, j2);
        },
    }
}

/// The error messages of a parse, seen as character sequences.
pub open spec fn msgs(es: Seq<String>) -> Seq<Seq<char>> {
    es.map_values(|e: String| e@)
}

/// For any input of whitespace alone, the parse yields an empty statement
/// list and an empty error list.
pub proof fn lemma_whitespace_only_program(s: Seq<char>)
    requires
        forall|k: int| 0 <= k < s.len() ==> crate::lexer::is_ws_char(#[trigger] s[k]),
    ensures
        sp_parse_program(s, 0).0 == Seq::<StmtView>::empty(),
        sp_parse_program(s, 0).1 == Seq::<Seq<char>>::empty(),
{
    lemma_ws_end_full(s, 0);
}

proof fn lemma_ws_end_full(s: Seq<char>, i: int)
    requires
        0 <= i <= s.len(),
        forall|k: int| 0 <= k < s.len() ==> crate::lexer::is_ws_char(#[trigger] s[k]),
    ensures
        crate::lexer::ws_end(s, i) == s.len(),
    decreases s.len() - i,
{
    if i < s.len() {
        lemma_ws_end_full(s, i + 1);
    }
}

/// Whether the token scanned at `i` is exactly `t`, with the scan resuming
/// at `j`: the coupling between a held token and the cursor it came from.
pub open spec fn tok_at(s: Seq<char>, i: int, t: Token, j: int) -> bool {
    &&& t.token_type == tok_kind(s, i)
    &&& t.lit_view() == tok_lit(s, i)
    &&& j == tok_end(s, i)
}

/// The parser: a scanner, the two-token lookahead window, and the errors
/// collected so far. The ghost cursors tie each held token to the position
/// in the text it was scanned from.
pub struct Parser {
    l: Lexer,
    current_token: Token,
    peek_token: Token,
    pub errors: Vec<String>,
    cur_start: Ghost<int>,
    peek_start: Ghost<int>,
}

impl Parser {
    /// The text being parsed.
    pub closed spec fn text(&self) -> Seq<char> {
        self.l.text()
    }

    /// The cursor: the position the current token was scanned from.
    pub closed spec fn cur(&self) -> int {
        self.cur_start@
    }

    /// The error messages recorded so far.
    pub closed spec fn errors_view(&self) -> Seq<String> {
        self.errors@
    }

    /// The parser invariant: the scanner is sound, and the current and peek
    /// tokens are exactly the two tokens scanned next from the cursor.
    pub closed spec fn wf(&self) -> bool {
        &&& self.l.wf()
        &&& 0 <= self.cur_start@ <= self.l.text().len()
        &&& 0 <= self.peek_start@ <= self.l.text().len()
        &&& tok_at(self.l.text(), self.cur_start@, self.current_token, self.peek_start@)
        &&& tok_at(self.l.text(), self.peek_start@, self.peek_token, self.l.pos())
        &&& self.current_token.wf()
        &&& self.peek_token.wf()
    }

    pub fn new(l: Lexer) -> (p: Parser)
        requires
            l.wf(),
        ensures
            p.wf(),
            p.text() == l.text(),
            p.cur() == l.pos(),
            p.errors_view() == Seq::<String>::empty(),
    {
        let mut lx = l;
        let ghost c0 = lx.pos();
        proof {
            crate::lexer::lemma_lexer_bounds(&lx);
            crate::lexer::lemma_scan_at(lx.text(), c0);
        }
        let current_token = lx.next_token();
        let ghost p0 = lx.pos();
        proof {
            crate::lexer::lemma_lexer_bounds(&lx);
            crate::lexer::lemma_scan_at(lx.text(), p0);
        }
        let peek_token = lx.next_token();
        Parser {
            l: lx,
            current_token,
            peek_token,
            errors: Vec::new(),
            cur_start: Ghost(c0),
            peek_start: Ghost(p0),
        }
    }

    /// Slide the lookahead window one token forward.
    fn next_token(&mut self)
        requires
            old(self).wf(),
        ensures
            final(self).wf(),
            final(self).text() == old(self).text(),
            final(self).errors@ == old(self).errors@,
            final(self).cur() == tok_end(old(self).text(), old(self).cur()),
    {
        proof {
            crate::lexer::lemma_scan_at(self.l.text(), self.peek_start@);
            crate::lexer::lemma_scan_at(self.l.text(), self.l.pos());
        }
        let ghost np = self.l.pos();
        let mut t = self.l.next_token();
        core::mem::swap(&mut self.peek_token, &mut t);
        self.current_token = t;
        proof {
            self.cur_start@ = self.peek_start@;
            self.peek_start@ = np;
        }
    }

    fn current_token_is(&self, t: &TokenType) -> (r: bool)
        ensures
            r == (self.current_token.token_type == *t),
    {
        self.current_token.token_type == *t
    }

    fn peek_token_is(&self, t: &TokenType) -> (r: bool)
        ensures
            r == (self.peek_token.token_type == *t),
    {
        self.peek_token.token_type == *t
    }

    /// If the lookahead has the wanted kind, advance onto it; otherwise
    /// leave the cursor alone and describe the mismatch.
    fn expect_peek(&mut self, t: &TokenType) -> (r: Result<(), String>)
        requires
            old(self).wf(),
        ensures
            final(self).wf(),
            final(self).text() == old(self).text(),
            final(self).errors@ == old(self).errors@,
            ({
                let s = old(self).text();
                let pk = tok_end(s, old(self).cur());
                if tok_kind(s, pk) == *t {
                    r is Ok && final(self).cur() == pk
                } else {
                    (r matches Err(m) && m@ == msg_expected(*t, tok_kind(s, pk)))
                        && final(self).cur() == old(self).cur()
                        && final(self).current_token == old(self).current_token
                }
            }),
    {
        if self.peek_token_is(t) {
            self.next_token();
            Ok(())
        } else {
            Err(expected_error(t, &self.peek_token.token_type))
        }
    }

    /// Parse the whole token stream into a `Program`: every statement that
    /// parses, in source order, and one recorded message for every
    /// statement that does not.
    pub fn parse_program(&mut self) -> (prog: Program)
        requires
            old(self).wf(),
        ensures
            final(self).wf(),
            final(self).text() == old(self).text(),
            prog_wf(prog),
            ({
                let r = sp_parse_program(old(self).text(), old(self).cur());
                &&& prog_view(prog) == r.0
                &&& msgs(final(self).errors_view()) == msgs(old(self).errors_view()) + r.1
            }),
    {
        let ghost s = self.text();
        let ghost c0 = self.cur();
        let ghost e0 = self.errors@;
        let mut prog = Program::new();
        proof {
            assert(prog_view(prog) =~= Seq::<StmtView>::empty());
            assert(prog_view(prog) + sp_parse_program(s, c0).0 =~= sp_parse_program(s, c0).0);
            assert(msgs(e0) + sp_parse_program(s, c0).1 =~= msgs(e0) + sp_parse_program(s, c0).1);
        }
        while !self.current_token_is(&TokenType::EOF)
            invariant
                self.wf(),
                self.text() == s,
                0 <= self.cur() <= s.len(),
                prog_wf(prog),
                prog_view(prog) + sp_parse_program(s, self.cur()).0 == sp_parse_program(s, c0).0,
                msgs(self.errors@) + sp_parse_program(s, self.cur()).1 == msgs(e0)
                    + sp_parse_program(s, c0).1,
            decreases s.len() - self.cur(),
        {
            let ghost i = self.cur();
            proof {
                crate::lexer::lemma_scan_at(s, i);
                lemma_sp_parse_statement(s, i);
            }
            match self.parse_statement() {
                Ok(stmt) => {
                    let ghost j = self.cur();
                    let ghost v = stmt_view(stmt);
                    let ghost pv0 = prog_view(prog);
                    proof {
                        assert(prog.statements@.push(stmt).map_values(
                            |st: Statement| stmt_view(st),
                        ) =~= pv0.push(v));
                    }
                    prog.statements.push(stmt);
                    proof {
                        let rest = sp_parse_program(s, tok_end(s, j));
                        assert(pv0.push(v) + rest.0 =~= pv0 + (seq![v] + rest.0));
                    }
                },
                Err(e) => {
                    let ghost j = self.cur();
                    let ghost m0 = msgs(self.errors@);
                    proof {
                        assert(msgs(self.errors@.push(e)) =~= m0.push(e@));
                        lemma_sp_skip_to_semi(s, j);
                    }
                    self.errors.push(e);
                    let ghost em = e@;
                    let ghost epushed = self.errors@;
                    let ghost pv = prog.statements@;
                    while !(self.current_token_is(&TokenType::Semicolon) || self.current_token_is(
                        &TokenType::EOF,
                    ))
                        invariant
                            self.wf(),
                            self.text() == s,
                            0 <= j <= self.cur() <= s.len(),
                            self.errors@ == epushed,
                            prog.statements@ == pv,
                            sp_skip_to_semi(s, self.cur()) == sp_skip_to_semi(s, j),
                        decreases s.len() - self.cur(),
                    {
                        proof {
                            crate::lexer::lemma_scan_at(s, self.cur());
                        }
                        self.next_token();
                    }
                    proof {
                        let j2 = sp_skip_to_semi(s, j);
                        assert(self.cur() == j2);
                        if tok_kind(s, j2) == TokenType::EOF {
                            crate::lexer::lemma_scan_at(s, j2);
                            assert(tok_end(s, j2) == s.len());
                            assert(crate::lexer::ws_end(s, s.len() as int) == s.len());
                            assert(tok_kind(s, s.len() as int) == TokenType::EOF);
                            assert(m0.push(em) + sp_parse_program(s, tok_end(s, j2)).1 =~= m0
                                + seq![em]);
                        } else {
                            let rest = sp_parse_program(s, tok_end(s, j2));
                            assert(m0.push(em) + rest.1 =~= m0 + (seq![em] + rest.1));
                        }
                    }
                },
            }
            proof {
                crate::lexer::lemma_scan_at(s, self.cur());
            }
            self.next_token();
        }
        proof {
            assert(sp_parse_program(s, self.cur()).0 =~= Seq::<StmtView>::empty());
            assert(prog_view(prog) + Seq::<StmtView>::empty() =~= prog_view(prog));
            assert(msgs(self.errors@) + Seq::<Seq<char>>::empty() =~= msgs(self.errors@));
        }
        prog
    }

    /// Parse one statement, dispatching on the current token kind.
    fn parse_statement(&mut self) -> (r: Result<Statement, String>)
        requires
            old(self).wf(),
            tok_kind(old(self).text(), old(self).cur()) != TokenType::EOF,
        ensures
            final(self).wf(),
            final(self).text() == old(self).text(),
            final(self).errors@ == old(self).errors@,
            ({
                let step = sp_parse_statement(old(self).text(), old(self).cur());
                &&& final(self).cur() == step.1
                &&& match (r, step.0) {
                    (Ok(st), Ok(v)) => stmt_view(st) == v && stmt_wf(st),
                    (Err(m), Err(sm)) => m@ == sm,
                    _ => false,
                }
            }),
    {
        if self.current_token_is(&TokenType::Let) {
            self.parse_let_statement()
        } else if self.current_token_is(&TokenType::Return) {
            self.parse_return_statement()
        } else {
            self.parse_expression_statment()
        }
    }

    /// Parse `let <name> = <expression> ;`.
    fn parse_let_statement(&mut self) -> (r: Result<Statement, String>)
        requires
            old(self).wf(),
            tok_kind(old(self).text(), old(self).cur()) == TokenType::Let,
        ensures
            final(self).wf(),
            final(self).text() == old(self).text(),
            final(self).errors@ == old(self).errors@,
            ({
                let step = sp_parse_let(old(self).text(), old(self).cur());
                &&& final(self).cur() == step.1
                &&& match (r, step.0) {
                    (Ok(st), Ok(v)) => stmt_view(st) == v && stmt_wf(st),
                    (Err(m), Err(sm)) => m@ == sm,
                    _ => false,
                }
            }),
    {
        let let_token = self.current_token.duplicate();
        if let Err(m) = self.expect_peek(&TokenType::Identifier) {
            return Err(m);
        }
        let name = Identifier { token: self.current_token.duplicate() };
        if let Err(m) = self.expect_peek(&TokenType::Assign) {
            return Err(m);
        }
        self.next_token();
        let value = match self.parse_expression(Precedence::Lowest) {
            Ok(v) => v,
            Err(m) => {
                return Err(m);
            },
        };
        if let Err(m) = self.expect_peek(&TokenType::Semicolon) {
            return Err(m);
        }
        Ok(Statement::Let { token: let_token, name, value: Some(value) })
    }

    /// Parse `return <expression> ;`.
    fn parse_return_statement(&mut self) -> (r: Result<Statement, String>)
        requires
            old(self).wf(),
            tok_kind(old(self).text(), old(self).cur()) == TokenType::Return,
        ensures
            final(self).wf(),
            final(self).text() == old(self).text(),
            final(self).errors@ == old(self).errors@,
            ({
                let step = sp_parse_return(old(self).text(), old(self).cur());
                &&& final(self).cur() == step.1
                &&& match (r, step.0) {
                    (Ok(st), Ok(v)) => stmt_view(st) == v && stmt_wf(st),
                    (Err(m), Err(sm)) => m@ == sm,
                    _ => false,
                }
            }),
    {
        let token = self.current_token.duplicate();
        self.next_token();
        let value = match self.parse_expression(Precedence::Lowest) {
            Ok(v) => v,
            Err(m) => {
                return Err(m);
            },
        };
        if let Err(m) = self.expect_peek(&TokenType::Semicolon) {
            return Err(m);
        }
        Ok(Statement::Return { token, value: Some(value) })
    }

    /// Parse a bare expression as a statement; a trailing `;` is consumed
    /// when present but not required.
    fn parse_expression_statment(&mut self) -> (r: Result<Statement, String>)
        requires
            old(self).wf(),
            tok_kind(old(self).text(), old(self).cur()) != TokenType::Let,
            tok_kind(old(self).text(), old(self).cur()) != TokenType::Return,
        ensures
            final(self).wf(),
            final(self).text() == old(self).text(),
            final(self).errors@ == old(self).errors@,
            ({
                let step = sp_parse_expression_statement(old(self).text(), old(self).cur());
                &&& final(self).cur() == step.1
                &&& match (r, step.0) {
                    (Ok(st), Ok(v)) => stmt_view(st) == v && stmt_wf(st),
                    (Err(m), Err(sm)) => m@ == sm,
                    _ => false,
                }
            }),
    {
        let token = self.current_token.duplicate();
        let value = match self.parse_expression(Precedence::Lowest) {
            Ok(v) => v,
            Err(m) => {
                return Err(m);
            },
        };
        if self.peek_token_is(&TokenType::Semicolon) {
            self.next_token();
        }
        Ok(Statement::Expression { token, value })
    }

    /// Parse one expression at or above the given binding strength. The
    /// present expression forms register no infix rule, so the climb ends
    /// with the prefix-parsed node.
    fn parse_expression(&mut self, _precedence: Precedence) -> (r: Result<Expression, String>)
        requires
            old(self).wf(),
        ensures
            final(self).wf(),
            final(self).text() == old(self).text(),
            final(self).errors@ == old(self).errors@,
            ({
                let step = sp_parse_expression(old(self).text(), old(self).cur());
                &&& final(self).cur() == step.1
                &&& match (r, step.0) {
                    (Ok(e), Ok(v)) => expr_view(e) == v && expr_wf(e) && expr_token(e)
                        == old(self).current_token,
                    (Err(m), Err(sm)) => m@ == sm,
                    _ => false,
                }
            }),
        decreases old(self).text().len() - old(self).cur(), 1int,
    {
        if self.current_token_is(&TokenType::Identifier) {
            self.parse_identifier()
        } else if self.current_token_is(&TokenType::Integer) {
            self.parse_integer_literal()
        } else if self.current_token_is(&TokenType::Bang) || self.current_token_is(
            &TokenType::Minus,
        ) {
            self.parse_prefix_expression()
        } else {
            Err(no_prefix_error(&self.current_token.token_type))
        }
    }

    /// Produce an identifier node from the current token.
    fn parse_identifier(&mut self) -> (r: Result<Expression, String>)
        requires
            old(self).wf(),
            tok_kind(old(self).text(), old(self).cur()) == TokenType::Identifier,
        ensures
            final(self).wf(),
            final(self).text() == old(self).text(),
            final(self).errors@ == old(self).errors@,
            final(self).cur() == old(self).cur(),
            ({
                let step = sp_parse_expression(old(self).text(), old(self).cur());
                r matches Ok(e) && step.0 matches Ok(v) && expr_view(e) == v && expr_wf(e)
                    && expr_token(e) == old(self).current_token
            }),
    {
        Ok(Expression::Identifier(Identifier { token: self.current_token.duplicate() }))
    }

    /// Produce an integer literal node from the current token; literal text
    /// that is not a plain base-10 numeral with a 64-bit value is a parse
    /// error, never a panic.
    fn parse_integer_literal(&mut self) -> (r: Result<Expression, String>)
        requires
            old(self).wf(),
            tok_kind(old(self).text(), old(self).cur()) == TokenType::Integer,
        ensures
            final(self).wf(),
            final(self).text() == old(self).text(),
            final(self).errors@ == old(self).errors@,
            final(self).cur() == old(self).cur(),
            ({
                let step = sp_parse_expression(old(self).text(), old(self).cur());
                match (r, step.0) {
                    (Ok(e), Ok(v)) => expr_view(e) == v && expr_wf(e) && expr_token(e)
                        == old(self).current_token,
                    (Err(m), Err(sm)) => m@ == sm,
                    _ => false,
                }
            }),
    {
        let token = self.current_token.duplicate();
        let parsed = match &token.literal {
            Some(lit) => parse_i64_decimal(lit.as_str()),
            None => vstd::pervasive::unreached(),
        };
        match parsed {
            Some(value) => Ok(Expression::IntegerLiteral(IntegerLiteral { token, value })),
            None => Err(String::from_str("invalid integer")),
        }
    }

    /// Parse `!` or `-` applied to the expression that follows it.
    fn parse_prefix_expression(&mut self) -> (r: Result<Expression, String>)
        requires
            old(self).wf(),
            tok_kind(old(self).text(), old(self).cur()) == TokenType::Bang || tok_kind(
                old(self).text(),
                old(self).cur(),
            ) == TokenType::Minus,
        ensures
            final(self).wf(),
            final(self).text() == old(self).text(),
            final(self).errors@ == old(self).errors@,
            ({
                let step = sp_parse_expression(old(self).text(), old(self).cur());
                &&& final(self).cur() == step.1
                &&& match (r, step.0) {
                    (Ok(e), Ok(v)) => expr_view(e) == v && expr_wf(e) && expr_token(e)
                        == old(self).current_token,
                    (Err(m), Err(sm)) => m@ == sm,
                    _ => false,
                }
            }),
        decreases old(self).text().len() - old(self).cur(), 0int,
    {
        proof {
            crate::lexer::lemma_scan_at(old(self).text(), old(self).cur());
        }
        let token = self.current_token.duplicate();
        self.next_token();
        match self.parse_expression(Precedence::Prefix) {
            Ok(right) => Ok(
                Expression::PrefixExpression(
                    PrefixExpression { token, right: Box::new(right) },
                ),
            ),
            Err(m) => Err(m),
        }
    }
}

/// Build the message for a missing expected token kind.
fn expected_error(expected: &TokenType, got: &TokenType) -> (s: String)
    ensures
        s@ == msg_expected(*expected, *got),
{
    let mut out = String::from_str("expected ");
    out.append(expected.kind_name().as_str());
    out.append(", got ");
    out.append(got.kind_name().as_str());
    out
}

/// Build the message for a token kind no expression can begin with.
fn no_prefix_error(k: &TokenType) -> (s: String)
    ensures
        s@ == msg_no_prefix(*k),
{
    let mut out = String::from_str("no prefix parse function for ");
    out.append(k.kind_name().as_str());
    out
}


/// A word that scans back as one identifier: nonempty, beginning with a
/// letter or underscore, made of identifier characters, and not a keyword.
pub open spec fn plain_word(w: Seq<char>) -> bool {
    &&& w.len() > 0
    &&& crate::lexer::is_letter_char(w[0])
    &&& forall|k: int| 0 <= k < w.len() ==> crate::lexer::is_ident_char(#[trigger] w[k])
    &&& crate::lexer::keyword_kind(w) == TokenType::Identifier
}

/// An expression whose rendering scans back as the one token it came from:
/// an identifier with a plain word, or an integer literal whose text is a
/// plain numeral for its value. A rendered prefix expression is
/// parenthesized, and the expression grammar has no grouping rule to read
/// that back, so it is not plain.
pub open spec fn expr_plain(e: Expression) -> bool {
    match e {
        Expression::Identifier(id) => plain_word(crate::ast::token_lit_text(id.token)),
        Expression::IntegerLiteral(il) => {
            let t = crate::ast::token_lit_text(il.token);
            is_dec_digits(t) && digits_val(t) <= i64::MAX as int && il.value as int
                == digits_val(t)
        },
        Expression::PrefixExpression(_) => false,
    }
}

/// A statement whose rendering reads back: its name is a plain word and its
/// expressions are plain.
pub open spec fn stmt_plain(st: Statement) -> bool {
    match st {
        Statement::Let { name, value, .. } => plain_word(crate::ast::token_lit_text(name.token))
            && (value matches Some(v) && expr_plain(v)),
        Statement::Return { value, .. } => value matches Some(v) && expr_plain(v),
        Statement::Expression { value, .. } => expr_plain(value),
    }
}

/// A plain expression lying at `b` in `s`, scanned from `i` across
/// whitespace, reads back as exactly the one token it renders to, and an
/// expression parse from `i` returns its view with the cursor resting on it.
proof fn lemma_scan_plain_expr(s: Seq<char>, i: int, b: int, e: Expression)
    requires
        expr_wf(e),
        expr_plain(e),
        0 <= i <= b,
        b + crate::ast::expr_text(e).len() <= s.len(),
        forall|k: int| i <= k < b ==> crate::lexer::is_ws_char(#[trigger] s[k]),
        forall|k: int|
            0 <= k < crate::ast::expr_text(e).len() ==> #[trigger] crate::ast::expr_text(e)[k]
                == s[b + k],
        b + crate::ast::expr_text(e).len() < s.len() ==> (!crate::lexer::is_ident_char(
            s[b + crate::ast::expr_text(e).len()],
        ) && !crate::lexer::is_number_char(s[b + crate::ast::expr_text(e).len()])),
    ensures
        tok_end(s, i) == b + crate::ast::expr_text(e).len(),
        tok_kind(s, i) == TokenType::Identifier || tok_kind(s, i) == TokenType::Integer,
        sp_parse_expression(s, i) == (Result::<ExprView, Seq<char>>::Ok(expr_view(e)), i),
{
    match e {
        Expression::Identifier(id) => {
            let w = crate::ast::token_lit_text(id.token);
            assert(crate::ast::expr_text(e) == w);
            crate::lexer::lemma_scan_word(s, i, b, w);
        },
        Expression::IntegerLiteral(il) => {
            let w = crate::ast::token_lit_text(il.token);
            assert(crate::ast::expr_text(e) == w);
            assert(crate::lexer::is_digit_char(w[0]));
            assert(forall|k: int|
                0 <= k < w.len() ==> crate::lexer::is_number_char(#[trigger] w[k]));
            crate::lexer::lemma_scan_number(s, i, b, w);
        },
        Expression::PrefixExpression(_) => {
            assert(false);
        },
    }
}

/// Round trip for the plain subset: rendering a well-formed `let`, `return`
/// or expression statement over plain identifiers and integer literals, and
/// re-parsing that canonical text, yields exactly that statement and no
/// errors.
pub proof fn lemma_statement_round_trip(st: Statement)
    requires
        stmt_wf(st),
        stmt_plain(st),
    ensures
        sp_parse_program(crate::ast::stmt_text(st), 0).0 == seq![stmt_view(st)],
        sp_parse_program(crate::ast::stmt_text(st), 0).1 == Seq::<Seq<char>>::empty(),
{
    match st {
        Statement::Expression { .. } => lemma_round_trip_expr_stmt(st),
        Statement::Return { .. } => lemma_round_trip_return(st),
        Statement::Let { .. } => lemma_round_trip_let(st),
    }
}

proof fn lemma_round_trip_expr_stmt(st: Statement)
    requires
        stmt_wf(st),
        stmt_plain(st),
        st matches Statement::Expression { .. },
    ensures
        sp_parse_program(crate::ast::stmt_text(st), 0).0 == seq![stmt_view(st)],
        sp_parse_program(crate::ast::stmt_text(st), 0).1 == Seq::<Seq<char>>::empty(),
{
    let s = crate::ast::stmt_text(st);
    match st {
        Statement::Expression { value, .. } => {
            let vt = crate::ast::expr_text(value);
            let vl = vt.len() as int;
            assert(s == vt);
            lemma_scan_plain_expr(s, 0, 0, value);
            crate::lexer::lemma_scan_eof(s, vl);
            assert(sp_parse_statement(s, 0) == (
                Result::<StmtView, Seq<char>>::Ok(StmtView::ExprStmt { value: expr_view(value) }),
                0int,
            ));
            assert(tok_end(s, 0int) == vl);
            assert(sp_parse_program(s, vl) == (
                Seq::<StmtView>::empty(),
                Seq::<Seq<char>>::empty(),
            ));
            assert(sp_parse_program(s, 0).0 =~= seq![stmt_view(st)]);
            assert(sp_parse_program(s, 0).1 =~= Seq::<Seq<char>>::empty());
        },
        _ => {},
    }
}

proof fn lemma_round_trip_return(st: Statement)
    requires
        stmt_wf(st),
        stmt_plain(st),
        st matches Statement::Return { .. },
    ensures
        sp_parse_program(crate::ast::stmt_text(st), 0).0 == seq![stmt_view(st)],
        sp_parse_program(crate::ast::stmt_text(st), 0).1 == Seq::<Seq<char>>::empty(),
{
    let s = crate::ast::stmt_text(st);
    reveal_strlit("return ");
    reveal_strlit(";");
    reveal_strlit("let");
    reveal_strlit("fn");
    reveal_strlit("true");
    reveal_strlit("false");
    reveal_strlit("if");
    reveal_strlit("else");
    reveal_strlit("return");
    match st {
        Statement::Return { value, .. } => {
            let v = value.unwrap();
            let vt = crate::ast::expr_text(v);
            let vl = vt.len() as int;
            assert(s == "return "@ + vt + ";"@);
            assert(s.len() == 8 + vl);
            assert forall|k: int| 0 <= k < 7 implies s[k] == "return "@[k] by {
                assert(("return "@ + vt)[k] == "return "@[k]);
            };
            assert forall|k: int| 0 <= k < vl implies #[trigger] vt[k] == s[7 + k] by {
                assert(("return "@ + vt)[7 + k] == vt[k]);
            };
            assert(s[7 + vl] == ";"@[0]);
            // the word `return` at the front
            assert forall|k: int| 0 <= k < 6 implies crate::lexer::is_ident_char(
                #[trigger] ("return"@)[k],
            ) by {
                assert(("return"@)[k] == s[k]);
            };
            assert forall|k: int| 0 <= k < 6 implies #[trigger] ("return"@)[k] == s[0 + k] by {
                assert(("return"@)[k] == ("return "@)[k]);
            };
            assert(!crate::lexer::is_ident_char(s[6]));
            crate::lexer::lemma_scan_word(s, 0, 0, "return"@);
            assert(crate::lexer::keyword_kind("return"@) == TokenType::Return);
            assert(tok_kind(s, 0) == TokenType::Return);
            assert(tok_end(s, 0) == 6);
            // the value after the one space
            lemma_scan_plain_expr(s, 6, 7, v);
            assert(tok_end(s, 6) == 7 + vl);
            // the closing semicolon, then the end
            crate::lexer::lemma_scan_semi(s, 7 + vl, 7 + vl);
            assert(tok_kind(s, 7 + vl) == TokenType::Semicolon);
            assert(tok_end(s, 7 + vl) == 8 + vl);
            crate::lexer::lemma_scan_eof(s, 8 + vl);
            assert(sp_parse_return(s, 0) == (
                Result::<StmtView, Seq<char>>::Ok(
                    StmtView::ReturnStmt { value: Some(expr_view(v)) },
                ),
                7 + vl,
            ));
            assert(sp_parse_statement(s, 0) == sp_parse_return(s, 0));
            assert(sp_parse_program(s, 8 + vl) == (
                Seq::<StmtView>::empty(),
                Seq::<Seq<char>>::empty(),
            ));
            assert(sp_parse_program(s, 0).0 =~= seq![stmt_view(st)]);
            assert(sp_parse_program(s, 0).1 =~= Seq::<Seq<char>>::empty());
        },
        _ => {},
    }
}

#[verifier::rlimit(50)]
proof fn lemma_round_trip_let(st: Statement)
    requires
        stmt_wf(st),
        stmt_plain(st),
        st matches Statement::Let { .. },
    ensures
        sp_parse_program(crate::ast::stmt_text(st), 0).0 == seq![stmt_view(st)],
        sp_parse_program(crate::ast::stmt_text(st), 0).1 == Seq::<Seq<char>>::empty(),
{
    let s = crate::ast::stmt_text(st);
    reveal_strlit("let ");
    reveal_strlit(" = ");
    reveal_strlit(";");
    reveal_strlit("let");
    reveal_strlit("fn");
    reveal_strlit("true");
    reveal_strlit("false");
    reveal_strlit("if");
    reveal_strlit("else");
    reveal_strlit("return");
    match st {
        Statement::Let { name, value, .. } => {
            let v = value.unwrap();
            let n = crate::ast::token_lit_text(name.token);
            let nl = n.len() as int;
            let vt = crate::ast::expr_text(v);
            let vl = vt.len() as int;
            assert(s == "let "@ + n + " = "@ + vt + ";"@);
            assert(s.len() == 8 + nl + vl);
            let pre = "let "@ + n + " = "@ + vt;
            assert forall|k: int| 0 <= k < 4 implies s[k] == "let "@[k] by {
                assert(pre[k] == (("let "@ + n) + " = "@)[k]);
                assert((("let "@ + n) + " = "@)[k] == ("let "@ + n)[k]);
                assert(("let "@ + n)[k] == "let "@[k]);
            };
            assert forall|k: int| 0 <= k < nl implies #[trigger] n[k] == s[4 + k] by {
                assert(pre[4 + k] == (("let "@ + n) + " = "@)[4 + k]);
                assert((("let "@ + n) + " = "@)[4 + k] == ("let "@ + n)[4 + k]);
                assert(("let "@ + n)[4 + k] == n[k]);
            };
            assert forall|k: int| 0 <= k < 3 implies s[4 + nl + k] == " = "@[k] by {
                assert(pre[4 + nl + k] == (("let "@ + n) + " = "@)[4 + nl + k]);
                assert((("let "@ + n) + " = "@)[4 + nl + k] == " = "@[k]);
            };
            assert forall|k: int| 0 <= k < vl implies #[trigger] vt[k] == s[7 + nl + k] by {
                assert(pre[7 + nl + k] == vt[k]);
            };
            assert(s[7 + nl + vl] == ";"@[0]);
            // the keyword `let` at the front
            assert forall|k: int| 0 <= k < 3 implies crate::lexer::is_ident_char(
                #[trigger] ("let"@)[k],
            ) by {
                assert(("let"@)[k] == ("let "@)[k]);
            };
            assert forall|k: int| 0 <= k < 3 implies #[trigger] ("let"@)[k] == s[0 + k] by {
                assert(("let"@)[k] == ("let "@)[k]);
            };
            assert(s[3] == ' ');
            crate::lexer::lemma_scan_word(s, 0, 0, "let"@);
            assert(crate::lexer::keyword_kind("let"@) == TokenType::Let);
            assert(tok_kind(s, 0) == TokenType::Let);
            assert(tok_end(s, 0) == 3);
            // the bound name after one space
            assert(s[4 + nl] == ' ');
            assert(!crate::lexer::is_ident_char(s[4 + nl]));
            crate::lexer::lemma_scan_word(s, 3, 4, n);
            assert(tok_kind(s, 3) == TokenType::Identifier);
            assert(tok_lit(s, 3) == Some(n));
            assert(tok_end(s, 3) == 4 + nl);
            // the `=` between its two spaces
            assert(s[5 + nl] == '=');
            assert(s[6 + nl] == ' ');
            crate::lexer::lemma_scan_assign(s, 4 + nl, 5 + nl);
            assert(tok_kind(s, 4 + nl) == TokenType::Assign);
            assert(tok_end(s, 4 + nl) == 6 + nl);
            // the bound value after the second space
            lemma_scan_plain_expr(s, 6 + nl, 7 + nl, v);
            assert(tok_end(s, 6 + nl) == 7 + nl + vl);
            // the closing semicolon, then the end
            crate::lexer::lemma_scan_semi(s, 7 + nl + vl, 7 + nl + vl);
            assert(tok_kind(s, 7 + nl + vl) == TokenType::Semicolon);
            assert(tok_end(s, 7 + nl + vl) == 8 + nl + vl);
            crate::lexer::lemma_scan_eof(s, 8 + nl + vl);
            assert(sp_parse_let(s, 0) == (
                Result::<StmtView, Seq<char>>::Ok(
                    StmtView::LetStmt { name: n, value: Some(expr_view(v)) },
                ),
                7 + nl + vl,
            ));
            assert(sp_parse_statement(s, 0) == sp_parse_let(s, 0));
            assert(sp_parse_program(s, 8 + nl + vl) == (
                Seq::<StmtView>::empty(),
                Seq::<Seq<char>>::empty(),
            ));
            assert(sp_parse_program(s, 0).0 =~= seq![stmt_view(st)]);
            assert(sp_parse_program(s, 0).1 =~= Seq::<Seq<char>>::empty());
        },
        _ => {},
    }
}


} // verus!
