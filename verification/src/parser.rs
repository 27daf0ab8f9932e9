//! Precedence-climbing (Pratt) parser: consumes the lexer's token stream
//! through a two-token lookahead window, builds AST nodes bottom-up, and
//! accumulates diagnostic messages without ever aborting.

use vstd::prelude::*;
use vstd::string::StringExecFns;
use vstd::string::StrSliceExecFns;
use vstd::arithmetic::div_mod::lemma_fundamental_div_mod;

use crate::ast::{
    opt_expr_view, opt_stmt_view, stmt_view, ExprView, Expression, Node, NodeView, Statement,
    StmtView,
};
use crate::lexer::{token_diag, token_text, tokens_from, Lexer, Token, TokenView};

verus! {

// Binding-power tiers, low to high.
const LOWEST: usize = 1;

const EQUALS: usize = 2;

const LESSGREATER: usize = 3;

const SUM: usize = 4;

const PRODUCT: usize = 5;

const PREFIX: usize = 6;

const CALL: usize = 7;

/// The binding power of a token when it appears between two expressions.
/// Tokens with no infix role sit at the lowest tier.
pub open spec fn prec_of(t: TokenView) -> int {
    match t {
        TokenView::Eq | TokenView::Neq => 2,
        TokenView::Lt | TokenView::Gt => 3,
        TokenView::Plus | TokenView::Minus => 4,
        TokenView::Slash | TokenView::Asterisk => 5,
        TokenView::Lparen => 7,
        _ => 1,
    }
}

/// Tokens that may begin an expression.
pub open spec fn is_prefix_tok(t: TokenView) -> bool {
    match t {
        TokenView::Ident(_) | TokenView::Int(_) | TokenView::Bang | TokenView::Minus => true,
        _ => false,
    }
}

/// Tokens that may join two expressions.
pub open spec fn is_infix_tok(t: TokenView) -> bool {
    match t {
        TokenView::Plus | TokenView::Minus | TokenView::Slash | TokenView::Asterisk
        | TokenView::Eq | TokenView::Neq | TokenView::Lt | TokenView::Gt => true,
        _ => false,
    }
}

/// The token at a stream position; positions past the end read as the
/// end-of-input token, which the stream itself also ends with.
pub open spec fn tok_at(toks: Seq<TokenView>, i: int) -> TokenView {
    if 0 <= i < toks.len() {
        toks[i]
    } else {
        TokenView::Eof
    }
}

/// Tokens left at or after position `i`; the measure that parsing consumes.
pub open spec fn rem(toks: Seq<TokenView>, i: int) -> int {
    if i <= toks.len() {
        toks.len() - i
    } else {
        0
    }
}

/// The diagnostic recorded when the token after the current one is not the
/// expected one; both tokens are spelled by category name with their carried
/// text quoted.
pub open spec fn expected_msg(expected: TokenView, got: TokenView) -> Seq<char> {
    "expected next token to be "@ + token_diag(expected) + ", got "@ + token_diag(got)
        + " instead"@
}

/// The diagnostic recorded when no rule can begin an expression at the
/// current token.
pub open spec fn no_prefix_msg(t: TokenView) -> Seq<char> {
    "no prefix parse function for "@ + token_text(t)
}

/// The diagnostic recorded when an integer literal does not fit the value
/// type.
pub open spec fn bad_int_msg(text: Seq<char>) -> Seq<char> {
    "could not parse "@ + text + " as integer"@
}

pub open spec fn is_digit_char(c: char) -> bool {
    48 <= c as u32 <= 57
}

pub open spec fn digit_val(c: char) -> int {
    c as u32 - 48
}

pub open spec fn all_digits(text: Seq<char>) -> bool {
    forall|i: int| 0 <= i < text.len() ==> is_digit_char(text[i])
}

/// The number a digit string denotes, most significant digit first.
pub open spec fn digits_val(text: Seq<char>) -> int
    decreases text.len(),
{
    if text.len() == 0 {
        0
    } else {
        digits_val(text.drop_last()) * 10 + digit_val(text.last())
    }
}

/// The value of an integer literal's text: defined exactly when the text is
/// a nonempty digit string whose value fits a signed 64-bit integer.
pub open spec fn spec_parse_int(text: Seq<char>) -> Option<i64> {
    if text.len() == 0 {
        Option::None
    } else if !all_digits(text) {
        Option::None
    } else if digits_val(text) <= i64::MAX {
        Option::Some(digits_val(text) as i64)
    } else {
        Option::None
    }
}

/// What one parsing step produces: the node built (if any), how many tokens
/// the cursor advanced, and the diagnostics recorded, in order.
pub struct ParseOut {
    pub out: Option<Box<ExprView>>,
    pub adv: nat,
    pub errs: Seq<Seq<char>>,
}

/// Like `ParseOut`, for one statement.
pub struct StmtOut {
    pub out: Option<StmtView>,
    pub adv: nat,
    pub errs: Seq<Seq<char>>,
}

/// What parsing a whole program produces.
pub struct ProgOut {
    pub stmts: Seq<StmtView>,
    pub errs: Seq<Seq<char>>,
}

/// The prefix rule for the current token: identifiers and integer literals
/// become leaf nodes; bang and minus take their operand at the prefix tier.
/// An integer whose text does not denote a 64-bit value yields a diagnostic
/// instead of a node.
pub open spec fn sp_parse_prefix(toks: Seq<TokenView>, i: int) -> ParseOut
    decreases rem(toks, i), 0int,
{
    match tok_at(toks, i) {
        TokenView::Ident(name) => ParseOut {
            out: Option::Some(Box::new(ExprView::Identifier(TokenView::Ident(name)))),
            adv: 0,
            errs: Seq::empty(),
        },
        TokenView::Int(text) => match spec_parse_int(text) {
            Option::Some(v) => ParseOut {
                out: Option::Some(Box::new(ExprView::IntegerLiteral(TokenView::Int(text), v))),
                adv: 0,
                errs: Seq::empty(),
            },
            Option::None => ParseOut { out: Option::None, adv: 0, errs: seq![bad_int_msg(text)] },
        },
        TokenView::Bang | TokenView::Minus => {
            let op = tok_at(toks, i);
            let r = sp_parse_expr(toks, i + 1, 6);
            ParseOut {
                out: Option::Some(Box::new(ExprView::Prefix(op, r.out))),
                adv: 1 + r.adv,
                errs: r.errs,
            }
        },
        _ => ParseOut { out: Option::None, adv: 0, errs: Seq::empty() },
    }
}

/// The infix rule for the operator at the current token: it folds `left`
/// into a new infix node whose right side is parsed at the operator's own
/// binding power, which makes equal-power chains left-associative.
pub open spec fn sp_parse_infix(toks: Seq<TokenView>, i: int, left: Option<Box<ExprView>>) -> ParseOut
    decreases rem(toks, i), 3int,
{
    if is_infix_tok(tok_at(toks, i)) {
        let op = tok_at(toks, i);
        let r = sp_parse_expr(toks, i + 1, prec_of(op));
        ParseOut {
            out: Option::Some(Box::new(ExprView::Infix(left, op, r.out))),
            adv: 1 + r.adv,
            errs: r.errs,
        }
    } else {
        ParseOut { out: Option::None, adv: 0, errs: Seq::empty() }
    }
}

/// The folding loop of expression parsing, seen from position `i` with
/// `left` already built: while the next token binds tighter than `prec` and
/// is not a semicolon, fold `left` through its infix rule.
pub open spec fn sp_infix_loop(
    toks: Seq<TokenView>,
    i: int,
    prec: int,
    left: Option<Box<ExprView>>,
) -> ParseOut
    decreases rem(toks, i), 1int,
{
    let peek = tok_at(toks, i + 1);
    if peek != TokenView::Semicolon && prec < prec_of(peek) {
        if !is_infix_tok(peek) {
            ParseOut { out: left, adv: 0, errs: Seq::empty() }
        } else {
            let r = sp_parse_infix(toks, i + 1, left);
            let rest = sp_infix_loop(toks, i + 1 + r.adv, prec, r.out);
            ParseOut { out: rest.out, adv: 1 + r.adv + rest.adv, errs: r.errs + rest.errs }
        }
    } else {
        ParseOut { out: left, adv: 0, errs: Seq::empty() }
    }
}

/// Expression parsing at binding power `prec`, starting at position `i`.
/// A token with no prefix rule yields a diagnostic and no node; otherwise
/// the prefix rule builds the seed and the folding loop extends it.
pub open spec fn sp_parse_expr(toks: Seq<TokenView>, i: int, prec: int) -> ParseOut
    decreases rem(toks, i), 2int,
{
    if !is_prefix_tok(tok_at(toks, i)) {
        ParseOut { out: Option::None, adv: 0, errs: seq![no_prefix_msg(tok_at(toks, i))] }
    } else {
        let p = sp_parse_prefix(toks, i);
        let l = sp_infix_loop(toks, i + p.adv, prec, p.out);
        ParseOut { out: l.out, adv: p.adv + l.adv, errs: p.errs + l.errs }
    }
}

/// Steps from position `i` up to the next semicolon or the end of input.
pub open spec fn sp_scan_to_semi(toks: Seq<TokenView>, i: int) -> nat
    decreases rem(toks, i),
{
    let t = tok_at(toks, i);
    if t == TokenView::Semicolon || t == TokenView::Eof {
        0
    } else {
        1 + sp_scan_to_semi(toks, i + 1)
    }
}

/// A let statement: the keyword must be followed by an identifier and then
/// an assign token, else a diagnostic is recorded and no node is built; on
/// success the cursor skips ahead to the statement's semicolon.
pub open spec fn sp_parse_let(toks: Seq<TokenView>, i: int) -> StmtOut {
    let kw = tok_at(toks, i);
    let peek = tok_at(toks, i + 1);
    if !(peek matches TokenView::Ident(_)) {
        StmtOut {
            out: Option::None,
            adv: 0,
            errs: seq![expected_msg(TokenView::Ident("identifier"@), peek)],
        }
    } else {
        let after = tok_at(toks, i + 2);
        if after != TokenView::Assign {
            StmtOut { out: Option::None, adv: 1, errs: seq![expected_msg(TokenView::Assign, after)] }
        } else {
            StmtOut {
                out: Option::Some(StmtView::Let(kw, peek, Option::None)),
                adv: 1 + sp_scan_to_semi(toks, i + 1),
                errs: Seq::empty(),
            }
        }
    }
}

/// A return statement: the cursor skips ahead to the statement's semicolon.
pub open spec fn sp_parse_return(toks: Seq<TokenView>, i: int) -> StmtOut {
    let kw = tok_at(toks, i);
    StmtOut {
        out: Option::Some(StmtView::Return(kw, Option::None)),
        adv: 1 + sp_scan_to_semi(toks, i + 1),
        errs: Seq::empty(),
    }
}

/// An expression statement: the expression is parsed at the lowest tier and
/// one trailing semicolon, if present, is consumed.
pub open spec fn sp_parse_expr_stmt(toks: Seq<TokenView>, i: int) -> StmtOut {
    let t = tok_at(toks, i);
    let e = sp_parse_expr(toks, i, 1);
    let semi: nat = if tok_at(toks, i + e.adv + 1) == TokenView::Semicolon {
        1
    } else {
        0
    };
    StmtOut { out: Option::Some(StmtView::Expression(t, e.out)), adv: e.adv + semi, errs: e.errs }
}

/// Statement dispatch on the current token.
pub open spec fn sp_parse_stmt(toks: Seq<TokenView>, i: int) -> StmtOut {
    match tok_at(toks, i) {
        TokenView::Let => sp_parse_let(toks, i),
        TokenView::Return => sp_parse_return(toks, i),
        _ => sp_parse_expr_stmt(toks, i),
    }
}

/// A whole program: one statement per iteration until the end-of-input
/// token, each followed by one advance; failed statements contribute their
/// diagnostics but no node.
pub open spec fn sp_parse_program(toks: Seq<TokenView>, i: int) -> ProgOut
    decreases rem(toks, i),
{
    if tok_at(toks, i) == TokenView::Eof {
        ProgOut { stmts: Seq::empty(), errs: Seq::empty() }
    } else {
        let s = sp_parse_stmt(toks, i);
        let rest = sp_parse_program(toks, i + s.adv + 1);
        let first: Seq<StmtView> = match s.out {
            Option::Some(st) => seq![st],
            Option::None => Seq::empty(),
        };
        ProgOut { stmts: first + rest.stmts, errs: s.errs + rest.errs }
    }
}


proof fn lemma_digits_val_nonneg(t: Seq<char>)
    requires
        all_digits(t),
    ensures
        digits_val(t) >= 0,
    decreases t.len(),
{
    if t.len() > 0 {
        assert(all_digits(t.drop_last()));
        lemma_digits_val_nonneg(t.drop_last());
    }
}

/// Reading more digits can only grow the value.
proof fn lemma_digits_val_prefix_le(t: Seq<char>, j: int)
    requires
        all_digits(t),
        0 <= j <= t.len(),
    ensures
        digits_val(t.subrange(0, j)) <= digits_val(t),
    decreases t.len() - j,
{
    if j == t.len() {
        assert(t.subrange(0, j) =~= t);
    } else {
        let a = t.subrange(0, j);
        let b = t.subrange(0, j + 1);
        assert(b.drop_last() =~= a);
        assert(all_digits(a));
        lemma_digits_val_nonneg(a);
        assert(digits_val(b) == digits_val(a) * 10 + digit_val(t[j]));
        lemma_digits_val_prefix_le(t, j + 1);
    }
}

/// Converts a digit string to its value, total and overflow-checked: text
/// that is empty, not all digits, or too large yields nothing.
fn parse_int_text(s: &str) -> (r: Option<i64>)
    ensures
        r == spec_parse_int(s@),
{
    let n = s.unicode_len();
    if n == 0 {
        return Option::None;
    }
    let mut i: usize = 0;
    let mut acc: i64 = 0;
    while i < n
        invariant
            n == s@.len(),
            0 <= i <= n,
            forall|j: int| 0 <= j < i ==> is_digit_char(s@[j]),
            acc == digits_val(s@.subrange(0, i as int)),
            0 <= acc <= i64::MAX,
        decreases n - i,
    {
        let c = s.get_char(i);
        let cv = c as u32;
        if !(48 <= cv && cv <= 57) {
            return Option::None;
        }
        let d = (cv - 48) as i64;
        if acc > (i64::MAX - d) / 10 {
            proof {
                let full = s@.subrange(0, i as int + 1);
                assert(full.drop_last() =~= s@.subrange(0, i as int));
                lemma_fundamental_div_mod(i64::MAX - d, 10);
                assert(digits_val(full) > i64::MAX);
                if all_digits(s@) {
                    lemma_digits_val_prefix_le(s@, i as int + 1);
                }
            }
            return Option::None;
        }
        proof {
            lemma_fundamental_div_mod(i64::MAX - d, 10);
            let full = s@.subrange(0, i as int + 1);
            assert(full.drop_last() =~= s@.subrange(0, i as int));
        }
        acc = acc * 10 + d;
        i = i + 1;
    }
    proof {
        assert(s@.subrange(0, n as int) =~= s@);
    }
    Option::Some(acc)
}

/// Owns the full token stream, the index of the current token, and the
/// diagnostics recorded so far.  The two-token lookahead window is the pair
/// of tokens at `idx` and one past it.
pub struct Parser {
    toks: Vec<Token>,
    idx: usize,
    pos: Ghost<int>,
    pub errors: Vec<String>,
}

/// The abstract parser state: the token stream, the cursor position, and
/// the diagnostics recorded so far.
pub struct ParserView {
    pub toks: Seq<TokenView>,
    pub pos: int,
    pub errs: Seq<Seq<char>>,
}

impl View for Parser {
    type V = ParserView;

    closed spec fn view(&self) -> ParserView {
        ParserView {
            toks: self.toks@.map_values(|t: Token| t@),
            pos: self.pos@,
            errs: self.errors.deep_view(),
        }
    }
}

impl Parser {
    /// The stream is nonempty and ends with the end-of-input token, and the
    /// concrete index tracks the abstract position, pinned to the last
    /// token once the position has run past the end.
    pub closed spec fn wf(&self) -> bool {
        &&& self@.toks.len() >= 1
        &&& self@.toks.last() == TokenView::Eof
        &&& 0 <= self@.pos
        &&& self.idx < self.toks@.len()
        &&& self.idx as int == if self@.pos < self@.toks.len() {
            self@.pos
        } else {
            self@.toks.len() - 1
        }
    }

    /// Drains the lexer into the token stream, up to and including the
    /// first end-of-input token, and primes the lookahead window.
    pub fn new(lexer: Lexer) -> (p: Parser)
        requires
            lexer.wf(),
        ensures
            p.wf(),
            p@.toks == tokens_from(lexer@.bytes, lexer@.pos),
            p@.pos == 0,
            p@.errs == Seq::<Seq<char>>::empty(),
    {
        let mut lx = lexer;
        let mut toks: Vec<Token> = Vec::new();
        proof {
            lx.lemma_pos_in_range();
        }
        loop
            invariant_except_break
                lx.wf(),
                lx@.bytes == lexer@.bytes,
                0 <= lx@.pos <= lx@.bytes.len(),
                tokens_from(lexer@.bytes, lexer@.pos) =~= toks@.map_values(|t: Token| t@)
                    + tokens_from(lx@.bytes, lx@.pos),
            ensures
                toks@.map_values(|t: Token| t@) =~= tokens_from(lexer@.bytes, lexer@.pos),
            decreases lx@.bytes.len() - lx@.pos,
        {
            let ghost pre = lx@.pos;
            let t = lx.next_token();
            proof {
                crate::lexer::lemma_next_token_at_bounds(lx@.bytes, pre);
                lx.lemma_pos_in_range();
            }
            let is_eof = matches!(t, Token::Eof);
            toks.push(t);
            if is_eof {
                break;
            }
        }
        proof {
            crate::lexer::lemma_tokens_from_shape(lexer@.bytes, lexer@.pos);
        }
        let p = Parser { toks, idx: 0, pos: Ghost(0), errors: Vec::new() };
        proof {
            assert(p@.errs =~= Seq::<Seq<char>>::empty());
        }
        p
    }

    /// The current token of the lookahead window.
    fn cur(&self) -> (t: &Token)
        requires
            self.wf(),
        ensures
            t@ == tok_at(self@.toks, self@.pos),
    {
        &self.toks[self.idx]
    }

    /// The peek token of the lookahead window.
    fn peek(&self) -> (t: &Token)
        requires
            self.wf(),
        ensures
            t@ == tok_at(self@.toks, self@.pos + 1),
    {
        let n = self.toks.len();
        if self.idx + 1 < n {
            &self.toks[self.idx + 1]
        } else {
            &self.toks[n - 1]
        }
    }

    /// Shifts the lookahead window one token forward.  Past the end of the
    /// stream the window keeps showing the end-of-input token.
    fn next_token(&mut self)
        requires
            old(self).wf(),
        ensures
            final(self).wf(),
            final(self)@.toks == old(self)@.toks,
            final(self)@.errs == old(self)@.errs,
            final(self)@.pos == old(self)@.pos + 1,
    {
        let n = self.toks.len();
        if self.idx + 1 < n {
            self.idx = self.idx + 1;
        }
        proof {
            self.pos@ = self.pos@ + 1;
        }
    }

    /// Records the diagnostic for a peek token that is not the expected one.
    fn peek_error(&mut self, expected: Token)
        requires
            old(self).wf(),
        ensures
            final(self).wf(),
            final(self)@.toks == old(self)@.toks,
            final(self)@.pos == old(self)@.pos,
            final(self)@.errs == old(self)@.errs.push(
                expected_msg(expected@, tok_at(old(self)@.toks, old(self)@.pos + 1)),
            ),
    {
        let mut msg = String::from_str("expected next token to be ");
        msg.append(expected.diag_text().as_str());
        msg.append(", got ");
        msg.append(self.peek().diag_text().as_str());
        msg.append(" instead");
        self.errors.push(msg);
        proof {
            assert(self@.errs =~= old(self)@.errs.push(
                expected_msg(expected@, tok_at(old(self)@.toks, old(self)@.pos + 1)),
            ));
        }
    }
}


/// The binding power a token carries as an infix operator.
fn precedence(token: &Token) -> (p: usize)
    ensures
        p == prec_of(token@),
{
    match token {
        Token::Eq | Token::Neq => EQUALS,
        Token::Lt | Token::Gt => LESSGREATER,
        Token::Plus | Token::Minus => SUM,
        Token::Slash | Token::Asterisk => PRODUCT,
        Token::Lparen => CALL,
        _ => LOWEST,
    }
}

fn is_prefix_op(token: &Token) -> (r: bool)
    ensures
        r == is_prefix_tok(token@),
{
    match token {
        Token::Ident(_) => true,
        Token::Int(_) => true,
        Token::Bang | Token::Minus => true,
        _ => false,
    }
}

fn is_infix_op(token: &Token) -> (r: bool)
    ensures
        r == is_infix_tok(token@),
{
    match token {
        Token::Plus => true,
        Token::Minus => true,
        Token::Slash => true,
        Token::Asterisk => true,
        Token::Eq => true,
        Token::Neq => true,
        Token::Lt => true,
        Token::Gt => true,
        _ => false,
    }
}

impl Parser {
    fn parse_identifier(&self) -> (e: Option<Box<Expression>>)
        requires
            self.wf(),
        ensures
            opt_expr_view(e) == Option::Some(
                Box::new(ExprView::Identifier(tok_at(self@.toks, self@.pos))),
            ),
    {
        Option::Some(Box::new(Expression::Identifier(self.cur().dup())))
    }

    fn parse_integer_literal(&mut self) -> (e: Option<Box<Expression>>)
        requires
            old(self).wf(),
            tok_at(old(self)@.toks, old(self)@.pos) matches TokenView::Int(_),
        ensures
            final(self).wf(),
            final(self)@.toks == old(self)@.toks,
            final(self)@.pos == old(self)@.pos,
            ({
                let r = sp_parse_prefix(old(self)@.toks, old(self)@.pos);
                &&& opt_expr_view(e) == r.out
                &&& final(self)@.errs == old(self)@.errs + r.errs
            }),
    {
        let ctok = self.cur().dup();
        match ctok {
            Token::Int(text) => {
                let parsed = parse_int_text(text.as_str());
                match parsed {
                    Option::Some(v) => {
                        proof {
                            assert(self@.errs =~= old(self)@.errs + Seq::<Seq<char>>::empty());
                        }
                        Option::Some(Box::new(Expression::IntegerLiteral(Token::Int(text), v)))
                    },
                    Option::None => {
                        let mut msg = String::from_str("could not parse ");
                        msg.append(text.as_str());
                        msg.append(" as integer");
                        self.errors.push(msg);
                        proof {
                            assert(self@.errs =~= old(self)@.errs + seq![bad_int_msg(text@)]);
                        }
                        Option::None
                    },
                }
            },
            _ => unreached(),
        }
    }

    fn parse_prefix_expr(&mut self) -> (e: Option<Box<Expression>>)
        requires
            old(self).wf(),
            tok_at(old(self)@.toks, old(self)@.pos) == TokenView::Bang || tok_at(
                old(self)@.toks,
                old(self)@.pos,
            ) == TokenView::Minus,
        ensures
            final(self).wf(),
            final(self)@.toks == old(self)@.toks,
            ({
                let r = sp_parse_prefix(old(self)@.toks, old(self)@.pos);
                &&& opt_expr_view(e) == r.out
                &&& final(self)@.pos == old(self)@.pos + r.adv
                &&& final(self)@.errs == old(self)@.errs + r.errs
            }),
        decreases rem(old(self)@.toks, old(self)@.pos), 2int,
    {
        let token = self.cur().dup();
        self.next_token();
        let right = self.parse_expr(PREFIX);
        Option::Some(Box::new(Expression::Prefix(token, right)))
    }

    fn parse_prefix(&mut self) -> (e: Option<Box<Expression>>)
        requires
            old(self).wf(),
        ensures
            final(self).wf(),
            final(self)@.toks == old(self)@.toks,
            ({
                let r = sp_parse_prefix(old(self)@.toks, old(self)@.pos);
                &&& opt_expr_view(e) == r.out
                &&& final(self)@.pos == old(self)@.pos + r.adv
                &&& final(self)@.errs == old(self)@.errs + r.errs
            }),
        decreases rem(old(self)@.toks, old(self)@.pos), 3int,
    {
        let is_id = matches!(self.cur(), Token::Ident(_));
        let is_int = matches!(self.cur(), Token::Int(_));
        let is_pre = matches!(self.cur(), Token::Bang | Token::Minus);
        if is_id {
            let e = self.parse_identifier();
            proof {
                assert(self@.errs =~= old(self)@.errs + Seq::<Seq<char>>::empty());
            }
            e
        } else if is_int {
            self.parse_integer_literal()
        } else if is_pre {
            self.parse_prefix_expr()
        } else {
            proof {
                assert(self@.errs =~= old(self)@.errs + Seq::<Seq<char>>::empty());
            }
            Option::None
        }
    }

    fn parse_infix_expr(&mut self, left: Option<Box<Expression>>) -> (e: Option<Box<Expression>>)
        requires
            old(self).wf(),
            is_infix_tok(tok_at(old(self)@.toks, old(self)@.pos)),
        ensures
            final(self).wf(),
            final(self)@.toks == old(self)@.toks,
            ({
                let r = sp_parse_infix(old(self)@.toks, old(self)@.pos, opt_expr_view(left));
                &&& opt_expr_view(e) == r.out
                &&& final(self)@.pos == old(self)@.pos + r.adv
                &&& final(self)@.errs == old(self)@.errs + r.errs
            }),
        decreases rem(old(self)@.toks, old(self)@.pos), 2int,
    {
        let operator = self.cur().dup();
        let prec = precedence(&operator);
        self.next_token();
        let right = self.parse_expr(prec);
        Option::Some(Box::new(Expression::Infix(left, operator, right)))
    }

    fn parse_infix(&mut self, left: Option<Box<Expression>>) -> (e: Option<Box<Expression>>)
        requires
            old(self).wf(),
        ensures
            final(self).wf(),
            final(self)@.toks == old(self)@.toks,
            ({
                let r = sp_parse_infix(old(self)@.toks, old(self)@.pos, opt_expr_view(left));
                &&& opt_expr_view(e) == r.out
                &&& final(self)@.pos == old(self)@.pos + r.adv
                &&& final(self)@.errs == old(self)@.errs + r.errs
            }),
        decreases rem(old(self)@.toks, old(self)@.pos), 3int,
    {
        let is_op = is_infix_op(self.cur());
        if is_op {
            self.parse_infix_expr(left)
        } else {
            proof {
                assert(self@.errs =~= old(self)@.errs + Seq::<Seq<char>>::empty());
            }
            Option::None
        }
    }

    fn parse_expr(&mut self, prec: usize) -> (e: Option<Box<Expression>>)
        requires
            old(self).wf(),
        ensures
            final(self).wf(),
            final(self)@.toks == old(self)@.toks,
            ({
                let r = sp_parse_expr(old(self)@.toks, old(self)@.pos, prec as int);
                &&& opt_expr_view(e) == r.out
                &&& final(self)@.pos == old(self)@.pos + r.adv
                &&& final(self)@.errs == old(self)@.errs + r.errs
            }),
        decreases rem(old(self)@.toks, old(self)@.pos), 4int,
    {
        let ghost t0 = self@.toks;
        let ghost p0 = self@.pos;
        let ghost e0 = self@.errs;
        let ghost target = sp_parse_expr(t0, p0, prec as int);
        if !is_prefix_op(self.cur()) {
            let mut msg = String::from_str("no prefix parse function for ");
            msg.append(self.cur().text().as_str());
            self.errors.push(msg);
            proof {
                assert(self@.errs =~= e0 + seq![no_prefix_msg(tok_at(t0, p0))]);
            }
            return Option::None;
        }
        let mut left = self.parse_prefix();
        proof {
            assert(e0 + target.errs =~= self@.errs + sp_infix_loop(
                t0,
                self@.pos,
                prec as int,
                opt_expr_view(left),
            ).errs);
        }
        while !(*self.peek() == Token::Semicolon) && prec < precedence(self.peek())
            invariant
                self.wf(),
                t0 == old(self)@.toks,
                p0 == old(self)@.pos,
                e0 == old(self)@.errs,
                self@.toks == t0,
                0 <= p0 < t0.len(),
                self@.pos >= p0,
                target == sp_parse_expr(t0, p0, prec as int),
                target.out == sp_infix_loop(t0, self@.pos, prec as int, opt_expr_view(left)).out,
                p0 + target.adv == self@.pos + sp_infix_loop(
                    t0,
                    self@.pos,
                    prec as int,
                    opt_expr_view(left),
                ).adv,
                e0 + target.errs == self@.errs + sp_infix_loop(
                    t0,
                    self@.pos,
                    prec as int,
                    opt_expr_view(left),
                ).errs,
            decreases rem(t0, self@.pos),
        {
            if !is_infix_op(self.peek()) {
                proof {
                    assert(self@.errs =~= self@.errs + Seq::<Seq<char>>::empty());
                    assert(e0 + target.errs =~= self@.errs);
                }
                return left;
            }
            let ghost pc = self@.pos;
            let ghost lv = opt_expr_view(left);
            self.next_token();
            left = self.parse_infix(left);
            proof {
                let r = sp_parse_infix(t0, pc + 1, lv);
                let rest = sp_infix_loop(t0, self@.pos, prec as int, opt_expr_view(left));
                assert(sp_infix_loop(t0, pc, prec as int, lv).errs =~= r.errs + rest.errs);
                assert(e0 + target.errs =~= self@.errs + rest.errs);
            }
        }
        proof {
            assert(self@.errs =~= self@.errs + Seq::<Seq<char>>::empty());
            assert(e0 + target.errs =~= self@.errs);
        }
        left
    }
}


impl Parser {
    fn parse_let_stmt(&mut self) -> (st: Option<Statement>)
        requires
            old(self).wf(),
        ensures
            final(self).wf(),
            final(self)@.toks == old(self)@.toks,
            ({
                let r = sp_parse_let(old(self)@.toks, old(self)@.pos);
                &&& opt_stmt_view(st) == r.out
                &&& final(self)@.pos == old(self)@.pos + r.adv
                &&& final(self)@.errs == old(self)@.errs + r.errs
            }),
    {
        let ghost t0 = self@.toks;
        let ghost p0 = self@.pos;
        let ghost e0 = self@.errs;
        let let_token = self.cur().dup();
        if !matches!(self.peek(), Token::Ident(_)) {
            self.peek_error(Token::Ident(String::from_str("identifier")));
            proof {
                assert(self@.errs =~= e0 + seq![
                    expected_msg(TokenView::Ident("identifier"@), tok_at(t0, p0 + 1)),
                ]);
            }
            return Option::None;
        }
        self.next_token();
        let ident_token = self.cur().dup();
        if !(*self.peek() == Token::Assign) {
            self.peek_error(Token::Assign);
            proof {
                assert(self@.errs =~= e0 + seq![
                    expected_msg(TokenView::Assign, tok_at(t0, p0 + 2)),
                ]);
            }
            return Option::None;
        }
        while !(*self.cur() == Token::Semicolon) && !(*self.cur() == Token::Eof)
            invariant
                self.wf(),
                t0 == old(self)@.toks,
                p0 == old(self)@.pos,
                e0 == old(self)@.errs,
                self@.toks == t0,
                self@.errs == e0,
                self@.pos >= p0 + 1,
                sp_scan_to_semi(t0, p0 + 1) == (self@.pos - (p0 + 1)) + sp_scan_to_semi(
                    t0,
                    self@.pos,
                ),
            decreases rem(t0, self@.pos),
        {
            self.next_token();
        }
        proof {
            assert(self@.errs =~= e0 + Seq::<Seq<char>>::empty());
        }
        Option::Some(Statement::Let(let_token, ident_token, Option::None))
    }

    fn parse_return_stmt(&mut self) -> (st: Option<Statement>)
        requires
            old(self).wf(),
        ensures
            final(self).wf(),
            final(self)@.toks == old(self)@.toks,
            ({
                let r = sp_parse_return(old(self)@.toks, old(self)@.pos);
                &&& opt_stmt_view(st) == r.out
                &&& final(self)@.pos == old(self)@.pos + r.adv
                &&& final(self)@.errs == old(self)@.errs + r.errs
            }),
    {
        let ghost t0 = self@.toks;
        let ghost p0 = self@.pos;
        let ghost e0 = self@.errs;
        let return_token = self.cur().dup();
        self.next_token();
        while !(*self.cur() == Token::Semicolon) && !(*self.cur() == Token::Eof)
            invariant
                self.wf(),
                t0 == old(self)@.toks,
                p0 == old(self)@.pos,
                e0 == old(self)@.errs,
                self@.toks == t0,
                self@.errs == e0,
                self@.pos >= p0 + 1,
                sp_scan_to_semi(t0, p0 + 1) == (self@.pos - (p0 + 1)) + sp_scan_to_semi(
                    t0,
                    self@.pos,
                ),
            decreases rem(t0, self@.pos),
        {
            self.next_token();
        }
        proof {
            assert(self@.errs =~= e0 + Seq::<Seq<char>>::empty());
        }
        Option::Some(Statement::Return(return_token, Option::None))
    }

    fn parse_expr_stmt(&mut self) -> (st: Option<Statement>)
        requires
            old(self).wf(),
        ensures
            final(self).wf(),
            final(self)@.toks == old(self)@.toks,
            ({
                let r = sp_parse_expr_stmt(old(self)@.toks, old(self)@.pos);
                &&& opt_stmt_view(st) == r.out
                &&& final(self)@.pos == old(self)@.pos + r.adv
                &&& final(self)@.errs == old(self)@.errs + r.errs
            }),
    {
        let tok = self.cur().dup();
        let expr = self.parse_expr(LOWEST);
        if *self.peek() == Token::Semicolon {
            self.next_token();
        }
        Option::Some(Statement::Expression(tok, expr))
    }

    fn parse_stmt(&mut self) -> (st: Option<Statement>)
        requires
            old(self).wf(),
        ensures
            final(self).wf(),
            final(self)@.toks == old(self)@.toks,
            ({
                let r = sp_parse_stmt(old(self)@.toks, old(self)@.pos);
                &&& opt_stmt_view(st) == r.out
                &&& final(self)@.pos == old(self)@.pos + r.adv
                &&& final(self)@.errs == old(self)@.errs + r.errs
            }),
    {
        if *self.cur() == Token::Let {
            self.parse_let_stmt()
        } else if *self.cur() == Token::Return {
            self.parse_return_stmt()
        } else {
            self.parse_expr_stmt()
        }
    }

    /// Parses one statement at a time until the end of the input, returning
    /// the program node; problems never abort the parse, they are recorded
    /// in `errors` and the best-effort partial program is returned.
    pub fn parse_program(&mut self) -> (node: Node)
        requires
            old(self).wf(),
        ensures
            final(self).wf(),
            final(self)@.toks == old(self)@.toks,
            ({
                let r = sp_parse_program(old(self)@.toks, old(self)@.pos);
                &&& node@ == NodeView::Program(r.stmts)
                &&& final(self)@.errs == old(self)@.errs + r.errs
            }),
    {
        let ghost t0 = self@.toks;
        let ghost p0 = self@.pos;
        let ghost e0 = self@.errs;
        let ghost target = sp_parse_program(t0, p0);
        let mut statements: Vec<Statement> = Vec::new();
        proof {
            assert(statements@.map_values(|s: Statement| stmt_view(s)) =~= Seq::<
                StmtView,
            >::empty());
            assert(target.stmts =~= statements@.map_values(|s: Statement| stmt_view(s))
                + sp_parse_program(t0, self@.pos).stmts);
            assert(e0 + target.errs =~= self@.errs + sp_parse_program(t0, self@.pos).errs);
        }
        while !(*self.cur() == Token::Eof)
            invariant
                self.wf(),
                t0 == old(self)@.toks,
                p0 == old(self)@.pos,
                e0 == old(self)@.errs,
                self@.toks == t0,
                target == sp_parse_program(t0, p0),
                target.stmts == statements@.map_values(|s: Statement| stmt_view(s))
                    + sp_parse_program(t0, self@.pos).stmts,
                e0 + target.errs == self@.errs + sp_parse_program(t0, self@.pos).errs,
            decreases rem(t0, self@.pos),
        {
            let ghost pc = self@.pos;
            let ghost sm0 = statements@;
            let stmt_opt = self.parse_stmt();
            match stmt_opt {
                Option::Some(stmt) => statements.push(stmt),
                Option::None => {},
            }
            self.next_token();
            proof {
                let s = sp_parse_stmt(t0, pc);
                let first: Seq<StmtView> = match s.out {
                    Option::Some(stv) => seq![stv],
                    Option::None => Seq::empty(),
                };
                assert(statements@.map_values(|s: Statement| stmt_view(s)) =~= sm0.map_values(
                    |s: Statement| stmt_view(s),
                ) + first);
                assert(target.stmts =~= statements@.map_values(|s: Statement| stmt_view(s))
                    + sp_parse_program(t0, self@.pos).stmts);
                assert(e0 + target.errs =~= self@.errs + sp_parse_program(t0, self@.pos).errs);
            }
        }
        proof {
            assert(target.stmts =~= statements@.map_values(|s: Statement| stmt_view(s)));
            assert(e0 + target.errs =~= self@.errs);
        }
        Node::Program(statements)
    }
}

} // verus!
