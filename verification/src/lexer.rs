//! Character-level scanner: turns a byte buffer of source text into a stream
//! of tokens, one `next_token` call at a time.

use vstd::prelude::*;

verus! {

/// The lexical categories of the language.  Identifier and integer tokens
/// carry their raw text; every other token is its category alone.
#[derive(Debug)]
pub enum Token {
    Illegal,
    Eof,
    Ident(String),
    Int(String),
    Assign,
    Plus,
    Minus,
    Bang,
    Asterisk,
    Slash,
    Lt,
    Gt,
    Eq,
    Neq,
    Comma,
    Semicolon,
    Lparen,
    Rparen,
    Lbrace,
    Rbrace,
    Function,
    Let,
    True,
    False,
    If,
    Else,
    Return,
}

/// The mathematical value of a token: the carried text is a character
/// sequence, everything else is the category alone.
pub enum TokenView {
    Illegal,
    Eof,
    Ident(Seq<char>),
    Int(Seq<char>),
    Assign,
    Plus,
    Minus,
    Bang,
    Asterisk,
    Slash,
    Lt,
    Gt,
    Eq,
    Neq,
    Comma,
    Semicolon,
    Lparen,
    Rparen,
    Lbrace,
    Rbrace,
    Function,
    Let,
    True,
    False,
    If,
    Else,
    Return,
}

impl View for Token {
    type V = TokenView;

    open spec fn view(&self) -> TokenView {
        match self {
            Token::Illegal => TokenView::Illegal,
            Token::Eof => TokenView::Eof,
            Token::Ident(s) => TokenView::Ident(s@),
            Token::Int(s) => TokenView::Int(s@),
            Token::Assign => TokenView::Assign,
            Token::Plus => TokenView::Plus,
            Token::Minus => TokenView::Minus,
            Token::Bang => TokenView::Bang,
            Token::Asterisk => TokenView::Asterisk,
            Token::Slash => TokenView::Slash,
            Token::Lt => TokenView::Lt,
            Token::Gt => TokenView::Gt,
            Token::Eq => TokenView::Eq,
            Token::Neq => TokenView::Neq,
            Token::Comma => TokenView::Comma,
            Token::Semicolon => TokenView::Semicolon,
            Token::Lparen => TokenView::Lparen,
            Token::Rparen => TokenView::Rparen,
            Token::Lbrace => TokenView::Lbrace,
            Token::Rbrace => TokenView::Rbrace,
            Token::Function => TokenView::Function,
            Token::Let => TokenView::Let,
            Token::True => TokenView::True,
            Token::False => TokenView::False,
            Token::If => TokenView::If,
            Token::Else => TokenView::Else,
            Token::Return => TokenView::Return,
        }
    }
}

/// The canonical textual rendering of a token: carried text for identifiers
/// and integers, the operator or punctuation spelling otherwise.
pub open spec fn token_text(t: TokenView) -> Seq<char> {
    match t {
        TokenView::Illegal => "Illegal"@,
        TokenView::Eof => "EOF"@,
        TokenView::Ident(s) => s,
        TokenView::Int(s) => s,
        TokenView::Assign => "="@,
        TokenView::Plus => "+"@,
        TokenView::Minus => "-"@,
        TokenView::Bang => "!"@,
        TokenView::Asterisk => "*"@,
        TokenView::Slash => "/"@,
        TokenView::Lt => "<"@,
        TokenView::Gt => ">"@,
        TokenView::Eq => "=="@,
        TokenView::Neq => "!="@,
        TokenView::Comma => ","@,
        TokenView::Semicolon => ";"@,
        TokenView::Lparen => "("@,
        TokenView::Rparen => ")"@,
        TokenView::Lbrace => "{"@,
        TokenView::Rbrace => "}"@,
        TokenView::Function => "fn"@,
        TokenView::Let => "let"@,
        TokenView::True => "true"@,
        TokenView::False => "false"@,
        TokenView::If => "if"@,
        TokenView::Else => "else"@,
        TokenView::Return => "return"@,
    }
}

/// The spelling of a token inside an expected-token diagnostic: the token's
/// category name, with carried text quoted.
pub open spec fn token_diag(t: TokenView) -> Seq<char> {
    match t {
        TokenView::Illegal => "Illegal"@,
        TokenView::Eof => "Eof"@,
        TokenView::Ident(s) => "Ident(\""@ + s + "\")"@,
        TokenView::Int(s) => "Int(\""@ + s + "\")"@,
        TokenView::Assign => "Assign"@,
        TokenView::Plus => "Plus"@,
        TokenView::Minus => "Minus"@,
        TokenView::Bang => "Bang"@,
        TokenView::Asterisk => "Asterisk"@,
        TokenView::Slash => "Slash"@,
        TokenView::Lt => "Lt"@,
        TokenView::Gt => "Gt"@,
        TokenView::Eq => "Eq"@,
        TokenView::Neq => "Neq"@,
        TokenView::Comma => "Comma"@,
        TokenView::Semicolon => "Semicolon"@,
        TokenView::Lparen => "Lparen"@,
        TokenView::Rparen => "Rparen"@,
        TokenView::Lbrace => "Lbrace"@,
        TokenView::Rbrace => "Rbrace"@,
        TokenView::Function => "Function"@,
        TokenView::Let => "Let"@,
        TokenView::True => "True"@,
        TokenView::False => "False"@,
        TokenView::If => "If"@,
        TokenView::Else => "Else"@,
        TokenView::Return => "Return"@,
    }
}

impl Token {
    /// The canonical textual rendering of this token.
    pub fn text(&self) -> (s: String)
        ensures
            s@ == token_text(self@),
    {
        match self {
            Token::Illegal => String::from_str("Illegal"),
            Token::Eof => String::from_str("EOF"),
            Token::Ident(s) => s.clone(),
            Token::Int(s) => s.clone(),
            Token::Assign => String::from_str("="),
            Token::Plus => String::from_str("+"),
            Token::Minus => String::from_str("-"),
            Token::Bang => String::from_str("!"),
            Token::Asterisk => String::from_str("*"),
            Token::Slash => String::from_str("/"),
            Token::Lt => String::from_str("<"),
            Token::Gt => String::from_str(">"),
            Token::Eq => String::from_str("=="),
            Token::Neq => String::from_str("!="),
            Token::Comma => String::from_str(","),
            Token::Semicolon => String::from_str(";"),
            Token::Lparen => String::from_str("("),
            Token::Rparen => String::from_str(")"),
            Token::Lbrace => String::from_str("{"),
            Token::Rbrace => String::from_str("}"),
            Token::Function => String::from_str("fn"),
            Token::Let => String::from_str("let"),
            Token::True => String::from_str("true"),
            Token::False => String::from_str("false"),
            Token::If => String::from_str("if"),
            Token::Else => String::from_str("else"),
            Token::Return => String::from_str("return"),
        }
    }

    /// The spelling of this token inside an expected-token diagnostic.
    pub(crate) fn diag_text(&self) -> (s: String)
        ensures
            s@ == token_diag(self@),
    {
        match self {
            Token::Ident(name) => {
                let mut out = String::from_str("Ident(\"");
                out.append(name.as_str());
                out.append("\")");
                proof {
                    assert(out@ =~= token_diag(self@));
                }
                out
            },
            Token::Int(text) => {
                let mut out = String::from_str("Int(\"");
                out.append(text.as_str());
                out.append("\")");
                proof {
                    assert(out@ =~= token_diag(self@));
                }
                out
            },
            Token::Illegal => String::from_str("Illegal"),
            Token::Eof => String::from_str("Eof"),
            Token::Assign => String::from_str("Assign"),
            Token::Plus => String::from_str("Plus"),
            Token::Minus => String::from_str("Minus"),
            Token::Bang => String::from_str("Bang"),
            Token::Asterisk => String::from_str("Asterisk"),
            Token::Slash => String::from_str("Slash"),
            Token::Lt => String::from_str("Lt"),
            Token::Gt => String::from_str("Gt"),
            Token::Eq => String::from_str("Eq"),
            Token::Neq => String::from_str("Neq"),
            Token::Comma => String::from_str("Comma"),
            Token::Semicolon => String::from_str("Semicolon"),
            Token::Lparen => String::from_str("Lparen"),
            Token::Rparen => String::from_str("Rparen"),
            Token::Lbrace => String::from_str("Lbrace"),
            Token::Rbrace => String::from_str("Rbrace"),
            Token::Function => String::from_str("Function"),
            Token::Let => String::from_str("Let"),
            Token::True => String::from_str("True"),
            Token::False => String::from_str("False"),
            Token::If => String::from_str("If"),
            Token::Else => String::from_str("Else"),
            Token::Return => String::from_str("Return"),
        }
    }

    /// An explicit deep copy; tokens have value semantics and copy cheaply.
    pub fn dup(&self) -> (t: Token)
        ensures
            t == *self,
    {
        match self {
            Token::Illegal => Token::Illegal,
            Token::Eof => Token::Eof,
            Token::Ident(s) => Token::Ident(s.clone()),
            Token::Int(s) => Token::Int(s.clone()),
            Token::Assign => Token::Assign,
            Token::Plus => Token::Plus,
            Token::Minus => Token::Minus,
            Token::Bang => Token::Bang,
            Token::Asterisk => Token::Asterisk,
            Token::Slash => Token::Slash,
            Token::Lt => Token::Lt,
            Token::Gt => Token::Gt,
            Token::Eq => Token::Eq,
            Token::Neq => Token::Neq,
            Token::Comma => Token::Comma,
            Token::Semicolon => Token::Semicolon,
            Token::Lparen => Token::Lparen,
            Token::Rparen => Token::Rparen,
            Token::Lbrace => Token::Lbrace,
            Token::Rbrace => Token::Rbrace,
            Token::Function => Token::Function,
            Token::Let => Token::Let,
            Token::True => Token::True,
            Token::False => Token::False,
            Token::If => Token::If,
            Token::Else => Token::Else,
            Token::Return => Token::Return,
        }
    }
}

impl PartialEq for Token {
    #[verifier::rlimit(60)]
    fn eq(&self, other: &Token) -> (r: bool) {
        match (self, other) {
            (Token::Illegal, Token::Illegal) => true,
            (Token::Eof, Token::Eof) => true,
            (Token::Ident(a), Token::Ident(b)) => *a == *b,
            (Token::Int(a), Token::Int(b)) => *a == *b,
            (Token::Assign, Token::Assign) => true,
            (Token::Plus, Token::Plus) => true,
            (Token::Minus, Token::Minus) => true,
            (Token::Bang, Token::Bang) => true,
            (Token::Asterisk, Token::Asterisk) => true,
            (Token::Slash, Token::Slash) => true,
            (Token::Lt, Token::Lt) => true,
            (Token::Gt, Token::Gt) => true,
            (Token::Eq, Token::Eq) => true,
            (Token::Neq, Token::Neq) => true,
            (Token::Comma, Token::Comma) => true,
            (Token::Semicolon, Token::Semicolon) => true,
            (Token::Lparen, Token::Lparen) => true,
            (Token::Rparen, Token::Rparen) => true,
            (Token::Lbrace, Token::Lbrace) => true,
            (Token::Rbrace, Token::Rbrace) => true,
            (Token::Function, Token::Function) => true,
            (Token::Let, Token::Let) => true,
            (Token::True, Token::True) => true,
            (Token::False, Token::False) => true,
            (Token::If, Token::If) => true,
            (Token::Else, Token::Else) => true,
            (Token::Return, Token::Return) => true,
            _ => false,
        }
    }
}

impl vstd::std_specs::cmp::PartialEqSpecImpl for Token {
    open spec fn obeys_eq_spec() -> bool {
        true
    }

    open spec fn eq_spec(&self, other: &Token) -> bool {
        self@ == other@
    }
}

/// Bytes the scanner skips between tokens: space, tab, carriage return,
/// line feed.
pub open spec fn is_ws_byte(b: u8) -> bool {
    b == 32 || b == 9 || b == 13 || b == 10
}

/// Bytes that may make up an identifier.
pub open spec fn is_letter_byte(b: u8) -> bool {
    (97 <= b && b <= 122) || (65 <= b && b <= 90) || b == 95
}

/// Bytes that may make up an integer literal.
pub open spec fn is_digit_byte(b: u8) -> bool {
    48 <= b && b <= 57
}

/// The first position at or after `pos` that does not hold whitespace.
pub open spec fn skip_ws_from(s: Seq<u8>, pos: int) -> int
    decreases s.len() - pos
    when 0 <= pos <= s.len()
{
    if pos < s.len() && is_ws_byte(s[pos]) {
        skip_ws_from(s, pos + 1)
    } else {
        pos
    }
}

/// The end of the identifier span that starts at `pos`.
pub open spec fn ident_end(s: Seq<u8>, pos: int) -> int
    decreases s.len() - pos
    when 0 <= pos <= s.len()
{
    if pos < s.len() && is_letter_byte(s[pos]) {
        ident_end(s, pos + 1)
    } else {
        pos
    }
}

/// The end of the digit span that starts at `pos`.
pub open spec fn digits_end(s: Seq<u8>, pos: int) -> int
    decreases s.len() - pos
    when 0 <= pos <= s.len()
{
    if pos < s.len() && is_digit_byte(s[pos]) {
        digits_end(s, pos + 1)
    } else {
        pos
    }
}

/// The characters spelled by a run of source bytes.
pub open spec fn chars_of(bs: Seq<u8>) -> Seq<char> {
    bs.map(|i: int, b: u8| b as char)
}

/// The keyword token a name stands for, or a generic identifier token.
pub open spec fn keyword_or_ident(name: Seq<char>) -> TokenView {
    if name == "fn"@ {
        TokenView::Function
    } else if name == "let"@ {
        TokenView::Let
    } else if name == "true"@ {
        TokenView::True
    } else if name == "false"@ {
        TokenView::False
    } else if name == "if"@ {
        TokenView::If
    } else if name == "else"@ {
        TokenView::Else
    } else if name == "return"@ {
        TokenView::Return
    } else {
        TokenView::Ident(name)
    }
}

/// The token whose spelling starts exactly at `pos`, together with the
/// scanner position after it.  A position at or past the end of the buffer,
/// like an embedded zero byte, yields the end-of-input token.
pub open spec fn token_step(s: Seq<u8>, pos: int) -> (TokenView, int)
    recommends
        0 <= pos <= s.len(),
{
    if pos >= s.len() {
        (TokenView::Eof, s.len() as int)
    } else {
        let b = s[pos];
        if b == 61 {  // '='
            if pos + 1 < s.len() && s[pos + 1] == 61 {
                (TokenView::Eq, pos + 2)
            } else {
                (TokenView::Assign, pos + 1)
            }
        } else if b == 33 {  // '!'
            if pos + 1 < s.len() && s[pos + 1] == 61 {
                (TokenView::Neq, pos + 2)
            } else {
                (TokenView::Bang, pos + 1)
            }
        } else if b == 43 {  // '+'
            (TokenView::Plus, pos + 1)
        } else if b == 45 {  // '-'
            (TokenView::Minus, pos + 1)
        } else if b == 47 {  // '/'
            (TokenView::Slash, pos + 1)
        } else if b == 42 {  // '*'
            (TokenView::Asterisk, pos + 1)
        } else if b == 60 {  // '<'
            (TokenView::Lt, pos + 1)
        } else if b == 62 {  // '>'
            (TokenView::Gt, pos + 1)
        } else if b == 59 {  // ';'
            (TokenView::Semicolon, pos + 1)
        } else if b == 40 {  // '('
            (TokenView::Lparen, pos + 1)
        } else if b == 41 {  // ')'
            (TokenView::Rparen, pos + 1)
        } else if b == 44 {  // ','
            (TokenView::Comma, pos + 1)
        } else if b == 123 {  // '{'
            (TokenView::Lbrace, pos + 1)
        } else if b == 125 {  // '}'
            (TokenView::Rbrace, pos + 1)
        } else if b == 0 {
            (TokenView::Eof, pos + 1)
        } else if is_letter_byte(b) {
            let e = ident_end(s, pos);
            (keyword_or_ident(chars_of(s.subrange(pos, e))), e)
        } else if is_digit_byte(b) {
            let e = digits_end(s, pos);
            (TokenView::Int(chars_of(s.subrange(pos, e))), e)
        } else {
            (TokenView::Illegal, pos + 1)
        }
    }
}

/// The next token pulled from position `pos`: whitespace is skipped first.
pub open spec fn next_token_at(s: Seq<u8>, pos: int) -> (TokenView, int)
    recommends
        0 <= pos <= s.len(),
{
    token_step(s, skip_ws_from(s, pos))
}

pub proof fn lemma_skip_ws_from(s: Seq<u8>, pos: int)
    requires
        0 <= pos <= s.len(),
    ensures
        pos <= skip_ws_from(s, pos) <= s.len(),
        skip_ws_from(s, pos) < s.len() ==> !is_ws_byte(s[skip_ws_from(s, pos)]),
    decreases s.len() - pos,
{
    if pos < s.len() && is_ws_byte(s[pos]) {
        lemma_skip_ws_from(s, pos + 1);
    }
}

pub proof fn lemma_ident_end(s: Seq<u8>, pos: int)
    requires
        0 <= pos <= s.len(),
    ensures
        pos <= ident_end(s, pos) <= s.len(),
        pos < s.len() && is_letter_byte(s[pos]) ==> ident_end(s, pos) > pos,
    decreases s.len() - pos,
{
    if pos < s.len() && is_letter_byte(s[pos]) {
        lemma_ident_end(s, pos + 1);
    }
}

pub proof fn lemma_digits_end(s: Seq<u8>, pos: int)
    requires
        0 <= pos <= s.len(),
    ensures
        pos <= digits_end(s, pos) <= s.len(),
        pos < s.len() && is_digit_byte(s[pos]) ==> digits_end(s, pos) > pos,
    decreases s.len() - pos,
{
    if pos < s.len() && is_digit_byte(s[pos]) {
        lemma_digits_end(s, pos + 1);
    }
}

/// A scan step never moves backwards, never runs past the end of the buffer,
/// and moves strictly forward unless it produced the end-of-input token.
pub proof fn lemma_next_token_at_bounds(s: Seq<u8>, pos: int)
    requires
        0 <= pos <= s.len(),
    ensures
        pos <= next_token_at(s, pos).1 <= s.len(),
        next_token_at(s, pos).0 != TokenView::Eof ==> next_token_at(s, pos).1 > pos,
{
    lemma_skip_ws_from(s, pos);
    let p = skip_ws_from(s, pos);
    if p < s.len() {
        lemma_ident_end(s, p);
        lemma_digits_end(s, p);
    }
}

/// The whole token stream pulled from position `pos`: it always ends with
/// the first end-of-input token.
pub open spec fn tokens_from(s: Seq<u8>, pos: int) -> Seq<TokenView>
    decreases s.len() - pos
    when 0 <= pos <= s.len()
    via tokens_from_dec
{
    let (t, p) = next_token_at(s, pos);
    if t == TokenView::Eof {
        seq![t]
    } else {
        seq![t] + tokens_from(s, p)
    }
}

#[via_fn]
proof fn tokens_from_dec(s: Seq<u8>, pos: int) {
    lemma_next_token_at_bounds(s, pos);
}

/// Tokenizing is deterministic: the token stream is a function of the
/// source bytes alone, so two fresh scanners over equal input yield
/// identical token sequences.
pub proof fn lemma_tokenize_deterministic(s1: Seq<u8>, s2: Seq<u8>, pos: int)
    requires
        s1 == s2,
        0 <= pos <= s1.len(),
    ensures
        tokens_from(s1, pos) == tokens_from(s2, pos),
{
}

/// A token stream is never empty and ends with the end-of-input token.
pub proof fn lemma_tokens_from_shape(s: Seq<u8>, pos: int)
    requires
        0 <= pos <= s.len(),
    ensures
        tokens_from(s, pos).len() >= 1,
        tokens_from(s, pos).last() == TokenView::Eof,
    decreases s.len() - pos,
{
    let (t, p) = next_token_at(s, pos);
    lemma_next_token_at_bounds(s, pos);
    if t != TokenView::Eof {
        lemma_tokens_from_shape(s, p);
    }
}


/// The byte the scanner would see one position ahead of `pos`, with zero
/// standing for "beyond the end".
pub open spec fn spec_peek(s: Seq<u8>, pos: int) -> u8 {
    if pos + 1 < s.len() {
        s[pos + 1]
    } else {
        0
    }
}

/// Relies on String::push: appends exactly the given character to the end
/// of the string.
#[verifier::external_body]
fn push_char(s: &mut String, c: char)
    ensures
        final(s)@ == old(s)@.push(c),
{
    s.push(c);
}

fn is_ws(b: u8) -> (r: bool)
    ensures
        r == is_ws_byte(b),
{
    b == 32 || b == 9 || b == 13 || b == 10
}

fn is_letter(ch: u8) -> (r: bool)
    ensures
        r == is_letter_byte(ch),
{
    (97 <= ch && ch <= 122) || (65 <= ch && ch <= 90) || ch == 95
}

fn is_digit(ch: u8) -> (r: bool)
    ensures
        r == is_digit_byte(ch),
{
    48 <= ch && ch <= 57
}

/// Character-by-character string comparison.
fn str_eq(a: &str, b: &str) -> (r: bool)
    ensures
        r == (a@ == b@),
{
    let la = a.unicode_len();
    let lb = b.unicode_len();
    if la != lb {
        return false;
    }
    let mut i: usize = 0;
    while i < la
        invariant
            la == a@.len(),
            lb == b@.len(),
            la == lb,
            0 <= i <= la,
            forall|j: int| 0 <= j < i ==> a@[j] == b@[j],
        decreases la - i,
    {
        if a.get_char(i) != b.get_char(i) {
            return false;
        }
        i = i + 1;
    }
    proof {
        assert(a@ =~= b@);
    }
    true
}

/// Maps a scanned name to its keyword token, or wraps it as an identifier.
fn lookup_ident(ident: String) -> (t: Token)
    ensures
        t@ == keyword_or_ident(ident@),
{
    if str_eq(ident.as_str(), "fn") {
        Token::Function
    } else if str_eq(ident.as_str(), "let") {
        Token::Let
    } else if str_eq(ident.as_str(), "true") {
        Token::True
    } else if str_eq(ident.as_str(), "false") {
        Token::False
    } else if str_eq(ident.as_str(), "if") {
        Token::If
    } else if str_eq(ident.as_str(), "else") {
        Token::Else
    } else if str_eq(ident.as_str(), "return") {
        Token::Return
    } else {
        Token::Ident(ident)
    }
}

/// Owns the source text as a byte buffer and scans it left to right,
/// exactly once.
pub struct Lexer {
    input: Vec<u8>,
    pos: usize,
    read_pos: usize,
    ch: u8,
}

/// The abstract scanner state: the source bytes and the index of the
/// current character.
pub struct LexerView {
    pub bytes: Seq<u8>,
    pub pos: int,
}

impl View for Lexer {
    type V = LexerView;

    closed spec fn view(&self) -> LexerView {
        LexerView { bytes: self.input@, pos: self.pos as int }
    }
}

impl Lexer {
    /// The cursor fields cohere: `ch` caches the byte at `pos` (zero at or
    /// past the end) and `read_pos` is the next index to be read.
    pub closed spec fn wf(&self) -> bool {
        &&& self.pos <= self.input@.len()
        &&& (self.pos < self.input@.len() ==> self.read_pos == self.pos + 1 && self.ch
            == self.input@[self.pos as int])
        &&& (self.pos == self.input@.len() ==> self.ch == 0 && self.read_pos == self.input@.len())
    }

    /// A well-formed scanner's position sits inside its buffer.
    pub proof fn lemma_pos_in_range(&self)
        requires
            self.wf(),
        ensures
            0 <= self@.pos <= self@.bytes.len(),
    {
    }

    /// Takes ownership of the source text and primes the first character.
    pub fn new(input: String) -> (l: Lexer)
        ensures
            l.wf(),
            l@.bytes == vstd::utf8::encode_utf8(input@),
            l@.pos == 0,
    {
        let mut l = Lexer { input: input.as_str().as_bytes_vec(), pos: 0, read_pos: 0, ch: 0 };
        l.read_char();
        l
    }

    fn read_char(&mut self)
        requires
            old(self).read_pos <= old(self).input@.len(),
        ensures
            final(self).input == old(self).input,
            old(self).read_pos < old(self).input@.len() ==> final(self).pos == old(self).read_pos,
            old(self).read_pos < old(self).input@.len() ==> final(self).read_pos == old(
                self,
            ).read_pos + 1,
            old(self).read_pos < old(self).input@.len() ==> final(self).ch == old(
                self,
            ).input@[old(self).read_pos as int],
            old(self).read_pos == old(self).input@.len() ==> final(self).pos == old(
                self,
            ).input@.len(),
            old(self).read_pos == old(self).input@.len() ==> final(self).read_pos == old(
                self,
            ).input@.len(),
            old(self).read_pos == old(self).input@.len() ==> final(self).ch == 0,
    {
        if self.read_pos >= self.input.len() {
            // Clamp at the end: repeated reads past the input keep yielding
            // the zero sentinel and cannot overflow the cursor.
            self.ch = 0;
            self.pos = self.input.len();
            self.read_pos = self.input.len();
        } else {
            self.ch = self.input[self.read_pos];
            self.pos = self.read_pos;
            self.read_pos = self.read_pos + 1;
        }
    }

    /// One character of lookahead, without consuming anything.
    fn peek_char(&mut self) -> (b: u8)
        requires
            old(self).wf(),
        ensures
            *final(self) == *old(self),
            b == spec_peek(old(self)@.bytes, old(self)@.pos),
    {
        if self.read_pos >= self.input.len() {
            return 0;
        } else {
            return self.input[self.read_pos];
        }
    }

    fn skip_whitespace(&mut self)
        requires
            old(self).wf(),
        ensures
            final(self).wf(),
            final(self)@.bytes == old(self)@.bytes,
            final(self)@.pos == skip_ws_from(old(self)@.bytes, old(self)@.pos),
    {
        while is_ws(self.ch)
            invariant
                self.wf(),
                self@.bytes == old(self)@.bytes,
                skip_ws_from(old(self)@.bytes, old(self)@.pos) == skip_ws_from(
                    self@.bytes,
                    self@.pos,
                ),
            decreases self@.bytes.len() - self@.pos,
        {
            self.read_char();
        }
    }

    fn read_ident(&mut self) -> (s: String)
        requires
            old(self).wf(),
        ensures
            final(self).wf(),
            final(self)@.bytes == old(self)@.bytes,
            final(self)@.pos == ident_end(old(self)@.bytes, old(self)@.pos),
            s@ == chars_of(
                old(self)@.bytes.subrange(
                    old(self)@.pos,
                    ident_end(old(self)@.bytes, old(self)@.pos),
                ),
            ),
    {
        let start = self.pos;
        while is_letter(self.ch)
            invariant
                self.wf(),
                self@.bytes == old(self)@.bytes,
                start as int <= self@.pos,
                ident_end(old(self)@.bytes, old(self)@.pos) == ident_end(self@.bytes, self@.pos),
            decreases self@.bytes.len() - self@.pos,
        {
            self.read_char();
        }
        let mut out = String::new();
        let mut i = start;
        while i < self.pos
            invariant
                self.wf(),
                start <= i <= self.pos,
                self.pos <= self.input@.len(),
                out@ == chars_of(self.input@.subrange(start as int, i as int)),
            decreases self.pos - i,
        {
            let c = self.input[i] as char;
            push_char(&mut out, c);
            i = i + 1;
            proof {
                assert(self.input@.subrange(start as int, i as int) =~= self.input@.subrange(
                    start as int,
                    i as int - 1,
                ).push(self.input@[i - 1]));
                assert(out@ =~= chars_of(self.input@.subrange(start as int, i as int)));
            }
        }
        out
    }

    fn read_number(&mut self) -> (s: String)
        requires
            old(self).wf(),
        ensures
            final(self).wf(),
            final(self)@.bytes == old(self)@.bytes,
            final(self)@.pos == digits_end(old(self)@.bytes, old(self)@.pos),
            s@ == chars_of(
                old(self)@.bytes.subrange(
                    old(self)@.pos,
                    digits_end(old(self)@.bytes, old(self)@.pos),
                ),
            ),
    {
        let start = self.pos;
        while is_digit(self.ch)
            invariant
                self.wf(),
                self@.bytes == old(self)@.bytes,
                start as int <= self@.pos,
                digits_end(old(self)@.bytes, old(self)@.pos) == digits_end(self@.bytes, self@.pos),
            decreases self@.bytes.len() - self@.pos,
        {
            self.read_char();
        }
        let mut out = String::new();
        let mut i = start;
        while i < self.pos
            invariant
                self.wf(),
                start <= i <= self.pos,
                self.pos <= self.input@.len(),
                out@ == chars_of(self.input@.subrange(start as int, i as int)),
            decreases self.pos - i,
        {
            let c = self.input[i] as char;
            push_char(&mut out, c);
            i = i + 1;
            proof {
                assert(self.input@.subrange(start as int, i as int) =~= self.input@.subrange(
                    start as int,
                    i as int - 1,
                ).push(self.input@[i - 1]));
                assert(out@ =~= chars_of(self.input@.subrange(start as int, i as int)));
            }
        }
        out
    }

    /// Pulls exactly one token and advances the cursor past it.  Malformed
    /// bytes yield the illegal token; the end of the input yields the
    /// end-of-input token, again and again.
    pub fn next_token(&mut self) -> (tok: Token)
        requires
            old(self).wf(),
        ensures
            final(self).wf(),
            final(self)@.bytes == old(self)@.bytes,
            tok@ == next_token_at(old(self)@.bytes, old(self)@.pos).0,
            final(self)@.pos == next_token_at(old(self)@.bytes, old(self)@.pos).1,
    {
        self.skip_whitespace();
        proof {
            lemma_skip_ws_from(old(self)@.bytes, old(self)@.pos);
        }
        let tok: Token;
        if self.ch == 61 {  // '='
            if self.peek_char() == 61 {
                self.read_char();
                tok = Token::Eq;
            } else {
                tok = Token::Assign;
            }
        } else if self.ch == 33 {  // '!'
            if self.peek_char() == 61 {
                self.read_char();
                tok = Token::Neq;
            } else {
                tok = Token::Bang;
            }
        } else if self.ch == 43 {  // '+'
            tok = Token::Plus;
        } else if self.ch == 45 {  // '-'
            tok = Token::Minus;
        } else if self.ch == 47 {  // '/'
            tok = Token::Slash;
        } else if self.ch == 42 {  // '*'
            tok = Token::Asterisk;
        } else if self.ch == 60 {  // '<'
            tok = Token::Lt;
        } else if self.ch == 62 {  // '>'
            tok = Token::Gt;
        } else if self.ch == 59 {  // ';'
            tok = Token::Semicolon;
        } else if self.ch == 40 {  // '('
            tok = Token::Lparen;
        } else if self.ch == 41 {  // ')'
            tok = Token::Rparen;
        } else if self.ch == 44 {  // ','
            tok = Token::Comma;
        } else if self.ch == 123 {  // '{'
            tok = Token::Lbrace;
        } else if self.ch == 125 {  // '}'
            tok = Token::Rbrace;
        } else if self.ch == 0 {
            tok = Token::Eof;
        } else if is_letter(self.ch) {
            let txt = self.read_ident();
            return lookup_ident(txt);
        } else if is_digit(self.ch) {
            let txt = self.read_number();
            return Token::Int(txt);
        } else {
            tok = Token::Illegal;
        }
        self.read_char();
        tok
    }
}

} // verus!
