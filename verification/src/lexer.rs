use vstd::prelude::*;

use crate::errors::{ErrorV, ScriptingError};
use crate::strutil::string_from_chars;

verus! {

// ---------------------------------------------------------------------------
// Character classes.  Digits are defined here; the Unicode classes the
// tokenizer consults are named and tied to the corresponding `char` methods.
// ---------------------------------------------------------------------------
/// The Unicode White_Space property of a character.
pub uninterp spec fn spec_whitespace(c: char) -> bool;

/// Relies on `char::is_whitespace`: the Unicode White_Space property, a
/// function of the character alone.  NUL is not white space.
pub assume_specification[ char::is_whitespace ](c: char) -> (b: bool)
    ensures
        b == spec_whitespace(c) && (c == '\0' ==> !b),
;

/// The Unicode Alphabetic property of a character.
pub uninterp spec fn spec_alphabetic(c: char) -> bool;

/// Relies on `char::is_alphabetic`: the Unicode Alphabetic property, a
/// function of the character alone.
pub assume_specification[ char::is_alphabetic ](c: char) -> (b: bool)
    ensures
        b == spec_alphabetic(c),
;

/// Whether the character is alphanumeric (Unicode Alphabetic, or a decimal,
/// letter or other number).
pub uninterp spec fn spec_alphanumeric(c: char) -> bool;

/// Relies on `char::is_alphanumeric`: a function of the character alone.
/// NUL is not alphanumeric.
pub assume_specification[ char::is_alphanumeric ](c: char) -> (b: bool)
    ensures
        b == spec_alphanumeric(c) && (c == '\0' ==> !b),
;

pub open spec fn spec_is_digit(c: char) -> bool {
    '0' <= c && c <= '9'
}

/// Whether the character is an ASCII decimal digit.
pub fn is_digit_char(c: char) -> (b: bool)
    ensures
        b == spec_is_digit(c),
{
    c >= '0' && c <= '9'
}

// ---------------------------------------------------------------------------
// Numeric literals.  The tokenizer collects a run of digits and dots, brings
// it to plain decimal shape, and asks the host parser for the bits of the
// nearest double.
// ---------------------------------------------------------------------------
/// The IEEE-754 double named by a plain decimal numeral (digits, at most one
/// inner dot), as its bit pattern; `None` where the text is not such a
/// numeral.
pub uninterp spec fn decimal_bits(s: Seq<char>) -> Option<u64>;

/// Relies on `serde_json::from_str::<serde_json::Number>`: a JSON numeral
/// parses to the nearest IEEE-754 double, a function of the text alone;
/// other text is rejected.
#[verifier::external_body]
fn parse_decimal(s: &str) -> (r: Option<u64>)
    ensures
        r == decimal_bits(s@),
{
    match serde_json::from_str::<serde_json::Number>(s) {
        Ok(n) => n.as_f64().map(|v| v.to_bits()),
        Err(_) => None,
    }
}

// ---------------------------------------------------------------------------
// Tokens.
// ---------------------------------------------------------------------------
/// One token of the script language.  `Value` carries either the bits of a
/// numeric literal or a boolean literal; identifiers and string literals
/// carry their text.
#[derive(Debug)]
pub enum Token {
    Value(Option<u64>, Option<bool>),
    Identifier(String),
    String(String),
    Plus,
    Minus,
    Multiply,
    Divide,
    Assign,
    Equal,
    NotEqual,
    And,
    Or,
    Not,
    Pays,
    Superior,
    Inferior,
    SuperiorOrEqual,
    InferiorOrEqual,
    OpenParen,
    CloseParen,
    OpenCurlyParen,
    CloseCurlyParen,
    If,
    Then,
    Else,
    End,
    Comma,
    Power,
    For,
    Semicolon,  // for end of an expression or statement
    Newline,  // for end of a line
    EOF,
}

/// The mathematical shadow of [`Token`], with text as character sequences.
pub ghost enum TokenV {
    Value(Option<u64>, Option<bool>),
    Identifier(Seq<char>),
    StringLit(Seq<char>),
    Plus,
    Minus,
    Multiply,
    Divide,
    Assign,
    Equal,
    NotEqual,
    And,
    Or,
    Not,
    Pays,
    Superior,
    Inferior,
    SuperiorOrEqual,
    InferiorOrEqual,
    OpenParen,
    CloseParen,
    OpenCurlyParen,
    CloseCurlyParen,
    If,
    Then,
    Else,
    End,
    Comma,
    Power,
    For,
    Semicolon,
    Newline,
    EOF,
}

impl View for Token {
    type V = TokenV;

    open spec fn view(&self) -> TokenV {
        match self {
            Token::Value(n, b) => TokenV::Value(*n, *b),
            Token::Identifier(s) => TokenV::Identifier(s@),
            Token::String(s) => TokenV::StringLit(s@),
            Token::Plus => TokenV::Plus,
            Token::Minus => TokenV::Minus,
            Token::Multiply => TokenV::Multiply,
            Token::Divide => TokenV::Divide,
            Token::Assign => TokenV::Assign,
            Token::Equal => TokenV::Equal,
            Token::NotEqual => TokenV::NotEqual,
            Token::And => TokenV::And,
            Token::Or => TokenV::Or,
            Token::Not => TokenV::Not,
            Token::Pays => TokenV::Pays,
            Token::Superior => TokenV::Superior,
            Token::Inferior => TokenV::Inferior,
            Token::SuperiorOrEqual => TokenV::SuperiorOrEqual,
            Token::InferiorOrEqual => TokenV::InferiorOrEqual,
            Token::OpenParen => TokenV::OpenParen,
            Token::CloseParen => TokenV::CloseParen,
            Token::OpenCurlyParen => TokenV::OpenCurlyParen,
            Token::CloseCurlyParen => TokenV::CloseCurlyParen,
            Token::If => TokenV::If,
            Token::Then => TokenV::Then,
            Token::Else => TokenV::Else,
            Token::End => TokenV::End,
            Token::Comma => TokenV::Comma,
            Token::Power => TokenV::Power,
            Token::For => TokenV::For,
            Token::Semicolon => TokenV::Semicolon,
            Token::Newline => TokenV::Newline,
            Token::EOF => TokenV::EOF,
        }
    }
}

impl DeepView for Token {
    type V = TokenV;

    open spec fn deep_view(&self) -> TokenV {
        self@
    }
}

impl Clone for Token {
    /// A copy equal to the original.
    fn clone(&self) -> (res: Self)
        ensures
            res == *self,
    {
        match self {
            Token::Value(n, b) => Token::Value(clone_opt_u64(n), clone_opt_bool(b)),
            Token::Identifier(s) => Token::Identifier(s.clone()),
            Token::String(s) => Token::String(s.clone()),
            Token::Plus => Token::Plus,
            Token::Minus => Token::Minus,
            Token::Multiply => Token::Multiply,
            Token::Divide => Token::Divide,
            Token::Assign => Token::Assign,
            Token::Equal => Token::Equal,
            Token::NotEqual => Token::NotEqual,
            Token::And => Token::And,
            Token::Or => Token::Or,
            Token::Not => Token::Not,
            Token::Pays => Token::Pays,
            Token::Superior => Token::Superior,
            Token::Inferior => Token::Inferior,
            Token::SuperiorOrEqual => Token::SuperiorOrEqual,
            Token::InferiorOrEqual => Token::InferiorOrEqual,
            Token::OpenParen => Token::OpenParen,
            Token::CloseParen => Token::CloseParen,
            Token::OpenCurlyParen => Token::OpenCurlyParen,
            Token::CloseCurlyParen => Token::CloseCurlyParen,
            Token::If => Token::If,
            Token::Then => Token::Then,
            Token::Else => Token::Else,
            Token::End => Token::End,
            Token::Comma => Token::Comma,
            Token::Power => Token::Power,
            Token::For => Token::For,
            Token::Semicolon => Token::Semicolon,
            Token::Newline => Token::Newline,
            Token::EOF => Token::EOF,
        }
    }
}

fn clone_opt_u64(a: &Option<u64>) -> (r: Option<u64>)
    ensures
        r == *a,
{
    match a {
        Some(x) => Some(*x),
        None => None,
    }
}

fn clone_opt_bool(a: &Option<bool>) -> (r: Option<bool>)
    ensures
        r == *a,
{
    match a {
        Some(x) => Some(*x),
        None => None,
    }
}

impl vstd::std_specs::cmp::PartialEqSpecImpl for Token {
    open spec fn obeys_eq_spec() -> bool {
        true
    }

    open spec fn eq_spec(&self, other: &Token) -> bool {
        self@ == other@
    }
}

impl PartialEq for Token {
    /// Two tokens are equal when they have the same kind and carry the same
    /// value or text.
    fn eq(&self, other: &Token) -> (r: bool) {
        match (self, other) {
            (Token::Value(n1, b1), Token::Value(n2, b2)) => opt_u64_eq(n1, n2) && opt_bool_eq(
                b1,
                b2,
            ),
            (Token::Identifier(s1), Token::Identifier(s2)) => s1.eq(s2),
            (Token::String(s1), Token::String(s2)) => s1.eq(s2),
            (Token::Plus, Token::Plus) => true,
            (Token::Minus, Token::Minus) => true,
            (Token::Multiply, Token::Multiply) => true,
            (Token::Divide, Token::Divide) => true,
            (Token::Assign, Token::Assign) => true,
            (Token::Equal, Token::Equal) => true,
            (Token::NotEqual, Token::NotEqual) => true,
            (Token::And, Token::And) => true,
            (Token::Or, Token::Or) => true,
            (Token::Not, Token::Not) => true,
            (Token::Pays, Token::Pays) => true,
            (Token::Superior, Token::Superior) => true,
            (Token::Inferior, Token::Inferior) => true,
            (Token::SuperiorOrEqual, Token::SuperiorOrEqual) => true,
            (Token::InferiorOrEqual, Token::InferiorOrEqual) => true,
            (Token::OpenParen, Token::OpenParen) => true,
            (Token::CloseParen, Token::CloseParen) => true,
            (Token::OpenCurlyParen, Token::OpenCurlyParen) => true,
            (Token::CloseCurlyParen, Token::CloseCurlyParen) => true,
            (Token::If, Token::If) => true,
            (Token::Then, Token::Then) => true,
            (Token::Else, Token::Else) => true,
            (Token::End, Token::End) => true,
            (Token::Comma, Token::Comma) => true,
            (Token::Power, Token::Power) => true,
            (Token::For, Token::For) => true,
            (Token::Semicolon, Token::Semicolon) => true,
            (Token::Newline, Token::Newline) => true,
            (Token::EOF, Token::EOF) => true,
            _ => false,
        }
    }
}

fn opt_u64_eq(a: &Option<u64>, b: &Option<u64>) -> (r: bool)
    ensures
        r == (a == b),
{
    match (a, b) {
        (Some(x), Some(y)) => x == y,
        (None, None) => true,
        _ => false,
    }
}

fn opt_bool_eq(a: &Option<bool>, b: &Option<bool>) -> (r: bool)
    ensures
        r == (a == b),
{
    match (a, b) {
        (Some(x), Some(y)) => x == y,
        (None, None) => true,
        _ => false,
    }
}

// ---------------------------------------------------------------------------
// The tokenizer's mathematical model: scans over the character sequence.
// ---------------------------------------------------------------------------
/// The position of the first character at or after `pos` that is not
/// white space other than newline.
pub open spec fn spec_skip_ws(inp: Seq<char>, pos: nat) -> nat
    decreases inp.len() - pos,
{
    if pos < inp.len() && spec_whitespace(inp[pos as int]) && inp[pos as int] != '\n' {
        spec_skip_ws(inp, pos + 1)
    } else {
        pos
    }
}

/// The position of the first newline or NUL at or after `pos`; a comment runs
/// to there.
pub open spec fn spec_scan_comment(inp: Seq<char>, pos: nat) -> nat
    decreases inp.len() - pos,
{
    if pos < inp.len() && inp[pos as int] != '\n' && inp[pos as int] != '\0' {
        spec_scan_comment(inp, pos + 1)
    } else {
        pos
    }
}

/// The position of the closing quote at or after `pos`, or the end of input
/// if the string literal never closes.
pub open spec fn spec_scan_string(inp: Seq<char>, pos: nat) -> nat
    decreases inp.len() - pos,
{
    if pos < inp.len() && inp[pos as int] != '"' {
        spec_scan_string(inp, pos + 1)
    } else {
        pos
    }
}

/// The position of the first character at or after `pos` that is neither a
/// digit nor a dot.
pub open spec fn spec_scan_num(inp: Seq<char>, pos: nat) -> nat
    decreases inp.len() - pos,
{
    if pos < inp.len() && (spec_is_digit(inp[pos as int]) || inp[pos as int] == '.') {
        spec_scan_num(inp, pos + 1)
    } else {
        pos
    }
}

/// The position of the first character at or after `pos` that neither is
/// alphanumeric nor an underscore.
pub open spec fn spec_scan_ident(inp: Seq<char>, pos: nat) -> nat
    decreases inp.len() - pos,
{
    if pos < inp.len() && (spec_alphanumeric(inp[pos as int]) || inp[pos as int] == '_') {
        spec_scan_ident(inp, pos + 1)
    } else {
        pos
    }
}

/// The first position of the significant part of a numeral: leading zeros
/// directly followed by another digit say nothing and are dropped.
pub open spec fn spec_num_start(s: Seq<char>, i: nat) -> nat
    decreases s.len() - i,
{
    if i + 1 < s.len() && s[i as int] == '0' && spec_is_digit(s[i as int + 1]) {
        spec_num_start(s, i + 1)
    } else {
        i
    }
}

/// A collected numeral brought to plain decimal shape: leading zeros dropped,
/// and a trailing dot completed to `.0`.  Neither step changes the number the
/// text names.
pub open spec fn spec_norm_num(s: Seq<char>) -> Seq<char> {
    let t = s.subrange(spec_num_start(s, 0) as int, s.len() as int);
    if t.len() > 0 && t[t.len() - 1] == '.' {
        t.push('0')
    } else {
        t
    }
}

/// The token an identifier's text denotes: a reserved word where the text
/// matches one exactly, the identifier itself otherwise.
pub open spec fn spec_ident_token(s: Seq<char>) -> TokenV {
    if s == "if"@ {
        TokenV::If
    } else if s == "then"@ {
        TokenV::Then
    } else if s == "else"@ {
        TokenV::Else
    } else if s == "end"@ {
        TokenV::End
    } else if s == "and"@ {
        TokenV::And
    } else if s == "or"@ {
        TokenV::Or
    } else if s == "not"@ {
        TokenV::Not
    } else if s == "for"@ {
        TokenV::For
    } else if s == "true"@ {
        TokenV::Value(None, Some(true))
    } else if s == "false"@ {
        TokenV::Value(None, Some(false))
    } else if s == "pays"@ {
        TokenV::Pays
    } else {
        TokenV::Identifier(s)
    }
}

/// One step of the tokenizer: the token (or error) read from `pos`, and the
/// position after it.
pub ghost struct LexStep {
    pub out: Result<TokenV, ErrorV>,
    pub next: nat,
}

/// The token read at `pos`, after skipping white space and comments: the
/// single left-to-right scan of [`Lexer::next_token`].  `EOF` is read at the
/// end of input and at a NUL character.
pub open spec fn spec_next_token(inp: Seq<char>, pos: nat) -> LexStep
    decreases inp.len() - pos via spec_next_token_dec
{
    let p = spec_skip_ws(inp, pos);
    if p >= inp.len() {
        LexStep { out: Ok(TokenV::EOF), next: p }
    } else {
        let c = inp[p as int];
        let q = (p + 1) as nat;
        if c == '+' {
            LexStep { out: Ok(TokenV::Plus), next: q }
        } else if c == '-' {
            LexStep { out: Ok(TokenV::Minus), next: q }
        } else if c == '*' {
            if q < inp.len() && inp[q as int] == '*' {
                LexStep { out: Ok(TokenV::Power), next: q + 1 }
            } else {
                LexStep { out: Ok(TokenV::Multiply), next: q }
            }
        } else if c == '#' {
            spec_next_token(inp, spec_scan_comment(inp, q))
        } else if c == '/' {
            LexStep { out: Ok(TokenV::Divide), next: q }
        } else if c == '=' {
            if q < inp.len() && inp[q as int] == '=' {
                LexStep { out: Ok(TokenV::Equal), next: q + 1 }
            } else {
                LexStep { out: Ok(TokenV::Assign), next: q }
            }
        } else if c == '\n' {
            LexStep { out: Ok(TokenV::Newline), next: q }
        } else if c == ',' {
            LexStep { out: Ok(TokenV::Comma), next: q }
        } else if c == '!' {
            if q < inp.len() && inp[q as int] == '=' {
                LexStep { out: Ok(TokenV::NotEqual), next: q + 1 }
            } else {
                LexStep { out: Err(ErrorV::InvalidSyntax("Invalid character: !"@)), next: q }
            }
        } else if c == '(' {
            LexStep { out: Ok(TokenV::OpenParen), next: q }
        } else if c == ')' {
            LexStep { out: Ok(TokenV::CloseParen), next: q }
        } else if c == '{' {
            LexStep { out: Ok(TokenV::OpenCurlyParen), next: q }
        } else if c == '}' {
            LexStep { out: Ok(TokenV::CloseCurlyParen), next: q }
        } else if c == ';' {
            LexStep { out: Ok(TokenV::Semicolon), next: q }
        } else if c == '\0' {
            LexStep { out: Ok(TokenV::EOF), next: q }
        } else if c == '>' {
            if q < inp.len() && inp[q as int] == '=' {
                LexStep { out: Ok(TokenV::SuperiorOrEqual), next: q + 1 }
            } else {
                LexStep { out: Ok(TokenV::Superior), next: q }
            }
        } else if c == '<' {
            if q < inp.len() && inp[q as int] == '=' {
                LexStep { out: Ok(TokenV::InferiorOrEqual), next: q + 1 }
            } else {
                LexStep { out: Ok(TokenV::Inferior), next: q }
            }
        } else if c == '"' {
            let e = spec_scan_string(inp, q);
            if e >= inp.len() {
                LexStep { out: Err(ErrorV::InvalidSyntax("Unterminated string literal"@)), next: e }
            } else {
                LexStep {
                    out: Ok(TokenV::StringLit(inp.subrange(q as int, e as int))),
                    next: e + 1,
                }
            }
        } else if spec_is_digit(c) {
            let e = spec_scan_num(inp, q);
            match decimal_bits(spec_norm_num(inp.subrange(p as int, e as int))) {
                Some(bits) => LexStep { out: Ok(TokenV::Value(Some(bits), None)), next: e },
                None => LexStep {
                    out: Err(ErrorV::ParsingError("invalid float literal"@)),
                    next: e,
                },
            }
        } else if spec_alphabetic(c) {
            let e = spec_scan_ident(inp, q);
            LexStep { out: Ok(spec_ident_token(inp.subrange(p as int, e as int))), next: e }
        } else {
            LexStep {
                out: Err(ErrorV::InvalidSyntax("Invalid character: "@ + seq![c])),
                next: q,
            }
        }
    }
}

#[via_fn]
proof fn spec_next_token_dec(inp: Seq<char>, pos: nat) {
    lemma_skip_ws_bounds(inp, pos);
    let p = spec_skip_ws(inp, pos);
    if p < inp.len() {
        lemma_scan_comment_bounds(inp, (p + 1) as nat);
    }
}

pub proof fn lemma_skip_ws_bounds(inp: Seq<char>, pos: nat)
    ensures
        pos <= spec_skip_ws(inp, pos),
        pos <= inp.len() ==> spec_skip_ws(inp, pos) <= inp.len(),
        pos > inp.len() ==> spec_skip_ws(inp, pos) == pos,
    decreases inp.len() - pos,
{
    if pos < inp.len() && spec_whitespace(inp[pos as int]) && inp[pos as int] != '\n' {
        lemma_skip_ws_bounds(inp, pos + 1);
    }
}

pub proof fn lemma_scan_comment_bounds(inp: Seq<char>, pos: nat)
    ensures
        pos <= spec_scan_comment(inp, pos),
        pos <= inp.len() ==> spec_scan_comment(inp, pos) <= inp.len(),
    decreases inp.len() - pos,
{
    if pos < inp.len() && inp[pos as int] != '\n' && inp[pos as int] != '\0' {
        lemma_scan_comment_bounds(inp, pos + 1);
    }
}

pub proof fn lemma_scan_string_bounds(inp: Seq<char>, pos: nat)
    ensures
        pos <= spec_scan_string(inp, pos),
        pos <= inp.len() ==> spec_scan_string(inp, pos) <= inp.len(),
    decreases inp.len() - pos,
{
    if pos < inp.len() && inp[pos as int] != '"' {
        lemma_scan_string_bounds(inp, pos + 1);
    }
}

pub proof fn lemma_scan_num_bounds(inp: Seq<char>, pos: nat)
    ensures
        pos <= spec_scan_num(inp, pos),
        pos <= inp.len() ==> spec_scan_num(inp, pos) <= inp.len(),
    decreases inp.len() - pos,
{
    if pos < inp.len() && (spec_is_digit(inp[pos as int]) || inp[pos as int] == '.') {
        lemma_scan_num_bounds(inp, pos + 1);
    }
}

pub proof fn lemma_scan_ident_bounds(inp: Seq<char>, pos: nat)
    ensures
        pos <= spec_scan_ident(inp, pos),
        pos <= inp.len() ==> spec_scan_ident(inp, pos) <= inp.len(),
    decreases inp.len() - pos,
{
    if pos < inp.len() && (spec_alphanumeric(inp[pos as int]) || inp[pos as int] == '_') {
        lemma_scan_ident_bounds(inp, pos + 1);
    }
}

/// Each read makes progress: a token other than `EOF` is read from somewhere
/// strictly before the new position, and positions never leave the input.
pub proof fn lemma_next_token_bounds(inp: Seq<char>, pos: nat)
    requires
        pos <= inp.len(),
    ensures
        pos <= spec_next_token(inp, pos).next <= inp.len(),
        spec_next_token(inp, pos).out matches Ok(t) && t != TokenV::EOF ==> pos < spec_next_token(
            inp,
            pos,
        ).next,
    decreases inp.len() - pos,
{
    lemma_skip_ws_bounds(inp, pos);
    let p = spec_skip_ws(inp, pos);
    if p < inp.len() {
        let c = inp[p as int];
        let q = (p + 1) as nat;
        if c == '#' {
            lemma_scan_comment_bounds(inp, q);
            lemma_next_token_bounds(inp, spec_scan_comment(inp, q));
        } else if c == '"' {
            lemma_scan_string_bounds(inp, q);
        } else if c == '+' || c == '-' || c == '*' || c == '/' || c == '=' || c == '\n' || c == ','
            || c == '!' || c == '(' || c == ')' || c == '{' || c == '}' || c == ';' || c == '\0'
            || c == '>' || c == '<' {
        } else if spec_is_digit(c) {
            lemma_scan_num_bounds(inp, q);
        } else if spec_alphabetic(c) {
            lemma_scan_ident_bounds(inp, q);
        }
    }
}

/// The token sequence read from `pos` to the end of input: the tokens that
/// [`Lexer::tokenize`] collects, without the closing `EOF`; or the first
/// error.
pub open spec fn spec_tokenize(inp: Seq<char>, pos: nat) -> Result<Seq<TokenV>, ErrorV>
    decreases inp.len() + 1 - pos via spec_tokenize_dec
{
    if pos > inp.len() {
        Ok(Seq::empty())
    } else {
        let st = spec_next_token(inp, pos);
        match st.out {
            Err(e) => Err(e),
            Ok(t) => if t == TokenV::EOF {
                Ok(Seq::empty())
            } else {
                match spec_tokenize(inp, st.next) {
                    Err(e) => Err(e),
                    Ok(rest) => Ok(seq![t] + rest),
                }
            },
        }
    }
}

#[via_fn]
proof fn spec_tokenize_dec(inp: Seq<char>, pos: nat) {
    if pos <= inp.len() {
        lemma_next_token_bounds(inp, pos);
    }
}

// ---------------------------------------------------------------------------
// The tokenizer.
// ---------------------------------------------------------------------------
/// The tokenizer: a single left-to-right pass over the characters of the
/// source text.
pub struct Lexer {
    pub input: Vec<char>,
    pub position: usize,
}

impl Lexer {
    /// A lexer over the characters of `input`, starting at the beginning.
    pub fn new(input: String) -> (l: Lexer)
        ensures
            l.input@ == input@,
            l.position == 0,
    {
        Lexer { input: crate::strutil::chars_of_str(input.as_str()), position: 0 }
    }

    /// The next character; NUL at the end of input.  Advances past the
    /// character it read.
    pub fn next_char(&mut self) -> (c: char)
        ensures
            final(self).input == old(self).input,
            old(self).position >= old(self).input@.len() ==> c == '\0' && final(self).position
                == old(self).position,
            old(self).position < old(self).input@.len() ==> c == old(self).input@[old(
                self,
            ).position as int] && final(self).position == old(self).position + 1,
    {
        if self.position >= self.input.len() {
            '\0'
        } else {
            let ch = self.input[self.position];
            self.position = self.position + 1;
            ch
        }
    }

    /// The next character without consuming it; NUL at the end of input.
    pub fn peek_char(&self) -> (c: char)
        ensures
            self.position >= self.input@.len() ==> c == '\0',
            self.position < self.input@.len() ==> c == self.input@[self.position as int],
    {
        if self.position >= self.input.len() {
            '\0'
        } else {
            self.input[self.position]
        }
    }

    /// Skip white space, except newline, which is a token of its own.
    pub fn skip_whitespace(&mut self)
        ensures
            final(self).input == old(self).input,
            final(self).position == spec_skip_ws(old(self).input@, old(self).position as nat),
            final(self).position >= old(self).position,
    {
        while self.position < self.input.len() && self.input[self.position].is_whitespace()
            && self.input[self.position] != '\n'
            invariant
                self.input == old(self).input,
                old(self).position <= self.position,
                spec_skip_ws(self.input@, old(self).position as nat) == spec_skip_ws(
                    self.input@,
                    self.position as nat,
                ),
                self.position <= self.input@.len() || self.position == old(self).position,
            decreases self.input@.len() - self.position,
        {
            self.position = self.position + 1;
        }
    }

    /// Read a string literal; the opening quote is already consumed.  An
    /// unterminated literal is an error.
    fn read_string(&mut self) -> (r: Result<Token, ScriptingError>)
        ensures
            final(self).input@ == old(self).input@,
            ({
                let inp = old(self).input@;
                let e = spec_scan_string(inp, old(self).position as nat);
                if e >= inp.len() {
                    final(self).position == e && (r matches Err(err) && err@
                        == ErrorV::InvalidSyntax("Unterminated string literal"@))
                } else {
                    final(self).position == e + 1 && (r matches Ok(t) && t@ == TokenV::StringLit(
                        inp.subrange(old(self).position as int, e as int),
                    ))
                }
            }),
    {
        let ghost p0 = self.position as nat;
        let ghost inp = self.input@;
        let mut text: Vec<char> = Vec::new();
        while self.position < self.input.len() && self.input[self.position] != '"'
            invariant
                self.input@ == inp,
                p0 <= self.position,
                self.position <= inp.len() || self.position == p0,
                spec_scan_string(inp, p0) == spec_scan_string(inp, self.position as nat),
                p0 <= inp.len() ==> text@ == inp.subrange(p0 as int, self.position as int),
            decreases inp.len() - self.position,
        {
            text.push(self.input[self.position]);
            self.position = self.position + 1;
            proof {
                assert(text@ =~= inp.subrange(p0 as int, self.position as int));
            }
        }
        if self.position >= self.input.len() {
            Err(ScriptingError::InvalidSyntax("Unterminated string literal".to_owned()))
        } else {
            self.position = self.position + 1;  // consume the closing quote
            Ok(Token::String(string_from_chars(&text)))
        }
    }

    /// Read a numeric literal whose first digit `first_char` is already
    /// consumed: the longest run of digits and dots, turned into the bits of
    /// the nearest double; malformed text is an error.
    fn read_number(&mut self, first_char: char) -> (r: Result<Token, ScriptingError>)
        requires
            old(self).position >= 1,
            old(self).position <= old(self).input@.len(),
            first_char == old(self).input@[old(self).position - 1],
        ensures
            final(self).input@ == old(self).input@,
            ({
                let inp = old(self).input@;
                let e = spec_scan_num(inp, old(self).position as nat);
                let text = inp.subrange(old(self).position - 1, e as int);
                final(self).position == e && match decimal_bits(spec_norm_num(text)) {
                    Some(bits) => (r matches Ok(t) && t@ == TokenV::Value(Some(bits), None)),
                    None => (r matches Err(err) && err@ == ErrorV::ParsingError(
                        "invalid float literal"@,
                    )),
                }
            }),
    {
        let ghost p0 = self.position as nat;
        let ghost inp = self.input@;
        let mut text: Vec<char> = Vec::new();
        text.push(first_char);
        proof {
            assert(text@ =~= inp.subrange(p0 - 1, p0 as int));
        }
        while self.position < self.input.len() && (is_digit_char(self.input[self.position])
            || self.input[self.position] == '.')
            invariant
                self.input@ == inp,
                1 <= p0 <= self.position <= inp.len(),
                spec_scan_num(inp, p0) == spec_scan_num(inp, self.position as nat),
                text@ == inp.subrange(p0 - 1, self.position as int),
            decreases inp.len() - self.position,
        {
            text.push(self.input[self.position]);
            self.position = self.position + 1;
            proof {
                assert(text@ =~= inp.subrange(p0 - 1, self.position as int));
            }
        }
        // Bring the numeral to plain decimal shape.
        let mut start: usize = 0;
        let tlen = text.len();
        while start < tlen - 1 && text[start] == '0' && is_digit_char(text[start + 1])
            invariant
                tlen == text@.len(),
                1 <= tlen,
                start < text@.len(),
                spec_num_start(text@, 0) == spec_num_start(text@, start as nat),
            decreases text@.len() - start,
        {
            start = start + 1;
        }
        let mut norm: Vec<char> = Vec::new();
        let mut i: usize = start;
        while i < text.len()
            invariant
                start <= i <= text@.len(),
                norm@ == text@.subrange(start as int, i as int),
            decreases text@.len() - i,
        {
            norm.push(text[i]);
            i = i + 1;
            proof {
                assert(norm@ =~= text@.subrange(start as int, i as int));
            }
        }
        if norm.len() > 0 && norm[norm.len() - 1] == '.' {
            norm.push('0');
        }
        proof {
            assert(norm@ == spec_norm_num(text@));
        }
        let norm_text = string_from_chars(&norm);
        match parse_decimal(norm_text.as_str()) {
            Some(bits) => Ok(Token::Value(Some(bits), None)),
            None => Err(ScriptingError::ParsingError("invalid float literal".to_owned())),
        }
    }

    /// Read an identifier or reserved word whose first letter `first_char`
    /// is already consumed.
    fn read_identifier(&mut self, first_char: char) -> (r: Result<Token, ScriptingError>)
        requires
            old(self).position >= 1,
            old(self).position <= old(self).input@.len(),
            first_char == old(self).input@[old(self).position - 1],
        ensures
            final(self).input@ == old(self).input@,
            ({
                let inp = old(self).input@;
                let e = spec_scan_ident(inp, old(self).position as nat);
                final(self).position == e && (r matches Ok(t) && t@ == spec_ident_token(
                    inp.subrange(old(self).position - 1, e as int),
                ))
            }),
    {
        let ghost p0 = self.position as nat;
        let ghost inp = self.input@;
        let mut text: Vec<char> = Vec::new();
        text.push(first_char);
        proof {
            assert(text@ =~= inp.subrange(p0 - 1, p0 as int));
        }
        while self.position < self.input.len() && (self.input[self.position].is_alphanumeric()
            || self.input[self.position] == '_')
            invariant
                self.input@ == inp,
                1 <= p0 <= self.position <= inp.len(),
                spec_scan_ident(inp, p0) == spec_scan_ident(inp, self.position as nat),
                text@ == inp.subrange(p0 - 1, self.position as int),
            decreases inp.len() - self.position,
        {
            text.push(self.input[self.position]);
            self.position = self.position + 1;
            proof {
                assert(text@ =~= inp.subrange(p0 - 1, self.position as int));
            }
        }
        let s = string_from_chars(&text);
        if str_eq_string(&s, "if") {
            Ok(Token::If)
        } else if str_eq_string(&s, "then") {
            Ok(Token::Then)
        } else if str_eq_string(&s, "else") {
            Ok(Token::Else)
        } else if str_eq_string(&s, "end") {
            Ok(Token::End)
        } else if str_eq_string(&s, "and") {
            Ok(Token::And)
        } else if str_eq_string(&s, "or") {
            Ok(Token::Or)
        } else if str_eq_string(&s, "not") {
            Ok(Token::Not)
        } else if str_eq_string(&s, "for") {
            Ok(Token::For)
        } else if str_eq_string(&s, "true") {
            Ok(Token::Value(None, Some(true)))
        } else if str_eq_string(&s, "false") {
            Ok(Token::Value(None, Some(false)))
        } else if str_eq_string(&s, "pays") {
            Ok(Token::Pays)
        } else {
            Ok(Token::Identifier(s))
        }
    }

    /// The next token of the input: white space and comments skipped, the
    /// longest match read.  `EOF` at the end of input.
    pub fn next_token(&mut self) -> (r: Result<Token, ScriptingError>)
        ensures
            final(self).input@ == old(self).input@,
            ({
                let st = spec_next_token(old(self).input@, old(self).position as nat);
                final(self).position == st.next && lex_matches(r, st.out)
            }),
        decreases old(self).input@.len() - old(self).position,
    {
        self.skip_whitespace();
        let ghost inp = self.input@;
        let ghost p = self.position as nat;
        let ch = self.next_char();
        match ch {
            '+' => Ok(Token::Plus),
            '-' => Ok(Token::Minus),
            '*' => {
                if self.peek_char() == '*' {
                    let _ = self.next_char();
                    Ok(Token::Power)
                } else {
                    Ok(Token::Multiply)
                }
            },
            '#' => {
                while self.position < self.input.len() && self.input[self.position] != '\n'
                    && self.input[self.position] != '\0'
                    invariant
                        self.input@ == inp,
                        p < self.position || (p >= inp.len() && p == self.position),
                        self.position <= inp.len() || self.position == p,
                        spec_scan_comment(inp, (p + 1) as nat) == spec_scan_comment(
                            inp,
                            self.position as nat,
                        ),
                    decreases inp.len() - self.position,
                {
                    self.position = self.position + 1;
                }
                self.next_token()
            },
            '/' => Ok(Token::Divide),
            '=' => {
                if self.peek_char() == '=' {
                    let _ = self.next_char();
                    Ok(Token::Equal)
                } else {
                    Ok(Token::Assign)
                }
            },
            '\n' => Ok(Token::Newline),
            ',' => Ok(Token::Comma),
            '!' => {
                if self.peek_char() == '=' {
                    let _ = self.next_char();
                    Ok(Token::NotEqual)
                } else {
                    Err(ScriptingError::InvalidSyntax("Invalid character: !".to_owned()))
                }
            },
            '(' => Ok(Token::OpenParen),
            ')' => Ok(Token::CloseParen),
            '{' => Ok(Token::OpenCurlyParen),
            '}' => Ok(Token::CloseCurlyParen),
            ';' => Ok(Token::Semicolon),
            '\0' => Ok(Token::EOF),
            '>' => {
                if self.peek_char() == '=' {
                    let _ = self.next_char();
                    Ok(Token::SuperiorOrEqual)
                } else {
                    Ok(Token::Superior)
                }
            },
            '<' => {
                if self.peek_char() == '=' {
                    let _ = self.next_char();
                    Ok(Token::InferiorOrEqual)
                } else {
                    Ok(Token::Inferior)
                }
            },
            '"' => self.read_string(),
            other => {
                if is_digit_char(other) {
                    self.read_number(other)
                } else if other.is_alphabetic() {
                    self.read_identifier(other)
                } else {
                    let mut m = "Invalid character: ".to_owned();
                    m.push(other);
                    proof {
                        assert(m@ =~= "Invalid character: "@ + seq![other]);
                    }
                    Err(ScriptingError::InvalidSyntax(m))
                }
            },
        }
    }

    /// All tokens of the input up to, and not including, the end-of-input
    /// marker; or the first lexing error.
    pub fn tokenize(&mut self) -> (r: Result<Vec<Token>, ScriptingError>)
        ensures
            final(self).input@ == old(self).input@,
            match (r, spec_tokenize(old(self).input@, old(self).position as nat)) {
                (Ok(v), Ok(ts)) => v.deep_view() == ts,
                (Err(e), Err(ev)) => e@ == ev,
                _ => false,
            },
    {
        let ghost inp = self.input@;
        let ghost p0 = self.position as nat;
        let mut tokens: Vec<Token> = Vec::new();
        loop
            invariant
                inp == old(self).input@,
                p0 == old(self).position as nat,
                self.input@ == inp,
                p0 <= self.position,
                self.position <= inp.len() || self.position == p0,
                spec_tokenize(inp, p0) == (match spec_tokenize(inp, self.position as nat) {
                    Ok(rest) => Ok::<Seq<TokenV>, ErrorV>(tokens.deep_view() + rest),
                    Err(e) => Err::<Seq<TokenV>, ErrorV>(e),
                }),
            decreases inp.len() + 1 - self.position,
        {
            let ghost cur = self.position as nat;
            proof {
                if cur <= inp.len() {
                    lemma_next_token_bounds(inp, cur);
                }
            }
            let t = match self.next_token() {
                Ok(t) => t,
                Err(e) => {
                    proof {
                        assert(spec_next_token(inp, cur).out matches Err(ev) && ev == e@);
                        assert(cur <= inp.len()) by {
                            if cur > inp.len() {
                                lemma_skip_ws_bounds(inp, cur);
                            }
                        }
                        assert(spec_tokenize(inp, cur) == Err::<Seq<TokenV>, ErrorV>(e@));
                    }
                    return Err(e);
                },
            };
            if t == Token::EOF {
                proof {
                    assert(tokens.deep_view() + Seq::<TokenV>::empty() =~= tokens.deep_view());
                }
                return Ok(tokens);
            }
            let ghost before = tokens.deep_view();
            tokens.push(t);
            proof {
                assert(tokens.deep_view() =~= before + seq![t@]);
                assert forall|rest: Seq<TokenV>| (before + (seq![t@] + rest)) =~= (tokens.deep_view()
                    + rest) by {}
            }
        }
    }
}

/// Whether an executable lexing outcome is the one the model names.
pub open spec fn lex_matches(r: Result<Token, ScriptingError>, out: Result<TokenV, ErrorV>) -> bool {
    match (r, out) {
        (Ok(t), Ok(tv)) => t@ == tv,
        (Err(e), Err(ev)) => e@ == ev,
        _ => false,
    }
}

/// Whether an owned string holds exactly the text of a literal.
fn str_eq_string(a: &String, b: &str) -> (r: bool)
    ensures
        r == (a@ == b@),
{
    a.eq(&b.to_owned())
}

} // verus!
