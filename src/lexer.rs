use vstd::prelude::*;
use crate::number::Numbers;
use crate::text::{chars_of, decimal, owned, push_char, string_of_range, usize_to_string, views};

verus! {

/// The kinds of token of the language.
#[allow(non_camel_case_types)]
#[derive(Clone, Copy, PartialEq, Eq, Debug, Structural)]
pub enum TokenType {
    // Single-character tokens.
    LEFT_PAREN,
    RIGHT_PAREN,
    LEFT_BRACE,
    RIGHT_BRACE,
    COMMA,
    DOT,
    MINUS,
    PLUS,
    SEMICOLON,
    SLASH,
    STAR,
    // One or two character tokens.
    BANG,
    BANG_EQUAL,
    EQUAL,
    EQUAL_EQUAL,
    GREATER,
    GREATER_EQUAL,
    LESS,
    LESS_EQUAL,
    // Literals.
    IDENTIFIER,
    STRING,
    NUMBER,
    // Keywords.
    AND,
    CLASS,
    ELSE,
    FALSE,
    FUN,
    FOR,
    IF,
    NIL,
    OR,
    PRINT,
    RETURN,
    SUPER,
    THIS,
    TRUE,
    VAR,
    WHILE,
    EOF,
}

/// The reserved word spelled by `s`, if any.
pub open spec fn keyword_kind(s: Seq<char>) -> Option<TokenType> {
    if s == seq!['a', 'n', 'd'] {
        Some(TokenType::AND)
    } else if s == seq!['c', 'l', 'a', 's', 's'] {
        Some(TokenType::CLASS)
    } else if s == seq!['e', 'l', 's', 'e'] {
        Some(TokenType::ELSE)
    } else if s == seq!['f', 'a', 'l', 's', 'e'] {
        Some(TokenType::FALSE)
    } else if s == seq!['f', 'o', 'r'] {
        Some(TokenType::FOR)
    } else if s == seq!['f', 'u', 'n'] {
        Some(TokenType::FUN)
    } else if s == seq!['i', 'f'] {
        Some(TokenType::IF)
    } else if s == seq!['n', 'i', 'l'] {
        Some(TokenType::NIL)
    } else if s == seq!['o', 'r'] {
        Some(TokenType::OR)
    } else if s == seq!['p', 'r', 'i', 'n', 't'] {
        Some(TokenType::PRINT)
    } else if s == seq!['r', 'e', 't', 'u', 'r', 'n'] {
        Some(TokenType::RETURN)
    } else if s == seq!['s', 'u', 'p', 'e', 'r'] {
        Some(TokenType::SUPER)
    } else if s == seq!['t', 'h', 'i', 's'] {
        Some(TokenType::THIS)
    } else if s == seq!['t', 'r', 'u', 'e'] {
        Some(TokenType::TRUE)
    } else if s == seq!['v', 'a', 'r'] {
        Some(TokenType::VAR)
    } else if s == seq!['w', 'h', 'i', 'l', 'e'] {
        Some(TokenType::WHILE)
    } else {
        None
    }
}

fn spells(v: &Vec<char>, w: &[char]) -> (r: bool)
    ensures
        r == (v@ == w@),
{
    if v.len() != w.len() {
        return false;
    }
    let mut i: usize = 0;
    while i < v.len()
        invariant
            v@.len() == w@.len(),
            i <= v@.len(),
            forall|k: int| 0 <= k < i ==> v@[k] == w@[k],
        decreases v.len() - i,
    {
        if v[i] != w[i] {
            return false;
        }
        i = i + 1;
    }
    assert(v@ =~= w@);
    true
}

fn keyword_in(v: &Vec<char>) -> (r: Option<TokenType>)
    ensures
        r == keyword_kind(v@),
{
    assert(['a', 'n', 'd']@ =~= seq!['a', 'n', 'd']);
    assert(['c', 'l', 'a', 's', 's']@ =~= seq!['c', 'l', 'a', 's', 's']);
    assert(['e', 'l', 's', 'e']@ =~= seq!['e', 'l', 's', 'e']);
    assert(['f', 'a', 'l', 's', 'e']@ =~= seq!['f', 'a', 'l', 's', 'e']);
    assert(['f', 'o', 'r']@ =~= seq!['f', 'o', 'r']);
    assert(['f', 'u', 'n']@ =~= seq!['f', 'u', 'n']);
    assert(['i', 'f']@ =~= seq!['i', 'f']);
    assert(['n', 'i', 'l']@ =~= seq!['n', 'i', 'l']);
    assert(['o', 'r']@ =~= seq!['o', 'r']);
    assert(['p', 'r', 'i', 'n', 't']@ =~= seq!['p', 'r', 'i', 'n', 't']);
    assert(['r', 'e', 't', 'u', 'r', 'n']@ =~= seq!['r', 'e', 't', 'u', 'r', 'n']);
    assert(['s', 'u', 'p', 'e', 'r']@ =~= seq!['s', 'u', 'p', 'e', 'r']);
    assert(['t', 'h', 'i', 's']@ =~= seq!['t', 'h', 'i', 's']);
    assert(['t', 'r', 'u', 'e']@ =~= seq!['t', 'r', 'u', 'e']);
    assert(['v', 'a', 'r']@ =~= seq!['v', 'a', 'r']);
    assert(['w', 'h', 'i', 'l', 'e']@ =~= seq!['w', 'h', 'i', 'l', 'e']);
    if spells(v, &['a', 'n', 'd']) {
        Some(TokenType::AND)
    } else if spells(v, &['c', 'l', 'a', 's', 's']) {
        Some(TokenType::CLASS)
    } else if spells(v, &['e', 'l', 's', 'e']) {
        Some(TokenType::ELSE)
    } else if spells(v, &['f', 'a', 'l', 's', 'e']) {
        Some(TokenType::FALSE)
    } else if spells(v, &['f', 'o', 'r']) {
        Some(TokenType::FOR)
    } else if spells(v, &['f', 'u', 'n']) {
        Some(TokenType::FUN)
    } else if spells(v, &['i', 'f']) {
        Some(TokenType::IF)
    } else if spells(v, &['n', 'i', 'l']) {
        Some(TokenType::NIL)
    } else if spells(v, &['o', 'r']) {
        Some(TokenType::OR)
    } else if spells(v, &['p', 'r', 'i', 'n', 't']) {
        Some(TokenType::PRINT)
    } else if spells(v, &['r', 'e', 't', 'u', 'r', 'n']) {
        Some(TokenType::RETURN)
    } else if spells(v, &['s', 'u', 'p', 'e', 'r']) {
        Some(TokenType::SUPER)
    } else if spells(v, &['t', 'h', 'i', 's']) {
        Some(TokenType::THIS)
    } else if spells(v, &['t', 'r', 'u', 'e']) {
        Some(TokenType::TRUE)
    } else if spells(v, &['v', 'a', 'r']) {
        Some(TokenType::VAR)
    } else if spells(v, &['w', 'h', 'i', 'l', 'e']) {
        Some(TokenType::WHILE)
    } else {
        None
    }
}

/// The keyword token type for a reserved word, `None` for any other text.
pub fn keywords(key: &str) -> (r: Option<TokenType>)
    ensures
        r == keyword_kind(key@),
{
    let v = chars_of(key);
    keyword_in(&v)
}

pub open spec fn is_digit_char(c: char) -> bool {
    '0' <= c && c <= '9'
}

pub open spec fn is_alpha_char(c: char) -> bool {
    ('a' <= c && c <= 'z') || ('A' <= c && c <= 'Z') || c == '_'
}

fn is_digit(c: char) -> (r: bool)
    ensures
        r == is_digit_char(c),
{
    '0' <= c && c <= '9'
}

fn is_alpha(c: char) -> (r: bool)
    ensures
        r == is_alpha_char(c),
{
    ('a' <= c && c <= 'z') || ('A' <= c && c <= 'Z') || c == '_'
}

/// Whitespace that separates tokens, the line break aside.
pub open spec fn is_blank_char(c: char) -> bool {
    c == ' ' || c == '\t' || c == '\r' || c == '\x0B' || c == '\x0C'
}

/// The number of line breaks in `s`.
pub open spec fn newlines(s: Seq<char>) -> nat
    decreases s.len(),
{
    if s.len() == 0 {
        0
    } else {
        newlines(s.drop_last()) + if s.last() == '\n' {
            1nat
        } else {
            0nat
        }
    }
}

/// The kind of a one-character token.
pub open spec fn punct_kind(c: char) -> TokenType {
    if c == '(' {
        TokenType::LEFT_PAREN
    } else if c == ')' {
        TokenType::RIGHT_PAREN
    } else if c == '{' {
        TokenType::LEFT_BRACE
    } else if c == '}' {
        TokenType::RIGHT_BRACE
    } else if c == ',' {
        TokenType::COMMA
    } else if c == '.' {
        TokenType::DOT
    } else if c == '-' {
        TokenType::MINUS
    } else if c == '+' {
        TokenType::PLUS
    } else if c == ';' {
        TokenType::SEMICOLON
    } else if c == '*' {
        TokenType::STAR
    } else if c == '/' {
        TokenType::SLASH
    } else if c == '!' {
        TokenType::BANG
    } else if c == '=' {
        TokenType::EQUAL
    } else if c == '<' {
        TokenType::LESS
    } else {
        TokenType::GREATER
    }
}

/// The kind of a two-character operator whose first character is `c`.
pub open spec fn pair_kind(c: char) -> TokenType {
    if c == '!' {
        TokenType::BANG_EQUAL
    } else if c == '=' {
        TokenType::EQUAL_EQUAL
    } else if c == '<' {
        TokenType::LESS_EQUAL
    } else {
        TokenType::GREATER_EQUAL
    }
}

/// The kind of token that a lexeme spells.
pub open spec fn kind_of(l: Seq<char>) -> TokenType {
    if l.len() == 0 {
        TokenType::EOF
    } else if l[0] == '"' {
        TokenType::STRING
    } else if is_digit_char(l[0]) {
        TokenType::NUMBER
    } else if is_alpha_char(l[0]) {
        match keyword_kind(l) {
            Some(k) => k,
            None => TokenType::IDENTIFIER,
        }
    } else if l.len() == 2 {
        pair_kind(l[0])
    } else {
        punct_kind(l[0])
    }
}

/// The decoded value attached to a token.
#[derive(Clone, Debug)]
pub enum Literal {
    /// A number, by the numeral that denotes it.
    Number(String),
    String(String),
    Boolean(bool),
    Identifier(String),
    Nothing,
}

/// One token: its kind, the source text that produced it, the line on which it ends,
/// its decoded value and the position of its first character in the source.
#[derive(Clone, Debug)]
pub struct Token {
    pub token_type: TokenType,
    pub lexeme: String,
    pub line: usize,
    pub literal: Literal,
    pub offset: usize,
}

impl Token {
    pub open spec fn end(self) -> int {
        self.offset + self.lexeme@.len()
    }

    /// The literal matches the kind and the lexeme: a string's contents without the
    /// quotes, a number's numeral, nothing otherwise.
    pub open spec fn literal_fits(self) -> bool {
        match self.literal {
            Literal::String(s) => self.token_type == TokenType::STRING && self.lexeme@.len() >= 2
                && s@ == self.lexeme@.subrange(1, self.lexeme@.len() - 1),
            Literal::Number(s) => self.token_type == TokenType::NUMBER && s@ == self.lexeme@,
            Literal::Nothing => self.token_type != TokenType::STRING && self.token_type
                != TokenType::NUMBER,
            _ => false,
        }
    }

    /// Put back into `src` at its offset, the token's lexeme reproduces it: the text is
    /// there, the kind is the one the text spells, and the line is the one on which the
    /// text ends.
    pub open spec fn found_in(self, src: Seq<char>) -> bool {
        &&& 0 <= self.offset
        &&& self.lexeme@.len() > 0
        &&& self.end() <= src.len()
        &&& src.subrange(self.offset as int, self.end()) == self.lexeme@
        &&& self.token_type == kind_of(self.lexeme@)
        &&& self.line == 1 + newlines(src.take(self.end()))
        &&& self.literal_fits()
    }

    /// The closing token of a scan of `src`.
    pub open spec fn is_eof_of(self, src: Seq<char>) -> bool {
        &&& self.token_type == TokenType::EOF
        &&& self.lexeme@.len() == 0
        &&& self.offset == src.len()
        &&& self.line == 1 + newlines(src)
        &&& self.literal is Nothing
    }
}

impl Literal {
    /// A copy of the literal.
    pub fn copy(&self) -> (r: Literal)
        ensures
            r == *self,
    {
        match self {
            Literal::Number(s) => Literal::Number(s.clone()),
            Literal::String(s) => Literal::String(s.clone()),
            Literal::Boolean(b) => Literal::Boolean(*b),
            Literal::Identifier(s) => Literal::Identifier(s.clone()),
            Literal::Nothing => Literal::Nothing,
        }
    }
}

impl Token {
    /// A copy of the token.
    pub fn copy(&self) -> (r: Token)
        ensures
            r == *self,
    {
        Token {
            token_type: self.token_type,
            lexeme: self.lexeme.clone(),
            line: self.line,
            literal: self.literal.copy(),
            offset: self.offset,
        }
    }
}

/// `toks` is a scan of `src`: tokens found in the source in increasing position,
/// closed by exactly one end-of-file token.
pub open spec fn scan_of(src: Seq<char>, toks: Seq<Token>) -> bool {
    &&& toks.len() > 0
    &&& toks.last().is_eof_of(src)
    &&& forall|k: int| 0 <= k < toks.len() - 1 ==> #[trigger] toks[k].found_in(src)
    &&& forall|k: int| 0 <= k < toks.len() - 1 ==> #[trigger] toks[k].end() <= toks[k + 1].offset
}

proof fn lemma_newlines_step(s: Seq<char>, i: int)
    requires
        0 <= i < s.len(),
    ensures
        newlines(s.take(i + 1)) == newlines(s.take(i)) + if s[i] == '\n' {
            1nat
        } else {
            0nat
        },
{
    assert(s.take(i + 1).drop_last() =~= s.take(i));
}

proof fn lemma_newlines_bound(s: Seq<char>)
    ensures
        newlines(s) <= s.len(),
    decreases s.len(),
{
    if s.len() > 0 {
        lemma_newlines_bound(s.drop_last());
    }
}

/// A scanner: the tokens found so far, the current line, and the errors reported.
pub struct Lexer {
    pub tokens: Vec<Token>,
    pub had_error: bool,
    pub line: usize,
    pub errors: Vec<String>,
}

/// The text of a lexical error report.
pub open spec fn error_text(line: nat, location: Seq<char>, message: Seq<char>) -> Seq<char> {
    "[line "@ + decimal(line) + "] Error"@ + location + ": "@ + message
}

impl Lexer {
    /// The part of `src` before position `i` has been scanned into `self.tokens`.
    pub open spec fn scanned(self, src: Seq<char>, i: int) -> bool {
        &&& 0 <= i <= src.len()
        &&& src.len() < usize::MAX
        &&& self.line == 1 + newlines(src.take(i))
        &&& forall|k: int| 0 <= k < self.tokens@.len() ==> #[trigger] self.tokens@[k].found_in(src)
        &&& forall|k: int|
            0 <= k < self.tokens@.len() - 1 ==> #[trigger] self.tokens@[k].end()
                <= self.tokens@[k + 1].offset
        &&& self.tokens@.len() > 0 ==> self.tokens@.last().end() <= i
        &&& self.had_error == (self.errors@.len() > 0)
    }

    pub fn new() -> (r: Self)
        ensures
            r.tokens@.len() == 0,
            r.errors@.len() == 0,
            !r.had_error,
            r.line == 1,
    {
        Lexer { tokens: Vec::new(), had_error: false, line: 1, errors: Vec::new() }
    }

    /// Reports an error at `line`.
    pub fn error(&mut self, line: usize, message: &str)
        ensures
            final(self).errors@ == old(self).errors@.push(
                final(self).errors@.last(),
            ),
            final(self).errors@.last()@ == error_text(line as nat, Seq::empty(), message@),
            final(self).had_error,
            final(self).tokens == old(self).tokens,
            final(self).line == old(self).line,
    {
        self.report(line, "", message);
        proof {
            reveal_strlit("");
        }
    }

    /// Records the report `[line L] Error<location>: <message>`.
    pub fn report(&mut self, line: usize, location: &str, message: &str)
        ensures
            final(self).errors@ == old(self).errors@.push(
                final(self).errors@.last(),
            ),
            final(self).errors@.last()@ == error_text(line as nat, location@, message@),
            final(self).had_error,
            final(self).tokens == old(self).tokens,
            final(self).line == old(self).line,
    {
        let mut text = owned("[line ");
        let number = usize_to_string(line);
        text.append(number.as_str());
        text.append("] Error");
        text.append(location);
        text.append(": ");
        text.append(message);
        self.errors.push(text);
        self.had_error = true;
    }

    fn add_token(&mut self, token_type: TokenType, lexeme: String, offset: usize)
        ensures
            final(self).tokens@ == old(self).tokens@.push(
                Token { token_type, lexeme, line: old(self).line, literal: Literal::Nothing, offset },
            ),
            final(self).line == old(self).line,
            final(self).errors == old(self).errors,
            final(self).had_error == old(self).had_error,
    {
        self.add_token_literal(token_type, lexeme, Literal::Nothing, offset);
    }

    fn add_token_literal(
        &mut self,
        token_type: TokenType,
        lexeme: String,
        literal: Literal,
        offset: usize,
    )
        ensures
            final(self).tokens@ == old(self).tokens@.push(
                Token { token_type, lexeme, line: old(self).line, literal, offset },
            ),
            final(self).line == old(self).line,
            final(self).errors == old(self).errors,
            final(self).had_error == old(self).had_error,
    {
        let line = self.line;
        self.tokens.push(Token { token_type, lexeme, line, literal, offset });
    }
}


/// The end of the run of identifier characters that starts at `i`.
pub open spec fn ident_end(src: Seq<char>, i: int) -> int
    decreases src.len() - i,
{
    if 0 <= i < src.len() && (is_alpha_char(src[i]) || is_digit_char(src[i])) {
        ident_end(src, i + 1)
    } else {
        i
    }
}

/// The end of the run of digits that starts at `i`.
pub open spec fn digits_end(src: Seq<char>, i: int) -> int
    decreases src.len() - i,
{
    if 0 <= i < src.len() && is_digit_char(src[i]) {
        digits_end(src, i + 1)
    } else {
        i
    }
}

/// The position of the first line break at or after `i`, or the end of the source.
pub open spec fn line_end(src: Seq<char>, i: int) -> int
    decreases src.len() - i,
{
    if 0 <= i < src.len() && src[i] != '\n' {
        line_end(src, i + 1)
    } else {
        i
    }
}

/// The position of the first `"` at or after `i`, or the end of the source.
pub open spec fn quote_end(src: Seq<char>, i: int) -> int
    decreases src.len() - i,
{
    if 0 <= i < src.len() && src[i] != '"' {
        quote_end(src, i + 1)
    } else {
        i
    }
}

/// The end of the number that starts at `i`: its digits, then a fraction only when a dot is
/// followed by a digit.
pub open spec fn number_end(src: Seq<char>, i: int) -> int {
    let d = digits_end(src, i + 1);
    if d + 1 < src.len() && src[d] == '.' && is_digit_char(src[d + 1]) {
        digits_end(src, d + 2)
    } else {
        d
    }
}

pub open spec fn is_single_char(c: char) -> bool {
    c == '(' || c == ')' || c == '{' || c == '}' || c == ',' || c == '.' || c == '-' || c == '+'
        || c == ';' || c == '*'
}

pub open spec fn is_operator_char(c: char) -> bool {
    c == '!' || c == '=' || c == '<' || c == '>'
}

/// The end of the token that the scan finds at `i`, if it finds one there: the longest match.
pub open spec fn step_token(src: Seq<char>, i: int) -> Option<int> {
    let c = src[i];
    if is_single_char(c) {
        Some(i + 1)
    } else if is_operator_char(c) {
        if i + 1 < src.len() && src[i + 1] == '=' {
            Some(i + 2)
        } else {
            Some(i + 1)
        }
    } else if c == '/' {
        if i + 1 < src.len() && src[i + 1] == '/' {
            None
        } else {
            Some(i + 1)
        }
    } else if c == '"' {
        if quote_end(src, i + 1) < src.len() {
            Some(quote_end(src, i + 1) + 1)
        } else {
            None
        }
    } else if is_digit_char(c) {
        Some(number_end(src, i))
    } else if is_alpha_char(c) {
        Some(ident_end(src, i + 1))
    } else {
        None
    }
}

/// Where the scan goes on after position `i`: past the token found there, past a comment to
/// its line break, to the end after an unterminated string, or past the one character.
pub open spec fn step_next(src: Seq<char>, i: int) -> int {
    match step_token(src, i) {
        Some(e) => e,
        None => if src[i] == '/' {
            line_end(src, i + 2)
        } else if src[i] == '"' {
            src.len() as int
        } else {
            i + 1
        },
    }
}

/// Whether the scan reports an error at `i`: an unterminated string, or a character that
/// starts no token and is no whitespace.
pub open spec fn step_error(src: Seq<char>, i: int) -> bool {
    let c = src[i];
    if c == '"' {
        quote_end(src, i + 1) >= src.len()
    } else {
        !(is_single_char(c) || is_operator_char(c) || c == '/' || is_digit_char(c)
            || is_alpha_char(c) || is_blank_char(c) || c == '\n')
    }
}

/// The report of the error that the scan finds at `i`: an unterminated string is reported
/// at the last line, an unexpected character at its own line.
pub open spec fn step_error_text(src: Seq<char>, i: int) -> Seq<char> {
    if src[i] == '"' {
        error_text((1 + newlines(src)) as nat, Seq::empty(), "Unterminated string."@)
    } else {
        error_text(
            (1 + newlines(src.take(i))) as nat,
            Seq::empty(),
            "Unexpected character: "@.push(src[i]),
        )
    }
}

/// The reports of the scan step at `i`: its error's, if it has one.
pub open spec fn step_error_texts(src: Seq<char>, i: int) -> Seq<Seq<char>> {
    if step_error(src, i) {
        seq![step_error_text(src, i)]
    } else {
        Seq::empty()
    }
}

/// The reports of the errors that a scan of `src` from `i` finds, in order.
pub open spec fn error_texts(src: Seq<char>, i: int) -> Seq<Seq<char>>
    decreases src.len() - i,
{
    if i < 0 || i >= src.len() || step_next(src, i) <= i || step_next(src, i) > src.len() {
        Seq::empty()
    } else {
        step_error_texts(src, i) + error_texts(src, step_next(src, i))
    }
}

/// The spans `(start, end)` of the tokens that a scan of `src` from `i` finds, in order.
pub open spec fn spans(src: Seq<char>, i: int) -> Seq<(int, int)>
    decreases src.len() - i,
{
    if i < 0 || i >= src.len() || step_next(src, i) <= i || step_next(src, i) > src.len() {
        Seq::empty()
    } else {
        match step_token(src, i) {
            Some(e) => seq![(i, e)] + spans(src, step_next(src, i)),
            None => spans(src, step_next(src, i)),
        }
    }
}

/// The number of errors that a scan of `src` from `i` reports.
pub open spec fn error_count(src: Seq<char>, i: int) -> nat
    decreases src.len() - i,
{
    if i < 0 || i >= src.len() || step_next(src, i) <= i || step_next(src, i) > src.len() {
        0
    } else {
        error_count(src, step_next(src, i)) + if step_error(src, i) {
            1nat
        } else {
            0nat
        }
    }
}

/// The spans of a list of tokens.
pub open spec fn token_spans(toks: Seq<Token>) -> Seq<(int, int)> {
    toks.map_values(|t: Token| (t.offset as int, t.end()))
}

proof fn lemma_ident_end(src: Seq<char>, i: int)
    requires
        0 <= i <= src.len(),
    ensures
        i <= ident_end(src, i) <= src.len(),
        forall|k: int| i <= k < ident_end(src, i) ==> src[k] != '\n',
    decreases src.len() - i,
{
    if i < src.len() && (is_alpha_char(src[i]) || is_digit_char(src[i])) {
        lemma_ident_end(src, i + 1);
    }
}

proof fn lemma_digits_end(src: Seq<char>, i: int)
    requires
        0 <= i <= src.len(),
    ensures
        i <= digits_end(src, i) <= src.len(),
        forall|k: int| i <= k < digits_end(src, i) ==> is_digit_char(src[k]),
    decreases src.len() - i,
{
    if i < src.len() && is_digit_char(src[i]) {
        lemma_digits_end(src, i + 1);
    }
}

proof fn lemma_line_end(src: Seq<char>, i: int)
    requires
        0 <= i <= src.len(),
    ensures
        i <= line_end(src, i) <= src.len(),
        forall|k: int| i <= k < line_end(src, i) ==> src[k] != '\n',
    decreases src.len() - i,
{
    if i < src.len() && src[i] != '\n' {
        lemma_line_end(src, i + 1);
    }
}

proof fn lemma_quote_end(src: Seq<char>, i: int)
    requires
        0 <= i <= src.len(),
    ensures
        i <= quote_end(src, i) <= src.len(),
        quote_end(src, i) < src.len() ==> src[quote_end(src, i)] == '"',
        forall|k: int| i <= k < quote_end(src, i) ==> src[k] != '"',
    decreases src.len() - i,
{
    if i < src.len() && src[i] != '"' {
        lemma_quote_end(src, i + 1);
    }
}

proof fn lemma_step_next(src: Seq<char>, i: int)
    requires
        0 <= i < src.len(),
    ensures
        i < step_next(src, i) <= src.len(),
{
    let c = src[i];
    if is_digit_char(c) && !is_single_char(c) {
        lemma_digits_end(src, i + 1);
        let d = digits_end(src, i + 1);
        if d + 1 < src.len() && src[d] == '.' && is_digit_char(src[d + 1]) {
            lemma_digits_end(src, d + 2);
        }
    }
    if is_alpha_char(c) {
        lemma_ident_end(src, i + 1);
    }
    if c == '"' {
        lemma_quote_end(src, i + 1);
    }
    if c == '/' && i + 1 < src.len() && src[i + 1] == '/' {
        lemma_line_end(src, i + 2);
    }
}

/// One step of the scan at `i`, as `spans` and `error_count` take it.
proof fn lemma_scan_step(src: Seq<char>, i: int)
    requires
        0 <= i < src.len(),
    ensures
        spans(src, i) == match step_token(src, i) {
            Some(e) => seq![(i, e)] + spans(src, step_next(src, i)),
            None => spans(src, step_next(src, i)),
        },
        error_count(src, i) == error_count(src, step_next(src, i)) + if step_error(src, i) {
            1nat
        } else {
            0nat
        },
        error_texts(src, i) == step_error_texts(src, i) + error_texts(src, step_next(src, i)),
{
    lemma_step_next(src, i);
}

/// Scanning the source again at a token's offset finds that same token: for every span that
/// the scan yields, the scan step at its start yields a token that ends at its end. With
/// `Token::found_in`, which fixes kind, line and literal by the text, a token is reproduced
/// from its lexeme at its offset.
pub proof fn lemma_rescan(src: Seq<char>, i: int)
    requires
        0 <= i <= src.len(),
    ensures
        forall|k: int|
            0 <= k < spans(src, i).len() ==> step_token(src, #[trigger] spans(src, i)[k].0)
                == Some(spans(src, i)[k].1),
    decreases src.len() - i,
{
    if i < src.len() {
        lemma_scan_step(src, i);
        lemma_step_next(src, i);
        let next = step_next(src, i);
        lemma_rescan(src, next);
        let rest = spans(src, next);
        match step_token(src, i) {
            Some(e) => {
                assert forall|k: int| 0 <= k < spans(src, i).len() implies step_token(
                    src,
                    #[trigger] spans(src, i)[k].0,
                ) == Some(spans(src, i)[k].1) by {
                    if k > 0 {
                        assert(spans(src, i)[k] == rest[k - 1]);
                    }
                }
            },
            None => {},
        }
    }
}

proof fn lemma_newlines_flat(s: Seq<char>, a: int, b: int)
    requires
        0 <= a <= b <= s.len(),
        forall|k: int| a <= k < b ==> s[k] != '\n',
    ensures
        newlines(s.take(b)) == newlines(s.take(a)),
    decreases b - a,
{
    if a < b {
        lemma_newlines_step(s, b - 1);
        lemma_newlines_flat(s, a, b - 1);
    }
}

/// The token kind of a one-character token, for the characters that form one alone.
fn single_type(c: char) -> (r: Option<TokenType>)
    ensures
        r is Some <==> (c == '(' || c == ')' || c == '{' || c == '}' || c == ',' || c == '.' || c
            == '-' || c == '+' || c == ';' || c == '*'),
        r is Some ==> r->0 == punct_kind(c),
{
    if c == '(' {
        Some(TokenType::LEFT_PAREN)
    } else if c == ')' {
        Some(TokenType::RIGHT_PAREN)
    } else if c == '{' {
        Some(TokenType::LEFT_BRACE)
    } else if c == '}' {
        Some(TokenType::RIGHT_BRACE)
    } else if c == ',' {
        Some(TokenType::COMMA)
    } else if c == '.' {
        Some(TokenType::DOT)
    } else if c == '-' {
        Some(TokenType::MINUS)
    } else if c == '+' {
        Some(TokenType::PLUS)
    } else if c == ';' {
        Some(TokenType::SEMICOLON)
    } else if c == '*' {
        Some(TokenType::STAR)
    } else {
        None
    }
}

impl Lexer {
    /// Adds the token spelled by `chars[start..end]`, a span without line breaks.
    fn push_span(
        &mut self,
        chars: &Vec<char>,
        start: usize,
        end: usize,
        token_type: TokenType,
    )
        requires
            old(self).scanned(chars@, start as int),
            start < end <= chars@.len(),
            forall|k: int| start <= k < end ==> chars@[k] != '\n',
            token_type == kind_of(chars@.subrange(start as int, end as int)),
            token_type != TokenType::STRING,
        ensures
            final(self).scanned(chars@, end as int),
            final(self).errors == old(self).errors,
            token_spans(final(self).tokens@) == token_spans(old(self).tokens@).push(
                (start as int, end as int),
            ),
    {
        proof {
            lemma_newlines_flat(chars@, start as int, end as int);
        }
        let lexeme = string_of_range(chars, start, end);
        let literal = if token_type == TokenType::NUMBER {
            Literal::Number(string_of_range(chars, start, end))
        } else {
            Literal::Nothing
        };
        let ghost before = self.tokens@;
        self.add_token_literal(token_type, lexeme, literal, start);
        proof {
            let t = self.tokens@.last();
            assert(token_spans(self.tokens@) =~= token_spans(before).push((start as int, end as int)));
            assert(t.found_in(chars@));
            assert forall|k: int| 0 <= k < self.tokens@.len() implies #[trigger] self.tokens@[k].found_in(chars@) by {
                if k < before.len() {
                    assert(self.tokens@[k] == before[k]);
                }
            }
            assert forall|k: int| 0 <= k < self.tokens@.len() - 1 implies #[trigger] self.tokens@[k].end()
                <= self.tokens@[k + 1].offset by {
                if k + 1 < before.len() {
                    assert(self.tokens@[k] == before[k]);
                    assert(self.tokens@[k + 1] == before[k + 1]);
                }
            }
        }
    }

    /// An operator of one character, or of two when `=` follows.
    fn match_next(&mut self, chars: &Vec<char>, start: usize) -> (end: usize)
        requires
            old(self).scanned(chars@, start as int),
            start < chars@.len(),
            chars@[start as int] == '!' || chars@[start as int] == '=' || chars@[start as int] == '<'
                || chars@[start as int] == '>',
        ensures
            final(self).scanned(chars@, end as int),
            start < end <= chars@.len(),
            end == step_next(chars@, start as int),
            token_spans(final(self).tokens@) == token_spans(old(self).tokens@) + match step_token(
                chars@,
                start as int,
            ) {
                Some(e) => seq![(start as int, e)],
                None => Seq::<(int, int)>::empty(),
            },
            final(self).errors@.len() == old(self).errors@.len() + if step_error(chars@, start as int) {
                1nat
            } else {
                0nat
            },
            views(final(self).errors@) == views(old(self).errors@) + step_error_texts(chars@, start as int),
            final(self).errors == old(self).errors,
    {
        let c = chars[start];
        if start + 1 < chars.len() && chars[start + 1] == '=' {
            let t = if c == '!' {
                TokenType::BANG_EQUAL
            } else if c == '=' {
                TokenType::EQUAL_EQUAL
            } else if c == '<' {
                TokenType::LESS_EQUAL
            } else {
                TokenType::GREATER_EQUAL
            };
            self.push_span(chars, start, start + 2, t);
            assert(token_spans(self.tokens@) =~= token_spans(old(self).tokens@) + seq![(start as int, start + 2)]);
            start + 2
        } else {
            let t = if c == '!' {
                TokenType::BANG
            } else if c == '=' {
                TokenType::EQUAL
            } else if c == '<' {
                TokenType::LESS
            } else {
                TokenType::GREATER
            };
            self.push_span(chars, start, start + 1, t);
            assert(token_spans(self.tokens@) =~= token_spans(old(self).tokens@) + seq![(start as int, start + 1)]);
            start + 1
        }
    }

    /// A slash: a comment up to the end of the line, or the division operator.
    fn handle_slash(&mut self, chars: &Vec<char>, start: usize) -> (end: usize)
        requires
            old(self).scanned(chars@, start as int),
            start < chars@.len(),
            chars@[start as int] == '/',
        ensures
            final(self).scanned(chars@, end as int),
            start < end <= chars@.len(),
            end == step_next(chars@, start as int),
            token_spans(final(self).tokens@) == token_spans(old(self).tokens@) + match step_token(
                chars@,
                start as int,
            ) {
                Some(e) => seq![(start as int, e)],
                None => Seq::<(int, int)>::empty(),
            },
            final(self).errors@.len() == old(self).errors@.len() + if step_error(chars@, start as int) {
                1nat
            } else {
                0nat
            },
            views(final(self).errors@) == views(old(self).errors@) + step_error_texts(chars@, start as int),
            final(self).errors == old(self).errors,
    {
        if start + 1 < chars.len() && chars[start + 1] == '/' {
            let mut j = start + 2;
            while j < chars.len() && chars[j] != '\n'
                invariant
                    start + 2 <= j <= chars@.len(),
                    forall|k: int| start <= k < j ==> chars@[k] != '\n',
                    line_end(chars@, j as int) == line_end(chars@, start + 2),
                decreases chars.len() - j,
            {
                j = j + 1;
            }
            proof {
                lemma_newlines_flat(chars@, start as int, j as int);
                assert(token_spans(self.tokens@) =~= token_spans(old(self).tokens@) + Seq::<(int, int)>::empty());
            }
            j
        } else {
            self.push_span(chars, start, start + 1, TokenType::SLASH);
            assert(token_spans(self.tokens@) =~= token_spans(old(self).tokens@) + seq![(start as int, start + 1)]);
            start + 1
        }
    }

    /// A string literal from the opening quote to the closing one. Line breaks inside it
    /// count; without a closing quote it is an error and yields no token.
    fn scan_string(&mut self, chars: &Vec<char>, start: usize) -> (end: usize)
        requires
            old(self).scanned(chars@, start as int),
            start < chars@.len(),
            chars@[start as int] == '"',
        ensures
            final(self).scanned(chars@, end as int),
            start < end <= chars@.len(),
            end == step_next(chars@, start as int),
            token_spans(final(self).tokens@) == token_spans(old(self).tokens@) + match step_token(
                chars@,
                start as int,
            ) {
                Some(e) => seq![(start as int, e)],
                None => Seq::<(int, int)>::empty(),
            },
            final(self).errors@.len() == old(self).errors@.len() + if step_error(chars@, start as int) {
                1nat
            } else {
                0nat
            },
            views(final(self).errors@) == views(old(self).errors@) + step_error_texts(chars@, start as int),
    {
        let mut j = start + 1;
        proof {
            lemma_newlines_step(chars@, start as int);
        }
        while j < chars.len() && chars[j] != '"'
            invariant
                start + 1 <= j <= chars@.len(),
                chars@.len() < usize::MAX,
                self.line == 1 + newlines(chars@.take(j as int)),
                self.tokens == old(self).tokens,
                self.errors == old(self).errors,
                self.had_error == old(self).had_error,
                quote_end(chars@, j as int) == quote_end(chars@, start + 1),
            decreases chars.len() - j,
        {
            proof {
                lemma_newlines_step(chars@, j as int);
                lemma_newlines_bound(chars@.take(j as int + 1));
            }
            if chars[j] == '\n' {
                self.line = self.line + 1;
            }
            j = j + 1;
        }
        if j == chars.len() {
            let line = self.line;
            assert(chars@.take(j as int) =~= chars@);
            let ghost before = self.errors@;
            self.error(line, "Unterminated string.");
            assert(token_spans(self.tokens@) =~= token_spans(old(self).tokens@) + Seq::<(int, int)>::empty());
            assert(views(self.errors@) =~= views(before).push(self.errors@.last()@));
            assert(views(self.errors@) =~= views(old(self).errors@) + step_error_texts(chars@, start as int));
            return j;
        }
        proof {
            lemma_newlines_step(chars@, j as int);
        }
        let lexeme = string_of_range(chars, start, j + 1);
        let contents = string_of_range(chars, start + 1, j);
        let ghost before = self.tokens@;
        self.add_token_literal(TokenType::STRING, lexeme, Literal::String(contents), start);
        proof {
            let t = self.tokens@.last();
            assert(token_spans(self.tokens@) =~= token_spans(before) + seq![(start as int, j + 1)]);
            assert(t.lexeme@.subrange(1, t.lexeme@.len() - 1) =~= contents@);
            assert(t.found_in(chars@));
            assert forall|k: int| 0 <= k < self.tokens@.len() implies #[trigger] self.tokens@[k].found_in(chars@) by {
                if k < before.len() {
                    assert(self.tokens@[k] == before[k]);
                }
            }
            assert forall|k: int| 0 <= k < self.tokens@.len() - 1 implies #[trigger] self.tokens@[k].end()
                <= self.tokens@[k + 1].offset by {
                if k + 1 < before.len() {
                    assert(self.tokens@[k] == before[k]);
                    assert(self.tokens@[k + 1] == before[k + 1]);
                }
            }
        }
        j + 1
    }

    /// A number `DIGIT+ ('.' DIGIT+)?`; a dot with no digit after it is left for the next token.
    fn scan_num(&mut self, chars: &Vec<char>, start: usize) -> (end: usize)
        requires
            old(self).scanned(chars@, start as int),
            start < chars@.len(),
            is_digit_char(chars@[start as int]),
        ensures
            final(self).scanned(chars@, end as int),
            start < end <= chars@.len(),
            end == step_next(chars@, start as int),
            token_spans(final(self).tokens@) == token_spans(old(self).tokens@) + match step_token(
                chars@,
                start as int,
            ) {
                Some(e) => seq![(start as int, e)],
                None => Seq::<(int, int)>::empty(),
            },
            final(self).errors@.len() == old(self).errors@.len() + if step_error(chars@, start as int) {
                1nat
            } else {
                0nat
            },
            views(final(self).errors@) == views(old(self).errors@) + step_error_texts(chars@, start as int),
            final(self).errors == old(self).errors,
    {
        let mut j = start + 1;
        while j < chars.len() && is_digit(chars[j])
            invariant
                start + 1 <= j <= chars@.len(),
                forall|k: int| start <= k < j ==> is_digit_char(chars@[k]),
                digits_end(chars@, j as int) == digits_end(chars@, start + 1),
            decreases chars.len() - j,
        {
            j = j + 1;
        }
        if j + 1 < chars.len() && chars[j] == '.' && is_digit(chars[j + 1]) {
            let ghost d = j as int;
            j = j + 2;
            while j < chars.len() && is_digit(chars[j])
                invariant
                    start + 1 <= j <= chars@.len(),
                    forall|k: int| start <= k < j ==> chars@[k] != '\n',
                    digits_end(chars@, j as int) == digits_end(chars@, d + 2),
                decreases chars.len() - j,
            {
                j = j + 1;
            }
        }
        self.push_span(chars, start, j, TokenType::NUMBER);
        assert(token_spans(self.tokens@) =~= token_spans(old(self).tokens@) + seq![(start as int, j as int)]);
        j
    }

    /// An identifier or a reserved word.
    fn scan_identifier(&mut self, chars: &Vec<char>, start: usize) -> (end: usize)
        requires
            old(self).scanned(chars@, start as int),
            start < chars@.len(),
            is_alpha_char(chars@[start as int]),
        ensures
            final(self).scanned(chars@, end as int),
            start < end <= chars@.len(),
            end == step_next(chars@, start as int),
            token_spans(final(self).tokens@) == token_spans(old(self).tokens@) + match step_token(
                chars@,
                start as int,
            ) {
                Some(e) => seq![(start as int, e)],
                None => Seq::<(int, int)>::empty(),
            },
            final(self).errors@.len() == old(self).errors@.len() + if step_error(chars@, start as int) {
                1nat
            } else {
                0nat
            },
            views(final(self).errors@) == views(old(self).errors@) + step_error_texts(chars@, start as int),
            final(self).errors == old(self).errors,
    {
        let mut j = start + 1;
        while j < chars.len() && (is_alpha(chars[j]) || is_digit(chars[j]))
            invariant
                start + 1 <= j <= chars@.len(),
                forall|k: int| start <= k < j ==> chars@[k] != '\n',
                ident_end(chars@, j as int) == ident_end(chars@, start + 1),
            decreases chars.len() - j,
        {
            j = j + 1;
        }
        let word = string_of_range(chars, start, j);
        let t = match keywords(word.as_str()) {
            Some(k) => k,
            None => TokenType::IDENTIFIER,
        };
        self.push_span(chars, start, j, t);
        assert(token_spans(self.tokens@) =~= token_spans(old(self).tokens@) + seq![(start as int, j as int)]);
        j
    }

    /// Scans the whole of `source`, then closes the token list with the end-of-file token.
    pub fn scan_token(&mut self, source: &str)
        requires
            old(self).tokens@.len() == 0,
            old(self).line == 1,
            old(self).had_error == (old(self).errors@.len() > 0),
            source@.len() < usize::MAX,
        ensures
            scan_of(source@, final(self).tokens@),
            token_spans(final(self).tokens@.drop_last()) == spans(source@, 0),
            final(self).errors@.len() == old(self).errors@.len() + error_count(source@, 0),
            views(final(self).errors@) == views(old(self).errors@) + error_texts(source@, 0),
            final(self).had_error == (final(self).errors@.len() > 0),
    {
        let chars = chars_of(source);
        let mut i: usize = 0;
        assert(chars@.take(0) =~= Seq::<char>::empty());
        assert(token_spans(self.tokens@) + spans(chars@, 0) =~= spans(chars@, 0));
        while i < chars.len()
            invariant
                self.scanned(chars@, i as int),
                token_spans(self.tokens@) + spans(chars@, i as int) == spans(chars@, 0),
                self.errors@.len() + error_count(chars@, i as int) == old(self).errors@.len()
                    + error_count(chars@, 0),
                views(self.errors@) + error_texts(chars@, i as int) == views(old(self).errors@)
                    + error_texts(chars@, 0),
            decreases chars.len() - i,
        {
            let c = chars[i];
            let ghost done = token_spans(self.tokens@);
            let ghost reported = views(self.errors@);
            proof {
                lemma_scan_step(chars@, i as int);
            }
            if let Some(t) = single_type(c) {
                self.push_span(&chars, i, i + 1, t);
                assert(token_spans(self.tokens@) + spans(chars@, i + 1) =~= done + spans(chars@, i as int));
                assert(views(self.errors@) + error_texts(chars@, i + 1) =~= reported + error_texts(chars@, i as int));
                i = i + 1;
            } else if c == '!' || c == '=' || c == '<' || c == '>' {
                let next = self.match_next(&chars, i);
                assert(token_spans(self.tokens@) + spans(chars@, next as int) =~= done + spans(chars@, i as int));
                assert(views(self.errors@) + error_texts(chars@, next as int) =~= reported + error_texts(chars@, i as int));
                i = next;
            } else if c == '/' {
                let next = self.handle_slash(&chars, i);
                assert(token_spans(self.tokens@) + spans(chars@, next as int) =~= done + spans(chars@, i as int));
                assert(views(self.errors@) + error_texts(chars@, next as int) =~= reported + error_texts(chars@, i as int));
                i = next;
            } else if c == '"' {
                let next = self.scan_string(&chars, i);
                assert(token_spans(self.tokens@) + spans(chars@, next as int) =~= done + spans(chars@, i as int));
                assert(views(self.errors@) + error_texts(chars@, next as int) =~= reported + error_texts(chars@, i as int));
                i = next;
            } else if is_digit(c) {
                let next = self.scan_num(&chars, i);
                assert(token_spans(self.tokens@) + spans(chars@, next as int) =~= done + spans(chars@, i as int));
                assert(views(self.errors@) + error_texts(chars@, next as int) =~= reported + error_texts(chars@, i as int));
                i = next;
            } else if is_alpha(c) {
                let next = self.scan_identifier(&chars, i);
                assert(token_spans(self.tokens@) + spans(chars@, next as int) =~= done + spans(chars@, i as int));
                assert(views(self.errors@) + error_texts(chars@, next as int) =~= reported + error_texts(chars@, i as int));
                i = next;
            } else {
                proof {
                    lemma_newlines_step(chars@, i as int);
                    lemma_newlines_bound(chars@.take(i as int + 1));
                }
                if c == '\n' {
                    self.line = self.line + 1;
                } else if !(c == ' ' || c == '\t' || c == '\r' || c == '\x0B' || c == '\x0C') {
                    let mut message = owned("Unexpected character: ");
                    push_char(&mut message, c);
                    let line = self.line;
                    let ghost before = self.errors@;
                    self.error(line, message.as_str());
                    assert(views(self.errors@) =~= views(before).push(self.errors@.last()@));
                }
                assert(token_spans(self.tokens@) + spans(chars@, i + 1) =~= done + spans(chars@, i as int));
                assert(views(self.errors@) + error_texts(chars@, i + 1) =~= reported + error_texts(chars@, i as int));
                i = i + 1;
            }
        }
        assert(chars@.take(chars@.len() as int) =~= chars@);
        assert(token_spans(self.tokens@) =~= spans(chars@, 0));
        assert(views(self.errors@) =~= views(old(self).errors@) + error_texts(chars@, 0));
        let ghost before = self.tokens@;
        let eof = owned("");
        proof {
            reveal_strlit("");
        }
        self.add_token(TokenType::EOF, eof, i);
        proof {
            assert(self.tokens@.drop_last() =~= before);
            assert forall|k: int| 0 <= k < self.tokens@.len() - 1 implies #[trigger] self.tokens@[k].found_in(
                source@,
            ) by {
                assert(self.tokens@[k] == before[k]);
            }
            assert forall|k: int| 0 <= k < self.tokens@.len() - 1 implies #[trigger] self.tokens@[k].end()
                <= self.tokens@[k + 1].offset by {
                if k + 1 < before.len() {
                    assert(self.tokens@[k] == before[k]);
                    assert(self.tokens@[k + 1] == before[k + 1]);
                }
            }
        }
    }
}

/// The name of a token kind as `tokenize` prints it.
pub open spec fn kind_name(t: TokenType) -> Seq<char> {
    match t {
        TokenType::LEFT_PAREN => "LEFT_PAREN"@,
        TokenType::RIGHT_PAREN => "RIGHT_PAREN"@,
        TokenType::LEFT_BRACE => "LEFT_BRACE"@,
        TokenType::RIGHT_BRACE => "RIGHT_BRACE"@,
        TokenType::COMMA => "COMMA"@,
        TokenType::DOT => "DOT"@,
        TokenType::MINUS => "MINUS"@,
        TokenType::PLUS => "PLUS"@,
        TokenType::SEMICOLON => "SEMICOLON"@,
        TokenType::SLASH => "SLASH"@,
        TokenType::STAR => "STAR"@,
        TokenType::BANG => "BANG"@,
        TokenType::BANG_EQUAL => "BANG_EQUAL"@,
        TokenType::EQUAL => "EQUAL"@,
        TokenType::EQUAL_EQUAL => "EQUAL_EQUAL"@,
        TokenType::GREATER => "GREATER"@,
        TokenType::GREATER_EQUAL => "GREATER_EQUAL"@,
        TokenType::LESS => "LESS"@,
        TokenType::LESS_EQUAL => "LESS_EQUAL"@,
        TokenType::IDENTIFIER => "IDENTIFIER"@,
        TokenType::STRING => "STRING"@,
        TokenType::NUMBER => "NUMBER"@,
        TokenType::AND => "AND"@,
        TokenType::CLASS => "CLASS"@,
        TokenType::ELSE => "ELSE"@,
        TokenType::FALSE => "FALSE"@,
        TokenType::FUN => "FUN"@,
        TokenType::FOR => "FOR"@,
        TokenType::IF => "IF"@,
        TokenType::NIL => "NIL"@,
        TokenType::OR => "OR"@,
        TokenType::PRINT => "PRINT"@,
        TokenType::RETURN => "RETURN"@,
        TokenType::SUPER => "SUPER"@,
        TokenType::THIS => "THIS"@,
        TokenType::TRUE => "TRUE"@,
        TokenType::VAR => "VAR"@,
        TokenType::WHILE => "WHILE"@,
        TokenType::EOF => "EOF"@,
    }
}

/// The name of a token kind as `tokenize` prints it.
pub fn kind_text(t: TokenType) -> (r: String)
    ensures
        r@ == kind_name(t),
{
    match t {
        TokenType::LEFT_PAREN => owned("LEFT_PAREN"),
        TokenType::RIGHT_PAREN => owned("RIGHT_PAREN"),
        TokenType::LEFT_BRACE => owned("LEFT_BRACE"),
        TokenType::RIGHT_BRACE => owned("RIGHT_BRACE"),
        TokenType::COMMA => owned("COMMA"),
        TokenType::DOT => owned("DOT"),
        TokenType::MINUS => owned("MINUS"),
        TokenType::PLUS => owned("PLUS"),
        TokenType::SEMICOLON => owned("SEMICOLON"),
        TokenType::SLASH => owned("SLASH"),
        TokenType::STAR => owned("STAR"),
        TokenType::BANG => owned("BANG"),
        TokenType::BANG_EQUAL => owned("BANG_EQUAL"),
        TokenType::EQUAL => owned("EQUAL"),
        TokenType::EQUAL_EQUAL => owned("EQUAL_EQUAL"),
        TokenType::GREATER => owned("GREATER"),
        TokenType::GREATER_EQUAL => owned("GREATER_EQUAL"),
        TokenType::LESS => owned("LESS"),
        TokenType::LESS_EQUAL => owned("LESS_EQUAL"),
        TokenType::IDENTIFIER => owned("IDENTIFIER"),
        TokenType::STRING => owned("STRING"),
        TokenType::NUMBER => owned("NUMBER"),
        TokenType::AND => owned("AND"),
        TokenType::CLASS => owned("CLASS"),
        TokenType::ELSE => owned("ELSE"),
        TokenType::FALSE => owned("FALSE"),
        TokenType::FUN => owned("FUN"),
        TokenType::FOR => owned("FOR"),
        TokenType::IF => owned("IF"),
        TokenType::NIL => owned("NIL"),
        TokenType::OR => owned("OR"),
        TokenType::PRINT => owned("PRINT"),
        TokenType::RETURN => owned("RETURN"),
        TokenType::SUPER => owned("SUPER"),
        TokenType::THIS => owned("THIS"),
        TokenType::TRUE => owned("TRUE"),
        TokenType::VAR => owned("VAR"),
        TokenType::WHILE => owned("WHILE"),
        TokenType::EOF => owned("EOF"),
    }
}

/// The text printed for a literal that is not a number.
pub open spec fn literal_text(l: Literal) -> Seq<char> {
    match l {
        Literal::String(s) => s@,
        Literal::Identifier(s) => s@,
        Literal::Boolean(b) => if b {
            "true"@
        } else {
            "false"@
        },
        _ => "null"@,
    }
}

/// The start of a token's printed line: its kind and its lexeme.
pub open spec fn token_head(t: Token) -> Seq<char> {
    kind_name(t.token_type) + " "@ + t.lexeme@ + " "@
}

/// The printed line of a token, `<KIND> <lexeme> <literal>`; a number's literal in the
/// normalized form that `numbers` gives.
pub open spec fn token_line<N: Numbers>(numbers: &N, t: Token) -> Seq<char> {
    token_head(t) + match t.literal {
        Literal::Number(n) => numbers.numeral_text(n)@,
        _ => literal_text(t.literal),
    }
}

/// The printed line of a token.
pub fn to_string<N: Numbers>(token: &Token, numbers: &N) -> (r: String)
    ensures
        r@ == token_line(numbers, *token),
{
    let mut line = kind_text(token.token_type);
    line.append(" ");
    line.append(token.lexeme.as_str());
    line.append(" ");
    let ghost head = line@;
    assert(head == token_head(*token));
    match &token.literal {
        Literal::Number(n) => {
            let shown = numbers.show_numeral(n);
            line.append(shown.as_str());
        },
        Literal::String(s) => line.append(s.as_str()),
        Literal::Identifier(s) => line.append(s.as_str()),
        Literal::Boolean(b) => {
            if *b {
                line.append("true");
            } else {
                line.append("false");
            }
        },
        Literal::Nothing => line.append("null"),
    }
    line
}

/// What the `tokenize` command prints: one line per token on standard output, the error
/// reports on standard error, and the exit code.
pub struct LexReport {
    pub lines: Vec<String>,
    pub errors: Vec<String>,
    pub exit_code: i32,
}

/// Scans `source` with a fresh scanner.
pub fn return_tokens(source: &str) -> (r: Result<Vec<Token>, Vec<String>>)
    requires
        source@.len() < usize::MAX,
    ensures
        r is Ok <==> error_count(source@, 0) == 0,
        r matches Ok(toks) ==> scan_of(source@, toks@) && token_spans(toks@.drop_last()) == spans(
            source@,
            0,
        ),
        r matches Err(errors) ==> errors@.len() == error_count(source@, 0) && views(errors@)
            == error_texts(source@, 0),
{
    let mut lexer = Lexer::new();
    lexer.scan_token(source);
    if lexer.had_error {
        Err(lexer.errors)
    } else {
        Ok(lexer.tokens)
    }
}

/// Scans `source` and lays out what `tokenize` prints: every token, errors or not, and
/// exit code 65 when an error was reported.
pub fn run_lexer<N: Numbers>(source: &str, numbers: &N) -> (r: LexReport)
    requires
        source@.len() < usize::MAX,
    ensures
        exists|toks: Seq<Token>|
            {
                &&& scan_of(source@, toks)
                &&& token_spans(toks.drop_last()) == spans(source@, 0)
                &&& toks.len() == r.lines@.len()
                &&& forall|k: int| 0 <= k < toks.len() ==> (#[trigger] r.lines@[k])@ == token_line(numbers, toks[k])
            },
        r.lines@.last()@ == "EOF  null"@,
        r.errors@.len() == error_count(source@, 0),
        views(r.errors@) == error_texts(source@, 0),
        r.exit_code == if error_count(source@, 0) > 0 {
            65i32
        } else {
            0i32
        },
{
    let mut lexer = Lexer::new();
    lexer.scan_token(source);
    let mut lines: Vec<String> = Vec::new();
    let mut k: usize = 0;
    while k < lexer.tokens.len()
        invariant
            k <= lexer.tokens@.len(),
            lines@.len() == k,
            forall|j: int|
                0 <= j < k ==> (#[trigger] lines@[j])@ == token_line(numbers, lexer.tokens@[j]),
        decreases lexer.tokens.len() - k,
    {
        let line = to_string(&lexer.tokens[k], numbers);
        lines.push(line);
        k = k + 1;
    }
    proof {
        reveal_strlit("EOF");
        reveal_strlit(" ");
        reveal_strlit("null");
        reveal_strlit("EOF  null");
        let eof = lexer.tokens@.last();
        assert(lines@.last()@ == token_line(numbers, eof));
        assert(token_line(numbers, eof) =~= "EOF  null"@);
    }
    let exit_code = if lexer.had_error {
        65
    } else {
        0
    };
    LexReport { lines, errors: lexer.errors, exit_code }
}

} // verus!
