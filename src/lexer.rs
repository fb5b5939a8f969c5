use vstd::prelude::*;
use vstd::slice::slice_to_vec;
use vstd::utf8::encode_utf8;

use crate::token::{keyword_kind, lookup_ident, Token, TokenType};

verus! {

/// A letter of an identifier: an ASCII letter or an underscore.
pub open spec fn letter(c: u8) -> bool {
    // 'a'..='z', 'A'..='Z', '_'
    (97 <= c && c <= 122) || (65 <= c && c <= 90) || c == 95
}

/// An ASCII decimal digit.
pub open spec fn digit(c: u8) -> bool {
    // '0'..='9'
    48 <= c && c <= 57
}

/// Space, tab, newline or carriage return.
pub open spec fn space(c: u8) -> bool {
    // ' ', '\t', '\n', '\r'
    c == 32 || c == 9 || c == 10 || c == 13
}

/// The category of a byte that is a token by itself, where it is one.
pub open spec fn punct_kind(c: u8) -> Option<TokenType> {
    if c == 61 {  // '='
        Some(TokenType::ASSIGN)
    } else if c == 59 {  // ';'
        Some(TokenType::SEMICOLON)
    } else if c == 40 {  // '('
        Some(TokenType::LPAREN)
    } else if c == 41 {  // ')'
        Some(TokenType::RPAREN)
    } else if c == 44 {  // ','
        Some(TokenType::COMMA)
    } else if c == 43 {  // '+'
        Some(TokenType::PLUS)
    } else if c == 45 {  // '-'
        Some(TokenType::MINUS)
    } else if c == 123 {  // '{'
        Some(TokenType::LBRACE)
    } else if c == 125 {  // '}'
        Some(TokenType::RBRACE)
    } else if c == 33 {  // '!'
        Some(TokenType::BANG)
    } else if c == 47 {  // '/'
        Some(TokenType::SLASH)
    } else if c == 42 {  // '*'
        Some(TokenType::ASTERISK)
    } else if c == 60 {  // '<'
        Some(TokenType::LT)
    } else if c == 62 {  // '>'
        Some(TokenType::GT)
    } else {
        None
    }
}

/// The first position at or after `i` that holds no whitespace.
pub open spec fn skip_spaces(s: Seq<u8>, i: int) -> int
    decreases s.len() - i,
{
    if 0 <= i < s.len() && space(s[i]) {
        skip_spaces(s, i + 1)
    } else {
        i
    }
}

/// The end of the run of letters that starts at `i`.
pub open spec fn letters_end(s: Seq<u8>, i: int) -> int
    decreases s.len() - i,
{
    if 0 <= i < s.len() && letter(s[i]) {
        letters_end(s, i + 1)
    } else {
        i
    }
}

/// The end of the run of digits that starts at `i`.
pub open spec fn digits_end(s: Seq<u8>, i: int) -> int
    decreases s.len() - i,
{
    if 0 <= i < s.len() && digit(s[i]) {
        digits_end(s, i + 1)
    } else {
        i
    }
}

/// Text made of bytes, each byte read as the character of that code.
pub open spec fn chars_of(b: Seq<u8>) -> Seq<char> {
    b.map_values(|x: u8| x as char)
}

/// Whether `s` holds byte `c` at position `i`.
pub open spec fn byte_is(s: Seq<u8>, i: int, c: u8) -> bool {
    0 <= i < s.len() && s[i] == c
}

/// The lexeme found by scanning `s` from `pos`: its category, where it starts and
/// where it ends.
pub open spec fn scan(s: Seq<u8>, pos: int) -> (TokenType, int, int) {
    let start = skip_spaces(s, pos);
    if start >= s.len() {
        (TokenType::EOF, start, start)
    } else {
        let c = s[start];
        // "==" and "!=" before the bytes that are tokens by themselves
        if c == 61 && byte_is(s, start + 1, 61) {
            (TokenType::EQ, start, start + 2)
        } else if c == 33 && byte_is(s, start + 1, 61) {
            (TokenType::NotEq, start, start + 2)
        } else if punct_kind(c) is Some {
            (punct_kind(c)->0, start, start + 1)
        } else if letter(c) {
            let end = letters_end(s, start);
            (keyword_kind(chars_of(s.subrange(start, end))), start, end)
        } else if digit(c) {
            (TokenType::INT, start, digits_end(s, start))
        } else {
            (TokenType::ILLEGAL, start, start + 1)
        }
    }
}

/// The token scanned from `s` at `pos`, and the position after it.
pub open spec fn lex(s: Seq<u8>, pos: int) -> ((TokenType, Seq<char>), int) {
    let (kind, start, end) = scan(s, pos);
    ((kind, chars_of(s.subrange(start, end))), end)
}

/// Relies on `String::push`: the character is added at the end of the string.
#[verifier::external_body]
fn push_char(s: &mut String, c: char)
    ensures
        final(s)@ == old(s)@.push(c),
{
    s.push(c)
}

/// A scanner over the bytes of a source text.
pub struct Lexer {
    input: Vec<u8>,
    position: usize,
}

impl Lexer {
    /// The bytes being scanned.
    pub closed spec fn source(&self) -> Seq<u8> {
        self.input@
    }

    /// The position of the next byte to scan.
    pub closed spec fn pos(&self) -> int {
        self.position as int
    }

    /// The position lies within the input, or just past its end.
    pub open spec fn wf(&self) -> bool {
        0 <= self.pos() <= self.source().len()
    }

    pub fn new(input: String) -> (r: Lexer)
        ensures
            r.wf(),
            r.source() == encode_utf8(input@),
            r.pos() == 0,
    {
        let bytes = slice_to_vec(input.as_str().as_bytes());
        Lexer { input: bytes, position: 0 }
    }

    /// The byte under the scanner, or 0 at the end of the input.
    fn current_char(&self) -> (r: u8)
        requires
            self.wf(),
        ensures
            self.position < self.input.len() ==> r == self.input@[self.pos()],
            self.position == self.input.len() ==> r == 0,
    {
        if self.position < self.input.len() {
            self.input[self.position]
        } else {
            0
        }
    }

    /// The byte after the one under the scanner, or 0 past the end of the input.
    fn peek_char(&self) -> (r: u8)
        requires
            self.wf(),
        ensures
            self.position + 1 < self.input.len() ==> r == self.input@[self.pos() + 1],
            self.position + 1 >= self.input.len() ==> r == 0,
    {
        if self.input.len() - self.position > 1 {
            self.input[self.position + 1]
        } else {
            0
        }
    }

    /// Moves the scanner one byte on.
    fn read_char(&mut self)
        requires
            old(self).wf(),
            old(self).pos() < old(self).source().len(),
        ensures
            final(self).wf(),
            final(self).source() == old(self).source(),
            final(self).pos() == old(self).pos() + 1,
    {
        let len = self.input.len();
        assert(self.position < len);
        self.position = self.position + 1;
    }

    pub fn is_letter(ch: &u8) -> (r: bool)
        ensures
            r == letter(*ch),
    {
        // 'a'..='z', 'A'..='Z', '_'
        (97 <= *ch && *ch <= 122) || (65 <= *ch && *ch <= 90) || *ch == 95
    }

    pub fn is_digit(ch: &u8) -> (r: bool)
        ensures
            r == digit(*ch),
    {
        // '0'..='9'
        48 <= *ch && *ch <= 57
    }

    fn is_space(ch: u8) -> (r: bool)
        ensures
            r == space(ch),
    {
        // ' ', '\t', '\n', '\r'
        ch == 32 || ch == 9 || ch == 10 || ch == 13
    }

    fn skip_whitespace(&mut self)
        requires
            old(self).wf(),
        ensures
            final(self).wf(),
            final(self).source() == old(self).source(),
            final(self).pos() == skip_spaces(old(self).source(), old(self).pos()),
    {
        while Self::is_space(self.current_char())
            invariant
                self.wf(),
                self.source() == old(self).source(),
                skip_spaces(self.source(), self.pos()) == skip_spaces(
                    self.source(),
                    old(self).pos(),
                ),
            decreases self.input.len() - self.position,
        {
            self.read_char();
        }
    }

    fn read_identifier(&mut self) -> (r: String)
        requires
            old(self).wf(),
        ensures
            final(self).wf(),
            final(self).source() == old(self).source(),
            final(self).pos() == letters_end(old(self).source(), old(self).pos()),
            r@ == chars_of(old(self).source().subrange(old(self).pos(), final(self).pos())),
    {
        let ghost s = self.source();
        let ghost start = self.pos();
        let mut literal = String::new();
        while Self::is_letter(&self.current_char())
            invariant
                self.wf(),
                self.source() == s,
                0 <= start <= self.pos() <= s.len(),
                letters_end(s, self.pos()) == letters_end(s, start),
                literal@ == chars_of(s.subrange(start, self.pos())),
            decreases self.input.len() - self.position,
        {
            let ch = self.input[self.position];
            push_char(&mut literal, ch as char);
            assert(ch == s[self.pos()]);
            assert(s.subrange(start, self.pos() + 1) =~= s.subrange(start, self.pos()).push(ch));
            assert(chars_of(s.subrange(start, self.pos()).push(ch)) =~= chars_of(
                s.subrange(start, self.pos()),
            ).push(ch as char));
            self.read_char();
        }
        literal
    }

    fn read_number(&mut self) -> (r: String)
        requires
            old(self).wf(),
        ensures
            final(self).wf(),
            final(self).source() == old(self).source(),
            final(self).pos() == digits_end(old(self).source(), old(self).pos()),
            r@ == chars_of(old(self).source().subrange(old(self).pos(), final(self).pos())),
    {
        let ghost s = self.source();
        let ghost start = self.pos();
        let mut literal = String::new();
        while Self::is_digit(&self.current_char())
            invariant
                self.wf(),
                self.source() == s,
                0 <= start <= self.pos() <= s.len(),
                digits_end(s, self.pos()) == digits_end(s, start),
                literal@ == chars_of(s.subrange(start, self.pos())),
            decreases self.input.len() - self.position,
        {
            let ch = self.input[self.position];
            push_char(&mut literal, ch as char);
            assert(ch == s[self.pos()]);
            assert(s.subrange(start, self.pos() + 1) =~= s.subrange(start, self.pos()).push(ch));
            assert(chars_of(s.subrange(start, self.pos()).push(ch)) =~= chars_of(
                s.subrange(start, self.pos()),
            ).push(ch as char));
            self.read_char();
        }
        literal
    }

    fn new_token(token_type: TokenType, ch: u8) -> (r: Token)
        ensures
            r@ == (token_type, seq![ch as char]),
    {
        let mut literal = String::new();
        push_char(&mut literal, ch as char);
        assert(literal@ =~= seq![ch as char]);
        Token { token_type, literal }
    }

    /// Scans the next token: whitespace is skipped, then one lexeme is consumed.
    /// At the end of the input every call gives `EOF` with an empty literal.
    pub fn next_token(&mut self) -> (r: Token)
        requires
            old(self).wf(),
        ensures
            final(self).wf(),
            final(self).source() == old(self).source(),
            (r@, final(self).pos()) == lex(old(self).source(), old(self).pos()),
    {
        let ghost s = self.source();
        self.skip_whitespace();
        let ghost start = self.pos();
        if self.position >= self.input.len() {
            assert(s.subrange(start, start) =~= Seq::<u8>::empty());
            assert(chars_of(Seq::<u8>::empty()) =~= Seq::<char>::empty());
            return Token { token_type: TokenType::EOF, literal: String::new() };
        }
        let ch = self.input[self.position];
        let token = match ch {
            // '='
            61 => {
                if self.peek_char() == 61 {
                    self.read_char();
                    let mut literal = String::new();
                    push_char(&mut literal, ch as char);
                    push_char(&mut literal, ch as char);
                    assert(literal@ =~= chars_of(s.subrange(start, start + 2)));
                    Token { token_type: TokenType::EQ, literal }
                } else {
                    Self::new_token(TokenType::ASSIGN, ch)
                }
            },
            // '!'
            33 => {
                if self.peek_char() == 61 {
                    self.read_char();
                    let mut literal = String::new();
                    push_char(&mut literal, ch as char);
                    push_char(&mut literal, 61u8 as char);
                    assert(literal@ =~= chars_of(s.subrange(start, start + 2)));
                    Token { token_type: TokenType::NotEq, literal }
                } else {
                    Self::new_token(TokenType::BANG, ch)
                }
            },
            // '('
            40 => Self::new_token(TokenType::LPAREN, ch),
            // ')'
            41 => Self::new_token(TokenType::RPAREN, ch),
            // ','
            44 => Self::new_token(TokenType::COMMA, ch),
            // '+'
            43 => Self::new_token(TokenType::PLUS, ch),
            // '-'
            45 => Self::new_token(TokenType::MINUS, ch),
            // '/'
            47 => Self::new_token(TokenType::SLASH, ch),
            // '*'
            42 => Self::new_token(TokenType::ASTERISK, ch),
            // '<'
            60 => Self::new_token(TokenType::LT, ch),
            // '>'
            62 => Self::new_token(TokenType::GT, ch),
            // ';'
            59 => Self::new_token(TokenType::SEMICOLON, ch),
            // '{'
            123 => Self::new_token(TokenType::LBRACE, ch),
            // '}'
            125 => Self::new_token(TokenType::RBRACE, ch),
            _ => {
                if Self::is_letter(&ch) {
                    let literal = self.read_identifier();
                    return Token { token_type: lookup_ident(&literal), literal };
                } else if Self::is_digit(&ch) {
                    let literal = self.read_number();
                    return Token { token_type: TokenType::INT, literal };
                } else {
                    Self::new_token(TokenType::ILLEGAL, ch)
                }
            },
        };
        assert(token.literal@.len() == 1 ==> token.literal@ =~= chars_of(
            s.subrange(start, start + 1),
        ));
        self.read_char();
        token
    }
}

proof fn lemma_skip_spaces_bounds(s: Seq<u8>, i: int)
    requires
        0 <= i <= s.len(),
    ensures
        i <= skip_spaces(s, i) <= s.len(),
    decreases s.len() - i,
{
    if i < s.len() && space(s[i]) {
        lemma_skip_spaces_bounds(s, i + 1);
    }
}

proof fn lemma_letters_end_bounds(s: Seq<u8>, i: int)
    requires
        0 <= i <= s.len(),
    ensures
        i <= letters_end(s, i) <= s.len(),
    decreases s.len() - i,
{
    if i < s.len() && letter(s[i]) {
        lemma_letters_end_bounds(s, i + 1);
    }
}

proof fn lemma_letters_to_end(s: Seq<u8>, i: int)
    requires
        0 <= i <= s.len(),
        forall|j: int| i <= j < s.len() ==> letter(s[j]),
    ensures
        letters_end(s, i) == s.len(),
    decreases s.len() - i,
{
    if i < s.len() {
        lemma_letters_to_end(s, i + 1);
    }
}

proof fn lemma_digits_end_bounds(s: Seq<u8>, i: int)
    requires
        0 <= i <= s.len(),
    ensures
        i <= digits_end(s, i) <= s.len(),
    decreases s.len() - i,
{
    if i < s.len() && digit(s[i]) {
        lemma_digits_end_bounds(s, i + 1);
    }
}

proof fn lemma_digits_to_end(s: Seq<u8>, i: int)
    requires
        0 <= i <= s.len(),
        forall|j: int| i <= j < s.len() ==> digit(s[j]),
    ensures
        digits_end(s, i) == s.len(),
    decreases s.len() - i,
{
    if i < s.len() {
        lemma_digits_to_end(s, i + 1);
    }
}

/// Scanning never moves backwards nor past the end of the input, and every token
/// but `EOF` consumes at least one byte.
pub proof fn lemma_lex_progress(s: Seq<u8>, pos: int)
    requires
        0 <= pos <= s.len(),
    ensures
        pos <= lex(s, pos).1 <= s.len(),
        lex(s, pos).0.0 == TokenType::EOF <==> skip_spaces(s, pos) >= s.len(),
        lex(s, pos).0.0 != TokenType::EOF ==> pos < lex(s, pos).1,
{
    let start = skip_spaces(s, pos);
    lemma_skip_spaces_bounds(s, pos);
    if start < s.len() {
        lemma_letters_end_bounds(s, start + 1);
        lemma_digits_end_bounds(s, start + 1);
    }
}

/// Once the input is exhausted, every further scan gives `EOF` with an empty
/// literal and stays where it is.
pub proof fn lemma_eof_is_idempotent(s: Seq<u8>, pos: int)
    requires
        0 <= pos <= s.len(),
        lex(s, pos).0.0 == TokenType::EOF,
    ensures
        lex(s, pos).0.1 == Seq::<char>::empty(),
        lex(s, lex(s, pos).1) == lex(s, pos),
{
    lemma_lex_progress(s, pos);
    let end = lex(s, pos).1;
    assert(end == s.len());
    assert(s.subrange(end, end) =~= Seq::<u8>::empty());
    assert(chars_of(Seq::<u8>::empty()) =~= Seq::<char>::empty());
}

/// A byte that is a token by itself, scanned as the whole input, gives exactly that
/// token; the scan after it gives `EOF`.
pub proof fn lemma_single_punct(c: u8)
    requires
        punct_kind(c) is Some,
    ensures
        lex(seq![c], 0) == ((punct_kind(c)->0, seq![c as char]), 1int),
        lex(seq![c], 1) == ((TokenType::EOF, Seq::<char>::empty()), 1int),
{
    let s = seq![c];
    assert(skip_spaces(s, 0) == 0);
    assert(skip_spaces(s, 1) == 1);
    assert(s.subrange(0, 1) =~= s);
    assert(chars_of(s) =~= seq![c as char]);
    assert(s.subrange(1, 1) =~= Seq::<u8>::empty());
    assert(chars_of(Seq::<u8>::empty()) =~= Seq::<char>::empty());
}

/// A whole input that is a run of letters is one token, whose category is that of
/// the word: a keyword's own category, `IDENT` for any other word.
pub proof fn lemma_letter_run(w: Seq<u8>)
    requires
        w.len() > 0,
        forall|i: int| 0 <= i < w.len() ==> letter(w[i]),
    ensures
        lex(w, 0) == ((keyword_kind(chars_of(w)), chars_of(w)), w.len() as int),
{
    lemma_letters_to_end(w, 0);
    assert(skip_spaces(w, 0) == 0);
    assert(w.subrange(0, w.len() as int) =~= w);
}

/// A whole input that is a run of digits, however long, is one `INT` token whose
/// literal is that run.
pub proof fn lemma_digit_run(w: Seq<u8>)
    requires
        w.len() > 0,
        forall|i: int| 0 <= i < w.len() ==> digit(w[i]),
    ensures
        lex(w, 0) == ((TokenType::INT, chars_of(w)), w.len() as int),
{
    lemma_digits_to_end(w, 0);
    assert(skip_spaces(w, 0) == 0);
    assert(w.subrange(0, w.len() as int) =~= w);
}

} // verus!
