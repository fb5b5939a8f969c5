use vstd::prelude::*;

verus! {

/// The lexical category of a token.
#[derive(Debug, Clone, Copy, PartialEq, Eq, Structural)]
pub enum TokenType {
    ILLEGAL,
    EOF,
    IDENT,
    INT,
    ASSIGN,
    PLUS,
    MINUS,
    BANG,
    ASTERISK,
    SLASH,
    LT,
    GT,
    COMMA,
    SEMICOLON,
    LPAREN,
    RPAREN,
    LBRACE,
    RBRACE,
    FUNCTION,
    LET,
    TRUE,
    FALSE,
    IF,
    ELSE,
    RETURN,
    EQ,
    NotEq,
}

/// The name of a category, as diagnostics print it.
pub open spec fn category_name(t: TokenType) -> Seq<char> {
    match t {
        TokenType::ILLEGAL => "ILLEGAL"@,
        TokenType::EOF => "EOF"@,
        TokenType::IDENT => "IDENT"@,
        TokenType::INT => "INT"@,
        TokenType::ASSIGN => "ASSIGN"@,
        TokenType::PLUS => "PLUS"@,
        TokenType::MINUS => "MINUS"@,
        TokenType::BANG => "BANG"@,
        TokenType::ASTERISK => "ASTERISK"@,
        TokenType::SLASH => "SLASH"@,
        TokenType::LT => "LT"@,
        TokenType::GT => "GT"@,
        TokenType::COMMA => "COMMA"@,
        TokenType::SEMICOLON => "SEMICOLON"@,
        TokenType::LPAREN => "LPAREN"@,
        TokenType::RPAREN => "RPAREN"@,
        TokenType::LBRACE => "LBRACE"@,
        TokenType::RBRACE => "RBRACE"@,
        TokenType::FUNCTION => "FUNCTION"@,
        TokenType::LET => "LET"@,
        TokenType::TRUE => "TRUE"@,
        TokenType::FALSE => "FALSE"@,
        TokenType::IF => "IF"@,
        TokenType::ELSE => "ELSE"@,
        TokenType::RETURN => "RETURN"@,
        TokenType::EQ => "EQ"@,
        TokenType::NotEq => "NotEq"@,
    }
}

impl TokenType {
    pub fn name(&self) -> (r: &'static str)
        ensures
            r@ == category_name(*self),
    {
        match self {
            TokenType::ILLEGAL => "ILLEGAL",
            TokenType::EOF => "EOF",
            TokenType::IDENT => "IDENT",
            TokenType::INT => "INT",
            TokenType::ASSIGN => "ASSIGN",
            TokenType::PLUS => "PLUS",
            TokenType::MINUS => "MINUS",
            TokenType::BANG => "BANG",
            TokenType::ASTERISK => "ASTERISK",
            TokenType::SLASH => "SLASH",
            TokenType::LT => "LT",
            TokenType::GT => "GT",
            TokenType::COMMA => "COMMA",
            TokenType::SEMICOLON => "SEMICOLON",
            TokenType::LPAREN => "LPAREN",
            TokenType::RPAREN => "RPAREN",
            TokenType::LBRACE => "LBRACE",
            TokenType::RBRACE => "RBRACE",
            TokenType::FUNCTION => "FUNCTION",
            TokenType::LET => "LET",
            TokenType::TRUE => "TRUE",
            TokenType::FALSE => "FALSE",
            TokenType::IF => "IF",
            TokenType::ELSE => "ELSE",
            TokenType::RETURN => "RETURN",
            TokenType::EQ => "EQ",
            TokenType::NotEq => "NotEq",
        }
    }
}

/// A token: its category and the text that was scanned for it.
#[derive(Debug, Clone, PartialEq, Eq)]
pub struct Token {
    pub token_type: TokenType,
    pub literal: String,
}

impl View for Token {
    type V = (TokenType, Seq<char>);

    open spec fn view(&self) -> (TokenType, Seq<char>) {
        (self.token_type, self.literal@)
    }
}

/// The category of a letter run: one of the seven keywords, else an identifier.
pub open spec fn keyword_kind(w: Seq<char>) -> TokenType {
    if w == "fn"@ {
        TokenType::FUNCTION
    } else if w == "let"@ {
        TokenType::LET
    } else if w == "true"@ {
        TokenType::TRUE
    } else if w == "false"@ {
        TokenType::FALSE
    } else if w == "if"@ {
        TokenType::IF
    } else if w == "else"@ {
        TokenType::ELSE
    } else if w == "return"@ {
        TokenType::RETURN
    } else {
        TokenType::IDENT
    }
}

fn is_word(ident: &String, word: &str) -> (r: bool)
    ensures
        r == (ident@ == word@),
{
    *ident == word.to_owned()
}

/// Maps a letter run to its keyword category, or to `IDENT` when it is no keyword.
pub fn lookup_ident(ident: &String) -> (r: TokenType)
    ensures
        r == keyword_kind(ident@),
{
    if is_word(ident, "fn") {
        TokenType::FUNCTION
    } else if is_word(ident, "let") {
        TokenType::LET
    } else if is_word(ident, "true") {
        TokenType::TRUE
    } else if is_word(ident, "false") {
        TokenType::FALSE
    } else if is_word(ident, "if") {
        TokenType::IF
    } else if is_word(ident, "else") {
        TokenType::ELSE
    } else if is_word(ident, "return") {
        TokenType::RETURN
    } else {
        TokenType::IDENT
    }
}

} // verus!
