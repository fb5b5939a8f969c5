use vstd::prelude::*;

use crate::ast::{
    Expression, ExpressionModel, Precedence, Program, Statement, StatementModel,
};
use crate::lexer::{lemma_eof_is_idempotent, lemma_lex_progress, lex, skip_spaces, Lexer};
use crate::token::{category_name, Token, TokenType};

verus! {

/// A token as the parser sees it: its category and its literal.
pub type TokenModel = (TokenType, Seq<char>);

/// Where parsing stands: the scanner's position, the current token and the
/// peeked token.
pub type ParseState = (int, TokenModel, TokenModel);

/// Moves one token on: the peeked token becomes current and a new one is scanned.
pub open spec fn advance(s: Seq<u8>, st: ParseState) -> ParseState {
    (lex(s, st.0).1, st.2, lex(s, st.0).0)
}

/// A state that scanning can reach: `EOF` is never followed by anything else.
pub open spec fn reachable(s: Seq<u8>, st: ParseState) -> bool {
    &&& 0 <= st.0 <= s.len()
    &&& st.2.0 == TokenType::EOF ==> skip_spaces(s, st.0) >= s.len()
    &&& st.1.0 == TokenType::EOF ==> st.2.0 == TokenType::EOF
}

/// What is left to scan, counted so that advancing past a token that is not
/// `EOF` makes it smaller.
pub open spec fn measure(s: Seq<u8>, st: ParseState) -> int {
    2 * (s.len() - st.0) + (if st.1.0 == TokenType::EOF {
        0int
    } else {
        1int
    }) + (if st.2.0 == TokenType::EOF {
        0int
    } else {
        1int
    })
}

/// Advancing keeps a reachable state reachable and never makes the measure grow;
/// past a token that is not `EOF` it makes it shrink.
pub proof fn lemma_advance(s: Seq<u8>, st: ParseState)
    requires
        reachable(s, st),
    ensures
        reachable(s, advance(s, st)),
        0 <= measure(s, advance(s, st)) <= measure(s, st),
        st.1.0 != TokenType::EOF ==> measure(s, advance(s, st)) < measure(s, st),
{
    lemma_lex_progress(s, st.0);
    let end = lex(s, st.0).1;
    if lex(s, st.0).0.0 == TokenType::EOF {
        lemma_eof_is_idempotent(s, st.0);
        lemma_lex_progress(s, end);
    }
}

/// Skips the semicolons that stand as current token.
pub open spec fn skip_semicolons(s: Seq<u8>, st: ParseState) -> ParseState
    decreases measure(s, st),
    when reachable(s, st)
    via skip_semicolons_decreases
{
    if st.1.0 == TokenType::SEMICOLON {
        skip_semicolons(s, advance(s, st))
    } else {
        st
    }
}

#[via_fn]
proof fn skip_semicolons_decreases(s: Seq<u8>, st: ParseState) {
    if st.1.0 == TokenType::SEMICOLON {
        lemma_advance(s, st);
    }
}

proof fn lemma_skip_semicolons(s: Seq<u8>, st: ParseState)
    requires
        reachable(s, st),
    ensures
        reachable(s, skip_semicolons(s, st)),
        0 <= measure(s, skip_semicolons(s, st)) <= measure(s, st),
        skip_semicolons(s, st).1.0 != TokenType::SEMICOLON,
    decreases measure(s, st),
{
    lemma_advance(s, st);
    if st.1.0 == TokenType::SEMICOLON {
        lemma_skip_semicolons(s, advance(s, st));
    }
}

/// The diagnostic for a peeked token of the wrong category.
pub open spec fn peek_error_text(expected: TokenType, actual: TokenType) -> Seq<char> {
    "expected next token to be "@ + category_name(expected) + ", got "@ + category_name(actual)
        + " instead"@
}

/// The expression that starts at the current token, where one does.
pub open spec fn expression_model(st: ParseState) -> Option<ExpressionModel> {
    if st.1.0 == TokenType::IDENT {
        Some(ExpressionModel::Identifier(st.1.1))
    } else {
        None
    }
}

/// An expression statement: the expression, then an optional semicolon.
pub open spec fn expression_statement_model(s: Seq<u8>, st: ParseState) -> (
    Option<StatementModel>,
    ParseState,
) {
    let st1 = if st.2.0 == TokenType::SEMICOLON {
        advance(s, st)
    } else {
        st
    };
    match expression_model(st) {
        Some(e) => (Some(StatementModel::Expression(e)), st1),
        None => (None, st1),
    }
}

/// A let statement: a name and `=` must follow `let`; the value is left empty.
pub open spec fn let_statement_model(s: Seq<u8>, st: ParseState, errs: Seq<Seq<char>>) -> (
    Option<StatementModel>,
    ParseState,
    Seq<Seq<char>>,
) {
    if st.2.0 != TokenType::IDENT {
        (None, st, errs.push(peek_error_text(TokenType::IDENT, st.2.0)))
    } else {
        let st1 = advance(s, st);
        if st1.2.0 != TokenType::ASSIGN {
            (None, st1, errs.push(peek_error_text(TokenType::ASSIGN, st1.2.0)))
        } else {
            let name = ExpressionModel::Identifier(st1.1.1);
            let value = ExpressionModel::Identifier(Seq::empty());
            (
                Some(StatementModel::Let { name, value }),
                skip_semicolons(s, advance(s, st1)),
                errs,
            )
        }
    }
}

/// A return statement: it holds the current token's text; one token is passed,
/// then the semicolons that follow.
pub open spec fn return_statement_model(s: Seq<u8>, st: ParseState) -> (
    Option<StatementModel>,
    ParseState,
) {
    (
        Some(StatementModel::Return(ExpressionModel::Identifier(st.1.1))),
        skip_semicolons(s, advance(s, st)),
    )
}

/// One statement, chosen by the current token.
pub open spec fn statement_model(s: Seq<u8>, st: ParseState, errs: Seq<Seq<char>>) -> (
    Option<StatementModel>,
    ParseState,
    Seq<Seq<char>>,
) {
    if st.1.0 == TokenType::LET {
        let_statement_model(s, st, errs)
    } else if st.1.0 == TokenType::RETURN {
        (return_statement_model(s, st).0, return_statement_model(s, st).1, errs)
    } else {
        (expression_statement_model(s, st).0, expression_statement_model(s, st).1, errs)
    }
}

proof fn lemma_statement_model(s: Seq<u8>, st: ParseState, errs: Seq<Seq<char>>)
    requires
        reachable(s, st),
        st.1.0 != TokenType::EOF,
    ensures
        reachable(s, statement_model(s, st, errs).1),
        statement_model(s, st, errs).1 == st || (0 <= measure(s, statement_model(s, st, errs).1)
            < measure(s, st)),
{
    lemma_advance(s, st);
    let st1 = advance(s, st);
    lemma_advance(s, st1);
    lemma_skip_semicolons(s, st1);
    lemma_skip_semicolons(s, advance(s, st1));
}

/// The statements of what is left to parse, and the diagnostics after `errs`.
pub open spec fn program_model(s: Seq<u8>, st: ParseState, errs: Seq<Seq<char>>) -> (
    Seq<StatementModel>,
    Seq<Seq<char>>,
)
    decreases measure(s, st),
    when reachable(s, st)
    via program_model_decreases
{
    if st.1.0 == TokenType::EOF {
        (Seq::empty(), errs)
    } else {
        let (parsed, st1, errs1) = statement_model(s, st, errs);
        let (rest, errs2) = program_model(s, advance(s, st1), errs1);
        match parsed {
            Some(x) => (seq![x] + rest, errs2),
            None => (rest, errs2),
        }
    }
}

#[via_fn]
proof fn program_model_decreases(s: Seq<u8>, st: ParseState, errs: Seq<Seq<char>>) {
    if st.1.0 != TokenType::EOF {
        lemma_statement_model(s, st, errs);
        lemma_advance(s, statement_model(s, st, errs).1);
    }
}

/// The state of a parser once it has taken two tokens from a scan of `s` at `pos`.
pub open spec fn primed(s: Seq<u8>, pos: int) -> ParseState {
    (lex(s, lex(s, pos).1).1, lex(s, pos).0, lex(s, lex(s, pos).1).0)
}

/// What parsing all of `s` gives: the statements and the diagnostics, in order.
pub open spec fn parse_text(s: Seq<u8>) -> (Seq<StatementModel>, Seq<Seq<char>>) {
    program_model(s, primed(s, 0), Seq::empty())
}

/// Parsing depends on the text alone: equal texts give the same statements and the
/// same diagnostics, in the same order.
pub proof fn lemma_parse_is_deterministic(a: Seq<u8>, b: Seq<u8>)
    requires
        a == b,
    ensures
        parse_text(a) == parse_text(b),
{
}

/// The model of a statement that may be absent.
pub open spec fn statement_option(o: Option<Statement>) -> Option<StatementModel> {
    match o {
        Some(x) => Some(x@),
        None => None,
    }
}

/// The model of an expression that may be absent.
pub open spec fn expression_option(o: Option<Expression>) -> Option<ExpressionModel> {
    match o {
        Some(x) => Some(x@),
        None => None,
    }
}

/// A parser that pulls tokens from the lexer it owns, with one token of lookahead.
pub struct Parser {
    lexer: Lexer,
    current_token: Token,
    peek_token: Token,
    pub errors: Vec<String>,
}

impl Parser {
    /// The bytes being parsed.
    pub closed spec fn source(&self) -> Seq<u8> {
        self.lexer.source()
    }

    /// The scanner's position, the current token and the peeked token.
    pub closed spec fn state(&self) -> ParseState {
        (self.lexer.pos(), self.current_token@, self.peek_token@)
    }

    pub closed spec fn wf(&self) -> bool {
        &&& self.lexer.wf()
        &&& reachable(self.lexer.source(), self.state())
    }

    /// The diagnostics recorded so far, as text.
    pub closed spec fn error_texts(&self) -> Seq<Seq<char>> {
        self.errors@.map_values(|e: String| e@)
    }

    /// Takes the lexer and reads the current and the peeked token from it.
    pub fn new(lexer: Lexer) -> (r: Parser)
        requires
            lexer.wf(),
        ensures
            r.wf(),
            r.source() == lexer.source(),
            r.state() == primed(lexer.source(), lexer.pos()),
            r.error_texts() == Seq::<Seq<char>>::empty(),
    {
        let mut lexer = lexer;
        let ghost s = lexer.source();
        let ghost p0 = lexer.pos();
        let current_token = lexer.next_token();
        let peek_token = lexer.next_token();
        proof {
            lemma_lex_progress(s, p0);
            let p1 = lex(s, p0).1;
            lemma_lex_progress(s, p1);
            if current_token.token_type == TokenType::EOF {
                lemma_eof_is_idempotent(s, p0);
            }
            if peek_token.token_type == TokenType::EOF {
                lemma_eof_is_idempotent(s, p1);
                lemma_lex_progress(s, lex(s, p1).1);
            }
        }
        let r = Parser { lexer, current_token, peek_token, errors: Vec::new() };
        assert(r.error_texts() =~= Seq::<Seq<char>>::empty());
        r
    }

    /// Records that the peeked token was not of the `expected` category.
    fn peek_error(&mut self, expected: &TokenType)
        requires
            old(self).wf(),
        ensures
            final(self).wf(),
            final(self).source() == old(self).source(),
            final(self).state() == old(self).state(),
            final(self).error_texts() == old(self).error_texts().push(
                peek_error_text(*expected, old(self).state().2.0),
            ),
    {
        let mut message = String::new();
        message.append("expected next token to be ");
        message.append(expected.name());
        message.append(", got ");
        message.append(self.peek_token.token_type.name());
        message.append(" instead");
        assert(message@ =~= peek_error_text(*expected, self.state().2.0));
        self.errors.push(message);
        assert(self.error_texts() =~= old(self).error_texts().push(
            peek_error_text(*expected, old(self).state().2.0),
        ));
    }

    /// Moves one token on.
    fn next_token(&mut self)
        requires
            old(self).wf(),
        ensures
            final(self).wf(),
            final(self).source() == old(self).source(),
            final(self).state() == advance(old(self).source(), old(self).state()),
            final(self).error_texts() == old(self).error_texts(),
    {
        proof {
            lemma_advance(self.source(), self.state());
        }
        let mut next = self.lexer.next_token();
        std::mem::swap(&mut self.peek_token, &mut next);
        self.current_token = next;
    }

    fn current_token_is(&self, token: TokenType) -> (r: bool)
        ensures
            r == (self.state().1.0 == token),
    {
        self.current_token.token_type == token
    }

    fn peek_token_is(&self, token: &TokenType) -> (r: bool)
        ensures
            r == (self.state().2.0 == *token),
    {
        self.peek_token.token_type == *token
    }

    /// Moves on when the peeked token is of category `token`; records a diagnostic
    /// and stays otherwise.
    pub fn expect_peek(&mut self, token: TokenType) -> (r: bool)
        requires
            old(self).wf(),
        ensures
            final(self).wf(),
            final(self).source() == old(self).source(),
            r == (old(self).state().2.0 == token),
            r ==> final(self).state() == advance(old(self).source(), old(self).state())
                && final(self).error_texts() == old(self).error_texts(),
            !r ==> final(self).state() == old(self).state() && final(self).error_texts()
                == old(self).error_texts().push(peek_error_text(token, old(self).state().2.0)),
    {
        if self.peek_token_is(&token) {
            self.next_token();
            return true;
        }
        self.peek_error(&token);
        false
    }

    /// Passes the semicolons that stand as current token.
    fn skip_semicolons(&mut self)
        requires
            old(self).wf(),
        ensures
            final(self).wf(),
            final(self).source() == old(self).source(),
            final(self).state() == skip_semicolons(old(self).source(), old(self).state()),
            final(self).error_texts() == old(self).error_texts(),
    {
        let ghost s = self.source();
        while self.current_token_is(TokenType::SEMICOLON)
            invariant
                self.wf(),
                self.source() == s,
                skip_semicolons(s, self.state()) == skip_semicolons(s, old(self).state()),
                self.error_texts() == old(self).error_texts(),
            decreases measure(s, self.state()),
        {
            proof {
                lemma_advance(s, self.state());
            }
            self.next_token();
        }
    }

    fn parse_identifier(&self) -> (r: Option<Expression>)
        ensures
            expression_option(r) == Some(ExpressionModel::Identifier(self.state().1.1)),
    {
        Some(Expression::Identifier(self.current_token.literal.clone()))
    }

    /// The expression at the current token. Only identifiers start one for now;
    /// `_precedence` is the binding power that an operator after it would have to
    /// exceed to extend it.
    fn parse_expression(&mut self, _precedence: Precedence) -> (r: Option<Expression>)
        requires
            old(self).wf(),
        ensures
            *final(self) == *old(self),
            expression_option(r) == expression_model(old(self).state()),
    {
        match self.current_token.token_type {
            TokenType::IDENT => self.parse_identifier(),
            _ => None,
        }
    }

    fn parse_expression_statement(&mut self) -> (r: Option<Statement>)
        requires
            old(self).wf(),
        ensures
            final(self).wf(),
            final(self).source() == old(self).source(),
            (statement_option(r), final(self).state()) == expression_statement_model(
                old(self).source(),
                old(self).state(),
            ),
            final(self).error_texts() == old(self).error_texts(),
    {
        let expression = self.parse_expression(Precedence::LOWEST);
        if self.peek_token_is(&TokenType::SEMICOLON) {
            self.next_token();
        }
        match expression {
            Some(x) => Some(Statement::EXPRESSION(x)),
            None => None,
        }
    }

    fn parse_let_statement(&mut self) -> (r: Option<Statement>)
        requires
            old(self).wf(),
        ensures
            final(self).wf(),
            final(self).source() == old(self).source(),
            (statement_option(r), final(self).state(), final(self).error_texts())
                == let_statement_model(old(self).source(), old(self).state(), old(self).error_texts()),
    {
        if !self.expect_peek(TokenType::IDENT) {
            return None;
        }
        let name = Expression::Identifier(self.current_token.literal.clone());
        if !self.expect_peek(TokenType::ASSIGN) {
            return None;
        }
        self.skip_semicolons();
        let value = Expression::Identifier(String::new());
        Some(Statement::LET { name, value })
    }

    fn parse_return_statement(&mut self) -> (r: Option<Statement>)
        requires
            old(self).wf(),
        ensures
            final(self).wf(),
            final(self).source() == old(self).source(),
            (statement_option(r), final(self).state()) == return_statement_model(
                old(self).source(),
                old(self).state(),
            ),
            final(self).error_texts() == old(self).error_texts(),
    {
        let statement = Statement::RETURN(
            Expression::Identifier(self.current_token.literal.clone()),
        );
        self.next_token();
        self.skip_semicolons();
        Some(statement)
    }

    fn parse_statement(&mut self) -> (r: Option<Statement>)
        requires
            old(self).wf(),
        ensures
            final(self).wf(),
            final(self).source() == old(self).source(),
            (statement_option(r), final(self).state(), final(self).error_texts())
                == statement_model(old(self).source(), old(self).state(), old(self).error_texts()),
    {
        match self.current_token.token_type {
            TokenType::LET => self.parse_let_statement(),
            TokenType::RETURN => self.parse_return_statement(),
            _ => self.parse_expression_statement(),
        }
    }

    /// Parses statements until the current token is `EOF`. A statement that fails
    /// to parse is left out and its diagnostics are added to `errors`; parsing
    /// goes on after it.
    pub fn parse_program(&mut self) -> (r: Result<Program, String>)
        requires
            old(self).wf(),
        ensures
            final(self).wf(),
            final(self).source() == old(self).source(),
            final(self).state().1.0 == TokenType::EOF,
            r is Ok,
            (r->Ok_0@, final(self).error_texts()) == program_model(
                old(self).source(),
                old(self).state(),
                old(self).error_texts(),
            ),
    {
        let ghost s = self.source();
        let ghost target = program_model(s, self.state(), self.error_texts());
        let mut program = Program { statements: Vec::new() };
        assert(program@ =~= Seq::<StatementModel>::empty());
        while self.current_token.token_type != TokenType::EOF
            invariant
                self.wf(),
                self.source() == s,
                program@ + program_model(s, self.state(), self.error_texts()).0 == target.0,
                program_model(s, self.state(), self.error_texts()).1 == target.1,
            decreases measure(s, self.state()),
        {
            let ghost st0 = self.state();
            let ghost e0 = self.error_texts();
            let ghost before = program@;
            proof {
                lemma_statement_model(s, st0, e0);
            }
            let parsed = self.parse_statement();
            match parsed {
                Some(statement) => {
                    program.statements.push(statement);
                },
                None => {},
            }
            proof {
                lemma_advance(s, self.state());
            }
            self.next_token();
            let ghost rest = program_model(s, self.state(), self.error_texts()).0;
            assert(program@ + rest =~= before + program_model(s, st0, e0).0);
        }
        assert(program@ + Seq::<StatementModel>::empty() =~= program@);
        Ok(program)
    }
}

} // verus!
