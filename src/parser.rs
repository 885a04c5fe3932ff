//! The parser: drives the lexer one token at a time and builds the syntax
//! tree, statements by recursive descent and expressions by precedence
//! climbing.
use vstd::prelude::*;

use crate::ast::{
    Expression, ExpressionStmt, InfixExpression, LetStmt, PrefixExpression, Program, ReturnStmt,
    Statement, StatementView,
};
use crate::grammar::{
    end_statement, identifier_word, infix_binding_power, infix_loop, lemma_parse_expr_progress,
    lemma_parse_statement_progress, parse_expr, parse_let, parse_program, parse_statement,
    parse_statements, prefix_binding_power,
};
use crate::lexer::{same_text, Lexer};
use crate::lexical::tokens;
use crate::parse_error::{parse_bool_literal, parse_int_literal, ParseError, ParseErrorView};
use crate::token::{display_text, Token, TokenView};

verus! {

/// Parser over one input text, with one token of lookahead.
#[derive(Debug)]
pub struct Parser<'a> {
    pub lexer: Lexer<'a>,
    current: Option<Token<&'a str>>,
}

/// The result of a parse step matches what the grammar says: the same value
/// and the same tokens left, or the same error.
pub open spec fn matches_grammar<T: View>(
    r: Result<T, ParseError<&str>>,
    expected: Result<(T::V, Seq<TokenView>), ParseErrorView>,
    rest_after: Seq<TokenView>,
) -> bool {
    match expected {
        Ok((v, rest)) => r is Ok && r->Ok_0@ == v && rest_after == rest,
        Err(e) => r is Err && r->Err_0@ == e,
    }
}

/// Whether two tokens are the same: the same kind, and the same text for
/// identifiers and numbers.
pub fn same_token(a: &Token<&str>, b: &Token<&str>) -> (r: bool)
    ensures
        r == (a@ == b@),
{
    match *a {
        Token::Illegal => matches!(*b, Token::Illegal),
        Token::Ident(x) => match *b {
            Token::Ident(y) => same_text(x, y),
            _ => false,
        },
        Token::Number(x) => match *b {
            Token::Number(y) => same_text(x, y),
            _ => false,
        },
        Token::Assign => matches!(*b, Token::Assign),
        Token::Plus => matches!(*b, Token::Plus),
        Token::Minus => matches!(*b, Token::Minus),
        Token::Bang => matches!(*b, Token::Bang),
        Token::Asterisk => matches!(*b, Token::Asterisk),
        Token::Slash => matches!(*b, Token::Slash),
        Token::Lt => matches!(*b, Token::Lt),
        Token::Gt => matches!(*b, Token::Gt),
        Token::LtEq => matches!(*b, Token::LtEq),
        Token::GtEq => matches!(*b, Token::GtEq),
        Token::Comma => matches!(*b, Token::Comma),
        Token::Semicolon => matches!(*b, Token::Semicolon),
        Token::Lparen => matches!(*b, Token::Lparen),
        Token::Rparen => matches!(*b, Token::Rparen),
        Token::Lbrace => matches!(*b, Token::Lbrace),
        Token::Rbrace => matches!(*b, Token::Rbrace),
        Token::Function => matches!(*b, Token::Function),
        Token::Let => matches!(*b, Token::Let),
        Token::True => matches!(*b, Token::True),
        Token::False => matches!(*b, Token::False),
        Token::If => matches!(*b, Token::If),
        Token::Else => matches!(*b, Token::Else),
        Token::Return => matches!(*b, Token::Return),
        Token::Eq => matches!(*b, Token::Eq),
        Token::NotEq => matches!(*b, Token::NotEq),
    }
}

/// Parses `s` into a program.
pub fn parse(s: &str) -> (r: Result<Program<&str>, ParseError<&str>>)
    ensures
        match parse_program(s@) {
            Ok(ss) => r is Ok && r->Ok_0@ == ss,
            Err(e) => r is Err && r->Err_0@ == e,
        },
{
    let mut p = Parser::new(s);
    p.parse()
}

/// Binding power of a prefix operator.
pub fn prefix_power(t: &Token<&str>) -> (r: Option<u8>)
    ensures
        r == prefix_binding_power(*t),
{
    match *t {
        Token::Plus => Some(9),
        Token::Minus => Some(9),
        Token::Bang => Some(9),
        _ => None,
    }
}

/// Left and right binding powers of an infix operator.
pub fn infix_power(t: &Token<&str>) -> (r: Option<(u8, u8)>)
    ensures
        r == infix_binding_power(*t),
{
    match *t {
        Token::Assign => Some((2, 1)),
        Token::Plus => Some((5, 6)),
        Token::Minus => Some((5, 6)),
        Token::Asterisk => Some((7, 8)),
        Token::Slash => Some((7, 8)),
        _ => None,
    }
}

/// Binding powers depend on the kind of a token alone.
proof fn lemma_binding_power_view(t: Token<&str>)
    ensures
        infix_binding_power(t) == infix_binding_power(t@),
        prefix_binding_power(t) == prefix_binding_power(t@),
{
}

impl<'a> Parser<'a> {
    /// The tokens not consumed yet, the lookahead first.
    pub closed spec fn rest(&self) -> Seq<TokenView> {
        self.lexer.remaining_tokens()
    }

    /// The token consumed last.
    pub closed spec fn current(&self) -> Option<TokenView> {
        match self.current {
            Some(t) => Some(t@),
            None => None,
        }
    }

    /// The lexer behind the lookahead.
    pub closed spec fn source(&self) -> Lexer<'a> {
        self.lexer
    }

    pub closed spec fn wf(&self) -> bool {
        self.lexer.wf()
    }

    /// Creates a parser over `input`.
    pub fn new(input: &'a str) -> (r: Parser<'a>)
        ensures
            r.wf(),
            r.rest() == tokens(input@),
            r.current() is None,
    {
        let lexer = Lexer::new(input);
        Parser { lexer, current: None }
    }

    /// The lexer that the parser reads from.
    pub fn lexer(&mut self) -> (r: &mut Lexer<'a>)
        ensures
            *r == old(self).source(),
            final(self).source() == *final(r),
            final(self).current() == old(self).current(),
    {
        &mut self.lexer
    }

    /// Consumes the next token and returns it; `UnexpectedEof` when none is left.
    pub fn next_or_err(&mut self) -> (r: Result<Token<&'a str>, ParseError<&'a str>>)
        requires
            old(self).wf(),
        ensures
            final(self).wf(),
            old(self).rest().len() == 0 ==> r == Err::<Token<&'a str>, ParseError<&'a str>>(
                ParseError::UnexpectedEof,
            ) && final(self).rest() == old(self).rest(),
            old(self).rest().len() > 0 ==> {
                &&& r is Ok
                &&& r->Ok_0@ == old(self).rest()[0]
                &&& final(self).rest() == old(self).rest().drop_first()
                &&& final(self).current() == Some(old(self).rest()[0])
            },
    {
        match self.lexer.next() {
            None => Err(ParseError::UnexpectedEof),
            Some(t) => {
                self.current = Some(t);
                proof {
                    assert(old(self).rest().drop_first() =~= self.rest());
                }
                Ok(t)
            },
        }
    }

    /// The next token, without consuming it; `UnexpectedEof` when none is left.
    pub fn peek_or_err(&mut self) -> (r: Result<&Token<&'a str>, ParseError<&'a str>>)
        requires
            old(self).wf(),
        ensures
            final(self).wf(),
            final(self).rest() == old(self).rest(),
            final(self).current() == old(self).current(),
            old(self).rest().len() == 0 ==> r is Err && r->Err_0 == ParseError::<&'a str>::UnexpectedEof,
            old(self).rest().len() > 0 ==> r is Ok && (*r->Ok_0)@ == old(self).rest()[0],
    {
        match self.lexer.peek() {
            None => Err(ParseError::UnexpectedEof),
            Some(t) => Ok(t),
        }
    }

    /// The token consumed last; `UnexpectedEof` before the first one.
    pub fn curr_token_or_err(&self) -> (r: Result<Token<&'a str>, ParseError<&'a str>>)
        ensures
            self.current() is None ==> r == Err::<Token<&'a str>, ParseError<&'a str>>(
                ParseError::UnexpectedEof,
            ),
            self.current() is Some ==> r is Ok && Some(r->Ok_0@) == self.current(),
    {
        match self.current {
            None => Err(ParseError::UnexpectedEof),
            Some(t) => Ok(t),
        }
    }

    /// Consumes the next token, which must be `token`.
    pub fn expect(&mut self, token: Token<&'a str>) -> (r: Result<Token<&'a str>, ParseError<&'a str>>)
        requires
            old(self).wf(),
        ensures
            final(self).wf(),
            old(self).rest().len() == 0 ==> r == Err::<Token<&'a str>, ParseError<&'a str>>(
                ParseError::UnexpectedEof,
            ),
            old(self).rest().len() > 0 ==> final(self).rest() == old(self).rest().drop_first(),
            old(self).rest().len() > 0 && old(self).rest()[0] == token@ ==> r == Ok::<
                Token<&'a str>,
                ParseError<&'a str>,
            >(token),
            old(self).rest().len() > 0 && old(self).rest()[0] != token@ ==> r is Err && r->Err_0@
                == (ParseError::<Seq<char>>::Expected {
                token: display_text(token@),
                got: display_text(old(self).rest()[0]),
            }),
    {
        match self.next_or_err() {
            Err(e) => Err(e),
            Ok(next) => {
                if same_token(&next, &token) {
                    Ok(token)
                } else {
                    Err(ParseError::Expected { token: token.as_str(), got: next.as_str() })
                }
            },
        }
    }

    /// Succeeds when the next token is `expected`, without consuming it;
    /// else fails with `err`.
    pub fn expect_or(&mut self, expected: Token<&'a str>, err: ParseError<&'a str>) -> (r: Result<
        (),
        ParseError<&'a str>,
    >)
        requires
            old(self).wf(),
        ensures
            final(self).wf(),
            final(self).rest() == old(self).rest(),
            final(self).current() == old(self).current(),
            (old(self).rest().len() > 0 && old(self).rest()[0] == expected@) ==> r is Ok,
            !(old(self).rest().len() > 0 && old(self).rest()[0] == expected@) ==> r == Err::<
                (),
                ParseError<&'a str>,
            >(err),
    {
        match self.lexer.peek() {
            Some(t) => {
                if same_token(t, &expected) {
                    Ok(())
                } else {
                    Err(err)
                }
            },
            None => Err(err),
        }
    }

    /// Parses statements until the input is exhausted.
    pub fn parse(&mut self) -> (r: Result<Program<&'a str>, ParseError<&'a str>>)
        requires
            old(self).wf(),
        ensures
            final(self).wf(),
            match parse_statements(old(self).rest()) {
                Ok(ss) => r is Ok && r->Ok_0@ == ss,
                Err(e) => r is Err && r->Err_0@ == e,
            },
    {
        let mut program = Program::new();
        loop
            invariant
                self.wf(),
                parse_statements(old(self).rest()) == match parse_statements(self.rest()) {
                    Ok(ss) => Ok(program@ + ss),
                    Err(e) => Err::<Seq<StatementView>, ParseErrorView>(e),
                },
            decreases self.rest().len(),
        {
            if self.lexer.peek().is_none() {
                proof {
                    assert(program@ + Seq::<StatementView>::empty() =~= program@);
                }
                return Ok(program);
            }
            let ghost ts = self.rest();
            proof {
                lemma_parse_statement_progress(ts);
            }
            match self.parse_statement() {
                Err(e) => {
                    return Err(e);
                },
                Ok(s) => {
                    proof {
                        let ss = parse_statements(self.rest());
                        if let Ok(tail) = ss {
                            assert(program@.push(s@) + tail =~= program@ + (seq![s@] + tail));
                        }
                    }
                    program.push(s);
                },
            }
        }
    }

    /// Parses one statement, chosen by its leading token.
    pub fn parse_statement(&mut self) -> (r: Result<Statement<&'a str>, ParseError<&'a str>>)
        requires
            old(self).wf(),
        ensures
            final(self).wf(),
            matches_grammar(r, parse_statement(old(self).rest()), final(self).rest()),
    {
        let t = match self.lexer.peek() {
            Some(t) => *t,
            None => {
                return Err(ParseError::UnexpectedEof);
            },
        };
        match t {
            Token::Let => {
                let _ = self.next_or_err();
                self.parse_let()
            },
            Token::Return => {
                let _ = self.next_or_err();
                self.parse_return()
            },
            _ => self.parse_expression_statement(),
        }
    }

    /// `let name = value;`, after the `let`.
    fn parse_let(&mut self) -> (r: Result<Statement<&'a str>, ParseError<&'a str>>)
        requires
            old(self).wf(),
        ensures
            final(self).wf(),
            matches_grammar(r, parse_let(old(self).rest()), final(self).rest()),
    {
        let name = match self.next_or_err() {
            Err(e) => {
                return Err(e);
            },
            Ok(Token::Ident(name)) => name,
            Ok(other) => {
                proof {
                    reveal_strlit("identifier");
                    assert("identifier"@ =~= identifier_word());
                }
                return Err(ParseError::Expected { token: "identifier", got: other.as_str() });
            },
        };
        match self.expect(Token::Assign) {
            Err(e) => {
                return Err(e);
            },
            Ok(_) => {},
        }
        let value = match self.parse_expression(0) {
            Err(e) => {
                return Err(e);
            },
            Ok(v) => v,
        };
        match self.end_statement() {
            Err(e) => Err(e),
            Ok(()) => Ok(Statement::Let(LetStmt { name, value })),
        }
    }

    /// `return value;`, after the `return`.
    fn parse_return(&mut self) -> (r: Result<Statement<&'a str>, ParseError<&'a str>>)
        requires
            old(self).wf(),
        ensures
            final(self).wf(),
            matches_grammar(
                r,
                match parse_expr(old(self).rest(), 0) {
                    Err(e) => Err(e),
                    Ok((value, after)) => end_statement(
                        Statement::Return(ReturnStmt { return_value: value }),
                        after,
                    ),
                },
                final(self).rest(),
            ),
    {
        let value = match self.parse_expression(0) {
            Err(e) => {
                return Err(e);
            },
            Ok(v) => v,
        };
        match self.end_statement() {
            Err(e) => Err(e),
            Ok(()) => Ok(Statement::Return(ReturnStmt { return_value: value })),
        }
    }

    /// An expression standing as a statement.
    fn parse_expression_statement(&mut self) -> (r: Result<Statement<&'a str>, ParseError<&'a str>>)
        requires
            old(self).wf(),
        ensures
            final(self).wf(),
            matches_grammar(
                r,
                match parse_expr(old(self).rest(), 0) {
                    Err(e) => Err(e),
                    Ok((value, after)) => end_statement(
                        Statement::Expression(ExpressionStmt(value)),
                        after,
                    ),
                },
                final(self).rest(),
            ),
    {
        let value = match self.parse_expression(0) {
            Err(e) => {
                return Err(e);
            },
            Ok(v) => v,
        };
        match self.end_statement() {
            Err(e) => Err(e),
            Ok(()) => Ok(Statement::Expression(ExpressionStmt(value))),
        }
    }

    /// Consumes the `;` that ends a statement; `NoSemicolon` when the next
    /// token is another one, or when none is left.
    fn end_statement(&mut self) -> (r: Result<(), ParseError<&'a str>>)
        requires
            old(self).wf(),
        ensures
            final(self).wf(),
            old(self).rest().len() > 0 && old(self).rest()[0] is Semicolon ==> r is Ok
                && final(self).rest() == old(self).rest().drop_first(),
            !(old(self).rest().len() > 0 && old(self).rest()[0] is Semicolon) ==> r
                == Err::<(), ParseError<&'a str>>(ParseError::NoSemicolon),
    {
        match self.lexer.peek() {
            Some(Token::Semicolon) => {
                let _ = self.next_or_err();
                Ok(())
            },
            _ => Err(ParseError::NoSemicolon),
        }
    }

    /// Parses an expression whose operators bind at least `min_bp`.
    pub fn parse_expression(&mut self, min_bp: u8) -> (r: Result<
        Expression<&'a str>,
        ParseError<&'a str>,
    >)
        requires
            old(self).wf(),
        ensures
            final(self).wf(),
            matches_grammar(r, parse_expr(old(self).rest(), min_bp as int), final(self).rest()),
        decreases old(self).rest().len(),
    {
        let ghost ts = self.rest();
        let t = match self.next_or_err() {
            Err(e) => {
                return Err(e);
            },
            Ok(t) => t,
        };
        proof {
            reveal_strlit("true");
            reveal_strlit("false");
        }
        let lhs = match t {
            Token::Number(text) => match parse_int_literal(text) {
                Ok(v) => Expression::NumberLiteral(v),
                Err(cause) => {
                    return Err(ParseError::IntLit { text, cause });
                },
            },
            Token::True => match parse_bool_literal(t.as_str()) {
                Some(b) => Expression::BooleanLiteral(b),
                None => {
                    return Err(ParseError::BoolLit { text: t.as_str() });
                },
            },
            Token::False => match parse_bool_literal(t.as_str()) {
                Some(b) => Expression::BooleanLiteral(b),
                None => {
                    return Err(ParseError::BoolLit { text: t.as_str() });
                },
            },
            Token::Ident(name) => Expression::Identifier(name),
            _ => match prefix_power(&t) {
                None => {
                    return Err(ParseError::BadPrefixOperator { op: t.as_str() });
                },
                Some(bp) => {
                    proof {
                        lemma_parse_expr_progress(ts.drop_first(), bp as int, Expression::BooleanLiteral(true));
                    }
                    match self.parse_expression(bp) {
                        Err(e) => {
                            return Err(e);
                        },
                        Ok(operand) => Expression::Prefix(
                            PrefixExpression { operator: t, rhs: Box::new(operand) },
                        ),
                    }
                },
            },
        };
        self.parse_infix(lhs, min_bp)
    }

    /// Folds the infix operators that bind at least `min_bp` into `lhs`.
    fn parse_infix(&mut self, lhs: Expression<&'a str>, min_bp: u8) -> (r: Result<
        Expression<&'a str>,
        ParseError<&'a str>,
    >)
        requires
            old(self).wf(),
        ensures
            final(self).wf(),
            matches_grammar(r, infix_loop(old(self).rest(), lhs@, min_bp as int), final(self).rest()),
        decreases old(self).rest().len(),
    {
        let mut acc = lhs;
        loop
            invariant
                self.wf(),
                infix_loop(old(self).rest(), lhs@, min_bp as int)
                    == infix_loop(self.rest(), acc@, min_bp as int),
                self.rest().len() <= old(self).rest().len(),
            decreases self.rest().len(),
        {
            let ghost ts = self.rest();
            let op = match self.lexer.peek() {
                Some(op) => *op,
                None => {
                    return Ok(acc);
                },
            };
            proof {
                lemma_binding_power_view(op);
            }
            let (l, r) = match infix_power(&op) {
                Some(p) => p,
                None => {
                    return Ok(acc);
                },
            };
            if l < min_bp {
                return Ok(acc);
            }
            let _ = self.next_or_err();
            proof {
                lemma_parse_expr_progress(ts.drop_first(), r as int, acc@);
            }
            let rhs = match self.parse_expression(r) {
                Err(e) => {
                    return Err(e);
                },
                Ok(rhs) => rhs,
            };
            acc = Expression::Infix(
                InfixExpression { lhs: Box::new(acc), operator: op, rhs: Box::new(rhs) },
            );
        }
    }
}

} // verus!
