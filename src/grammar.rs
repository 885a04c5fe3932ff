//! The grammar of programs, stated over the sequence of tokens that remains
//! to be read: statements by their leading token, expressions by
//! precedence climbing over binding powers.
use vstd::prelude::*;

use crate::ast::{
    Expression, ExpressionStmt, ExpressionView, InfixExpression, LetStmt, PrefixExpression,
    ReturnStmt, Statement, StatementView,
};
use crate::lexical::tokens;
use crate::parse_error::{bool_literal, int_literal, ParseError, ParseErrorView};
use crate::token::{display_text, Token, TokenView};

verus! {

/// A parsed item with the tokens that follow it, or the first error met.
pub type Parsed<T> = Result<(T, Seq<TokenView>), ParseErrorView>;

/// Binding power of a prefix operator.
pub open spec fn prefix_binding_power<S>(t: Token<S>) -> Option<u8> {
    match t {
        Token::Plus => Some(9),
        Token::Minus => Some(9),
        Token::Bang => Some(9),
        _ => None,
    }
}

/// Left and right binding powers of an infix operator. A right power below
/// the left one makes the operator right-associative.
pub open spec fn infix_binding_power<S>(t: Token<S>) -> Option<(u8, u8)> {
    match t {
        Token::Assign => Some((2, 1)),
        Token::Plus => Some((5, 6)),
        Token::Minus => Some((5, 6)),
        Token::Asterisk => Some((7, 8)),
        Token::Slash => Some((7, 8)),
        _ => None,
    }
}

/// What an expression that binds at least `min_bp` parses to: a leading
/// operand, then the infix operators that bind at least as tightly.
pub open spec fn parse_expr(ts: Seq<TokenView>, min_bp: int) -> Parsed<ExpressionView>
    decreases ts.len(), 1nat,
{
    if ts.len() == 0 {
        Err(ParseError::UnexpectedEof)
    } else {
        let t = ts[0];
        let rest = ts.drop_first();
        match t {
            Token::Number(text) => match int_literal(text) {
                Ok(v) => infix_loop(rest, Expression::NumberLiteral(v as i64), min_bp),
                Err(cause) => Err(ParseError::IntLit { text, cause }),
            },
            Token::True => match bool_literal(display_text(t)) {
                Some(b) => infix_loop(rest, Expression::BooleanLiteral(b), min_bp),
                None => Err(ParseError::BoolLit { text: display_text(t) }),
            },
            Token::False => match bool_literal(display_text(t)) {
                Some(b) => infix_loop(rest, Expression::BooleanLiteral(b), min_bp),
                None => Err(ParseError::BoolLit { text: display_text(t) }),
            },
            Token::Ident(name) => infix_loop(rest, Expression::Identifier(name), min_bp),
            _ => match prefix_binding_power(t) {
                None => Err(ParseError::BadPrefixOperator { op: display_text(t) }),
                Some(bp) => match parse_expr(rest, bp as int) {
                    Err(e) => Err(e),
                    Ok((operand, after)) => if after.len() < ts.len() {
                        infix_loop(
                            after,
                            Expression::Prefix(
                                PrefixExpression { operator: t, rhs: Box::new(operand) },
                            ),
                            min_bp,
                        )
                    } else {
                        Err(ParseError::UnexpectedEof)
                    },
                },
            },
        }
    }
}

/// Folds the infix operators that bind at least `min_bp` into `lhs`.
pub open spec fn infix_loop(ts: Seq<TokenView>, lhs: ExpressionView, min_bp: int) -> Parsed<
    ExpressionView,
>
    decreases ts.len(), 0nat,
{
    if ts.len() == 0 {
        Ok((lhs, ts))
    } else {
        match infix_binding_power(ts[0]) {
            None => Ok((lhs, ts)),
            Some((l, r)) => if (l as int) < min_bp {
                Ok((lhs, ts))
            } else {
                match parse_expr(ts.drop_first(), r as int) {
                    Err(e) => Err(e),
                    Ok((rhs, after)) => if after.len() < ts.len() {
                        infix_loop(
                            after,
                            Expression::Infix(
                                InfixExpression {
                                    lhs: Box::new(lhs),
                                    operator: ts[0],
                                    rhs: Box::new(rhs),
                                },
                            ),
                            min_bp,
                        )
                    } else {
                        Ok((lhs, ts))
                    },
                }
            },
        }
    }
}

/// The word that stands for an identifier in error messages.
pub open spec fn identifier_word() -> Seq<char> {
    seq!['i', 'd', 'e', 'n', 't', 'i', 'f', 'i', 'e', 'r']
}

/// A statement ends with `;`.
pub open spec fn end_statement(s: StatementView, ts: Seq<TokenView>) -> Parsed<StatementView> {
    if ts.len() > 0 && ts[0] is Semicolon {
        Ok((s, ts.drop_first()))
    } else {
        Err(ParseError::NoSemicolon)
    }
}

/// `let name = value;`, after the `let`.
pub open spec fn parse_let(ts: Seq<TokenView>) -> Parsed<StatementView> {
    if ts.len() == 0 {
        Err(ParseError::UnexpectedEof)
    } else if !(ts[0] is Ident) {
        Err(ParseError::Expected { token: identifier_word(), got: display_text(ts[0]) })
    } else {
        let r = ts.drop_first();
        if r.len() == 0 {
            Err(ParseError::UnexpectedEof)
        } else if !(r[0] is Assign) {
            Err(ParseError::Expected { token: seq!['='], got: display_text(r[0]) })
        } else {
            match parse_expr(r.drop_first(), 0) {
                Err(e) => Err(e),
                Ok((value, after)) => end_statement(
                    Statement::Let(LetStmt { name: ts[0]->Ident_0, value }),
                    after,
                ),
            }
        }
    }
}

/// A statement, chosen by its leading token.
pub open spec fn parse_statement(ts: Seq<TokenView>) -> Parsed<StatementView> {
    if ts.len() == 0 {
        Err(ParseError::UnexpectedEof)
    } else if ts[0] is Let {
        parse_let(ts.drop_first())
    } else if ts[0] is Return {
        match parse_expr(ts.drop_first(), 0) {
            Err(e) => Err(e),
            Ok((value, after)) => end_statement(
                Statement::Return(ReturnStmt { return_value: value }),
                after,
            ),
        }
    } else {
        match parse_expr(ts, 0) {
            Err(e) => Err(e),
            Ok((value, after)) => end_statement(
                Statement::Expression(ExpressionStmt(value)),
                after,
            ),
        }
    }
}

/// Statements up to the end of the tokens.
pub open spec fn parse_statements(ts: Seq<TokenView>) -> Result<
    Seq<StatementView>,
    ParseErrorView,
>
    decreases ts.len(),
{
    if ts.len() == 0 {
        Ok(Seq::empty())
    } else {
        match parse_statement(ts) {
            Err(e) => Err(e),
            Ok((s, after)) => if after.len() < ts.len() {
                match parse_statements(after) {
                    Ok(ss) => Ok(seq![s] + ss),
                    Err(e) => Err(e),
                }
            } else {
                Err(ParseError::UnexpectedEof)
            },
        }
    }
}

/// What the text `input` parses to.
pub open spec fn parse_program(input: Seq<char>) -> Result<Seq<StatementView>, ParseErrorView> {
    parse_statements(tokens(input))
}

/// An expression that opens with a number literal whose text does not
/// convert to an integer fails with `IntLit`, carrying that text.
pub proof fn law_bad_number_literal(ts: Seq<TokenView>, min_bp: int)
    requires
        ts.len() > 0,
        ts[0] is Number,
        int_literal(ts[0]->Number_0) is Err,
    ensures
        parse_expr(ts, min_bp) == Err::<(ExpressionView, Seq<TokenView>), ParseErrorView>(
            ParseError::IntLit {
                text: ts[0]->Number_0,
                cause: int_literal(ts[0]->Number_0)->Err_0,
            },
        ),
{
}

/// Parsing an expression consumes at least one token; folding infix
/// operators consumes none or more.
pub proof fn lemma_parse_expr_progress(ts: Seq<TokenView>, min_bp: int, lhs: ExpressionView)
    ensures
        parse_expr(ts, min_bp) is Ok ==> parse_expr(ts, min_bp)->Ok_0.1.len() < ts.len(),
        infix_loop(ts, lhs, min_bp) is Ok ==> infix_loop(ts, lhs, min_bp)->Ok_0.1.len()
            <= ts.len(),
    decreases ts.len(),
{
    if ts.len() > 0 {
        let t = ts[0];
        let rest = ts.drop_first();
        match t {
            Token::Number(text) => {
                if let Ok(v) = int_literal(text) {
                    lemma_parse_expr_progress(rest, min_bp, Expression::NumberLiteral(v as i64));
                }
            },
            Token::True => {
                if let Some(b) = bool_literal(display_text(t)) {
                    lemma_parse_expr_progress(rest, min_bp, Expression::BooleanLiteral(b));
                }
            },
            Token::False => {
                if let Some(b) = bool_literal(display_text(t)) {
                    lemma_parse_expr_progress(rest, min_bp, Expression::BooleanLiteral(b));
                }
            },
            Token::Ident(name) => {
                lemma_parse_expr_progress(rest, min_bp, Expression::Identifier(name));
            },
            _ => {
                if let Some(bp) = prefix_binding_power(t) {
                    lemma_parse_expr_progress(rest, bp as int, lhs);
                    if let Ok((operand, after)) = parse_expr(rest, bp as int) {
                        lemma_parse_expr_progress(
                            after,
                            min_bp,
                            Expression::Prefix(
                                PrefixExpression { operator: t, rhs: Box::new(operand) },
                            ),
                        );
                    }
                }
            },
        }
        if let Some((l, r)) = infix_binding_power(t) {
            lemma_parse_expr_progress(rest, r as int, lhs);
            if let Ok((rhs, after)) = parse_expr(rest, r as int) {
                lemma_parse_expr_progress(
                    after,
                    min_bp,
                    Expression::Infix(
                        InfixExpression { lhs: Box::new(lhs), operator: t, rhs: Box::new(rhs) },
                    ),
                );
            }
        }
    }
}

/// Parsing a statement consumes at least one token.
pub proof fn lemma_parse_statement_progress(ts: Seq<TokenView>)
    ensures
        parse_statement(ts) matches Ok((s, after)) ==> after.len() < ts.len(),
{
    if ts.len() > 0 {
        lemma_parse_expr_progress(ts, 0, Expression::BooleanLiteral(true));
        lemma_parse_expr_progress(ts.drop_first(), 0, Expression::BooleanLiteral(true));
        if ts.len() > 2 {
            lemma_parse_expr_progress(
                ts.drop_first().drop_first().drop_first(),
                0,
                Expression::BooleanLiteral(true),
            );
        }
    }
}

} // verus!
