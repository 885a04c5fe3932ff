//! The abstract syntax tree, and its rendering as text.
//!
//! Like tokens, the nodes are generic over the type `S` of the text they
//! carry: the parser builds nodes over `&str`, contracts speak of nodes over
//! `Seq<char>`.
use vstd::prelude::*;
use vstd::string::StringExecFns;

use crate::token::{display_text, Token};

verus! {

/// A program: its statements, in order.
#[derive(Debug)]
pub struct Program<S> {
    statements: Vec<Statement<S>>,
}

/// A statement.
#[derive(Debug)]
pub enum Statement<S> {
    Let(LetStmt<S>),
    Return(ReturnStmt<S>),
    Expression(ExpressionStmt<S>),
}

/// `let name = value;`
#[derive(Debug)]
pub struct LetStmt<S> {
    pub name: S,
    pub value: Expression<S>,
}

/// `return return_value;`
#[derive(Debug)]
pub struct ReturnStmt<S> {
    pub return_value: Expression<S>,
}

/// An expression standing as a statement.
#[derive(Debug)]
pub struct ExpressionStmt<S>(pub Expression<S>);

/// An expression.
#[derive(Debug)]
pub enum Expression<S> {
    NumberLiteral(i64),
    BooleanLiteral(bool),
    Identifier(S),
    Prefix(PrefixExpression<S>),
    Infix(InfixExpression<S>),
}

/// A prefix operator applied to an operand.
#[derive(Debug)]
pub struct PrefixExpression<S> {
    pub operator: Token<S>,
    pub rhs: Box<Expression<S>>,
}

/// An infix operator between two operands.
#[derive(Debug)]
pub struct InfixExpression<S> {
    pub lhs: Box<Expression<S>>,
    pub operator: Token<S>,
    pub rhs: Box<Expression<S>>,
}

/// An expression as contracts see it.
pub type ExpressionView = Expression<Seq<char>>;

/// A statement as contracts see it.
pub type StatementView = Statement<Seq<char>>;

impl<'a> View for Expression<&'a str> {
    type V = ExpressionView;

    open spec fn view(&self) -> ExpressionView
        decreases self,
    {
        match self {
            Expression::NumberLiteral(n) => Expression::NumberLiteral(*n),
            Expression::BooleanLiteral(b) => Expression::BooleanLiteral(*b),
            Expression::Identifier(s) => Expression::Identifier(s@),
            Expression::Prefix(p) => Expression::Prefix(
                PrefixExpression { operator: p.operator@, rhs: Box::new((*p.rhs).view()) },
            ),
            Expression::Infix(i) => Expression::Infix(
                InfixExpression {
                    lhs: Box::new((*i.lhs).view()),
                    operator: i.operator@,
                    rhs: Box::new((*i.rhs).view()),
                },
            ),
        }
    }
}

impl<'a> View for Statement<&'a str> {
    type V = StatementView;

    open spec fn view(&self) -> StatementView {
        match self {
            Statement::Let(l) => Statement::Let(LetStmt { name: l.name@, value: l.value@ }),
            Statement::Return(r) => Statement::Return(ReturnStmt { return_value: r.return_value@ }),
            Statement::Expression(e) => Statement::Expression(ExpressionStmt(e.0@)),
        }
    }
}

impl<'a> View for Program<&'a str> {
    type V = Seq<StatementView>;

    closed spec fn view(&self) -> Seq<StatementView> {
        self.statements@.map_values(|s: Statement<&'a str>| s@)
    }
}

/// The character of a decimal digit.
pub open spec fn digit_char(d: nat) -> char {
    if d == 0 {
        '0'
    } else if d == 1 {
        '1'
    } else if d == 2 {
        '2'
    } else if d == 3 {
        '3'
    } else if d == 4 {
        '4'
    } else if d == 5 {
        '5'
    } else if d == 6 {
        '6'
    } else if d == 7 {
        '7'
    } else if d == 8 {
        '8'
    } else {
        '9'
    }
}

/// The decimal digits of `n`, most significant first.
pub open spec fn nat_text(n: nat) -> Seq<char>
    decreases n,
{
    if n < 10 {
        seq![digit_char(n)]
    } else {
        nat_text(n / 10).push(digit_char(n % 10))
    }
}

/// The decimal text of `n`, with a leading `-` when it is negative.
pub open spec fn int_text(n: int) -> Seq<char> {
    if n < 0 {
        seq!['-'] + nat_text((-n) as nat)
    } else {
        nat_text(n as nat)
    }
}

/// The text of a boolean.
pub open spec fn bool_text(b: bool) -> Seq<char> {
    if b {
        seq!['t', 'r', 'u', 'e']
    } else {
        seq!['f', 'a', 'l', 's', 'e']
    }
}

/// The rendering of an expression: operators applications are enclosed in
/// parentheses, `(lhs op rhs)` and `(oprhs)`.
pub open spec fn render_expression(e: ExpressionView) -> Seq<char>
    decreases e,
{
    match e {
        Expression::NumberLiteral(n) => int_text(n as int),
        Expression::BooleanLiteral(b) => bool_text(b),
        Expression::Identifier(s) => s,
        Expression::Prefix(p) => seq!['('] + display_text(p.operator) + render_expression(*p.rhs)
            + seq![')'],
        Expression::Infix(i) => seq!['('] + render_expression(*i.lhs) + seq![' '] + display_text(
            i.operator,
        ) + seq![' '] + render_expression(*i.rhs) + seq![')'],
    }
}

/// The rendering of a statement, ending in `;`.
pub open spec fn render_statement(s: StatementView) -> Seq<char> {
    match s {
        Statement::Let(l) => seq!['l', 'e', 't', ' '] + l.name + seq![' ', '=', ' ']
            + render_expression(l.value) + seq![';'],
        Statement::Return(r) => seq!['r', 'e', 't', 'u', 'r', 'n', ' '] + render_expression(
            r.return_value,
        ) + seq![';'],
        Statement::Expression(e) => render_expression(e.0) + seq![';'],
    }
}

/// The rendering of a program: its statements, one per line.
pub open spec fn render_program(ss: Seq<StatementView>) -> Seq<char>
    decreases ss.len(),
{
    if ss.len() == 0 {
        Seq::empty()
    } else if ss.len() == 1 {
        render_statement(ss[0])
    } else {
        render_program(ss.drop_last()) + seq!['\n'] + render_statement(ss.last())
    }
}

/// Appends the text of decimal digit `d`.
fn push_digit(out: &mut String, d: u64)
    requires
        d < 10,
    ensures
        final(out)@ == old(out)@.push(digit_char(d as nat)),
{
    let s = if d == 0 {
        "0"
    } else if d == 1 {
        "1"
    } else if d == 2 {
        "2"
    } else if d == 3 {
        "3"
    } else if d == 4 {
        "4"
    } else if d == 5 {
        "5"
    } else if d == 6 {
        "6"
    } else if d == 7 {
        "7"
    } else if d == 8 {
        "8"
    } else {
        "9"
    };
    proof {
        reveal_strlit("0");
        reveal_strlit("1");
        reveal_strlit("2");
        reveal_strlit("3");
        reveal_strlit("4");
        reveal_strlit("5");
        reveal_strlit("6");
        reveal_strlit("7");
        reveal_strlit("8");
        reveal_strlit("9");
    }
    out.append(s);
    proof {
        assert(final(out)@ =~= old(out)@.push(digit_char(d as nat)));
    }
}

/// Appends the decimal digits of `n`.
fn push_nat(out: &mut String, n: u64)
    ensures
        final(out)@ == old(out)@ + nat_text(n as nat),
    decreases n,
{
    if n >= 10 {
        push_nat(out, n / 10);
        push_digit(out, n % 10);
        proof {
            assert(final(out)@ =~= old(out)@ + nat_text(n as nat));
        }
    } else {
        push_digit(out, n);
        proof {
            assert(final(out)@ =~= old(out)@ + nat_text(n as nat));
        }
    }
}

/// Appends the decimal text of `n`.
fn push_int(out: &mut String, n: i64)
    ensures
        final(out)@ == old(out)@ + int_text(n as int),
{
    if n < 0 {
        out.append("-");
        proof {
            reveal_strlit("-");
        }
        let magnitude: u64 = (-(n as i128)) as u64;
        push_nat(out, magnitude);
        proof {
            assert(final(out)@ =~= old(out)@ + int_text(n as int));
        }
    } else {
        push_nat(out, n as u64);
    }
}

/// Appends `s`, with a proof of what it holds.
fn push_text(out: &mut String, s: &str)
    ensures
        final(out)@ == old(out)@ + s@,
{
    out.append(s);
}

impl<'a> Expression<&'a str> {
    /// Appends the rendering of the expression.
    pub fn render_into(&self, out: &mut String)
        ensures
            final(out)@ == old(out)@ + render_expression(self@),
        decreases self,
    {
        proof {
            reveal_strlit("(");
            reveal_strlit(")");
            reveal_strlit(" ");
            reveal_strlit("true");
            reveal_strlit("false");
        }
        match self {
            Expression::NumberLiteral(n) => push_int(out, *n),
            Expression::BooleanLiteral(b) => {
                if *b {
                    push_text(out, "true");
                } else {
                    push_text(out, "false");
                }
                proof {
                    assert("true"@ =~= bool_text(true));
                    assert("false"@ =~= bool_text(false));
                }
            },
            Expression::Identifier(s) => push_text(out, s),
            Expression::Prefix(p) => {
                push_text(out, "(");
                push_text(out, p.operator.as_str());
                (*p.rhs).render_into(out);
                push_text(out, ")");
                proof {
                    assert(final(out)@ =~= old(out)@ + render_expression(self@));
                }
            },
            Expression::Infix(i) => {
                push_text(out, "(");
                (*i.lhs).render_into(out);
                push_text(out, " ");
                push_text(out, i.operator.as_str());
                push_text(out, " ");
                (*i.rhs).render_into(out);
                push_text(out, ")");
                proof {
                    assert(final(out)@ =~= old(out)@ + render_expression(self@));
                }
            },
        }
    }

    /// The rendering of the expression.
    pub fn to_string(&self) -> (r: String)
        ensures
            r@ == render_expression(self@),
    {
        let mut out = String::new();
        self.render_into(&mut out);
        proof {
            assert(out@ =~= render_expression(self@));
        }
        out
    }
}

impl<'a> Statement<&'a str> {
    /// Appends the rendering of the statement.
    pub fn render_into(&self, out: &mut String)
        ensures
            final(out)@ == old(out)@ + render_statement(self@),
    {
        proof {
            reveal_strlit("let ");
            reveal_strlit(" = ");
            reveal_strlit("return ");
            reveal_strlit(";");
        }
        match self {
            Statement::Let(l) => {
                push_text(out, "let ");
                push_text(out, l.name);
                push_text(out, " = ");
                l.value.render_into(out);
            },
            Statement::Return(r) => {
                push_text(out, "return ");
                r.return_value.render_into(out);
            },
            Statement::Expression(e) => {
                e.0.render_into(out);
            },
        }
        push_text(out, ";");
        proof {
            assert(final(out)@ =~= old(out)@ + render_statement(self@));
        }
    }

    /// The rendering of the statement.
    pub fn to_string(&self) -> (r: String)
        ensures
            r@ == render_statement(self@),
    {
        let mut out = String::new();
        self.render_into(&mut out);
        proof {
            assert(out@ =~= render_statement(self@));
        }
        out
    }
}

impl<'a> Program<&'a str> {
    /// A program without statements.
    pub fn new() -> (r: Program<&'a str>)
        ensures
            r@ == Seq::<StatementView>::empty(),
    {
        let r = Program { statements: Vec::new() };
        proof {
            assert(r@ =~= Seq::<StatementView>::empty());
        }
        r
    }

    /// Appends a statement.
    pub fn push(&mut self, statement: Statement<&'a str>)
        ensures
            final(self)@ == old(self)@.push(statement@),
    {
        self.statements.push(statement);
        proof {
            assert(final(self)@ =~= old(self)@.push(statement@));
        }
    }

    /// Number of statements.
    pub fn len(&self) -> (r: usize)
        ensures
            r == self@.len(),
    {
        self.statements.len()
    }

    /// The statement at `index`.
    pub fn get(&self, index: usize) -> (r: &Statement<&'a str>)
        requires
            index < self@.len(),
        ensures
            r@ == self@[index as int],
    {
        &self.statements[index]
    }

    /// The rendering of the program: its statements, one per line.
    pub fn to_string(&self) -> (r: String)
        ensures
            r@ == render_program(self@),
    {
        let mut out = String::new();
        let mut i: usize = 0;
        proof {
            reveal_strlit("\n");
            assert(self@.take(0) =~= Seq::<StatementView>::empty());
        }
        while i < self.statements.len()
            invariant
                i <= self.statements.len(),
                self@ == self.statements@.map_values(|s: Statement<&'a str>| s@),
                self@.len() == self.statements.len(),
                out@ == render_program(self@.take(i as int)),
            decreases self.statements.len() - i,
        {
            if i > 0 {
                push_text(&mut out, "\n");
            }
            self.statements[i].render_into(&mut out);
            proof {
                reveal_strlit("\n");
                let pre = self@.take(i as int);
                let post = self@.take(i + 1);
                assert(post.drop_last() =~= pre);
                assert(post.last() == self@[i as int]);
                assert(self@.len() == self.statements@.len());
                assert(self@[i as int] == self.statements@[i as int]@);
                assert(out@ =~= render_program(post));
            }
            i = i + 1;
        }
        proof {
            assert(self@.take(i as int) =~= self@);
        }
        out
    }
}

} // verus!
