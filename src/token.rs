//! Tokens: the units that the lexer produces and the parser consumes.
use vstd::prelude::*;

verus! {

/// A token. Identifier and number tokens carry their text, of type `S`: the
/// lexer hands out `Token<&str>`, borrowing from its input, and contracts
/// speak of `Token<Seq<char>>`.
#[derive(Debug, PartialEq, Eq, Copy, Clone)]
pub enum Token<S> {
    Illegal,
    // identifiers and literals
    Ident(S),
    Number(S),
    // operators
    Assign,
    Plus,
    Minus,
    Bang,
    Asterisk,
    Slash,
    Lt,
    Gt,
    LtEq,
    GtEq,
    // delimiters
    Comma,
    Semicolon,
    Lparen,
    Rparen,
    Lbrace,
    Rbrace,
    // keywords
    Function,
    Let,
    True,
    False,
    If,
    Else,
    Return,
    // comparisons
    Eq,
    NotEq,
}

/// A token as contracts see it: its text is a sequence of characters.
pub type TokenView = Token<Seq<char>>;

impl<'a> View for Token<&'a str> {
    type V = TokenView;

    open spec fn view(&self) -> TokenView {
        match *self {
            Token::Illegal => Token::Illegal,
            Token::Ident(s) => Token::Ident(s@),
            Token::Number(s) => Token::Number(s@),
            Token::Assign => Token::Assign,
            Token::Plus => Token::Plus,
            Token::Minus => Token::Minus,
            Token::Bang => Token::Bang,
            Token::Asterisk => Token::Asterisk,
            Token::Slash => Token::Slash,
            Token::Lt => Token::Lt,
            Token::Gt => Token::Gt,
            Token::LtEq => Token::LtEq,
            Token::GtEq => Token::GtEq,
            Token::Comma => Token::Comma,
            Token::Semicolon => Token::Semicolon,
            Token::Lparen => Token::Lparen,
            Token::Rparen => Token::Rparen,
            Token::Lbrace => Token::Lbrace,
            Token::Rbrace => Token::Rbrace,
            Token::Function => Token::Function,
            Token::Let => Token::Let,
            Token::True => Token::True,
            Token::False => Token::False,
            Token::If => Token::If,
            Token::Else => Token::Else,
            Token::Return => Token::Return,
            Token::Eq => Token::Eq,
            Token::NotEq => Token::NotEq,
        }
    }
}

impl<S> Token<S> {
    /// The token carries text of its own: an identifier or a number.
    pub open spec fn is_literal(self) -> bool {
        self is Ident || self is Number
    }
}

/// The fixed display text of a token that carries no text of its own.
pub open spec fn static_text<S>(t: Token<S>) -> Seq<char> {
    match t {
        Token::Illegal => seq!['I', 'L', 'L', 'E', 'G', 'A', 'L'],
        Token::Assign => seq!['='],
        Token::Plus => seq!['+'],
        Token::Minus => seq!['-'],
        Token::Bang => seq!['!'],
        Token::Asterisk => seq!['*'],
        Token::Slash => seq!['/'],
        Token::Lt => seq!['<'],
        Token::Gt => seq!['>'],
        Token::LtEq => seq!['<', '='],
        Token::GtEq => seq!['>', '='],
        Token::Comma => seq![','],
        Token::Semicolon => seq![';'],
        Token::Lparen => seq!['('],
        Token::Rparen => seq![')'],
        Token::Lbrace => seq!['{'],
        Token::Rbrace => seq!['}'],
        Token::Function => seq!['f', 'n'],
        Token::Let => seq!['l', 'e', 't'],
        Token::True => seq!['t', 'r', 'u', 'e'],
        Token::False => seq!['f', 'a', 'l', 's', 'e'],
        Token::If => seq!['i', 'f'],
        Token::Else => seq!['e', 'l', 's', 'e'],
        Token::Return => seq!['r', 'e', 't', 'u', 'r', 'n'],
        Token::Eq => seq!['=', '='],
        Token::NotEq => seq!['!', '='],
        Token::Ident(_) => Seq::empty(),
        Token::Number(_) => Seq::empty(),
    }
}

/// The display text of a token: its own text for identifiers and numbers.
pub open spec fn display_text(t: TokenView) -> Seq<char> {
    match t {
        Token::Ident(s) => s,
        Token::Number(s) => s,
        _ => static_text(t),
    }
}

impl<'a> Token<&'a str> {
    /// The display text of the token.
    pub fn as_str(&self) -> (r: &'a str)
        ensures
            r@ == display_text(self@),
    {
        match self._as_static_str() {
            Ok(s) => s,
            Err(Token::Ident(s)) => s,
            Err(Token::Number(s)) => s,
            Err(_) => "",
        }
    }

    /// The fixed display text of a token that carries no text of its own.
    pub fn as_static_str(&self) -> (r: &'static str)
        requires
            !self.is_literal(),
        ensures
            r@ == static_text(self@),
    {
        match self._as_static_str() {
            Ok(s) => s,
            Err(_) => "",
        }
    }

    /// The fixed display text of the token, or the token itself when it
    /// carries text of its own.
    pub fn _as_static_str(&self) -> (r: Result<&'static str, Token<&'a str>>)
        ensures
            !self.is_literal() ==> (r matches Ok(s) && s@ == static_text(self@)),
            self.is_literal() ==> r == Err::<&'static str, Token<&'a str>>(*self),
    {
        let s = match *self {
            Token::Illegal => {
                proof {
                    reveal_strlit("ILLEGAL");
                }
                "ILLEGAL"
            },
            Token::Assign => {
                proof {
                    reveal_strlit("=");
                }
                "="
            },
            Token::Plus => {
                proof {
                    reveal_strlit("+");
                }
                "+"
            },
            Token::Minus => {
                proof {
                    reveal_strlit("-");
                }
                "-"
            },
            Token::Bang => {
                proof {
                    reveal_strlit("!");
                }
                "!"
            },
            Token::Asterisk => {
                proof {
                    reveal_strlit("*");
                }
                "*"
            },
            Token::Slash => {
                proof {
                    reveal_strlit("/");
                }
                "/"
            },
            Token::Lt => {
                proof {
                    reveal_strlit("<");
                }
                "<"
            },
            Token::Gt => {
                proof {
                    reveal_strlit(">");
                }
                ">"
            },
            Token::LtEq => {
                proof {
                    reveal_strlit("<=");
                }
                "<="
            },
            Token::GtEq => {
                proof {
                    reveal_strlit(">=");
                }
                ">="
            },
            Token::Comma => {
                proof {
                    reveal_strlit(",");
                }
                ","
            },
            Token::Semicolon => {
                proof {
                    reveal_strlit(";");
                }
                ";"
            },
            Token::Lparen => {
                proof {
                    reveal_strlit("(");
                }
                "("
            },
            Token::Rparen => {
                proof {
                    reveal_strlit(")");
                }
                ")"
            },
            Token::Lbrace => {
                proof {
                    reveal_strlit("{");
                }
                "{"
            },
            Token::Rbrace => {
                proof {
                    reveal_strlit("}");
                }
                "}"
            },
            Token::Function => {
                proof {
                    reveal_strlit("fn");
                }
                "fn"
            },
            Token::Let => {
                proof {
                    reveal_strlit("let");
                }
                "let"
            },
            Token::True => {
                proof {
                    reveal_strlit("true");
                }
                "true"
            },
            Token::False => {
                proof {
                    reveal_strlit("false");
                }
                "false"
            },
            Token::If => {
                proof {
                    reveal_strlit("if");
                }
                "if"
            },
            Token::Else => {
                proof {
                    reveal_strlit("else");
                }
                "else"
            },
            Token::Return => {
                proof {
                    reveal_strlit("return");
                }
                "return"
            },
            Token::Eq => {
                proof {
                    reveal_strlit("==");
                }
                "=="
            },
            Token::NotEq => {
                proof {
                    reveal_strlit("!=");
                }
                "!="
            },
            _ => {
                return Err(*self);
            },
        };
        Ok(s)
    }
}

} // verus!
