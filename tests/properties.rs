use monkey::{lex, parse, IntErrorKind, Lexer, ParseError, Parser, Token};

#[test]
fn single_char_operators_alone() {
    let cases: [(&str, Token<&str>); 14] = [
        ("=", Token::Assign),
        ("!", Token::Bang),
        ("<", Token::Lt),
        (">", Token::Gt),
        ("/", Token::Slash),
        (";", Token::Semicolon),
        ("(", Token::Lparen),
        (")", Token::Rparen),
        (",", Token::Comma),
        ("+", Token::Plus),
        ("*", Token::Asterisk),
        ("-", Token::Minus),
        ("{", Token::Lbrace),
        ("}", Token::Rbrace),
    ];
    for (input, expected) in cases {
        assert_eq!(lex(input), vec![expected]);
    }
}

#[test]
fn single_char_operator_before_other_char() {
    assert_eq!(lex("<5"), vec![Token::Lt, Token::Number("5")]);
    assert_eq!(lex("!x"), vec![Token::Bang, Token::Ident("x")]);
}

#[test]
fn two_char_operators() {
    assert_eq!(lex("=="), vec![Token::Eq]);
    assert_eq!(lex("!="), vec![Token::NotEq]);
    assert_eq!(lex("<="), vec![Token::LtEq]);
    assert_eq!(lex(">="), vec![Token::GtEq]);
}

#[test]
fn rendered_tokens_lex_back() {
    let tokens = [
        Token::Assign,
        Token::Plus,
        Token::Minus,
        Token::Bang,
        Token::Asterisk,
        Token::Slash,
        Token::Lt,
        Token::Gt,
        Token::LtEq,
        Token::GtEq,
        Token::Comma,
        Token::Semicolon,
        Token::Lparen,
        Token::Rparen,
        Token::Lbrace,
        Token::Rbrace,
        Token::Function,
        Token::Let,
        Token::True,
        Token::False,
        Token::If,
        Token::Else,
        Token::Return,
        Token::Eq,
        Token::NotEq,
    ];
    let text: Vec<&str> = tokens.iter().map(|t| t.as_str()).collect();
    let joined = text.join(" ");
    assert_eq!(lex(&joined), tokens.to_vec());
}

#[test]
fn exhausted_lexer_stays_exhausted() {
    let mut lexer = Lexer::new("x // trailing comment");
    assert_eq!(lexer.next(), Some(Token::Ident("x")));
    assert_eq!(lexer.next(), None);
    assert_eq!(lexer.next(), None);
    assert_eq!(lexer.next(), None);
}

#[test]
fn whitespace_only_input() {
    assert_eq!(lex("\n\n\n"), Vec::<Token<&str>>::new());
    assert_eq!(lex(" \t\r\n"), Vec::<Token<&str>>::new());
}

#[test]
fn comment_then_code() {
    assert_eq!(
        lex("// comment\n20 / 2;"),
        vec![Token::Number("20"), Token::Slash, Token::Number("2"), Token::Semicolon]
    );
}

#[test]
fn identifiers_keep_digits_and_underscores() {
    assert_eq!(
        lex("_a1 b2c fnx"),
        vec![Token::Ident("_a1"), Token::Ident("b2c"), Token::Ident("fnx")]
    );
}

#[test]
fn numbers_with_fraction() {
    assert_eq!(lex("3.25 .5"), vec![Token::Number("3.25"), Token::Number(".5")]);
}

#[test]
fn unrecognised_characters_are_illegal() {
    assert_eq!(lex("@"), vec![Token::Illegal]);
    assert_eq!(lex("1 💝 2"), vec![Token::Number("1"), Token::Illegal, Token::Number("2")]);
}

#[test]
fn token_text() {
    assert_eq!(Token::LtEq.as_str(), "<=");
    assert_eq!(Token::Function.as_static_str(), "fn");
    assert_eq!(Token::Ident("abc").as_str(), "abc");
    assert_eq!(Token::Illegal.as_str(), "ILLEGAL");
    assert_eq!(Token::Number("12")._as_static_str(), Err(Token::Number("12")));
}

#[test]
fn precedence_of_product_over_sum() {
    assert_eq!(parse("1 + 2 * 3;").unwrap().to_string(), "(1 + (2 * 3));");
}

#[test]
fn subtraction_is_left_associative() {
    assert_eq!(parse("10 - 5 - 2;").unwrap().to_string(), "((10 - 5) - 2);");
}

#[test]
fn assignment_is_right_associative() {
    assert_eq!(parse("a = b = 1;").unwrap().to_string(), "(a = (b = 1));");
}

#[test]
fn prefix_operators() {
    assert_eq!(parse("-5 * !x;").unwrap().to_string(), "((-5) * (!x));");
    assert_eq!(parse("2 / +3;").unwrap().to_string(), "(2 / (+3));");
}

#[test]
fn statements_render_one_per_line() {
    let program = parse("let x = 1 + 2; return x; false;").unwrap();
    assert_eq!(program.len(), 3);
    assert_eq!(program.to_string(), "let x = (1 + 2);\nreturn x;\nfalse;");
}

#[test]
fn empty_program() {
    let program = parse("  // nothing\n").unwrap();
    assert_eq!(program.len(), 0);
    assert_eq!(program.to_string(), "");
}

#[test]
fn missing_semicolon() {
    assert_eq!(parse("1234123").unwrap_err(), ParseError::NoSemicolon);
    assert_eq!(parse("1 2;").unwrap_err(), ParseError::NoSemicolon);
}

#[test]
fn number_too_large() {
    assert_eq!(
        parse("99999999999999999999;").unwrap_err(),
        ParseError::IntLit { text: "99999999999999999999", cause: IntErrorKind::PosOverflow }
    );
    assert_eq!(parse("9223372036854775807;").unwrap().to_string(), "9223372036854775807;");
}

#[test]
fn number_with_fraction_does_not_convert() {
    assert_eq!(
        parse("1.5;").unwrap_err(),
        ParseError::IntLit { text: "1.5", cause: IntErrorKind::InvalidDigit }
    );
}

#[test]
fn input_ends_early() {
    assert_eq!(parse("let").unwrap_err(), ParseError::UnexpectedEof);
    assert_eq!(parse("1 +").unwrap_err(), ParseError::UnexpectedEof);
    assert_eq!(parse("return").unwrap_err(), ParseError::UnexpectedEof);
}

#[test]
fn bad_prefix_operator() {
    assert_eq!(parse(";").unwrap_err(), ParseError::BadPrefixOperator { op: ";" });
    assert_eq!(parse("1 + *;").unwrap_err(), ParseError::BadPrefixOperator { op: "*" });
}

#[test]
fn let_needs_name_and_assign() {
    assert_eq!(
        parse("let 5 = 1;").unwrap_err(),
        ParseError::Expected { token: "identifier", got: "5" }
    );
    assert_eq!(
        parse("let x 1;").unwrap_err(),
        ParseError::Expected { token: "=", got: "1" }
    );
}

#[test]
fn parser_steps() {
    let mut parser = Parser::new("x + 1");
    assert_eq!(parser.curr_token_or_err(), Err(ParseError::UnexpectedEof));
    assert_eq!(parser.peek_or_err(), Ok(&Token::Ident("x")));
    assert_eq!(parser.expect_or(Token::Ident("x"), ParseError::NoSemicolon), Ok(()));
    assert_eq!(
        parser.expect_or(Token::Plus, ParseError::NoSemicolon),
        Err(ParseError::NoSemicolon)
    );
    assert_eq!(parser.next_or_err(), Ok(Token::Ident("x")));
    assert_eq!(parser.curr_token_or_err(), Ok(Token::Ident("x")));
    assert_eq!(parser.expect(Token::Plus), Ok(Token::Plus));
    assert_eq!(
        parser.expect(Token::Semicolon),
        Err(ParseError::Expected { token: ";", got: "1" })
    );
    assert_eq!(parser.next_or_err(), Err(ParseError::UnexpectedEof));
    assert_eq!(parser.peek_or_err(), Err(ParseError::UnexpectedEof));
}

#[test]
fn parse_expression_with_threshold() {
    let mut parser = Parser::new("1 + 2 * 3");
    let e = parser.parse_expression(6).unwrap();
    assert_eq!(e.to_string(), "1");
    assert_eq!(parser.next_or_err(), Ok(Token::Plus));
}

#[test]
fn lexer_peek_does_not_consume() {
    let mut lexer = Lexer::new("let x");
    assert_eq!(lexer.peek(), Some(&Token::Let));
    assert_eq!(lexer.peek(), Some(&Token::Let));
    assert_eq!(lexer.next(), Some(Token::Let));
    assert_eq!(lexer.peek(), Some(&Token::Ident("x")));
    assert_eq!(lexer.next(), Some(Token::Ident("x")));
    assert_eq!(lexer.peek(), None);
    assert_eq!(lexer.next(), None);
}

#[test]
fn program_statements_by_index() {
    let program = parse("1; x;").unwrap();
    assert_eq!(program.len(), 2);
    assert_eq!(program.get(0).to_string(), "1;");
    assert_eq!(program.get(1).to_string(), "x;");
}
