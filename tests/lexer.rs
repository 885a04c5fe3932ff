use monkey::{is_letter, is_linebreak, lex, Lexer, Token};

fn test_lexer(input: &'static str, expected_tokens: &[Token<&str>]) {
    let res: Vec<Token<&str>> = lex(input);
    assert_eq!(res, expected_tokens);
}

#[test]
fn lexer_init() {
    let mut lexer = Lexer::new("hello person");
    assert_eq!(lexer.current_slice(), "");
}

#[test]
fn accept() {
    let mut lexer = Lexer::new("hi");
    assert!(lexer.chars.accept('h'));
    assert_eq!(lexer.current_slice(), "h");
}

#[test]
fn accept_fail() {
    let mut lexer = Lexer::new("wow");
    assert!(!lexer.chars.accept('h'));
    assert_eq!(lexer.current_slice(), "");
}

#[test]
fn accept_while_none() {
    let mut lexer = Lexer::new("this");
    lexer.chars.accept_while(|c| *c == 'x');
    assert_eq!(lexer.current_slice(), "");
}

#[test]
fn accept_while_everything() {
    let mut lexer = Lexer::new("this should be the same");
    lexer.chars.accept_while(|_| true);
    assert_eq!(lexer.current_slice(), "this should be the same");
}

#[test]
fn accept_while_in_the_middle_test() {
    let mut lexer = Lexer::new("middle7098");
    lexer.chars.accept_while(is_letter);
    assert_eq!(lexer.current_slice(), "middle");
}

#[test]
fn find() {
    let mut lexer = Lexer::new("first line\nnext line");
    assert!(lexer.chars.find(is_linebreak).is_some());
    assert_eq!(lexer.current_slice(), "first line\n");
}

#[test]
fn find_none_test() {
    let mut lexer = Lexer::new("first line the same first line");
    assert!(lexer.chars.find(is_linebreak).is_none());
    assert_eq!(lexer.current_slice(), "first line the same first line")
}

#[test]
fn lex1_test() {
    let input = "let five = 5;";
    let expected_tokens = &[
        Token::Let,
        Token::Ident("five"),
        Token::Assign,
        Token::Number("5"),
        Token::Semicolon,
    ];
    test_lexer(input, expected_tokens);
}

#[test]
fn lex_function_test() {
    let input = "let add = fn(x, y) {
    x + y;
}";
    let expected_tokens = &[
        Token::Let,
        Token::Ident("add"),
        Token::Assign,
        Token::Function,
        Token::Lparen,
        Token::Ident("x"),
        Token::Comma,
        Token::Ident("y"),
        Token::Rparen,
        Token::Lbrace,
        Token::Ident("x"),
        Token::Plus,
        Token::Ident("y"),
        Token::Semicolon,
        Token::Rbrace,
    ];
    test_lexer(input, expected_tokens);
}

#[test]
fn assign_or_eq_test() {
    let input = "let add = 20;
20 == 20;";

    let expected_tokens = &[
        Token::Let,
        Token::Ident("add"),
        Token::Assign,
        Token::Number("20"),
        Token::Semicolon,
        Token::Number("20"),
        Token::Eq,
        Token::Number("20"),
        Token::Semicolon,
    ];

    test_lexer(input, expected_tokens);
}

#[test]
fn comment_and_other_test() {
    let input = "// this is a comment
20 / 2;";
    let expected_tokens = &[Token::Number("20"), Token::Slash, Token::Number("2"), Token::Semicolon];
    test_lexer(input, expected_tokens);
}

#[test]
fn comment_only_test() {
    let input = "// this is another comment";
    let expected_tokens = &[];
    test_lexer(input, expected_tokens);
}

#[test]
fn operators_test() {
    let input = "!-/*5;";
    let expected_tokens = &[
        Token::Bang,
        Token::Minus,
        Token::Slash,
        Token::Asterisk,
        Token::Number("5"),
        Token::Semicolon,
    ];
    test_lexer(input, expected_tokens);
}

#[test]
fn let_only_test() {
    let input = "let";
    let expected_tokens = &[Token::Let];
    test_lexer(input, expected_tokens);
}

#[test]
fn if_statement_test() {
    let input = "if (5 < 10) {
return true;
} else {
    return false;
}
";
    let expected_tokens = &[
        Token::If,
        Token::Lparen,
        Token::Number("5"),
        Token::Lt,
        Token::Number("10"),
        Token::Rparen,
        Token::Lbrace,
        Token::Return,
        Token::True,
        Token::Semicolon,
        Token::Rbrace,
        Token::Else,
        Token::Lbrace,
        Token::Return,
        Token::False,
        Token::Semicolon,
        Token::Rbrace,
    ];
    test_lexer(input, expected_tokens);
}

#[test]
fn single_line_test() {
    let input = "let number = 50;";
    let expected_tokens = &[
        Token::Let,
        Token::Ident("number"),
        Token::Assign,
        Token::Number("50"),
        Token::Semicolon,
    ];
    test_lexer(input, expected_tokens);
}

#[test]
fn none_test() {
    let input = "";
    let expected_tokens = &[];
    test_lexer(input, expected_tokens);
}

#[test]
fn only_newlines_test() {
    let input = "\n\n\n";
    let expected_tokens = &[];
    test_lexer(input, expected_tokens);
}

#[test]
fn unicode_test() {
    let input = "let Здравствуйте = 100;";
    let expected_tokens = &[
        Token::Let,
        Token::Ident("Здравствуйте"),
        Token::Assign,
        Token::Number("100"),
        Token::Semicolon,
    ];
    test_lexer(input, expected_tokens);
}
