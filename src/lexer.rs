//! The lexer: a pull-based, fused sequence of tokens over an input text.
use vstd::prelude::*;
use vstd::string::{StrSliceExecFns, StringExecFns};

use crate::advanced_chars::AdvancedChars;
use crate::chars::{
    is_digit, is_ident_char, is_letter, is_linebreak, is_start_of_number, is_whitespace,
    spec_is_digit, spec_is_ident_char,
};
use crate::lexical::{
    digits_len, keyword_or_ident, lemma_ident_run, lemma_next_token_len, lemma_tokens_unfold,
    next_token, number_len, shift, skip_comment, tokens, word_len,
};
use crate::token::{Token, TokenView};

verus! {

/// Lexer over one input text. It remembers where the current lexeme
/// started, so that identifier and number tokens borrow their exact text,
/// and holds the token that `peek` has looked ahead at, if any.
#[derive(Debug)]
pub struct Lexer<'a> {
    input: &'a str,
    pub chars: AdvancedChars,
    start: usize,
    lookahead: Option<Option<Token<&'a str>>>,
}

/// The run of digits that opens `s` has length `k` when `k` is where the
/// first other character stands.
proof fn lemma_digits_run(s: Seq<char>, k: int)
    requires
        0 <= k <= s.len(),
        forall|i: int| 0 <= i < k ==> spec_is_digit(#[trigger] s[i]),
        k == s.len() || !spec_is_digit(s[k]),
    ensures
        digits_len(s) == k,
    decreases k,
{
    if k > 0 {
        lemma_digits_run(s.drop_first(), k - 1);
    }
}

/// A comment whose line break is at index `k` ends right after it.
proof fn lemma_comment_to_break(s: Seq<char>, k: int)
    requires
        0 <= k < s.len(),
        forall|i: int| 0 <= i < k ==> #[trigger] s[i] != '\n',
        s[k] == '\n',
    ensures
        skip_comment(s) == shift(next_token(s.skip(k + 1)), (k + 1) as nat),
    decreases k,
{
    if k == 0 {
        assert(s.drop_first() =~= s.skip(1));
    } else {
        lemma_comment_to_break(s.drop_first(), k - 1);
        assert(s.drop_first().skip(k) =~= s.skip(k + 1));
    }
}

/// A comment without a line break runs to the end of the text.
proof fn lemma_comment_to_end(s: Seq<char>)
    requires
        forall|i: int| 0 <= i < s.len() ==> #[trigger] s[i] != '\n',
    ensures
        skip_comment(s) is None,
    decreases s.len(),
{
    if s.len() > 0 {
        lemma_comment_to_end(s.drop_first());
    }
}

/// Wraps a token produced in one step.
pub fn token<S>(t: Token<S>) -> (r: Option<Token<S>>)
    ensures
        r == Some(t),
{
    Some(t)
}

/// Whether two texts hold the same characters.
pub(crate) fn same_text(a: &str, b: &str) -> (r: bool)
    ensures
        r == (a@ == b@),
{
    String::from_str(a) == String::from_str(b)
}

impl<'a> Lexer<'a> {
    /// The input text.
    pub closed spec fn text(&self) -> Seq<char> {
        self.input@
    }

    /// Index of the first character not read yet.
    pub closed spec fn pos(&self) -> nat {
        self.chars.pos()
    }

    /// Index where the current lexeme started.
    pub closed spec fn start(&self) -> nat {
        self.start as nat
    }

    /// The characters not read yet.
    pub open spec fn rest(&self) -> Seq<char> {
        self.text().skip(self.pos() as int)
    }

    /// The tokens that the lexer has still to produce: the token it has
    /// looked ahead at, if any, then those of the characters not read yet.
    pub closed spec fn remaining_tokens(&self) -> Seq<TokenView> {
        match self.lookahead {
            None => tokens(self.rest()),
            Some(None) => Seq::empty(),
            Some(Some(t)) => seq![t@] + tokens(self.rest()),
        }
    }

    /// The lexer holds no token it has looked ahead at.
    pub closed spec fn no_lookahead(&self) -> bool {
        self.lookahead is None
    }

    pub closed spec fn wf(&self) -> bool {
        &&& self.chars.wf()
        &&& self.chars.text() == self.input@
        &&& self.start <= self.chars.pos()
        &&& self.lookahead == Some(None::<Token<&'a str>>) ==> next_token(self.rest()) is None
    }

    /// `after` is what one call of `next` leaves of `self`, returning `r`:
    /// the first remaining token, or `None` for good when none remains.
    pub open spec fn steps_to(self, r: Option<Token<&'a str>>, after: Self) -> bool {
        &&& after.text() == self.text()
        &&& self.remaining_tokens() == match r {
            Some(t) => seq![t@] + after.remaining_tokens(),
            None => Seq::<TokenView>::empty(),
        }
        &&& r is None ==> after.remaining_tokens() == Seq::<TokenView>::empty()
    }

    /// `after`, reached from `self` with result `r`, matches the lexing
    /// result `expected`, counted from the position of `self`.
    pub open spec fn yields(
        self,
        expected: Option<(TokenView, nat)>,
        r: Option<Token<&'a str>>,
        after: Self,
    ) -> bool {
        &&& after.text() == self.text()
        &&& match expected {
            Some((t, n)) => {
                &&& r matches Some(tok)
                &&& tok@ == t
                &&& after.pos() == self.pos() + n
            },
            None => {
                &&& r is None
                &&& after.pos() == self.text().len()
            },
        }
    }

    /// The next character not read yet is `c`.
    pub open spec fn next_is(&self, c: char) -> bool {
        self.pos() < self.text().len() && self.text()[self.pos() as int] == c
    }

    proof fn lemma_wf(&self)
        requires
            self.wf(),
        ensures
            self.start() <= self.pos() <= self.text().len(),
    {
        self.chars.lemma_wf();
    }

    /// Creates a new lexer over `input`.
    pub fn new(input: &'a str) -> (r: Lexer<'a>)
        ensures
            r.wf(),
            r.text() == input@,
            r.pos() == 0,
            r.start() == 0,
            r.no_lookahead(),
            r.remaining_tokens() == tokens(input@),
    {
        let chars = AdvancedChars::new(input);
        let r = Lexer { input, chars, start: 0, lookahead: None };
        proof {
            assert(r.rest() =~= input@);
        }
        r
    }

    /// Moves the start of the current lexeme up to the next unread character.
    fn ignore(&mut self)
        requires
            old(self).wf(),
        ensures
            final(self).wf(),
            final(self).text() == old(self).text(),
            final(self).pos() == old(self).pos(),
            final(self).start() == final(self).pos(),
            final(self).chars == old(self).chars,
            final(self).lookahead == old(self).lookahead,
    {
        proof {
            self.chars.lemma_wf();
        }
        self.start = self.chars.peek_index();
    }

    /// The text of the current lexeme: from its start up to the next unread
    /// character.
    pub fn current_slice(&mut self) -> (r: &'a str)
        requires
            old(self).wf(),
        ensures
            *final(self) == *old(self),
            r@ == old(self).text().subrange(old(self).start() as int, old(self).pos() as int),
    {
        proof {
            self.chars.lemma_wf();
        }
        self.input.substring_char(self.start, self.chars.peek_index())
    }

    /// Produces the next token, or `None` once only whitespace and comments
    /// remain. Once it has returned `None`, it keeps returning `None`.
    pub fn next(&mut self) -> (r: Option<Token<&'a str>>)
        requires
            old(self).wf(),
        ensures
            final(self).wf(),
            old(self).steps_to(r, *final(self)),
            old(self).no_lookahead() ==> old(self).yields(
                next_token(old(self).rest()),
                r,
                *final(self),
            ),
    {
        match self.lookahead.take() {
            Some(t) => {
                proof {
                    if t is None {
                        lemma_tokens_unfold(self.rest());
                    }
                }
                t
            },
            None => self.scan(),
        }
    }

    /// The token that `next` would produce, without consuming it.
    pub fn peek(&mut self) -> (r: Option<&Token<&'a str>>)
        requires
            old(self).wf(),
        ensures
            final(self).wf(),
            final(self).text() == old(self).text(),
            final(self).remaining_tokens() == old(self).remaining_tokens(),
            old(self).remaining_tokens().len() == 0 ==> r is None,
            old(self).remaining_tokens().len() > 0 ==> r is Some && (*r->Some_0)@
                == old(self).remaining_tokens()[0],
    {
        if self.lookahead.is_none() {
            let t = self.scan();
            self.lookahead = Some(t);
            proof {
                if t is None {
                    lemma_tokens_unfold(self.rest());
                }
            }
        }
        match &self.lookahead {
            Some(Some(t)) => Some(t),
            _ => None,
        }
    }

    /// Lexes the next token from the characters not read yet.
    fn scan(&mut self) -> (r: Option<Token<&'a str>>)
        requires
            old(self).wf(),
            old(self).no_lookahead(),
        ensures
            final(self).wf(),
            final(self).no_lookahead(),
            old(self).yields(next_token(old(self).rest()), r, *final(self)),
            r is None ==> next_token(final(self).rest()) is None,
            old(self).remaining_tokens() == match r {
                Some(t) => seq![t@] + final(self).remaining_tokens(),
                None => Seq::<TokenView>::empty(),
            },
            r is None ==> final(self).remaining_tokens() == Seq::<TokenView>::empty(),
    {
        self.ignore();
        let r = self.lex_main();
        proof {
            lemma_tokens_unfold(old(self).rest());
            lemma_next_token_len(old(self).rest());
            self.lemma_wf();
            if let Some((t, n)) = next_token(old(self).rest()) {
                assert(self.rest() =~= old(self).rest().skip(n as int));
            } else {
                assert(self.rest() =~= Seq::<char>::empty());
                lemma_tokens_unfold(self.rest());
            }
        }
        r
    }

    /// Reads one character and decides what the token is, handing over to
    /// another step where the token may be longer than one character.
    fn lex_main(&mut self) -> (r: Option<Token<&'a str>>)
        requires
            old(self).wf(),
            old(self).no_lookahead(),
            old(self).start() == old(self).pos(),
        ensures
            final(self).wf(),
            final(self).no_lookahead(),
            final(self).start() == final(self).pos(),
            old(self).yields(next_token(old(self).rest()), r, *final(self)),
        decreases old(self).rest().len(), 0nat,
    {
        proof {
            self.lemma_wf();
        }
        let ghost s = self.rest();
        let ghost p = self.pos();
        let c = match self.chars.next() {
            Some(c) => c,
            None => {
                return None;
            },
        };
        proof {
            assert(self.rest() =~= s.drop_first());
        }
        let res = if c == '=' {
            self.assign_or_eq()
        } else if c == ';' {
            token(Token::Semicolon)
        } else if c == '(' {
            token(Token::Lparen)
        } else if c == ')' {
            token(Token::Rparen)
        } else if c == ',' {
            token(Token::Comma)
        } else if c == '+' {
            token(Token::Plus)
        } else if c == '*' {
            token(Token::Asterisk)
        } else if c == '/' {
            self.slash_or_comment()
        } else if c == '-' {
            token(Token::Minus)
        } else if c == '{' {
            token(Token::Lbrace)
        } else if c == '}' {
            token(Token::Rbrace)
        } else if c == '>' {
            self.gt()
        } else if c == '<' {
            self.lt()
        } else if c == '!' {
            self.bang_or_not_eq()
        } else if is_start_of_number(&c) {
            self.number()
        } else if is_letter(&c) {
            self.keyword()
        } else if is_whitespace(&c) {
            self.whitespace()
        } else {
            token(Token::Illegal)
        };
        proof {
            self.lemma_wf();
            if c == '/' && s.len() > 1 && s[1] == '/' {
                assert(s.drop_first().drop_first() =~= s.skip(2));
            }
            assert(self.text().subrange(p as int, self.pos() as int) =~= s.take(
                self.pos() - p,
            ));
        }
        self.ignore();
        res
    }

    /// After a whitespace character: skips it and lexes on.
    fn whitespace(&mut self) -> (r: Option<Token<&'a str>>)
        requires
            old(self).wf(),
            old(self).no_lookahead(),
        ensures
            final(self).wf(),
            final(self).no_lookahead(),
            final(self).start() == final(self).pos(),
            old(self).yields(next_token(old(self).rest()), r, *final(self)),
        decreases old(self).rest().len(), 1nat,
    {
        self.ignore();
        self.lex_main()
    }

    /// After a `/`: a second `/` opens a line comment, else this is a slash.
    fn slash_or_comment(&mut self) -> (r: Option<Token<&'a str>>)
        requires
            old(self).wf(),
            old(self).no_lookahead(),
        ensures
            final(self).wf(),
            final(self).no_lookahead(),
            old(self).next_is('/') ==> final(self).start() == final(self).pos(),
            old(self).yields(
                if old(self).next_is('/') {
                    shift(skip_comment(old(self).rest().drop_first()), 1)
                } else {
                    Some((Token::Slash, 0))
                },
                r,
                *final(self),
            ),
        decreases old(self).rest().len(), 1nat,
    {
        let ghost s = self.rest();
        if self.chars.accept('/') {
            proof {
                assert(self.rest() =~= s.drop_first());
            }
            self.comment()
        } else {
            token(Token::Slash)
        }
    }

    /// Inside a line comment: skips up to and including the line break, or
    /// to the end of the text, and lexes on.
    fn comment(&mut self) -> (r: Option<Token<&'a str>>)
        requires
            old(self).wf(),
            old(self).no_lookahead(),
        ensures
            final(self).wf(),
            final(self).no_lookahead(),
            final(self).start() == final(self).pos(),
            old(self).yields(skip_comment(old(self).rest()), r, *final(self)),
        decreases old(self).rest().len(), 1nat,
    {
        let ghost s = self.rest();
        let ghost p = self.pos();
        proof {
            self.lemma_wf();
        }
        let found = self.chars.find(is_linebreak);
        proof {
            self.lemma_wf();
            let q = self.pos();
            assert forall|i: int| 0 <= i < q - p - 1 implies #[trigger] s[i] != '\n' by {
                assert(s[i] == self.text()[p + i]);
            }
            if found is Some {
                lemma_comment_to_break(s, q - p - 1);
                assert(s.skip(q - p) =~= self.rest());
            } else {
                assert forall|i: int| 0 <= i < s.len() implies #[trigger] s[i] != '\n' by {
                    assert(s[i] == self.text()[p + i]);
                }
                lemma_comment_to_end(s);
            }
        }
        self.ignore();
        self.lex_main()
    }

    /// After a `=`: `==` or `=`.
    fn assign_or_eq(&mut self) -> (r: Option<Token<&'a str>>)
        requires
            old(self).wf(),
            old(self).no_lookahead(),
        ensures
            final(self).wf(),
            final(self).no_lookahead(),
            final(self).text() == old(self).text(),
            final(self).start() == old(self).start(),
            old(self).next_is('=') ==> r == Some(Token::<&'a str>::Eq) && final(self).pos()
                == old(self).pos() + 1,
            !old(self).next_is('=') ==> r == Some(Token::<&'a str>::Assign) && final(self).pos()
                == old(self).pos(),
    {
        if self.chars.accept('=') {
            token(Token::Eq)
        } else {
            token(Token::Assign)
        }
    }

    /// After a `>`: `>=` or `>`.
    fn gt(&mut self) -> (r: Option<Token<&'a str>>)
        requires
            old(self).wf(),
            old(self).no_lookahead(),
        ensures
            final(self).wf(),
            final(self).no_lookahead(),
            final(self).text() == old(self).text(),
            final(self).start() == old(self).start(),
            old(self).next_is('=') ==> r == Some(Token::<&'a str>::GtEq) && final(self).pos()
                == old(self).pos() + 1,
            !old(self).next_is('=') ==> r == Some(Token::<&'a str>::Gt) && final(self).pos()
                == old(self).pos(),
    {
        if self.chars.accept('=') {
            token(Token::GtEq)
        } else {
            token(Token::Gt)
        }
    }

    /// After a `!`: `!=` or `!`.
    fn bang_or_not_eq(&mut self) -> (r: Option<Token<&'a str>>)
        requires
            old(self).wf(),
            old(self).no_lookahead(),
        ensures
            final(self).wf(),
            final(self).no_lookahead(),
            final(self).text() == old(self).text(),
            final(self).start() == old(self).start(),
            old(self).next_is('=') ==> r == Some(Token::<&'a str>::NotEq) && final(self).pos()
                == old(self).pos() + 1,
            !old(self).next_is('=') ==> r == Some(Token::<&'a str>::Bang) && final(self).pos()
                == old(self).pos(),
    {
        if self.chars.accept('=') {
            token(Token::NotEq)
        } else {
            token(Token::Bang)
        }
    }

    /// After a `<`: `<=` or `<`.
    fn lt(&mut self) -> (r: Option<Token<&'a str>>)
        requires
            old(self).wf(),
            old(self).no_lookahead(),
        ensures
            final(self).wf(),
            final(self).no_lookahead(),
            final(self).text() == old(self).text(),
            final(self).start() == old(self).start(),
            old(self).next_is('=') ==> r == Some(Token::<&'a str>::LtEq) && final(self).pos()
                == old(self).pos() + 1,
            !old(self).next_is('=') ==> r == Some(Token::<&'a str>::Lt) && final(self).pos()
                == old(self).pos(),
    {
        if self.chars.accept('=') {
            token(Token::LtEq)
        } else {
            token(Token::Lt)
        }
    }

    /// After the first character of a number: a run of digits, then
    /// optionally a `.` and another run of digits.
    fn number(&mut self) -> (r: Option<Token<&'a str>>)
        requires
            old(self).wf(),
            old(self).no_lookahead(),
            old(self).start() + 1 == old(self).pos(),
        ensures
            final(self).wf(),
            final(self).no_lookahead(),
            final(self).text() == old(self).text(),
            final(self).start() == old(self).start(),
            final(self).pos() == old(self).start() + number_len(
                old(self).text().skip(old(self).start() as int),
            ),
            r matches Some(t) && t@ == Token::Number(
                old(self).text().subrange(old(self).start() as int, final(self).pos() as int),
            ),
    {
        let ghost text = self.text();
        let ghost st = self.start() as int;
        proof {
            self.lemma_wf();
        }
        self.chars.accept_while(is_digit);
        proof {
            self.lemma_wf();
            let mid = self.pos() as int;
            let t1 = text.skip(st + 1);
            assert forall|i: int| 0 <= i < mid - st - 1 implies spec_is_digit(#[trigger] t1[i]) by {
                assert(t1[i] == text[st + 1 + i]);
            }
            lemma_digits_run(t1, mid - st - 1);
            assert(text.skip(st).drop_first() =~= t1);
        }
        let ghost mid = self.pos() as int;
        if self.chars.accept('.') {
            self.chars.accept_while(is_digit);
            proof {
                self.lemma_wf();
                let end = self.pos() as int;
                let t2 = text.skip(mid + 1);
                assert forall|i: int| 0 <= i < end - mid - 1 implies spec_is_digit(
                    #[trigger] t2[i],
                ) by {
                    assert(t2[i] == text[mid + 1 + i]);
                }
                lemma_digits_run(t2, end - mid - 1);
                assert(text.skip(st).skip(mid - st + 1) =~= t2);
            }
        }
        token(Token::Number(self.current_slice()))
    }

    /// After the first character of a word: a run of identifier characters;
    /// the word is a keyword or an identifier.
    fn keyword(&mut self) -> (r: Option<Token<&'a str>>)
        requires
            old(self).wf(),
            old(self).no_lookahead(),
            old(self).start() + 1 == old(self).pos(),
        ensures
            final(self).wf(),
            final(self).no_lookahead(),
            final(self).text() == old(self).text(),
            final(self).start() == old(self).start(),
            final(self).pos() == old(self).start() + word_len(
                old(self).text().skip(old(self).start() as int),
            ),
            r matches Some(t) && t@ == keyword_or_ident(
                old(self).text().subrange(old(self).start() as int, final(self).pos() as int),
            ),
    {
        let ghost text = self.text();
        let ghost st = self.start() as int;
        proof {
            self.lemma_wf();
        }
        self.chars.accept_while(is_ident_char);
        proof {
            self.lemma_wf();
            let mid = self.pos() as int;
            let t1 = text.skip(st + 1);
            assert forall|i: int| 0 <= i < mid - st - 1 implies spec_is_ident_char(
                #[trigger] t1[i],
            ) by {
                assert(t1[i] == text[st + 1 + i]);
            }
            lemma_ident_run(t1, mid - st - 1);
            assert(text.skip(st).drop_first() =~= t1);
        }
        let word = self.current_slice();
        proof {
            reveal_strlit("fn");
            reveal_strlit("return");
            reveal_strlit("let");
            reveal_strlit("if");
            reveal_strlit("else");
            reveal_strlit("true");
            reveal_strlit("false");
            assert("fn"@ =~= seq!['f', 'n']);
            assert("return"@ =~= seq!['r', 'e', 't', 'u', 'r', 'n']);
            assert("let"@ =~= seq!['l', 'e', 't']);
            assert("if"@ =~= seq!['i', 'f']);
            assert("else"@ =~= seq!['e', 'l', 's', 'e']);
            assert("true"@ =~= seq!['t', 'r', 'u', 'e']);
            assert("false"@ =~= seq!['f', 'a', 'l', 's', 'e']);
        }
        if same_text(word, "fn") {
            token(Token::Function)
        } else if same_text(word, "return") {
            token(Token::Return)
        } else if same_text(word, "let") {
            token(Token::Let)
        } else if same_text(word, "if") {
            token(Token::If)
        } else if same_text(word, "else") {
            token(Token::Else)
        } else if same_text(word, "true") {
            token(Token::True)
        } else if same_text(word, "false") {
            token(Token::False)
        } else {
            self.ident()
        }
    }

    /// The current lexeme as an identifier.
    fn ident(&mut self) -> (r: Option<Token<&'a str>>)
        requires
            old(self).wf(),
        ensures
            *final(self) == *old(self),
            r matches Some(t) && t@ == Token::Ident(
                old(self).text().subrange(old(self).start() as int, old(self).pos() as int),
            ),
    {
        token(Token::Ident(self.current_slice()))
    }
}

/// Once `next` has returned `None`, a further call returns `None` again and
/// no token remains.
pub proof fn law_fused<'a>(
    l0: Lexer<'a>,
    l1: Lexer<'a>,
    r2: Option<Token<&'a str>>,
    l2: Lexer<'a>,
)
    requires
        l0.steps_to(None, l1),
        l1.steps_to(r2, l2),
    ensures
        r2 is None,
        l1.remaining_tokens() == Seq::<TokenView>::empty(),
        l2.remaining_tokens() == Seq::<TokenView>::empty(),
{
    if let Some(t) = r2 {
        assert((seq![t@] + l2.remaining_tokens()).len() > 0);
    }
}

/// All the tokens of `input`, in order.
pub fn lex(input: &str) -> (r: Vec<Token<&str>>)
    ensures
        r@.map_values(|t: Token<&str>| t@) == tokens(input@),
{
    let mut lexer = Lexer::new(input);
    let mut out: Vec<Token<&str>> = Vec::new();
    proof {
        assert(out@.map_values(|t: Token<&str>| t@) + lexer.remaining_tokens() =~= tokens(
            input@,
        ));
    }
    loop
        invariant
            lexer.wf(),
            tokens(input@) == out@.map_values(|t: Token<&str>| t@) + lexer.remaining_tokens(),
        decreases lexer.remaining_tokens().len(),
    {
        match lexer.next() {
            Some(t) => {
                proof {
                    assert(out@.push(t).map_values(|t: Token<&str>| t@) =~= out@.map_values(
                        |t: Token<&str>| t@,
                    ).push(t@));
                }
                out.push(t);
            },
            None => {
                proof {
                    assert(out@.map_values(|t: Token<&str>| t@) + Seq::<TokenView>::empty()
                        =~= out@.map_values(|t: Token<&str>| t@));
                }
                return out;
            },
        }
    }
}

} // verus!
