//! The lexical grammar, stated over the characters that remain to be read.
use vstd::prelude::*;

use crate::chars::{
    spec_is_digit, spec_is_ident_char, spec_is_letter, spec_is_start_of_number,
    spec_is_whitespace,
};
use crate::token::{display_text, Token, TokenView};

verus! {

/// Length of the run of ASCII digits that `s` starts with.
pub open spec fn digits_len(s: Seq<char>) -> nat
    decreases s.len(),
{
    if s.len() > 0 && spec_is_digit(s[0]) {
        1 + digits_len(s.drop_first())
    } else {
        0
    }
}

/// Length of the run of identifier characters that `s` starts with.
pub open spec fn ident_chars_len(s: Seq<char>) -> nat
    decreases s.len(),
{
    if s.len() > 0 && spec_is_ident_char(s[0]) {
        1 + ident_chars_len(s.drop_first())
    } else {
        0
    }
}

/// Length of the number literal that opens `s`: its first character, a run of
/// digits, then optionally a `.` and a second run of digits.
pub open spec fn number_len(s: Seq<char>) -> nat {
    let d = 1 + digits_len(s.drop_first());
    if d < s.len() && s[d as int] == '.' {
        d + 1 + digits_len(s.skip((d + 1) as int))
    } else {
        d
    }
}

/// Length of the word that opens `s`: its first character and a run of
/// identifier characters.
pub open spec fn word_len(s: Seq<char>) -> nat {
    1 + ident_chars_len(s.drop_first())
}

/// The keyword spelled by `w`, or an identifier token holding `w`.
pub open spec fn keyword_or_ident(w: Seq<char>) -> TokenView {
    if w == seq!['f', 'n'] {
        Token::Function
    } else if w == seq!['r', 'e', 't', 'u', 'r', 'n'] {
        Token::Return
    } else if w == seq!['l', 'e', 't'] {
        Token::Let
    } else if w == seq!['i', 'f'] {
        Token::If
    } else if w == seq!['e', 'l', 's', 'e'] {
        Token::Else
    } else if w == seq!['t', 'r', 'u', 'e'] {
        Token::True
    } else if w == seq!['f', 'a', 'l', 's', 'e'] {
        Token::False
    } else {
        Token::Ident(w)
    }
}

/// `s` continues with `c` after its first character.
pub open spec fn second_is(s: Seq<char>, c: char) -> bool {
    s.len() > 1 && s[1] == c
}

/// Counts `k` more characters before the end of a lexing result.
pub open spec fn shift(o: Option<(TokenView, nat)>, k: nat) -> Option<(TokenView, nat)> {
    match o {
        Some((t, n)) => Some((t, n + k)),
        None => None,
    }
}

/// The token for an operator character that may be followed by `=`.
pub open spec fn with_eq(s: Seq<char>, single: TokenView, compound: TokenView) -> Option<
    (TokenView, nat),
> {
    if second_is(s, '=') {
        Some((compound, 2))
    } else {
        Some((single, 1))
    }
}

/// The token that a single character stands for, if it is one of the
/// operators and delimiters that are never followed by more.
pub open spec fn single_char_token(c: char) -> Option<TokenView> {
    if c == ';' {
        Some(Token::Semicolon)
    } else if c == '(' {
        Some(Token::Lparen)
    } else if c == ')' {
        Some(Token::Rparen)
    } else if c == ',' {
        Some(Token::Comma)
    } else if c == '+' {
        Some(Token::Plus)
    } else if c == '*' {
        Some(Token::Asterisk)
    } else if c == '-' {
        Some(Token::Minus)
    } else if c == '{' {
        Some(Token::Lbrace)
    } else if c == '}' {
        Some(Token::Rbrace)
    } else {
        None
    }
}

/// The next token of `s`, with the number of characters read up to its end
/// (whitespace and comments before it included); `None` when only
/// whitespace and comments remain.
pub open spec fn next_token(s: Seq<char>) -> Option<(TokenView, nat)>
    decreases s.len(), 1nat,
{
    if s.len() == 0 {
        None
    } else {
        let c = s[0];
        if c == '=' {
            with_eq(s, Token::Assign, Token::Eq)
        } else if c == '!' {
            with_eq(s, Token::Bang, Token::NotEq)
        } else if c == '<' {
            with_eq(s, Token::Lt, Token::LtEq)
        } else if c == '>' {
            with_eq(s, Token::Gt, Token::GtEq)
        } else if c == '/' {
            if second_is(s, '/') {
                shift(skip_comment(s.skip(2)), 2)
            } else {
                Some((Token::Slash, 1))
            }
        } else if single_char_token(c) is Some {
            Some((single_char_token(c)->0, 1))
        } else if spec_is_start_of_number(c) {
            Some((Token::Number(s.take(number_len(s) as int)), number_len(s)))
        } else if spec_is_letter(c) {
            Some((keyword_or_ident(s.take(word_len(s) as int)), word_len(s)))
        } else if spec_is_whitespace(c) {
            shift(next_token(s.drop_first()), 1)
        } else {
            Some((Token::Illegal, 1))
        }
    }
}

/// The rest of a line comment is skipped, up to and including the line
/// break; then lexing goes on.
pub open spec fn skip_comment(s: Seq<char>) -> Option<(TokenView, nat)>
    decreases s.len(), 0nat,
{
    if s.len() == 0 {
        None
    } else if s[0] == '\n' {
        shift(next_token(s.drop_first()), 1)
    } else {
        shift(skip_comment(s.drop_first()), 1)
    }
}

/// The tokens of `s`, in order.
pub open spec fn tokens(s: Seq<char>) -> Seq<TokenView>
    decreases s.len(),
{
    match next_token(s) {
        Some((t, n)) => if 0 < n <= s.len() {
            seq![t] + tokens(s.skip(n as int))
        } else {
            Seq::empty()
        },
        None => Seq::empty(),
    }
}

/// Every token ends after at least one character and within the text.
pub proof fn lemma_next_token_len(s: Seq<char>)
    ensures
        next_token(s) matches Some((t, n)) ==> 0 < n <= s.len(),
        skip_comment(s) matches Some((t, n)) ==> 0 < n <= s.len(),
    decreases s.len(),
{
    if s.len() > 0 {
        lemma_next_token_len(s.drop_first());
        lemma_digits_len_bound(s.drop_first());
        lemma_ident_chars_len_bound(s.drop_first());
        let d = 1 + digits_len(s.drop_first());
        if d + 1 <= s.len() {
            lemma_digits_len_bound(s.skip((d + 1) as int));
        }
        if s.len() >= 2 {
            lemma_next_token_len(s.skip(2));
        }
    }
}

pub proof fn lemma_digits_len_bound(s: Seq<char>)
    ensures
        digits_len(s) <= s.len(),
    decreases s.len(),
{
    if s.len() > 0 {
        lemma_digits_len_bound(s.drop_first());
    }
}

pub proof fn lemma_ident_chars_len_bound(s: Seq<char>)
    ensures
        ident_chars_len(s) <= s.len(),
    decreases s.len(),
{
    if s.len() > 0 {
        lemma_ident_chars_len_bound(s.drop_first());
    }
}

/// The one-character token of an operator or delimiter character.
pub open spec fn one_char_token(c: char) -> Option<TokenView> {
    if c == '=' {
        Some(Token::Assign)
    } else if c == '!' {
        Some(Token::Bang)
    } else if c == '<' {
        Some(Token::Lt)
    } else if c == '>' {
        Some(Token::Gt)
    } else if c == '/' {
        Some(Token::Slash)
    } else {
        single_char_token(c)
    }
}

/// The two-character token that an operator character forms with a
/// following `=`.
pub open spec fn with_eq_token(c: char) -> Option<TokenView> {
    if c == '=' {
        Some(Token::Eq)
    } else if c == '!' {
        Some(Token::NotEq)
    } else if c == '<' {
        Some(Token::LtEq)
    } else if c == '>' {
        Some(Token::GtEq)
    } else {
        None
    }
}

/// An operator or delimiter character that is not followed by `=` (nor, for
/// `/`, by a second `/`) is lexed as its one-character token; on its own it
/// is the whole token sequence.
pub proof fn law_one_char_operator(c: char, rest: Seq<char>)
    requires
        one_char_token(c) is Some,
        !(rest.len() > 0 && (rest[0] == '=' || (c == '/' && rest[0] == '/'))),
    ensures
        next_token(seq![c] + rest) == Some((one_char_token(c)->0, 1nat)),
        tokens(seq![c]) == seq![one_char_token(c)->0],
{
    let s = seq![c] + rest;
    assert(s[0] == c);
    assert(rest.len() > 0 ==> s[1] == rest[0]);
    lemma_tokens_unfold(seq![c]);
    assert(seq![c].skip(1) =~= Seq::<char>::empty());
    assert(seq![one_char_token(c)->0] + Seq::<TokenView>::empty() =~= seq![
        one_char_token(c)->0,
    ]);
}

/// An operator character followed by `=` is lexed as the two-character
/// token; the two characters on their own are the whole token sequence.
pub proof fn law_two_char_operator(c: char, rest: Seq<char>)
    requires
        with_eq_token(c) is Some,
    ensures
        next_token(seq![c, '='] + rest) == Some((with_eq_token(c)->0, 2nat)),
        tokens(seq![c, '=']) == seq![with_eq_token(c)->0],
{
    let s = seq![c, '='] + rest;
    assert(s[0] == c && s[1] == '=');
    lemma_tokens_unfold(seq![c, '=']);
    assert(seq![c, '='].skip(2) =~= Seq::<char>::empty());
    assert(seq![with_eq_token(c)->0] + Seq::<TokenView>::empty() =~= seq![
        with_eq_token(c)->0,
    ]);
}

/// A run of identifier characters that opens `s` ends at `k` when `k` is
/// where the first other character stands.
pub proof fn lemma_ident_run(s: Seq<char>, k: int)
    requires
        0 <= k <= s.len(),
        forall|i: int| 0 <= i < k ==> spec_is_ident_char(#[trigger] s[i]),
        k == s.len() || !spec_is_ident_char(s[k]),
    ensures
        ident_chars_len(s) == k,
    decreases k,
{
    if k > 0 {
        lemma_ident_run(s.drop_first(), k - 1);
    }
}

/// The tokens of `s` are its next token followed by the tokens after it.
pub proof fn lemma_tokens_unfold(s: Seq<char>)
    ensures
        next_token(s) matches Some((t, n)) ==> tokens(s) == seq![t] + tokens(s.skip(n as int)),
        next_token(s) is None ==> tokens(s) == Seq::<TokenView>::empty(),
{
    lemma_next_token_len(s);
}

/// Tokens that carry no text of their own and render to their own
/// spelling: every token but identifiers, numbers and `Illegal`.
pub open spec fn is_fixed_token(t: TokenView) -> bool {
    !t.is_literal() && !(t is Illegal)
}

/// The display texts of `ts`, joined by single spaces.
pub open spec fn join_display(ts: Seq<TokenView>) -> Seq<char>
    decreases ts.len(),
{
    if ts.len() == 0 {
        Seq::empty()
    } else if ts.len() == 1 {
        display_text(ts[0])
    } else {
        display_text(ts[0]) + seq![' '] + join_display(ts.drop_first())
    }
}

/// The display text of a fixed token, followed by a space or by nothing, is
/// lexed as that token.
proof fn lemma_fixed_token_lexes(t: TokenView, tail: Seq<char>)
    requires
        is_fixed_token(t),
        tail.len() == 0 || tail[0] == ' ',
    ensures
        next_token(display_text(t) + tail) == Some((t, display_text(t).len())),
{
    let d = display_text(t);
    let s = d + tail;
    assert forall|i: int| 0 <= i < d.len() implies s[i] == d[i] by {}
    assert(tail.len() > 0 ==> s[d.len() as int] == ' ');
    assert(s.take(d.len() as int) =~= d);
    if t is Function || t is Let || t is True || t is False || t is If || t is Else
        || t is Return {
        let x = s.drop_first();
        let k = d.len() - 1;
        assert forall|i: int| 0 <= i < k implies spec_is_ident_char(#[trigger] x[i]) by {
            assert(x[i] == d[i + 1]);
        }
        assert(k < x.len() ==> x[k] == ' ');
        lemma_ident_run(x, k);
    }
}

/// A leading space changes nothing in the tokens.
proof fn lemma_space_skipped(x: Seq<char>)
    ensures
        tokens(seq![' '] + x) == tokens(x),
{
    let s = seq![' '] + x;
    assert(s.drop_first() =~= x);
    lemma_tokens_unfold(s);
    lemma_tokens_unfold(x);
    lemma_next_token_len(x);
    if let Some((t, n)) = next_token(x) {
        assert(s.skip((n + 1) as int) =~= x.skip(n as int));
    }
}

/// Lexing the display texts of fixed tokens, joined by spaces, gives the
/// tokens back.
pub proof fn law_rendered_tokens_lex_back(ts: Seq<TokenView>)
    requires
        forall|i: int| 0 <= i < ts.len() ==> is_fixed_token(#[trigger] ts[i]),
    ensures
        tokens(join_display(ts)) == ts,
    decreases ts.len(),
{
    if ts.len() == 0 {
        lemma_tokens_unfold(Seq::<char>::empty());
        assert(ts =~= Seq::<TokenView>::empty());
    } else {
        let t = ts[0];
        let d = display_text(t);
        let tail = if ts.len() == 1 {
            Seq::<char>::empty()
        } else {
            seq![' '] + join_display(ts.drop_first())
        };
        assert(join_display(ts) =~= d + tail);
        lemma_fixed_token_lexes(t, tail);
        lemma_tokens_unfold(d + tail);
        assert((d + tail).skip(d.len() as int) =~= tail);
        if ts.len() == 1 {
            lemma_tokens_unfold(tail);
            assert(ts =~= seq![t]);
        } else {
            lemma_space_skipped(join_display(ts.drop_first()));
            law_rendered_tokens_lex_back(ts.drop_first());
            assert(ts =~= seq![t] + ts.drop_first());
        }
    }
}

} // verus!
