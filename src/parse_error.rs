//! Parse errors, and the conversion of literal text into values.
use vstd::prelude::*;
use vstd::string::StringExecFns;

verus! {

broadcast use vstd::string::group_string_axioms;

/// Why the text of a number literal does not convert to an `i64`.
#[derive(Debug, Clone, Copy, PartialEq, Eq, Structural)]
pub enum IntErrorKind {
    /// The text is empty.
    Empty,
    /// The text holds a character that is not a decimal digit.
    InvalidDigit,
    /// The value is larger than `i64::MAX`.
    PosOverflow,
}

/// A parse error. The first error met ends the parse. Its text is of type
/// `S`, like that of tokens.
#[derive(Debug, Clone, PartialEq, Eq)]
pub enum ParseError<S> {
    /// A free-form message.
    Custom(S),
    /// The input ended where a token was required.
    UnexpectedEof,
    /// A statement lacked its terminating `;`.
    NoSemicolon,
    /// The token cannot begin a prefix expression.
    BadPrefixOperator { op: S },
    /// The token cannot stand as a postfix operator.
    BadPostfixOperator { op: S },
    /// The text of a number literal does not convert to an integer.
    IntLit { text: S, cause: IntErrorKind },
    /// The text of a boolean literal does not convert to a boolean.
    BoolLit { text: S },
    /// A specific token was required; another came.
    Expected { token: S, got: S },
}

/// A parse error as contracts see it.
pub type ParseErrorView = ParseError<Seq<char>>;

impl<'a> View for ParseError<&'a str> {
    type V = ParseErrorView;

    open spec fn view(&self) -> ParseErrorView {
        match *self {
            ParseError::Custom(m) => ParseError::Custom(m@),
            ParseError::UnexpectedEof => ParseError::UnexpectedEof,
            ParseError::NoSemicolon => ParseError::NoSemicolon,
            ParseError::BadPrefixOperator { op } => ParseError::BadPrefixOperator { op: op@ },
            ParseError::BadPostfixOperator { op } => ParseError::BadPostfixOperator { op: op@ },
            ParseError::IntLit { text, cause } => ParseError::IntLit { text: text@, cause },
            ParseError::BoolLit { text } => ParseError::BoolLit { text: text@ },
            ParseError::Expected { token, got } => ParseError::Expected {
                token: token@,
                got: got@,
            },
        }
    }
}

/// The value of decimal digit `c`.
pub open spec fn digit_value(c: char) -> int {
    (c as int) - ('0' as int)
}

/// Reads the characters of `s` from the left as decimal digits: the first
/// character that is no digit, or the first digit that takes the value past
/// `i64::MAX`, is the error.
pub open spec fn scan_decimal(s: Seq<char>) -> Result<int, IntErrorKind>
    decreases s.len(),
{
    if s.len() == 0 {
        Ok(0)
    } else {
        match scan_decimal(s.drop_last()) {
            Err(e) => Err(e),
            Ok(v) => if !('0' <= s.last() && s.last() <= '9') {
                Err(IntErrorKind::InvalidDigit)
            } else if 10 * v + digit_value(s.last()) > i64::MAX {
                Err(IntErrorKind::PosOverflow)
            } else {
                Ok(10 * v + digit_value(s.last()))
            },
        }
    }
}

/// The integer that the text of a number literal stands for.
pub open spec fn int_literal(s: Seq<char>) -> Result<int, IntErrorKind> {
    if s.len() == 0 {
        Err(IntErrorKind::Empty)
    } else {
        scan_decimal(s)
    }
}

/// The boolean that the text of a boolean literal stands for.
pub open spec fn bool_literal(s: Seq<char>) -> Option<bool> {
    if s == seq!['t', 'r', 'u', 'e'] {
        Some(true)
    } else if s == seq!['f', 'a', 'l', 's', 'e'] {
        Some(false)
    } else {
        None
    }
}

/// Converts the text of a number literal, a run of decimal digits, to an
/// integer.
pub fn parse_int_literal(text: &str) -> (r: Result<i64, IntErrorKind>)
    ensures
        match int_literal(text@) {
            Ok(v) => r == Ok::<i64, IntErrorKind>(v as i64),
            Err(e) => r == Err::<i64, IntErrorKind>(e),
        },
{
    let mut value: i64 = 0;
    let mut empty = true;
    for c in it: text.chars()
        invariant
            it.seq() == text@,
            empty == (it.index() == 0),
            scan_decimal(text@.take(it.index())) == Ok::<int, IntErrorKind>(value as int),
            0 <= value,
    {
        proof {
            assert(text@.take(it.index() + 1).drop_last() =~= text@.take(it.index()));
            assert(text@.take(it.index() + 1).last() == c);
        }
        if !('0' <= c && c <= '9') {
            proof {
                lemma_scan_prefix_error(text@, it.index() + 1);
            }
            return Err(IntErrorKind::InvalidDigit);
        }
        let d = (c as u32 - '0' as u32) as i64;
        if value > (i64::MAX - d) / 10 {
            proof {
                assert(10 * value + d > i64::MAX) by (nonlinear_arith)
                    requires
                        value > (i64::MAX - d) / 10,
                        0 <= d <= 9,
                ;
                lemma_scan_prefix_error(text@, it.index() + 1);
            }
            return Err(IntErrorKind::PosOverflow);
        }
        proof {
            assert(10 * value + d <= i64::MAX) by (nonlinear_arith)
                requires
                    value <= (i64::MAX - d) / 10,
                    0 <= d <= 9,
            ;
        }
        value = value * 10 + d;
        empty = false;
    }
    proof {
        assert(text@.take(text@.len() as int) =~= text@);
    }
    if empty {
        return Err(IntErrorKind::Empty);
    }
    Ok(value)
}

/// Once a prefix of the text fails to convert, the whole text fails the
/// same way.
proof fn lemma_scan_prefix_error(s: Seq<char>, k: int)
    requires
        0 <= k <= s.len(),
        scan_decimal(s.take(k)) is Err,
    ensures
        scan_decimal(s) == scan_decimal(s.take(k)),
    decreases s.len() - k,
{
    if k < s.len() {
        assert(s.take(k + 1).drop_last() =~= s.take(k));
        lemma_scan_prefix_error(s, k + 1);
    } else {
        assert(s.take(k) =~= s);
    }
}

/// Converts the text of a boolean literal to a boolean.
pub fn parse_bool_literal(text: &str) -> (r: Option<bool>)
    ensures
        r == bool_literal(text@),
{
    proof {
        reveal_strlit("true");
        reveal_strlit("false");
        assert("true"@ =~= seq!['t', 'r', 'u', 'e']);
        assert("false"@ =~= seq!['f', 'a', 'l', 's', 'e']);
    }
    let s = String::from_str(text);
    if s == String::from_str("true") {
        Some(true)
    } else if s == String::from_str("false") {
        Some(false)
    } else {
        None
    }
}

} // verus!
