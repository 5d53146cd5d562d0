//! String handling: the escape syntax of string literals, and the UTF-8
//! bytes that carry every piece of text through the module format.

use vstd::prelude::*;

verus! {

/// The UTF-8 encoding of a character sequence.
pub uninterp spec fn utf8_bytes_of(s: Seq<char>) -> Seq<u8>;

/// Whether a byte sequence is valid UTF-8.
pub uninterp spec fn utf8_ok(b: Seq<u8>) -> bool;

/// Relies on `str::as_bytes`: a string's bytes are its UTF-8 encoding,
/// which is valid by construction.
#[verifier::external_body]
pub(crate) fn str_to_bytes(s: &str) -> (r: Vec<u8>)
    ensures
        r@ == utf8_bytes_of(s@),
        utf8_ok(r@),
{
    s.as_bytes().to_vec()
}

/// Relies on `core::str::from_utf8`: whether the bytes are valid UTF-8.
#[verifier::external_body]
pub(crate) fn utf8_check(b: &Vec<u8>) -> (r: bool)
    ensures
        r == utf8_ok(b@),
{
    core::str::from_utf8(b).is_ok()
}

/// The ways a string literal can be malformed.
#[derive(Clone, Copy, Debug, PartialEq, Eq, Structural)]
pub enum ParseStringError {
    /// The literal does not start with a double quote.
    MissingOpenQuote,
    /// The literal ends in the middle of an escape sequence.
    UnfinishedEscapeSequence,
    /// A backslash is followed by a byte that names no escape; carries that
    /// byte.
    IllegalEscapeSequence(u8),
    /// The literal has no closing double quote.
    MissingClosedQuote,
    /// Content follows the closing double quote.
    TrailingContent,
}

/// Byte values of the characters that the escape syntax speaks of.
pub open spec fn quote_byte() -> u8 {
    34
}

pub open spec fn backslash_byte() -> u8 {
    92
}

/// The unescaped content of the literal from position `i` on, after the
/// opening quote, or the first error raised.
pub open spec fn spec_unescape_from(b: Seq<u8>, i: int) -> Result<Seq<u8>, ParseStringError>
    decreases b.len() - i,
{
    if i < 0 || i >= b.len() {
        Err(ParseStringError::MissingClosedQuote)
    } else if b[i] == backslash_byte() {
        if i + 1 >= b.len() {
            Err(ParseStringError::UnfinishedEscapeSequence)
        } else {
            let e = b[i + 1];
            match spec_escape_byte(e) {
                Option::Some(x) => match spec_unescape_from(b, i + 2) {
                    Ok(rest) => Ok(seq![x] + rest),
                    Err(err) => Err(err),
                },
                Option::None => Err(ParseStringError::IllegalEscapeSequence(e)),
            }
        }
    } else if b[i] == quote_byte() {
        if i + 1 == b.len() {
            Ok(Seq::empty())
        } else {
            Err(ParseStringError::TrailingContent)
        }
    } else {
        match spec_unescape_from(b, i + 1) {
            Ok(rest) => Ok(seq![b[i]] + rest),
            Err(err) => Err(err),
        }
    }
}

/// What a backslash escape denotes: the backslash and quote stand for
/// themselves, `n`, `r` and `t` for the usual control characters; anything
/// else is illegal.
pub open spec fn spec_escape_byte(e: u8) -> Option<u8> {
    if e == backslash_byte() || e == quote_byte() {
        Option::Some(e)
    } else if e == 110 {  // 'n'
        Option::Some(10)
    } else if e == 114 {  // 'r'
        Option::Some(13)
    } else if e == 116 {  // 't'
        Option::Some(9)
    } else {
        Option::None
    }
}

/// The string denoted by a quoted literal: the content between the quotes
/// with escapes resolved, or the first error.
pub open spec fn spec_unescape(b: Seq<u8>) -> Result<Seq<u8>, ParseStringError> {
    if b.len() == 0 || b[0] != quote_byte() {
        Err(ParseStringError::MissingOpenQuote)
    } else {
        spec_unescape_from(b, 1)
    }
}

/// Resolve a quoted string literal to the string it denotes: the bytes
/// between the quotes with `\\`, `\"`, `\n`, `\r` and `\t` replaced; any
/// other escape, a missing or unmatched quote, or trailing content is an
/// error.
pub fn string_from_literal(literal: &Vec<u8>) -> (r: Result<Vec<u8>, ParseStringError>)
    ensures
        match r {
            Ok(v) => spec_unescape(literal@) == Ok::<Seq<u8>, ParseStringError>(v@),
            Err(e) => spec_unescape(literal@) == Err::<Seq<u8>, ParseStringError>(e),
        },
{
    let n = literal.len();
    if n == 0 || literal[0] != 34 {
        return Err(ParseStringError::MissingOpenQuote);
    }
    let mut out: Vec<u8> = Vec::new();
    let mut i: usize = 1;
    loop
        invariant
            1 <= i <= n,
            n == literal@.len(),
            literal@[0] == quote_byte(),
            match spec_unescape_from(literal@, i as int) {
                Ok(rest) => spec_unescape_from(literal@, 1) == Ok::<Seq<u8>, ParseStringError>(
                    out@ + rest,
                ),
                Err(e) => spec_unescape_from(literal@, 1) == Err::<Seq<u8>, ParseStringError>(e),
            },
        decreases n - i,
    {
        if i >= n {
            return Err(ParseStringError::MissingClosedQuote);
        }
        let c = literal[i];
        if c == 92 {
            if i + 1 >= n {
                return Err(ParseStringError::UnfinishedEscapeSequence);
            }
            let e = literal[i + 1];
            let x: u8 = if e == 92 || e == 34 {
                e
            } else if e == 110 {
                10
            } else if e == 114 {
                13
            } else if e == 116 {
                9
            } else {
                return Err(ParseStringError::IllegalEscapeSequence(e));
            };
            proof {
                assert(spec_escape_byte(literal@[i + 1]) == Option::Some(x));
            }
            let ghost prev = out@;
            out.push(x);
            i = i + 2;
            proof {
                match spec_unescape_from(literal@, i as int) {
                    Ok(rest) => {
                        assert(prev + (seq![x] + rest) =~= out@ + rest);
                    },
                    Err(_) => {},
                }
            }
        } else if c == 34 {
            if i + 1 != n {
                return Err(ParseStringError::TrailingContent);
            }
            proof {
                assert(out@ + Seq::<u8>::empty() =~= out@);
            }
            return Ok(out);
        } else {
            let ghost prev = out@;
            out.push(c);
            i = i + 1;
            proof {
                match spec_unescape_from(literal@, i as int) {
                    Ok(rest) => {
                        assert(prev + (seq![c] + rest) =~= out@ + rest);
                    },
                    Err(_) => {},
                }
            }
        }
    }
}

} // verus!
