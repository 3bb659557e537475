//! String unquoting: decode the backslash escapes of a JSON string value
//! into literal text, with the reference database's lenient semantics.

use crate::render::render;
use crate::value::{push_char, Json, JsonView};
use vstd::prelude::*;
use vstd::string::StrSliceExecFns;
use vstd::utf8::is_scalar;

verus! {

broadcast use vstd::seq::group_seq_axioms, Seq::add_empty_left, Seq::add_empty_right,
    vstd::utf8::char_is_scalar, vstd::utf8::char_u32_cast;

/// The two ways unquoting can fail; everything else is accepted.
#[derive(Debug, Clone, Copy, PartialEq, Eq, Structural)]
pub enum JsonError {
    /// A trailing, unterminated backslash.
    IncompleteEscape,
    /// A `u` escape with fewer than four following characters, a
    /// non-hexadecimal digit among them, or a code point that is not a
    /// Unicode scalar value.
    InvalidUnicode,
}

/// Whether `c` is a hexadecimal digit, either case.
pub open spec fn is_hex_digit(c: char) -> bool {
    let u = c as u32;
    (('0' as u32) <= u && u <= ('9' as u32)) || (('a' as u32) <= u && u <= ('f' as u32)) || ((
    'A' as u32) <= u && u <= ('F' as u32))
}

/// The numeric value of a hexadecimal digit.
pub open spec fn hex_digit_val(c: char) -> int {
    let u = c as u32;
    if ('0' as u32) <= u && u <= ('9' as u32) {
        u - ('0' as u32)
    } else if ('a' as u32) <= u && u <= ('f' as u32) {
        u - ('a' as u32) + 10
    } else {
        u - ('A' as u32) + 10
    }
}

/// The value of four hexadecimal digits, most significant first.
pub open spec fn hex4_val(s: Seq<char>) -> int {
    ((hex_digit_val(s[0]) * 16 + hex_digit_val(s[1])) * 16 + hex_digit_val(s[2])) * 16
        + hex_digit_val(s[3])
}

/// What four characters after a `u` escape decode to: the character with
/// that code, when all four are hexadecimal digits and the code is a
/// Unicode scalar value; `InvalidUnicode` otherwise.
pub open spec fn decode_unicode_view(s: Seq<char>) -> Result<char, JsonError> {
    if s.len() == 4 && is_hex_digit(s[0]) && is_hex_digit(s[1]) && is_hex_digit(s[2])
        && is_hex_digit(s[3]) {
        if is_scalar(hex4_val(s) as u32) {
            Ok((hex4_val(s) as u32) as char)
        } else {
            Err(JsonError::InvalidUnicode)
        }
    } else {
        Err(JsonError::InvalidUnicode)
    }
}

/// The character an escaped letter stands for. The named escapes map to
/// their control characters; any other letter stands for itself, the
/// backslash silently dropped.
pub open spec fn escaped_char(c: char) -> char {
    if c == 'b' {
        '\u{0008}'
    } else if c == 't' {
        '\u{0009}'
    } else if c == 'n' {
        '\u{000A}'
    } else if c == 'f' {
        '\u{000C}'
    } else if c == 'r' {
        '\u{000D}'
    } else {
        c
    }
}

/// Prefix one decoded character onto the rest of a decoding, keeping a
/// failure as it is.
pub open spec fn prepend_decoded(c: char, r: Result<Seq<char>, JsonError>) -> Result<
    Seq<char>,
    JsonError,
> {
    match r {
        Ok(t) => Ok(seq![c] + t),
        Err(e) => Err(e),
    }
}

/// Prefix already-decoded text onto the rest of a decoding, keeping a
/// failure as it is.
pub open spec fn prepend_text(p: Seq<char>, r: Result<Seq<char>, JsonError>) -> Result<
    Seq<char>,
    JsonError,
> {
    match r {
        Ok(t) => Ok(p + t),
        Err(e) => Err(e),
    }
}

/// The decoded form of escaped string content, scanned left to right.
///
/// A character other than a backslash is copied verbatim. A backslash
/// must be followed by at least one character; `u` escapes read four more
/// characters as a hexadecimal scalar value; every other escape decodes
/// through `escaped_char`.
pub open spec fn unquote_view(s: Seq<char>) -> Result<Seq<char>, JsonError>
    decreases s.len(),
{
    if s.len() == 0 {
        Ok(Seq::empty())
    } else if s[0] != '\\' {
        prepend_decoded(s[0], unquote_view(s.skip(1)))
    } else if s.len() == 1 {
        Err(JsonError::IncompleteEscape)
    } else if s[1] == 'u' {
        if s.len() < 6 {
            Err(JsonError::InvalidUnicode)
        } else {
            match decode_unicode_view(s.subrange(2, 6)) {
                Ok(c) => prepend_decoded(c, unquote_view(s.skip(6))),
                Err(e) => Err(e),
            }
        }
    } else {
        prepend_decoded(escaped_char(s[1]), unquote_view(s.skip(2)))
    }
}

/// Relies on char::from_u32: `Some` exactly when the value is a Unicode
/// scalar value (below the surrogate range, or between it and 0x10FFFF),
/// and then the returned character carries that value.
#[verifier::external_body]
fn char_from_u32(u: u32) -> (r: Option<char>)
    ensures
        r is Some <==> is_scalar(u),
        r matches Some(c) ==> c as u32 == u,
{
    char::from_u32(u)
}

/// The numeric value of a hexadecimal digit, or `None` for any other
/// character.
fn hex_val(c: char) -> (r: Option<u32>)
    ensures
        r is Some <==> is_hex_digit(c),
        r matches Some(v) ==> v == hex_digit_val(c),
{
    let u = c as u32;
    if 48 <= u && u <= 57 {
        Some(u - 48)
    } else if 97 <= u && u <= 102 {
        Some(u - 87)
    } else if 65 <= u && u <= 70 {
        Some(u - 55)
    } else {
        None
    }
}

/// Decodes the four characters of a `u` escape into the character they
/// name, or `InvalidUnicode` if they are not hexadecimal digits naming a
/// Unicode scalar value.
pub fn decode_escaped_unicode(s: &str) -> (r: Result<char, JsonError>)
    requires
        s@.len() == 4,
    ensures
        r == decode_unicode_view(s@),
{
    let c0 = s.get_char(0);
    let c1 = s.get_char(1);
    let c2 = s.get_char(2);
    let c3 = s.get_char(3);
    let v0 = match hex_val(c0) {
        Some(v) => v,
        None => {
            return Err(JsonError::InvalidUnicode);
        },
    };
    let v1 = match hex_val(c1) {
        Some(v) => v,
        None => {
            return Err(JsonError::InvalidUnicode);
        },
    };
    let v2 = match hex_val(c2) {
        Some(v) => v,
        None => {
            return Err(JsonError::InvalidUnicode);
        },
    };
    let v3 = match hex_val(c3) {
        Some(v) => v,
        None => {
            return Err(JsonError::InvalidUnicode);
        },
    };
    let u: u32 = ((v0 * 16 + v1) * 16 + v2) * 16 + v3;
    proof {
        assert(u == hex4_val(s@));
    }
    match char_from_u32(u) {
        Some(c) => {
            proof {
                vstd::utf8::char_u32_cast(c, u);
                assert(c == ((hex4_val(s@) as u32) as char));
            }
            Ok(c)
        },
        None => Err(JsonError::InvalidUnicode),
    }
}

/// The character an escaped letter stands for, as executable code.
fn escape_replacement(c: char) -> (r: char)
    ensures
        r == escaped_char(c),
{
    match c {
        'b' => '\u{0008}',
        't' => '\u{0009}',
        'n' => '\u{000A}',
        'f' => '\u{000C}',
        'r' => '\u{000D}',
        _ => c,
    }
}

/// Decodes escaped string content left to right, as `unquote_view` says:
/// the decoded text, or the first failure with no partial output.
#[verifier::loop_isolation(false)]
#[verifier::rlimit(60)]
pub fn unquote_string(s: &str) -> (r: Result<String, JsonError>)
    ensures
        r matches Ok(t) ==> unquote_view(s@) == Ok::<Seq<char>, JsonError>(t@),
        r matches Err(e) ==> unquote_view(s@) == Err::<Seq<char>, JsonError>(e),
{
    let n = s.unicode_len();
    let mut ret = String::new();
    let mut i: usize = 0;
    proof {
        assert(s@.skip(0) =~= s@);
    }
    while i < n
        invariant
            i <= n,
            n == s@.len(),
            unquote_view(s@) == prepend_text(ret@, unquote_view(s@.skip(i as int))),
        decreases n - i,
    {
        let ghost prefix = ret@;
        let ghost tail = s@.skip(i as int);
        let ch = s.get_char(i);
        if ch != '\\' {
            push_char(&mut ret, ch);
            proof {
                assert(tail[0] == ch);
                assert(tail.skip(1) =~= s@.skip(i as int + 1));
                match unquote_view(s@.skip(i as int + 1)) {
                    Ok(t) => {
                        assert(prefix + (seq![ch] + t) =~= prefix.push(ch) + t);
                    },
                    Err(_) => {},
                }
            }
            i = i + 1;
        } else {
            if i + 1 == n {
                proof {
                    assert(tail.len() == 1);
                    assert(unquote_view(tail) == Err::<Seq<char>, JsonError>(
                        JsonError::IncompleteEscape,
                    ));
                }
                return Err(JsonError::IncompleteEscape);
            }
            let c = s.get_char(i + 1);
            proof {
                assert(tail[1] == c);
            }
            if c == 'u' {
                if n - i < 6 {
                    proof {
                        assert(tail.len() < 6);
                    }
                    return Err(JsonError::InvalidUnicode);
                }
                let hex = s.substring_char(i + 2, i + 6);
                proof {
                    assert(hex@ =~= tail.subrange(2, 6));
                }
                match decode_escaped_unicode(hex) {
                    Ok(c2) => {
                        push_char(&mut ret, c2);
                        proof {
                            assert(tail.skip(6) =~= s@.skip(i as int + 6));
                            match unquote_view(s@.skip(i as int + 6)) {
                                Ok(t) => {
                                    assert(prefix + (seq![c2] + t) =~= prefix.push(c2) + t);
                                },
                                Err(_) => {},
                            }
                        }
                        i = i + 6;
                    },
                    Err(e) => {
                        return Err(e);
                    },
                }
            } else {
                let rep = escape_replacement(c);
                push_char(&mut ret, rep);
                proof {
                    assert(tail.skip(2) =~= s@.skip(i as int + 2));
                    match unquote_view(s@.skip(i as int + 2)) {
                        Ok(t) => {
                            assert(prefix + (seq![rep] + t) =~= prefix.push(rep) + t);
                        },
                        Err(_) => {},
                    }
                }
                i = i + 2;
            }
        }
    }
    proof {
        assert(s@.skip(n as int) =~= Seq::<char>::empty());
    }
    Ok(ret)
}

impl Json {
    /// Unquotes this value: a string has its escapes decoded as
    /// `unquote_view` says; any other value passes through as its
    /// canonical rendering, and never fails.
    pub fn unquote(&self) -> (r: Result<String, JsonError>)
        ensures
            self@ matches JsonView::Str(sv) ==> (r matches Ok(t) ==> unquote_view(sv)
                == Ok::<Seq<char>, JsonError>(t@)),
            self@ matches JsonView::Str(sv) ==> (r matches Err(e) ==> unquote_view(sv)
                == Err::<Seq<char>, JsonError>(e)),
            !(self@ is Str) ==> (r matches Ok(t) && t@ == render(self@)),
    {
        match self {
            Json::Str(s) => unquote_string(s.as_str()),
            _ => Ok(self.to_string()),
        }
    }
}

} // verus!
