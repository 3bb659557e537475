//! The canonical textual rendering of a JSON value, used when a non-string
//! value is unquoted: `null`, `true`/`false`, decimal integers, the stored
//! decimal text of a floating-point value, quoted strings with their
//! special characters escaped, and bracketed arrays and objects with
//! `, `-separated items.

use crate::extract::{child_at, child_count};
use crate::value::{json_view, push_char, Json, JsonView};
use vstd::prelude::*;
use vstd::string::StringExecFns;

verus! {

broadcast use vstd::std_specs::vec::group_vec_axioms, vstd::seq::group_seq_axioms,
    Seq::add_empty_left, Seq::add_empty_right;

/// The character of one decimal digit.
pub open spec fn digit_char(d: int) -> char {
    ((48 + d) as u8) as char
}

/// The decimal digits of a natural number, most significant first.
pub open spec fn dec_digits(n: nat) -> Seq<char>
    decreases n,
{
    if n < 10 {
        seq![digit_char(n as int)]
    } else {
        dec_digits(n / 10).push(digit_char((n % 10) as int))
    }
}

/// The decimal rendering of an integer: a minus sign for negative values,
/// then the digits of its magnitude.
pub open spec fn render_int(n: int) -> Seq<char> {
    if n < 0 {
        seq!['-'] + dec_digits((-n) as nat)
    } else {
        dec_digits(n as nat)
    }
}

/// The rendering of one character inside a quoted string: quotes and
/// backslashes are escaped, the named control characters take their
/// letter escapes, anything else stands as it is.
pub open spec fn escaped_out(c: char) -> Seq<char> {
    if c == '"' {
        seq!['\\', '"']
    } else if c == '\\' {
        seq!['\\', '\\']
    } else if c == '\u{0008}' {
        seq!['\\', 'b']
    } else if c == '\u{0009}' {
        seq!['\\', 't']
    } else if c == '\u{000A}' {
        seq!['\\', 'n']
    } else if c == '\u{000C}' {
        seq!['\\', 'f']
    } else if c == '\u{000D}' {
        seq!['\\', 'r']
    } else {
        seq![c]
    }
}

/// The rendering of string content, character by character.
pub open spec fn escape_text(s: Seq<char>) -> Seq<char>
    decreases s.len(),
{
    if s.len() == 0 {
        Seq::empty()
    } else {
        escaped_out(s[0]) + escape_text(s.skip(1))
    }
}

/// The canonical rendering of a JSON value.
pub open spec fn render(v: JsonView) -> Seq<char>
    decreases v, child_count(v) + 3,
{
    match v {
        JsonView::Null => seq!['n', 'u', 'l', 'l'],
        JsonView::Bool(b) => if b {
            seq!['t', 'r', 'u', 'e']
        } else {
            seq!['f', 'a', 'l', 's', 'e']
        },
        JsonView::Int(n) => render_int(n as int),
        JsonView::Double(t) => t,
        JsonView::Str(s) => seq!['"'] + escape_text(s) + seq!['"'],
        JsonView::Array(es) => seq!['['] + render_tail(v, 0) + seq![']'],
        JsonView::Object(es) => seq!['{'] + render_tail(v, 0) + seq!['}'],
    }
}

/// The rendering of one child: the element itself for arrays, the quoted
/// key, a colon and the value for objects.
pub open spec fn render_item(v: JsonView, i: int) -> Seq<char>
    decreases v, 0nat,
{
    match v {
        JsonView::Array(es) => if 0 <= i < es.len() {
            render(es[i])
        } else {
            Seq::empty()
        },
        JsonView::Object(es) => if 0 <= i < es.len() {
            seq!['"'] + escape_text(es[i].0) + seq!['"', ':', ' '] + render(es[i].1)
        } else {
            Seq::empty()
        },
        _ => Seq::empty(),
    }
}

/// The renderings of the children from position `from` on, separated by
/// `, `, each one but the first preceded by the separator.
pub open spec fn render_tail(v: JsonView, from: int) -> Seq<char>
    decreases v, child_count(v) - from + 1,
{
    if from < 0 || from >= child_count(v) {
        Seq::empty()
    } else {
        (if from == 0 {
            render_item(v, from)
        } else {
            seq![',', ' '] + render_item(v, from)
        }) + render_tail(v, from + 1)
    }
}

/// One decimal digit as a character.
fn digit_to_char(d: u64) -> (r: char)
    requires
        d < 10,
    ensures
        r == digit_char(d as int),
{
    (48 + d as u8) as char
}

/// The decimal digits of a natural number, as text.
fn dec_u64_string(m: u64) -> (r: String)
    ensures
        r@ == dec_digits(m as nat),
    decreases m,
{
    if m < 10 {
        let mut s = String::new();
        push_char(&mut s, digit_to_char(m));
        proof {
            assert(s@ =~= seq![digit_char(m as int)]);
        }
        s
    } else {
        let mut s = dec_u64_string(m / 10);
        push_char(&mut s, digit_to_char(m % 10));
        s
    }
}

/// The decimal rendering of a signed integer, as text.
fn i64_dec_string(n: i64) -> (r: String)
    ensures
        r@ == render_int(n as int),
{
    if n >= 0 {
        dec_u64_string(n as u64)
    } else {
        let m: u64 = (-(n as i128)) as u64;
        let mut s = String::new();
        push_char(&mut s, '-');
        let digits = dec_u64_string(m);
        s.append(digits.as_str());
        proof {
            assert(s@ =~= seq!['-'] + dec_digits(m as nat));
        }
        s
    }
}

/// Appends the escaped form of one string character.
fn escape_push(out: &mut String, c: char)
    ensures
        final(out)@ == old(out)@ + escaped_out(c),
{
    let ghost p = out@;
    if c == '"' {
        push_char(out, '\\');
        push_char(out, '"');
        proof {
            assert(out@ =~= p + escaped_out(c));
        }
    } else if c == '\\' {
        push_char(out, '\\');
        push_char(out, '\\');
        proof {
            assert(out@ =~= p + escaped_out(c));
        }
    } else if c == '\u{0008}' {
        push_char(out, '\\');
        push_char(out, 'b');
        proof {
            assert(out@ =~= p + escaped_out(c));
        }
    } else if c == '\u{0009}' {
        push_char(out, '\\');
        push_char(out, 't');
        proof {
            assert(out@ =~= p + escaped_out(c));
        }
    } else if c == '\u{000A}' {
        push_char(out, '\\');
        push_char(out, 'n');
        proof {
            assert(out@ =~= p + escaped_out(c));
        }
    } else if c == '\u{000C}' {
        push_char(out, '\\');
        push_char(out, 'f');
        proof {
            assert(out@ =~= p + escaped_out(c));
        }
    } else if c == '\u{000D}' {
        push_char(out, '\\');
        push_char(out, 'r');
        proof {
            assert(out@ =~= p + escaped_out(c));
        }
    } else {
        push_char(out, c);
        proof {
            assert(out@ =~= p + escaped_out(c));
        }
    }
}

/// Appends the escaped form of string content.
#[verifier::loop_isolation(false)]
fn escape_string_into(out: &mut String, s: &str)
    ensures
        final(out)@ == old(out)@ + escape_text(s@),
{
    let n = s.unicode_len();
    let mut i: usize = 0;
    proof {
        assert(s@.skip(0) =~= s@);
    }
    while i < n
        invariant
            i <= n,
            n == s@.len(),
            old(out)@ + escape_text(s@) == out@ + escape_text(s@.skip(i as int)),
        decreases n - i,
    {
        let ghost p = out@;
        let ghost tail = s@.skip(i as int);
        let ch = s.get_char(i);
        escape_push(out, ch);
        proof {
            assert(tail[0] == ch);
            assert(tail.skip(1) =~= s@.skip(i as int + 1));
            assert(p + (escaped_out(ch) + escape_text(tail.skip(1))) =~= (p + escaped_out(ch))
                + escape_text(tail.skip(1)));
        }
        i = i + 1;
    }
    proof {
        assert(escape_text(s@.skip(n as int)) =~= Seq::<char>::empty());
    }
}

impl Json {
    /// The canonical textual rendering of this value, exactly `render`.
    #[verifier::loop_isolation(false)]
    pub fn to_string(&self) -> (r: String)
        ensures
            r@ == render(self@),
        decreases self,
    {
        match self {
            Json::Null => {
                let r = String::from_str("null");
                proof {
                    reveal_strlit("null");
                    assert(r@ =~= render(self@));
                }
                r
            },
            Json::Boolean(b) => {
                if *b {
                    let r = String::from_str("true");
                    proof {
                        reveal_strlit("true");
                        assert(r@ =~= render(self@));
                    }
                    r
                } else {
                    let r = String::from_str("false");
                    proof {
                        reveal_strlit("false");
                        assert(r@ =~= render(self@));
                    }
                    r
                }
            },
            Json::I64(n) => i64_dec_string(*n),
            Json::Double(t) => t.clone(),
            Json::Str(s) => {
                let mut out = String::new();
                push_char(&mut out, '"');
                escape_string_into(&mut out, s.as_str());
                push_char(&mut out, '"');
                proof {
                    assert(out@ =~= seq!['"'] + escape_text(s@) + seq!['"']);
                }
                out
            },
            Json::Array(elems) => {
                let ghost v = self@;
                let mut out = String::new();
                push_char(&mut out, '[');
                proof {
                    assert(out@ =~= seq!['[']);
                }
                let mut i: usize = 0;
                while i < elems.len()
                    invariant
                        i <= elems@.len(),
                        out@ + render_tail(v, i as int) == seq!['['] + render_tail(v, 0),
                    decreases elems@.len() - i,
                {
                    let ghost p = out@;
                    proof {
                        assert(decreases_to!(*self => *elems));
                        assert(decreases_to!(*elems => elems@));
                        assert(decreases_to!(elems@ => elems@[i as int]));
                    }
                    if i > 0 {
                        push_char(&mut out, ',');
                        push_char(&mut out, ' ');
                    }
                    let cs = elems[i].to_string();
                    out.append(cs.as_str());
                    proof {
                        assert(render_item(v, i as int) == render(json_view(elems@[i as int])));
                        if i > 0 {
                            assert(out@ =~= p + ((seq![',', ' '] + render_item(v, i as int))));
                        } else {
                            assert(out@ =~= p + render_item(v, i as int));
                        }
                    }
                    i = i + 1;
                }
                push_char(&mut out, ']');
                proof {
                    assert(render_tail(v, elems@.len() as int) =~= Seq::<char>::empty());
                    assert(out@ =~= (seq!['['] + render_tail(v, 0)) + seq![']']);
                    assert(render(v) == seq!['['] + render_tail(v, 0) + seq![']']);
                    assert(out@ =~= render(v));
                }
                out
            },
            Json::Object(entries) => {
                let ghost v = self@;
                let mut out = String::new();
                push_char(&mut out, '{');
                proof {
                    assert(out@ =~= seq!['{']);
                }
                let mut i: usize = 0;
                while i < entries.len()
                    invariant
                        i <= entries@.len(),
                        out@ + render_tail(v, i as int) == seq!['{'] + render_tail(v, 0),
                    decreases entries@.len() - i,
                {
                    let ghost p = out@;
                    proof {
                        assert(decreases_to!(*self => *entries));
                        assert(decreases_to!(*entries => entries@));
                        assert(decreases_to!(entries@ => entries@[i as int]));
                        assert(decreases_to!(entries@[i as int] => entries@[i as int].1));
                    }
                    if i > 0 {
                        push_char(&mut out, ',');
                        push_char(&mut out, ' ');
                    }
                    let ghost q = out@;
                    let entry = &entries[i];
                    push_char(&mut out, '"');
                    escape_string_into(&mut out, entry.0.as_str());
                    push_char(&mut out, '"');
                    push_char(&mut out, ':');
                    push_char(&mut out, ' ');
                    let cs = entry.1.to_string();
                    out.append(cs.as_str());
                    proof {
                        assert(render_item(v, i as int) == seq!['"'] + escape_text(
                            entries@[i as int].0@,
                        ) + seq!['"', ':', ' '] + render(json_view(entries@[i as int].1)));
                        assert(out@ =~= q + render_item(v, i as int));
                        if i > 0 {
                            assert(out@ =~= p + ((seq![',', ' '] + render_item(v, i as int))));
                        } else {
                            assert(out@ =~= p + render_item(v, i as int));
                        }
                    }
                    i = i + 1;
                }
                push_char(&mut out, '}');
                proof {
                    assert(render_tail(v, entries@.len() as int) =~= Seq::<char>::empty());
                    assert(out@ =~= (seq!['{'] + render_tail(v, 0)) + seq!['}']);
                    assert(render(v) == seq!['{'] + render_tail(v, 0) + seq!['}']);
                    assert(out@ =~= render(v));
                }
                out
            },
        }
    }
}

} // verus!
