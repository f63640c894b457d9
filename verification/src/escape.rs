//! Decoding of literal `\u{HEX}` escape sequences in typed messages.
//!
//! Decoding is best-effort, left to right: a well-formed escape naming a
//! Unicode scalar value becomes that character; an unterminated or invalid
//! sequence is left unmodified.

use vstd::prelude::*;
use vstd::utf8::is_scalar;
use crate::text::idx_of_first;
use crate::text::lemma_idx_of_first_exact;
use crate::text::lemma_idx_of_first_none;
use crate::text::find_char_from;
use crate::text::all_hex;
use crate::text::hex_val;
use crate::text::parse_hex_u32;

verus! {

/// Relies on char::from_u32: `Some` of the character exactly for Unicode
/// scalar values, `None` otherwise.
#[verifier::external_body]
pub fn char_from_u32(v: u32) -> (r: Option<char>)
    ensures
        is_scalar(v) ==> r == Option::Some(v as char),
        !is_scalar(v) ==> r is None,
{
    char::from_u32(v)
}

/// Relies on String::push: appends exactly one character.
#[verifier::external_body]
pub fn push_char(s: &mut String, c: char)
    ensures
        final(s)@ == old(s)@ + seq![c],
{
    s.push(c);
}

/// The text begins with the three characters `\u{`.
pub open spec fn esc_head(s: Seq<char>) -> bool {
    s.len() >= 3 && s[0] == '\\' && s[1] == 'u' && s[2] == '{'
}

/// Index of the first `}` at or past the hex digits, if any.
pub open spec fn close_idx(s: Seq<char>) -> Option<int> {
    match idx_of_first(s.skip(3), '}') {
        Option::Some(i) => Option::Some(i + 3),
        Option::None => Option::None,
    }
}

/// The digits name a Unicode scalar value.
pub open spec fn valid_escape_val(hx: Seq<char>) -> bool {
    hx.len() > 0 && all_hex(hx) && hex_val(hx) <= u32::MAX && is_scalar(hex_val(hx) as u32)
}

/// The decoded form of `s`: each well-formed `\u{HEX}` escape becomes its
/// character; an invalid escape stays as written; everything after an
/// unterminated escape opening stays as written.
pub open spec fn decode_spec(s: Seq<char>) -> Seq<char>
    decreases s.len(),
{
    if s.len() == 0 {
        s
    } else if esc_head(s) {
        match close_idx(s) {
            Option::Some(j) => {
                if 3 <= j < s.len() {
                    let hx = s.subrange(3, j);
                    if valid_escape_val(hx) {
                        seq![(hex_val(hx) as u32) as char] + decode_spec(s.skip(j + 1))
                    } else {
                        seq![s[0]] + decode_spec(s.drop_first())
                    }
                } else {
                    seq![s[0]] + decode_spec(s.drop_first())
                }
            },
            Option::None => s,
        }
    } else {
        seq![s[0]] + decode_spec(s.drop_first())
    }
}

/// Decodes every well-formed `\u{HEX}` escape in `s`, as `decode_spec`
/// describes.
pub fn decode_escapes(s: &str) -> (r: String)
    ensures
        r@ == decode_spec(s@),
    decreases s@.len(), 1nat,
{
    let len = s.unicode_len();
    if len == 0 {
        let e = String::new();
        proof {
            assert(e@ =~= s@);
        }
        return e;
    }
    let c0 = s.get_char(0);
    let is_esc = len >= 3 && c0 == '\\' && s.get_char(1) == 'u' && s.get_char(2) == '{';
    if is_esc {
        match find_char_from(s, '}', 3) {
            Option::Some(j) => {
                proof {
                    assert forall|k: int| 0 <= k < s@.skip(3).len() implies s@.skip(3)[k] == s@[k
                        + 3] by {}
                    lemma_idx_of_first_exact(s@.skip(3), '}', j - 3);
                    assert(close_idx(s@) == Option::Some(j as int));
                }
                let hx = s.substring_char(3, j);
                let decoded: Option<char> = match parse_hex_u32(hx) {
                    Option::Some(v) => char_from_u32(v),
                    Option::None => Option::None,
                };
                match decoded {
                    Option::Some(c) => {
                        let mut out = String::new();
                        push_char(&mut out, c);
                        let rest = s.substring_char(j + 1, len);
                        proof {
                            assert(rest@ =~= s@.skip(j + 1));
                        }
                        let tail = decode_escapes(rest);
                        out.append(tail.as_str());
                        proof {
                            assert(out@ =~= seq![(hex_val(s@.subrange(3, j as int)) as u32) as char]
                                + decode_spec(s@.skip(j + 1)));
                        }
                        out
                    },
                    Option::None => {
                        proof {
                            assert(!valid_escape_val(s@.subrange(3, j as int)));
                        }
                        one_then_rest(s, len)
                    },
                }
            },
            Option::None => {
                proof {
                    assert forall|k: int| 0 <= k < s@.skip(3).len() implies s@.skip(3)[k] == s@[k
                        + 3] by {}
                    lemma_idx_of_first_none(s@.skip(3), '}');
                }
                s.to_owned()
            },
        }
    } else {
        one_then_rest(s, len)
    }
}

/// Copies the first character unchanged and decodes the remainder.
fn one_then_rest(s: &str, len: usize) -> (r: String)
    requires
        len == s@.len(),
        len > 0,
    ensures
        r@ == seq![s@[0]] + decode_spec(s@.drop_first()),
    decreases s@.len(), 0nat,
{
    let c0 = s.get_char(0);
    let mut out = String::new();
    push_char(&mut out, c0);
    let rest = s.substring_char(1, len);
    proof {
        assert(rest@ =~= s@.drop_first());
    }
    let tail = decode_escapes(rest);
    out.append(tail.as_str());
    proof {
        assert(out@ =~= seq![s@[0]] + decode_spec(s@.drop_first()));
    }
    out
}

} // verus!
