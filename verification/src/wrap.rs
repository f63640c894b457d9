//! Display-line counting, delegated to the `textwrap` crate.

use vstd::prelude::*;

verus! {

/// Number of display lines that word-wrapping `text` to `width` columns
/// produces (long words kept whole).
pub uninterp spec fn wrapped_count(text: Seq<char>, width: int) -> nat;

/// Relies on `textwrap::wrap` (with `break_words(false)`): the number of
/// wrapped lines is a function of the text and the width alone.
#[verifier::external_body]
pub fn wrap_line_count(text: &str, width: usize) -> (n: usize)
    ensures
        n as nat == wrapped_count(text@, width as int),
{
    let opts = textwrap::Options::new(width).break_words(false);
    textwrap::wrap(text, opts).len()
}

} // verus!
