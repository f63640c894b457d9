//! Verified text utilities: whitespace tokenization, character search,
//! substring search, case-folded matching and lexicographic order.
//!
//! Protocol lines are split on ASCII whitespace; all indices are character
//! indices, never byte offsets, so slicing is always at character boundaries.

use vstd::prelude::*;

verus! {

broadcast use vstd::utf8::char_is_scalar, vstd::utf8::char_u32_cast;

/// ASCII whitespace, the token separator of the wire protocol.
pub open spec fn is_ws(c: char) -> bool {
    c == ' ' || c == '\t' || c == '\r' || c == '\n' || c == '\u{b}' || c == '\u{c}'
}

/// Executable test matching `is_ws`.
pub fn ws_char(c: char) -> (r: bool)
    ensures
        r == is_ws(c),
{
    c == ' ' || c == '\t' || c == '\r' || c == '\n' || c == '\u{b}' || c == '\u{c}'
}

/// First index at or after `from` holding a non-whitespace character
/// (or the length of `s` if there is none).
pub open spec fn skip_ws_spec(s: Seq<char>, from: int) -> int
    decreases s.len() - from,
{
    if from < 0 || from >= s.len() {
        s.len() as int
    } else if is_ws(s[from]) {
        skip_ws_spec(s, from + 1)
    } else {
        from
    }
}

/// First index at or after `from` holding a whitespace character
/// (or the length of `s` if there is none).
pub open spec fn token_end_spec(s: Seq<char>, from: int) -> int
    decreases s.len() - from,
{
    if from < 0 || from >= s.len() {
        s.len() as int
    } else if is_ws(s[from]) {
        from
    } else {
        token_end_spec(s, from + 1)
    }
}

pub proof fn lemma_skip_ws_bounds(s: Seq<char>, from: int)
    requires
        0 <= from <= s.len(),
    ensures
        from <= skip_ws_spec(s, from) <= s.len(),
        skip_ws_spec(s, from) < s.len() ==> !is_ws(s[skip_ws_spec(s, from)]),
    decreases s.len() - from,
{
    if from < s.len() && is_ws(s[from]) {
        lemma_skip_ws_bounds(s, from + 1);
    }
}

pub proof fn lemma_token_end_bounds(s: Seq<char>, from: int)
    requires
        0 <= from <= s.len(),
    ensures
        from <= token_end_spec(s, from) <= s.len(),
        token_end_spec(s, from) < s.len() ==> is_ws(s[token_end_spec(s, from)]),
    decreases s.len() - from,
{
    if from < s.len() && !is_ws(s[from]) {
        lemma_token_end_bounds(s, from + 1);
    }
}

/// Executable `skip_ws_spec`.
pub fn skip_ws(s: &str, from: usize, len: usize) -> (r: usize)
    requires
        from <= len,
        len == s@.len(),
    ensures
        r == skip_ws_spec(s@, from as int),
        from <= r <= len,
{
    let mut i: usize = from;
    while i < len && ws_char(s.get_char(i))
        invariant
            from <= i <= len,
            len == s@.len(),
            skip_ws_spec(s@, from as int) == skip_ws_spec(s@, i as int),
        decreases len - i,
    {
        i = i + 1;
    }
    proof {
        lemma_skip_ws_bounds(s@, i as int);
    }
    i
}

/// Executable `token_end_spec`.
pub fn token_end(s: &str, from: usize, len: usize) -> (r: usize)
    requires
        from <= len,
        len == s@.len(),
    ensures
        r == token_end_spec(s@, from as int),
        from <= r <= len,
    decreases len - from,
{
    let mut i: usize = from;
    while i < len && !ws_char(s.get_char(i))
        invariant
            from <= i <= len,
            len == s@.len(),
            token_end_spec(s@, from as int) == token_end_spec(s@, i as int),
        decreases len - i,
    {
        i = i + 1;
    }
    proof {
        lemma_token_end_bounds(s@, i as int);
    }
    i
}

/// The first whitespace-delimited token of `s` (empty if none).
pub open spec fn first_token(s: Seq<char>) -> Seq<char> {
    s.subrange(skip_ws_spec(s, 0), token_end_spec(s, skip_ws_spec(s, 0)))
}

/// Index just past the first token.
pub open spec fn after_first_token(s: Seq<char>) -> int {
    token_end_spec(s, skip_ws_spec(s, 0))
}

/// The second whitespace-delimited token of `s` (empty if none).
pub open spec fn second_token(s: Seq<char>) -> Seq<char> {
    let a = skip_ws_spec(s, after_first_token(s));
    s.subrange(a, token_end_spec(s, a))
}

/// Extracts the first token as a fresh string.
pub fn first_token_of(s: &str) -> (r: String)
    ensures
        r@ == first_token(s@),
{
    let len = s.unicode_len();
    let a = skip_ws(s, 0, len);
    let b = token_end(s, a, len);
    proof {
        lemma_token_end_bounds(s@, a as int);
    }
    s.substring_char(a, b).to_owned()
}

/// Equality of two string slices, decided character by character.
pub fn str_eqs(a: &str, b: &str) -> (r: bool)
    ensures
        r == (a@ == b@),
{
    let alen = a.unicode_len();
    let blen = b.unicode_len();
    if alen != blen {
        assert(a@ != b@) by {
            assert(a@.len() != b@.len());
        }
        return false;
    }
    let mut i: usize = 0;
    while i < alen
        invariant
            0 <= i <= alen,
            alen == a@.len(),
            alen == b@.len(),
            forall|j: int| 0 <= j < i ==> a@[j] == b@[j],
        decreases alen - i,
    {
        if a.get_char(i) != b.get_char(i) {
            return false;
        }
        i = i + 1;
    }
    proof {
        assert(a@ =~= b@);
    }
    true
}

/// First index where character `c` occurs in `s`.
pub open spec fn idx_of_first(s: Seq<char>, c: char) -> Option<int>
    decreases s.len(),
{
    if s.len() == 0 {
        Option::None
    } else if s[0] == c {
        Option::Some(0int)
    } else {
        match idx_of_first(s.drop_first(), c) {
            Option::Some(i) => Option::Some(i + 1),
            Option::None => Option::None,
        }
    }
}

pub proof fn lemma_idx_of_first(s: Seq<char>, c: char)
    ensures
        match idx_of_first(s, c) {
            Option::Some(i) => 0 <= i < s.len() && s[i] == c && forall|j: int|
                0 <= j < i ==> s[j] != c,
            Option::None => forall|j: int| 0 <= j < s.len() ==> s[j] != c,
        },
    decreases s.len(),
{
    if s.len() > 0 && s[0] != c {
        lemma_idx_of_first(s.drop_first(), c);
        assert forall|j: int| 0 <= j < s.len() implies (s.drop_first()[j - 1] == s[j] || j == 0)
        by {}
    }
}

/// Converse direction: a first occurrence pins down `idx_of_first`.
pub proof fn lemma_idx_of_first_exact(s: Seq<char>, c: char, i: int)
    requires
        0 <= i < s.len(),
        s[i] == c,
        forall|j: int| 0 <= j < i ==> s[j] != c,
    ensures
        idx_of_first(s, c) == Option::Some(i),
    decreases s.len(),
{
    if i > 0 {
        assert(s[0] != c);
        lemma_idx_of_first_exact(s.drop_first(), c, i - 1);
    }
}

pub proof fn lemma_idx_of_first_none(s: Seq<char>, c: char)
    requires
        forall|j: int| 0 <= j < s.len() ==> s[j] != c,
    ensures
        idx_of_first(s, c) == Option::None::<int>,
    decreases s.len(),
{
    if s.len() > 0 {
        lemma_idx_of_first_none(s.drop_first(), c);
    }
}

/// Finds the first occurrence of `c` at or after index `from`.
pub fn find_char_from(s: &str, c: char, from: usize) -> (r: Option<usize>)
    requires
        from <= s@.len(),
    ensures
        match r {
            Option::Some(i) => from <= i < s@.len() && s@[i as int] == c && forall|j: int|
                from <= j < i ==> s@[j] != c,
            Option::None => forall|j: int| from <= j < s@.len() ==> s@[j] != c,
        },
{
    let len = s.unicode_len();
    let mut i: usize = from;
    while i < len
        invariant
            from <= i <= len,
            len == s@.len(),
            forall|j: int| from <= j < i ==> s@[j] != c,
        decreases len - i,
    {
        if s.get_char(i) == c {
            return Option::Some(i);
        }
        i = i + 1;
    }
    Option::None
}

/// Finds the first occurrence of `c` in `s`, as `idx_of_first` describes.
pub fn find_char(s: &str, c: char) -> (r: Option<usize>)
    ensures
        match r {
            Option::Some(i) => idx_of_first(s@, c) == Option::Some(i as int),
            Option::None => idx_of_first(s@, c) == Option::None::<int>,
        },
{
    let r = find_char_from(s, c, 0);
    proof {
        match r {
            Option::Some(i) => lemma_idx_of_first_exact(s@, c, i as int),
            Option::None => lemma_idx_of_first_none(s@, c),
        }
    }
    r
}

/// `pat` occurs in `s` starting at index `k`.
pub open spec fn matches_at(s: Seq<char>, pat: Seq<char>, k: int) -> bool {
    0 <= k && k + pat.len() <= s.len() && forall|j: int| 0 <= j < pat.len() ==> s[k + j] == pat[j]
}

/// Tests whether `pat` occurs in `s` at index `k`.
pub fn check_match(s: &str, pat: &str, k: usize, slen: usize, plen: usize) -> (r: bool)
    requires
        slen == s@.len(),
        plen == pat@.len(),
        k + plen <= slen,
    ensures
        r == matches_at(s@, pat@, k as int),
{
    let mut j: usize = 0;
    while j < plen
        invariant
            0 <= j <= plen,
            slen == s@.len(),
            plen == pat@.len(),
            k + plen <= slen,
            forall|jj: int| 0 <= jj < j ==> s@[k + jj] == pat@[jj],
        decreases plen - j,
    {
        if s.get_char(k + j) != pat.get_char(j) {
            return false;
        }
        j = j + 1;
    }
    true
}

/// Finds the first index at which `pat` occurs in `s`.
pub fn find_sub(s: &str, pat: &str) -> (r: Option<usize>)
    ensures
        match r {
            Option::Some(i) => matches_at(s@, pat@, i as int) && (forall|k: int|
                0 <= k < i ==> !matches_at(s@, pat@, k)) && first_match(s@, pat@)
                == Option::Some(i as int),
            Option::None => (forall|k: int| !matches_at(s@, pat@, k)) && first_match(s@, pat@)
                is None,
        },
{
    let slen = s.unicode_len();
    let plen = pat.unicode_len();
    if plen > slen {
        proof {
            assert forall|k: int| !matches_at(s@, pat@, k) by {}
            lemma_first_match_none(s@, pat@);
        }
        return Option::None;
    }
    let bound = slen - plen;
    let mut i: usize = 0;
    while i <= bound
        invariant
            0 <= i,
            i <= bound + 1,
            bound == slen - plen,
            plen <= slen,
            slen == s@.len(),
            plen == pat@.len(),
            forall|k: int| 0 <= k < i ==> !matches_at(s@, pat@, k),
        decreases bound + 1 - i,
    {
        if check_match(s, pat, i, slen, plen) {
            proof {
                lemma_first_match_exact(s@, pat@, i as int);
            }
            return Option::Some(i);
        }
        i = i + 1;
    }
    proof {
        assert forall|k: int| !matches_at(s@, pat@, k) by {
            if matches_at(s@, pat@, k) {
                assert(0 <= k < i);
            }
        }
        lemma_first_match_none(s@, pat@);
    }
    Option::None
}

/// Character `c` matches pattern character `p`, where `p` is taken from an
/// upper-case pattern and `c` may be the lower-case form of `p`.
pub open spec fn ci_eq_up(c: char, p: char) -> bool {
    c == p || (97 <= c as u32 <= 122 && c as u32 - 32 == p as u32)
}

/// Case-folded occurrence of the upper-case pattern `pat` at index `k` of `s`.
pub open spec fn ci_matches_at(s: Seq<char>, pat: Seq<char>, k: int) -> bool {
    0 <= k && k + pat.len() <= s.len() && forall|j: int| 0 <= j < pat.len() ==> ci_eq_up(
        s[k + j],
        pat[j],
    )
}

/// `s` begins with the upper-case pattern `pat`, ignoring ASCII case.
pub open spec fn ci_has_prefix(s: Seq<char>, pat: Seq<char>) -> bool {
    ci_matches_at(s, pat, 0)
}

/// `s` contains the upper-case pattern `pat` somewhere, ignoring ASCII case.
pub open spec fn ci_has_sub(s: Seq<char>, pat: Seq<char>) -> bool {
    exists|k: int| ci_matches_at(s, pat, k)
}

/// Tests a case-folded match of `pat` at index `k`.
fn ci_check_match(s: &str, pat: &str, k: usize, slen: usize, plen: usize) -> (r: bool)
    requires
        slen == s@.len(),
        plen == pat@.len(),
        k + plen <= slen,
    ensures
        r == ci_matches_at(s@, pat@, k as int),
{
    let mut j: usize = 0;
    while j < plen
        invariant
            0 <= j <= plen,
            slen == s@.len(),
            plen == pat@.len(),
            k + plen <= slen,
            forall|jj: int| 0 <= jj < j ==> ci_eq_up(s@[k + jj], pat@[jj]),
        decreases plen - j,
    {
        let sc = s.get_char(k + j);
        let pc = pat.get_char(j);
        let su = sc as u32;
        let pu = pc as u32;
        if !(sc == pc || (97 <= su && su <= 122 && su - 32 == pu)) {
            return false;
        }
        j = j + 1;
    }
    true
}

/// Case-insensitive prefix test against an upper-case pattern.
pub fn ci_starts(s: &str, pat: &str) -> (r: bool)
    ensures
        r == ci_has_prefix(s@, pat@),
{
    let slen = s.unicode_len();
    let plen = pat.unicode_len();
    if plen > slen {
        return false;
    }
    ci_check_match(s, pat, 0, slen, plen)
}

/// Case-insensitive substring test against an upper-case pattern.
pub fn ci_contains(s: &str, pat: &str) -> (r: bool)
    ensures
        r == ci_has_sub(s@, pat@),
{
    let slen = s.unicode_len();
    let plen = pat.unicode_len();
    if plen > slen {
        return (false);
    }
    let bound = slen - plen;
    let mut i: usize = 0;
    while i <= bound
        invariant
            0 <= i,
            i <= bound + 1,
            bound == slen - plen,
            plen <= slen,
            slen == s@.len(),
            plen == pat@.len(),
            forall|k: int| 0 <= k < i ==> !ci_matches_at(s@, pat@, k),
        decreases bound + 1 - i,
    {
        if ci_check_match(s, pat, i, slen, plen) {
            return (true);
        }
        i = i + 1;
    }
    assert forall|k: int| !ci_matches_at(s@, pat@, k) by {
        if ci_matches_at(s@, pat@, k) {
            assert(0 <= k < i);
        }
    }
    false
}

/// Strict lexicographic order on character sequences by code point.
pub open spec fn lex_lt(a: Seq<char>, b: Seq<char>) -> bool
    decreases a.len(),
{
    if b.len() == 0 {
        false
    } else if a.len() == 0 {
        true
    } else if (a[0] as u32) < (b[0] as u32) {
        true
    } else if (b[0] as u32) < (a[0] as u32) {
        false
    } else {
        lex_lt(a.drop_first(), b.drop_first())
    }
}

pub proof fn lemma_lex_irrefl(a: Seq<char>)
    ensures
        !lex_lt(a, a),
    decreases a.len(),
{
    if a.len() > 0 {
        lemma_lex_irrefl(a.drop_first());
    }
}

pub proof fn lemma_lex_connected(a: Seq<char>, b: Seq<char>)
    requires
        !lex_lt(a, b),
        !lex_lt(b, a),
    ensures
        a == b,
    decreases a.len(),
{
    if b.len() == 0 {
        assert(a.len() == 0);
        assert(a =~= b);
    } else if a.len() == 0 {
        assert(lex_lt(a, b));
    } else {
        let ua: u32 = a[0] as u32;
        let ub: u32 = b[0] as u32;
        assert(ua == ub);
        vstd::utf8::char_u32_cast(a[0], ua);
        vstd::utf8::char_u32_cast(b[0], ub);
        assert(a[0] == b[0]);
        lemma_lex_connected(a.drop_first(), b.drop_first());
        assert(a =~= seq![a[0]] + a.drop_first());
        assert(b =~= seq![b[0]] + b.drop_first());
        assert(a == b);
    }
}

pub proof fn lemma_lex_trans(a: Seq<char>, b: Seq<char>, c: Seq<char>)
    requires
        lex_lt(a, b),
        lex_lt(b, c),
    ensures
        lex_lt(a, c),
    decreases a.len(),
{
    assert(c.len() > 0);
    assert(b.len() > 0);
    if a.len() == 0 {
        assert(lex_lt(a, c));
    } else {
        let x = a[0] as u32;
        let y = b[0] as u32;
        let z = c[0] as u32;
        if x == y && y == z {
            assert(lex_lt(a.drop_first(), b.drop_first()));
            assert(lex_lt(b.drop_first(), c.drop_first()));
            lemma_lex_trans(a.drop_first(), b.drop_first(), c.drop_first());
            assert(lex_lt(a, c));
        } else {
            assert(x < z);
            assert(lex_lt(a, c));
        }
    }
}

/// Decides `lex_lt` on two string slices.
pub fn str_lt(a: &str, b: &str) -> (r: bool)
    ensures
        r == lex_lt(a@, b@),
{
    let alen = a.unicode_len();
    let blen = b.unicode_len();
    let min = if alen < blen {
        alen
    } else {
        blen
    };
    proof {
        assert(a@.skip(0) =~= a@);
        assert(b@.skip(0) =~= b@);
    }
    let mut i: usize = 0;
    while i < min
        invariant
            0 <= i <= min,
            alen == a@.len(),
            blen == b@.len(),
            min == if alen < blen {
                alen
            } else {
                blen
            },
            lex_lt(a@, b@) == lex_lt(a@.skip(i as int), b@.skip(i as int)),
        decreases min - i,
    {
        let ca = a.get_char(i);
        let cb = b.get_char(i);
        proof {
            assert(a@.skip(i as int)[0] == a@[i as int]);
            assert(b@.skip(i as int)[0] == b@[i as int]);
            assert(a@.skip(i as int).drop_first() =~= a@.skip(i as int + 1));
            assert(b@.skip(i as int).drop_first() =~= b@.skip(i as int + 1));
        }
        if (ca as u32) < (cb as u32) {
            return (true);
        }
        if (cb as u32) < (ca as u32) {
            return (false);
        }
        i = i + 1;
    }
    proof {
        if alen < blen {
            assert(a@.skip(i as int).len() == 0);
            assert(b@.skip(i as int).len() > 0);
        } else {
            assert(b@.skip(i as int).len() == 0);
        }
    }
    alen < blen
}

/// Numeric value of a decimal digit string, most significant digit first.
pub open spec fn dec_val(s: Seq<char>) -> int
    decreases s.len(),
{
    if s.len() == 0 {
        0
    } else {
        dec_val(s.take(s.len() - 1)) * 10 + (s[s.len() - 1] as u32 - 48)
    }
}

/// All characters are decimal digits.
pub open spec fn all_digits(s: Seq<char>) -> bool {
    forall|i: int| 0 <= i < s.len() ==> 48 <= (#[trigger] s[i]) as u32 <= 57
}

proof fn lemma_dec_val_mono(s: Seq<char>, i: int)
    requires
        0 <= i <= s.len(),
        all_digits(s),
    ensures
        dec_val(s.take(i)) <= dec_val(s),
        0 <= dec_val(s),
    decreases s.len() - i,
{
    if i == s.len() {
        assert(s.take(i) =~= s);
        lemma_dec_val_nonneg(s);
    } else {
        lemma_dec_val_mono(s, i + 1);
        assert(s.take(i + 1).take(i) =~= s.take(i));
        lemma_dec_val_nonneg(s.take(i));
    }
}

proof fn lemma_dec_val_nonneg(s: Seq<char>)
    requires
        all_digits(s),
    ensures
        0 <= dec_val(s),
    decreases s.len(),
{
    if s.len() > 0 {
        assert(all_digits(s.take(s.len() - 1)));
        lemma_dec_val_nonneg(s.take(s.len() - 1));
    }
}

/// Parses a non-empty decimal digit string into a `usize`, exactly when the
/// value fits; anything else is rejected.
pub fn parse_usize(s: &str) -> (r: Option<usize>)
    ensures
        match r {
            Option::Some(v) => s@.len() > 0 && all_digits(s@) && v == dec_val(s@),
            Option::None => s@.len() == 0 || !all_digits(s@) || dec_val(s@) > usize::MAX,
        },
{
    let len = s.unicode_len();
    if len == 0 {
        return Option::None;
    }
    let mut acc: usize = 0;
    let mut i: usize = 0;
    while i < len
        invariant
            0 <= i <= len,
            len == s@.len(),
            all_digits(s@.take(i as int)),
            acc == dec_val(s@.take(i as int)),
        decreases len - i,
    {
        let c = s.get_char(i);
        let u = c as u32;
        if !(48 <= u && u <= 57) {
            assert(!all_digits(s@));
            return Option::None;
        }
        let d = (u - 48) as usize;
        proof {
            assert(s@.take(i as int + 1).take(i as int) =~= s@.take(i as int));
            assert(s@.take(i as int + 1)[i as int] == s@[i as int]);
        }
        if acc > usize::MAX / 10 || (acc == usize::MAX / 10 && d > usize::MAX % 10) {
            assert(dec_val(s@.take(i as int + 1)) > usize::MAX);
            proof {
                if all_digits(s@) {
                    lemma_dec_val_mono(s@, i as int + 1);
                }
            }
            return Option::None;
        }
        acc = acc * 10 + d;
        i = i + 1;
    }
    proof {
        assert(s@.take(len as int) =~= s@);
    }
    Option::Some(acc)
}

/// Numeric value of a hexadecimal digit, or 16 for a non-digit.
pub open spec fn hex_digit(c: char) -> int {
    if 48 <= c as u32 <= 57 {
        c as u32 - 48
    } else if 97 <= c as u32 <= 102 {
        c as u32 - 87
    } else if 65 <= c as u32 <= 70 {
        c as u32 - 55
    } else {
        16
    }
}

/// All characters are hexadecimal digits.
pub open spec fn all_hex(s: Seq<char>) -> bool {
    forall|i: int| 0 <= i < s.len() ==> #[trigger] hex_digit(s[i]) < 16
}

/// Numeric value of a hexadecimal digit string, most significant digit first.
pub open spec fn hex_val(s: Seq<char>) -> int
    decreases s.len(),
{
    if s.len() == 0 {
        0
    } else {
        hex_val(s.take(s.len() - 1)) * 16 + hex_digit(s[s.len() - 1])
    }
}

proof fn lemma_hex_val_nonneg(s: Seq<char>)
    requires
        all_hex(s),
    ensures
        0 <= hex_val(s),
    decreases s.len(),
{
    if s.len() > 0 {
        assert(all_hex(s.take(s.len() - 1)));
        lemma_hex_val_nonneg(s.take(s.len() - 1));
    }
}

proof fn lemma_hex_val_mono(s: Seq<char>, i: int)
    requires
        0 <= i <= s.len(),
        all_hex(s),
    ensures
        hex_val(s.take(i)) <= hex_val(s),
        0 <= hex_val(s),
    decreases s.len() - i,
{
    if i == s.len() {
        assert(s.take(i) =~= s);
        lemma_hex_val_nonneg(s);
    } else {
        lemma_hex_val_mono(s, i + 1);
        assert(s.take(i + 1).take(i) =~= s.take(i));
        lemma_hex_val_nonneg(s.take(i));
    }
}

/// Parses a non-empty hexadecimal digit string into a `u32`, exactly when the
/// value fits; anything else is rejected.
pub fn parse_hex_u32(s: &str) -> (r: Option<u32>)
    ensures
        match r {
            Option::Some(v) => s@.len() > 0 && all_hex(s@) && v == hex_val(s@),
            Option::None => s@.len() == 0 || !all_hex(s@) || hex_val(s@) > u32::MAX,
        },
{
    let len = s.unicode_len();
    if len == 0 {
        return Option::None;
    }
    let mut acc: u32 = 0;
    let mut i: usize = 0;
    while i < len
        invariant
            0 <= i <= len,
            len == s@.len(),
            all_hex(s@.take(i as int)),
            acc == hex_val(s@.take(i as int)),
        decreases len - i,
    {
        let c = s.get_char(i);
        let u = c as u32;
        let d: u32 = if 48 <= u && u <= 57 {
            u - 48
        } else if 97 <= u && u <= 102 {
            u - 87
        } else if 65 <= u && u <= 70 {
            u - 55
        } else {
            assert(hex_digit(s@[i as int]) == 16);
            assert(!all_hex(s@));
            return Option::None;
        };
        assert(d == hex_digit(s@[i as int]));
        proof {
            assert(s@.take(i as int + 1).take(i as int) =~= s@.take(i as int));
            assert(s@.take(i as int + 1)[i as int] == s@[i as int]);
        }
        if acc > u32::MAX / 16 || (acc == u32::MAX / 16 && d > u32::MAX % 16) {
            assert(hex_val(s@.take(i as int + 1)) > u32::MAX);
            proof {
                if all_hex(s@) {
                    lemma_hex_val_mono(s@, i as int + 1);
                }
            }
            return Option::None;
        }
        acc = acc * 16 + d;
        i = i + 1;
    }
    proof {
        assert(s@.take(len as int) =~= s@);
    }
    Option::Some(acc)
}

/// A nickname stripped of leading `@` / `+` privilege markers.
pub open spec fn strip_priv(s: Seq<char>) -> Seq<char>
    decreases s.len(),
{
    if s.len() > 0 && (s[0] == '@' || s[0] == '+') {
        strip_priv(s.drop_first())
    } else {
        s
    }
}

/// Tests for a `@` / `+` privilege marker.
fn marker_char(c: char) -> (r: bool)
    ensures
        r == (c == '@' || c == '+'),
{
    c == '@' || c == '+'
}

/// Index of the first character of `s` that is not a privilege marker.
pub fn strip_priv_idx(s: &str) -> (r: usize)
    ensures
        r <= s@.len(),
        s@.skip(r as int) == strip_priv(s@),
{
    let len = s.unicode_len();
    proof {
        assert(s@.skip(0) =~= s@);
    }
    let mut i: usize = 0;
    while i < len && marker_char(s.get_char(i))
        invariant
            0 <= i <= len,
            len == s@.len(),
            strip_priv(s@) == strip_priv(s@.skip(i as int)),
        decreases len - i,
    {
        proof {
            assert(s@.skip(i as int)[0] == s@[i as int]);
            assert(s@.skip(i as int).drop_first() =~= s@.skip(i as int + 1));
        }
        i = i + 1;
    }
    proof {
        if i < len {
            assert(s@.skip(i as int)[0] == s@[i as int]);
        }
        assert(strip_priv(s@.skip(i as int)) =~= s@.skip(i as int));
    }
    i
}

/// Whether the stripped form of `u` equals the (already stripped) name `t`.
pub fn eq_stripped(u: &str, t: &str) -> (r: bool)
    ensures
        r == (strip_priv(u@) == t@),
{
    let i = strip_priv_idx(u);
    let len = u.unicode_len();
    let stripped = u.substring_char(i, len);
    assert(stripped@ =~= u@.skip(i as int));
    str_eqs(stripped, t)
}

/// First index at or after `from` holding whitespace or `:` (or the length
/// of `s`): the end of a `#`-prefixed channel token.
pub open spec fn chan_end_spec(s: Seq<char>, from: int) -> int
    decreases s.len() - from,
{
    if from < 0 || from >= s.len() {
        s.len() as int
    } else if is_ws(s[from]) || s[from] == ':' {
        from
    } else {
        chan_end_spec(s, from + 1)
    }
}

/// The first `#`-prefixed channel token of `s`: from the first `#` up to
/// the next whitespace or `:`.
pub open spec fn hash_tok(s: Seq<char>) -> Option<Seq<char>> {
    match idx_of_first(s, '#') {
        Option::Some(h) => Option::Some(s.subrange(h, chan_end_spec(s, h))),
        Option::None => Option::None,
    }
}

pub proof fn lemma_chan_end_bounds(s: Seq<char>, from: int)
    requires
        0 <= from <= s.len(),
    ensures
        from <= chan_end_spec(s, from) <= s.len(),
    decreases s.len() - from,
{
    if from < s.len() && !(is_ws(s[from]) || s[from] == ':') {
        lemma_chan_end_bounds(s, from + 1);
    }
}

/// Tests for a character that ends a channel token.
fn chan_end_char(c: char) -> (r: bool)
    ensures
        r == (is_ws(c) || c == ':'),
{
    ws_char(c) || c == ':'
}

/// Extracts the first `#`-prefixed channel token, as `hash_tok` describes.
pub fn hash_token(s: &str) -> (r: Option<String>)
    ensures
        match r {
            Option::Some(t) => hash_tok(s@) == Option::Some(t@),
            Option::None => hash_tok(s@) is None,
        },
{
    let len = s.unicode_len();
    let h = match find_char(s, '#') {
        Option::Some(h) => h,
        Option::None => {
            return Option::None;
        },
    };
    proof {
        lemma_idx_of_first(s@, '#');
    }
    let mut e: usize = h;
    while e < len && !chan_end_char(s.get_char(e))
        invariant
            h <= e <= len,
            len == s@.len(),
            chan_end_spec(s@, h as int) == chan_end_spec(s@, e as int),
        decreases len - e,
    {
        e = e + 1;
    }
    proof {
        lemma_chan_end_bounds(s@, e as int);
    }
    Option::Some(substr(s, h, e))
}

/// The sender named by a `:nick!user@host` prefix: the text between the
/// leading character and the first `!`; empty when there is no usable `!`.
pub open spec fn actor_of(s: Seq<char>) -> Seq<char> {
    match idx_of_first(s, '!') {
        Option::Some(e) => if e >= 1 {
            s.subrange(1, e)
        } else {
            Seq::empty()
        },
        Option::None => Seq::empty(),
    }
}

/// Extracts the acting nickname, as `actor_of` describes.
pub fn actor_name(s: &str) -> (r: String)
    ensures
        r@ == actor_of(s@),
{
    proof {
        lemma_idx_of_first(s@, '!');
    }
    match find_char(s, '!') {
        Option::Some(e) => {
            if e >= 1 {
                substr(s, 1, e)
            } else {
                String::new()
            }
        },
        Option::None => String::new(),
    }
}


/// First index at which `pat` occurs in `s`.
pub open spec fn first_match(s: Seq<char>, pat: Seq<char>) -> Option<int>
    decreases s.len(),
{
    if pat.len() > s.len() {
        Option::None
    } else if matches_at(s, pat, 0) {
        Option::Some(0int)
    } else {
        match first_match(s.drop_first(), pat) {
            Option::Some(i) => Option::Some(i + 1),
            Option::None => Option::None,
        }
    }
}

/// A first occurrence pins down `first_match`.
pub proof fn lemma_first_match_exact(s: Seq<char>, pat: Seq<char>, i: int)
    requires
        matches_at(s, pat, i),
        forall|k: int| 0 <= k < i ==> !matches_at(s, pat, k),
    ensures
        first_match(s, pat) == Option::Some(i),
    decreases s.len(),
{
    if i > 0 {
        assert(!matches_at(s, pat, 0));
        assert forall|j: int| 0 <= j < s.len() implies (s.drop_first()[j - 1] == s[j] || j == 0)
        by {}
        assert(matches_at(s.drop_first(), pat, i - 1)) by {
            assert forall|j: int| 0 <= j < pat.len() implies s.drop_first()[i - 1 + j] == pat[j]
            by {
                assert(s.drop_first()[i - 1 + j] == s[i + j]);
            }
        }
        assert forall|k: int| 0 <= k < i - 1 implies !matches_at(s.drop_first(), pat, k) by {
            if matches_at(s.drop_first(), pat, k) {
                assert forall|j: int| 0 <= j < pat.len() implies s[k + 1 + j] == pat[j] by {
                    assert(s.drop_first()[k + j] == s[k + 1 + j]);
                }
                assert(matches_at(s, pat, k + 1));
            }
        }
        lemma_first_match_exact(s.drop_first(), pat, i - 1);
    }
}

/// No occurrence at all pins down `first_match`.
pub proof fn lemma_first_match_none(s: Seq<char>, pat: Seq<char>)
    requires
        forall|k: int| !matches_at(s, pat, k),
    ensures
        first_match(s, pat) is None,
    decreases s.len(),
{
    if pat.len() <= s.len() {
        assert forall|k: int| !matches_at(s.drop_first(), pat, k) by {
            if matches_at(s.drop_first(), pat, k) {
                assert forall|j: int| 0 <= j < pat.len() implies s[k + 1 + j] == pat[j] by {
                    assert(s.drop_first()[k + j] == s[k + 1 + j]);
                }
                assert(matches_at(s, pat, k + 1));
            }
        }
        lemma_first_match_none(s.drop_first(), pat);
    }
}

/// The views of a list of strings.
pub open spec fn views_of(ts: Seq<String>) -> Seq<Seq<char>> {
    ts.map_values(|t: String| t@)
}

/// The whitespace-delimited tokens of `s`, in order.
pub open spec fn split_ws_seq(s: Seq<char>) -> Seq<Seq<char>>
    decreases s.len(),
{
    if s.len() == 0 {
        Seq::empty()
    } else if is_ws(s[0]) {
        split_ws_seq(s.drop_first())
    } else {
        let b = token_end_spec(s, 0);
        let bb = if 1 <= b <= s.len() {
            b
        } else {
            1int
        };
        seq![s.take(bb)] + split_ws_seq(s.skip(bb))
    }
}

/// Splits `s` into its whitespace-delimited tokens.
pub fn split_tokens(s: &str) -> (r: Vec<String>)
    ensures
        views_of(r@) == split_ws_seq(s@),
    decreases s@.len(),
{
    let len = s.unicode_len();
    if len == 0 {
        let r: Vec<String> = Vec::new();
        proof {
            assert(views_of(r@) =~= split_ws_seq(s@));
        }
        return r;
    }
    let c0 = s.get_char(0);
    if ws_char(c0) {
        let rest = s.substring_char(1, len);
        proof {
            assert(rest@ =~= s@.drop_first());
        }
        split_tokens(rest)
    } else {
        let b = token_end(s, 0, len);
        proof {
            lemma_token_end_bounds(s@, 1);
            assert(token_end_spec(s@, 0) == token_end_spec(s@, 1));
            assert(1 <= b <= len);
        }
        let tok = substr(s, 0, b);
        let rest = s.substring_char(b, len);
        proof {
            assert(rest@ =~= s@.skip(b as int));
            assert(tok@ =~= s@.take(b as int));
        }
        let mut rr = split_tokens(rest);
        let ghost m0 = rr@;
        rr.insert(0, tok);
        proof {
            m0.insert_ensures(0, tok);
            assert(views_of(rr@).len() == split_ws_seq(s@).len());
            assert forall|i: int| 0 <= i < rr@.len() implies views_of(rr@)[i] == split_ws_seq(
                s@,
            )[i] by {
                if i == 0 {
                    assert(rr@[0] == tok);
                } else {
                    assert(rr@[i] == m0[i - 1]);
                    assert(views_of(m0)[i - 1] == m0[i - 1]@);
                }
            }
            assert(views_of(rr@) =~= split_ws_seq(s@));
        }
        rr
    }
}

/// Copies the character range `[from, to)` of `s` into a fresh string.
pub fn substr(s: &str, from: usize, to: usize) -> (r: String)
    requires
        from <= to <= s@.len(),
    ensures
        r@ == s@.subrange(from as int, to as int),
{
    s.substring_char(from, to).to_owned()
}

} // verus!

