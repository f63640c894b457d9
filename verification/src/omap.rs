//! Association vectors with keys kept in strictly ascending lexicographic
//! order: the ordered name-to-value mappings the session state is built on.

use vstd::prelude::*;
use crate::text::lex_lt;
use crate::text::str_lt;
use crate::text::str_eqs;
use crate::text::lemma_lex_connected;
use crate::text::lemma_lex_trans;
use crate::text::lemma_lex_irrefl;

verus! {

/// Keys appear in strictly ascending order, hence each key at most once.
pub open spec fn keys_sorted<T>(s: Seq<(String, T)>) -> bool {
    forall|i: int, j: int| 0 <= i < j < s.len() ==> #[trigger] lex_lt(s[i].0@, s[j].0@)
}

/// First index holding key `k`, if any.
pub open spec fn key_idx<T>(s: Seq<(String, T)>, k: Seq<char>) -> Option<int>
    decreases s.len(),
{
    if s.len() == 0 {
        Option::None
    } else if s[0].0@ == k {
        Option::Some(0int)
    } else {
        match key_idx(s.drop_first(), k) {
            Option::Some(i) => Option::Some(i + 1),
            Option::None => Option::None,
        }
    }
}

pub proof fn lemma_key_idx<T>(s: Seq<(String, T)>, k: Seq<char>)
    ensures
        match key_idx(s, k) {
            Option::Some(i) => 0 <= i < s.len() && s[i].0@ == k && forall|j: int|
                0 <= j < i ==> s[j].0@ != k,
            Option::None => forall|j: int| 0 <= j < s.len() ==> s[j].0@ != k,
        },
    decreases s.len(),
{
    if s.len() > 0 && s[0].0@ != k {
        lemma_key_idx(s.drop_first(), k);
        assert forall|j: int| 0 <= j < s.len() implies (s.drop_first()[j - 1] == s[j] || j == 0)
        by {}
    }
}

pub proof fn lemma_key_idx_exact<T>(s: Seq<(String, T)>, k: Seq<char>, i: int)
    requires
        0 <= i < s.len(),
        s[i].0@ == k,
        forall|j: int| 0 <= j < i ==> s[j].0@ != k,
    ensures
        key_idx(s, k) == Option::Some(i),
    decreases s.len(),
{
    if i > 0 {
        lemma_key_idx_exact(s.drop_first(), k, i - 1);
    }
}

pub proof fn lemma_key_idx_none<T>(s: Seq<(String, T)>, k: Seq<char>)
    requires
        forall|j: int| 0 <= j < s.len() ==> s[j].0@ != k,
    ensures
        key_idx(s, k) == Option::None::<int>,
    decreases s.len(),
{
    if s.len() > 0 {
        lemma_key_idx_none(s.drop_first(), k);
    }
}

/// Finds the index of key `k`, as `key_idx` describes.
pub fn find_idx<T>(v: &Vec<(String, T)>, k: &str) -> (r: Option<usize>)
    ensures
        match r {
            Option::Some(i) => key_idx(v@, k@) == Option::Some(i as int),
            Option::None => key_idx(v@, k@) == Option::None::<int>,
        },
{
    let len = v.len();
    let mut i: usize = 0;
    while i < len
        invariant
            0 <= i <= len,
            len == v@.len(),
            forall|j: int| 0 <= j < i ==> v@[j].0@ != k@,
        decreases len - i,
    {
        if str_eqs(v[i].0.as_str(), k) {
            proof {
                lemma_key_idx_exact(v@, k@, i as int);
            }
            return Option::Some(i);
        }
        i = i + 1;
    }
    proof {
        lemma_key_idx_none(v@, k@);
    }
    Option::None
}

/// The position at which key `k` belongs: the first index whose key is
/// greater, or the length if there is none.
pub open spec fn ins_pos<T>(s: Seq<(String, T)>, k: Seq<char>) -> int
    decreases s.len(),
{
    if s.len() == 0 {
        0
    } else if lex_lt(k, s[0].0@) {
        0
    } else {
        1 + ins_pos(s.drop_first(), k)
    }
}

pub proof fn lemma_ins_pos<T>(s: Seq<(String, T)>, k: Seq<char>)
    ensures
        0 <= ins_pos(s, k) <= s.len(),
        forall|j: int| 0 <= j < ins_pos(s, k) ==> !lex_lt(k, s[j].0@),
        ins_pos(s, k) < s.len() ==> lex_lt(k, s[ins_pos(s, k)].0@),
    decreases s.len(),
{
    if s.len() > 0 && !lex_lt(k, s[0].0@) {
        lemma_ins_pos(s.drop_first(), k);
        assert forall|j: int| 0 <= j < s.len() implies (s.drop_first()[j - 1] == s[j] || j == 0)
        by {}
    }
}

pub proof fn lemma_ins_pos_exact<T>(s: Seq<(String, T)>, k: Seq<char>, p: int)
    requires
        0 <= p <= s.len(),
        forall|j: int| 0 <= j < p ==> !lex_lt(k, s[j].0@),
        p < s.len() ==> lex_lt(k, s[p].0@),
    ensures
        ins_pos(s, k) == p,
    decreases s.len(),
{
    if p > 0 {
        lemma_ins_pos_exact(s.drop_first(), k, p - 1);
    }
}

/// Inserts a fresh key at its sorted position.
pub fn insert_sorted<T>(v: &mut Vec<(String, T)>, key: String, val: T)
    requires
        keys_sorted(old(v)@),
        key_idx(old(v)@, key@) is None,
    ensures
        final(v)@ == old(v)@.insert(ins_pos(old(v)@, key@), (key, val)),
        keys_sorted(final(v)@),
        key_idx(final(v)@, key@) == Option::Some(ins_pos(old(v)@, key@)),
{
    let ghost s0 = v@;
    let len = v.len();
    let mut i: usize = 0;
    while i < len && !str_lt(key.as_str(), v[i].0.as_str())
        invariant
            0 <= i <= len,
            len == v@.len(),
            v@ == s0,
            forall|j: int| 0 <= j < i ==> !lex_lt(key@, v@[j].0@),
        decreases len - i,
    {
        i = i + 1;
    }
    proof {
        lemma_ins_pos_exact(s0, key@, i as int);
        lemma_key_idx(s0, key@);
    }
    let ghost p = i as int;
    v.insert(i, (key, val));
    proof {
        let s1 = v@;
        assert(s1.len() == s0.len() + 1);
        assert forall|a: int, b: int| 0 <= a < b < s1.len() implies #[trigger] lex_lt(
            s1[a].0@,
            s1[b].0@,
        ) by {
            if b < p {
                assert(s1[a] == s0[a] && s1[b] == s0[b]);
            } else if a < p && b == p {
                // old key before the new one: not greater and distinct
                assert(s1[a] == s0[a]);
                assert(!lex_lt(key@, s0[a].0@));
                assert(s0[a].0@ != key@);
                if !lex_lt(s0[a].0@, key@) {
                    lemma_lex_connected(s0[a].0@, key@);
                }
            } else if a < p && b > p {
                assert(s1[a] == s0[a] && s1[b] == s0[b - 1]);
            } else if a == p {
                // the new key before a greater old one
                assert(s1[b] == s0[b - 1]);
                if p < s0.len() {
                    assert(lex_lt(key@, s0[p].0@));
                    if b - 1 > p {
                        assert(lex_lt(s0[p].0@, s0[b - 1].0@));
                        lemma_lex_trans(key@, s0[p].0@, s0[b - 1].0@);
                    }
                }
            } else {
                assert(s1[a] == s0[a - 1] && s1[b] == s0[b - 1]);
            }
        }
        assert forall|j: int| 0 <= j < p implies v@[j].0@ != key@ by {
            assert(v@[j] == s0[j]);
            if v@[j].0@ == key@ {
                lemma_lex_irrefl(key@);
            }
        }
        lemma_key_idx_exact(v@, key@, p);
    }
}

/// Removes key `k` if present; reports whether it was.
pub fn remove_key<T>(v: &mut Vec<(String, T)>, k: &str) -> (r: bool)
    requires
        keys_sorted(old(v)@),
    ensures
        match key_idx(old(v)@, k@) {
            Option::Some(i) => r && final(v)@ == old(v)@.remove(i),
            Option::None => !r && *final(v) == *old(v),
        },
        keys_sorted(final(v)@),
{
    let ghost s0 = v@;
    match find_idx(v, k) {
        Option::Some(i) => {
            proof {
                lemma_key_idx(s0, k@);
            }
            v.remove(i);
            proof {
                s0.remove_ensures(i as int);
                let s1 = v@;
                assert forall|a: int, b: int| 0 <= a < b < s1.len() implies #[trigger] lex_lt(
                    s1[a].0@,
                    s1[b].0@,
                ) by {
                    let aa = if a < i { a } else { a + 1 };
                    let bb = if b < i { b } else { b + 1 };
                    assert(s1[a] == s0[aa] && s1[b] == s0[bb]);
                    assert(lex_lt(s0[aa].0@, s0[bb].0@));
                }
            }
            true
        },
        Option::None => false,
    }
}

/// A mutable borrow of the value at index `i`; the key there is unchanged.
pub fn val_mut<T>(v: &mut Vec<(String, T)>, i: usize) -> (r: &mut T)
    requires
        i < old(v)@.len(),
    ensures
        *r == old(v)@[i as int].1,
        final(v)@ == old(v)@.update(i as int, (old(v)@[i as int].0, *final(r))),
{
    proof {
        assert(old(v)@.update(i as int, (old(v)@[i as int].0, old(v)@[i as int].1)) =~= old(v)@);
    }
    let slot = &mut v[i];
    &mut slot.1
}

/// Two maps with the same keys in the same places are sorted together.
pub proof fn lemma_sorted_same_keys<T>(s0: Seq<(String, T)>, s1: Seq<(String, T)>)
    requires
        keys_sorted(s0),
        s1.len() == s0.len(),
        forall|j: int| 0 <= j < s0.len() ==> #[trigger] s1[j].0 == s0[j].0,
    ensures
        keys_sorted(s1),
{
    assert forall|a: int, b: int| 0 <= a < b < s1.len() implies #[trigger] lex_lt(
        s1[a].0@,
        s1[b].0@,
    ) by {
        assert(lex_lt(s0[a].0@, s0[b].0@));
    }
}

/// Replacing a value in place leaves the key order intact.
pub proof fn lemma_sorted_update<T>(s: Seq<(String, T)>, i: int, x: T)
    requires
        keys_sorted(s),
        0 <= i < s.len(),
    ensures
        keys_sorted(s.update(i, (s[i].0, x))),
{
    let s1 = s.update(i, (s[i].0, x));
    assert forall|a: int, b: int| 0 <= a < b < s1.len() implies #[trigger] lex_lt(
        s1[a].0@,
        s1[b].0@,
    ) by {
        assert(s1[a].0 == s[a].0 && s1[b].0 == s[b].0);
        assert(lex_lt(s[a].0@, s[b].0@));
    }
}

} // verus!
