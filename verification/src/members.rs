//! Channel membership bookkeeping: presence tests, idempotent merging of
//! name lists, removal and renaming (all privilege-prefix aware).

use vstd::prelude::*;
use crate::text::str_eqs;
use crate::text::strip_priv;
use crate::text::eq_stripped;

verus! {

/// Some entry of `s` reads exactly `n`.
pub open spec fn seq_has_str(s: Seq<String>, n: Seq<char>) -> bool {
    exists|i: int| 0 <= i < s.len() && s[i]@ == n
}

/// Whether `nick` is already listed.
pub fn user_listed(users: &Vec<String>, nick: &str) -> (r: bool)
    ensures
        r == seq_has_str(users@, nick@),
{
    let len = users.len();
    let mut i: usize = 0;
    while i < len
        invariant
            0 <= i <= len,
            len == users@.len(),
            forall|j: int| 0 <= j < i ==> users@[j]@ != nick@,
        decreases len - i,
    {
        if str_eqs(users[i].as_str(), nick) {
            assert(users@[i as int]@ == nick@);
            return true;
        }
        i = i + 1;
    }
    false
}

/// `users` with `n` appended unless already present.
pub open spec fn add_absent(users: Seq<String>, n: String) -> Seq<String> {
    if seq_has_str(users, n@) {
        users
    } else {
        users.push(n)
    }
}

/// Adds one name, keeping the list duplicate-free.
pub fn add_user(users: &mut Vec<String>, n: String)
    ensures
        final(users)@ == add_absent(old(users)@, n),
{
    if !user_listed(users, n.as_str()) {
        users.push(n);
    }
}

/// Left-to-right merge of a name list into the membership list.
pub open spec fn merge_names(users: Seq<String>, ns: Seq<String>) -> Seq<String>
    decreases ns.len(),
{
    if ns.len() == 0 {
        users
    } else {
        merge_names(add_absent(users, ns[0]), ns.drop_first())
    }
}

proof fn lemma_merge_push(users: Seq<String>, ns: Seq<String>, x: String)
    ensures
        merge_names(users, ns.push(x)) == add_absent(merge_names(users, ns), x),
    decreases ns.len(),
{
    if ns.len() == 0 {
        assert(ns.push(x)[0] == x);
        assert(ns.push(x).drop_first() =~= ns);
        assert(merge_names(users, ns.push(x)) == merge_names(add_absent(users, x), ns));
    } else {
        assert(ns.push(x)[0] == ns[0]);
        assert(ns.push(x).drop_first() =~= ns.drop_first().push(x));
        lemma_merge_push(add_absent(users, ns[0]), ns.drop_first(), x);
    }
}

/// Merges a (possibly repetitive) name list; each name ends up listed once.
pub fn merge_user_list(users: &mut Vec<String>, ns: &Vec<String>)
    ensures
        final(users)@ == merge_names(old(users)@, ns@),
{
    let ghost u0 = users@;
    let len = ns.len();
    let mut k: usize = 0;
    proof {
        assert(ns@.take(0) =~= Seq::<String>::empty());
    }
    while k < len
        invariant
            0 <= k <= len,
            len == ns@.len(),
            users@ == merge_names(u0, ns@.take(k as int)),
        decreases len - k,
    {
        proof {
            assert(ns@.take(k as int + 1) =~= ns@.take(k as int).push(ns@[k as int]));
            lemma_merge_push(u0, ns@.take(k as int), ns@[k as int]);
        }
        add_user(users, ns[k].clone());
        k = k + 1;
    }
    proof {
        assert(ns@.take(len as int) =~= ns@);
    }
}

/// Merging never loses a listed name.
proof fn lemma_merge_keeps(users: Seq<String>, ns: Seq<String>, x: Seq<char>)
    requires
        seq_has_str(users, x),
    ensures
        seq_has_str(merge_names(users, ns), x),
    decreases ns.len(),
{
    if ns.len() > 0 {
        let i = choose|i: int| 0 <= i < users.len() && users[i]@ == x;
        assert(add_absent(users, ns[0])[i]@ == x);
        lemma_merge_keeps(add_absent(users, ns[0]), ns.drop_first(), x);
    }
}

/// After a merge, every merged name is listed.
proof fn lemma_merge_adds(users: Seq<String>, ns: Seq<String>)
    ensures
        forall|k: int| 0 <= k < ns.len() ==> seq_has_str(merge_names(users, ns), ns[k]@),
    decreases ns.len(),
{
    if ns.len() > 0 {
        let u1 = add_absent(users, ns[0]);
        assert(seq_has_str(u1, ns[0]@)) by {
            if seq_has_str(users, ns[0]@) {
            } else {
                assert(u1[users.len() as int]@ == ns[0]@);
            }
        }
        lemma_merge_keeps(u1, ns.drop_first(), ns[0]@);
        lemma_merge_adds(u1, ns.drop_first());
        assert forall|k: int| 0 <= k < ns.len() implies seq_has_str(
            merge_names(users, ns),
            ns[k]@,
        ) by {
            if k > 0 {
                assert(ns.drop_first()[k - 1] == ns[k]);
            }
        }
    }
}

/// Merging names that are all listed already changes nothing.
proof fn lemma_merge_noop(users: Seq<String>, ns: Seq<String>)
    requires
        forall|k: int| 0 <= k < ns.len() ==> seq_has_str(users, ns[k]@),
    ensures
        merge_names(users, ns) == users,
    decreases ns.len(),
{
    if ns.len() > 0 {
        assert(seq_has_str(users, ns[0]@));
        assert(add_absent(users, ns[0]) == users);
        assert forall|k: int| 0 <= k < ns.drop_first().len() implies seq_has_str(
            users,
            ns.drop_first()[k]@,
        ) by {
            assert(ns.drop_first()[k] == ns[k + 1]);
        }
        lemma_merge_noop(users, ns.drop_first());
    }
}

/// Merging the same name list twice is the same as merging it once: the
/// membership merge is idempotent, so a repeated names reply never
/// duplicates entries.
pub proof fn law_merge_idempotent(users: Seq<String>, ns: Seq<String>)
    ensures
        merge_names(merge_names(users, ns), ns) == merge_names(users, ns),
{
    lemma_merge_adds(users, ns);
    lemma_merge_noop(merge_names(users, ns), ns);
}

/// The membership list with every entry whose stripped form reads `t`
/// removed.
pub open spec fn drop_user(users: Seq<String>, t: Seq<char>) -> Seq<String>
    decreases users.len(),
{
    if users.len() == 0 {
        users
    } else {
        let rest = drop_user(users.drop_first(), t);
        if strip_priv(users[0]@) == t {
            rest
        } else {
            seq![users[0]] + rest
        }
    }
}

/// Removes every entry that, stripped of privilege markers, reads `t`.
pub fn remove_user(users: &mut Vec<String>, t: &str)
    ensures
        final(users)@ == drop_user(old(users)@, t@),
{
    let ghost u0 = users@;
    let len = users.len();
    let mut out: Vec<String> = Vec::new();
    let mut i: usize = 0;
    proof {
        assert(u0.skip(0) =~= u0);
    }
    while i < len
        invariant
            0 <= i <= len,
            len == u0.len(),
            users@ == u0,
            drop_user(u0, t@) == out@ + drop_user(u0.skip(i as int), t@),
        decreases len - i,
    {
        proof {
            assert(u0.skip(i as int)[0] == u0[i as int]);
            assert(u0.skip(i as int).drop_first() =~= u0.skip(i as int + 1));
        }
        if !eq_stripped(users[i].as_str(), t) {
            out.push(users[i].clone());
            proof {
                assert(out@ + drop_user(u0.skip(i as int + 1), t@) =~= out@.drop_last() + (seq![
                    u0[i as int],
                ] + drop_user(u0.skip(i as int + 1), t@)));
            }
        }
        i = i + 1;
    }
    proof {
        assert(u0.skip(len as int) =~= Seq::<String>::empty());
        assert(out@ + drop_user(u0.skip(len as int), t@) =~= out@);
    }
    *users = out;
}

/// Rewrites every entry whose stripped form reads `from` to `to`.
pub fn rename_user(users: &mut Vec<String>, from: &str, to: &String)
    ensures
        final(users)@.len() == old(users)@.len(),
        forall|i: int|
            0 <= i < old(users)@.len() ==> final(users)@[i] == if strip_priv(old(users)@[i]@)
                == from@ {
                *to
            } else {
                old(users)@[i]
            },
{
    let ghost u0 = users@;
    let len = users.len();
    let mut i: usize = 0;
    while i < len
        invariant
            0 <= i <= len,
            len == u0.len(),
            users@.len() == u0.len(),
            forall|j: int|
                0 <= j < i ==> users@[j] == if strip_priv(u0[j]@) == from@ {
                    *to
                } else {
                    u0[j]
                },
            forall|j: int| i <= j < len ==> users@[j] == u0[j],
        decreases len - i,
    {
        if eq_stripped(users[i].as_str(), from) {
            let slot = &mut users[i];
            *slot = to.clone();
        }
        i = i + 1;
    }
}

} // verus!
