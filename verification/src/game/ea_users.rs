//! The list of EA Desktop users: which `nuchash` an INI file goes with, and
//! the order the users are given in (by id).

use crate::game::ea::pairs_view;
use crate::game::ea_logs::EaDesktopUser;
use crate::text::{chars_of, str_eq};
use vstd::prelude::*;

verus! {

broadcast use vstd::string::group_string_axioms;

/// `a < b` as `String`s compare: character by character (UTF-8 byte order
/// is code point order), a proper prefix first.
pub open spec fn seq_lt(a: Seq<char>, b: Seq<char>) -> bool
    decreases a.len(),
{
    if a.len() == 0 {
        b.len() > 0
    } else if b.len() == 0 {
        false
    } else if a[0] != b[0] {
        a[0] < b[0]
    } else {
        seq_lt(a.drop_first(), b.drop_first())
    }
}

pub proof fn lemma_seq_lt_trans(a: Seq<char>, b: Seq<char>, c: Seq<char>)
    requires
        seq_lt(a, b),
        seq_lt(b, c),
    ensures
        seq_lt(a, c),
    decreases a.len(),
{
    if a.len() > 0 && b.len() > 0 && c.len() > 0 && a[0] == b[0] && b[0] == c[0] {
        lemma_seq_lt_trans(a.drop_first(), b.drop_first(), c.drop_first());
    }
}

pub proof fn lemma_seq_lt_asym(a: Seq<char>, b: Seq<char>)
    requires
        seq_lt(a, b),
    ensures
        !seq_lt(b, a),
    decreases a.len(),
{
    if a.len() > 0 && b.len() > 0 && a[0] == b[0] {
        lemma_seq_lt_asym(a.drop_first(), b.drop_first());
    }
}

/// `a < b` for strings.
pub fn str_lt(a: &str, b: &str) -> (r: bool)
    ensures
        r == seq_lt(a@, b@),
{
    let av = chars_of(a);
    let bv = chars_of(b);
    let mut i: usize = 0;
    assert(a@.skip(0) =~= a@ && b@.skip(0) =~= b@);
    while i < av.len() && i < bv.len() && av[i] == bv[i]
        invariant
            av@ == a@,
            bv@ == b@,
            i <= av@.len(),
            i <= bv@.len(),
            seq_lt(a@, b@) == seq_lt(a@.skip(i as int), b@.skip(i as int)),
        decreases av@.len() - i,
    {
        proof {
            assert(a@.skip(i as int)[0] == av@[i as int]);
            assert(b@.skip(i as int)[0] == bv@[i as int]);
            assert(a@.skip(i as int).drop_first() =~= a@.skip(i + 1));
            assert(b@.skip(i as int).drop_first() =~= b@.skip(i + 1));
        }
        i = i + 1;
    }
    if i == av.len() {
        return i < bv.len();
    }
    if i == bv.len() {
        return false;
    }
    proof {
        assert(a@.skip(i as int)[0] == av@[i as int]);
        assert(b@.skip(i as int)[0] == bv@[i as int]);
    }
    av[i] < bv[i]
}

/// Users in ascending order of id.
pub open spec fn sorted_by_id(us: Seq<EaDesktopUser>) -> bool {
    forall|i: int, j: int| 0 <= i < j < us.len() ==> !seq_lt(#[trigger] us[j].id@, #[trigger] us[i].id@)
}

/// Puts the users in ascending order of id (the same users, reordered).
pub fn order_users(users: &mut Vec<EaDesktopUser>)
    ensures
        final(users)@.to_multiset() == old(users)@.to_multiset(),
        sorted_by_id(final(users)@),
{
    broadcast use vstd::seq_lib::group_to_multiset_ensures;
    broadcast use vstd::multiset::group_multiset_axioms;
    let ghost all = users@.to_multiset();
    let mut out: Vec<EaDesktopUser> = Vec::new();
    assert(out@.to_multiset() =~= vstd::multiset::Multiset::<EaDesktopUser>::empty());
    assert(out@.to_multiset().add(users@.to_multiset()) =~= all);
    while users.len() > 0
        invariant
            sorted_by_id(out@),
            out@.to_multiset().add(users@.to_multiset()) == all,
            all == old(users)@.to_multiset(),
        decreases users.len(),
    {
        let ghost before = users@;
        let u = users.pop().unwrap();
        assert(before =~= users@.push(u));
        let mut k: usize = 0;
        while k < out.len() && !str_lt(u.id.as_str(), out[k].id.as_str())
            invariant
                k <= out@.len(),
                forall|j: int| 0 <= j < k ==> !seq_lt(u.id@, #[trigger] out@[j].id@),
            decreases out@.len() - k,
        {
            k = k + 1;
        }
        let ghost prev = out@;
        out.insert(k, u);
        proof {
            assert(out@ == prev.insert(k as int, u));
            assert forall|i: int, j: int| 0 <= i < j < out@.len() implies !seq_lt(
                #[trigger] out@[j].id@,
                #[trigger] out@[i].id@,
            ) by {
                if j < k {
                    assert(out@[i] == prev[i] && out@[j] == prev[j]);
                } else if j == k {
                    assert(out@[i] == prev[i]);
                } else if i == k {
                    assert(out@[j] == prev[j - 1]);
                    // u < prev[k] <= prev[j - 1]
                    if seq_lt(prev[j - 1].id@, u.id@) {
                        assert(k < prev.len());
                        if j - 1 > k {
                            if seq_lt(u.id@, prev[k as int].id@) {
                                lemma_seq_lt_trans(prev[j - 1].id@, u.id@, prev[k as int].id@);
                                assert(!seq_lt(prev[j - 1].id@, prev[k as int].id@));
                            }
                        } else {
                            lemma_seq_lt_asym(u.id@, prev[k as int].id@);
                        }
                    }
                } else if i < k {
                    assert(out@[i] == prev[i] && out@[j] == prev[j - 1]);
                } else {
                    assert(out@[i] == prev[i - 1] && out@[j] == prev[j - 1]);
                }
            }
            vstd::seq_lib::to_multiset_insert(prev, k as int, u);
            vstd::seq_lib::to_multiset_build(users@, u);
            assert(out@.to_multiset() == prev.to_multiset().insert(u));
            assert(before.to_multiset() == users@.to_multiset().insert(u));
            assert(out@.to_multiset().add(users@.to_multiset()) =~= prev.to_multiset().add(before.to_multiset()));
        }
    }
    assert(users@.to_multiset() =~= vstd::multiset::Multiset::<EaDesktopUser>::empty());
    assert(out@.to_multiset() =~= all);
    *users = out;
}

/// The `nuchash` paired with INI id `id`: that of the last pair naming it,
/// or empty when none does.
pub open spec fn hash_of_ini(ps: Seq<(Seq<char>, Seq<char>)>, id: Seq<char>) -> Seq<char>
    decreases ps.len(),
{
    if ps.len() == 0 {
        seq![]
    } else if ps.last().1 == id {
        ps.last().0
    } else {
        hash_of_ini(ps.drop_last(), id)
    }
}

/// The `nuchash` that the `(nuchash, INI id)` pairs of the log give INI
/// file `ini_id`, or the empty string.
pub fn nuchash_for_ini(pairs: &Vec<(String, String)>, ini_id: &str) -> (r: String)
    ensures
        r@ == hash_of_ini(pairs_view(pairs@), ini_id@),
{
    let ghost pv = pairs_view(pairs@);
    let mut k = pairs.len();
    assert(pv.take(k as int) =~= pv);
    while k > 0
        invariant
            k <= pairs@.len(),
            pv == pairs_view(pairs@),
            hash_of_ini(pv, ini_id@) == hash_of_ini(pv.take(k as int), ini_id@),
        decreases k,
    {
        assert(pv.take(k as int).last() == (pairs@[k - 1].0@, pairs@[k - 1].1@));
        assert(pv.take(k as int).drop_last() =~= pv.take(k - 1));
        if str_eq(pairs[k - 1].1.as_str(), ini_id) {
            return pairs[k - 1].0.clone();
        }
        k = k - 1;
    }
    String::new()
}

} // verus!
