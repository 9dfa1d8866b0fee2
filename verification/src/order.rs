//! Lexicographic ordering of character sequences (by code point, which is the
//! order the platform's store lists logins and concern names in), and
//! insertion sorts for the listings the renderer consumes.

use vstd::prelude::*;
use vstd::relations::sorted_by;
use vstd::seq_lib::lemma_multiset_commutative;

use crate::model::{FcpConcern, FcpReviewRequest, GitHubUser};

verus! {

/// `a` comes no later than `b` in code-point lexicographic order.
pub open spec fn chars_le(a: Seq<char>, b: Seq<char>) -> bool
    decreases a.len(),
{
    if a.len() == 0 {
        true
    } else if b.len() == 0 {
        false
    } else if (a[0] as u32) < (b[0] as u32) {
        true
    } else if (a[0] as u32) > (b[0] as u32) {
        false
    } else {
        chars_le(a.skip(1), b.skip(1))
    }
}

/// The order is total.
pub proof fn lemma_chars_le_total(a: Seq<char>, b: Seq<char>)
    ensures
        chars_le(a, b) || chars_le(b, a),
    decreases a.len(),
{
    if a.len() > 0 && b.len() > 0 && (a[0] as u32) == (b[0] as u32) {
        lemma_chars_le_total(a.skip(1), b.skip(1));
    }
}

/// The order is transitive.
pub proof fn lemma_chars_le_trans(a: Seq<char>, b: Seq<char>, c: Seq<char>)
    requires
        chars_le(a, b),
        chars_le(b, c),
    ensures
        chars_le(a, c),
    decreases a.len(),
{
    if a.len() > 0 && b.len() > 0 && c.len() > 0 && (a[0] as u32) == (b[0] as u32) && (b[0] as u32)
        == (c[0] as u32) {
        lemma_chars_le_trans(a.skip(1), b.skip(1), c.skip(1));
    }
}

/// Decides [`chars_le`] on strings.
pub fn str_le(a: &str, b: &str) -> (r: bool)
    ensures
        r == chars_le(a@, b@),
{
    let na = a.unicode_len();
    let nb = b.unicode_len();
    let mut i: usize = 0;
    proof {
        assert(a@.skip(0) =~= a@);
        assert(b@.skip(0) =~= b@);
    }
    loop
        invariant
            i <= na,
            i <= nb,
            na == a@.len(),
            nb == b@.len(),
            chars_le(a@, b@) == chars_le(a@.skip(i as int), b@.skip(i as int)),
            chars_le(b@, a@) == chars_le(b@.skip(i as int), a@.skip(i as int)),
        decreases na - i,
    {
        if i >= na {
            return true;
        }
        if i >= nb {
            return false;
        }
        let ca = a.get_char(i);
        let cb = b.get_char(i);
        if ca != cb {
            return (ca as u32) < (cb as u32);
        }
        proof {
            assert(a@.skip(i as int).skip(1) =~= a@.skip(i as int + 1));
            assert(b@.skip(i as int).skip(1) =~= b@.skip(i as int + 1));
        }
        i += 1;
    }
}

/// Inserting at a seam position keeps a sequence sorted.
pub proof fn lemma_sorted_by_insert<A>(s: Seq<A>, k: int, x: A, leq: spec_fn(A, A) -> bool)
    requires
        sorted_by(s, leq),
        0 <= k <= s.len(),
        forall|j: int| 0 <= j < k ==> leq(s[j], x),
        forall|j: int| k <= j < s.len() ==> leq(x, s[j]),
    ensures
        sorted_by(s.insert(k, x), leq),
{
    let t = s.insert(k, x);
    assert forall|i: int, j: int| 0 <= i < j < t.len() implies leq(t[i], t[j]) by {
        assert(forall|m: int| 0 <= m < k ==> t[m] == s[m]);
        assert(t[k] == x);
        assert(forall|m: int| k < m < t.len() ==> t[m] == s[m - 1]);
    }
}

/// Inserting into a sequence inserts into its multiset of elements.
pub proof fn lemma_insert_to_multiset<A>(s: Seq<A>, k: int, x: A)
    requires
        0 <= k <= s.len(),
    ensures
        s.insert(k, x).to_multiset() == s.to_multiset().insert(x),
{
    broadcast use vstd::seq_lib::group_to_multiset_ensures;

    let left = s.subrange(0, k);
    let right = s.subrange(k, s.len() as int);
    lemma_multiset_commutative(left.push(x), right);
    lemma_multiset_commutative(left, right);
    assert(left + right =~= s);
    assert(s.insert(k, x).to_multiset() =~= s.to_multiset().insert(x));
}

/// A symmetric pairwise property (such as key uniqueness) survives filtering.
pub proof fn lemma_filter_pairwise<A>(s: Seq<A>, p: spec_fn(A) -> bool, bad: spec_fn(A, A) -> bool)
    requires
        forall|i: int, j: int| 0 <= i < j < s.len() ==> !bad(s[i], s[j]),
    ensures
        forall|i: int, j: int|
            0 <= i < j < s.filter(p).len() ==> !bad(s.filter(p)[i], s.filter(p)[j]),
    decreases s.len(),
{
    reveal(Seq::filter);
    if s.len() > 0 {
        let dl = s.drop_last();
        assert(forall|i: int| 0 <= i < dl.len() ==> #[trigger] dl[i] == s[i]);
        lemma_filter_pairwise(dl, p, bad);
        let f = s.filter(p);
        let fd = dl.filter(p);
        if p(s.last()) {
            assert forall|i: int, j: int| 0 <= i < j < f.len() implies !bad(f[i], f[j]) by {
                if j < f.len() - 1 {
                    assert(f[i] == fd[i] && f[j] == fd[j]);
                } else {
                    assert(f[i] == fd[i]);
                    assert(fd.contains(fd[i]));
                    dl.lemma_filter_contains_rev(p, fd[i]);
                    let a = dl.lemma_contains_to_index(fd[i]);
                    assert(!bad(s[a], s[s.len() - 1]));
                }
            }
        }
    }
}

/// An elementwise property survives filtering.
pub proof fn lemma_filter_elementwise<A>(s: Seq<A>, p: spec_fn(A) -> bool, prop: spec_fn(A) -> bool)
    requires
        forall|i: int| 0 <= i < s.len() ==> prop(s[i]),
    ensures
        forall|i: int| 0 <= i < s.filter(p).len() ==> prop(s.filter(p)[i]),
{
    assert forall|i: int| 0 <= i < s.filter(p).len() implies prop(s.filter(p)[i]) by {
        assert(s.filter(p).contains(s.filter(p)[i]));
        s.lemma_filter_contains_rev(p, s.filter(p)[i]);
        let a = s.lemma_contains_to_index(s.filter(p)[i]);
        assert(prop(s[a]));
    }
}

/// Filtering by a finer predicate can go through a coarser one first.
pub proof fn lemma_filter_of_filter<A>(s: Seq<A>, a: spec_fn(A) -> bool, b: spec_fn(A) -> bool)
    requires
        forall|e: A| #[trigger] b(e) ==> a(e),
    ensures
        s.filter(a).filter(b) == s.filter(b),
    decreases s.len(),
{
    reveal(Seq::filter);
    if s.len() > 0 {
        lemma_filter_of_filter(s.drop_last(), a, b);
        if a(s.last()) {
            assert(s.filter(a) == s.drop_last().filter(a).push(s.last()));
            assert(s.filter(a).drop_last() =~= s.drop_last().filter(a));
            assert(s.filter(a).last() == s.last());
        }
    }
}

/// Two sequences that agree on every element the predicate keeps have the
/// same filtering.
pub proof fn lemma_filter_congruent<A>(s1: Seq<A>, s2: Seq<A>, p: spec_fn(A) -> bool)
    requires
        s1.len() == s2.len(),
        forall|k: int|
            0 <= k < s1.len() ==> (p(#[trigger] s1[k]) == p(s2[k]) && (p(s1[k]) ==> s1[k]
                == s2[k])),
    ensures
        s1.filter(p) == s2.filter(p),
    decreases s1.len(),
{
    reveal(Seq::filter);
    if s1.len() > 0 {
        assert(forall|k: int| 0 <= k < s1.len() - 1 ==> #[trigger] s1.drop_last()[k] == s1[k]);
        assert(forall|k: int| 0 <= k < s2.len() - 1 ==> #[trigger] s2.drop_last()[k] == s2[k]);
        lemma_filter_congruent(s1.drop_last(), s2.drop_last(), p);
        assert(s1.last() == s1[s1.len() - 1]);
        assert(s2.last() == s2[s2.len() - 1]);
    }
}

/// Two sequences that agree on every element the predicate keeps have the
/// same first match.
pub proof fn lemma_find_congruent<A>(s1: Seq<A>, s2: Seq<A>, p: spec_fn(A) -> bool)
    requires
        s1.len() == s2.len(),
        forall|k: int|
            0 <= k < s1.len() ==> (p(#[trigger] s1[k]) == p(s2[k]) && (p(s1[k]) ==> s1[k]
                == s2[k])),
    ensures
        crate::model::find_idx(s1, p) == crate::model::find_idx(s2, p),
        match crate::model::find_idx(s1, p) {
            Some(i) => 0 <= i < s1.len() && s1[i] == s2[i],
            None => true,
        },
    decreases s1.len(),
{
    crate::model::lemma_find_idx(s1, p);
    crate::model::lemma_find_idx(s2, p);
    if s1.len() > 0 && !p(s1[0]) {
        assert(forall|k: int| 0 <= k < s1.len() - 1 ==> #[trigger] s1.skip(1)[k] == s1[k + 1]);
        assert(forall|k: int| 0 <= k < s2.len() - 1 ==> #[trigger] s2.skip(1)[k] == s2[k + 1]);
        lemma_find_congruent(s1.skip(1), s2.skip(1), p);
    }
}

/// A symmetric, reflexive pairwise property carries across a permutation.
pub proof fn lemma_multiset_pairwise<A>(s1: Seq<A>, s2: Seq<A>, bad: spec_fn(A, A) -> bool)
    requires
        s1.to_multiset() == s2.to_multiset(),
        forall|i: int, j: int| 0 <= i < j < s1.len() ==> !bad(s1[i], s1[j]),
        forall|x: A| #[trigger] bad(x, x),
        forall|x: A, y: A| #[trigger] bad(x, y) == bad(y, x),
    ensures
        forall|i: int, j: int| 0 <= i < j < s2.len() ==> !bad(s2[i], s2[j]),
{
    broadcast use vstd::seq_lib::group_to_multiset_ensures;

    assert forall|i: int, j: int| 0 <= i < j < s2.len() implies !bad(s2[i], s2[j]) by {
        if s2[i] == s2[j] {
            let x = s2[j];
            assert(s2.remove(j).to_multiset() =~= s2.to_multiset().remove(x));
            assert(s2.remove(j)[i] == x);
            assert(s2.remove(j).contains(x));
            assert(s2.to_multiset().remove(x).count(x) > 0);
            assert(s1.to_multiset().count(x) >= 2);
            assert(s1.contains(x));
            let a = s1.lemma_contains_to_index(x);
            assert(s1.remove(a).to_multiset() =~= s1.to_multiset().remove(x));
            assert(s1.remove(a).to_multiset().count(x) > 0);
            assert(s1.remove(a).contains(x));
            let b = s1.remove(a).lemma_contains_to_index(x);
            if b < a {
                assert(s1[b] == x && s1[a] == x);
                assert(!bad(s1[b], s1[a]));
            } else {
                assert(s1[b + 1] == x && s1[a] == x);
                assert(!bad(s1[a], s1[b + 1]));
            }
        } else {
            assert(s2.contains(s2[i]) && s2.contains(s2[j]));
            assert(s1.to_multiset().count(s2[i]) > 0 && s1.to_multiset().count(s2[j]) > 0);
            assert(s1.contains(s2[i]) && s1.contains(s2[j]));
            let a = s1.lemma_contains_to_index(s2[i]);
            let b = s1.lemma_contains_to_index(s2[j]);
            if a < b {
                assert(!bad(s1[a], s1[b]));
            } else {
                assert(!bad(s1[b], s1[a]));
            }
        }
    }
}

/// Logins order the requested member listing.
pub open spec fn user_le(a: GitHubUser, b: GitHubUser) -> bool {
    chars_le(a.login@, b.login@)
}

/// Sorts users by login; the result is the same users, ordered.
pub fn sort_users_by_login(v: Vec<GitHubUser>) -> (r: Vec<GitHubUser>)
    ensures
        sorted_by(r@, |a: GitHubUser, b: GitHubUser| user_le(a, b)),
        r@.to_multiset() == v@.to_multiset(),
{
    let ghost leq = |a: GitHubUser, b: GitHubUser| user_le(a, b);
    let mut out: Vec<GitHubUser> = Vec::new();
    let n = v.len();
    let mut i: usize = 0;
    proof {
        broadcast use vstd::seq_lib::group_to_multiset_ensures;

        assert(v@.take(0) =~= Seq::<GitHubUser>::empty());
        assert(out@.to_multiset() =~= v@.take(0).to_multiset());
    }
    while i < n
        invariant
            i <= n,
            n == v@.len(),
            sorted_by(out@, |a: GitHubUser, b: GitHubUser| user_le(a, b)),
            out@.to_multiset() == v@.take(i as int).to_multiset(),
        decreases n - i,
    {
        let x = v[i].clone();
        let m = out.len();
        let mut k: usize = 0;
        proof {
            assert(x == v@[i as int]);
        }
        while k < m
            invariant
                k <= m,
                m == out@.len(),
                forall|j: int| 0 <= j < k ==> user_le(#[trigger] out@[j], x),
            ensures
                k <= m,
                forall|j: int| 0 <= j < k ==> user_le(#[trigger] out@[j], x),
                k < m ==> !chars_le(out@[k as int].login@, x.login@),
            decreases m - k,
        {
            if !str_le(out[k].login.as_str(), x.login.as_str()) {
                break;
            }
            k += 1;
        }
        proof {
            let lq = |a: GitHubUser, b: GitHubUser| user_le(a, b);
            assert forall|j: int| k <= j < out@.len() implies user_le(x, #[trigger] out@[j]) by {
                lemma_chars_le_total(out@[k as int].login@, x.login@);
                if j > k {
                    assert(lq(out@[k as int], out@[j]));
                    lemma_chars_le_trans(x.login@, out@[k as int].login@, out@[j].login@);
                }
            }
            lemma_sorted_by_insert(out@, k as int, x, lq);
            lemma_insert_to_multiset(out@, k as int, x);
            broadcast use vstd::seq_lib::group_to_multiset_ensures;

            assert(v@.take(i as int).push(v@[i as int]).to_multiset() == v@.take(
                i as int,
            ).to_multiset().insert(v@[i as int]));
            assert(v@.take(i as int).push(v@[i as int]) =~= v@.take(i as int + 1));
        }
        out.insert(k, x);
        i += 1;
    }
    proof {
        assert(v@.take(n as int) =~= v@);
    }
    out
}

/// Requested member listings order by the requested member's login.
pub open spec fn rr_pair_le(a: (GitHubUser, FcpReviewRequest), b: (GitHubUser, FcpReviewRequest)) -> bool {
    chars_le(a.0.login@, b.0.login@)
}

/// Sorts requested member pairs by login; the result is the same pairs, ordered.
pub fn sort_rr_pairs_by_login(v: Vec<(GitHubUser, FcpReviewRequest)>) -> (r: Vec<
    (GitHubUser, FcpReviewRequest),
>)
    ensures
        sorted_by(
            r@,
            |a: (GitHubUser, FcpReviewRequest), b: (GitHubUser, FcpReviewRequest)| rr_pair_le(a, b),
        ),
        r@.to_multiset() == v@.to_multiset(),
{
    let mut out: Vec<(GitHubUser, FcpReviewRequest)> = Vec::new();
    let n = v.len();
    let mut i: usize = 0;
    proof {
        broadcast use vstd::seq_lib::group_to_multiset_ensures;

        assert(v@.take(0) =~= Seq::<(GitHubUser, FcpReviewRequest)>::empty());
        assert(out@.to_multiset() =~= v@.take(0).to_multiset());
    }
    while i < n
        invariant
            i <= n,
            n == v@.len(),
            sorted_by(
                out@,
                |a: (GitHubUser, FcpReviewRequest), b: (GitHubUser, FcpReviewRequest)| rr_pair_le(
                    a,
                    b,
                ),
            ),
            out@.to_multiset() == v@.take(i as int).to_multiset(),
        decreases n - i,
    {
        let x = (v[i].0.clone(), v[i].1);
        let m = out.len();
        let mut k: usize = 0;
        proof {
            assert(x == v@[i as int]);
        }
        while k < m
            invariant
                k <= m,
                m == out@.len(),
                forall|j: int| 0 <= j < k ==> rr_pair_le(#[trigger] out@[j], x),
            ensures
                k <= m,
                forall|j: int| 0 <= j < k ==> rr_pair_le(#[trigger] out@[j], x),
                k < m ==> !chars_le(out@[k as int].0.login@, x.0.login@),
            decreases m - k,
        {
            if !str_le(out[k].0.login.as_str(), x.0.login.as_str()) {
                break;
            }
            k += 1;
        }
        proof {
            let lq = |a: (GitHubUser, FcpReviewRequest), b: (GitHubUser, FcpReviewRequest)|
                rr_pair_le(a, b);
            assert forall|j: int| k <= j < out@.len() implies rr_pair_le(x, #[trigger] out@[j]) by {
                lemma_chars_le_total(out@[k as int].0.login@, x.0.login@);
                if j > k {
                    assert(lq(out@[k as int], out@[j]));
                    lemma_chars_le_trans(x.0.login@, out@[k as int].0.login@, out@[j].0.login@);
                }
            }
            lemma_sorted_by_insert(out@, k as int, x, lq);
            lemma_insert_to_multiset(out@, k as int, x);
            broadcast use vstd::seq_lib::group_to_multiset_ensures;

            assert(v@.take(i as int).push(v@[i as int]).to_multiset() == v@.take(
                i as int,
            ).to_multiset().insert(v@[i as int]));
            assert(v@.take(i as int).push(v@[i as int]) =~= v@.take(i as int + 1));
        }
        out.insert(k, x);
        i += 1;
    }
    proof {
        assert(v@.take(n as int) =~= v@);
    }
    out
}

/// The pair listing is ordered by login.
pub open spec fn sorted_rr_pairs(pairs: Seq<(GitHubUser, FcpReviewRequest)>) -> bool {
    vstd::relations::sorted_by(
        pairs,
        |a: (GitHubUser, FcpReviewRequest), b: (GitHubUser, FcpReviewRequest)| rr_pair_le(a, b),
    )
}

/// Concern listings order by the concern's name.
pub open spec fn concern_pair_le(a: (GitHubUser, FcpConcern), b: (GitHubUser, FcpConcern)) -> bool {
    chars_le(a.1.name@, b.1.name@)
}

/// The concern listing is ordered by name.
pub open spec fn sorted_concern_pairs(pairs: Seq<(GitHubUser, FcpConcern)>) -> bool {
    vstd::relations::sorted_by(
        pairs,
        |a: (GitHubUser, FcpConcern), b: (GitHubUser, FcpConcern)| concern_pair_le(a, b),
    )
}

/// Sorts concern pairs by name; the result is the same pairs, ordered.
pub fn sort_concern_pairs_by_name(v: Vec<(GitHubUser, FcpConcern)>) -> (r: Vec<
    (GitHubUser, FcpConcern),
>)
    ensures
        sorted_by(
            r@,
            |a: (GitHubUser, FcpConcern), b: (GitHubUser, FcpConcern)| concern_pair_le(a, b),
        ),
        r@.to_multiset() == v@.to_multiset(),
{
    let mut out: Vec<(GitHubUser, FcpConcern)> = Vec::new();
    let n = v.len();
    let mut i: usize = 0;
    proof {
        broadcast use vstd::seq_lib::group_to_multiset_ensures;

        assert(v@.take(0) =~= Seq::<(GitHubUser, FcpConcern)>::empty());
        assert(out@.to_multiset() =~= v@.take(0).to_multiset());
    }
    while i < n
        invariant
            i <= n,
            n == v@.len(),
            sorted_by(
                out@,
                |a: (GitHubUser, FcpConcern), b: (GitHubUser, FcpConcern)| concern_pair_le(a, b),
            ),
            out@.to_multiset() == v@.take(i as int).to_multiset(),
        decreases n - i,
    {
        let x = (v[i].0.clone(), v[i].1.clone());
        let m = out.len();
        let mut k: usize = 0;
        proof {
            assert(x == v@[i as int]);
        }
        while k < m
            invariant
                k <= m,
                m == out@.len(),
                forall|j: int| 0 <= j < k ==> concern_pair_le(#[trigger] out@[j], x),
            ensures
                k <= m,
                forall|j: int| 0 <= j < k ==> concern_pair_le(#[trigger] out@[j], x),
                k < m ==> !chars_le(out@[k as int].1.name@, x.1.name@),
            decreases m - k,
        {
            if !str_le(out[k].1.name.as_str(), x.1.name.as_str()) {
                break;
            }
            k += 1;
        }
        proof {
            let lq = |a: (GitHubUser, FcpConcern), b: (GitHubUser, FcpConcern)| concern_pair_le(
                a,
                b,
            );
            assert forall|j: int| k <= j < out@.len() implies concern_pair_le(
                x,
                #[trigger] out@[j],
            ) by {
                lemma_chars_le_total(out@[k as int].1.name@, x.1.name@);
                if j > k {
                    assert(lq(out@[k as int], out@[j]));
                    lemma_chars_le_trans(x.1.name@, out@[k as int].1.name@, out@[j].1.name@);
                }
            }
            lemma_sorted_by_insert(out@, k as int, x, lq);
            lemma_insert_to_multiset(out@, k as int, x);
            broadcast use vstd::seq_lib::group_to_multiset_ensures;

            assert(v@.take(i as int).push(v@[i as int]).to_multiset() == v@.take(
                i as int,
            ).to_multiset().insert(v@[i as int]));
            assert(v@.take(i as int).push(v@[i as int]) =~= v@.take(i as int + 1));
        }
        out.insert(k, x);
        i += 1;
    }
    proof {
        assert(v@.take(n as int) =~= v@);
    }
    out
}

} // verus!
