//! Character-level text utilities shared by the command parser, the renderer
//! and the sweep's checkbox reader: whitespace tests, prefix stripping,
//! trimming and tokenizing, each verified against a spec-level twin.

use vstd::prelude::*;

verus! {

/// A whitespace character, as conversational commands use the notion: the
/// Unicode `White_Space` set.
pub open spec fn is_ws(c: char) -> bool {
    c == ' ' || c == '\t' || c == '\n' || c == '\r' || c == '\u{0b}' || c == '\u{0c}'
        || c == '\u{85}' || c == '\u{a0}' || c == '\u{1680}' || c == '\u{2000}'
        || c == '\u{2001}' || c == '\u{2002}' || c == '\u{2003}' || c == '\u{2004}'
        || c == '\u{2005}' || c == '\u{2006}' || c == '\u{2007}' || c == '\u{2008}'
        || c == '\u{2009}' || c == '\u{200a}' || c == '\u{2028}' || c == '\u{2029}'
        || c == '\u{202f}' || c == '\u{205f}' || c == '\u{3000}'
}

/// Decides [`is_ws`] executably.
pub fn is_ws_char(c: char) -> (r: bool)
    ensures
        r == is_ws(c),
{
    c == ' ' || c == '\t' || c == '\n' || c == '\r' || c == '\u{0b}' || c == '\u{0c}'
        || c == '\u{85}' || c == '\u{a0}' || c == '\u{1680}' || c == '\u{2000}'
        || c == '\u{2001}' || c == '\u{2002}' || c == '\u{2003}' || c == '\u{2004}'
        || c == '\u{2005}' || c == '\u{2006}' || c == '\u{2007}' || c == '\u{2008}'
        || c == '\u{2009}' || c == '\u{200a}' || c == '\u{2028}' || c == '\u{2029}'
        || c == '\u{202f}' || c == '\u{205f}' || c == '\u{3000}'
}

/// `p` is a prefix of `s`.
pub open spec fn starts_with_s(s: Seq<char>, p: Seq<char>) -> bool {
    p.len() <= s.len() && s.take(p.len() as int) == p
}

/// `s` without its leading whitespace.
pub open spec fn trim_start_s(s: Seq<char>) -> Seq<char>
    decreases s.len(),
{
    if s.len() > 0 && is_ws(s[0]) {
        trim_start_s(s.skip(1))
    } else {
        s
    }
}

/// `s` without its trailing whitespace.
pub open spec fn trim_end_s(s: Seq<char>) -> Seq<char>
    decreases s.len(),
{
    if s.len() > 0 && is_ws(s[s.len() - 1]) {
        trim_end_s(s.drop_last())
    } else {
        s
    }
}

/// `s` without leading and trailing whitespace.
pub open spec fn trim_s(s: Seq<char>) -> Seq<char> {
    trim_end_s(trim_start_s(s))
}

/// `s` with every leading repetition of the (non-empty) prefix `p` removed.
pub open spec fn strip_prefix_all_s(s: Seq<char>, p: Seq<char>) -> Seq<char>
    decreases s.len(),
{
    if p.len() > 0 && starts_with_s(s, p) {
        strip_prefix_all_s(s.skip(p.len() as int), p)
    } else {
        s
    }
}

/// `s` with every leading occurrence of the character `c` removed.
pub open spec fn strip_char_all_s(s: Seq<char>, c: char) -> Seq<char>
    decreases s.len(),
{
    if s.len() > 0 && s[0] == c {
        strip_char_all_s(s.skip(1), c)
    } else {
        s
    }
}

/// The longest prefix of `s` holding no whitespace.
pub open spec fn head_token(s: Seq<char>) -> Seq<char>
    decreases s.len(),
{
    if s.len() > 0 && !is_ws(s[0]) {
        seq![s[0]] + head_token(s.skip(1))
    } else {
        Seq::empty()
    }
}

/// The first whitespace-separated token of `s` (empty when `s` is blank).
pub open spec fn first_token_s(s: Seq<char>) -> Seq<char> {
    head_token(trim_start_s(s))
}

/// What follows the first token of `s`.
pub open spec fn after_first_token_s(s: Seq<char>) -> Seq<char> {
    trim_start_s(s).skip(first_token_s(s).len() as int)
}

pub proof fn lemma_trim_start_skip(s: Seq<char>, i: int)
    requires
        0 <= i <= s.len(),
        forall|j: int| 0 <= j < i ==> is_ws(s[j]),
        i < s.len() ==> !is_ws(s[i]),
    ensures
        trim_start_s(s) == s.skip(i),
    decreases i,
{
    if i == 0 {
        assert(s.skip(0) =~= s);
    } else {
        lemma_trim_start_skip(s.skip(1), i - 1);
        assert(s.skip(1).skip(i - 1) =~= s.skip(i));
    }
}

pub proof fn lemma_trim_end_take(s: Seq<char>, i: int)
    requires
        0 <= i <= s.len(),
        forall|j: int| i <= j < s.len() ==> is_ws(s[j]),
        i > 0 ==> !is_ws(s[i - 1]),
    ensures
        trim_end_s(s) == s.take(i),
    decreases s.len(),
{
    if i == s.len() {
        assert(s.take(i) =~= s);
    } else {
        lemma_trim_end_take(s.drop_last(), i);
        assert(s.drop_last().take(i) =~= s.take(i));
    }
}

pub proof fn lemma_head_token_take(s: Seq<char>, k: int)
    requires
        0 <= k <= s.len(),
        forall|j: int| 0 <= j < k ==> !is_ws(s[j]),
        k < s.len() ==> is_ws(s[k]),
    ensures
        head_token(s) == s.take(k),
    decreases k,
{
    if k == 0 {
        assert(s.take(0) =~= Seq::<char>::empty());
    } else {
        lemma_head_token_take(s.skip(1), k - 1);
        assert(seq![s[0]] + s.skip(1).take(k - 1) =~= s.take(k));
    }
}

/// The two views are equal exactly when the strings hold the same characters.
pub fn str_eq(a: &str, b: &str) -> (r: bool)
    ensures
        r == (a@ == b@),
{
    let na = a.unicode_len();
    let nb = b.unicode_len();
    if na != nb {
        return false;
    }
    let mut i: usize = 0;
    while i < na
        invariant
            i <= na,
            na == a@.len(),
            na == b@.len(),
            forall|j: int| 0 <= j < i ==> a@[j] == b@[j],
        decreases na - i,
    {
        if a.get_char(i) != b.get_char(i) {
            return false;
        }
        i += 1;
    }
    proof {
        assert(a@ =~= b@);
    }
    true
}

pub fn starts_with_str(s: &str, p: &str) -> (r: bool)
    ensures
        r == starts_with_s(s@, p@),
{
    let np = p.unicode_len();
    let ns = s.unicode_len();
    if np > ns {
        return false;
    }
    let mut i: usize = 0;
    while i < np
        invariant
            i <= np,
            np <= ns,
            np == p@.len(),
            ns == s@.len(),
            forall|j: int| 0 <= j < i ==> s@[j] == p@[j],
        decreases np - i,
    {
        if s.get_char(i) != p.get_char(i) {
            proof {
                assert(s@.take(np as int)[i as int] == s@[i as int]);
            }
            return false;
        }
        i += 1;
    }
    proof {
        assert(s@.take(np as int) =~= p@);
    }
    true
}

pub fn trim_start_str<'a>(s: &'a str) -> (r: &'a str)
    ensures
        r@ == trim_start_s(s@),
{
    let n = s.unicode_len();
    let mut i: usize = 0;
    loop
        invariant
            i <= n,
            n == s@.len(),
            forall|j: int| 0 <= j < i ==> is_ws(s@[j]),
        ensures
            i <= n,
            forall|j: int| 0 <= j < i ==> is_ws(s@[j]),
            i < n ==> !is_ws(s@[i as int]),
        decreases n - i,
    {
        if i >= n {
            break;
        }
        if !is_ws_char(s.get_char(i)) {
            break;
        }
        i += 1;
    }
    proof {
        lemma_trim_start_skip(s@, i as int);
    }
    s.substring_char(i, n)
}

pub fn trim_end_str<'a>(s: &'a str) -> (r: &'a str)
    ensures
        r@ == trim_end_s(s@),
{
    let n = s.unicode_len();
    let mut i: usize = n;
    loop
        invariant
            i <= n,
            n == s@.len(),
            forall|j: int| i <= j < n ==> is_ws(s@[j]),
        ensures
            i <= n,
            forall|j: int| i <= j < n ==> is_ws(s@[j]),
            i > 0 ==> !is_ws(s@[i - 1]),
        decreases i,
    {
        if i == 0 {
            break;
        }
        if !is_ws_char(s.get_char(i - 1)) {
            break;
        }
        i -= 1;
    }
    proof {
        lemma_trim_end_take(s@, i as int);
    }
    s.substring_char(0, i)
}

pub fn trim_str<'a>(s: &'a str) -> (r: &'a str)
    ensures
        r@ == trim_s(s@),
{
    trim_end_str(trim_start_str(s))
}

pub fn strip_prefix_all_str<'a>(s: &'a str, p: &str) -> (r: &'a str)
    ensures
        r@ == strip_prefix_all_s(s@, p@),
{
    let np = p.unicode_len();
    if np == 0 {
        return s;
    }
    let mut cur: &'a str = s;
    loop
        invariant
            np == p@.len(),
            np > 0,
            strip_prefix_all_s(cur@, p@) == strip_prefix_all_s(s@, p@),
        ensures
            strip_prefix_all_s(cur@, p@) == strip_prefix_all_s(s@, p@),
            !starts_with_s(cur@, p@),
        decreases cur@.len(),
    {
        if !starts_with_str(cur, p) {
            break;
        }
        let n = cur.unicode_len();
        proof {
            assert(cur@.skip(np as int) =~= cur@.subrange(np as int, n as int));
        }
        cur = cur.substring_char(np, n);
    }
    cur
}

pub fn strip_char_all_str<'a>(s: &'a str, c: char) -> (r: &'a str)
    ensures
        r@ == strip_char_all_s(s@, c),
{
    let n = s.unicode_len();
    let mut i: usize = 0;
    proof {
        assert(s@.skip(0) =~= s@);
    }
    loop
        invariant
            i <= n,
            n == s@.len(),
            strip_char_all_s(s@.skip(i as int), c) == strip_char_all_s(s@, c),
        ensures
            i <= n,
            strip_char_all_s(s@.skip(i as int), c) == strip_char_all_s(s@, c),
            i < n ==> s@[i as int] != c,
        decreases n - i,
    {
        if i >= n {
            break;
        }
        if s.get_char(i) != c {
            break;
        }
        proof {
            assert(s@.skip(i as int).skip(1) =~= s@.skip(i as int + 1));
        }
        i += 1;
    }
    proof {
        assert(s@.skip(i as int) =~= s@.subrange(i as int, n as int));
    }
    s.substring_char(i, n)
}

/// Splits off the first whitespace-separated token: returns the token and
/// everything after it (which may begin with more whitespace).
pub fn split_first_token<'a>(s: &'a str) -> (r: (&'a str, &'a str))
    ensures
        r.0@ == first_token_s(s@),
        r.1@ == after_first_token_s(s@),
{
    let t = trim_start_str(s);
    let n = t.unicode_len();
    let mut k: usize = 0;
    loop
        invariant
            k <= n,
            n == t@.len(),
            forall|j: int| 0 <= j < k ==> !is_ws(t@[j]),
        ensures
            k <= n,
            forall|j: int| 0 <= j < k ==> !is_ws(t@[j]),
            k < n ==> is_ws(t@[k as int]),
        decreases n - k,
    {
        if k >= n {
            break;
        }
        if is_ws_char(t.get_char(k)) {
            break;
        }
        k += 1;
    }
    proof {
        lemma_head_token_take(t@, k as int);
        assert(t@.take(k as int) =~= t@.subrange(0, k as int));
        assert(t@.skip(k as int) =~= t@.subrange(k as int, n as int));
    }
    (t.substring_char(0, k), t.substring_char(k, n))
}


/// Index of the first occurrence of `c` in `s`, if any.
pub open spec fn find_char(s: Seq<char>, c: char) -> Option<int>
    decreases s.len(),
{
    if s.len() == 0 {
        None
    } else if s[0] == c {
        Some(0int)
    } else {
        match find_char(s.skip(1), c) {
            None => None,
            Some(j) => Some(j + 1),
        }
    }
}

pub proof fn lemma_find_char(s: Seq<char>, c: char)
    ensures
        match find_char(s, c) {
            Some(i) => 0 <= i < s.len() && s[i] == c && forall|j: int| 0 <= j < i ==> s[j] != c,
            None => forall|j: int| 0 <= j < s.len() ==> s[j] != c,
        },
    decreases s.len(),
{
    if s.len() > 0 && s[0] != c {
        lemma_find_char(s.skip(1), c);
        match find_char(s.skip(1), c) {
            None => {
                assert forall|j: int| 0 <= j < s.len() implies s[j] != c by {
                    if j >= 1 {
                        assert(s[j] == s.skip(1)[j - 1]);
                    }
                }
            },
            Some(i) => {
                assert(s[i + 1] == s.skip(1)[i]);
                assert forall|j: int| 0 <= j < i + 1 implies s[j] != c by {
                    if j >= 1 {
                        assert(s[j] == s.skip(1)[j - 1]);
                    }
                }
            },
        }
    }
}

/// `find_char` follows from a left-to-right scan that stopped at `j`.
pub proof fn lemma_find_char_from_scan(s: Seq<char>, c: char, j: int)
    requires
        0 <= j <= s.len(),
        forall|k: int| 0 <= k < j ==> s[k] != c,
        j < s.len() ==> s[j] == c,
    ensures
        find_char(s, c) == if j < s.len() {
            Some(j)
        } else {
            None::<int>
        },
    decreases j,
{
    if s.len() > 0 && s[0] != c {
        lemma_find_char_from_scan(s.skip(1), c, j - 1);
    }
}

/// Finds the first occurrence of `c` at or after position `from`.
pub fn find_char_from(s: &str, c: char, from: usize) -> (r: usize)
    requires
        from <= s@.len(),
    ensures
        from <= r <= s@.len(),
        forall|k: int| from <= k < r ==> s@[k] != c,
        r < s@.len() ==> s@[r as int] == c,
        find_char(s@.skip(from as int), c) == if r < s@.len() {
            Some(r - from)
        } else {
            None::<int>
        },
{
    let n = s.unicode_len();
    let mut j: usize = from;
    loop
        invariant
            from <= j <= n,
            n == s@.len(),
            forall|k: int| from <= k < j ==> s@[k] != c,
        ensures
            from <= j <= n,
            forall|k: int| from <= k < j ==> s@[k] != c,
            j < n ==> s@[j as int] == c,
        decreases n - j,
    {
        if j >= n {
            break;
        }
        if s.get_char(j) == c {
            break;
        }
        j += 1;
    }
    proof {
        lemma_find_char_from_scan(s@.skip(from as int), c, j - from);
    }
    j
}

/// `s` with every trailing occurrence of the character `c` removed.
pub open spec fn strip_char_all_end_s(s: Seq<char>, c: char) -> Seq<char>
    decreases s.len(),
{
    if s.len() > 0 && s[s.len() - 1] == c {
        strip_char_all_end_s(s.drop_last(), c)
    } else {
        s
    }
}

pub fn strip_char_all_end_str<'a>(s: &'a str, c: char) -> (r: &'a str)
    ensures
        r@ == strip_char_all_end_s(s@, c),
{
    let n = s.unicode_len();
    let mut i: usize = n;
    proof {
        assert(s@.take(n as int) =~= s@);
    }
    loop
        invariant
            i <= n,
            n == s@.len(),
            strip_char_all_end_s(s@.take(i as int), c) == strip_char_all_end_s(s@, c),
        ensures
            i <= n,
            strip_char_all_end_s(s@.take(i as int), c) == strip_char_all_end_s(s@, c),
            i > 0 ==> s@[i - 1] != c,
        decreases i,
    {
        if i == 0 {
            break;
        }
        if s.get_char(i - 1) != c {
            break;
        }
        proof {
            assert(s@.take(i as int).drop_last() =~= s@.take(i as int - 1));
        }
        i -= 1;
    }
    proof {
        assert(s@.take(i as int) =~= s@.subrange(0, i as int));
    }
    s.substring_char(0, i)
}

} // verus!

