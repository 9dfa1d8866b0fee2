//! The platform client's textual helpers: reading the next page's address
//! out of a pagination header, and encoding query parameters. Transport
//! itself lives with the caller; only the text handling is here.

use vstd::prelude::*;
use vstd::string::StringExecFns;

use crate::text::{
    find_char, find_char_from, lemma_find_char_from_scan, str_eq, strip_char_all_end_s,
    strip_char_all_end_str, strip_char_all_s, strip_char_all_str, trim_s, trim_str,
};

verus! {

/// The address one comma-separated link of the header points at, when that
/// link is tagged as the next page: the part before its only semicolon, with
/// angle brackets stripped, provided the part after reads `rel="next"`.
pub open spec fn link_target(segment: Seq<char>) -> Option<Seq<char>> {
    let link = trim_s(segment);
    match find_char(link, ';') {
        None => None,
        Some(i) => {
            let first = trim_s(link.take(i));
            let rest = link.skip(i + 1);
            if find_char(rest, ';') is Some {
                None
            } else if trim_s(rest) == "rel=\"next\""@ {
                Some(strip_char_all_end_s(strip_char_all_s(first, '<'), '>'))
            } else {
                None
            }
        },
    }
}

/// The first link of the header tagged as the next page.
pub open spec fn next_page_s(h: Seq<char>) -> Option<Seq<char>>
    decreases h.len(),
    via next_page_s_decreases
{
    match find_char(h, ',') {
        None => link_target(h),
        Some(i) => match link_target(h.take(i)) {
            Some(u) => Some(u),
            None => next_page_s(h.skip(i + 1)),
        },
    }
}

#[via_fn]
proof fn next_page_s_decreases(h: Seq<char>) {
    crate::text::lemma_find_char(h, ',');
}

/// Reads one segment's next-page target.
fn read_link_target<'a>(segment: &'a str) -> (r: Option<&'a str>)
    ensures
        match r {
            Some(u) => link_target(segment@) == Some(u@),
            None => link_target(segment@) is None,
        },
{
    let link = trim_str(segment);
    let n = link.unicode_len();
    let i = find_char_from(link, ';', 0);
    proof {
        assert(link@.skip(0) =~= link@);
    }
    if i >= n {
        return None;
    }
    let first = trim_str(link.substring_char(0, i));
    let rest = link.substring_char(i + 1, n);
    proof {
        assert(link@.take(i as int) =~= link@.subrange(0, i as int));
        assert(link@.skip(i + 1) =~= link@.subrange(i as int + 1, n as int));
    }
    let j = find_char_from(rest, ';', 0);
    proof {
        assert(rest@.skip(0) =~= rest@);
    }
    if j < rest.unicode_len() {
        return None;
    }
    proof {
        reveal_strlit("rel=\"next\"");
    }
    if str_eq(trim_str(rest), "rel=\"next\"") {
        Some(strip_char_all_end_str(strip_char_all_str(first, '<'), '>'))
    } else {
        None
    }
}

/// Reads the next page's address out of a pagination header value, as the
/// platform tags it.
pub fn next_page(h: &str) -> (r: Option<String>)
    ensures
        match r {
            Some(u) => next_page_s(h@) == Some(u@),
            None => next_page_s(h@) is None,
        },
{
    let n = h.unicode_len();
    let mut lo: usize = 0;
    proof {
        assert(h@.skip(0) =~= h@);
    }
    loop
        invariant
            lo <= n,
            n == h@.len(),
            next_page_s(h@) == next_page_s(h@.skip(lo as int)),
        decreases n - lo,
    {
        let j = find_char_from(h, ',', lo);
        let seg = h.substring_char(lo, j);
        proof {
            lemma_find_char_from_scan(h@.skip(lo as int), ',', j - lo);
            assert(h@.skip(lo as int).take(j - lo) =~= h@.subrange(lo as int, j as int));
            if j < n {
                assert(h@.skip(lo as int).skip(j - lo + 1) =~= h@.skip(j + 1));
            } else {
                assert(h@.skip(lo as int) =~= h@.subrange(lo as int, n as int));
            }
        }
        match read_link_target(seg) {
            Some(u) => {
                return Some(u.to_owned());
            },
            None => {},
        }
        if j >= n {
            return None;
        }
        lo = j + 1;
    }
}

/// One parameter as it appears in a query string.
pub open spec fn qp_item_s(p: (String, String)) -> Seq<char> {
    p.0@ + "="@ + p.1@
}

/// Parameters joined with ampersands, in the given order.
pub open spec fn qp_items_s(ps: Seq<(String, String)>) -> Seq<char>
    decreases ps.len(),
{
    if ps.len() == 0 {
        Seq::empty()
    } else if ps.len() == 1 {
        qp_item_s(ps[0])
    } else {
        qp_items_s(ps.drop_last()) + "&"@ + qp_item_s(ps.last())
    }
}

/// Encodes query parameters in the given order: empty for no parameter set,
/// else a question mark followed by `key=value` pairs joined with ampersands.
pub fn serialize_qp(params: Option<&Vec<(String, String)>>) -> (r: String)
    ensures
        r@ == match params {
            Some(ps) => "?"@ + qp_items_s(ps@),
            None => Seq::<char>::empty(),
        },
{
    match params {
        None => {
            let r = String::new();
            r
        },
        Some(ps) => {
            let mut qp = String::new();
            qp.append("?");
            let ghost head = qp@;
            let n = ps.len();
            let mut i: usize = 0;
            proof {
                assert(ps@.take(0) =~= Seq::<(String, String)>::empty());
                assert(qp@ =~= head + qp_items_s(ps@.take(0)));
            }
            while i < n
                invariant
                    i <= n,
                    n == ps@.len(),
                    head == "?"@,
                    qp@ == head + qp_items_s(ps@.take(i as int)),
                decreases n - i,
            {
                if i > 0 {
                    qp.append("&");
                }
                qp.append(ps[i].0.as_str());
                qp.append("=");
                qp.append(ps[i].1.as_str());
                proof {
                    assert(ps@.take(i as int + 1).drop_last() =~= ps@.take(i as int));
                    assert(ps@.take(i as int + 1).last() == ps@[i as int]);
                    if i == 0 {
                        assert(qp@ =~= head + qp_items_s(ps@.take(1)));
                    } else {
                        assert(qp@ =~= head + qp_items_s(ps@.take(i as int + 1)));
                    }
                }
                i += 1;
            }
            proof {
                assert(ps@.take(n as int) =~= ps@);
            }
            qp
        },
    }
}

} // verus!
