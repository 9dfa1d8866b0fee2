//! The reconciliation sweep: re-deriving requested member sign-off from manual edits
//! of the bot's own tracking comment, recomputing active counts, starting the
//! waiting period once nothing blocks, and closing proposals whose period has
//! run out. Failures are isolated per proposal: a row that cannot be read
//! skips that proposal and the sweep moves on.

use vstd::prelude::*;

use crate::command::{find_nl, lemma_find_nl_from_scan};
use crate::machine::{
    cancel_fcp, comment_body_of, concern_author_of, concerns_of, fb_of, idx_or_zero, issue_of,
    list_concerns_with_authors, list_review_requests, proposal_of, reviewer_of, rrs_of, user_of,
};
use crate::model::{
    comment_idx, issue_idx, lemma_find_idx, lemma_proposal_exists, lemma_rr_exists, proposal_idx,
    rr_idx, user_idx, user_login_idx, BotError, CommentTarget, Effect, FcpConcern, FcpProposal,
    FcpReviewRequest, FeedbackRequest, GitHubUser, Issue, IssueComment, Store,
};
use crate::order::{lemma_filter_congruent, lemma_filter_of_filter, lemma_find_congruent};
use crate::render::{
    cancellation_body_s, fcp_complete_body, fcp_complete_body_s, plan_comment, proposal_body,
};
use crate::text::{
    first_token_s, split_first_token, starts_with_s, starts_with_str, str_eq, strip_prefix_all_s,
    strip_prefix_all_str,
};
use crate::FCP_WINDOW_SECS;

verus! {

/// The login a checked checkbox line approves: the line opens with the
/// rendered checkbox marker, its box is checked, and a username follows.
/// Unchecked lines yield nothing, so a manual un-check never clears a
/// recorded review.
pub open spec fn checkbox_line_user(line: Seq<char>) -> Option<Seq<char>> {
    if starts_with_s(line, "* ["@) {
        let l = strip_prefix_all_s(line, "* ["@);
        if l.len() > 0 && l[0] == 'x' {
            let rest = strip_prefix_all_s(strip_prefix_all_s(l, "x] @"@), " ] @"@);
            let tok = first_token_s(rest);
            if tok.len() == 0 {
                None
            } else {
                Some(tok)
            }
        } else {
            None
        }
    } else {
        None
    }
}

/// The logins of all checked checkbox lines of a comment body, in line order.
pub open spec fn checked_logins(body: Seq<char>) -> Seq<Seq<char>>
    decreases body.len(),
    via checked_logins_decreases
{
    match find_nl(body) {
        None => match checkbox_line_user(body) {
            Some(u) => seq![u],
            None => Seq::empty(),
        },
        Some(i) => (match checkbox_line_user(body.take(i)) {
            Some(u) => seq![u],
            None => Seq::empty(),
        }) + checked_logins(body.skip(i + 1)),
    }
}

#[via_fn]
proof fn checked_logins_decreases(body: Seq<char>) {
    crate::command::lemma_find_nl(body);
}

/// Reads one line's checked approval, if any.
fn read_checkbox_line<'a>(line: &'a str) -> (r: Option<&'a str>)
    ensures
        match r {
            Some(u) => checkbox_line_user(line@) == Some(u@),
            None => checkbox_line_user(line@) is None,
        },
{
    if !starts_with_str(line, "* [") {
        return None;
    }
    let l = strip_prefix_all_str(line, "* [");
    let nl = l.unicode_len();
    if nl == 0 || l.get_char(0) != 'x' {
        return None;
    }
    let rest = strip_prefix_all_str(strip_prefix_all_str(l, "x] @"), " ] @");
    let (tok, _tail) = split_first_token(rest);
    if tok.unicode_len() == 0 {
        None
    } else {
        Some(tok)
    }
}

/// Collects the checked logins of a body, line by line.
fn collect_checked_logins<'a>(body: &'a str) -> (r: Vec<&'a str>)
    ensures
        r@.map_values(|s: &str| s@) == checked_logins(body@),
{
    let ghost vw = |s: &str| s@;
    let mut out: Vec<&'a str> = Vec::new();
    let n = body.unicode_len();
    let mut lo: usize = 0;
    proof {
        assert(body@.skip(0) =~= body@);
        assert(out@.map_values(vw) =~= Seq::<Seq<char>>::empty());
    }
    loop
        invariant
            lo <= n,
            n == body@.len(),
            checked_logins(body@) == out@.map_values(|s: &str| s@) + checked_logins(
                body@.skip(lo as int),
            ),
        decreases n - lo,
    {
        let mut j: usize = lo;
        loop
            invariant
                lo <= j <= n,
                n == body@.len(),
                forall|k: int| lo <= k < j ==> body@[k] != '\n',
            ensures
                lo <= j <= n,
                forall|k: int| lo <= k < j ==> body@[k] != '\n',
                j < n ==> body@[j as int] == '\n',
            decreases n - j,
        {
            if j >= n {
                break;
            }
            if body.get_char(j) == '\n' {
                break;
            }
            j += 1;
        }
        let line = body.substring_char(lo, j);
        proof {
            lemma_find_nl_from_scan(body@.skip(lo as int), j - lo);
            assert(body@.skip(lo as int).take(j - lo) =~= body@.subrange(lo as int, j as int));
            if j < n {
                assert(body@.skip(lo as int).skip(j - lo + 1) =~= body@.skip(j + 1));
            } else {
                assert(body@.skip(lo as int) =~= body@.subrange(lo as int, n as int));
            }
        }
        let found = read_checkbox_line(line);
        match found {
            Some(u) => {
                out.push(u);
                proof {
                    let vv = |s: &str| s@;
                    assert(out@.map_values(vv) =~= out@.drop_last().map_values(vv).push(u@));
                    if j < n {
                        assert((out@.drop_last().map_values(vv) + seq![u@]) + checked_logins(
                            body@.skip(j + 1),
                        ) =~= out@.map_values(vv) + checked_logins(body@.skip(j + 1)));
                    } else {
                        assert(checked_logins(body@.skip(lo as int)) == seq![u@]);
                        assert(out@.drop_last().map_values(vv) + seq![u@] =~= out@.map_values(vv));
                    }
                }
            },
            None => {
                proof {
                    let vv = |s: &str| s@;
                    if j < n {
                        assert(checked_logins(body@.skip(lo as int)) == Seq::<Seq<char>>::empty()
                            + checked_logins(body@.skip(j + 1)));
                        assert(Seq::<Seq<char>>::empty() + checked_logins(body@.skip(j + 1))
                            =~= checked_logins(body@.skip(j + 1)));
                    } else {
                        assert(checked_logins(body@.skip(lo as int)) =~= Seq::<Seq<char>>::empty());
                    }
                }
            },
        }
        if j >= n {
            proof {
                assert(checked_logins(body@.skip(n as int)) =~= Seq::<Seq<char>>::empty());
                assert(out@.map_values(|s: &str| s@) + Seq::<Seq<char>>::empty() =~= out@.map_values(
                    |s: &str| s@,
                ));
            }
            return out;
        }
        lo = j + 1;
    }
}

/// The login resolves on the roster to the user with this id.
pub open spec fn login_resolves_to(users: Seq<GitHubUser>, login: Seq<char>, uid: i64) -> bool {
    match user_login_idx(users, login) {
        Some(u) => users[u].id == uid,
        None => false,
    }
}

/// Some checked login of the body approves this requested member.
pub open spec fn checked_approves(
    users: Seq<GitHubUser>,
    body: Seq<char>,
    uid: i64,
) -> bool {
    exists|t: int|
        0 <= t < checked_logins(body).len() && login_resolves_to(
            users,
            #[trigger] checked_logins(body)[t],
            uid,
        )
}

/// Every checked login of the body resolves on the roster and has a review
/// request row for this proposal: the re-derivation then succeeds.
pub open spec fn rederivable(st: Store, pid: i64, body: Seq<char>) -> bool {
    forall|t: int|
        0 <= t < checked_logins(body).len() ==> match user_login_idx(
            st.users@,
            #[trigger] checked_logins(body)[t],
        ) {
            Some(u) => rr_idx(st.review_requests@, pid, st.users@[u].id) is Some,
            None => false,
        }
}

/// Re-derives requested member state from the bot's current tracking-comment text:
/// a checked checkbox line sets that requested member's flag, an unchecked line never
/// clears one (manual approval is honored monotonically). Nothing changes
/// once the waiting period is running or over. A checked login that cannot
/// be matched to a requested member fails the proposal's sweep turn, with the rows
/// already marked left marked, as the store applies each row update on its
/// own.
pub fn update_proposal_review_status(st: &mut Store, proposal_id: i64) -> (r: Result<
    (),
    BotError,
>)
    requires
        old(st).wf(),
    ensures
        final(st).wf(),
        final(st).users == old(st).users,
        final(st).issues == old(st).issues,
        final(st).comments == old(st).comments,
        final(st).proposals == old(st).proposals,
        final(st).concerns == old(st).concerns,
        final(st).feedback_requests == old(st).feedback_requests,
        final(st).teams == old(st).teams,
        final(st).memberships == old(st).memberships,
        final(st).review_requests@.len() == old(st).review_requests@.len(),
        forall|k: int|
            0 <= k < old(st).review_requests@.len() ==> {
                let o = #[trigger] old(st).review_requests@[k];
                let f = final(st).review_requests@[k];
                f.fk_proposal == o.fk_proposal && f.fk_reviewer == o.fk_reviewer && (o.reviewed
                    ==> f.reviewed)
            },
        (crate::model::proposal_idx(old(st).proposals@, proposal_id) matches Some(pi)
            && (old(st).proposals@[pi].fcp_start is Some || old(st).proposals@[pi].fcp_closed))
            ==> final(st).review_requests == old(st).review_requests,
        match r {
            Ok(_) => {
                let p = crate::model::proposal_idx(old(st).proposals@, proposal_id);
                &&& p is Some
                &&& {
                    ||| (old(st).proposals@[crate::machine::idx_or_zero(p)].fcp_start is Some
                        || old(st).proposals@[crate::machine::idx_or_zero(p)].fcp_closed) && final(st).review_requests == old(st).review_requests
                    ||| (old(st).proposals@[crate::machine::idx_or_zero(p)].fcp_start is None && !old(st).proposals@[crate::machine::idx_or_zero(p)].fcp_closed && comment_idx(
                        old(st).comments@,
                        old(st).proposals@[crate::machine::idx_or_zero(p)].fk_bot_tracking_comment,
                    ) is Some && rederivable(
                        *old(st),
                        proposal_id,
                        crate::machine::comment_body_of(
                            *old(st),
                            old(st).proposals@[crate::machine::idx_or_zero(
                                p,
                            )].fk_bot_tracking_comment,
                        ),
                    ) && forall|k: int|
                        0 <= k < old(st).review_requests@.len() ==> {
                            let o = #[trigger] old(st).review_requests@[k];
                            final(st).review_requests@[k].reviewed <==> o.reviewed || (o.fk_proposal
                                == proposal_id && checked_approves(
                                old(st).users@,
                                crate::machine::comment_body_of(
                                    *old(st),
                                    old(st).proposals@[crate::machine::idx_or_zero(
                                        p,
                                    )].fk_bot_tracking_comment,
                                ),
                                o.fk_reviewer,
                            ))
                        })
                }
            },
            Err(e) => {
                &&& (e == BotError::ProposalNotFound || e == BotError::CommentNotFound || e
                    == BotError::UserNotFound || e == BotError::ReviewRequestNotFound)
                &&& (e == BotError::ProposalNotFound <==> crate::model::proposal_idx(
                    old(st).proposals@,
                    proposal_id,
                ) is None)
                &&& (e == BotError::CommentNotFound ==> comment_idx(
                    old(st).comments@,
                    old(st).proposals@[crate::machine::idx_or_zero(
                        crate::model::proposal_idx(old(st).proposals@, proposal_id),
                    )].fk_bot_tracking_comment,
                ) is None)
                &&& ((e == BotError::UserNotFound || e == BotError::ReviewRequestNotFound)
                    ==> !rederivable(
                    *old(st),
                    proposal_id,
                    crate::machine::comment_body_of(
                        *old(st),
                        old(st).proposals@[crate::machine::idx_or_zero(
                            crate::model::proposal_idx(old(st).proposals@, proposal_id),
                        )].fk_bot_tracking_comment,
                    ),
                ))
                &&& forall|k: int|
                    0 <= k < old(st).review_requests@.len() ==> {
                        let o = #[trigger] old(st).review_requests@[k];
                        final(st).review_requests@[k].reviewed ==> o.reviewed || (o.fk_proposal
                            == proposal_id && checked_approves(
                            old(st).users@,
                            crate::machine::comment_body_of(
                                *old(st),
                                old(st).proposals@[crate::machine::idx_or_zero(
                                    crate::model::proposal_idx(old(st).proposals@, proposal_id),
                                )].fk_bot_tracking_comment,
                            ),
                            o.fk_reviewer,
                        ))
                    }
            },
        },
{
    let pi = match st.proposal_pos(proposal_id) {
        Some(pi) => pi,
        None => {
            return Err(BotError::ProposalNotFound);
        },
    };
    let proposal = st.proposals[pi];
    if proposal.fcp_start.is_some() || proposal.fcp_closed {
        return Ok(());
    }
    let ci = match st.comment_pos(proposal.fk_bot_tracking_comment) {
        Some(ci) => ci,
        None => {
            return Err(BotError::CommentNotFound);
        },
    };
    let ghost body_view = st.comments@[ci as int].body@;
    let logins = collect_checked_logins(st.comments[ci].body.as_str());
    let nl = logins.len();
    let mut t: usize = 0;
    while t < nl
        invariant
            t <= nl,
            nl == logins@.len(),
            logins@.map_values(|s: &str| s@) == checked_logins(body_view),
            crate::model::proposal_idx(old(st).proposals@, proposal_id) is Some,
            old(st).proposals@[crate::machine::idx_or_zero(
                crate::model::proposal_idx(old(st).proposals@, proposal_id),
            )].fcp_start is None,
            !old(st).proposals@[crate::machine::idx_or_zero(
                crate::model::proposal_idx(old(st).proposals@, proposal_id),
            )].fcp_closed,
            comment_idx(
                old(st).comments@,
                old(st).proposals@[crate::machine::idx_or_zero(
                    crate::model::proposal_idx(old(st).proposals@, proposal_id),
                )].fk_bot_tracking_comment,
            ) is Some,
            body_view == crate::machine::comment_body_of(
                *old(st),
                old(st).proposals@[crate::machine::idx_or_zero(
                    crate::model::proposal_idx(old(st).proposals@, proposal_id),
                )].fk_bot_tracking_comment,
            ),
            st.wf(),
            st.users == old(st).users,
            st.issues == old(st).issues,
            st.comments == old(st).comments,
            st.proposals == old(st).proposals,
            st.concerns == old(st).concerns,
            st.feedback_requests == old(st).feedback_requests,
            st.teams == old(st).teams,
            st.memberships == old(st).memberships,
            st.review_requests@.len() == old(st).review_requests@.len(),
            forall|k: int|
                0 <= k < old(st).review_requests@.len() ==> {
                    let o = #[trigger] old(st).review_requests@[k];
                    let f = st.review_requests@[k];
                    f.fk_proposal == o.fk_proposal && f.fk_reviewer == o.fk_reviewer && (f.reviewed
                        <==> o.reviewed || (o.fk_proposal == proposal_id && exists|q: int|
                        0 <= q < t && login_resolves_to(
                            old(st).users@,
                            #[trigger] checked_logins(body_view)[q],
                            o.fk_reviewer,
                        )))
                },
            forall|q: int|
                0 <= q < t ==> match user_login_idx(
                    old(st).users@,
                    #[trigger] checked_logins(body_view)[q],
                ) {
                    Some(u) => rr_idx(
                        old(st).review_requests@,
                        proposal_id,
                        old(st).users@[u].id,
                    ) is Some,
                    None => false,
                },
        decreases nl - t,
    {
        let uid = match st.user_pos_by_login(logins[t]) {
            Some(u) => st.users[u].id,
            None => {
                proof {
                    assert(logins@.map_values(|s: &str| s@)[t as int] == logins@[t as int]@);
                    lemma_monotone_to_partial(*old(st), *st, proposal_id, body_view, t as int);
                }
                return Err(BotError::UserNotFound);
            },
        };
        match st.rr_pos(proposal_id, uid) {
            Some(ri) => {
                let mut row = st.review_requests[ri];
                row.reviewed = true;
                *vstd::std_specs::vec::vec_index_mut(&mut st.review_requests, ri) = row;
                proof {
                    assert(logins@.map_values(|s: &str| s@)[t as int] == logins@[t as int]@);
                    assert(st.review_requests@[ri as int].fk_proposal == proposal_id
                        && st.review_requests@[ri as int].fk_reviewer == uid);
                    crate::model::lemma_rr_exists(st.review_requests@, proposal_id, uid);
                    crate::model::lemma_find_idx_congruent(
                        old(st).review_requests@,
                        st.review_requests@,
                        |r: FcpReviewRequest| r.fk_proposal == proposal_id && r.fk_reviewer == uid,
                    );
                    assert forall|k: int|
                        0 <= k < old(st).review_requests@.len() implies {
                        let o = #[trigger] old(st).review_requests@[k];
                        let f = st.review_requests@[k];
                        f.fk_proposal == o.fk_proposal && f.fk_reviewer == o.fk_reviewer && (
                        f.reviewed <==> o.reviewed || (o.fk_proposal == proposal_id && exists|
                            q: int,
                        |
                            0 <= q < t + 1 && login_resolves_to(
                                old(st).users@,
                                #[trigger] checked_logins(body_view)[q],
                                o.fk_reviewer,
                            )))
                    } by {
                        let o = old(st).review_requests@[k];
                        if k == ri {
                            assert(login_resolves_to(
                                old(st).users@,
                                checked_logins(body_view)[t as int],
                                o.fk_reviewer,
                            ));
                        } else {
                            if st.review_requests@[k].reviewed {
                                assert(o.reviewed || (o.fk_proposal == proposal_id && exists|
                                    q: int,
                                |
                                    0 <= q < t && login_resolves_to(
                                        old(st).users@,
                                        #[trigger] checked_logins(body_view)[q],
                                        o.fk_reviewer,
                                    )));
                            }
                            if o.fk_proposal == proposal_id && exists|q: int|
                                0 <= q < t + 1 && login_resolves_to(
                                    old(st).users@,
                                    #[trigger] checked_logins(body_view)[q],
                                    o.fk_reviewer,
                                ) {
                                let q = choose|q: int|
                                    0 <= q < t + 1 && login_resolves_to(
                                        old(st).users@,
                                        #[trigger] checked_logins(body_view)[q],
                                        o.fk_reviewer,
                                    );
                                if q == t {
                                    assert(o.fk_reviewer == uid);
                                    assert(st.review_requests@[k].fk_proposal == proposal_id
                                        && st.review_requests@[k].fk_reviewer == uid);
                                    assert(st.review_requests@[ri as int].fk_proposal
                                        == proposal_id && st.review_requests@[ri as int].fk_reviewer
                                        == uid);
                                    assert(false);
                                }
                            }
                        }
                    }
                    assert forall|a: int, b: int|
                        0 <= a < b < st.review_requests@.len() implies !(st.review_requests@[a].fk_proposal
                        == st.review_requests@[b].fk_proposal
                        && st.review_requests@[a].fk_reviewer
                        == st.review_requests@[b].fk_reviewer) by {
                        assert(old(st).review_requests@[a].fk_proposal
                            == st.review_requests@[a].fk_proposal && old(st).review_requests@[a].fk_reviewer == st.review_requests@[a].fk_reviewer);
                        assert(old(st).review_requests@[b].fk_proposal
                            == st.review_requests@[b].fk_proposal && old(st).review_requests@[b].fk_reviewer == st.review_requests@[b].fk_reviewer);
                    }
                    assert forall|k: int|
                        0 <= k < st.review_requests@.len() implies crate::model::proposal_idx(
                        st.proposals@,
                        (#[trigger] st.review_requests@[k]).fk_proposal,
                    ) is Some by {
                        assert(st.review_requests@[k].fk_proposal == old(st).review_requests@[k].fk_proposal);
                    }
                }
            },
            None => {
                proof {
                    crate::model::lemma_find_idx_congruent(
                        old(st).review_requests@,
                        st.review_requests@,
                        |r: FcpReviewRequest| r.fk_proposal == proposal_id && r.fk_reviewer == uid,
                    );
                    assert(logins@.map_values(|s: &str| s@)[t as int] == logins@[t as int]@);
                    lemma_monotone_to_partial(*old(st), *st, proposal_id, body_view, t as int);
                }
                return Err(BotError::ReviewRequestNotFound);
            },
        }
        t += 1;
    }
    proof {
        assert forall|k: int|
            0 <= k < old(st).review_requests@.len() implies {
            let o = #[trigger] old(st).review_requests@[k];
            st.review_requests@[k].reviewed <==> o.reviewed || (o.fk_proposal == proposal_id
                && checked_approves(old(st).users@, body_view, o.fk_reviewer))
        } by {
            let o = old(st).review_requests@[k];
        }
    }
    Ok(())
}

/// The full loop invariant's two-way flag relation implies the one-way
/// partial-progress claim the error exits report.
proof fn lemma_monotone_to_partial(pre: Store, cur: Store, pid: i64, body: Seq<char>, t: int)
    requires
        cur.review_requests@.len() == pre.review_requests@.len(),
        0 <= t <= checked_logins(body).len(),
        forall|k: int|
            0 <= k < pre.review_requests@.len() ==> {
                let o = #[trigger] pre.review_requests@[k];
                let f = cur.review_requests@[k];
                f.reviewed <==> o.reviewed || (o.fk_proposal == pid && exists|q: int|
                    0 <= q < t && login_resolves_to(
                        pre.users@,
                        #[trigger] checked_logins(body)[q],
                        o.fk_reviewer,
                    ))
            },
    ensures
        forall|k: int|
            0 <= k < pre.review_requests@.len() ==> {
                let o = #[trigger] pre.review_requests@[k];
                cur.review_requests@[k].reviewed ==> o.reviewed || (o.fk_proposal == pid
                    && checked_approves(pre.users@, body, o.fk_reviewer))
            },
{
    assert forall|k: int|
        0 <= k < pre.review_requests@.len() implies {
        let o = #[trigger] pre.review_requests@[k];
        cur.review_requests@[k].reviewed ==> o.reviewed || (o.fk_proposal == pid
            && checked_approves(pre.users@, body, o.fk_reviewer))
    } by {
        let o = pre.review_requests@[k];
        if cur.review_requests@[k].reviewed && !o.reviewed {
            let q = choose|q: int|
                0 <= q < t && login_resolves_to(
                    pre.users@,
                    #[trigger] checked_logins(body)[q],
                    o.fk_reviewer,
                );
            assert(login_resolves_to(pre.users@, checked_logins(body)[q], o.fk_reviewer));
        }
    }
}


/// The rows of one issue are untouched between two store states.
pub open spec fn untouched(pre: Store, post: Store, x: i64) -> bool {
    &&& (proposal_idx(post.proposals@, x) is Some <==> proposal_idx(pre.proposals@, x) is Some)
    &&& (proposal_idx(pre.proposals@, x) is Some ==> proposal_of(post, x) == proposal_of(pre, x))
    &&& rrs_of(post.review_requests@, x) == rrs_of(pre.review_requests@, x)
    &&& concerns_of(post.concerns@, x) == concerns_of(pre.concerns@, x)
    &&& fb_of(post.feedback_requests@, x) == fb_of(pre.feedback_requests@, x)
}

pub proof fn lemma_untouched_trans(a: Store, b: Store, c: Store, x: i64)
    requires
        untouched(a, b, x),
        untouched(b, c, x),
    ensures
        untouched(a, c, x),
{
}

/// One proposal's review rows evolved only by setting flags, never clearing
/// them and never changing keys.
pub open spec fn rr_monotone(pre: Seq<FcpReviewRequest>, post: Seq<FcpReviewRequest>) -> bool {
    &&& post.len() == pre.len()
    &&& forall|k: int|
        0 <= k < pre.len() ==> {
            let o = #[trigger] pre[k];
            let f = post[k];
            f.fk_proposal == o.fk_proposal && f.fk_reviewer == o.fk_reviewer && (o.reviewed
                ==> f.reviewed)
        }
}

/// Every requested member and every concern raiser of the proposal is on the roster,
/// so both listings succeed.
pub open spec fn lists_ok(st: Store, pid: i64) -> bool {
    &&& forall|k: int|
        0 <= k < rrs_of(st.review_requests@, pid).len() ==> user_idx(
            st.users@,
            (#[trigger] rrs_of(st.review_requests@, pid)[k]).fk_reviewer,
        ) is Some
    &&& forall|k: int|
        0 <= k < concerns_of(st.concerns@, pid).len() ==> user_idx(
            st.users@,
            (#[trigger] concerns_of(st.concerns@, pid)[k]).fk_initiator,
        ) is Some
}

/// Nothing blocks the proposal and everything its turn reads is present, so
/// the sweep's turn must open the waiting period. The review count is
/// measured after honoring the tracking text's checked boxes
/// ([`adjusted_rrs`]), so an edit that gives the last missing sign-off opens
/// the period in the same turn.
pub open spec fn pending_happy(pre: Store, p: FcpProposal, post_comments: bool) -> bool {
    &&& post_comments
    &&& comment_idx(pre.comments@, p.fk_bot_tracking_comment) is Some
    &&& rederivable(pre, p.fk_issue, comment_body_of(pre, p.fk_bot_tracking_comment))
    &&& lists_ok(pre, p.fk_issue)
    &&& adjusted_rrs(pre, p.fk_issue, comment_body_of(pre, p.fk_bot_tracking_comment)).filter(
        |r: FcpReviewRequest| r.fk_proposal == p.fk_issue && !r.reviewed,
    ).len() == 0
    &&& crate::model::count_unresolved(pre.concerns@, p.fk_issue) == 0
}

/// The effect of a cancellation notice for this issue.
pub open spec fn cancellation_effect(
    e: Effect,
    initiator: GitHubUser,
    issue: crate::model::Issue,
    post_comments: bool,
) -> bool {
    e matches Effect::Comment(ce) && ce.body@ == cancellation_body_s(initiator) && ce.target
        == CommentTarget::NewOnIssue(issue.number) && ce.repository@ == issue.repository@
        && ce.deliver == (post_comments && issue.open)
}

/// The effect announcing a newly opened waiting period.
pub open spec fn start_fcp_effect(e: Effect, issue: crate::model::Issue, initiator: GitHubUser, status_comment_id: i64) -> bool {
    e matches Effect::StartFcp { repository, issue_number, initiator_login, status_comment_id: sc }
        && repository@ == issue.repository@ && issue_number == issue.number && initiator_login@
        == initiator.login@ && sc == status_comment_id
}

/// The effect of a completion notice for this issue.
pub open spec fn complete_effect(e: Effect, issue: crate::model::Issue, post_comments: bool) -> bool {
    e matches Effect::Comment(ce) && ce.body@ == fcp_complete_body_s() && ce.target
        == CommentTarget::NewOnIssue(issue.number) && ce.repository@ == issue.repository@
        && ce.deliver == (post_comments && issue.open)
}

/// No effect of the list asks the platform for anything: every comment
/// attempt was declined and no waiting period opened.
pub open spec fn no_remote_writes(effects: Seq<Effect>) -> bool {
    forall|k: int|
        0 <= k < effects.len() ==> match #[trigger] effects[k] {
            Effect::Comment(ce) => !ce.deliver,
            Effect::StartFcp { .. } => false,
        }
}

/// One proposal's review rows as the checkbox re-derivation leaves them:
/// a flag is set exactly when it was set or a checked line approves it.
pub open spec fn adjusted_rrs(st: Store, pid: i64, body: Seq<char>) -> Seq<FcpReviewRequest> {
    rrs_of(st.review_requests@, pid).map_values(
        |rr: FcpReviewRequest| FcpReviewRequest {
            reviewed: rr.reviewed || checked_approves(st.users@, body, rr.fk_reviewer),
            ..rr
        },
    )
}

/// The stored tracking text already equals what the renderer would produce
/// from the re-derived state, whichever ordered listing of that state is
/// taken.
pub open spec fn stored_matches_rendering(st: Store, p: FcpProposal) -> bool {
    forall|pairs: Seq<(GitHubUser, FcpReviewRequest)>, cpairs: Seq<(GitHubUser, FcpConcern)>|
        {
            (#[trigger] crate::order::sorted_rr_pairs(pairs) && pairs.to_multiset() == adjusted_rrs(
                st,
                p.fk_issue,
                comment_body_of(st, p.fk_bot_tracking_comment),
            ).map_values(|rr: FcpReviewRequest| (crate::machine::reviewer_of(st, rr), rr))
                .to_multiset() && #[trigger] crate::order::sorted_concern_pairs(cpairs)
                && cpairs.to_multiset() == concerns_of(st.concerns@, p.fk_issue).map_values(
                |c: FcpConcern| (crate::machine::concern_author_of(st, c), c),
            ).to_multiset()) ==> comment_body_of(st, p.fk_bot_tracking_comment)
                == crate::render::proposal_body_s(
                issue_of(st, p.fk_issue),
                user_of(st, p.fk_initiator),
                p.disposition,
                pairs,
                cpairs,
            )
        }
}

/// One ordered listing of the re-derived state the renderer could be fed:
/// pairs sorted by login over the adjusted review rows, concern pairs sorted
/// by name.
pub open spec fn rendering_listing(
    st: Store,
    p: FcpProposal,
    pairs: Seq<(GitHubUser, FcpReviewRequest)>,
    cpairs: Seq<(GitHubUser, FcpConcern)>,
) -> bool {
    &&& crate::order::sorted_rr_pairs(pairs)
    &&& pairs.to_multiset() == adjusted_rrs(
        st,
        p.fk_issue,
        comment_body_of(st, p.fk_bot_tracking_comment),
    ).map_values(|rr: FcpReviewRequest| (reviewer_of(st, rr), rr)).to_multiset()
    &&& crate::order::sorted_concern_pairs(cpairs)
    &&& cpairs.to_multiset() == concerns_of(st.concerns@, p.fk_issue).map_values(
        |c: FcpConcern| (concern_author_of(st, c), c),
    ).to_multiset()
}

/// The stored tracking text is stale: whichever ordered listing of the
/// re-derived state is taken, the renderer produces something else.
pub open spec fn stored_differs_from_rendering(st: Store, p: FcpProposal) -> bool {
    forall|pairs: Seq<(GitHubUser, FcpReviewRequest)>, cpairs: Seq<(GitHubUser, FcpConcern)>|
        #[trigger] rendering_listing(st, p, pairs, cpairs) ==> comment_body_of(
            st,
            p.fk_bot_tracking_comment,
        ) != crate::render::proposal_body_s(
            issue_of(st, p.fk_issue),
            user_of(st, p.fk_initiator),
            p.disposition,
            pairs,
            cpairs,
        )
}

/// A delivered in-place edit of the proposal's tracking comment carrying the
/// renderer's text for some ordered listing of the re-derived state.
pub open spec fn stale_edit_effect(e: Effect, pre: Store, p: FcpProposal) -> bool {
    e matches Effect::Comment(ce) && ce.target == CommentTarget::EditExisting(
        p.fk_bot_tracking_comment,
    ) && ce.deliver && ce.repository@ == issue_of(pre, p.fk_issue).repository@ && exists|
        pairs: Seq<(GitHubUser, FcpReviewRequest)>,
        cpairs: Seq<(GitHubUser, FcpConcern)>,
    |
        #[trigger] rendering_listing(pre, p, pairs, cpairs) && ce.body@
            == crate::render::proposal_body_s(
            issue_of(pre, p.fk_issue),
            user_of(pre, p.fk_initiator),
            p.disposition,
            pairs,
            cpairs,
        )
}

/// A pending proposal whose turn reads cleanly but changes nothing remote:
/// its issue is gone or closed, posting is off, a row is unreadable, or the
/// stored text already matches and something still blocks the opening.
pub open spec fn pending_quiet(st: Store, p: FcpProposal, post_comments: bool) -> bool {
    let pid = p.fk_issue;
    ||| user_idx(st.users@, p.fk_initiator) is None
    ||| issue_idx(st.issues@, pid) is None
    ||| !issue_of(st, pid).open
    ||| !post_comments
    ||| comment_idx(st.comments@, p.fk_bot_tracking_comment) is None
    ||| !rederivable(st, pid, comment_body_of(st, p.fk_bot_tracking_comment))
    ||| !lists_ok(st, pid)
    ||| (stored_matches_rendering(st, p) && adjusted_rrs(
        st,
        pid,
        comment_body_of(st, p.fk_bot_tracking_comment),
    ).filter(|r: FcpReviewRequest| r.fk_proposal == pid && !r.reviewed).len()
        + crate::model::count_unresolved(st.concerns@, pid) > 0)
}

/// What one turn of the pending phase does with a proposal whose waiting
/// period has not begun, described against the state at its turn.
pub open spec fn pending_fate(
    pre: Store,
    post: Store,
    p: FcpProposal,
    effects: Seq<Effect>,
    now: i64,
    post_comments: bool,
) -> bool {
    let pid = p.fk_issue;
    if user_idx(pre.users@, p.fk_initiator) is None || issue_idx(pre.issues@, pid) is None {
        untouched(pre, post, pid)
    } else if !issue_of(pre, pid).open {
        &&& proposal_idx(post.proposals@, pid) is None
        &&& rrs_of(post.review_requests@, pid) == Seq::<FcpReviewRequest>::empty()
        &&& concerns_of(post.concerns@, pid) == Seq::<FcpConcern>::empty()
        &&& fb_of(post.feedback_requests@, pid) == Seq::<FeedbackRequest>::empty()
        &&& exists|e: Effect|
            #[trigger] effects.contains(e) && cancellation_effect(
                e,
                user_of(pre, p.fk_initiator),
                issue_of(pre, pid),
                post_comments,
            )
    } else {
        &&& proposal_idx(post.proposals@, pid) is Some
        &&& {
            let q = proposal_of(post, pid);
            &&& q.fk_issue == p.fk_issue
            &&& q.fk_initiator == p.fk_initiator
            &&& q.fk_initiating_comment == p.fk_initiating_comment
            &&& q.disposition == p.disposition
            &&& q.fk_bot_tracking_comment == p.fk_bot_tracking_comment
            &&& !q.fcp_closed
            &&& (q.fcp_start is None || q.fcp_start == Some(now))
        }
        &&& rr_monotone(rrs_of(pre.review_requests@, pid), rrs_of(post.review_requests@, pid))
        &&& concerns_of(post.concerns@, pid) == concerns_of(pre.concerns@, pid)
        &&& fb_of(post.feedback_requests@, pid) == fb_of(pre.feedback_requests@, pid)
        &&& (pending_happy(pre, p, post_comments) ==> proposal_of(post, pid).fcp_start == Some(now)
            && exists|e: Effect|
            #[trigger] effects.contains(e) && start_fcp_effect(
                e,
                issue_of(pre, pid),
                user_of(pre, p.fk_initiator),
                p.fk_bot_tracking_comment,
            ))
        &&& (proposal_of(post, pid).fcp_start is Some ==> adjusted_rrs(
            pre,
            pid,
            comment_body_of(pre, p.fk_bot_tracking_comment),
        ).filter(|r: FcpReviewRequest| r.fk_proposal == pid && !r.reviewed).len() == 0
            && crate::model::count_unresolved(pre.concerns@, pid) == 0)
        &&& ((comment_idx(pre.comments@, p.fk_bot_tracking_comment) is Some && rederivable(
            pre,
            pid,
            comment_body_of(pre, p.fk_bot_tracking_comment),
        ) && lists_ok(pre, pid) && post_comments && stored_differs_from_rendering(pre, p))
            ==> exists|e: Effect| #[trigger] effects.contains(e) && stale_edit_effect(e, pre, p))
    }
}

/// What one turn of the closing phase does with a proposal whose waiting
/// period is running or over.
pub open spec fn finished_fate(
    pre: Store,
    post: Store,
    p: FcpProposal,
    effects: Seq<Effect>,
    now: i64,
    post_comments: bool,
) -> bool {
    let pid = p.fk_issue;
    match p.fcp_start {
        None => true,
        Some(s) => if !p.fcp_closed && s + FCP_WINDOW_SECS <= now {
            if issue_idx(pre.issues@, pid) is Some {
                &&& proposal_idx(post.proposals@, pid) is Some
                &&& proposal_of(post, pid) == FcpProposal { fcp_closed: true, ..p }
                &&& rrs_of(post.review_requests@, pid) == rrs_of(pre.review_requests@, pid)
                &&& concerns_of(post.concerns@, pid) == concerns_of(pre.concerns@, pid)
                &&& exists|e: Effect|
                    #[trigger] effects.contains(e) && complete_effect(
                        e,
                        issue_of(pre, pid),
                        post_comments,
                    )
            } else {
                untouched(pre, post, pid)
            }
        } else {
            untouched(pre, post, pid)
        },
    }
}


/// No element of the sequence passes the filter exactly when the filtering is
/// empty.
proof fn lemma_filter_empty_iff<A>(s: Seq<A>, p: spec_fn(A) -> bool)
    ensures
        s.filter(p).len() == 0 <==> forall|k: int| 0 <= k < s.len() ==> !p(#[trigger] s[k]),
{
    if s.filter(p).len() > 0 {
        assert(s.filter(p).contains(s.filter(p)[0]));
        s.lemma_filter_contains_rev(p, s.filter(p)[0]);
        let a = s.lemma_contains_to_index(s.filter(p)[0]);
        s.lemma_filter_pred(p, 0);
        assert(p(s[a]));
    } else {
        assert forall|k: int| 0 <= k < s.len() implies !p(#[trigger] s[k]) by {
            if p(s[k]) {
                s.lemma_filter_contains(p, k);
            }
        }
    }
}

/// Pointwise monotone review tables have pointwise monotone per-proposal
/// listings.
proof fn lemma_rrs_monotone(s1: Seq<FcpReviewRequest>, s2: Seq<FcpReviewRequest>, pid: i64)
    requires
        s1.len() == s2.len(),
        forall|k: int|
            0 <= k < s1.len() ==> {
                let o = #[trigger] s1[k];
                let f = s2[k];
                f.fk_proposal == o.fk_proposal && f.fk_reviewer == o.fk_reviewer && (o.reviewed
                    ==> f.reviewed)
            },
    ensures
        rr_monotone(rrs_of(s1, pid), rrs_of(s2, pid)),
    decreases s1.len(),
{
    reveal(Seq::filter);
    if s1.len() > 0 {
        assert(forall|k: int| 0 <= k < s1.len() - 1 ==> #[trigger] s1.drop_last()[k] == s1[k]);
        assert(forall|k: int| 0 <= k < s2.len() - 1 ==> #[trigger] s2.drop_last()[k] == s2[k]);
        lemma_rrs_monotone(s1.drop_last(), s2.drop_last(), pid);
        assert(s1.last() == s1[s1.len() - 1]);
        assert(s2.last() == s2[s2.len() - 1]);
    }
}

/// Removing one issue's rows leaves every other issue's keyed lookup intact.
proof fn lemma_filter_key_lookup(s: Seq<FcpProposal>, pid: i64, x: i64)
    requires
        forall|i: int, j: int| 0 <= i < j < s.len() ==> s[i].fk_issue != s[j].fk_issue,
        x != pid,
    ensures
        proposal_idx(s.filter(|p: FcpProposal| p.fk_issue != pid), x) is Some <==> proposal_idx(
            s,
            x,
        ) is Some,
        proposal_idx(s, x) is Some ==> s.filter(|p: FcpProposal| p.fk_issue != pid)[idx_or_zero(
            proposal_idx(s.filter(|p: FcpProposal| p.fk_issue != pid), x),
        )] == s[idx_or_zero(proposal_idx(s, x))],
{
    let keep = |p: FcpProposal| p.fk_issue != pid;
    let f = s.filter(keep);
    lemma_find_idx(s, |p: FcpProposal| p.fk_issue == x);
    lemma_find_idx(f, |p: FcpProposal| p.fk_issue == x);
    if proposal_idx(s, x) is Some {
        let i = idx_or_zero(proposal_idx(s, x));
        assert(keep(s[i]));
        s.lemma_filter_contains(keep, i);
        let a = f.lemma_contains_to_index(s[i]);
        lemma_proposal_exists(f, x);
        let b = idx_or_zero(proposal_idx(f, x));
        assert(f[b].fk_issue == x);
        s.lemma_filter_pred(keep, b);
        assert(f.contains(f[b]));
        s.lemma_filter_contains_rev(keep, f[b]);
        let c = s.lemma_contains_to_index(f[b]);
        if c != i {
            assert(s[c].fk_issue != s[i].fk_issue);
        }
    } else {
        if proposal_idx(f, x) is Some {
            let b = idx_or_zero(proposal_idx(f, x));
            assert(f.contains(f[b]));
            s.lemma_filter_contains_rev(keep, f[b]);
            let c = s.lemma_contains_to_index(f[b]);
            lemma_proposal_exists(s, x);
        }
    }
}

/// Counts how many of one proposal's reviews still wait for sign-off.
fn count_unreviewed_exec(st: &Store, pid: i64) -> (r: usize)
    ensures
        r == crate::model::count_unreviewed(st.review_requests@, pid),
{
    let ghost p = |r: FcpReviewRequest| r.fk_proposal == pid && !r.reviewed;
    let n = st.review_requests.len();
    let mut cnt: usize = 0;
    let mut i: usize = 0;
    proof {
        reveal(Seq::filter);
        assert(st.review_requests@.take(0) =~= Seq::<FcpReviewRequest>::empty());
    }
    while i < n
        invariant
            i <= n,
            cnt <= i,
            n == st.review_requests@.len(),
            cnt == st.review_requests@.take(i as int).filter(
                |r: FcpReviewRequest| r.fk_proposal == pid && !r.reviewed,
            ).len(),
        decreases n - i,
    {
        proof {
            reveal(Seq::filter);
            assert(st.review_requests@.take(i as int + 1).drop_last() =~= st.review_requests@.take(
                i as int,
            ));
            assert(st.review_requests@.take(i as int + 1).last() == st.review_requests@[i as int]);
        }
        if st.review_requests[i].fk_proposal == pid && !st.review_requests[i].reviewed {
            cnt += 1;
        }
        i += 1;
    }
    proof {
        assert(st.review_requests@.take(n as int) =~= st.review_requests@);
    }
    cnt
}

/// Counts one proposal's concerns that are not yet resolved.
fn count_unresolved_exec(st: &Store, pid: i64) -> (r: usize)
    ensures
        r == crate::model::count_unresolved(st.concerns@, pid),
{
    let n = st.concerns.len();
    let mut cnt: usize = 0;
    let mut i: usize = 0;
    proof {
        reveal(Seq::filter);
        assert(st.concerns@.take(0) =~= Seq::<FcpConcern>::empty());
    }
    while i < n
        invariant
            i <= n,
            cnt <= i,
            n == st.concerns@.len(),
            cnt == st.concerns@.take(i as int).filter(
                |c: FcpConcern| c.fk_proposal == pid && c.fk_resolved_comment is None,
            ).len(),
        decreases n - i,
    {
        proof {
            reveal(Seq::filter);
            assert(st.concerns@.take(i as int + 1).drop_last() =~= st.concerns@.take(i as int));
            assert(st.concerns@.take(i as int + 1).last() == st.concerns@[i as int]);
        }
        if st.concerns[i].fk_proposal == pid && st.concerns[i].fk_resolved_comment.is_none() {
            cnt += 1;
        }
        i += 1;
    }
    proof {
        assert(st.concerns@.take(n as int) =~= st.concerns@);
    }
    cnt
}


/// The re-derivation's pointwise flag relation yields exactly the adjusted
/// per-proposal listing.
proof fn lemma_rederived_rrs(
    pre_table: Seq<FcpReviewRequest>,
    post_table: Seq<FcpReviewRequest>,
    users: Seq<GitHubUser>,
    pid: i64,
    body: Seq<char>,
)
    requires
        post_table.len() == pre_table.len(),
        forall|k: int|
            0 <= k < pre_table.len() ==> {
                let o = #[trigger] pre_table[k];
                let f = post_table[k];
                f.fk_proposal == o.fk_proposal && f.fk_reviewer == o.fk_reviewer && (f.reviewed
                    <==> o.reviewed || (o.fk_proposal == pid && checked_approves(
                    users,
                    body,
                    o.fk_reviewer,
                )))
            },
    ensures
        rrs_of(post_table, pid) == rrs_of(pre_table, pid).map_values(
            |rr: FcpReviewRequest| FcpReviewRequest {
                reviewed: rr.reviewed || checked_approves(users, body, rr.fk_reviewer),
                ..rr
            },
        ),
    decreases pre_table.len(),
{
    reveal(Seq::filter);
    let f = |rr: FcpReviewRequest| FcpReviewRequest {
        reviewed: rr.reviewed || checked_approves(users, body, rr.fk_reviewer),
        ..rr
    };
    if pre_table.len() == 0 {
        assert(rrs_of(post_table, pid) =~= rrs_of(pre_table, pid).map_values(f));
    } else {
        assert(forall|k: int|
            0 <= k < pre_table.len() - 1 ==> #[trigger] pre_table.drop_last()[k] == pre_table[k]);
        assert(forall|k: int|
            0 <= k < post_table.len() - 1 ==> #[trigger] post_table.drop_last()[k]
                == post_table[k]);
        lemma_rederived_rrs(pre_table.drop_last(), post_table.drop_last(), users, pid, body);
        let o = pre_table.last();
        let n = post_table.last();
        assert(o == pre_table[pre_table.len() - 1]);
        assert(n == post_table[post_table.len() - 1]);
        if o.fk_proposal == pid {
            assert(n == f(o));
            assert(rrs_of(post_table, pid) == rrs_of(post_table.drop_last(), pid).push(n));
            assert(rrs_of(pre_table, pid) == rrs_of(pre_table.drop_last(), pid).push(o));
            assert(rrs_of(pre_table, pid).map_values(f) =~= rrs_of(
                pre_table.drop_last(),
                pid,
            ).map_values(f).push(f(o)));
            assert(rrs_of(post_table, pid) =~= rrs_of(pre_table, pid).map_values(f));
        } else {
            assert(rrs_of(post_table, pid) == rrs_of(post_table.drop_last(), pid));
            assert(rrs_of(pre_table, pid) == rrs_of(pre_table.drop_last(), pid));
        }
    }
}

/// One pending proposal's sweep turn: cancel it when its issue has closed,
/// otherwise honor manual checkbox edits, re-render the status comment (an
/// edit effect only when the text changed), and open the waiting period once
/// no review and no concern is outstanding. A row that cannot be read ends
/// the turn with the store as it stands.
pub fn sweep_pending_one(st: &mut Store, pid: i64, now: i64, post_comments: bool) -> (r: Vec<
    Effect,
>)
    requires
        old(st).wf(),
        proposal_idx(old(st).proposals@, pid) is Some,
        proposal_of(*old(st), pid).fcp_start is None,
    ensures
        final(st).wf(),
        final(st).users == old(st).users,
        final(st).issues == old(st).issues,
        final(st).comments == old(st).comments,
        final(st).teams == old(st).teams,
        final(st).memberships == old(st).memberships,
        forall|x: i64| x != pid ==> untouched(*old(st), *final(st), x),
        pending_fate(*old(st), *final(st), proposal_of(*old(st), pid), r@, now, post_comments),
        pending_quiet(*old(st), proposal_of(*old(st), pid), post_comments) ==> no_remote_writes(
            r@,
        ),
{
    let pi = match st.proposal_pos(pid) {
        Some(pi) => pi,
        None => {
            proof {
                assert(false);
            }
            return Vec::new();
        },
    };
    let proposal = st.proposals[pi];
    let ui = match st.user_pos(proposal.fk_initiator) {
        Some(ui) => ui,
        None => {
            return Vec::new();
        },
    };
    let initiator = st.users[ui].clone();
    let ii = match st.issue_pos(pid) {
        Some(ii) => ii,
        None => {
            return Vec::new();
        },
    };
    let issue = st.issues[ii].clone();
    proof {
        assert(initiator == user_of(*old(st), proposal.fk_initiator));
        assert(issue.open == issue_of(*old(st), pid).open);
        assert(issue.number == issue_of(*old(st), pid).number);
        assert(issue.repository == issue_of(*old(st), pid).repository);
    }
    if !issue.open {
        let ce = cancel_fcp(st, &initiator, &issue, post_comments);
        let mut effects: Vec<Effect> = Vec::new();
        effects.push(Effect::Comment(ce));
        proof {
            let keepp = |p: FcpProposal| p.fk_issue != pid;
            lemma_find_idx(st.proposals@, |p: FcpProposal| p.fk_issue == pid);
            if proposal_idx(st.proposals@, pid) is Some {
                let b = idx_or_zero(proposal_idx(st.proposals@, pid));
                old(st).proposals@.lemma_filter_pred(keepp, b);
            }
            lemma_filter_empty_iff(
                st.review_requests@,
                |r: FcpReviewRequest| r.fk_proposal == pid,
            );
            assert forall|k: int|
                0 <= k < st.review_requests@.len() implies (#[trigger] st.review_requests@[k]).fk_proposal
                != pid by {
                old(st).review_requests@.lemma_filter_pred(
                    |r: FcpReviewRequest| r.fk_proposal != pid,
                    k,
                );
            }
            assert(rrs_of(st.review_requests@, pid) =~= Seq::<FcpReviewRequest>::empty());
            lemma_filter_empty_iff(st.concerns@, |c: FcpConcern| c.fk_proposal == pid);
            assert forall|k: int|
                0 <= k < st.concerns@.len() implies (#[trigger] st.concerns@[k]).fk_proposal
                != pid by {
                old(st).concerns@.lemma_filter_pred(|c: FcpConcern| c.fk_proposal != pid, k);
            }
            assert(concerns_of(st.concerns@, pid) =~= Seq::<FcpConcern>::empty());
            lemma_filter_empty_iff(st.feedback_requests@, |f: FeedbackRequest| f.fk_issue == pid);
            assert forall|k: int|
                0 <= k < st.feedback_requests@.len() implies (#[trigger] st.feedback_requests@[k]).fk_issue
                != pid by {
                old(st).feedback_requests@.lemma_filter_pred(
                    |f: FeedbackRequest| f.fk_issue != pid,
                    k,
                );
            }
            assert(fb_of(st.feedback_requests@, pid) =~= Seq::<FeedbackRequest>::empty());
            assert forall|x: i64| x != pid implies untouched(*old(st), *st, x) by {
                lemma_filter_key_lookup(old(st).proposals@, pid, x);
                lemma_filter_of_filter(
                    old(st).review_requests@,
                    |r: FcpReviewRequest| r.fk_proposal != pid,
                    |r: FcpReviewRequest| r.fk_proposal == x,
                );
                lemma_filter_of_filter(
                    old(st).concerns@,
                    |c: FcpConcern| c.fk_proposal != pid,
                    |c: FcpConcern| c.fk_proposal == x,
                );
                lemma_filter_of_filter(
                    old(st).feedback_requests@,
                    |f: FeedbackRequest| f.fk_issue != pid,
                    |f: FeedbackRequest| f.fk_issue == x,
                );
            }
            assert(effects@.contains(effects@[0]));
        }
        return effects;
    }
    match update_proposal_review_status(st, pid) {
        Ok(_) => {},
        Err(_) => {
            proof {
                lemma_pending_frames(*old(st), *st, pid);
            }
            return Vec::new();
        },
    }
    let ghost after_derive = *st;
    let reviews = match list_review_requests(st, pid) {
        Ok(v) => v,
        Err(_) => {
            proof {
                lemma_pending_frames(*old(st), *st, pid);
                lemma_lists_err_transfer(*old(st), *st, pid);
            }
            return Vec::new();
        },
    };
    let concerns = match list_concerns_with_authors(st, pid) {
        Ok(v) => v,
        Err(_) => {
            proof {
                lemma_pending_frames(*old(st), *st, pid);
                lemma_lists_err_transfer(*old(st), *st, pid);
            }
            return Vec::new();
        },
    };
    let num_active_reviews = count_unreviewed_exec(st, pid);
    let num_active_concerns = count_unresolved_exec(st, pid);
    let body = proposal_body(&issue, &initiator, proposal.disposition, &reviews, &concerns);
    let prev_ci = match st.comment_pos(proposal.fk_bot_tracking_comment) {
        Some(ci) => ci,
        None => {
            proof {
                assert(false);
            }
            return Vec::new();
        },
    };
    let mut effects: Vec<Effect> = Vec::new();
    if !str_eq(st.comments[prev_ci].body.as_str(), body.as_str()) {
        if !post_comments {
            proof {
                lemma_pending_frames(*old(st), *st, pid);
            }
            return effects;
        }
        let eff = plan_comment(&issue, body, Some(proposal.fk_bot_tracking_comment), post_comments);
        effects.push(Effect::Comment(eff));
    }
    if num_active_reviews == 0 && num_active_concerns == 0 {
        let mut row = st.proposals[pi];
        row.fcp_start = Some(now);
        *vstd::std_specs::vec::vec_index_mut(&mut st.proposals, pi) = row;
        proof {
            assert forall|a: int, b: int|
                0 <= a < b < st.proposals@.len() implies st.proposals@[a].fk_issue
                != st.proposals@[b].fk_issue by {
                assert(st.proposals@[a].fk_issue == after_derive.proposals@[a].fk_issue);
                assert(st.proposals@[b].fk_issue == after_derive.proposals@[b].fk_issue);
            }
            assert forall|t: int|
                0 <= t < st.review_requests@.len() implies proposal_idx(
                st.proposals@,
                (#[trigger] st.review_requests@[t]).fk_proposal,
            ) is Some by {
                crate::model::lemma_find_idx_congruent(
                    after_derive.proposals@,
                    st.proposals@,
                    |p: FcpProposal| p.fk_issue == st.review_requests@[t].fk_proposal,
                );
            }
            assert forall|t: int|
                0 <= t < st.concerns@.len() implies proposal_idx(
                st.proposals@,
                (#[trigger] st.concerns@[t]).fk_proposal,
            ) is Some by {
                crate::model::lemma_find_idx_congruent(
                    after_derive.proposals@,
                    st.proposals@,
                    |p: FcpProposal| p.fk_issue == st.concerns@[t].fk_proposal,
                );
            }
        }
        if post_comments {
            effects.push(
                Effect::StartFcp {
                    repository: issue.repository.clone(),
                    issue_number: issue.number,
                    initiator_login: initiator.login.clone(),
                    status_comment_id: proposal.fk_bot_tracking_comment,
                },
            );
        }
    }
    proof {
        // frames for other issues, and this proposal's fate
        lemma_pending_frames(*old(st), after_derive, pid);
        assert forall|x: i64| x != pid implies untouched(*old(st), *st, x) by {
            assert(untouched(*old(st), after_derive, x));
            lemma_find_congruent(
                after_derive.proposals@,
                st.proposals@,
                |p: FcpProposal| p.fk_issue == x,
            );
            lemma_filter_congruent(
                after_derive.proposals@,
                st.proposals@,
                |p: FcpProposal| p.fk_issue == x,
            );
            assert(rrs_of(st.review_requests@, x) == rrs_of(after_derive.review_requests@, x));
            assert(concerns_of(st.concerns@, x) == concerns_of(after_derive.concerns@, x));
        }
        // this proposal's final row
        crate::model::lemma_find_idx_congruent(
            after_derive.proposals@,
            st.proposals@,
            |p: FcpProposal| p.fk_issue == pid,
        );
        lemma_rrs_monotone(old(st).review_requests@, st.review_requests@, pid);
        // the counts the turn measured are the adjusted listing's
        let p0 = proposal_of(*old(st), pid);
        let body0 = comment_body_of(*old(st), p0.fk_bot_tracking_comment);
        lemma_rederived_rrs(
            old(st).review_requests@,
            after_derive.review_requests@,
            old(st).users@,
            pid,
            body0,
        );
        crate::order::lemma_filter_of_filter(
            after_derive.review_requests@,
            |r: FcpReviewRequest| r.fk_proposal == pid,
            |r: FcpReviewRequest| r.fk_proposal == pid && !r.reviewed,
        );
        assert(crate::model::count_unreviewed(after_derive.review_requests@, pid) == adjusted_rrs(
            *old(st),
            pid,
            body0,
        ).filter(|r: FcpReviewRequest| r.fk_proposal == pid && !r.reviewed).len());
        // the happy premise forces the opening
        if pending_happy(*old(st), p0, post_comments) {
            assert(num_active_reviews == 0 && num_active_concerns == 0);
            if post_comments {
                assert(effects@.contains(effects@[effects@.len() - 1]));
            }
        }
        // a stale stored text goes out as an in-place edit
        if comment_idx(old(st).comments@, p0.fk_bot_tracking_comment) is Some && rederivable(
            *old(st),
            pid,
            body0,
        ) && lists_ok(*old(st), pid) && post_comments && stored_differs_from_rendering(
            *old(st),
            p0,
        ) {
            assert(adjusted_rrs(*old(st), pid, body0) == rrs_of(
                after_derive.review_requests@,
                pid,
            ));
            assert(rrs_of(after_derive.review_requests@, pid).map_values(
                |rr: FcpReviewRequest| (reviewer_of(after_derive, rr), rr),
            ) =~= adjusted_rrs(*old(st), pid, body0).map_values(
                |rr: FcpReviewRequest| (reviewer_of(*old(st), rr), rr),
            ));
            assert(concerns_of(after_derive.concerns@, pid).map_values(
                |c: FcpConcern| (concern_author_of(after_derive, c), c),
            ) =~= concerns_of(old(st).concerns@, pid).map_values(
                |c: FcpConcern| (concern_author_of(*old(st), c), c),
            ));
            assert(crate::order::sorted_rr_pairs(reviews@));
            assert(crate::order::sorted_concern_pairs(concerns@));
            assert(rendering_listing(*old(st), p0, reviews@, concerns@));
            assert(body@ == crate::render::proposal_body_s(
                issue_of(*old(st), pid),
                user_of(*old(st), p0.fk_initiator),
                p0.disposition,
                reviews@,
                concerns@,
            ));
            assert(st.comments@[prev_ci as int].body@ == body0);
            assert(body0 != body@);
            assert(effects@.contains(effects@[0]));
            assert(stale_edit_effect(effects@[0], *old(st), p0));
        }
        // a quiet turn pushed nothing the platform would see
        if pending_quiet(*old(st), proposal_of(*old(st), pid), post_comments) {
            let p = proposal_of(*old(st), pid);
            let body_pre = comment_body_of(*old(st), p.fk_bot_tracking_comment);
            if post_comments {
                // the turn read everything, so only the matched-text case of
                // quiet can hold
                assert(rederivable(*old(st), pid, body_pre));
                lemma_rederived_rrs(
                    old(st).review_requests@,
                    after_derive.review_requests@,
                    old(st).users@,
                    pid,
                    body_pre,
                );
                assert forall|k: int|
                    0 <= k < rrs_of(old(st).review_requests@, pid).len() implies user_idx(
                    old(st).users@,
                    (#[trigger] rrs_of(old(st).review_requests@, pid)[k]).fk_reviewer,
                ) is Some by {
                    let g = |rr: FcpReviewRequest| FcpReviewRequest {
                        reviewed: rr.reviewed || checked_approves(
                            old(st).users@,
                            body_pre,
                            rr.fk_reviewer,
                        ),
                        ..rr
                    };
                    assert(rrs_of(after_derive.review_requests@, pid) == rrs_of(
                        old(st).review_requests@,
                        pid,
                    ).map_values(g));
                    assert(rrs_of(after_derive.review_requests@, pid)[k] == g(
                        rrs_of(old(st).review_requests@, pid)[k],
                    ));
                }
                assert(lists_ok(*old(st), pid));
                assert(stored_matches_rendering(*old(st), p));
                assert(adjusted_rrs(*old(st), pid, body_pre) == rrs_of(
                    after_derive.review_requests@,
                    pid,
                ));

                // the listings the turn rendered are over the adjusted state
                assert(rrs_of(after_derive.review_requests@, pid).map_values(
                    |rr: FcpReviewRequest| (reviewer_of(after_derive, rr), rr),
                ) =~= adjusted_rrs(*old(st), pid, body_pre).map_values(
                    |rr: FcpReviewRequest| (reviewer_of(*old(st), rr), rr),
                ));
                assert(concerns_of(after_derive.concerns@, pid).map_values(
                    |c: FcpConcern| (concern_author_of(after_derive, c), c),
                ) =~= concerns_of(old(st).concerns@, pid).map_values(
                    |c: FcpConcern| (concern_author_of(*old(st), c), c),
                ));
                assert(crate::order::sorted_rr_pairs(reviews@));
                assert(crate::order::sorted_concern_pairs(concerns@));
                assert(body_pre == crate::render::proposal_body_s(
                    issue_of(*old(st), pid),
                    user_of(*old(st), p.fk_initiator),
                    p.disposition,
                    reviews@,
                    concerns@,
                ));
                assert(body@ == crate::render::proposal_body_s(
                    issue_of(*old(st), pid),
                    user_of(*old(st), p.fk_initiator),
                    p.disposition,
                    reviews@,
                    concerns@,
                ));
                assert(st.comments@[prev_ci as int].body@ == body_pre);
                // and the counts still block the opening
                crate::order::lemma_filter_of_filter(
                    after_derive.review_requests@,
                    |r: FcpReviewRequest| r.fk_proposal == pid,
                    |r: FcpReviewRequest| r.fk_proposal == pid && !r.reviewed,
                );
                assert(crate::model::count_unreviewed(after_derive.review_requests@, pid)
                    == adjusted_rrs(*old(st), pid, body_pre).filter(
                    |r: FcpReviewRequest| r.fk_proposal == pid && !r.reviewed,
                ).len());
                assert(num_active_reviews + num_active_concerns > 0);
            }
        }
    }
    effects
}

/// Between the turn's start and its re-derivation step, only this proposal's
/// review flags moved; every other issue's rows are untouched and the
/// survivor keeps its row.
proof fn lemma_pending_frames(pre: Store, cur: Store, pid: i64)
    requires
        pre.proposals == cur.proposals,
        pre.concerns == cur.concerns,
        pre.feedback_requests == cur.feedback_requests,
        cur.review_requests@.len() == pre.review_requests@.len(),
        forall|k: int|
            0 <= k < pre.review_requests@.len() ==> {
                let o = #[trigger] pre.review_requests@[k];
                let f = cur.review_requests@[k];
                f.fk_proposal == o.fk_proposal && f.fk_reviewer == o.fk_reviewer && (o.reviewed
                    ==> f.reviewed) && (o.fk_proposal != pid ==> f == o)
            },
    ensures
        forall|x: i64| x != pid ==> untouched(pre, cur, x),
        rr_monotone(rrs_of(pre.review_requests@, pid), rrs_of(cur.review_requests@, pid)),
{
    assert forall|x: i64| x != pid implies untouched(pre, cur, x) by {
        lemma_filter_congruent(
            pre.review_requests@,
            cur.review_requests@,
            |r: FcpReviewRequest| r.fk_proposal == x,
        );
    }
    lemma_rrs_monotone(pre.review_requests@, cur.review_requests@, pid);
}

/// A failed listing means some row of this proposal names a login the roster
/// lacks, which refutes `lists_ok` as of the turn's start.
proof fn lemma_lists_err_transfer(pre: Store, cur: Store, pid: i64)
    requires
        pre.users == cur.users,
        pre.concerns == cur.concerns,
        cur.review_requests@.len() == pre.review_requests@.len(),
        forall|k: int|
            0 <= k < pre.review_requests@.len() ==> {
                let o = #[trigger] pre.review_requests@[k];
                let f = cur.review_requests@[k];
                f.fk_proposal == o.fk_proposal && f.fk_reviewer == o.fk_reviewer
            },
        (exists|k: int|
            0 <= k < cur.review_requests@.len() && (#[trigger] cur.review_requests@[k]).fk_proposal
                == pid && user_idx(cur.users@, cur.review_requests@[k].fk_reviewer) is None) || (
        exists|k: int|
            0 <= k < cur.concerns@.len() && (#[trigger] cur.concerns@[k]).fk_proposal == pid
                && user_idx(cur.users@, cur.concerns@[k].fk_initiator) is None),
    ensures
        !lists_ok(pre, pid),
{
    if exists|k: int|
        0 <= k < cur.review_requests@.len() && (#[trigger] cur.review_requests@[k]).fk_proposal
            == pid && user_idx(cur.users@, cur.review_requests@[k].fk_reviewer) is None {
        let k = choose|k: int|
            0 <= k < cur.review_requests@.len() && (#[trigger] cur.review_requests@[k]).fk_proposal
                == pid && user_idx(cur.users@, cur.review_requests@[k].fk_reviewer) is None;
        pre.review_requests@.lemma_filter_contains(|r: FcpReviewRequest| r.fk_proposal == pid, k);
        let a = rrs_of(pre.review_requests@, pid).lemma_contains_to_index(
            pre.review_requests@[k],
        );
        assert(!lists_ok(pre, pid));
    } else {
        let k = choose|k: int|
            0 <= k < cur.concerns@.len() && (#[trigger] cur.concerns@[k]).fk_proposal == pid
                && user_idx(cur.users@, cur.concerns@[k].fk_initiator) is None;
        pre.concerns@.lemma_filter_contains(|c: FcpConcern| c.fk_proposal == pid, k);
        let a = concerns_of(pre.concerns@, pid).lemma_contains_to_index(pre.concerns@[k]);
        assert(!lists_ok(pre, pid));
    }
}

/// One closing turn: a proposal whose waiting period has run out is marked
/// closed and a completion notice goes out (delivered only when posting is
/// on and the issue is still open).
pub fn sweep_finished_one(st: &mut Store, pid: i64, now: i64, post_comments: bool) -> (r: Vec<
    Effect,
>)
    requires
        old(st).wf(),
        proposal_idx(old(st).proposals@, pid) is Some,
        proposal_of(*old(st), pid).fcp_start matches Some(s) && s + FCP_WINDOW_SECS <= now,
        !proposal_of(*old(st), pid).fcp_closed,
    ensures
        final(st).wf(),
        final(st).users == old(st).users,
        final(st).issues == old(st).issues,
        final(st).comments == old(st).comments,
        final(st).feedback_requests == old(st).feedback_requests,
        final(st).teams == old(st).teams,
        final(st).memberships == old(st).memberships,
        final(st).review_requests == old(st).review_requests,
        final(st).concerns == old(st).concerns,
        forall|x: i64| x != pid ==> untouched(*old(st), *final(st), x),
        finished_fate(*old(st), *final(st), proposal_of(*old(st), pid), r@, now, post_comments),
        (!post_comments || issue_idx(old(st).issues@, pid) is None || !issue_of(
            *old(st),
            pid,
        ).open) ==> no_remote_writes(r@),
{
    let pi = match st.proposal_pos(pid) {
        Some(pi) => pi,
        None => {
            proof {
                assert(false);
            }
            return Vec::new();
        },
    };
    let proposal = st.proposals[pi];
    let ii = match st.issue_pos(pid) {
        Some(ii) => ii,
        None => {
            return Vec::new();
        },
    };
    let issue = st.issues[ii].clone();
    let mut row = proposal;
    row.fcp_closed = true;
    *vstd::std_specs::vec::vec_index_mut(&mut st.proposals, pi) = row;
    proof {
        assert forall|a: int, b: int|
            0 <= a < b < st.proposals@.len() implies st.proposals@[a].fk_issue
            != st.proposals@[b].fk_issue by {
            assert(st.proposals@[a].fk_issue == old(st).proposals@[a].fk_issue);
            assert(st.proposals@[b].fk_issue == old(st).proposals@[b].fk_issue);
        }
        assert forall|t: int|
            0 <= t < st.review_requests@.len() implies proposal_idx(
            st.proposals@,
            (#[trigger] st.review_requests@[t]).fk_proposal,
        ) is Some by {
            crate::model::lemma_find_idx_congruent(
                old(st).proposals@,
                st.proposals@,
                |p: FcpProposal| p.fk_issue == st.review_requests@[t].fk_proposal,
            );
        }
        assert forall|t: int|
            0 <= t < st.concerns@.len() implies proposal_idx(
            st.proposals@,
            (#[trigger] st.concerns@[t]).fk_proposal,
        ) is Some by {
            crate::model::lemma_find_idx_congruent(
                old(st).proposals@,
                st.proposals@,
                |p: FcpProposal| p.fk_issue == st.concerns@[t].fk_proposal,
            );
        }
        assert forall|x: i64| x != pid implies untouched(*old(st), *st, x) by {
            lemma_find_congruent(
                old(st).proposals@,
                st.proposals@,
                |p: FcpProposal| p.fk_issue == x,
            );
        }
        crate::model::lemma_find_idx_congruent(
            old(st).proposals@,
            st.proposals@,
            |p: FcpProposal| p.fk_issue == pid,
        );
    }
    let eff = plan_comment(&issue, fcp_complete_body(), None, post_comments);
    let mut effects: Vec<Effect> = Vec::new();
    effects.push(Effect::Comment(eff));
    proof {
        assert(effects@.contains(effects@[0]));
    }
    effects
}


/// One issue's review listing determines whether any (proposal, requested member)
/// lookup for that proposal succeeds.
proof fn lemma_rr_lookup_from_rrs(
    s1: Seq<FcpReviewRequest>,
    s2: Seq<FcpReviewRequest>,
    pid: i64,
    uid: i64,
)
    requires
        rrs_of(s1, pid) == rrs_of(s2, pid),
        rr_idx(s1, pid, uid) is Some,
    ensures
        rr_idx(s2, pid, uid) is Some,
{
    let p = |r: FcpReviewRequest| r.fk_proposal == pid && r.fk_reviewer == uid;
    lemma_find_idx(s1, p);
    let k = idx_or_zero(rr_idx(s1, pid, uid));
    s1.lemma_filter_contains(|r: FcpReviewRequest| r.fk_proposal == pid, k);
    let a = rrs_of(s2, pid).lemma_contains_to_index(s1[k]);
    assert(rrs_of(s2, pid).contains(s1[k]));
    s2.lemma_filter_contains_rev(|r: FcpReviewRequest| r.fk_proposal == pid, s1[k]);
    let b = s2.lemma_contains_to_index(s1[k]);
    lemma_rr_exists(s2, pid, uid);
}

/// The per-proposal inputs of a pending turn read the same between two
/// states whose rows for that issue agree, so the turn's promise carries from
/// the sweep's start to the turn.
proof fn lemma_pending_fate_transfer(
    pre: Store,
    cur: Store,
    post: Store,
    p: FcpProposal,
    effects: Seq<Effect>,
    now: i64,
    post_comments: bool,
)
    requires
        untouched(pre, cur, p.fk_issue),
        pre.users == cur.users,
        pre.issues == cur.issues,
        pre.comments == cur.comments,
        proposal_idx(pre.proposals@, p.fk_issue) is Some,
        proposal_of(pre, p.fk_issue) == p,
        pending_fate(cur, post, p, effects, now, post_comments),
    ensures
        pending_fate(pre, post, p, effects, now, post_comments),
{
    let pid = p.fk_issue;
    if user_idx(pre.users@, p.fk_initiator) is None || issue_idx(pre.issues@, pid) is None {
        lemma_untouched_trans(pre, cur, post, pid);
    } else if !issue_of(pre, pid).open {
    } else {
        if pending_happy(pre, p, post_comments) {
            // the turn saw the same obstacles cleared
            let body = comment_body_of(pre, p.fk_bot_tracking_comment);
            assert(comment_body_of(cur, p.fk_bot_tracking_comment) == body);
            assert forall|t: int|
                0 <= t < checked_logins(body).len() implies match user_login_idx(
                cur.users@,
                #[trigger] checked_logins(body)[t],
            ) {
                Some(u) => rr_idx(cur.review_requests@, pid, cur.users@[u].id) is Some,
                None => false,
            } by {
                match user_login_idx(pre.users@, checked_logins(body)[t]) {
                    Some(u) => {
                        lemma_rr_lookup_from_rrs(
                            pre.review_requests@,
                            cur.review_requests@,
                            pid,
                            pre.users@[u].id,
                        );
                    },
                    None => {},
                }
            }
            assert forall|k: int|
                0 <= k < rrs_of(cur.review_requests@, pid).len() implies user_idx(
                cur.users@,
                (#[trigger] rrs_of(cur.review_requests@, pid)[k]).fk_reviewer,
            ) is Some by {
                assert(rrs_of(cur.review_requests@, pid)[k] == rrs_of(pre.review_requests@, pid)[k]);
            }
            assert forall|k: int|
                0 <= k < concerns_of(cur.concerns@, pid).len() implies user_idx(
                cur.users@,
                (#[trigger] concerns_of(cur.concerns@, pid)[k]).fk_initiator,
            ) is Some by {
                assert(concerns_of(cur.concerns@, pid)[k] == concerns_of(pre.concerns@, pid)[k]);
            }
            assert(adjusted_rrs(cur, pid, body) =~= adjusted_rrs(pre, pid, body));
            lemma_filter_of_filter(
                pre.concerns@,
                |c: FcpConcern| c.fk_proposal == pid,
                |c: FcpConcern| c.fk_proposal == pid && c.fk_resolved_comment is None,
            );
            lemma_filter_of_filter(
                cur.concerns@,
                |c: FcpConcern| c.fk_proposal == pid,
                |c: FcpConcern| c.fk_proposal == pid && c.fk_resolved_comment is None,
            );
            assert(pending_happy(cur, p, post_comments));
        }
        // the opening certificate reads the same against either snapshot
        let body0 = comment_body_of(pre, p.fk_bot_tracking_comment);
        assert(comment_body_of(cur, p.fk_bot_tracking_comment) == body0);
        assert(adjusted_rrs(cur, pid, body0) =~= adjusted_rrs(pre, pid, body0));
        // staleness also reads the same, and the turn's promised edit rebases
        if comment_idx(pre.comments@, p.fk_bot_tracking_comment) is Some && rederivable(
            pre,
            pid,
            body0,
        ) && lists_ok(pre, pid) && post_comments && stored_differs_from_rendering(pre, p) {
            assert forall|t: int|
                0 <= t < checked_logins(body0).len() implies match user_login_idx(
                cur.users@,
                #[trigger] checked_logins(body0)[t],
            ) {
                Some(u) => rr_idx(cur.review_requests@, pid, cur.users@[u].id) is Some,
                None => false,
            } by {
                match user_login_idx(pre.users@, checked_logins(body0)[t]) {
                    Some(u) => {
                        lemma_rr_lookup_from_rrs(
                            pre.review_requests@,
                            cur.review_requests@,
                            pid,
                            pre.users@[u].id,
                        );
                    },
                    None => {},
                }
            }
            assert forall|k: int|
                0 <= k < rrs_of(cur.review_requests@, pid).len() implies user_idx(
                cur.users@,
                (#[trigger] rrs_of(cur.review_requests@, pid)[k]).fk_reviewer,
            ) is Some by {
                assert(rrs_of(cur.review_requests@, pid)[k] == rrs_of(pre.review_requests@, pid)[k]);
            }
            assert forall|k: int|
                0 <= k < concerns_of(cur.concerns@, pid).len() implies user_idx(
                cur.users@,
                (#[trigger] concerns_of(cur.concerns@, pid)[k]).fk_initiator,
            ) is Some by {
                assert(concerns_of(cur.concerns@, pid)[k] == concerns_of(pre.concerns@, pid)[k]);
            }
            assert(adjusted_rrs(cur, pid, body0).map_values(
                |rr: FcpReviewRequest| (reviewer_of(cur, rr), rr),
            ) =~= adjusted_rrs(pre, pid, body0).map_values(
                |rr: FcpReviewRequest| (reviewer_of(pre, rr), rr),
            ));
            assert(concerns_of(cur.concerns@, pid).map_values(
                |c: FcpConcern| (concern_author_of(cur, c), c),
            ) =~= concerns_of(pre.concerns@, pid).map_values(
                |c: FcpConcern| (concern_author_of(pre, c), c),
            ));
            assert(stored_differs_from_rendering(cur, p)) by {
                assert forall|
                    pairs: Seq<(GitHubUser, FcpReviewRequest)>,
                    cpairs: Seq<(GitHubUser, FcpConcern)>,
                |
                    #[trigger] rendering_listing(cur, p, pairs, cpairs) implies comment_body_of(
                    cur,
                    p.fk_bot_tracking_comment,
                ) != crate::render::proposal_body_s(
                    issue_of(cur, pid),
                    user_of(cur, p.fk_initiator),
                    p.disposition,
                    pairs,
                    cpairs,
                ) by {
                    assert(rendering_listing(pre, p, pairs, cpairs));
                    assert(issue_of(cur, pid) == issue_of(pre, pid));
                    assert(user_of(cur, p.fk_initiator) == user_of(pre, p.fk_initiator));
                }
            }
            let e = choose|e: Effect| #[trigger] effects.contains(e) && stale_edit_effect(
                e,
                cur,
                p,
            );
            assert(stale_edit_effect(e, pre, p)) by {
                match e {
                    Effect::Comment(ce) => {
                        let (pairs, cpairs) = choose|
                            pairs: Seq<(GitHubUser, FcpReviewRequest)>,
                            cpairs: Seq<(GitHubUser, FcpConcern)>,
                        |
                            #[trigger] rendering_listing(cur, p, pairs, cpairs) && ce.body@
                                == crate::render::proposal_body_s(
                                issue_of(cur, pid),
                                user_of(cur, p.fk_initiator),
                                p.disposition,
                                pairs,
                                cpairs,
                            );
                        assert(rendering_listing(pre, p, pairs, cpairs));
                        assert(issue_of(cur, pid) == issue_of(pre, pid));
                        assert(user_of(cur, p.fk_initiator) == user_of(pre, p.fk_initiator));
                    },
                    _ => {
                        assert(false);
                    },
                }
            }
        }
        lemma_filter_of_filter(
            pre.concerns@,
            |c: FcpConcern| c.fk_proposal == pid,
            |c: FcpConcern| c.fk_proposal == pid && c.fk_resolved_comment is None,
        );
        lemma_filter_of_filter(
            cur.concerns@,
            |c: FcpConcern| c.fk_proposal == pid,
            |c: FcpConcern| c.fk_proposal == pid && c.fk_resolved_comment is None,
        );
        assert(crate::model::count_unresolved(cur.concerns@, pid) == crate::model::count_unresolved(
            pre.concerns@,
            pid,
        ));
        // monotonicity composes across the untouched prefix
        assert(rrs_of(cur.review_requests@, pid) == rrs_of(pre.review_requests@, pid));
    }
}

/// Later turns do not disturb an already-settled pending fate: they leave the
/// issue's rows alone and only append effects.
proof fn lemma_pending_fate_stable(
    pre: Store,
    mid: Store,
    post: Store,
    p: FcpProposal,
    e1: Seq<Effect>,
    e2: Seq<Effect>,
    now: i64,
    post_comments: bool,
)
    requires
        pending_fate(pre, mid, p, e1, now, post_comments),
        untouched(mid, post, p.fk_issue),
        forall|e: Effect| e1.contains(e) ==> #[trigger] e2.contains(e),
    ensures
        pending_fate(pre, post, p, e2, now, post_comments),
{
    let pid = p.fk_issue;
    if user_idx(pre.users@, p.fk_initiator) is None || issue_idx(pre.issues@, pid) is None {
        lemma_untouched_trans(pre, mid, post, pid);
    } else if !issue_of(pre, pid).open {
        let e = choose|e: Effect|
            #[trigger] e1.contains(e) && cancellation_effect(
                e,
                user_of(pre, p.fk_initiator),
                issue_of(pre, pid),
                post_comments,
            );
        assert(e2.contains(e));
    } else {
        if pending_happy(pre, p, post_comments) {
            let e = choose|e: Effect|
                #[trigger] e1.contains(e) && start_fcp_effect(
                    e,
                    issue_of(pre, pid),
                    user_of(pre, p.fk_initiator),
                    p.fk_bot_tracking_comment,
                );
            assert(e2.contains(e));
        }
        if comment_idx(pre.comments@, p.fk_bot_tracking_comment) is Some && rederivable(
            pre,
            pid,
            comment_body_of(pre, p.fk_bot_tracking_comment),
        ) && lists_ok(pre, pid) && post_comments && stored_differs_from_rendering(pre, p) {
            let e = choose|e: Effect| #[trigger] e1.contains(e) && stale_edit_effect(e, pre, p);
            assert(e2.contains(e));
        }
    }
}

/// The same, for fates of the closing phase.
proof fn lemma_finished_fate_stable(
    pre: Store,
    mid: Store,
    post: Store,
    p: FcpProposal,
    e1: Seq<Effect>,
    e2: Seq<Effect>,
    now: i64,
    post_comments: bool,
)
    requires
        finished_fate(pre, mid, p, e1, now, post_comments),
        untouched(mid, post, p.fk_issue),
        forall|e: Effect| e1.contains(e) ==> #[trigger] e2.contains(e),
    ensures
        finished_fate(pre, post, p, e2, now, post_comments),
{
    let pid = p.fk_issue;
    match p.fcp_start {
        None => {},
        Some(s) => {
            if !p.fcp_closed && s + FCP_WINDOW_SECS <= now {
                if issue_idx(pre.issues@, pid) is Some {
                    let e = choose|e: Effect|
                        #[trigger] e1.contains(e) && complete_effect(
                            e,
                            issue_of(pre, pid),
                            post_comments,
                        );
                    assert(e2.contains(e));
                } else {
                    lemma_untouched_trans(pre, mid, post, pid);
                }
            } else {
                lemma_untouched_trans(pre, mid, post, pid);
            }
        },
    }
}


/// As `lemma_pending_fate_transfer`, for fates of the closing phase.
proof fn lemma_finished_fate_transfer(
    pre: Store,
    cur: Store,
    post: Store,
    p: FcpProposal,
    effects: Seq<Effect>,
    now: i64,
    post_comments: bool,
)
    requires
        untouched(pre, cur, p.fk_issue),
        pre.issues == cur.issues,
        proposal_idx(pre.proposals@, p.fk_issue) is Some,
        proposal_of(pre, p.fk_issue) == p,
        finished_fate(cur, post, p, effects, now, post_comments),
    ensures
        finished_fate(pre, post, p, effects, now, post_comments),
{
    let pid = p.fk_issue;
    match p.fcp_start {
        None => {},
        Some(s) => {
            if !p.fcp_closed && s + FCP_WINDOW_SECS <= now {
                if issue_idx(pre.issues@, pid) is Some {
                } else {
                    lemma_untouched_trans(pre, cur, post, pid);
                }
            } else {
                lemma_untouched_trans(pre, cur, post, pid);
            }
        },
    }
}

/// A started proposal whose turn writes nothing remote: it is already
/// closed, not yet due, its issue is gone or closed, or posting is off.
pub open spec fn finished_quiet(st: Store, p: FcpProposal, now: i64, post_comments: bool) -> bool {
    match p.fcp_start {
        None => true,
        Some(s) => {
            ||| p.fcp_closed
            ||| !(s + FCP_WINDOW_SECS <= now)
            ||| issue_idx(st.issues@, p.fk_issue) is None
            ||| !issue_of(st, p.fk_issue).open
            ||| !post_comments
        },
    }
}

/// No proposal of the snapshot has anything remote to say: stored texts
/// match, nothing is ready to open, and nothing open is due to close where
/// the notice could go out.
pub open spec fn sweep_quiet(pre: Store, now: i64, post_comments: bool) -> bool {
    forall|j: int|
        0 <= j < pre.proposals@.len() ==> {
            let p = #[trigger] pre.proposals@[j];
            if p.fcp_start is None {
                pending_quiet(pre, p, post_comments)
            } else {
                finished_quiet(pre, p, now, post_comments)
            }
        }
}

/// A quiet pending turn stays quiet between the sweep's start and its turn.
proof fn lemma_pending_quiet_transfer(pre: Store, cur: Store, p: FcpProposal, post_comments: bool)
    requires
        untouched(pre, cur, p.fk_issue),
        pre.users == cur.users,
        pre.issues == cur.issues,
        pre.comments == cur.comments,
        pending_quiet(pre, p, post_comments),
    ensures
        pending_quiet(cur, p, post_comments),
{
    let pid = p.fk_issue;
    let body = comment_body_of(pre, p.fk_bot_tracking_comment);
    assert(comment_body_of(cur, p.fk_bot_tracking_comment) == body);
    if user_idx(pre.users@, p.fk_initiator) is None || issue_idx(pre.issues@, pid) is None
        || !issue_of(pre, pid).open || !post_comments || comment_idx(
        pre.comments@,
        p.fk_bot_tracking_comment,
    ) is None {
    } else if !rederivable(pre, pid, body) {
        assert(!rederivable(cur, pid, body)) by {
            if rederivable(cur, pid, body) {
                assert forall|t: int|
                    0 <= t < checked_logins(body).len() implies match user_login_idx(
                    pre.users@,
                    #[trigger] checked_logins(body)[t],
                ) {
                    Some(u) => rr_idx(pre.review_requests@, pid, pre.users@[u].id) is Some,
                    None => false,
                } by {
                    match user_login_idx(cur.users@, checked_logins(body)[t]) {
                        Some(u) => {
                            lemma_rr_lookup_from_rrs(
                                cur.review_requests@,
                                pre.review_requests@,
                                pid,
                                cur.users@[u].id,
                            );
                        },
                        None => {},
                    }
                }
            }
        }
    } else if !lists_ok(pre, pid) {
        assert(rrs_of(cur.review_requests@, pid) == rrs_of(pre.review_requests@, pid));
        assert(concerns_of(cur.concerns@, pid) == concerns_of(pre.concerns@, pid));
        assert(!lists_ok(cur, pid));
    } else {
        assert(adjusted_rrs(cur, pid, body) =~= adjusted_rrs(pre, pid, body));
        assert(adjusted_rrs(cur, pid, body).map_values(
            |rr: FcpReviewRequest| (reviewer_of(cur, rr), rr),
        ) =~= adjusted_rrs(pre, pid, body).map_values(
            |rr: FcpReviewRequest| (reviewer_of(pre, rr), rr),
        ));
        assert(concerns_of(cur.concerns@, pid).map_values(
            |c: FcpConcern| (concern_author_of(cur, c), c),
        ) =~= concerns_of(pre.concerns@, pid).map_values(
            |c: FcpConcern| (concern_author_of(pre, c), c),
        ));
        assert(stored_matches_rendering(cur, p)) by {
            assert forall|
                pairs: Seq<(GitHubUser, FcpReviewRequest)>,
                cpairs: Seq<(GitHubUser, FcpConcern)>,
            |
                (#[trigger] crate::order::sorted_rr_pairs(pairs) && pairs.to_multiset()
                    == adjusted_rrs(cur, pid, comment_body_of(cur, p.fk_bot_tracking_comment))
                    .map_values(|rr: FcpReviewRequest| (reviewer_of(cur, rr), rr)).to_multiset()
                    && #[trigger] crate::order::sorted_concern_pairs(cpairs)
                    && cpairs.to_multiset() == concerns_of(cur.concerns@, pid).map_values(
                    |c: FcpConcern| (concern_author_of(cur, c), c),
                ).to_multiset()) implies comment_body_of(cur, p.fk_bot_tracking_comment)
                == crate::render::proposal_body_s(
                issue_of(cur, pid),
                user_of(cur, p.fk_initiator),
                p.disposition,
                pairs,
                cpairs,
            ) by {
                assert(issue_of(cur, pid) == issue_of(pre, pid));
                assert(user_of(cur, p.fk_initiator) == user_of(pre, p.fk_initiator));
            }
        }
        crate::order::lemma_filter_of_filter(
            pre.concerns@,
            |c: FcpConcern| c.fk_proposal == pid,
            |c: FcpConcern| c.fk_proposal == pid && c.fk_resolved_comment is None,
        );
        crate::order::lemma_filter_of_filter(
            cur.concerns@,
            |c: FcpConcern| c.fk_proposal == pid,
            |c: FcpConcern| c.fk_proposal == pid && c.fk_resolved_comment is None,
        );
        assert(crate::model::count_unresolved(cur.concerns@, pid) == crate::model::count_unresolved(
            pre.concerns@,
            pid,
        ));
        assert(pending_quiet(cur, p, post_comments));
    }
}

/// Every proposal of the starting snapshot met its promised fate in one
/// cycle run at this instant, and issues without a proposal kept their rows.
pub open spec fn swept_at(
    pre: Store,
    post: Store,
    effects: Seq<Effect>,
    now: i64,
    post_comments: bool,
) -> bool {
    &&& forall|j: int|
        0 <= j < pre.proposals@.len() ==> {
            let p = #[trigger] pre.proposals@[j];
            if p.fcp_start is None {
                pending_fate(pre, post, p, effects, now, post_comments)
            } else {
                finished_fate(pre, post, p, effects, now, post_comments)
            }
        }
    &&& forall|x: i64| proposal_idx(pre.proposals@, x) is None ==> untouched(pre, post, x)
}

/// The whole reconciliation cycle at one instant: every proposal whose
/// waiting period has not begun takes a pending turn (cancellation, checkbox
/// re-derivation, re-render, possible opening), then every proposal whose
/// period has run out is closed. Each turn's promise is stated by
/// [`pending_fate`] and [`finished_fate`]; failures never spill from one
/// proposal to the next. A sweep over a snapshot with nothing to say — every
/// stored text already matches its re-rendering and nothing is ready to open
/// or due to close — makes no remote write at all ([`sweep_quiet`]).
#[verifier::rlimit(100)]
pub fn evaluate_nags_at(st: &mut Store, now: i64, post_comments: bool) -> (effects: Vec<Effect>)
    requires
        old(st).wf(),
    ensures
        final(st).wf(),
        final(st).users == old(st).users,
        final(st).issues == old(st).issues,
        final(st).comments == old(st).comments,
        final(st).teams == old(st).teams,
        final(st).memberships == old(st).memberships,
        swept_at(*old(st), *final(st), effects@, now, post_comments),
        sweep_quiet(*old(st), now, post_comments) ==> no_remote_writes(effects@),
{
    let ghost pre = *old(st);
    let ghost pend_p = |p: FcpProposal| p.fcp_start is None;
    let ghost fk = |p: FcpProposal| p.fk_issue;
    let mut pending: Vec<i64> = Vec::new();
    let np = st.proposals.len();
    let mut i: usize = 0;
    proof {
        reveal(Seq::filter);
        assert(pre.proposals@.take(0) =~= Seq::<FcpProposal>::empty());
        assert(pending@ =~= pre.proposals@.take(0).filter(pend_p).map_values(fk));
    }
    while i < np
        invariant
            i <= np,
            np == pre.proposals@.len(),
            *st == pre,
            pending@ == pre.proposals@.take(i as int).filter(|p: FcpProposal| p.fcp_start is None)
                .map_values(|p: FcpProposal| p.fk_issue),
        decreases np - i,
    {
        proof {
            reveal(Seq::filter);
            let pp = |p: FcpProposal| p.fcp_start is None;
            let ff = |p: FcpProposal| p.fk_issue;
            let prev = pre.proposals@.take(i as int);
            let cur = pre.proposals@.take(i as int + 1);
            assert(cur.drop_last() =~= prev);
            assert(cur.last() == pre.proposals@[i as int]);
            if pp(pre.proposals@[i as int]) {
                assert(cur.filter(pp) == prev.filter(pp).push(pre.proposals@[i as int]));
                assert(cur.filter(pp).map_values(ff) =~= prev.filter(pp).map_values(ff).push(
                    ff(pre.proposals@[i as int]),
                ));
            }
        }
        if st.proposals[i].fcp_start.is_none() {
            pending.push(st.proposals[i].fk_issue);
        }
        i += 1;
    }
    proof {
        assert(pre.proposals@.take(np as int) =~= pre.proposals@);
        lemma_pending_snapshot(pre, pending@);
    }
    let mut effects: Vec<Effect> = Vec::new();
    let n_pending = pending.len();
    let mut t: usize = 0;
    proof {
        assert(pending@.take(0) =~= Seq::<i64>::empty());
    }
    while t < n_pending
        invariant
            t <= n_pending,
            n_pending == pending@.len(),
            st.wf(),
            st.users == pre.users,
            st.issues == pre.issues,
            st.comments == pre.comments,
            st.teams == pre.teams,
            st.memberships == pre.memberships,
            pending@ == pre.proposals@.filter(|p: FcpProposal| p.fcp_start is None).map_values(
                |p: FcpProposal| p.fk_issue,
            ),
            forall|q: int|
                0 <= q < pending@.len() ==> proposal_idx(pre.proposals@, #[trigger] pending@[q])
                    is Some && proposal_of(pre, pending@[q]).fcp_start is None && proposal_of(
                    pre,
                    pending@[q],
                ).fk_issue == pending@[q],
            forall|a: int, b: int|
                #![trigger pending@[a], pending@[b]]
                0 <= a < b < pending@.len() ==> pending@[a] != pending@[b],
            forall|x: i64| !pending@.take(t as int).contains(x) ==> untouched(pre, *st, x),
            forall|q: int|
                0 <= q < t ==> pending_fate(
                    pre,
                    *st,
                    proposal_of(pre, #[trigger] pending@[q]),
                    effects@,
                    now,
                    post_comments,
                ),
            sweep_quiet(pre, now, post_comments) ==> no_remote_writes(effects@),
        decreases n_pending - t,
    {
        let pid = pending[t];
        let ghost st_before = *st;
        proof {
            assert(!pending@.take(t as int).contains(pid)) by {
                if pending@.take(t as int).contains(pid) {
                    let a = pending@.take(t as int).lemma_contains_to_index(pid);
                    assert(pending@[a] == pending@[t as int]);
                }
            }
            assert(untouched(pre, st_before, pid));
        }
        let mut step_effects = sweep_pending_one(st, pid, now, post_comments);
        let ghost se = step_effects@;
        let ghost e_before = effects@;
        effects.append(&mut step_effects);
        proof {
            assert forall|e: Effect| e_before.contains(e) implies #[trigger] effects@.contains(
                e,
            ) by {
                let a = e_before.lemma_contains_to_index(e);
                assert(effects@[a] == e);
            }
            assert forall|e: Effect| se.contains(e) implies #[trigger] effects@.contains(e) by {
                let a = se.lemma_contains_to_index(e);
                assert(effects@[e_before.len() + a] == e);
            }
            // the new fate, lifted to the snapshot and the full effect list
            lemma_pending_fate_stable(
                st_before,
                *st,
                *st,
                proposal_of(st_before, pid),
                se,
                effects@,
                now,
                post_comments,
            );
            lemma_pending_fate_transfer(
                pre,
                st_before,
                *st,
                proposal_of(pre, pid),
                effects@,
                now,
                post_comments,
            );
            // earlier fates survive this turn
            assert forall|q: int|
                0 <= q < t + 1 implies pending_fate(
                pre,
                *st,
                proposal_of(pre, #[trigger] pending@[q]),
                effects@,
                now,
                post_comments,
            ) by {
                if q < t {
                    assert(pending@[q] != pid);
                    lemma_pending_fate_stable(
                        pre,
                        st_before,
                        *st,
                        proposal_of(pre, pending@[q]),
                        e_before,
                        effects@,
                        now,
                        post_comments,
                    );
                }
            }
            // quiet sweeps stay quiet: this turn wrote nothing either
            if sweep_quiet(pre, now, post_comments) {
                let d = idx_or_zero(proposal_idx(pre.proposals@, pid));
                crate::model::lemma_find_idx(
                    pre.proposals@,
                    |q: FcpProposal| q.fk_issue == pid,
                );
                assert(pending_quiet(pre, proposal_of(pre, pid), post_comments));
                lemma_pending_quiet_transfer(
                    pre,
                    st_before,
                    proposal_of(pre, pid),
                    post_comments,
                );
                assert(no_remote_writes(se));
                assert forall|k: int|
                    0 <= k < effects@.len() implies match #[trigger] effects@[k] {
                    Effect::Comment(ce) => !ce.deliver,
                    Effect::StartFcp { .. } => false,
                } by {
                    if k < e_before.len() {
                        assert(effects@[k] == e_before[k]);
                    } else {
                        assert(effects@[k] == se[k - e_before.len()]);
                    }
                }
            }
            // untouched carries to the still-unprocessed rest
            assert forall|x: i64|
                !pending@.take(t as int + 1).contains(x) implies untouched(pre, *st, x) by {
                assert(!pending@.take(t as int).contains(x)) by {
                    if pending@.take(t as int).contains(x) {
                        let a = pending@.take(t as int).lemma_contains_to_index(x);
                        assert(pending@.take(t as int + 1)[a] == x);
                    }
                }
                assert(x != pid) by {
                    assert(pending@.take(t as int + 1)[t as int] == pid);
                }
                lemma_untouched_trans(pre, st_before, *st, x);
            }
        }
        t += 1;
    }
    let ghost mid = *st;
    proof {
        assert(pending@.take(n_pending as int) =~= pending@);
    }
    // snapshot of proposals whose waiting period has run out
    let ghost due_p = |p: FcpProposal| !p.fcp_closed && (p.fcp_start matches Some(s)
        && s + FCP_WINDOW_SECS <= now);
    let mut finished: Vec<i64> = Vec::new();
    let nf = st.proposals.len();
    let mut w: usize = 0;
    proof {
        reveal(Seq::filter);
        assert(mid.proposals@.take(0) =~= Seq::<FcpProposal>::empty());
        assert(finished@ =~= mid.proposals@.take(0).filter(due_p).map_values(fk));
    }
    while w < nf
        invariant
            w <= nf,
            nf == mid.proposals@.len(),
            *st == mid,
            finished@ == mid.proposals@.take(w as int).filter(
                |p: FcpProposal| !p.fcp_closed && (p.fcp_start matches Some(s)
                    && s + FCP_WINDOW_SECS <= now),
            ).map_values(|p: FcpProposal| p.fk_issue),
        decreases nf - w,
    {
        proof {
            reveal(Seq::filter);
            let dp = |p: FcpProposal| !p.fcp_closed && (p.fcp_start matches Some(s)
                && s + FCP_WINDOW_SECS <= now);
            let ff = |p: FcpProposal| p.fk_issue;
            let prev = mid.proposals@.take(w as int);
            let cur = mid.proposals@.take(w as int + 1);
            assert(cur.drop_last() =~= prev);
            assert(cur.last() == mid.proposals@[w as int]);
            if dp(mid.proposals@[w as int]) {
                assert(cur.filter(dp) == prev.filter(dp).push(mid.proposals@[w as int]));
                assert(cur.filter(dp).map_values(ff) =~= prev.filter(dp).map_values(ff).push(
                    ff(mid.proposals@[w as int]),
                ));
            }
        }
        let row = st.proposals[w];
        let mut due: bool = false;
        if !row.fcp_closed {
            match row.fcp_start {
                Some(s) => {
                    if (s as i128) + (FCP_WINDOW_SECS as i128) <= (now as i128) {
                        due = true;
                    }
                },
                None => {},
            }
        }
        if due {
            finished.push(row.fk_issue);
        }
        w += 1;
    }
    proof {
        assert(mid.proposals@.take(nf as int) =~= mid.proposals@);
        lemma_finished_snapshot(pre, mid, pending@, finished@, effects@, now, post_comments);
    }
    let n_finished = finished.len();
    let mut u: usize = 0;
    proof {
        assert(finished@.take(0) =~= Seq::<i64>::empty());
    }
    while u < n_finished
        invariant
            u <= n_finished,
            n_finished == finished@.len(),
            st.wf(),
            st.users == pre.users,
            st.issues == pre.issues,
            st.comments == pre.comments,
            st.teams == pre.teams,
            st.memberships == pre.memberships,
            forall|q: int|
                0 <= q < finished@.len() ==> proposal_idx(mid.proposals@, #[trigger] finished@[q])
                    is Some && !proposal_of(mid, finished@[q]).fcp_closed && (proposal_of(
                    mid,
                    finished@[q],
                ).fcp_start matches Some(s) && s + FCP_WINDOW_SECS <= now) && proposal_of(
                    mid,
                    finished@[q],
                ).fk_issue == finished@[q],
            forall|a: int, b: int|
                #![trigger finished@[a], finished@[b]]
                0 <= a < b < finished@.len() ==> finished@[a] != finished@[b],
            forall|x: i64| !finished@.take(u as int).contains(x) ==> untouched(mid, *st, x),
            forall|q: int|
                0 <= q < pending@.len() ==> pending_fate(
                    pre,
                    *st,
                    proposal_of(pre, #[trigger] pending@[q]),
                    effects@,
                    now,
                    post_comments,
                ),
            forall|q: int|
                0 <= q < u ==> finished_fate(
                    pre,
                    *st,
                    proposal_of(mid, #[trigger] finished@[q]),
                    effects@,
                    now,
                    post_comments,
                ),
            forall|q: int|
                0 <= q < finished@.len() ==> !pending@.contains(#[trigger] finished@[q]),
            forall|q: int|
                0 <= q < pending@.len() ==> proposal_idx(pre.proposals@, #[trigger] pending@[q])
                    is Some && proposal_of(pre, pending@[q]).fcp_start is None && proposal_of(
                    pre,
                    pending@[q],
                ).fk_issue == pending@[q],
            forall|x: i64| !pending@.contains(x) ==> untouched(pre, mid, x),
            mid.users == pre.users,
            mid.issues == pre.issues,
            mid.comments == pre.comments,
            sweep_quiet(pre, now, post_comments) ==> no_remote_writes(effects@),
            pre.wf(),
            mid.wf(),
            pending@ == pre.proposals@.filter(|p: FcpProposal| p.fcp_start is None).map_values(
                |p: FcpProposal| p.fk_issue,
            ),
            finished@ == mid.proposals@.filter(
                |p: FcpProposal| !p.fcp_closed && (p.fcp_start matches Some(s)
                    && s + FCP_WINDOW_SECS <= now),
            ).map_values(|p: FcpProposal| p.fk_issue),
        decreases n_finished - u,
    {
        let pid = finished[u];
        let ghost st_before = *st;
        proof {
            assert(!finished@.take(u as int).contains(pid)) by {
                if finished@.take(u as int).contains(pid) {
                    let a = finished@.take(u as int).lemma_contains_to_index(pid);
                    assert(finished@[a] == finished@[u as int]);
                }
            }
            assert(untouched(mid, st_before, pid));
        }
        let mut step_effects = sweep_finished_one(st, pid, now, post_comments);
        let ghost se = step_effects@;
        let ghost e_before = effects@;
        effects.append(&mut step_effects);
        proof {
            assert forall|e: Effect| e_before.contains(e) implies #[trigger] effects@.contains(
                e,
            ) by {
                let a = e_before.lemma_contains_to_index(e);
                assert(effects@[a] == e);
            }
            assert forall|e: Effect| se.contains(e) implies #[trigger] effects@.contains(e) by {
                let a = se.lemma_contains_to_index(e);
                assert(effects@[e_before.len() + a] == e);
            }
            lemma_finished_fate_stable(
                st_before,
                *st,
                *st,
                proposal_of(st_before, pid),
                se,
                effects@,
                now,
                post_comments,
            );
            lemma_finished_fate_transfer(
                mid,
                st_before,
                *st,
                proposal_of(mid, pid),
                effects@,
                now,
                post_comments,
            );
            assert forall|q: int|
                0 <= q < u + 1 implies finished_fate(
                pre,
                *st,
                proposal_of(mid, #[trigger] finished@[q]),
                effects@,
                now,
                post_comments,
            ) by {
                if q < u {
                    assert(finished@[q] != pid);
                    lemma_finished_fate_stable(
                        pre,
                        st_before,
                        *st,
                        proposal_of(mid, finished@[q]),
                        e_before,
                        effects@,
                        now,
                        post_comments,
                    );
                } else {
                    // lift the fate of this turn from the mid snapshot to pre
                    let p = proposal_of(mid, pid);
                    if !pending@.contains(pid) {
                        lemma_finished_fate_transfer(
                            pre,
                            mid,
                            *st,
                            proposal_of(pre, pid),
                            effects@,
                            now,
                            post_comments,
                        );
                    }
                }
            }
            assert forall|q: int|
                0 <= q < pending@.len() implies pending_fate(
                pre,
                *st,
                proposal_of(pre, #[trigger] pending@[q]),
                effects@,
                now,
                post_comments,
            ) by {
                assert(pending@[q] != pid);
                lemma_pending_fate_stable(
                    pre,
                    st_before,
                    *st,
                    proposal_of(pre, pending@[q]),
                    e_before,
                    effects@,
                    now,
                    post_comments,
                );
            }
            // quiet sweeps stay quiet through the closing phase too
            if sweep_quiet(pre, now, post_comments) {
                let d = idx_or_zero(proposal_idx(pre.proposals@, pid));
                crate::model::lemma_find_idx(
                    pre.proposals@,
                    |q: FcpProposal| q.fk_issue == pid,
                );
                assert(finished_quiet(pre, proposal_of(pre, pid), now, post_comments));
                assert(no_remote_writes(se));
                assert forall|k: int|
                    0 <= k < effects@.len() implies match #[trigger] effects@[k] {
                    Effect::Comment(ce) => !ce.deliver,
                    Effect::StartFcp { .. } => false,
                } by {
                    if k < e_before.len() {
                        assert(effects@[k] == e_before[k]);
                    } else {
                        assert(effects@[k] == se[k - e_before.len()]);
                    }
                }
            }
            assert forall|x: i64|
                !finished@.take(u as int + 1).contains(x) implies untouched(mid, *st, x) by {
                assert(!finished@.take(u as int).contains(x)) by {
                    if finished@.take(u as int).contains(x) {
                        let a = finished@.take(u as int).lemma_contains_to_index(x);
                        assert(finished@.take(u as int + 1)[a] == x);
                    }
                }
                assert(x != pid) by {
                    assert(finished@.take(u as int + 1)[u as int] == pid);
                }
                lemma_untouched_trans(mid, st_before, *st, x);
            }
        }
        u += 1;
    }
    proof {
        assert(finished@.take(n_finished as int) =~= finished@);
        lemma_assemble_fates(pre, mid, *st, pending@, finished@, effects@, now, post_comments);
        // issues with no proposal were never anyone's turn
        assert forall|x: i64| proposal_idx(pre.proposals@, x) is None implies untouched(
            pre,
            *st,
            x,
        ) by {
            assert(!pending@.contains(x)) by {
                if pending@.contains(x) {
                    let q = pending@.lemma_contains_to_index(x);
                    assert(proposal_idx(pre.proposals@, pending@[q]) is Some);
                }
            }
            assert(untouched(pre, mid, x));
            assert(!finished@.contains(x)) by {
                if finished@.contains(x) {
                    let q = finished@.lemma_contains_to_index(x);
                    assert(proposal_idx(mid.proposals@, finished@[q]) is Some);
                }
            }
            lemma_untouched_trans(pre, mid, *st, x);
        }
    }
    effects
}


/// What the pending snapshot lists: exactly the issues of proposals whose
/// waiting period has not begun, each once.
proof fn lemma_pending_snapshot(pre: Store, pending: Seq<i64>)
    requires
        pre.proposals_wf(),
        pending == pre.proposals@.filter(|p: FcpProposal| p.fcp_start is None).map_values(
            |p: FcpProposal| p.fk_issue,
        ),
    ensures
        forall|t: int|
            0 <= t < pending.len() ==> proposal_idx(pre.proposals@, #[trigger] pending[t]) is Some
                && proposal_of(pre, pending[t]).fcp_start is None && proposal_of(
                pre,
                pending[t],
            ).fk_issue == pending[t],
        forall|j: int|
            0 <= j < pre.proposals@.len() && (#[trigger] pre.proposals@[j]).fcp_start is None
                ==> pending.contains(pre.proposals@[j].fk_issue),
        forall|a: int, b: int|
            #![trigger pending[a], pending[b]]
            0 <= a < b < pending.len() ==> pending[a] != pending[b],
{
    let pend_p = |p: FcpProposal| p.fcp_start is None;
    let pfil = pre.proposals@.filter(pend_p);
    crate::order::lemma_filter_pairwise(
        pre.proposals@,
        pend_p,
        |a: FcpProposal, b: FcpProposal| a.fk_issue == b.fk_issue,
    );
    assert forall|t: int|
        0 <= t < pending.len() implies proposal_idx(pre.proposals@, #[trigger] pending[t]) is Some
        && proposal_of(pre, pending[t]).fcp_start is None && proposal_of(pre, pending[t]).fk_issue
        == pending[t] by {
        assert(pending[t] == pfil[t].fk_issue);
        pre.proposals@.lemma_filter_pred(pend_p, t);
        assert(pfil.contains(pfil[t]));
        pre.proposals@.lemma_filter_contains_rev(pend_p, pfil[t]);
        let c = pre.proposals@.lemma_contains_to_index(pfil[t]);
        lemma_proposal_exists(pre.proposals@, pending[t]);
        let d = idx_or_zero(proposal_idx(pre.proposals@, pending[t]));
        crate::model::lemma_find_idx(pre.proposals@, |p: FcpProposal| p.fk_issue == pending[t]);
        if c != d {
            assert(pre.proposals@[c].fk_issue != pre.proposals@[d].fk_issue);
        }
    }
    assert forall|j: int|
        0 <= j < pre.proposals@.len() && (#[trigger] pre.proposals@[j]).fcp_start is None
        implies pending.contains(pre.proposals@[j].fk_issue) by {
        pre.proposals@.lemma_filter_contains(pend_p, j);
        let a = pfil.lemma_contains_to_index(pre.proposals@[j]);
        assert(pending[a] == pfil[a].fk_issue);
    }
    assert forall|a: int, b: int|
        #![trigger pending[a], pending[b]]
        0 <= a < b < pending.len() implies pending[a] != pending[b] by {
        assert(pending[a] == pfil[a].fk_issue && pending[b] == pfil[b].fk_issue);
    }
}

/// What the closing snapshot lists: exactly the issues of proposals whose
/// waiting period has run out, each once, and none of them touched by the
/// pending phase.
proof fn lemma_finished_snapshot(
    pre: Store,
    mid: Store,
    pending: Seq<i64>,
    finished: Seq<i64>,
    effects: Seq<Effect>,
    now: i64,
    post_comments: bool,
)
    requires
        pre.wf(),
        mid.proposals_wf(),
        pending == pre.proposals@.filter(|p: FcpProposal| p.fcp_start is None).map_values(
            |p: FcpProposal| p.fk_issue,
        ),
        finished == mid.proposals@.filter(
            |p: FcpProposal| !p.fcp_closed && (p.fcp_start matches Some(s) && s + FCP_WINDOW_SECS
                <= now),
        ).map_values(|p: FcpProposal| p.fk_issue),
        forall|q: int|
            0 <= q < pending.len() ==> pending_fate(
                pre,
                mid,
                proposal_of(pre, #[trigger] pending[q]),
                effects,
                now,
                post_comments,
            ),
        forall|q: int|
            0 <= q < pending.len() ==> proposal_idx(pre.proposals@, #[trigger] pending[q]) is Some
                && proposal_of(pre, pending[q]).fcp_start is None && proposal_of(
                pre,
                pending[q],
            ).fk_issue == pending[q],
        forall|x: i64| !pending.contains(x) ==> untouched(pre, mid, x),
    ensures
        forall|u: int|
            0 <= u < finished.len() ==> proposal_idx(mid.proposals@, #[trigger] finished[u])
                is Some && !proposal_of(mid, finished[u]).fcp_closed && (proposal_of(
                mid,
                finished[u],
            ).fcp_start matches Some(s) && s + FCP_WINDOW_SECS <= now) && proposal_of(
                mid,
                finished[u],
            ).fk_issue == finished[u],
        forall|a: int, b: int|
            #![trigger finished[a], finished[b]]
            0 <= a < b < finished.len() ==> finished[a] != finished[b],
        forall|u: int| 0 <= u < finished.len() ==> !pending.contains(#[trigger] finished[u]),
{
    let due_p = |p: FcpProposal| !p.fcp_closed && (p.fcp_start matches Some(s)
        && s + FCP_WINDOW_SECS <= now);
    let ffil = mid.proposals@.filter(due_p);
    crate::order::lemma_filter_pairwise(
        mid.proposals@,
        due_p,
        |a: FcpProposal, b: FcpProposal| a.fk_issue == b.fk_issue,
    );
    assert forall|u: int|
        0 <= u < finished.len() implies proposal_idx(mid.proposals@, #[trigger] finished[u])
        is Some && !proposal_of(mid, finished[u]).fcp_closed && (proposal_of(
        mid,
        finished[u],
    ).fcp_start matches Some(s) && s + FCP_WINDOW_SECS <= now) && proposal_of(
        mid,
        finished[u],
    ).fk_issue == finished[u] by {
        assert(finished[u] == ffil[u].fk_issue);
        mid.proposals@.lemma_filter_pred(due_p, u);
        assert(ffil.contains(ffil[u]));
        mid.proposals@.lemma_filter_contains_rev(due_p, ffil[u]);
        let c = mid.proposals@.lemma_contains_to_index(ffil[u]);
        lemma_proposal_exists(mid.proposals@, finished[u]);
        let d = idx_or_zero(proposal_idx(mid.proposals@, finished[u]));
        crate::model::lemma_find_idx(mid.proposals@, |p: FcpProposal| p.fk_issue == finished[u]);
        if c != d {
            assert(mid.proposals@[c].fk_issue != mid.proposals@[d].fk_issue);
        }
    }
    assert forall|a: int, b: int|
        #![trigger finished[a], finished[b]]
        0 <= a < b < finished.len() implies finished[a] != finished[b] by {
        assert(finished[a] == ffil[a].fk_issue && finished[b] == ffil[b].fk_issue);
    }
    assert forall|u: int|
        0 <= u < finished.len() implies !pending.contains(#[trigger] finished[u]) by {
        if pending.contains(finished[u]) {
            let q = pending.lemma_contains_to_index(finished[u]);
            assert(pending_fate(
                pre,
                mid,
                proposal_of(pre, pending[q]),
                effects,
                now,
                post_comments,
            ));
        }
    }
}

/// Joins the two phases' turn promises into one statement over the sweep's
/// starting snapshot.
proof fn lemma_assemble_fates(
    pre: Store,
    mid: Store,
    fin: Store,
    pending: Seq<i64>,
    finished: Seq<i64>,
    effects: Seq<Effect>,
    now: i64,
    post_comments: bool,
)
    requires
        pre.wf(),
        mid.proposals_wf(),
        pending == pre.proposals@.filter(|p: FcpProposal| p.fcp_start is None).map_values(
            |p: FcpProposal| p.fk_issue,
        ),
        finished == mid.proposals@.filter(
            |p: FcpProposal| !p.fcp_closed && (p.fcp_start matches Some(s) && s + FCP_WINDOW_SECS
                <= now),
        ).map_values(|p: FcpProposal| p.fk_issue),
        forall|q: int|
            0 <= q < pending.len() ==> proposal_idx(pre.proposals@, #[trigger] pending[q]) is Some
                && proposal_of(pre, pending[q]).fcp_start is None && proposal_of(
                pre,
                pending[q],
            ).fk_issue == pending[q],
        forall|q: int|
            0 <= q < finished.len() ==> proposal_idx(mid.proposals@, #[trigger] finished[q])
                is Some && !proposal_of(mid, finished[q]).fcp_closed && (proposal_of(
                mid,
                finished[q],
            ).fcp_start matches Some(s) && s + FCP_WINDOW_SECS <= now) && proposal_of(
                mid,
                finished[q],
            ).fk_issue == finished[q],
        forall|q: int|
            0 <= q < pending.len() ==> pending_fate(
                pre,
                fin,
                proposal_of(pre, #[trigger] pending[q]),
                effects,
                now,
                post_comments,
            ),
        forall|q: int|
            0 <= q < finished.len() ==> finished_fate(
                pre,
                fin,
                proposal_of(mid, #[trigger] finished[q]),
                effects,
                now,
                post_comments,
            ),
        forall|x: i64| !pending.contains(x) ==> untouched(pre, mid, x),
        forall|x: i64| !finished.contains(x) ==> untouched(mid, fin, x),
    ensures
        forall|j: int|
            0 <= j < pre.proposals@.len() ==> {
                let p = #[trigger] pre.proposals@[j];
                if p.fcp_start is None {
                    pending_fate(pre, fin, p, effects, now, post_comments)
                } else {
                    finished_fate(pre, fin, p, effects, now, post_comments)
                }
            },
{
    let pend_p = |p: FcpProposal| p.fcp_start is None;
    let due_p = |p: FcpProposal| !p.fcp_closed && (p.fcp_start matches Some(s)
        && s + FCP_WINDOW_SECS <= now);
    lemma_pending_snapshot(pre, pending);
    assert forall|j: int|
        0 <= j < pre.proposals@.len() implies {
        let p = #[trigger] pre.proposals@[j];
        if p.fcp_start is None {
            pending_fate(pre, fin, p, effects, now, post_comments)
        } else {
            finished_fate(pre, fin, p, effects, now, post_comments)
        }
    } by {
        let p = pre.proposals@[j];
        let x = p.fk_issue;
        lemma_proposal_exists(pre.proposals@, x);
        let d = idx_or_zero(proposal_idx(pre.proposals@, x));
        crate::model::lemma_find_idx(pre.proposals@, |q: FcpProposal| q.fk_issue == x);
        if d != j {
            assert(pre.proposals@[d].fk_issue != pre.proposals@[j].fk_issue);
        }
        assert(proposal_of(pre, x) == p);
        if p.fcp_start is None {
            assert(pending.contains(x));
            let q = pending.lemma_contains_to_index(x);
            assert(proposal_of(pre, pending[q]) == p);
        } else {
            assert(!pending.contains(x)) by {
                if pending.contains(x) {
                    let q = pending.lemma_contains_to_index(x);
                    assert(proposal_of(pre, pending[q]) == p);
                }
            }
            assert(untouched(pre, mid, x));
            assert(proposal_of(mid, x) == p);
            match p.fcp_start {
                None => {},
                Some(s) => {
                    if !p.fcp_closed && s + FCP_WINDOW_SECS <= now {
                        // this proposal is in the closing snapshot
                        let dd = idx_or_zero(proposal_idx(mid.proposals@, x));
                        crate::model::lemma_find_idx(
                            mid.proposals@,
                            |q: FcpProposal| q.fk_issue == x,
                        );
                        assert(mid.proposals@[dd] == p);
                        mid.proposals@.lemma_filter_contains(due_p, dd);
                        let ffil = mid.proposals@.filter(due_p);
                        let a = ffil.lemma_contains_to_index(p);
                        assert(finished[a] == ffil[a].fk_issue);
                        assert(finished.contains(x));
                        let q = finished.lemma_contains_to_index(x);
                        assert(proposal_of(mid, finished[q]) == p);
                    } else {
                        assert(!finished.contains(x)) by {
                            if finished.contains(x) {
                                let q = finished.lemma_contains_to_index(x);
                                assert(proposal_of(mid, finished[q]) == p);
                            }
                        }
                        lemma_untouched_trans(pre, mid, fin, x);
                    }
                },
            }
        }
    }
}


/// Relies on chrono's `Utc::now`: the current time read from the system
/// clock, reduced to whole seconds since the epoch by `DateTime::timestamp`.
/// Nothing can be promised of a clock reading, so the callers state what
/// holds for every instant.
#[verifier::external_body]
fn now_seconds() -> i64 {
    chrono::Utc::now().timestamp()
}

/// One reconciliation cycle at the clock's current instant. The promises of
/// [`evaluate_nags_at`] hold for whatever instant the clock returned.
pub fn evaluate_nags(st: &mut Store, post_comments: bool) -> (effects: Vec<Effect>)
    requires
        old(st).wf(),
    ensures
        final(st).wf(),
        final(st).users == old(st).users,
        final(st).issues == old(st).issues,
        final(st).comments == old(st).comments,
        final(st).teams == old(st).teams,
        final(st).memberships == old(st).memberships,
        exists|now: i64| #[trigger] swept_at(*old(st), *final(st), effects@, now, post_comments),
{
    let now = now_seconds();
    let effects = evaluate_nags_at(st, now, post_comments);
    proof {
        assert(swept_at(*old(st), *st, effects@, now, post_comments));
    }
    effects
}

/// A plain comment's only store change: the author's open feedback request
/// on the issue, if one stands, is closed by this comment.
pub open spec fn feedback_resolved(
    pre: Store,
    post: Store,
    requested: i64,
    issue_id: i64,
    comment_id: i64,
) -> bool {
    &&& post.users == pre.users
    &&& post.issues == pre.issues
    &&& post.comments == pre.comments
    &&& post.proposals == pre.proposals
    &&& post.review_requests == pre.review_requests
    &&& post.concerns == pre.concerns
    &&& post.teams == pre.teams
    &&& post.memberships == pre.memberships
    &&& post.feedback_requests@ == match crate::model::open_feedback_idx(
        pre.feedback_requests@,
        requested,
        issue_id,
    ) {
        Some(i) => pre.feedback_requests@.update(
            i,
            FeedbackRequest { fk_feedback_comment: Some(comment_id), ..pre.feedback_requests@[i] },
        ),
        None => pre.feedback_requests@,
    }
}

/// A command's promise reads the issue argument only through its id, number,
/// repository text and open flag, so it carries between two rows that agree
/// on those fields (such as a fetched copy and the store's own row).
proof fn lemma_process_done_issue_fields(
    cmd: crate::command::CommandView,
    pre: Store,
    post: Store,
    effects: Seq<Effect>,
    author: GitHubUser,
    i1: Issue,
    i2: Issue,
    comment_id: i64,
    post_comments: bool,
)
    requires
        crate::machine::process_done_spec(
            cmd,
            pre,
            post,
            effects,
            author,
            i1,
            comment_id,
            post_comments,
        ),
        i1.id == i2.id,
        i1.number == i2.number,
        i1.repository@ == i2.repository@,
        i1.open == i2.open,
    ensures
        crate::machine::process_done_spec(
            cmd,
            pre,
            post,
            effects,
            author,
            i2,
            comment_id,
            post_comments,
        ),
{
}

/// A handled comment's end-to-end promise: some intermediate store and some
/// split of the effect list witness that the parsed command's transition (or,
/// for a plain comment, the feedback resolution) ran first and one
/// reconciliation cycle followed.
pub open spec fn swept_outcome(
    pre: Store,
    post: Store,
    effects: Seq<Effect>,
    body: Seq<char>,
    fk_user: i64,
    fk_issue: i64,
    comment_id: i64,
    now: i64,
    post_comments: bool,
) -> bool {
    exists|mid: Store, n_cmd: int|
        #![trigger swept_at(mid, post, effects.skip(n_cmd), now, post_comments)]
        {
            &&& 0 <= n_cmd <= effects.len()
            &&& swept_at(mid, post, effects.skip(n_cmd), now, post_comments)
            &&& match crate::command::parse_spec(body, "@rfcbot"@) {
                Some(cmd) => crate::machine::process_done_spec(
                    cmd,
                    pre,
                    mid,
                    effects.take(n_cmd),
                    user_of(pre, fk_user),
                    issue_of(pre, fk_issue),
                    comment_id,
                    post_comments,
                ),
                None => n_cmd == 0 && feedback_resolved(pre, mid, fk_user, fk_issue, comment_id),
            }
        }
}

/// How one inbound comment was handled.
#[derive(Debug, Eq, PartialEq)]
pub enum UpdateOutcome {
    /// The comment carried a command, but its author is outside the issue's
    /// subteam: silently ignored.
    Unauthorized,
    /// The command could not be applied; nothing further was done.
    CommandFailed(BotError),
    /// A new proposal was accepted: the caller must post `body` on the issue
    /// and then call [`crate::machine::finish_propose`] with the posted
    /// comment's id, followed by a sweep.
    NeedProposalComment { body: String, disposition: crate::command::FcpDisposition },
    /// The comment was handled (a command, or feedback resolution for a plain
    /// comment) and the reconciliation sweep ran; perform the effects.
    Swept { effects: Vec<Effect> },
}

/// Handles one inbound comment: parse a command out of it; apply it when its
/// author belongs to the issue's subteam; treat a plain comment as possible
/// feedback; then run the reconciliation sweep. Mirrors are read from the
/// store; the caller records inbound comments there first.
pub fn update_nags(st: &mut Store, comment: &IssueComment, now: i64, post_comments: bool) -> (r:
    Result<UpdateOutcome, BotError>)
    requires
        old(st).wf(),
    ensures
        final(st).wf(),
        final(st).users == old(st).users,
        final(st).issues == old(st).issues,
        final(st).teams == old(st).teams,
        final(st).memberships == old(st).memberships,
        match r {
            Err(e) => *final(st) == *old(st) && ((e == BotError::IssueNotFound && issue_idx(
                old(st).issues@,
                comment.fk_issue,
            ) is None) || (e == BotError::UserNotFound && issue_idx(
                old(st).issues@,
                comment.fk_issue,
            ) is Some && user_idx(old(st).users@, comment.fk_user) is None)),
            Ok(outcome) => issue_idx(old(st).issues@, comment.fk_issue) is Some && user_idx(
                old(st).users@,
                comment.fk_user,
            ) is Some && match outcome {
                UpdateOutcome::Unauthorized => *final(st) == *old(st) && crate::command::parse_spec(
                    comment.body@,
                    "@rfcbot"@,
                ) is Some && !crate::machine::subteam_member_spec(
                    *old(st),
                    issue_of(*old(st), comment.fk_issue),
                    comment.fk_user,
                ),
                UpdateOutcome::CommandFailed(_) => *final(st) == *old(st)
                    && crate::command::parse_spec(comment.body@, "@rfcbot"@) is Some
                    && crate::machine::subteam_member_spec(
                    *old(st),
                    issue_of(*old(st), comment.fk_issue),
                    comment.fk_user,
                ),
                UpdateOutcome::NeedProposalComment { body, disposition } => {
                    &&& *final(st) == *old(st)
                    &&& crate::command::parse_spec(comment.body@, "@rfcbot"@) == Some(
                        crate::command::CommandView::FcpPropose(disposition),
                    )
                    &&& crate::machine::subteam_member_spec(
                        *old(st),
                        issue_of(*old(st), comment.fk_issue),
                        comment.fk_user,
                    )
                    &&& proposal_idx(old(st).proposals@, comment.fk_issue) is None
                    &&& post_comments
                    &&& issue_of(*old(st), comment.fk_issue).open
                    &&& body@ == crate::render::proposal_body_s(
                        issue_of(*old(st), comment.fk_issue),
                        crate::machine::user_of(*old(st), comment.fk_user),
                        disposition,
                        Seq::empty(),
                        Seq::empty(),
                    )
                },
                UpdateOutcome::Swept { effects } => {
                    &&& (crate::command::parse_spec(comment.body@, "@rfcbot"@) is Some
                        ==> crate::machine::subteam_member_spec(
                        *old(st),
                        issue_of(*old(st), comment.fk_issue),
                        comment.fk_user,
                    ))
                    &&& swept_outcome(
                        *old(st),
                        *final(st),
                        effects@,
                        comment.body@,
                        comment.fk_user,
                        comment.fk_issue,
                        comment.id,
                        now,
                        post_comments,
                    )
                },
            },
        },
{
    let ii = match st.issue_pos(comment.fk_issue) {
        Some(ii) => ii,
        None => {
            return Err(BotError::IssueNotFound);
        },
    };
    let issue = st.issues[ii].clone();
    let ui = match st.user_pos(comment.fk_user) {
        Some(ui) => ui,
        None => {
            return Err(BotError::UserNotFound);
        },
    };
    let author = st.users[ui].clone();
    proof {
        assert(crate::machine::subteam_member_spec(*st, issue, author.id)
            == crate::machine::subteam_member_spec(
            *st,
            issue_of(*st, comment.fk_issue),
            comment.fk_user,
        ));
    }
    match crate::command::RfcBotCommand::from_str(comment.body.as_str()) {
        Some(cmd) => {
            if !crate::machine::is_subteam_member(st, &issue, author.id) {
                return Ok(UpdateOutcome::Unauthorized);
            }
            match cmd.process(st, &author, &issue, comment.id, post_comments) {
                Err(e) => Ok(UpdateOutcome::CommandFailed(e)),
                Ok(crate::machine::ProcessStep::NeedProposalComment { body, disposition }) => Ok(
                    UpdateOutcome::NeedProposalComment { body, disposition },
                ),
                Ok(crate::machine::ProcessStep::Done(mut effects)) => {
                    let ghost mid = *st;
                    let ghost cmd_effects = effects@;
                    let mut sweep_effects = evaluate_nags_at(st, now, post_comments);
                    let ghost swe = sweep_effects@;
                    effects.append(&mut sweep_effects);
                    proof {
                        let n_cmd = cmd_effects.len() as int;
                        assert(effects@.take(n_cmd) =~= cmd_effects);
                        assert(effects@.skip(n_cmd) =~= swe);
                        lemma_process_done_issue_fields(
                            cmd@,
                            *old(st),
                            mid,
                            cmd_effects,
                            author,
                            issue,
                            issue_of(*old(st), comment.fk_issue),
                            comment.id,
                            post_comments,
                        );
                        assert(author == user_of(*old(st), comment.fk_user));
                        assert(crate::machine::process_done_spec(
                            cmd@,
                            *old(st),
                            mid,
                            effects@.take(n_cmd),
                            user_of(*old(st), comment.fk_user),
                            issue_of(*old(st), comment.fk_issue),
                            comment.id,
                            post_comments,
                        ));
                        assert(swept_at(mid, *st, effects@.skip(n_cmd), now, post_comments));
                        assert(0 <= n_cmd <= effects@.len());
                        assert(swept_outcome(
                            *old(st),
                            *st,
                            effects@,
                            comment.body@,
                            comment.fk_user,
                            comment.fk_issue,
                            comment.id,
                            now,
                            post_comments,
                        ));
                    }
                    Ok(UpdateOutcome::Swept { effects })
                },
            }
        },
        None => {
            crate::machine::resolve_applicable_feedback_requests(
                st,
                author.id,
                issue.id,
                comment.id,
            );
            let ghost mid = *st;
            let effects = evaluate_nags_at(st, now, post_comments);
            proof {
                assert(author.id == comment.fk_user);
                assert(issue.id == comment.fk_issue);
                assert(feedback_resolved(*old(st), mid, comment.fk_user, comment.fk_issue, comment.id));
                assert(effects@.skip(0) =~= effects@);
                assert(effects@.take(0) =~= Seq::<Effect>::empty());
                assert(swept_at(mid, *st, effects@.skip(0), now, post_comments));
                assert(swept_outcome(
                    *old(st),
                    *st,
                    effects@,
                    comment.body@,
                    comment.fk_user,
                    comment.fk_issue,
                    comment.id,
                    now,
                    post_comments,
                ));
            }
            Ok(UpdateOutcome::Swept { effects })
        },
    }
}

} // verus!







