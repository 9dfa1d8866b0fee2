//! The proposal state machine: resolving the subteam whose sign-off an issue
//! needs, listing a proposal's reviews and concerns for the renderer, and the
//! event-driven transitions a parsed command performs against the store.
//!
//! Platform writes are returned as [`Effect`] values; the caller performs
//! them. A proposal opens in two steps (see [`RfcBotCommand::process`] and
//! [`finish_propose`]), because the platform assigns the tracking comment's
//! id when the initial status comment is posted.

use vstd::prelude::*;
use vstd::relations::sorted_by;

use crate::command::{FcpDisposition, RfcBotCommand};
use crate::model::{
    authored_concern_idx, comment_idx, issue_idx, lemma_find_idx, lemma_proposal_exists, lemma_rr_exists,
    lemma_user_exists,
    open_feedback_idx, proposal_idx, rr_idx, unresolved_concern_idx, user_idx, user_login_idx,
    BotError, CommentEffect, CommentTarget, Effect, FcpConcern, FcpProposal, FcpReviewRequest,
    FeedbackRequest, GitHubUser, Issue, IssueComment, Store,
};
use crate::order::{
    chars_le, concern_pair_le, lemma_filter_elementwise, lemma_filter_pairwise,
    lemma_multiset_pairwise, rr_pair_le, sort_concern_pairs_by_name, sort_rr_pairs_by_login,
    sort_users_by_login, user_le,
};
use crate::render::{cancellation_body, cancellation_body_s, plan_comment, proposal_body};
use crate::text::str_eq;

verus! {

/// One of the issue's labels reads `label`.
pub open spec fn label_tagged(labels: Seq<String>, label: Seq<char>) -> bool {
    exists|i: int| 0 <= i < labels.len() && labels[i]@ == label
}

/// Decides [`label_tagged`].
pub fn has_label(issue: &Issue, label: &str) -> (r: bool)
    ensures
        r == label_tagged(issue.labels@, label@),
{
    let n = issue.labels.len();
    let mut i: usize = 0;
    while i < n
        invariant
            i <= n,
            n == issue.labels@.len(),
            forall|j: int| 0 <= j < i ==> issue.labels@[j]@ != label@,
        decreases n - i,
    {
        if str_eq(issue.labels[i].as_str(), label) {
            return true;
        }
        i += 1;
    }
    false
}

/// The user belongs to a team whose label tags the issue: the roster joins
/// issue labels to teams and teams to members.
pub open spec fn subteam_member_spec(st: Store, issue: Issue, uid: i64) -> bool {
    exists|t: int, m: int|
        0 <= t < st.teams@.len() && 0 <= m < st.memberships@.len() && label_tagged(
            issue.labels@,
            st.teams@[t].label@,
        ) && st.memberships@[m].fk_team == st.teams@[t].id && st.memberships@[m].fk_member == uid
}

/// Decides [`subteam_member_spec`].
pub fn is_subteam_member(st: &Store, issue: &Issue, uid: i64) -> (r: bool)
    ensures
        r == subteam_member_spec(*st, *issue, uid),
{
    let nt = st.teams.len();
    let mut t: usize = 0;
    while t < nt
        invariant
            t <= nt,
            nt == st.teams@.len(),
            forall|a: int, m: int|
                0 <= a < t && 0 <= m < st.memberships@.len() ==> !(label_tagged(
                    issue.labels@,
                    #[trigger] st.teams@[a].label@,
                ) && #[trigger] st.memberships@[m].fk_team == st.teams@[a].id
                    && st.memberships@[m].fk_member == uid),
        decreases nt - t,
    {
        if has_label(issue, st.teams[t].label.as_str()) {
            let nm = st.memberships.len();
            let mut m: usize = 0;
            while m < nm
                invariant
                    m <= nm,
                    t < nt,
                    nm == st.memberships@.len(),
                    nt == st.teams@.len(),
                    label_tagged(issue.labels@, st.teams@[t as int].label@),
                    forall|b: int|
                        0 <= b < m ==> !(#[trigger] st.memberships@[b].fk_team
                            == st.teams@[t as int].id && st.memberships@[b].fk_member == uid),
                decreases nm - m,
            {
                if st.memberships[m].fk_team == st.teams[t].id && st.memberships[m].fk_member
                    == uid {
                    return true;
                }
                m += 1;
            }
        }
        t += 1;
    }
    false
}

/// Lists the issue's subteam members: every user on the roster whose team is
/// tagged on the issue, each once, ordered by login.
pub fn subteam_members(st: &Store, issue: &Issue) -> (r: Vec<GitHubUser>)
    requires
        st.users_wf(),
    ensures
        sorted_by(r@, |a: GitHubUser, b: GitHubUser| user_le(a, b)),
        r@.to_multiset() == st.users@.filter(
            |u: GitHubUser| subteam_member_spec(*st, *issue, u.id),
        ).to_multiset(),
        forall|a: int, b: int| 0 <= a < b < r@.len() ==> r@[a].id != r@[b].id,
{
    let ghost p = |u: GitHubUser| subteam_member_spec(*st, *issue, u.id);
    let mut picked: Vec<GitHubUser> = Vec::new();
    let n = st.users.len();
    let mut i: usize = 0;
    proof {
        reveal(Seq::filter);
        assert(st.users@.take(0) =~= Seq::<GitHubUser>::empty());
        assert(picked@ =~= st.users@.take(0).filter(p));
    }
    while i < n
        invariant
            i <= n,
            n == st.users@.len(),
            picked@ == st.users@.take(i as int).filter(
                |u: GitHubUser| subteam_member_spec(*st, *issue, u.id),
            ),
        decreases n - i,
    {
        let keep = is_subteam_member(st, issue, st.users[i].id);
        proof {
            reveal(Seq::filter);
            assert(st.users@.take(i as int + 1).drop_last() =~= st.users@.take(i as int));
            assert(st.users@.take(i as int + 1).last() == st.users@[i as int]);
        }
        if keep {
            picked.push(st.users[i].clone());
        }
        i += 1;
    }
    proof {
        assert(st.users@.take(n as int) =~= st.users@);
    }
    let r = sort_users_by_login(picked);
    proof {
        let bad = |a: GitHubUser, b: GitHubUser| a.id == b.id;
        lemma_filter_pairwise(st.users@, p, bad);
        lemma_multiset_pairwise(st.users@.filter(p), r@, bad);
    }
    r
}

/// First-match position unwrapped, for stating which row a lookup names.
pub open spec fn idx_or_zero(o: Option<int>) -> int {
    match o {
        Some(i) => i,
        None => 0,
    }
}

/// The roster row behind a review request (meaningful when the lookup
/// succeeds).
pub open spec fn reviewer_of(st: Store, rr: FcpReviewRequest) -> GitHubUser {
    st.users@[idx_or_zero(user_idx(st.users@, rr.fk_reviewer))]
}

/// The roster row behind a concern's initiator.
pub open spec fn concern_author_of(st: Store, c: FcpConcern) -> GitHubUser {
    st.users@[idx_or_zero(user_idx(st.users@, c.fk_initiator))]
}

/// The issue row with this id (meaningful when the lookup succeeds).
pub open spec fn issue_of(st: Store, id: i64) -> Issue {
    st.issues@[idx_or_zero(issue_idx(st.issues@, id))]
}

/// The user row with this id.
pub open spec fn user_of(st: Store, id: i64) -> GitHubUser {
    st.users@[idx_or_zero(user_idx(st.users@, id))]
}

/// The live proposal of this issue.
pub open spec fn proposal_of(st: Store, issue: i64) -> FcpProposal {
    st.proposals@[idx_or_zero(proposal_idx(st.proposals@, issue))]
}

/// The mirrored comment with this id.
pub open spec fn comment_of(st: Store, id: i64) -> IssueComment {
    st.comments@[idx_or_zero(comment_idx(st.comments@, id))]
}

/// The mirrored comment's text.
pub open spec fn comment_body_of(st: Store, id: i64) -> Seq<char> {
    comment_of(st, id).body@
}

/// The review requests of one proposal.
pub open spec fn rrs_of(s: Seq<FcpReviewRequest>, pid: i64) -> Seq<FcpReviewRequest> {
    s.filter(|r: FcpReviewRequest| r.fk_proposal == pid)
}

/// The concerns of one proposal.
pub open spec fn concerns_of(s: Seq<FcpConcern>, pid: i64) -> Seq<FcpConcern> {
    s.filter(|c: FcpConcern| c.fk_proposal == pid)
}

/// The feedback requests standing on one issue.
pub open spec fn fb_of(s: Seq<FeedbackRequest>, issue: i64) -> Seq<FeedbackRequest> {
    s.filter(|f: FeedbackRequest| f.fk_issue == issue)
}

/// Lists a proposal's review requests, each paired with its requested member's
/// roster row, ordered by login. Fails when a requested member is missing from the
/// roster.
pub fn list_review_requests(st: &Store, proposal_id: i64) -> (r: Result<
    Vec<(GitHubUser, FcpReviewRequest)>,
    BotError,
>)
    ensures
        match r {
            Ok(v) => {
                &&& sorted_by(
                    v@,
                    |a: (GitHubUser, FcpReviewRequest), b: (GitHubUser, FcpReviewRequest)|
                        rr_pair_le(a, b),
                )
                &&& v@.to_multiset() == rrs_of(st.review_requests@, proposal_id).map_values(
                    |rr: FcpReviewRequest| (reviewer_of(*st, rr), rr),
                ).to_multiset()
                &&& forall|k: int|
                    0 <= k < rrs_of(st.review_requests@, proposal_id).len() ==> user_idx(
                        st.users@,
                        #[trigger] rrs_of(st.review_requests@, proposal_id)[k].fk_reviewer,
                    ) is Some
            },
            Err(e) => e == BotError::UserNotFound && exists|k: int|
                0 <= k < st.review_requests@.len() && (#[trigger] st.review_requests@[k]).fk_proposal
                    == proposal_id && user_idx(st.users@, st.review_requests@[k].fk_reviewer) is None,
        },
{
    let ghost p = |r: FcpReviewRequest| r.fk_proposal == proposal_id;
    let ghost f = |rr: FcpReviewRequest| (reviewer_of(*st, rr), rr);
    let mut pairs: Vec<(GitHubUser, FcpReviewRequest)> = Vec::new();
    let n = st.review_requests.len();
    let mut i: usize = 0;
    proof {
        reveal(Seq::filter);
        assert(st.review_requests@.take(0) =~= Seq::<FcpReviewRequest>::empty());
        assert(pairs@ =~= st.review_requests@.take(0).filter(p).map_values(f));
    }
    while i < n
        invariant
            i <= n,
            n == st.review_requests@.len(),
            pairs@ == st.review_requests@.take(i as int).filter(
                |r: FcpReviewRequest| r.fk_proposal == proposal_id,
            ).map_values(|rr: FcpReviewRequest| (reviewer_of(*st, rr), rr)),
            forall|k: int|
                0 <= k < pairs@.len() ==> user_idx(
                    st.users@,
                    (#[trigger] pairs@[k]).1.fk_reviewer,
                ) is Some,
        decreases n - i,
    {
        let rr = st.review_requests[i];
        if rr.fk_proposal == proposal_id {
            match st.user_pos(rr.fk_reviewer) {
                None => {
                    return Err(BotError::UserNotFound);
                },
                Some(k) => {
                    pairs.push((st.users[k].clone(), rr));
                    proof {
                        reveal(Seq::filter);
                        let p = |r: FcpReviewRequest| r.fk_proposal == proposal_id;
                        let f = |rr: FcpReviewRequest| (reviewer_of(*st, rr), rr);
                        let prev = st.review_requests@.take(i as int);
                        let cur = st.review_requests@.take(i as int + 1);
                        assert(cur.drop_last() =~= prev);
                        assert(cur.last() == st.review_requests@[i as int]);
                        assert(cur.filter(p) == prev.filter(p).push(
                            st.review_requests@[i as int],
                        ));
                        assert(cur.filter(p).map_values(f) =~= prev.filter(p).map_values(f).push(
                            f(st.review_requests@[i as int]),
                        ));
                    }
                },
            }
        } else {
            proof {
                reveal(Seq::filter);
                assert(st.review_requests@.take(i as int + 1).drop_last()
                    =~= st.review_requests@.take(i as int));
                assert(st.review_requests@.take(i as int + 1).last()
                    == st.review_requests@[i as int]);
            }
        }
        i += 1;
    }
    proof {
        assert(st.review_requests@.take(n as int) =~= st.review_requests@);
        assert forall|k: int|
            0 <= k < rrs_of(st.review_requests@, proposal_id).len() implies user_idx(
            st.users@,
            (#[trigger] rrs_of(st.review_requests@, proposal_id)[k]).fk_reviewer,
        ) is Some by {
            assert(pairs@[k].1 == rrs_of(st.review_requests@, proposal_id)[k]);
        }
    }
    Ok(sort_rr_pairs_by_login(pairs))
}

/// Lists a proposal's concerns, each paired with its raiser's roster row,
/// ordered by concern name. Fails when a raiser is missing from the roster.
pub fn list_concerns_with_authors(st: &Store, proposal_id: i64) -> (r: Result<
    Vec<(GitHubUser, FcpConcern)>,
    BotError,
>)
    ensures
        match r {
            Ok(v) => {
                &&& sorted_by(
                    v@,
                    |a: (GitHubUser, FcpConcern), b: (GitHubUser, FcpConcern)| concern_pair_le(
                        a,
                        b,
                    ),
                )
                &&& v@.to_multiset() == concerns_of(st.concerns@, proposal_id).map_values(
                    |c: FcpConcern| (concern_author_of(*st, c), c),
                ).to_multiset()
                &&& forall|k: int|
                    0 <= k < concerns_of(st.concerns@, proposal_id).len() ==> user_idx(
                        st.users@,
                        (#[trigger] concerns_of(st.concerns@, proposal_id)[k]).fk_initiator,
                    ) is Some
            },
            Err(e) => e == BotError::UserNotFound && exists|k: int|
                0 <= k < st.concerns@.len() && (#[trigger] st.concerns@[k]).fk_proposal
                    == proposal_id && user_idx(st.users@, st.concerns@[k].fk_initiator) is None,
        },
{
    let ghost p = |c: FcpConcern| c.fk_proposal == proposal_id;
    let ghost f = |c: FcpConcern| (concern_author_of(*st, c), c);
    let mut pairs: Vec<(GitHubUser, FcpConcern)> = Vec::new();
    let n = st.concerns.len();
    let mut i: usize = 0;
    proof {
        reveal(Seq::filter);
        assert(st.concerns@.take(0) =~= Seq::<FcpConcern>::empty());
        assert(pairs@ =~= st.concerns@.take(0).filter(p).map_values(f));
    }
    while i < n
        invariant
            i <= n,
            n == st.concerns@.len(),
            pairs@ == st.concerns@.take(i as int).filter(
                |c: FcpConcern| c.fk_proposal == proposal_id,
            ).map_values(|c: FcpConcern| (concern_author_of(*st, c), c)),
            forall|k: int|
                0 <= k < pairs@.len() ==> user_idx(
                    st.users@,
                    (#[trigger] pairs@[k]).1.fk_initiator,
                ) is Some,
        decreases n - i,
    {
        if st.concerns[i].fk_proposal == proposal_id {
            match st.user_pos(st.concerns[i].fk_initiator) {
                None => {
                    return Err(BotError::UserNotFound);
                },
                Some(k) => {
                    let c = st.concerns[i].clone();
                    pairs.push((st.users[k].clone(), c));
                    proof {
                        reveal(Seq::filter);
                        let p = |c: FcpConcern| c.fk_proposal == proposal_id;
                        let f = |c: FcpConcern| (concern_author_of(*st, c), c);
                        let prev = st.concerns@.take(i as int);
                        let cur = st.concerns@.take(i as int + 1);
                        assert(cur.drop_last() =~= prev);
                        assert(cur.last() == st.concerns@[i as int]);
                        assert(c == st.concerns@[i as int]);
                        assert(cur.filter(p) == prev.filter(p).push(st.concerns@[i as int]));
                        assert(cur.filter(p).map_values(f) =~= prev.filter(p).map_values(f).push(
                            f(st.concerns@[i as int]),
                        ));
                    }
                },
            }
        } else {
            proof {
                reveal(Seq::filter);
                assert(st.concerns@.take(i as int + 1).drop_last() =~= st.concerns@.take(i as int));
                assert(st.concerns@.take(i as int + 1).last() == st.concerns@[i as int]);
            }
        }
        i += 1;
    }
    proof {
        assert(st.concerns@.take(n as int) =~= st.concerns@);
        assert forall|k: int|
            0 <= k < concerns_of(st.concerns@, proposal_id).len() implies user_idx(
            st.users@,
            (#[trigger] concerns_of(st.concerns@, proposal_id)[k]).fk_initiator,
        ) is Some by {
            assert(pairs@[k].1 == concerns_of(st.concerns@, proposal_id)[k]);
        }
    }
    Ok(sort_concern_pairs_by_name(pairs))
}


/// Closes the open feedback request aimed at this author on this issue, if
/// one stands, by recording the comment that answered it.
pub fn resolve_applicable_feedback_requests(
    st: &mut Store,
    author_id: i64,
    issue_id: i64,
    comment_id: i64,
)
    requires
        old(st).wf(),
    ensures
        final(st).wf(),
        final(st).users == old(st).users,
        final(st).issues == old(st).issues,
        final(st).comments == old(st).comments,
        final(st).proposals == old(st).proposals,
        final(st).review_requests == old(st).review_requests,
        final(st).concerns == old(st).concerns,
        final(st).teams == old(st).teams,
        final(st).memberships == old(st).memberships,
        match open_feedback_idx(old(st).feedback_requests@, author_id, issue_id) {
            Some(i) => final(st).feedback_requests@ == old(st).feedback_requests@.update(
                i,
                FeedbackRequest {
                    fk_feedback_comment: Some(comment_id),
                    ..old(st).feedback_requests@[i]
                },
            ),
            None => final(st).feedback_requests == old(st).feedback_requests,
        },
{
    match st.open_feedback_pos(author_id, issue_id) {
        None => {},
        Some(i) => {
            let mut row = st.feedback_requests[i];
            row.fk_feedback_comment = Some(comment_id);
            *vstd::std_specs::vec::vec_index_mut(&mut st.feedback_requests, i) = row;
            proof {
                assert forall|a: int, b: int|
                    0 <= a < b < st.feedback_requests@.len() implies !(st.feedback_requests@[a].fk_requested
                    == st.feedback_requests@[b].fk_requested && st.feedback_requests@[a].fk_issue
                    == st.feedback_requests@[b].fk_issue
                    && st.feedback_requests@[a].fk_feedback_comment is None
                    && st.feedback_requests@[b].fk_feedback_comment is None) by {
                    if a != i && b != i {
                        assert(st.feedback_requests@[a] == old(st).feedback_requests@[a]);
                        assert(st.feedback_requests@[b] == old(st).feedback_requests@[b]);
                    }
                }
            }
        },
    }
}

/// Deletes the issue's proposal with its review requests, concerns and
/// feedback requests (the store cascades), and renders the cancellation
/// notice. The notice goes out
/// only when posting is enabled and the issue is still open; the sweep
/// cancels proposals of issues that closed, where the attempt is recorded
/// but declined.
pub fn cancel_fcp(st: &mut Store, author: &GitHubUser, issue: &Issue, post_comments: bool) -> (r:
    CommentEffect)
    requires
        old(st).wf(),
    ensures
        final(st).wf(),
        final(st).proposals@ == old(st).proposals@.filter(
            |p: FcpProposal| p.fk_issue != issue.id,
        ),
        final(st).review_requests@ == old(st).review_requests@.filter(
            |r: FcpReviewRequest| r.fk_proposal != issue.id,
        ),
        final(st).concerns@ == old(st).concerns@.filter(
            |c: FcpConcern| c.fk_proposal != issue.id,
        ),
        final(st).feedback_requests@ == old(st).feedback_requests@.filter(
            |f: FeedbackRequest| f.fk_issue != issue.id,
        ),
        final(st).users == old(st).users,
        final(st).issues == old(st).issues,
        final(st).comments == old(st).comments,
        final(st).teams == old(st).teams,
        final(st).memberships == old(st).memberships,
        r.body@ == cancellation_body_s(*author),
        r.repository@ == issue.repository@,
        r.target == CommentTarget::NewOnIssue(issue.number),
        r.deliver == (post_comments && issue.open),
{
    let ghost pp = |p: FcpProposal| p.fk_issue != issue.id;
    let ghost pr = |r: FcpReviewRequest| r.fk_proposal != issue.id;
    let ghost pc = |c: FcpConcern| c.fk_proposal != issue.id;
    let mut props: Vec<FcpProposal> = Vec::new();
    let np = st.proposals.len();
    let mut i: usize = 0;
    proof {
        reveal(Seq::filter);
        assert(st.proposals@.take(0) =~= Seq::<FcpProposal>::empty());
        assert(props@ =~= st.proposals@.take(0).filter(pp));
    }
    while i < np
        invariant
            i <= np,
            np == st.proposals@.len(),
            props@ == st.proposals@.take(i as int).filter(|p: FcpProposal| p.fk_issue != issue.id),
        decreases np - i,
    {
        proof {
            reveal(Seq::filter);
            assert(st.proposals@.take(i as int + 1).drop_last() =~= st.proposals@.take(i as int));
            assert(st.proposals@.take(i as int + 1).last() == st.proposals@[i as int]);
        }
        if st.proposals[i].fk_issue != issue.id {
            props.push(st.proposals[i]);
        }
        i += 1;
    }
    let mut rrs: Vec<FcpReviewRequest> = Vec::new();
    let nr = st.review_requests.len();
    let mut j: usize = 0;
    proof {
        reveal(Seq::filter);
        assert(st.proposals@.take(np as int) =~= st.proposals@);
        assert(st.review_requests@.take(0) =~= Seq::<FcpReviewRequest>::empty());
        assert(rrs@ =~= st.review_requests@.take(0).filter(pr));
    }
    while j < nr
        invariant
            j <= nr,
            nr == st.review_requests@.len(),
            rrs@ == st.review_requests@.take(j as int).filter(
                |r: FcpReviewRequest| r.fk_proposal != issue.id,
            ),
        decreases nr - j,
    {
        proof {
            reveal(Seq::filter);
            assert(st.review_requests@.take(j as int + 1).drop_last() =~= st.review_requests@.take(
                j as int,
            ));
            assert(st.review_requests@.take(j as int + 1).last()
                == st.review_requests@[j as int]);
        }
        if st.review_requests[j].fk_proposal != issue.id {
            rrs.push(st.review_requests[j]);
        }
        j += 1;
    }
    let mut cons: Vec<FcpConcern> = Vec::new();
    let nc = st.concerns.len();
    let mut k: usize = 0;
    proof {
        reveal(Seq::filter);
        assert(st.review_requests@.take(nr as int) =~= st.review_requests@);
        assert(st.concerns@.take(0) =~= Seq::<FcpConcern>::empty());
        assert(cons@ =~= st.concerns@.take(0).filter(pc));
    }
    while k < nc
        invariant
            k <= nc,
            nc == st.concerns@.len(),
            cons@ == st.concerns@.take(k as int).filter(
                |c: FcpConcern| c.fk_proposal != issue.id,
            ),
        decreases nc - k,
    {
        proof {
            reveal(Seq::filter);
            assert(st.concerns@.take(k as int + 1).drop_last() =~= st.concerns@.take(k as int));
            assert(st.concerns@.take(k as int + 1).last() == st.concerns@[k as int]);
        }
        if st.concerns[k].fk_proposal != issue.id {
            cons.push(st.concerns[k].clone());
        }
        k += 1;
    }
    let ghost pf = |f: FeedbackRequest| f.fk_issue != issue.id;
    let mut fbs: Vec<FeedbackRequest> = Vec::new();
    let nfb = st.feedback_requests.len();
    let mut m: usize = 0;
    proof {
        reveal(Seq::filter);
        assert(st.concerns@.take(nc as int) =~= st.concerns@);
        assert(st.feedback_requests@.take(0) =~= Seq::<FeedbackRequest>::empty());
        assert(fbs@ =~= st.feedback_requests@.take(0).filter(pf));
    }
    while m < nfb
        invariant
            m <= nfb,
            nfb == st.feedback_requests@.len(),
            fbs@ == st.feedback_requests@.take(m as int).filter(
                |f: FeedbackRequest| f.fk_issue != issue.id,
            ),
        decreases nfb - m,
    {
        proof {
            reveal(Seq::filter);
            assert(st.feedback_requests@.take(m as int + 1).drop_last()
                =~= st.feedback_requests@.take(m as int));
            assert(st.feedback_requests@.take(m as int + 1).last()
                == st.feedback_requests@[m as int]);
        }
        if st.feedback_requests[m].fk_issue != issue.id {
            fbs.push(st.feedback_requests[m]);
        }
        m += 1;
    }
    proof {
        assert(st.feedback_requests@.take(nfb as int) =~= st.feedback_requests@);
    }
    st.proposals = props;
    st.review_requests = rrs;
    st.concerns = cons;
    st.feedback_requests = fbs;
    proof {
        let pre = *old(st);
        lemma_filter_pairwise(
            pre.proposals@,
            pp,
            |a: FcpProposal, b: FcpProposal| a.fk_issue == b.fk_issue,
        );
        lemma_filter_pairwise(
            pre.feedback_requests@,
            pf,
            |a: FeedbackRequest, b: FeedbackRequest| a.fk_requested == b.fk_requested && a.fk_issue
                == b.fk_issue && a.fk_feedback_comment is None && b.fk_feedback_comment is None,
        );
        lemma_filter_elementwise(
            pre.proposals@,
            pp,
            |p: FcpProposal| p.fcp_closed ==> p.fcp_start is Some,
        );
        lemma_filter_pairwise(
            pre.review_requests@,
            pr,
            |a: FcpReviewRequest, b: FcpReviewRequest| a.fk_proposal == b.fk_proposal
                && a.fk_reviewer == b.fk_reviewer,
        );
        lemma_filter_pairwise(
            pre.concerns@,
            pc,
            |a: FcpConcern, b: FcpConcern| a.fk_proposal == b.fk_proposal
                && a.fk_resolved_comment is None && b.fk_resolved_comment is None && a.name@
                == b.name@,
        );
        assert forall|t: int|
            0 <= t < st.review_requests@.len() implies proposal_idx(
            st.proposals@,
            (#[trigger] st.review_requests@[t]).fk_proposal,
        ) is Some by {
            lemma_filter_elementwise(
                pre.review_requests@,
                pr,
                |r: FcpReviewRequest| proposal_idx(pre.proposals@, r.fk_proposal) is Some,
            );
            pre.review_requests@.lemma_filter_pred(pr, t);
            let rr = st.review_requests@[t];
            lemma_find_idx(pre.proposals@, |p: FcpProposal| p.fk_issue == rr.fk_proposal);
            let a = idx_or_zero(proposal_idx(pre.proposals@, rr.fk_proposal));
            assert(pre.proposals@[a].fk_issue == rr.fk_proposal);
            pre.proposals@.lemma_filter_contains(pp, a);
            let b = st.proposals@.lemma_contains_to_index(pre.proposals@[a]);
            lemma_proposal_exists(st.proposals@, rr.fk_proposal);
        }
        assert forall|t: int|
            0 <= t < st.concerns@.len() implies proposal_idx(
            st.proposals@,
            (#[trigger] st.concerns@[t]).fk_proposal,
        ) is Some by {
            lemma_filter_elementwise(
                pre.concerns@,
                pc,
                |c: FcpConcern| proposal_idx(pre.proposals@, c.fk_proposal) is Some,
            );
            pre.concerns@.lemma_filter_pred(pc, t);
            let cc = st.concerns@[t];
            lemma_find_idx(pre.proposals@, |p: FcpProposal| p.fk_issue == cc.fk_proposal);
            let a = idx_or_zero(proposal_idx(pre.proposals@, cc.fk_proposal));
            assert(pre.proposals@[a].fk_issue == cc.fk_proposal);
            pre.proposals@.lemma_filter_contains(pp, a);
            let b = st.proposals@.lemma_contains_to_index(pre.proposals@[a]);
            lemma_proposal_exists(st.proposals@, cc.fk_proposal);
        }
    }
    plan_comment(issue, cancellation_body(author), None, post_comments)
}


/// What handling a command asks of the caller next.
#[derive(Debug, Eq, PartialEq)]
pub enum ProcessStep {
    /// The command is fully handled; perform the effects, then run the sweep.
    Done(Vec<Effect>),
    /// A new proposal was accepted: post `body` as a fresh comment on the
    /// issue, then hand the platform-assigned comment id to
    /// [`finish_propose`].
    NeedProposalComment { body: String, disposition: FcpDisposition },
}

/// What a fully-handled command (the `Done` outcome) did to the store and
/// which effects it asks for, by command kind.
pub open spec fn process_done_spec(
    cmd: crate::command::CommandView,
    pre: Store,
    post: Store,
    effects: Seq<Effect>,
    author: GitHubUser,
    issue: Issue,
    comment_id: i64,
    post_comments: bool,
) -> bool {
    match cmd {
        crate::command::CommandView::FcpPropose(_) => post == pre && effects.len() == 0
            && proposal_idx(pre.proposals@, issue.id) is Some,
        crate::command::CommandView::FcpCancel => match proposal_idx(pre.proposals@, issue.id) {
            None => post == pre && effects.len() == 0,
            Some(_) => {
                &&& post.proposals@ == pre.proposals@.filter(
                    |p: FcpProposal| p.fk_issue != issue.id,
                )
                &&& post.review_requests@ == pre.review_requests@.filter(
                    |r: FcpReviewRequest| r.fk_proposal != issue.id,
                )
                &&& post.concerns@ == pre.concerns@.filter(
                    |c: FcpConcern| c.fk_proposal != issue.id,
                )
                &&& post.feedback_requests@ == pre.feedback_requests@.filter(
                    |f: FeedbackRequest| f.fk_issue != issue.id,
                )
                &&& post.comments == pre.comments
                &&& effects.len() == 1
                &&& effects[0] matches Effect::Comment(ce) && ce.body@ == cancellation_body_s(
                    author,
                ) && ce.repository@ == issue.repository@ && ce.target == CommentTarget::NewOnIssue(
                    issue.number,
                ) && ce.deliver == (post_comments && issue.open)
            },
        },
        crate::command::CommandView::Reviewed => effects.len() == 0 && match proposal_idx(
            pre.proposals@,
            issue.id,
        ) {
            None => post == pre,
            Some(_) => match rr_idx(pre.review_requests@, issue.id, author.id) {
                None => post == pre,
                Some(i) => post.review_requests@ == pre.review_requests@.update(
                    i,
                    FcpReviewRequest { reviewed: true, ..pre.review_requests@[i] },
                ) && post.proposals == pre.proposals && post.concerns == pre.concerns
                    && post.feedback_requests == pre.feedback_requests && post.comments
                    == pre.comments,
            },
        },
        crate::command::CommandView::NewConcern(name) => effects.len() == 0 && match proposal_idx(
            pre.proposals@,
            issue.id,
        ) {
            None => post == pre,
            Some(_) => match unresolved_concern_idx(pre.concerns@, issue.id, name) {
                Some(_) => post == pre,
                None => {
                    &&& post.concerns@.len() == pre.concerns@.len() + 1
                    &&& post.concerns@.take(pre.concerns@.len() as int) == pre.concerns@
                    &&& post.concerns@.last().fk_proposal == issue.id
                    &&& post.concerns@.last().fk_initiator == author.id
                    &&& post.concerns@.last().fk_resolved_comment is None
                    &&& post.concerns@.last().name@ == name
                    &&& post.concerns@.last().fk_initiating_comment == comment_id
                    &&& post.proposals == pre.proposals
                    &&& post.review_requests == pre.review_requests
                    &&& post.feedback_requests == pre.feedback_requests
                    &&& post.comments == pre.comments
                },
            },
        },
        crate::command::CommandView::ResolveConcern(name) => effects.len() == 0 && match
            proposal_idx(pre.proposals@, issue.id) {
            None => post == pre,
            Some(_) => match authored_concern_idx(pre.concerns@, issue.id, author.id, name) {
                None => post == pre,
                Some(i) => post.concerns@ == pre.concerns@.update(
                    i,
                    FcpConcern { fk_resolved_comment: Some(comment_id), ..pre.concerns@[i] },
                ) && post.proposals == pre.proposals && post.review_requests
                    == pre.review_requests && post.feedback_requests == pre.feedback_requests
                    && post.comments == pre.comments,
            },
        },
        crate::command::CommandView::FeedbackRequest(username) => effects.len() == 0 && match
            user_login_idx(pre.users@, username) {
            None => false,
            Some(u) => match open_feedback_idx(
                pre.feedback_requests@,
                pre.users@[u].id,
                issue.id,
            ) {
                Some(_) => post == pre,
                None => post.feedback_requests@ == pre.feedback_requests@.push(
                    FeedbackRequest {
                        fk_initiator: author.id,
                        fk_requested: pre.users@[u].id,
                        fk_issue: issue.id,
                        fk_feedback_comment: None,
                    },
                ) && post.proposals == pre.proposals && post.review_requests
                    == pre.review_requests && post.concerns == pre.concerns && post.comments
                    == pre.comments,
            },
        },
    }
}

impl<'a> RfcBotCommand<'a> {
    /// Runs one command against the store. Proposing is two-phase: when a new
    /// proposal is accepted, the caller must post the returned body and then
    /// call [`finish_propose`] with the posted comment's id; every other
    /// command is handled in place. The caller has already checked that the
    /// author belongs to the issue's subteam.
    pub fn process(
        self,
        st: &mut Store,
        author: &GitHubUser,
        issue: &Issue,
        comment_id: i64,
        post_comments: bool,
    ) -> (r: Result<ProcessStep, BotError>)
        requires
            old(st).wf(),
        ensures
            final(st).wf(),
            final(st).users == old(st).users,
            final(st).issues == old(st).issues,
            final(st).teams == old(st).teams,
            final(st).memberships == old(st).memberships,
            match r {
                Err(e) => *final(st) == *old(st) && {
                    ||| (self matches RfcBotCommand::FcpPropose(_) && proposal_idx(
                        old(st).proposals@,
                        issue.id,
                    ) is None && e == BotError::CommentingDisabled && !post_comments)
                    ||| (self matches RfcBotCommand::FcpPropose(_) && proposal_idx(
                        old(st).proposals@,
                        issue.id,
                    ) is None && e == BotError::IssueClosed && post_comments && !issue.open)
                    ||| (self matches RfcBotCommand::FeedbackRequest(u) && e
                        == BotError::UserNotFound && user_login_idx(old(st).users@, u@) is None)
                },
                Ok(step) => match step {
                    ProcessStep::NeedProposalComment { body, disposition } => {
                        &&& *final(st) == *old(st)
                        &&& self == RfcBotCommand::FcpPropose(disposition)
                        &&& proposal_idx(old(st).proposals@, issue.id) is None
                        &&& post_comments
                        &&& issue.open
                        &&& body@ == crate::render::proposal_body_s(
                            *issue,
                            *author,
                            disposition,
                            Seq::empty(),
                            Seq::empty(),
                        )
                    },
                    ProcessStep::Done(effects) => process_done_spec(
                        self@,
                        *old(st),
                        *final(st),
                        effects@,
                        *author,
                        *issue,
                        comment_id,
                        post_comments,
                    ),
                },
            },
    {
        let existing = st.proposal_pos(issue.id);
        match self {
            RfcBotCommand::FcpPropose(disp) => {
                if existing.is_some() {
                    return Ok(ProcessStep::Done(Vec::new()));
                }
                if !post_comments {
                    return Err(BotError::CommentingDisabled);
                }
                if !issue.open {
                    return Err(BotError::IssueClosed);
                }
                let reviewers: Vec<(GitHubUser, FcpReviewRequest)> = Vec::new();
                let concerns: Vec<(GitHubUser, FcpConcern)> = Vec::new();
                let body = proposal_body(issue, author, disp, &reviewers, &concerns);
                Ok(ProcessStep::NeedProposalComment { body: body, disposition: disp })
            },
            RfcBotCommand::FcpCancel => {
                if existing.is_some() {
                    let eff = cancel_fcp(st, author, issue, post_comments);
                    let mut effects: Vec<Effect> = Vec::new();
                    effects.push(Effect::Comment(eff));
                    Ok(ProcessStep::Done(effects))
                } else {
                    Ok(ProcessStep::Done(Vec::new()))
                }
            },
            RfcBotCommand::Reviewed => {
                if existing.is_some() {
                    match st.rr_pos(issue.id, author.id) {
                        Some(i) => {
                            let mut row = st.review_requests[i];
                            row.reviewed = true;
                            *vstd::std_specs::vec::vec_index_mut(&mut st.review_requests, i) = row;
                            proof {
                                assert forall|a: int, b: int|
                                    0 <= a < b < st.review_requests@.len() implies !(st.review_requests@[a].fk_proposal
                                    == st.review_requests@[b].fk_proposal
                                    && st.review_requests@[a].fk_reviewer
                                    == st.review_requests@[b].fk_reviewer) by {
                                    assert(old(st).review_requests@[a].fk_proposal
                                        == st.review_requests@[a].fk_proposal
                                        && old(st).review_requests@[a].fk_reviewer
                                        == st.review_requests@[a].fk_reviewer);
                                    assert(old(st).review_requests@[b].fk_proposal
                                        == st.review_requests@[b].fk_proposal
                                        && old(st).review_requests@[b].fk_reviewer
                                        == st.review_requests@[b].fk_reviewer);
                                }
                                assert forall|t: int|
                                    0 <= t < st.review_requests@.len() implies proposal_idx(
                                    st.proposals@,
                                    (#[trigger] st.review_requests@[t]).fk_proposal,
                                ) is Some by {
                                    assert(st.review_requests@[t].fk_proposal
                                        == old(st).review_requests@[t].fk_proposal);
                                }
                            }
                        },
                        None => {},
                    }
                }
                Ok(ProcessStep::Done(Vec::new()))
            },
            RfcBotCommand::NewConcern(name) => {
                if existing.is_some() {
                    match st.unresolved_concern_pos(issue.id, name) {
                        Some(_) => {},
                        None => {
                            let ghost pre = *st;
                            st.concerns.push(
                                FcpConcern {
                                    fk_proposal: issue.id,
                                    fk_initiator: author.id,
                                    fk_resolved_comment: None,
                                    name: name.to_owned(),
                                    fk_initiating_comment: comment_id,
                                },
                            );
                            proof {
                                lemma_find_idx(
                                    pre.concerns@,
                                    |c: FcpConcern| c.fk_proposal == issue.id
                                        && c.fk_resolved_comment is None && c.name@ == name@,
                                );
                                assert(st.concerns@.take(pre.concerns@.len() as int)
                                    =~= pre.concerns@);
                                assert forall|a: int, b: int|
                                    0 <= a < b < st.concerns@.len() implies !(st.concerns@[a].fk_proposal
                                    == st.concerns@[b].fk_proposal
                                    && st.concerns@[a].fk_resolved_comment is None
                                    && st.concerns@[b].fk_resolved_comment is None
                                    && st.concerns@[a].name@ == st.concerns@[b].name@) by {
                                    if b == st.concerns@.len() - 1 {
                                        assert(st.concerns@[a] == pre.concerns@[a]);
                                    } else {
                                        assert(st.concerns@[a] == pre.concerns@[a]);
                                        assert(st.concerns@[b] == pre.concerns@[b]);
                                    }
                                }
                                assert forall|t: int|
                                    0 <= t < st.concerns@.len() implies proposal_idx(
                                    st.proposals@,
                                    (#[trigger] st.concerns@[t]).fk_proposal,
                                ) is Some by {
                                    if t < st.concerns@.len() - 1 {
                                        assert(st.concerns@[t] == pre.concerns@[t]);
                                    }
                                }
                            }
                        },
                    }
                }
                Ok(ProcessStep::Done(Vec::new()))
            },
            RfcBotCommand::ResolveConcern(name) => {
                if existing.is_some() {
                    match st.authored_concern_pos(issue.id, author.id, name) {
                        Some(i) => {
                            let mut row = st.concerns[i].clone();
                            row.fk_resolved_comment = Some(comment_id);
                            *vstd::std_specs::vec::vec_index_mut(&mut st.concerns, i) = row;
                            proof {
                                assert forall|a: int, b: int|
                                    0 <= a < b < st.concerns@.len() implies !(st.concerns@[a].fk_proposal
                                    == st.concerns@[b].fk_proposal
                                    && st.concerns@[a].fk_resolved_comment is None
                                    && st.concerns@[b].fk_resolved_comment is None
                                    && st.concerns@[a].name@ == st.concerns@[b].name@) by {
                                    if a != i && b != i {
                                        assert(st.concerns@[a] == old(st).concerns@[a]);
                                        assert(st.concerns@[b] == old(st).concerns@[b]);
                                    }
                                }
                                assert forall|t: int|
                                    0 <= t < st.concerns@.len() implies proposal_idx(
                                    st.proposals@,
                                    (#[trigger] st.concerns@[t]).fk_proposal,
                                ) is Some by {
                                    assert(st.concerns@[t].fk_proposal
                                        == old(st).concerns@[t].fk_proposal);
                                }
                            }
                        },
                        None => {},
                    }
                }
                Ok(ProcessStep::Done(Vec::new()))
            },
            RfcBotCommand::FeedbackRequest(username) => {
                match st.user_pos_by_login(username) {
                    None => Err(BotError::UserNotFound),
                    Some(u) => {
                        let uid = st.users[u].id;
                        match st.open_feedback_pos(uid, issue.id) {
                            Some(_) => {},
                            None => {
                                let ghost pre = *st;
                                st.feedback_requests.push(
                                    FeedbackRequest {
                                        fk_initiator: author.id,
                                        fk_requested: uid,
                                        fk_issue: issue.id,
                                        fk_feedback_comment: None,
                                    },
                                );
                                proof {
                                    lemma_find_idx(
                                        pre.feedback_requests@,
                                        |f: FeedbackRequest| f.fk_requested == uid && f.fk_issue
                                            == issue.id && f.fk_feedback_comment is None,
                                    );
                                    assert forall|a: int, b: int|
                                        0 <= a < b < st.feedback_requests@.len() implies !(st.feedback_requests@[a].fk_requested
                                        == st.feedback_requests@[b].fk_requested
                                        && st.feedback_requests@[a].fk_issue
                                        == st.feedback_requests@[b].fk_issue
                                        && st.feedback_requests@[a].fk_feedback_comment is None
                                        && st.feedback_requests@[b].fk_feedback_comment is None) by {
                                        if b == st.feedback_requests@.len() - 1 {
                                            assert(st.feedback_requests@[a]
                                                == pre.feedback_requests@[a]);
                                        } else {
                                            assert(st.feedback_requests@[a]
                                                == pre.feedback_requests@[a]);
                                            assert(st.feedback_requests@[b]
                                                == pre.feedback_requests@[b]);
                                        }
                                    }
                                }
                            },
                        }
                        Ok(ProcessStep::Done(Vec::new()))
                    },
                }
            },
        }
    }
}


/// Records an accepted proposal once its initial status comment stands on the
/// platform: mirrors that comment, creates the proposal with the posted
/// comment as its tracking comment, opens one review request per subteam
/// member with the initiator's pre-marked as reviewed, and asks for the
/// tracking comment to be re-rendered with the review list. The caller
/// should run the sweep next, as it does after any handled command.
pub fn finish_propose(
    st: &mut Store,
    author: &GitHubUser,
    issue: &Issue,
    initiating_comment_id: i64,
    disp: FcpDisposition,
    tracking_comment: &IssueComment,
    post_comments: bool,
) -> (r: Result<Vec<Effect>, BotError>)
    requires
        old(st).wf(),
    ensures
        final(st).wf(),
        final(st).users == old(st).users,
        final(st).issues == old(st).issues,
        final(st).teams == old(st).teams,
        final(st).memberships == old(st).memberships,
        final(st).concerns == old(st).concerns,
        final(st).feedback_requests == old(st).feedback_requests,
        match r {
            Err(e) => e == BotError::ProposalExists && *final(st) == *old(st) && proposal_idx(
                old(st).proposals@,
                issue.id,
            ) is Some,
            Ok(effects) => {
                &&& proposal_idx(old(st).proposals@, issue.id) is None
                &&& final(st).proposals@ == old(st).proposals@.push(
                    FcpProposal {
                        fk_issue: issue.id,
                        fk_initiator: author.id,
                        fk_initiating_comment: initiating_comment_id,
                        disposition: disp,
                        fk_bot_tracking_comment: tracking_comment.id,
                        fcp_start: None,
                        fcp_closed: false,
                    },
                )
                &&& match comment_idx(old(st).comments@, tracking_comment.id) {
                    Some(_) => final(st).comments == old(st).comments,
                    None => final(st).comments@.len() == old(st).comments@.len() + 1 && final(st).comments@.take(old(st).comments@.len() as int) == old(st).comments@ && final(st).comments@.last().id == tracking_comment.id
                        && final(st).comments@.last().fk_issue == issue.id
                        && final(st).comments@.last().fk_user == tracking_comment.fk_user
                        && final(st).comments@.last().body@ == tracking_comment.body@,
                }
                &&& final(st).review_requests@.take(old(st).review_requests@.len() as int) == old(st).review_requests@
                &&& forall|k: int|
                    old(st).review_requests@.len() <= k < final(st).review_requests@.len() ==> {
                        let rr = #[trigger] final(st).review_requests@[k];
                        rr.fk_proposal == issue.id && subteam_member_spec(
                            *old(st),
                            *issue,
                            rr.fk_reviewer,
                        ) && (rr.reviewed <==> rr.fk_reviewer == author.id)
                    }
                &&& forall|j: int|
                    0 <= j < old(st).users@.len() && subteam_member_spec(
                        *old(st),
                        *issue,
                        (#[trigger] old(st).users@[j]).id,
                    ) ==> rr_idx(final(st).review_requests@, issue.id, old(st).users@[j].id) is Some
                &&& effects@.len() == 1
                &&& effects@[0] matches Effect::Comment(ce) && ce.target
                    == CommentTarget::EditExisting(tracking_comment.id) && ce.repository@
                    == issue.repository@ && ce.deliver == (post_comments && issue.open) && exists|
                    pairs: Seq<(GitHubUser, FcpReviewRequest)>,
                |
                    {
                        &&& sorted_by(
                            pairs,
                            |a: (GitHubUser, FcpReviewRequest), b: (GitHubUser, FcpReviewRequest)|
                                rr_pair_le(a, b),
                        )
                        &&& pairs.to_multiset() == rrs_of(
                            final(st).review_requests@,
                            issue.id,
                        ).map_values(
                            |rr: FcpReviewRequest| (reviewer_of(*final(st), rr), rr),
                        ).to_multiset()
                        &&& ce.body@ == crate::render::proposal_body_s(
                            *issue,
                            *author,
                            disp,
                            pairs,
                            Seq::empty(),
                        )
                    }
            },
        },
{
    if st.proposal_pos(issue.id).is_some() {
        return Err(BotError::ProposalExists);
    }
    let members = subteam_members(st, issue);
    proof {
        // every listed member is on the roster, so their ids resolve
        assert forall|m: int|
            0 <= m < members@.len() implies user_idx(
            st.users@,
            (#[trigger] members@[m]).id,
        ) is Some by {
            broadcast use vstd::seq_lib::group_to_multiset_ensures;

            let p = |u: GitHubUser| subteam_member_spec(*st, *issue, u.id);
            assert(members@.contains(members@[m]));
            assert(members@.to_multiset().count(members@[m]) > 0);
            assert(st.users@.filter(p).contains(members@[m]));
            st.users@.lemma_filter_contains_rev(p, members@[m]);
            let a = st.users@.lemma_contains_to_index(members@[m]);
            lemma_user_exists(st.users@, members@[m].id);
        }
        assert forall|m: int|
            0 <= m < members@.len() implies subteam_member_spec(
            *st,
            *issue,
            (#[trigger] members@[m]).id,
        ) by {
            broadcast use vstd::seq_lib::group_to_multiset_ensures;

            let p = |u: GitHubUser| subteam_member_spec(*st, *issue, u.id);
            assert(members@.contains(members@[m]));
            assert(members@.to_multiset().count(members@[m]) > 0);
            assert(st.users@.filter(p).contains(members@[m]));
            let b = st.users@.filter(p).lemma_contains_to_index(members@[m]);
            st.users@.lemma_filter_pred(p, b);
        }
        // and every subteam user on the roster is listed
        assert forall|j: int|
            0 <= j < st.users@.len() && subteam_member_spec(
            *st,
            *issue,
            (#[trigger] st.users@[j]).id,
        ) implies members@.contains(st.users@[j]) by {
            broadcast use vstd::seq_lib::group_to_multiset_ensures;

            let p = |u: GitHubUser| subteam_member_spec(*st, *issue, u.id);
            st.users@.lemma_filter_contains(p, j);
            assert(st.users@.filter(p).to_multiset().count(st.users@[j]) > 0);
            assert(members@.to_multiset().count(st.users@[j]) > 0);
        }
    }
    let ghost pre = *st;
    // mirror the posted tracking comment, tolerating one already recorded
    if st.comment_pos(tracking_comment.id).is_none() {
        st.comments.push(
            IssueComment {
                id: tracking_comment.id,
                fk_issue: issue.id,
                fk_user: tracking_comment.fk_user,
                body: tracking_comment.body.clone(),
            },
        );
        proof {
            lemma_find_idx(pre.comments@, |c: IssueComment| c.id == tracking_comment.id);
            assert(st.comments@.take(pre.comments@.len() as int) =~= pre.comments@);
            assert forall|a: int, b: int|
                0 <= a < b < st.comments@.len() implies st.comments@[a].id != st.comments@[b].id by {
                if b == st.comments@.len() - 1 {
                    assert(st.comments@[a] == pre.comments@[a]);
                } else {
                    assert(st.comments@[a] == pre.comments@[a]);
                    assert(st.comments@[b] == pre.comments@[b]);
                }
            }
        }
    }
    let new_proposal = FcpProposal {
        fk_issue: issue.id,
        fk_initiator: author.id,
        fk_initiating_comment: initiating_comment_id,
        disposition: disp,
        fk_bot_tracking_comment: tracking_comment.id,
        fcp_start: None,
        fcp_closed: false,
    };
    st.proposals.push(new_proposal);
    proof {
        lemma_find_idx(pre.proposals@, |p: FcpProposal| p.fk_issue == issue.id);
        assert forall|a: int, b: int|
            0 <= a < b < st.proposals@.len() implies st.proposals@[a].fk_issue
            != st.proposals@[b].fk_issue by {
            if b == st.proposals@.len() - 1 {
                assert(st.proposals@[a] == pre.proposals@[a]);
            } else {
                assert(st.proposals@[a] == pre.proposals@[a]);
                assert(st.proposals@[b] == pre.proposals@[b]);
            }
        }
        assert forall|t: int|
            0 <= t < st.review_requests@.len() implies proposal_idx(
            st.proposals@,
            (#[trigger] st.review_requests@[t]).fk_proposal,
        ) is Some by {
            lemma_find_idx(
                pre.proposals@,
                |p: FcpProposal| p.fk_issue == st.review_requests@[t].fk_proposal,
            );
            let a = idx_or_zero(proposal_idx(pre.proposals@, st.review_requests@[t].fk_proposal));
            assert(st.proposals@[a] == pre.proposals@[a]);
            lemma_proposal_exists(st.proposals@, st.review_requests@[t].fk_proposal);
        }
        assert forall|t: int|
            0 <= t < st.concerns@.len() implies proposal_idx(
            st.proposals@,
            (#[trigger] st.concerns@[t]).fk_proposal,
        ) is Some by {
            lemma_find_idx(
                pre.proposals@,
                |p: FcpProposal| p.fk_issue == st.concerns@[t].fk_proposal,
            );
            let a = idx_or_zero(proposal_idx(pre.proposals@, st.concerns@[t].fk_proposal));
            assert(st.proposals@[a] == pre.proposals@[a]);
            lemma_proposal_exists(st.proposals@, st.concerns@[t].fk_proposal);
        }
        // no review request of this issue existed: its proposal would have
        assert forall|t: int|
            0 <= t < pre.review_requests@.len() implies (#[trigger] pre.review_requests@[t]).fk_proposal
            != issue.id by {
        }
    }
    let ghost mid = *st;
    let ghost base = st.review_requests@;
    let n_members = members.len();
    let mut m: usize = 0;
    proof {
        assert(members@.take(0).map_values(
            |u: GitHubUser| FcpReviewRequest {
                fk_proposal: issue.id,
                fk_reviewer: u.id,
                reviewed: u.id == author.id,
            },
        ) =~= Seq::<FcpReviewRequest>::empty());
        assert(st.review_requests@ =~= base + members@.take(0).map_values(
            |u: GitHubUser| FcpReviewRequest {
                fk_proposal: issue.id,
                fk_reviewer: u.id,
                reviewed: u.id == author.id,
            },
        ));
    }
    while m < n_members
        invariant
            m <= n_members,
            n_members == members@.len(),
            st.review_requests@ == base + members@.take(m as int).map_values(
                |u: GitHubUser| FcpReviewRequest {
                    fk_proposal: issue.id,
                    fk_reviewer: u.id,
                    reviewed: u.id == author.id,
                },
            ),
            st.users == old(st).users,
            st.issues == old(st).issues,
            st.teams == old(st).teams,
            st.memberships == old(st).memberships,
            st.concerns == old(st).concerns,
            st.feedback_requests == old(st).feedback_requests,
            st.proposals == mid.proposals,
            st.comments == mid.comments,
            base == mid.review_requests@,
        decreases n_members - m,
    {
        st.review_requests.push(
            FcpReviewRequest {
                fk_proposal: issue.id,
                fk_reviewer: members[m].id,
                reviewed: members[m].id == author.id,
            },
        );
        proof {
            let f = |u: GitHubUser| FcpReviewRequest {
                fk_proposal: issue.id,
                fk_reviewer: u.id,
                reviewed: u.id == author.id,
            };
            assert(members@.take(m as int + 1).drop_last() =~= members@.take(m as int));
            assert(members@.take(m as int + 1).map_values(f) =~= members@.take(m as int).map_values(
                f,
            ).push(f(members@[m as int])));
            assert(st.review_requests@ =~= base + members@.take(m as int + 1).map_values(f));
        }
        m += 1;
    }
    proof {
        assert(members@.take(n_members as int) =~= members@);
    }
    proof {
        assert(members@.take(n_members as int) =~= members@);
        let f = |u: GitHubUser| FcpReviewRequest {
            fk_proposal: issue.id,
            fk_reviewer: u.id,
            reviewed: u.id == author.id,
        };
        let added = members@.map_values(f);
        // uniqueness of the review-request table
        assert forall|a: int, b: int|
            0 <= a < b < st.review_requests@.len() implies !(st.review_requests@[a].fk_proposal
            == st.review_requests@[b].fk_proposal && st.review_requests@[a].fk_reviewer
            == st.review_requests@[b].fk_reviewer) by {
            let nb = base.len() as int;
            if a < nb && b < nb {
                assert(st.review_requests@[a] == base[a]);
                assert(st.review_requests@[b] == base[b]);
            } else if a < nb {
                assert(st.review_requests@[a] == base[a]);
                assert(st.review_requests@[b] == added[b - nb]);
                assert(base[a].fk_proposal != issue.id);
            } else {
                assert(st.review_requests@[a] == added[a - nb]);
                assert(st.review_requests@[b] == added[b - nb]);
                assert(members@[a - nb].id != members@[b - nb].id);
            }
        }
        // every review request still points at a live proposal
        assert forall|t: int|
            0 <= t < st.review_requests@.len() implies proposal_idx(
            st.proposals@,
            (#[trigger] st.review_requests@[t]).fk_proposal,
        ) is Some by {
            let nb = base.len() as int;
            if t < nb {
                assert(st.review_requests@[t] == base[t]);
            } else {
                assert(st.review_requests@[t] == added[t - nb]);
                assert(st.review_requests@[t].fk_proposal == issue.id);
                assert(st.proposals@.last().fk_issue == issue.id);
                lemma_proposal_exists(st.proposals@, issue.id);
            }
        }
        assert(st.wf());
        // each subteam user on the roster got a review request
        assert forall|j: int|
            0 <= j < old(st).users@.len() && subteam_member_spec(
            *old(st),
            *issue,
            (#[trigger] old(st).users@[j]).id,
        ) implies rr_idx(st.review_requests@, issue.id, old(st).users@[j].id) is Some by {
            assert(members@.contains(old(st).users@[j]));
            let mm = members@.lemma_contains_to_index(old(st).users@[j]);
            let nb = base.len() as int;
            assert(st.review_requests@[nb + mm] == added[mm]);
            assert(st.review_requests@[nb + mm].fk_proposal == issue.id
                && st.review_requests@[nb + mm].fk_reviewer == old(st).users@[j].id);
            lemma_rr_exists(st.review_requests@, issue.id, old(st).users@[j].id);
        }
        // and the review listing cannot fail: every requested member of this issue's
        // requests resolves on the roster
        assert forall|k: int|
            0 <= k < st.review_requests@.len() && (#[trigger] st.review_requests@[k]).fk_proposal
            == issue.id implies user_idx(st.users@, st.review_requests@[k].fk_reviewer) is Some by {
            let nb = base.len() as int;
            if k < nb {
                assert(st.review_requests@[k] == base[k]);
            } else {
                assert(st.review_requests@[k] == added[k - nb]);
                assert(st.review_requests@[k].fk_reviewer == members@[k - nb].id);
            }
        }
    }
    let review_list = match list_review_requests(st, issue.id) {
        Ok(v) => v,
        Err(_) => {
            proof {
                assert(false);
            }
            return Err(BotError::UserNotFound);
        },
    };
    let no_concerns: Vec<(GitHubUser, FcpConcern)> = Vec::new();
    let body = proposal_body(issue, author, disp, &review_list, &no_concerns);
    let eff = plan_comment(issue, body, Some(tracking_comment.id), post_comments);
    let mut effects: Vec<Effect> = Vec::new();
    effects.push(Effect::Comment(eff));
    proof {
        assert(no_concerns@ =~= Seq::<(GitHubUser, FcpConcern)>::empty());
    }
    Ok(effects)
}

} // verus!



