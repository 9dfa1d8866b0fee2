//! The library's standing guarantees, each proved from the contracts the
//! functions themselves carry: deterministic rendering, the one-shot opening
//! and timed closing of the waiting period, cancellation of proposals whose
//! issues closed early, and the monotone honoring of manual checkbox edits.

use vstd::prelude::*;

use crate::command::FcpDisposition;
use crate::machine::{issue_of, proposal_of, user_of};
use crate::model::{
    issue_idx, proposal_idx, user_idx, Effect, FcpConcern, FcpProposal, FcpReviewRequest,
    GitHubUser, Issue, Store,
};
use crate::render::proposal_body_s;
use crate::machine::{comment_body_of, fb_of};
use crate::model::{comment_idx, FeedbackRequest};
use crate::sweep::{
    adjusted_rrs, cancellation_effect, checked_approves, lists_ok, pending_fate, pending_happy,
    rederivable, stale_edit_effect, stored_differs_from_rendering, swept_at, untouched,
};
use crate::FCP_WINDOW_SECS;

verus! {

/// Rendering identical issue, sign-off and concern state twice produces
/// identical text: the status comment is a function of that state and nothing
/// else, which the sweep's change detection relies on.
pub proof fn lemma_render_deterministic(
    issue: Issue,
    initiator: GitHubUser,
    disp: FcpDisposition,
    reviewers: Seq<(GitHubUser, FcpReviewRequest)>,
    concerns: Seq<(GitHubUser, FcpConcern)>,
    body1: Seq<char>,
    body2: Seq<char>,
)
    requires
        body1 == proposal_body_s(issue, initiator, disp, reviewers, concerns),
        body2 == proposal_body_s(issue, initiator, disp, reviewers, concerns),
    ensures
        body1 == body2,
{
}

/// A pending proposal with every review given — the tracking text's checked
/// boxes counted, so an edit that supplies the last sign-off opens in the
/// same cycle — and no concern unresolved, whose rows all read cleanly and
/// with posting enabled, has its waiting period opened at the sweep's
/// instant.
pub proof fn lemma_fcp_starts(
    pre: Store,
    post: Store,
    effects: Seq<Effect>,
    j: int,
    now: i64,
    post_comments: bool,
)
    requires
        swept_at(pre, post, effects, now, post_comments),
        0 <= j < pre.proposals@.len(),
        pre.proposals@[j].fcp_start is None,
        user_idx(pre.users@, pre.proposals@[j].fk_initiator) is Some,
        issue_idx(pre.issues@, pre.proposals@[j].fk_issue) is Some,
        issue_of(pre, pre.proposals@[j].fk_issue).open,
        pending_happy(pre, pre.proposals@[j], post_comments),
    ensures
        proposal_idx(post.proposals@, pre.proposals@[j].fk_issue) is Some,
        proposal_of(post, pre.proposals@[j].fk_issue).fcp_start == Some(now),
        !proposal_of(post, pre.proposals@[j].fk_issue).fcp_closed,
{
    assert(pending_fate(pre, post, pre.proposals@[j], effects, now, post_comments));
}

/// A proposal whose waiting period is already running and not yet over is
/// left exactly as it was: a second sweep with no further changes changes
/// nothing, so the period opens exactly once.
pub proof fn lemma_started_untouched(
    pre: Store,
    post: Store,
    effects: Seq<Effect>,
    j: int,
    now: i64,
    post_comments: bool,
)
    requires
        swept_at(pre, post, effects, now, post_comments),
        0 <= j < pre.proposals@.len(),
        (pre.proposals@[j].fcp_start matches Some(s) && !(s + FCP_WINDOW_SECS <= now)),
        pre.wf(),
    ensures
        proposal_idx(post.proposals@, pre.proposals@[j].fk_issue) is Some,
        proposal_of(post, pre.proposals@[j].fk_issue) == pre.proposals@[j],
{
    assert(crate::sweep::finished_fate(pre, post, pre.proposals@[j], effects, now, post_comments));
    let x = pre.proposals@[j].fk_issue;
    crate::model::lemma_find_idx(pre.proposals@, |p: FcpProposal| p.fk_issue == x);
    crate::model::lemma_proposal_exists(pre.proposals@, x);
    let d = crate::machine::idx_or_zero(proposal_idx(pre.proposals@, x));
    if d != j {
        assert(pre.proposals@[d].fk_issue != pre.proposals@[j].fk_issue);
    }
    assert(untouched(pre, post, x));
}

/// A proposal whose issue closed before its waiting period began is deleted
/// by the next sweep, and a cancellation notice is drafted (recorded
/// undelivered, since the issue is no longer open).
pub proof fn lemma_closed_issue_cancels(
    pre: Store,
    post: Store,
    effects: Seq<Effect>,
    j: int,
    now: i64,
    post_comments: bool,
)
    requires
        swept_at(pre, post, effects, now, post_comments),
        0 <= j < pre.proposals@.len(),
        pre.proposals@[j].fcp_start is None,
        user_idx(pre.users@, pre.proposals@[j].fk_initiator) is Some,
        issue_idx(pre.issues@, pre.proposals@[j].fk_issue) is Some,
        !issue_of(pre, pre.proposals@[j].fk_issue).open,
    ensures
        proposal_idx(post.proposals@, pre.proposals@[j].fk_issue) is None,
        fb_of(post.feedback_requests@, pre.proposals@[j].fk_issue) == Seq::<
            FeedbackRequest,
        >::empty(),
        exists|e: Effect|
            #[trigger] effects.contains(e) && cancellation_effect(
                e,
                user_of(pre, pre.proposals@[j].fk_initiator),
                issue_of(pre, pre.proposals@[j].fk_issue),
                post_comments,
            ),
{
    assert(pending_fate(pre, post, pre.proposals@[j], effects, now, post_comments));
}

/// A proposal that entered its waiting period at least the full window ago
/// and is not yet closed is closed by one sweep; one that entered it more
/// recently is not.
pub proof fn lemma_window_closes(
    pre: Store,
    post: Store,
    effects: Seq<Effect>,
    j: int,
    now: i64,
    post_comments: bool,
)
    requires
        swept_at(pre, post, effects, now, post_comments),
        0 <= j < pre.proposals@.len(),
        pre.proposals@[j].fcp_start matches Some(s) && s + FCP_WINDOW_SECS <= now,
        !pre.proposals@[j].fcp_closed,
        issue_idx(pre.issues@, pre.proposals@[j].fk_issue) is Some,
    ensures
        proposal_idx(post.proposals@, pre.proposals@[j].fk_issue) is Some,
        (proposal_of(post, pre.proposals@[j].fk_issue) == FcpProposal {
            fcp_closed: true,
            ..pre.proposals@[j]
        }),
{
    assert(crate::sweep::finished_fate(pre, post, pre.proposals@[j], effects, now, post_comments));
}

/// The waiting period opens only when nothing blocks it: if a sweep set a
/// pending proposal's start, then after honoring the tracking text's checked
/// boxes no review was outstanding and no concern was unresolved.
pub proof fn lemma_fcp_opens_only_when_clear(
    pre: Store,
    post: Store,
    effects: Seq<Effect>,
    j: int,
    now: i64,
    post_comments: bool,
)
    requires
        swept_at(pre, post, effects, now, post_comments),
        0 <= j < pre.proposals@.len(),
        pre.proposals@[j].fcp_start is None,
        user_idx(pre.users@, pre.proposals@[j].fk_initiator) is Some,
        issue_idx(pre.issues@, pre.proposals@[j].fk_issue) is Some,
        issue_of(pre, pre.proposals@[j].fk_issue).open,
        proposal_of(post, pre.proposals@[j].fk_issue).fcp_start is Some,
    ensures
        adjusted_rrs(
            pre,
            pre.proposals@[j].fk_issue,
            comment_body_of(pre, pre.proposals@[j].fk_bot_tracking_comment),
        ).filter(
            |r: FcpReviewRequest| r.fk_proposal == pre.proposals@[j].fk_issue && !r.reviewed,
        ).len() == 0,
        crate::model::count_unresolved(pre.concerns@, pre.proposals@[j].fk_issue) == 0,
{
    assert(pending_fate(pre, post, pre.proposals@[j], effects, now, post_comments));
}

/// Change detection, the writing half: when a pending proposal's turn reads
/// cleanly, posting is on, and the stored tracking text matches no rendering
/// of the re-derived state, the sweep asks for a delivered in-place edit of
/// that comment carrying the renderer's text.
pub proof fn lemma_stale_text_is_rewritten(
    pre: Store,
    post: Store,
    effects: Seq<Effect>,
    j: int,
    now: i64,
    post_comments: bool,
)
    requires
        swept_at(pre, post, effects, now, post_comments),
        0 <= j < pre.proposals@.len(),
        pre.proposals@[j].fcp_start is None,
        user_idx(pre.users@, pre.proposals@[j].fk_initiator) is Some,
        issue_idx(pre.issues@, pre.proposals@[j].fk_issue) is Some,
        issue_of(pre, pre.proposals@[j].fk_issue).open,
        comment_idx(pre.comments@, pre.proposals@[j].fk_bot_tracking_comment) is Some,
        rederivable(
            pre,
            pre.proposals@[j].fk_issue,
            comment_body_of(pre, pre.proposals@[j].fk_bot_tracking_comment),
        ),
        lists_ok(pre, pre.proposals@[j].fk_issue),
        post_comments,
        stored_differs_from_rendering(pre, pre.proposals@[j]),
    ensures
        exists|e: Effect|
            #[trigger] effects.contains(e) && stale_edit_effect(e, pre, pre.proposals@[j]),
{
    assert(pending_fate(pre, post, pre.proposals@[j], effects, now, post_comments));
}

/// Manual checkbox edits are honored monotonically across a sweep: a review
/// once given is never cleared, and a box checked in the tracking comment
/// marks that member as reviewed (both directions come with the exact
/// re-derivation relation of `update_proposal_review_status`).
pub proof fn lemma_checkbox_monotone(
    pre: Store,
    post: Store,
    pid: i64,
    body: Seq<char>,
    k: int,
)
    requires
        pre.review_requests@.len() == post.review_requests@.len(),
        forall|t: int|
            0 <= t < pre.review_requests@.len() ==> {
                let o = #[trigger] pre.review_requests@[t];
                post.review_requests@[t].reviewed <==> o.reviewed || (o.fk_proposal == pid
                    && checked_approves(pre.users@, body, o.fk_reviewer))
            },
        0 <= k < pre.review_requests@.len(),
    ensures
        pre.review_requests@[k].reviewed ==> post.review_requests@[k].reviewed,
        pre.review_requests@[k].fk_proposal == pid && checked_approves(
            pre.users@,
            body,
            pre.review_requests@[k].fk_reviewer,
        ) ==> post.review_requests@[k].reviewed,
{
}

} // verus!
