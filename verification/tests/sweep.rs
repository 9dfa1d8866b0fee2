//! Reconciliation sweep scenarios: opening the waiting period exactly once,
//! cancelling on closed issues, closing after the window, honoring manual
//! checkbox edits monotonically, and writing remotely only on change.

use rfcbot::command::FcpDisposition;
use rfcbot::model::{
    CommentTarget, Effect, FcpConcern, FcpProposal, FcpReviewRequest, GitHubUser, Issue,
    IssueComment, Membership, Store, Team,
};
use rfcbot::sweep::{evaluate_nags_at, update_nags, update_proposal_review_status, UpdateOutcome};
use rfcbot::FCP_WINDOW_SECS;

fn user(id: i64, login: &str) -> GitHubUser {
    GitHubUser { id, login: login.to_string() }
}

fn store_with_proposal(tracking_body: &str) -> Store {
    let mut st = Store::new();
    st.users = vec![user(1, "alice"), user(2, "bob"), user(3, "carol")];
    st.issues = vec![Issue {
        id: 1,
        number: 10,
        repository: "rust-lang/rust".to_string(),
        open: true,
        labels: vec!["T-lang".to_string()],
    }];
    st.teams = vec![Team { id: 7, label: "T-lang".to_string() }];
    st.memberships = vec![
        Membership { fk_team: 7, fk_member: 1 },
        Membership { fk_team: 7, fk_member: 2 },
        Membership { fk_team: 7, fk_member: 3 },
    ];
    st.proposals = vec![FcpProposal {
        fk_issue: 1,
        fk_initiator: 1,
        fk_initiating_comment: 100,
        disposition: FcpDisposition::Merge,
        fk_bot_tracking_comment: 42,
        fcp_start: None,
        fcp_closed: false,
    }];
    st.review_requests = vec![
        FcpReviewRequest { fk_proposal: 1, fk_reviewer: 1, reviewed: true },
        FcpReviewRequest { fk_proposal: 1, fk_reviewer: 2, reviewed: true },
        FcpReviewRequest { fk_proposal: 1, fk_reviewer: 3, reviewed: true },
    ];
    st.comments = vec![IssueComment {
        id: 42,
        fk_issue: 1,
        fk_user: 99,
        body: tracking_body.to_string(),
    }];
    st
}

fn deliverable(effects: &[Effect]) -> usize {
    effects
        .iter()
        .filter(|e| match e {
            Effect::Comment(ce) => ce.deliver,
            Effect::StartFcp { .. } => true,
        })
        .count()
}

#[test]
fn all_reviewed_starts_fcp_exactly_once() {
    let mut st = store_with_proposal("stale text");
    let effects = evaluate_nags_at(&mut st, 1000, true);
    assert_eq!(st.proposals[0].fcp_start, Some(1000));
    assert!(!st.proposals[0].fcp_closed);
    assert!(effects.iter().any(|e| matches!(
        e,
        Effect::StartFcp { status_comment_id: 42, .. }
    )));
    // a second sweep with no further changes leaves the timestamp alone
    let effects = evaluate_nags_at(&mut st, 2000, true);
    assert_eq!(st.proposals[0].fcp_start, Some(1000));
    assert!(effects.is_empty());
}

#[test]
fn outstanding_review_blocks_fcp() {
    let mut st = store_with_proposal("stale text");
    st.review_requests[1].reviewed = false;
    let _ = evaluate_nags_at(&mut st, 1000, true);
    assert_eq!(st.proposals[0].fcp_start, None);
}

#[test]
fn unresolved_concern_blocks_fcp() {
    let mut st = store_with_proposal("stale text");
    st.concerns = vec![FcpConcern {
        fk_proposal: 1,
        fk_initiator: 2,
        fk_resolved_comment: None,
        name: "X".to_string(),
        fk_initiating_comment: 101,
    }];
    let _ = evaluate_nags_at(&mut st, 1000, true);
    assert_eq!(st.proposals[0].fcp_start, None);
    // resolving it unblocks the next sweep
    st.concerns[0].fk_resolved_comment = Some(102);
    let _ = evaluate_nags_at(&mut st, 1500, true);
    assert_eq!(st.proposals[0].fcp_start, Some(1500));
}

#[test]
fn sweep_with_no_changes_writes_nothing() {
    let mut st = store_with_proposal("stale text");
    st.review_requests[1].reviewed = false;
    // first sweep re-renders: the stored text differs, so one edit goes out
    let effects = evaluate_nags_at(&mut st, 1000, true);
    assert_eq!(deliverable(&effects), 1);
    let rendered = match &effects[0] {
        Effect::Comment(ce) => {
            assert_eq!(ce.target, CommentTarget::EditExisting(42));
            ce.body.clone()
        },
        _ => panic!("expected the status-comment edit"),
    };
    // the caller mirrors the accepted edit; nothing changed since, so the
    // next sweep makes zero remote writes
    st.comments[0].body = rendered;
    let effects = evaluate_nags_at(&mut st, 2000, true);
    assert_eq!(deliverable(&effects), 0);
}

#[test]
fn closed_issue_cancels_pending_proposal() {
    let mut st = store_with_proposal("stale text");
    st.issues[0].open = false;
    st.feedback_requests = vec![rfcbot::model::FeedbackRequest {
        fk_initiator: 1,
        fk_requested: 2,
        fk_issue: 1,
        fk_feedback_comment: None,
    }];
    let effects = evaluate_nags_at(&mut st, 1000, true);
    assert!(st.proposals.is_empty());
    assert!(st.review_requests.is_empty());
    // the cascade takes the issue's feedback requests with it
    assert!(st.feedback_requests.is_empty());
    // the cancellation attempt is recorded, though the closed issue keeps it
    // from going out
    let cancel = effects
        .iter()
        .find_map(|e| match e {
            Effect::Comment(ce) if ce.body == "@alice proposal cancelled." => Some(ce),
            _ => None,
        })
        .expect("a cancellation comment attempt");
    assert!(!cancel.deliver);
}

#[test]
fn window_runs_out_after_ten_days() {
    let now: i64 = 2_000_000_000;
    let mut st = store_with_proposal("stale text");
    // eleven days in: due
    st.proposals[0].fcp_start = Some(now - 11 * 86400);
    let effects = evaluate_nags_at(&mut st, now, true);
    assert!(st.proposals[0].fcp_closed);
    assert!(effects.iter().any(|e| matches!(
        e,
        Effect::Comment(ce) if ce.body == "The final comment period is now complete." && ce.deliver
    )));
    // nine days in: not due
    let mut st = store_with_proposal("stale text");
    st.proposals[0].fcp_start = Some(now - 9 * 86400);
    let effects = evaluate_nags_at(&mut st, now, true);
    assert!(!st.proposals[0].fcp_closed);
    assert_eq!(st.proposals[0].fcp_start, Some(now - 9 * 86400));
    assert!(effects.is_empty());
    assert!(FCP_WINDOW_SECS == 10 * 86400);
}

#[test]
fn checkbox_edits_flip_forward_never_back() {
    let mut st = store_with_proposal("* [ ] @alice\n* [ ] @bob\n* [ ] @carol\n");
    st.review_requests[0].reviewed = false;
    st.review_requests[1].reviewed = false;
    st.review_requests[2].reviewed = false;
    update_proposal_review_status(&mut st, 1).unwrap();
    assert!(st.review_requests.iter().all(|r| !r.reviewed));
    // someone checks alice's box by hand
    st.comments[0].body = "* [x] @alice\n* [ ] @bob\n* [ ] @carol\n".to_string();
    update_proposal_review_status(&mut st, 1).unwrap();
    assert!(st.review_requests[0].reviewed);
    assert!(!st.review_requests[1].reviewed);
    // unchecking it again does not take the review back
    st.comments[0].body = "* [ ] @alice\n* [ ] @bob\n* [ ] @carol\n".to_string();
    update_proposal_review_status(&mut st, 1).unwrap();
    assert!(st.review_requests[0].reviewed);
}

#[test]
fn checkbox_edit_opens_fcp_in_the_same_sweep() {
    // bob has not clicked "reviewed", but his box was checked by hand: the
    // sweep honors the edit and, with nothing left outstanding, opens the
    // waiting period in the same cycle
    let mut st = store_with_proposal("* [x] @alice\n* [x] @bob\n* [x] @carol\n");
    st.review_requests[1].reviewed = false;
    let _ = evaluate_nags_at(&mut st, 1000, true);
    assert!(st.review_requests[1].reviewed);
    assert_eq!(st.proposals[0].fcp_start, Some(1000));
}

#[test]
fn rederivation_skips_running_fcp() {
    let mut st = store_with_proposal("* [ ] @alice\n");
    st.proposals[0].fcp_start = Some(500);
    st.review_requests[0].reviewed = false;
    update_proposal_review_status(&mut st, 1).unwrap();
    assert!(!st.review_requests[0].reviewed);
}

#[test]
fn update_nags_ignores_outsiders() {
    let mut st = store_with_proposal("stale text");
    st.users.push(user(8, "mallory"));
    let comment = IssueComment {
        id: 200,
        fk_issue: 1,
        fk_user: 8,
        body: "@rfcbot reviewed".to_string(),
    };
    let before = st.clone();
    let outcome = update_nags(&mut st, &comment, 1000, true).unwrap();
    assert_eq!(outcome, UpdateOutcome::Unauthorized);
    assert_eq!(st, before);
}

#[test]
fn update_nags_processes_member_commands() {
    let mut st = store_with_proposal("stale text");
    st.review_requests[1].reviewed = false;
    let comment = IssueComment {
        id: 200,
        fk_issue: 1,
        fk_user: 2,
        body: "@rfcbot reviewed".to_string(),
    };
    match update_nags(&mut st, &comment, 1000, true).unwrap() {
        UpdateOutcome::Swept { .. } => {},
        other => panic!("expected the command to be handled, got {:?}", other),
    }
    assert!(st.review_requests[1].reviewed);
    // the sweep that followed saw every review given and opened the period
    assert_eq!(st.proposals[0].fcp_start, Some(1000));
}

#[test]
fn update_nags_resolves_feedback_on_plain_comments() {
    let mut st = store_with_proposal("stale text");
    st.feedback_requests = vec![rfcbot::model::FeedbackRequest {
        fk_initiator: 1,
        fk_requested: 2,
        fk_issue: 1,
        fk_feedback_comment: None,
    }];
    let comment = IssueComment {
        id: 200,
        fk_issue: 1,
        fk_user: 2,
        body: "here are my thoughts".to_string(),
    };
    update_nags(&mut st, &comment, 1000, true).unwrap();
    assert_eq!(st.feedback_requests[0].fk_feedback_comment, Some(200));
}

#[test]
fn update_nags_reports_missing_rows() {
    let mut st = store_with_proposal("stale text");
    let comment = IssueComment {
        id: 200,
        fk_issue: 999,
        fk_user: 2,
        body: "@rfcbot reviewed".to_string(),
    };
    assert_eq!(
        update_nags(&mut st, &comment, 1000, true),
        Err(rfcbot::model::BotError::IssueNotFound)
    );
    let comment = IssueComment {
        id: 200,
        fk_issue: 1,
        fk_user: 999,
        body: "@rfcbot reviewed".to_string(),
    };
    assert_eq!(
        update_nags(&mut st, &comment, 1000, true),
        Err(rfcbot::model::BotError::UserNotFound)
    );
}

#[test]
fn posting_disabled_defers_fcp_start_on_changed_text() {
    let mut st = store_with_proposal("stale text");
    // the stored text differs from the rendering, and posting is off: the
    // turn stops before opening the period
    let effects = evaluate_nags_at(&mut st, 1000, false);
    assert_eq!(st.proposals[0].fcp_start, None);
    assert_eq!(deliverable(&effects), 0);
}
