//! State-machine transitions: proposing in two phases, reviews, concerns,
//! feedback requests, cancellation, and the subteam roster join.

use rfcbot::command::{FcpDisposition, RfcBotCommand};
use rfcbot::machine::{
    finish_propose, list_concerns_with_authors, list_review_requests,
    resolve_applicable_feedback_requests, subteam_members, ProcessStep,
};
use rfcbot::model::{
    BotError, CommentTarget, Effect, FcpProposal, GitHubUser, Issue, IssueComment, Membership,
    Store, Team,
};

fn user(id: i64, login: &str) -> GitHubUser {
    GitHubUser { id, login: login.to_string() }
}

fn base_store() -> Store {
    let mut st = Store::new();
    st.users = vec![user(1, "alice"), user(2, "bob"), user(3, "carol")];
    st.issues = vec![Issue {
        id: 1,
        number: 10,
        repository: "rust-lang/rust".to_string(),
        open: true,
        labels: vec!["T-lang".to_string()],
    }];
    st.teams = vec![Team { id: 7, label: "T-lang".to_string() }];
    st.memberships = vec![
        Membership { fk_team: 7, fk_member: 1 },
        Membership { fk_team: 7, fk_member: 2 },
        Membership { fk_team: 7, fk_member: 3 },
    ];
    st
}

fn issue_of(st: &Store) -> Issue {
    st.issues[0].clone()
}

fn propose(st: &mut Store) {
    let alice = st.users[0].clone();
    let issue = issue_of(st);
    let cmd = RfcBotCommand::FcpPropose(FcpDisposition::Merge);
    let step = cmd.process(st, &alice, &issue, 100, true).unwrap();
    let body = match step {
        ProcessStep::NeedProposalComment { body, disposition } => {
            assert_eq!(disposition, FcpDisposition::Merge);
            body
        },
        _ => panic!("expected a proposal comment request"),
    };
    let tracking = IssueComment { id: 42, fk_issue: 1, fk_user: 99, body };
    finish_propose(st, &alice, &issue, 100, FcpDisposition::Merge, &tracking, true).unwrap();
}

#[test]
fn subteam_join_sorted_by_login() {
    let st = base_store();
    let members = subteam_members(&st, &st.issues[0]);
    let logins: Vec<&str> = members.iter().map(|u| u.login.as_str()).collect();
    assert_eq!(logins, vec!["alice", "bob", "carol"]);
}

#[test]
fn subteam_ignores_unrelated_labels() {
    let mut st = base_store();
    st.issues[0].labels = vec!["T-libs".to_string()];
    assert!(subteam_members(&st, &st.issues[0]).is_empty());
}

#[test]
fn propose_creates_rows_and_edit_effect() {
    let mut st = base_store();
    let alice = st.users[0].clone();
    let issue = issue_of(&st);
    let cmd = RfcBotCommand::FcpPropose(FcpDisposition::Merge);
    let step = cmd.process(&mut st, &alice, &issue, 100, true).unwrap();
    let body = match step {
        ProcessStep::NeedProposalComment { body, .. } => body,
        _ => panic!("expected a proposal comment request"),
    };
    assert!(body.contains("Team member @alice has proposed to merge this."));
    let tracking = IssueComment { id: 42, fk_issue: 1, fk_user: 99, body };
    let effects =
        finish_propose(&mut st, &alice, &issue, 100, FcpDisposition::Merge, &tracking, true)
            .unwrap();

    assert_eq!(st.proposals.len(), 1);
    let p = &st.proposals[0];
    assert_eq!(p.fk_issue, 1);
    assert_eq!(p.fk_initiator, 1);
    assert_eq!(p.fk_bot_tracking_comment, 42);
    assert_eq!(p.fcp_start, None);
    assert!(!p.fcp_closed);

    assert_eq!(st.review_requests.len(), 3);
    for rr in &st.review_requests {
        assert_eq!(rr.fk_proposal, 1);
        assert_eq!(rr.reviewed, rr.fk_reviewer == 1);
    }

    assert_eq!(effects.len(), 1);
    match &effects[0] {
        Effect::Comment(ce) => {
            assert_eq!(ce.target, CommentTarget::EditExisting(42));
            assert!(ce.deliver);
            assert!(ce.body.contains("* [x] @alice\n* [ ] @bob\n* [ ] @carol\n"));
        },
        _ => panic!("expected an edit of the tracking comment"),
    }
}

#[test]
fn propose_requires_posting_enabled() {
    let mut st = base_store();
    let alice = st.users[0].clone();
    let issue = issue_of(&st);
    let cmd = RfcBotCommand::FcpPropose(FcpDisposition::Merge);
    assert_eq!(cmd.process(&mut st, &alice, &issue, 100, false), Err(BotError::CommentingDisabled));
}

#[test]
fn propose_requires_open_issue() {
    let mut st = base_store();
    st.issues[0].open = false;
    let alice = st.users[0].clone();
    let issue = issue_of(&st);
    let cmd = RfcBotCommand::FcpPropose(FcpDisposition::Merge);
    assert_eq!(cmd.process(&mut st, &alice, &issue, 100, true), Err(BotError::IssueClosed));
}

#[test]
fn second_proposal_is_a_noop() {
    let mut st = base_store();
    propose(&mut st);
    let bob = st.users[1].clone();
    let issue = issue_of(&st);
    let cmd = RfcBotCommand::FcpPropose(FcpDisposition::Close);
    match cmd.process(&mut st, &bob, &issue, 101, true).unwrap() {
        ProcessStep::Done(effects) => assert!(effects.is_empty()),
        _ => panic!("a live proposal must make a second one a no-op"),
    }
    assert_eq!(st.proposals.len(), 1);
    assert_eq!(st.proposals[0].disposition, FcpDisposition::Merge);
}

#[test]
fn reviewed_sets_flag() {
    let mut st = base_store();
    propose(&mut st);
    let bob = st.users[1].clone();
    let issue = issue_of(&st);
    RfcBotCommand::Reviewed.process(&mut st, &bob, &issue, 101, true).unwrap();
    let rr = st.review_requests.iter().find(|r| r.fk_reviewer == 2).unwrap();
    assert!(rr.reviewed);
}

#[test]
fn concern_insert_and_duplicate_noop() {
    let mut st = base_store();
    propose(&mut st);
    let bob = st.users[1].clone();
    let issue = issue_of(&st);
    RfcBotCommand::NewConcern("LEAKY_ABSTRACTION").process(&mut st, &bob, &issue, 101, true)
        .unwrap();
    assert_eq!(st.concerns.len(), 1);
    assert_eq!(st.concerns[0].name, "LEAKY_ABSTRACTION");
    assert_eq!(st.concerns[0].fk_initiating_comment, 101);
    assert_eq!(st.concerns[0].fk_resolved_comment, None);
    // a second concern under the same name changes nothing
    RfcBotCommand::NewConcern("LEAKY_ABSTRACTION").process(&mut st, &bob, &issue, 102, true)
        .unwrap();
    assert_eq!(st.concerns.len(), 1);
}

#[test]
fn resolve_concern_records_comment() {
    let mut st = base_store();
    propose(&mut st);
    let bob = st.users[1].clone();
    let issue = issue_of(&st);
    RfcBotCommand::NewConcern("LEAKY_ABSTRACTION").process(&mut st, &bob, &issue, 101, true)
        .unwrap();
    RfcBotCommand::ResolveConcern("LEAKY_ABSTRACTION").process(&mut st, &bob, &issue, 102, true)
        .unwrap();
    assert_eq!(st.concerns[0].fk_resolved_comment, Some(102));
    // a resolved name may be raised again: intentional reopening
    RfcBotCommand::NewConcern("LEAKY_ABSTRACTION").process(&mut st, &bob, &issue, 103, true)
        .unwrap();
    assert_eq!(st.concerns.len(), 2);
    assert_eq!(st.concerns[1].fk_resolved_comment, None);
}

#[test]
fn only_the_raiser_resolves() {
    let mut st = base_store();
    propose(&mut st);
    let bob = st.users[1].clone();
    let carol = st.users[2].clone();
    let issue = issue_of(&st);
    RfcBotCommand::NewConcern("X").process(&mut st, &bob, &issue, 101, true).unwrap();
    RfcBotCommand::ResolveConcern("X").process(&mut st, &carol, &issue, 102, true).unwrap();
    assert_eq!(st.concerns[0].fk_resolved_comment, None);
}

#[test]
fn feedback_request_and_resolution() {
    let mut st = base_store();
    let alice = st.users[0].clone();
    let issue = issue_of(&st);
    RfcBotCommand::FeedbackRequest("bob").process(&mut st, &alice, &issue, 101, true).unwrap();
    assert_eq!(st.feedback_requests.len(), 1);
    assert_eq!(st.feedback_requests[0].fk_requested, 2);
    assert_eq!(st.feedback_requests[0].fk_feedback_comment, None);
    // a duplicate open request is not inserted
    RfcBotCommand::FeedbackRequest("bob").process(&mut st, &alice, &issue, 102, true).unwrap();
    assert_eq!(st.feedback_requests.len(), 1);
    // bob's next comment resolves it
    resolve_applicable_feedback_requests(&mut st, 2, 1, 103);
    assert_eq!(st.feedback_requests[0].fk_feedback_comment, Some(103));
}

#[test]
fn feedback_request_unknown_user() {
    let mut st = base_store();
    let alice = st.users[0].clone();
    let issue = issue_of(&st);
    assert_eq!(
        RfcBotCommand::FeedbackRequest("nobody").process(&mut st, &alice, &issue, 101, true),
        Err(BotError::UserNotFound)
    );
}

#[test]
fn cancel_deletes_cascade_and_posts() {
    let mut st = base_store();
    propose(&mut st);
    let bob = st.users[1].clone();
    let issue = issue_of(&st);
    RfcBotCommand::NewConcern("X").process(&mut st, &bob, &issue, 101, true).unwrap();
    let alice = st.users[0].clone();
    RfcBotCommand::FeedbackRequest("carol").process(&mut st, &alice, &issue, 102, true).unwrap();
    assert_eq!(st.feedback_requests.len(), 1);
    match RfcBotCommand::FcpCancel.process(&mut st, &alice, &issue, 103, true).unwrap() {
        ProcessStep::Done(effects) => {
            assert_eq!(effects.len(), 1);
            match &effects[0] {
                Effect::Comment(ce) => {
                    assert_eq!(ce.body, "@alice proposal cancelled.");
                    assert!(ce.deliver);
                },
                _ => panic!("expected the cancellation comment"),
            }
        },
        _ => panic!("expected a handled command"),
    }
    assert!(st.proposals.is_empty());
    assert!(st.review_requests.is_empty());
    assert!(st.concerns.is_empty());
    // the cascade takes the issue's feedback requests with it
    assert!(st.feedback_requests.is_empty());
}

#[test]
fn listings_pair_rows_with_users() {
    let mut st = base_store();
    propose(&mut st);
    let bob = st.users[1].clone();
    let issue = issue_of(&st);
    RfcBotCommand::NewConcern("B second").process(&mut st, &bob, &issue, 101, true).unwrap();
    RfcBotCommand::NewConcern("A first").process(&mut st, &bob, &issue, 102, true).unwrap();
    let reviews = list_review_requests(&st, 1).unwrap();
    let logins: Vec<&str> = reviews.iter().map(|p| p.0.login.as_str()).collect();
    assert_eq!(logins, vec!["alice", "bob", "carol"]);
    let concerns = list_concerns_with_authors(&st, 1).unwrap();
    let names: Vec<&str> = concerns.iter().map(|p| p.1.name.as_str()).collect();
    assert_eq!(names, vec!["A first", "B second"]);
    assert_eq!(concerns[0].0.login, "bob");
}

#[test]
fn finish_propose_refuses_live_proposal() {
    let mut st = base_store();
    propose(&mut st);
    let alice = st.users[0].clone();
    let issue = issue_of(&st);
    let tracking = IssueComment { id: 43, fk_issue: 1, fk_user: 99, body: "x".to_string() };
    assert_eq!(
        finish_propose(&mut st, &alice, &issue, 200, FcpDisposition::Close, &tracking, true),
        Err(BotError::ProposalExists)
    );
}

#[test]
fn store_starts_well_formed() {
    let st = Store::new();
    assert!(st.proposals.is_empty());
    let _ = FcpProposal {
        fk_issue: 1,
        fk_initiator: 1,
        fk_initiating_comment: 1,
        disposition: FcpDisposition::Merge,
        fk_bot_tracking_comment: 1,
        fcp_start: None,
        fcp_closed: false,
    };
}
