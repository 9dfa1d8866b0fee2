//! Renderer output: exact texts, and determinism of repeated rendering.

use rfcbot::command::FcpDisposition;
use rfcbot::model::{CommentTarget, FcpConcern, FcpReviewRequest, GitHubUser, Issue};
use rfcbot::render::{
    add_comment_url, cancellation_body, fcp_complete_body, fcp_start_notice_body, plan_comment,
    proposal_body, push_dec_i64,
};

fn user(id: i64, login: &str) -> GitHubUser {
    GitHubUser { id, login: login.to_string() }
}

fn issue() -> Issue {
    Issue {
        id: 1,
        number: 10,
        repository: "rust-lang/rust".to_string(),
        open: true,
        labels: vec!["T-lang".to_string()],
    }
}

#[test]
fn proposal_body_exact() {
    let alice = user(1, "alice");
    let bob = user(2, "bob");
    let reviewers = vec![
        (alice.clone(), FcpReviewRequest { fk_proposal: 1, fk_reviewer: 1, reviewed: true }),
        (bob, FcpReviewRequest { fk_proposal: 1, fk_reviewer: 2, reviewed: false }),
    ];
    let concerns: Vec<(GitHubUser, FcpConcern)> = Vec::new();
    let body = proposal_body(&issue(), &alice, FcpDisposition::Merge, &reviewers, &concerns);
    assert_eq!(
        body,
        "Team member @alice has proposed to merge this. The next step is review by the rest \
         of the tagged teams:\n\n* [x] @alice\n* [ ] @bob\n\nNo concerns currently listed.\n\
         \nOnce these tagged members reach consensus, this will enter its final comment period. \
         If you spot a major issue that hasn't been raised at any point in this process, \
         please speak up!\n\nSee [this document](https://github.com/dikaiosune/rust-dashboard/\
         blob/master/RFCBOT.md) for info about what commands tagged team members can give me."
    );
}

#[test]
fn proposal_body_concern_lines() {
    let alice = user(1, "alice");
    let open_concern = FcpConcern {
        fk_proposal: 1,
        fk_initiator: 1,
        fk_resolved_comment: None,
        name: "CONCERN".to_string(),
        fk_initiating_comment: 5,
    };
    let resolved_concern = FcpConcern {
        fk_proposal: 1,
        fk_initiator: 1,
        fk_resolved_comment: Some(7),
        name: "DONE".to_string(),
        fk_initiating_comment: 6,
    };
    let concerns = vec![(alice.clone(), open_concern), (alice.clone(), resolved_concern)];
    let body = proposal_body(&issue(), &alice, FcpDisposition::Close, &Vec::new(), &concerns);
    assert!(body.contains("\nConcerns:\n\n"));
    assert!(body.contains(
        "* CONCERN (https://github.com/rust-lang/rust/issues/10#issuecomment-5)\n"
    ));
    assert!(body.contains(
        "* ~~DONE~~ resolved by https://github.com/rust-lang/rust/issues/10#issuecomment-7\n"
    ));
    assert!(!body.contains("No concerns currently listed"));
}

#[test]
fn rendering_is_deterministic() {
    let alice = user(1, "alice");
    let reviewers = vec![
        (alice.clone(), FcpReviewRequest { fk_proposal: 1, fk_reviewer: 1, reviewed: false }),
    ];
    let b1 = proposal_body(&issue(), &alice, FcpDisposition::Postpone, &reviewers, &Vec::new());
    let b2 = proposal_body(&issue(), &alice, FcpDisposition::Postpone, &reviewers, &Vec::new());
    assert_eq!(b1, b2);
}

#[test]
fn cancellation_body_exact() {
    assert_eq!(cancellation_body(&user(1, "alice")), "@alice proposal cancelled.");
}

#[test]
fn fcp_start_notice_exact() {
    let with_label = fcp_start_notice_body("rust-lang/rust", 10, "alice", 42, true);
    assert_eq!(
        with_label,
        ":bell: **This is now entering its final comment period**, as per the [review above](\
         https://github.com/rust-lang/rust/issues/10#issuecomment-42). :bell:"
    );
    let without_label = fcp_start_notice_body("rust-lang/rust", 10, "alice", 42, false);
    assert_eq!(
        without_label,
        ":bell: **This is now entering its final comment period**, as per the [review above](\
         https://github.com/rust-lang/rust/issues/10#issuecomment-42). :bell:\n\n*psst @alice, \
         I wasn't able to add the `final-comment-period` label, please do so.*"
    );
}

#[test]
fn fcp_complete_body_exact() {
    assert_eq!(fcp_complete_body(), "The final comment period is now complete.");
}

#[test]
fn comment_url_exact() {
    let mut s = String::new();
    add_comment_url(&mut s, "a/b", 3, 123456);
    assert_eq!(s, "https://github.com/a/b/issues/3#issuecomment-123456");
}

#[test]
fn decimal_rendering() {
    let mut s = String::new();
    push_dec_i64(&mut s, 0);
    s.push(' ');
    push_dec_i64(&mut s, 905);
    s.push(' ');
    push_dec_i64(&mut s, -17);
    assert_eq!(s, "0 905 -17");
}

#[test]
fn plan_comment_gating() {
    let open_issue = issue();
    let eff = plan_comment(&open_issue, "hi".to_string(), None, true);
    assert!(eff.deliver);
    assert_eq!(eff.target, CommentTarget::NewOnIssue(10));
    let eff = plan_comment(&open_issue, "hi".to_string(), Some(9), false);
    assert!(!eff.deliver);
    assert_eq!(eff.target, CommentTarget::EditExisting(9));
    let mut closed = issue();
    closed.open = false;
    let eff = plan_comment(&closed, "hi".to_string(), None, true);
    assert!(!eff.deliver);
}
