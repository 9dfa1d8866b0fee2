//! The persisted rows the bot works over, held as plain values: users,
//! issues, comments, proposals, review requests, concerns, feedback requests
//! and the team roster. The [`Store`] is an in-memory image of the durable
//! store; the caller loads it and writes changed rows back. Timestamps are
//! seconds; ids are the platform's or the store's own, both plain integers.

use vstd::prelude::*;

verus! {

/// A platform account.
#[derive(Debug, Eq, PartialEq)]
pub struct GitHubUser {
    pub id: i64,
    pub login: String,
}

/// A repository-qualified issue, read-mostly; the closed flag drives
/// cancellation and the labels pick the subteams whose sign-off is needed.
#[derive(Debug, Eq, PartialEq)]
pub struct Issue {
    pub id: i64,
    pub number: i64,
    pub repository: String,
    pub open: bool,
    pub labels: Vec<String>,
}

/// A comment as mirrored from the platform.
#[derive(Debug, Eq, PartialEq)]
pub struct IssueComment {
    pub id: i64,
    pub fk_issue: i64,
    pub fk_user: i64,
    pub body: String,
}

/// One issue's live proposal. At most one exists per issue at any time; the
/// issue id is its key.
#[derive(Clone, Copy, Debug, Eq, PartialEq)]
pub struct FcpProposal {
    pub fk_issue: i64,
    pub fk_initiator: i64,
    pub fk_initiating_comment: i64,
    pub disposition: crate::command::FcpDisposition,
    pub fk_bot_tracking_comment: i64,
    pub fcp_start: Option<i64>,
    pub fcp_closed: bool,
}

/// A requested member's pending or given sign-off for one proposal. `reviewed` is
/// monotonic: the sweep never clears it once set.
#[derive(Clone, Copy, Debug, Eq, PartialEq)]
pub struct FcpReviewRequest {
    pub fk_proposal: i64,
    pub fk_reviewer: i64,
    pub reviewed: bool,
}

/// A blocking objection; resolved by recording the resolving comment, never
/// by deletion.
#[derive(Debug, Eq, PartialEq)]
pub struct FcpConcern {
    pub fk_proposal: i64,
    pub fk_initiator: i64,
    pub fk_resolved_comment: Option<i64>,
    pub name: String,
    pub fk_initiating_comment: i64,
}

/// A standing request for a user's feedback on an issue, closed by that
/// user's next comment there.
#[derive(Clone, Copy, Debug, Eq, PartialEq)]
pub struct FeedbackRequest {
    pub fk_initiator: i64,
    pub fk_requested: i64,
    pub fk_issue: i64,
    pub fk_feedback_comment: Option<i64>,
}

/// A subteam, addressed by the issue label that tags it.
#[derive(Debug, Eq, PartialEq)]
pub struct Team {
    pub id: i64,
    pub label: String,
}

/// A user's membership of a team.
#[derive(Clone, Copy, Debug, Eq, PartialEq)]
pub struct Membership {
    pub fk_team: i64,
    pub fk_member: i64,
}


// `Clone` by hand where a `String` field is involved, so that verified
// callers know a clone equals its source.
impl Clone for GitHubUser {
    fn clone(&self) -> (r: Self)
        ensures
            r == *self,
    {
        GitHubUser { id: self.id, login: self.login.clone() }
    }
}

impl Clone for Issue {
    fn clone(&self) -> (r: Self)
        ensures
            r.id == self.id,
            r.number == self.number,
            r.repository == self.repository,
            r.open == self.open,
            r.labels@ == self.labels@,
    {
        let mut labels: Vec<String> = Vec::new();
        let n = self.labels.len();
        let mut i: usize = 0;
        while i < n
            invariant
                i <= n,
                n == self.labels@.len(),
                labels@ =~= self.labels@.take(i as int),
            decreases n - i,
        {
            labels.push(self.labels[i].clone());
            proof {
                assert(labels@ =~= self.labels@.take(i as int + 1));
            }
            i += 1;
        }
        proof {
            assert(self.labels@.take(n as int) =~= self.labels@);
            assert(labels@ == self.labels@);
        }
        Issue {
            id: self.id,
            number: self.number,
            repository: self.repository.clone(),
            open: self.open,
            labels: labels,
        }
    }
}

impl Clone for IssueComment {
    fn clone(&self) -> (r: Self)
        ensures
            r == *self,
    {
        IssueComment {
            id: self.id,
            fk_issue: self.fk_issue,
            fk_user: self.fk_user,
            body: self.body.clone(),
        }
    }
}

impl Clone for FcpConcern {
    fn clone(&self) -> (r: Self)
        ensures
            r == *self,
    {
        FcpConcern {
            fk_proposal: self.fk_proposal,
            fk_initiator: self.fk_initiator,
            fk_resolved_comment: self.fk_resolved_comment,
            name: self.name.clone(),
            fk_initiating_comment: self.fk_initiating_comment,
        }
    }
}

impl Clone for Team {
    fn clone(&self) -> (r: Self)
        ensures
            r == *self,
    {
        Team { id: self.id, label: self.label.clone() }
    }
}

/// The rows the bot reads and writes, as one in-memory image.
#[derive(Clone, Debug, Eq, PartialEq)]
pub struct Store {
    pub users: Vec<GitHubUser>,
    pub issues: Vec<Issue>,
    pub comments: Vec<IssueComment>,
    pub proposals: Vec<FcpProposal>,
    pub review_requests: Vec<FcpReviewRequest>,
    pub concerns: Vec<FcpConcern>,
    pub feedback_requests: Vec<FeedbackRequest>,
    pub teams: Vec<Team>,
    pub memberships: Vec<Membership>,
}

/// Index of the first element of `s` satisfying `p`.
pub open spec fn find_idx<A>(s: Seq<A>, p: spec_fn(A) -> bool) -> Option<int>
    decreases s.len(),
{
    if s.len() == 0 {
        None
    } else if p(s[0]) {
        Some(0int)
    } else {
        match find_idx(s.skip(1), p) {
            None => None,
            Some(i) => Some(i + 1),
        }
    }
}

pub proof fn lemma_find_idx<A>(s: Seq<A>, p: spec_fn(A) -> bool)
    ensures
        match find_idx(s, p) {
            Some(i) => 0 <= i < s.len() && p(s[i]) && forall|j: int| 0 <= j < i ==> !p(s[j]),
            None => forall|j: int| 0 <= j < s.len() ==> !p(s[j]),
        },
    decreases s.len(),
{
    if s.len() > 0 && !p(s[0]) {
        lemma_find_idx(s.skip(1), p);
        match find_idx(s.skip(1), p) {
            None => {
                assert forall|j: int| 0 <= j < s.len() implies !p(s[j]) by {
                    if j >= 1 {
                        assert(s[j] == s.skip(1)[j - 1]);
                    }
                }
            },
            Some(i) => {
                assert(s[i + 1] == s.skip(1)[i]);
                assert forall|j: int| 0 <= j < i + 1 implies !p(s[j]) by {
                    if j >= 1 {
                        assert(s[j] == s.skip(1)[j - 1]);
                    }
                }
            },
        }
    }
}

/// `find_idx` follows from a left-to-right scan that stopped at `j`.
pub proof fn lemma_find_idx_from_scan<A>(s: Seq<A>, p: spec_fn(A) -> bool, j: int)
    requires
        0 <= j <= s.len(),
        forall|k: int| 0 <= k < j ==> !p(s[k]),
        j < s.len() ==> p(s[j]),
    ensures
        find_idx(s, p) == if j < s.len() {
            Some(j)
        } else {
            None::<int>
        },
    decreases j,
{
    if s.len() > 0 && !p(s[0]) {
        lemma_find_idx_from_scan(s.skip(1), p, j - 1);
    }
}

/// Two same-length sequences on which the predicate agrees pointwise have
/// the same first-match position.
pub proof fn lemma_find_idx_congruent<A>(s1: Seq<A>, s2: Seq<A>, p: spec_fn(A) -> bool)
    requires
        s1.len() == s2.len(),
        forall|k: int| 0 <= k < s1.len() ==> p(s1[k]) == p(#[trigger] s2[k]),
    ensures
        find_idx(s1, p) == find_idx(s2, p),
    decreases s1.len(),
{
    if s1.len() > 0 && !p(s1[0]) {
        assert forall|k: int|
            0 <= k < s1.len() - 1 implies p(s1.skip(1)[k]) == p(#[trigger] s2.skip(1)[k]) by {
            assert(s1.skip(1)[k] == s1[k + 1]);
            assert(s2.skip(1)[k] == s2[k + 1]);
        }
        lemma_find_idx_congruent(s1.skip(1), s2.skip(1), p);
    }
}

/// A row with the key exists, so the keyed lookup succeeds.
pub proof fn lemma_proposal_exists(s: Seq<FcpProposal>, issue: i64)
    requires
        exists|i: int| 0 <= i < s.len() && (#[trigger] s[i]).fk_issue == issue,
    ensures
        proposal_idx(s, issue) is Some,
{
    lemma_find_idx(s, |p: FcpProposal| p.fk_issue == issue);
}

/// A user with the id exists, so the keyed lookup succeeds.
pub proof fn lemma_user_exists(s: Seq<GitHubUser>, id: i64)
    requires
        exists|i: int| 0 <= i < s.len() && (#[trigger] s[i]).id == id,
    ensures
        user_idx(s, id) is Some,
{
    lemma_find_idx(s, |u: GitHubUser| u.id == id);
}

/// A matching review request exists, so the keyed lookup succeeds.
pub proof fn lemma_rr_exists(s: Seq<FcpReviewRequest>, proposal: i64, reviewer: i64)
    requires
        exists|i: int|
            0 <= i < s.len() && (#[trigger] s[i]).fk_proposal == proposal && s[i].fk_reviewer
                == reviewer,
    ensures
        rr_idx(s, proposal, reviewer) is Some,
{
    lemma_find_idx(
        s,
        |r: FcpReviewRequest| r.fk_proposal == proposal && r.fk_reviewer == reviewer,
    );
}

// What each table is keyed by: the first matching row, as the store's
// filtered `first` lookups return it.
pub open spec fn user_idx(s: Seq<GitHubUser>, id: i64) -> Option<int> {
    find_idx(s, |u: GitHubUser| u.id == id)
}

pub open spec fn user_login_idx(s: Seq<GitHubUser>, login: Seq<char>) -> Option<int> {
    find_idx(s, |u: GitHubUser| u.login@ == login)
}

pub open spec fn issue_idx(s: Seq<Issue>, id: i64) -> Option<int> {
    find_idx(s, |i: Issue| i.id == id)
}

pub open spec fn comment_idx(s: Seq<IssueComment>, id: i64) -> Option<int> {
    find_idx(s, |c: IssueComment| c.id == id)
}

pub open spec fn proposal_idx(s: Seq<FcpProposal>, issue: i64) -> Option<int> {
    find_idx(s, |p: FcpProposal| p.fk_issue == issue)
}

pub open spec fn rr_idx(s: Seq<FcpReviewRequest>, proposal: i64, reviewer: i64) -> Option<int> {
    find_idx(s, |r: FcpReviewRequest| r.fk_proposal == proposal && r.fk_reviewer == reviewer)
}

pub open spec fn unresolved_concern_idx(s: Seq<FcpConcern>, proposal: i64, name: Seq<char>) -> Option<
    int,
> {
    find_idx(
        s,
        |c: FcpConcern| c.fk_proposal == proposal && c.fk_resolved_comment is None && c.name@
            == name,
    )
}

pub open spec fn authored_concern_idx(
    s: Seq<FcpConcern>,
    proposal: i64,
    initiator: i64,
    name: Seq<char>,
) -> Option<int> {
    find_idx(
        s,
        |c: FcpConcern| c.fk_proposal == proposal && c.fk_initiator == initiator && c.name@ == name,
    )
}

pub open spec fn open_feedback_idx(s: Seq<FeedbackRequest>, requested: i64, issue: i64) -> Option<
    int,
> {
    find_idx(
        s,
        |f: FeedbackRequest| f.fk_requested == requested && f.fk_issue == issue
            && f.fk_feedback_comment is None,
    )
}

/// Review requests of `proposal` still waiting for sign-off.
pub open spec fn count_unreviewed(s: Seq<FcpReviewRequest>, proposal: i64) -> nat {
    s.filter(|r: FcpReviewRequest| r.fk_proposal == proposal && !r.reviewed).len()
}

/// Concerns of `proposal` not yet resolved.
pub open spec fn count_unresolved(s: Seq<FcpConcern>, proposal: i64) -> nat {
    s.filter(|c: FcpConcern| c.fk_proposal == proposal && c.fk_resolved_comment is None).len()
}

impl Store {
    /// Users carry distinct ids and distinct logins.
    pub open spec fn users_wf(self) -> bool {
        forall|i: int, j: int|
            0 <= i < j < self.users@.len() ==> self.users@[i].id != self.users@[j].id
                && self.users@[i].login@ != self.users@[j].login@
    }

    pub open spec fn issues_wf(self) -> bool {
        forall|i: int, j: int|
            0 <= i < j < self.issues@.len() ==> self.issues@[i].id != self.issues@[j].id
    }

    pub open spec fn comments_wf(self) -> bool {
        forall|i: int, j: int|
            0 <= i < j < self.comments@.len() ==> self.comments@[i].id != self.comments@[j].id
    }

    /// At most one live proposal per issue, and a closed one has started.
    pub open spec fn proposals_wf(self) -> bool {
        &&& forall|i: int, j: int|
            0 <= i < j < self.proposals@.len() ==> self.proposals@[i].fk_issue
                != self.proposals@[j].fk_issue
        &&& forall|i: int|
            0 <= i < self.proposals@.len() ==> (self.proposals@[i].fcp_closed
                ==> self.proposals@[i].fcp_start is Some)
    }

    /// One review request per (proposal, requested member).
    pub open spec fn review_requests_wf(self) -> bool {
        forall|i: int, j: int|
            0 <= i < j < self.review_requests@.len() ==> !(self.review_requests@[i].fk_proposal
                == self.review_requests@[j].fk_proposal && self.review_requests@[i].fk_reviewer
                == self.review_requests@[j].fk_reviewer)
    }

    /// Names are unique among the unresolved concerns of one proposal.
    pub open spec fn concerns_wf(self) -> bool {
        forall|i: int, j: int|
            0 <= i < j < self.concerns@.len() ==> !(self.concerns@[i].fk_proposal
                == self.concerns@[j].fk_proposal && self.concerns@[i].fk_resolved_comment is None
                && self.concerns@[j].fk_resolved_comment is None && self.concerns@[i].name@
                == self.concerns@[j].name@)
    }

    /// At most one open feedback request per (requested user, issue).
    pub open spec fn feedback_wf(self) -> bool {
        forall|i: int, j: int|
            0 <= i < j < self.feedback_requests@.len() ==> !(self.feedback_requests@[i].fk_requested
                == self.feedback_requests@[j].fk_requested && self.feedback_requests@[i].fk_issue
                == self.feedback_requests@[j].fk_issue
                && self.feedback_requests@[i].fk_feedback_comment is None
                && self.feedback_requests@[j].fk_feedback_comment is None)
    }

    /// Review requests and concerns belong to a live proposal.
    pub open spec fn refs_wf(self) -> bool {
        &&& forall|i: int|
            0 <= i < self.review_requests@.len() ==> proposal_idx(
                self.proposals@,
                (#[trigger] self.review_requests@[i]).fk_proposal,
            ) is Some
        &&& forall|i: int|
            0 <= i < self.concerns@.len() ==> proposal_idx(
                self.proposals@,
                (#[trigger] self.concerns@[i]).fk_proposal,
            ) is Some
    }

    pub open spec fn wf(self) -> bool {
        &&& self.users_wf()
        &&& self.issues_wf()
        &&& self.comments_wf()
        &&& self.proposals_wf()
        &&& self.review_requests_wf()
        &&& self.concerns_wf()
        &&& self.feedback_wf()
        &&& self.refs_wf()
    }

    /// An empty store, well-formed by construction.
    pub fn new() -> (r: Store)
        ensures
            r.wf(),
            r.users@.len() == 0,
            r.issues@.len() == 0,
            r.comments@.len() == 0,
            r.proposals@.len() == 0,
            r.review_requests@.len() == 0,
            r.concerns@.len() == 0,
            r.feedback_requests@.len() == 0,
            r.teams@.len() == 0,
            r.memberships@.len() == 0,
    {
        Store {
            users: Vec::new(),
            issues: Vec::new(),
            comments: Vec::new(),
            proposals: Vec::new(),
            review_requests: Vec::new(),
            concerns: Vec::new(),
            feedback_requests: Vec::new(),
            teams: Vec::new(),
            memberships: Vec::new(),
        }
    }

    pub fn user_pos(&self, id: i64) -> (r: Option<usize>)
        ensures
            match r {
                Some(i) => user_idx(self.users@, id) == Some(i as int) && i < self.users@.len()
                    && self.users@[i as int].id == id,
                None => user_idx(self.users@, id) is None,
            },
    {
                let n = self.users.len();
        let mut k: usize = 0;
        while k < n
            invariant
                k <= n,
                n == self.users@.len(),
                forall|j: int| 0 <= j < k ==> self.users@[j].id != id,
            decreases n - k,
        {
            if self.users[k].id == id {
                proof {
                    lemma_find_idx_from_scan(self.users@, |u: GitHubUser| u.id == id, k as int);
                }
                return Some(k);
            }
            k += 1;
        }
        proof {
            lemma_find_idx_from_scan(self.users@, |u: GitHubUser| u.id == id, n as int);
        }
        None
    }

    pub fn user_pos_by_login(&self, login: &str) -> (r: Option<usize>)
        ensures
            match r {
                Some(i) => user_login_idx(self.users@, login@) == Some(i as int) && i
                    < self.users@.len() && self.users@[i as int].login@ == login@,
                None => user_login_idx(self.users@, login@) is None,
            },
    {
                let n = self.users.len();
        let mut k: usize = 0;
        while k < n
            invariant
                k <= n,
                n == self.users@.len(),
                forall|j: int| 0 <= j < k ==> self.users@[j].login@ != login@,
            decreases n - k,
        {
            if crate::text::str_eq(self.users[k].login.as_str(), login) {
                proof {
                    lemma_find_idx_from_scan(self.users@, |u: GitHubUser| u.login@ == login@, k as int);
                }
                return Some(k);
            }
            k += 1;
        }
        proof {
            lemma_find_idx_from_scan(self.users@, |u: GitHubUser| u.login@ == login@, n as int);
        }
        None
    }

    pub fn issue_pos(&self, id: i64) -> (r: Option<usize>)
        ensures
            match r {
                Some(i) => issue_idx(self.issues@, id) == Some(i as int) && i
                    < self.issues@.len() && self.issues@[i as int].id == id,
                None => issue_idx(self.issues@, id) is None,
            },
    {
                let n = self.issues.len();
        let mut k: usize = 0;
        while k < n
            invariant
                k <= n,
                n == self.issues@.len(),
                forall|j: int| 0 <= j < k ==> self.issues@[j].id != id,
            decreases n - k,
        {
            if self.issues[k].id == id {
                proof {
                    lemma_find_idx_from_scan(self.issues@, |i: Issue| i.id == id, k as int);
                }
                return Some(k);
            }
            k += 1;
        }
        proof {
            lemma_find_idx_from_scan(self.issues@, |i: Issue| i.id == id, n as int);
        }
        None
    }

    pub fn comment_pos(&self, id: i64) -> (r: Option<usize>)
        ensures
            match r {
                Some(i) => comment_idx(self.comments@, id) == Some(i as int) && i
                    < self.comments@.len() && self.comments@[i as int].id == id,
                None => comment_idx(self.comments@, id) is None,
            },
    {
                let n = self.comments.len();
        let mut k: usize = 0;
        while k < n
            invariant
                k <= n,
                n == self.comments@.len(),
                forall|j: int| 0 <= j < k ==> self.comments@[j].id != id,
            decreases n - k,
        {
            if self.comments[k].id == id {
                proof {
                    lemma_find_idx_from_scan(self.comments@, |c: IssueComment| c.id == id, k as int);
                }
                return Some(k);
            }
            k += 1;
        }
        proof {
            lemma_find_idx_from_scan(self.comments@, |c: IssueComment| c.id == id, n as int);
        }
        None
    }

    pub fn proposal_pos(&self, issue: i64) -> (r: Option<usize>)
        ensures
            match r {
                Some(i) => proposal_idx(self.proposals@, issue) == Some(i as int) && i
                    < self.proposals@.len() && self.proposals@[i as int].fk_issue == issue,
                None => proposal_idx(self.proposals@, issue) is None,
            },
    {
                let n = self.proposals.len();
        let mut k: usize = 0;
        while k < n
            invariant
                k <= n,
                n == self.proposals@.len(),
                forall|j: int| 0 <= j < k ==> self.proposals@[j].fk_issue != issue,
            decreases n - k,
        {
            if self.proposals[k].fk_issue == issue {
                proof {
                    lemma_find_idx_from_scan(self.proposals@, |pr: FcpProposal| pr.fk_issue == issue, k as int);
                }
                return Some(k);
            }
            k += 1;
        }
        proof {
            lemma_find_idx_from_scan(self.proposals@, |pr: FcpProposal| pr.fk_issue == issue, n as int);
        }
        None
    }

    pub fn rr_pos(&self, proposal: i64, reviewer: i64) -> (r: Option<usize>)
        ensures
            match r {
                Some(i) => rr_idx(self.review_requests@, proposal, reviewer) == Some(i as int)
                    && i < self.review_requests@.len()
                    && self.review_requests@[i as int].fk_proposal == proposal
                    && self.review_requests@[i as int].fk_reviewer == reviewer,
                None => rr_idx(self.review_requests@, proposal, reviewer) is None,
            },
    {
                let n = self.review_requests.len();
        let mut k: usize = 0;
        while k < n
            invariant
                k <= n,
                n == self.review_requests@.len(),
                forall|j: int| 0 <= j < k ==> !(self.review_requests@[j].fk_proposal == proposal && self.review_requests@[j].fk_reviewer == reviewer),
            decreases n - k,
        {
            if self.review_requests[k].fk_proposal == proposal && self.review_requests[k].fk_reviewer
                == reviewer {
                proof {
                    lemma_find_idx_from_scan(self.review_requests@, |r: FcpReviewRequest| r.fk_proposal == proposal && r.fk_reviewer == reviewer, k as int);
                }
                return Some(k);
            }
            k += 1;
        }
        proof {
            lemma_find_idx_from_scan(self.review_requests@, |r: FcpReviewRequest| r.fk_proposal == proposal && r.fk_reviewer == reviewer, n as int);
        }
        None
    }

    pub fn unresolved_concern_pos(&self, proposal: i64, name: &str) -> (r: Option<usize>)
        ensures
            match r {
                Some(i) => unresolved_concern_idx(self.concerns@, proposal, name@) == Some(
                    i as int,
                ) && i < self.concerns@.len() && self.concerns@[i as int].fk_proposal == proposal
                    && self.concerns@[i as int].fk_resolved_comment is None
                    && self.concerns@[i as int].name@ == name@,
                None => unresolved_concern_idx(self.concerns@, proposal, name@) is None,
            },
    {
                let n = self.concerns.len();
        let mut k: usize = 0;
        while k < n
            invariant
                k <= n,
                n == self.concerns@.len(),
                forall|j: int| 0 <= j < k ==> !(self.concerns@[j].fk_proposal == proposal && self.concerns@[j].fk_resolved_comment is None && self.concerns@[j].name@ == name@),
            decreases n - k,
        {
            if self.concerns[k].fk_proposal == proposal && self.concerns[k].fk_resolved_comment.is_none()
                && crate::text::str_eq(self.concerns[k].name.as_str(), name) {
                proof {
                    lemma_find_idx_from_scan(self.concerns@, |c: FcpConcern| c.fk_proposal == proposal && c.fk_resolved_comment is None && c.name@ == name@, k as int);
                }
                return Some(k);
            }
            k += 1;
        }
        proof {
            lemma_find_idx_from_scan(self.concerns@, |c: FcpConcern| c.fk_proposal == proposal && c.fk_resolved_comment is None && c.name@ == name@, n as int);
        }
        None
    }

    pub fn authored_concern_pos(&self, proposal: i64, initiator: i64, name: &str) -> (r: Option<
        usize,
    >)
        ensures
            match r {
                Some(i) => authored_concern_idx(self.concerns@, proposal, initiator, name@)
                    == Some(i as int) && i < self.concerns@.len()
                    && self.concerns@[i as int].fk_proposal == proposal
                    && self.concerns@[i as int].fk_initiator == initiator
                    && self.concerns@[i as int].name@ == name@,
                None => authored_concern_idx(self.concerns@, proposal, initiator, name@) is None,
            },
    {
                let n = self.concerns.len();
        let mut k: usize = 0;
        while k < n
            invariant
                k <= n,
                n == self.concerns@.len(),
                forall|j: int| 0 <= j < k ==> !(self.concerns@[j].fk_proposal == proposal && self.concerns@[j].fk_initiator == initiator && self.concerns@[j].name@ == name@),
            decreases n - k,
        {
            if self.concerns[k].fk_proposal == proposal && self.concerns[k].fk_initiator == initiator
                && crate::text::str_eq(self.concerns[k].name.as_str(), name) {
                proof {
                    lemma_find_idx_from_scan(self.concerns@, |c: FcpConcern| c.fk_proposal == proposal && c.fk_initiator == initiator && c.name@ == name@, k as int);
                }
                return Some(k);
            }
            k += 1;
        }
        proof {
            lemma_find_idx_from_scan(self.concerns@, |c: FcpConcern| c.fk_proposal == proposal && c.fk_initiator == initiator && c.name@ == name@, n as int);
        }
        None
    }

    pub fn open_feedback_pos(&self, requested: i64, issue: i64) -> (r: Option<usize>)
        ensures
            match r {
                Some(i) => open_feedback_idx(self.feedback_requests@, requested, issue) == Some(
                    i as int,
                ) && i < self.feedback_requests@.len()
                    && self.feedback_requests@[i as int].fk_requested == requested
                    && self.feedback_requests@[i as int].fk_issue == issue
                    && self.feedback_requests@[i as int].fk_feedback_comment is None,
                None => open_feedback_idx(self.feedback_requests@, requested, issue) is None,
            },
    {
                let n = self.feedback_requests.len();
        let mut k: usize = 0;
        while k < n
            invariant
                k <= n,
                n == self.feedback_requests@.len(),
                forall|j: int| 0 <= j < k ==> !(self.feedback_requests@[j].fk_requested == requested && self.feedback_requests@[j].fk_issue == issue && self.feedback_requests@[j].fk_feedback_comment is None),
            decreases n - k,
        {
            if self.feedback_requests[k].fk_requested == requested && self.feedback_requests[k].fk_issue
                == issue && self.feedback_requests[k].fk_feedback_comment.is_none() {
                proof {
                    lemma_find_idx_from_scan(self.feedback_requests@, |f: FeedbackRequest| f.fk_requested == requested && f.fk_issue == issue && f.fk_feedback_comment is None, k as int);
                }
                return Some(k);
            }
            k += 1;
        }
        proof {
            lemma_find_idx_from_scan(self.feedback_requests@, |f: FeedbackRequest| f.fk_requested == requested && f.fk_issue == issue && f.fk_feedback_comment is None, n as int);
        }
        None
    }
}

/// Where a requested comment goes.
#[derive(Clone, Debug, Eq, PartialEq)]
pub enum CommentTarget {
    /// A fresh comment on the issue with this number.
    NewOnIssue(i64),
    /// An in-place edit of the comment with this id.
    EditExisting(i64),
}

/// One comment the bot decided to leave. `deliver` is false when the bot
/// declined to send it (posting disabled, or the issue is closed): the
/// attempt is recorded but the caller must not call the platform.
#[derive(Clone, Debug, Eq, PartialEq)]
pub struct CommentEffect {
    pub repository: String,
    pub target: CommentTarget,
    pub body: String,
    pub deliver: bool,
}

/// A platform side effect the caller performs on the library's behalf.
#[derive(Clone, Debug, Eq, PartialEq)]
pub enum Effect {
    Comment(CommentEffect),
    /// A proposal just entered its final comment period: attach the
    /// completion-period label, then post the body given by
    /// [`crate::render::fcp_start_notice_body`] with the label call's outcome.
    StartFcp {
        repository: String,
        issue_number: i64,
        initiator_login: String,
        status_comment_id: i64,
    },
}

/// Why a command or lookup was refused.
#[derive(Clone, Copy, Debug, Eq, PartialEq, Structural)]
pub enum BotError {
    /// A row a command relies on is not in the store.
    IssueNotFound,
    UserNotFound,
    CommentNotFound,
    ProposalNotFound,
    ReviewRequestNotFound,
    /// A proposal may not be recorded twice for one issue.
    ProposalExists,
    /// Comment posting is switched off, so a proposal cannot open.
    CommentingDisabled,
    /// The issue is closed, so a proposal cannot open.
    IssueClosed,
}

} // verus!
