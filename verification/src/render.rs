//! The comment renderer: a pure mapping from proposal state to status-comment
//! text. Every builder's contract equates the produced string with a spec
//! function of the inputs alone, so identical state renders byte-identical
//! text — which the sweep's change detection relies on.

use vstd::prelude::*;
use vstd::string::StringExecFns;

use crate::command::{disposition_repr_s, FcpDisposition};
use crate::model::{CommentEffect, CommentTarget, FcpConcern, FcpReviewRequest, GitHubUser, Issue};

verus! {

/// The character printing one decimal digit.
pub open spec fn digit_char(d: int) -> char {
    if d == 0 {
        '0'
    } else if d == 1 {
        '1'
    } else if d == 2 {
        '2'
    } else if d == 3 {
        '3'
    } else if d == 4 {
        '4'
    } else if d == 5 {
        '5'
    } else if d == 6 {
        '6'
    } else if d == 7 {
        '7'
    } else if d == 8 {
        '8'
    } else {
        '9'
    }
}

/// Decimal digits of a non-negative number, most significant first.
pub open spec fn dec_digits(n: int) -> Seq<char>
    decreases n,
{
    if n < 10 {
        seq![digit_char(n)]
    } else {
        dec_digits(n / 10) + seq![digit_char(n % 10)]
    }
}

/// Decimal rendering of an integer, with a leading minus when negative.
pub open spec fn dec_str(n: int) -> Seq<char> {
    if n < 0 {
        seq!['-'] + dec_digits(-n)
    } else {
        dec_digits(n)
    }
}

fn digit_lit(d: u64) -> (r: &'static str)
    requires
        d < 10,
    ensures
        r@ == seq![digit_char(d as int)],
{
    proof {
        reveal_strlit("0");
        reveal_strlit("1");
        reveal_strlit("2");
        reveal_strlit("3");
        reveal_strlit("4");
        reveal_strlit("5");
        reveal_strlit("6");
        reveal_strlit("7");
        reveal_strlit("8");
        reveal_strlit("9");
        assert("0"@ =~= seq![digit_char(0)]);
        assert("1"@ =~= seq![digit_char(1)]);
        assert("2"@ =~= seq![digit_char(2)]);
        assert("3"@ =~= seq![digit_char(3)]);
        assert("4"@ =~= seq![digit_char(4)]);
        assert("5"@ =~= seq![digit_char(5)]);
        assert("6"@ =~= seq![digit_char(6)]);
        assert("7"@ =~= seq![digit_char(7)]);
        assert("8"@ =~= seq![digit_char(8)]);
        assert("9"@ =~= seq![digit_char(9)]);
    }
    match d {
        0 => "0",
        1 => "1",
        2 => "2",
        3 => "3",
        4 => "4",
        5 => "5",
        6 => "6",
        7 => "7",
        8 => "8",
        _ => "9",
    }
}

/// The digits of `ds` printed most significant first, where `ds` lists them
/// least significant first.
spec fn rev_digit_chars(ds: Seq<u64>) -> Seq<char>
    decreases ds.len(),
{
    if ds.len() == 0 {
        Seq::empty()
    } else {
        rev_digit_chars(ds.skip(1)) + seq![digit_char(ds[0] as int)]
    }
}

proof fn lemma_rev_digit_chars_push(ds: Seq<u64>, d: u64)
    ensures
        rev_digit_chars(ds.push(d)) == seq![digit_char(d as int)] + rev_digit_chars(ds),
    decreases ds.len(),
{
    if ds.len() == 0 {
        assert(ds.push(d).skip(1) =~= Seq::<u64>::empty());
        assert(rev_digit_chars(Seq::<u64>::empty()) =~= Seq::<char>::empty());
        assert(ds =~= Seq::<u64>::empty());
        assert(ds.push(d)[0] == d);
        assert(rev_digit_chars(ds.push(d)) =~= seq![digit_char(d as int)] + rev_digit_chars(ds));
    } else {
        assert(ds.push(d).skip(1) =~= ds.skip(1).push(d));
        lemma_rev_digit_chars_push(ds.skip(1), d);
        assert(ds.push(d)[0] == ds[0]);
        assert(rev_digit_chars(ds.push(d)) == (seq![digit_char(d as int)] + rev_digit_chars(
            ds.skip(1),
        )) + seq![digit_char(ds[0] as int)]);
        assert((seq![digit_char(d as int)] + rev_digit_chars(ds.skip(1))) + seq![
            digit_char(ds[0] as int),
        ] =~= seq![digit_char(d as int)] + rev_digit_chars(ds));
    }
}

/// Appends the decimal rendering of `n`.
pub fn push_dec_u64(s: &mut String, n: u64)
    ensures
        final(s)@ == old(s)@ + dec_digits(n as int),
{
    let mut digits: Vec<u64> = Vec::new();
    let mut m: u64 = n;
    loop
        invariant_except_break
            forall|i: int| 0 <= i < digits@.len() ==> digits@[i] < 10,
            if digits@.len() == 0 {
                m == n
            } else {
                m > 0 && dec_digits(n as int) == dec_digits(m as int) + rev_digit_chars(digits@)
            },
        ensures
            digits@.len() >= 1,
            forall|i: int| 0 <= i < digits@.len() ==> digits@[i] < 10,
            dec_digits(n as int) == rev_digit_chars(digits@),
        decreases m,
    {
        let d = m % 10;
        let ghost pre = digits@;
        digits.push(d);
        proof {
            lemma_rev_digit_chars_push(pre, d);
        }
        if m < 10 {
            proof {
                if pre.len() == 0 {
                    assert(rev_digit_chars(digits@) =~= seq![digit_char(m as int)]);
                } else {
                    assert(dec_digits(m as int) == seq![digit_char(m as int)]);
                    assert(dec_digits(m as int) + rev_digit_chars(pre) =~= rev_digit_chars(
                        digits@,
                    ));
                }
            }
            break;
        }
        proof {
            if pre.len() == 0 {
                assert(dec_digits(n as int) == dec_digits(n as int / 10) + seq![
                    digit_char(n as int % 10),
                ]);
                assert(dec_digits(n as int / 10) + seq![digit_char(n as int % 10)] =~= dec_digits(
                    (n / 10) as int,
                ) + rev_digit_chars(digits@));
            } else {
                assert(dec_digits(m as int) == dec_digits(m as int / 10) + seq![
                    digit_char(m as int % 10),
                ]);
                assert((dec_digits(m as int / 10) + seq![digit_char(m as int % 10)])
                    + rev_digit_chars(pre) =~= dec_digits((m / 10) as int) + rev_digit_chars(
                    digits@,
                ));
            }
        }
        m = m / 10;
    }
    let n_digits = digits.len();
    let mut k: usize = n_digits;
    proof {
        assert(digits@.skip(n_digits as int) =~= Seq::<u64>::empty());
    }
    while k > 0
        invariant
            k <= n_digits,
            n_digits == digits@.len(),
            forall|i: int| 0 <= i < digits@.len() ==> digits@[i] < 10,
            dec_digits(n as int) == rev_digit_chars(digits@),
            s@ == old(s)@ + rev_digit_chars(digits@.skip(k as int)),
        decreases k,
    {
        k -= 1;
        s.append(digit_lit(digits[k]));
        proof {
            assert(digits@.skip(k as int).skip(1) =~= digits@.skip(k as int + 1));
            assert(rev_digit_chars(digits@.skip(k as int)) == rev_digit_chars(
                digits@.skip(k as int + 1),
            ) + seq![digit_char(digits@[k as int] as int)]);
            assert(s@ =~= old(s)@ + rev_digit_chars(digits@.skip(k as int)));
        }
    }
    proof {
        assert(digits@.skip(0) =~= digits@);
    }
}

/// Appends the decimal rendering of `n`, minus sign included.
pub fn push_dec_i64(s: &mut String, n: i64)
    ensures
        final(s)@ == old(s)@ + dec_str(n as int),
{
    if n < 0 {
        proof {
            reveal_strlit("-");
            assert("-"@ =~= seq!['-']);
        }
        s.append("-");
        let ghost mid = s@;
        let mag: u64 = (-(n as i128)) as u64;
        push_dec_u64(s, mag);
        proof {
            assert(s@ =~= old(s)@ + dec_str(n as int));
        }
    } else {
        push_dec_u64(s, n as u64);
    }
}

/// The address of one comment of the repository's issue, as the platform
/// links it.
pub open spec fn comment_url_s(repo: Seq<char>, number: int, comment_id: int) -> Seq<char> {
    "https://github.com/"@ + repo + "/issues/"@ + dec_str(number) + "#issuecomment-"@ + dec_str(
        comment_id,
    )
}

/// Appends the address of a comment; the renderer links concerns and notices
/// to the comments that raised or resolved them.
pub fn add_comment_url(msg: &mut String, repo: &str, number: i64, comment_id: i64)
    ensures
        final(msg)@ == old(msg)@ + comment_url_s(repo@, number as int, comment_id as int),
{
    msg.append("https://github.com/");
    msg.append(repo);
    msg.append("/issues/");
    push_dec_i64(msg, number);
    msg.append("#issuecomment-");
    push_dec_i64(msg, comment_id);
    proof {
        assert(msg@ =~= old(msg)@ + comment_url_s(repo@, number as int, comment_id as int));
    }
}

/// One requested member's checkbox line: checked exactly when the review was given.
pub open spec fn reviewer_line_s(pair: (GitHubUser, FcpReviewRequest)) -> Seq<char> {
    (if pair.1.reviewed {
        "* [x] @"@
    } else {
        "* [ ] @"@
    }) + pair.0.login@ + "\n"@
}

/// The checkbox lines of all tagged members, in the order given.
pub open spec fn reviewer_lines_s(rs: Seq<(GitHubUser, FcpReviewRequest)>) -> Seq<char>
    decreases rs.len(),
{
    if rs.len() == 0 {
        Seq::empty()
    } else {
        reviewer_lines_s(rs.drop_last()) + reviewer_line_s(rs.last())
    }
}

/// One concern's line: unresolved concerns link their raising comment,
/// resolved ones are struck through and link the resolving comment.
pub open spec fn concern_line_s(c: FcpConcern, repo: Seq<char>, number: int) -> Seq<char> {
    match c.fk_resolved_comment {
        Some(rc) => "* ~~"@ + c.name@ + "~~ resolved by "@ + comment_url_s(repo, number, rc as int)
            + "\n"@,
        None => "* "@ + c.name@ + " ("@ + comment_url_s(repo, number, c.fk_initiating_comment as int)
            + ")\n"@,
    }
}

/// The lines of all concerns, in the order given (authors are carried along
/// but do not show in the text).
pub open spec fn concern_lines_s(
    cs: Seq<(GitHubUser, FcpConcern)>,
    repo: Seq<char>,
    number: int,
) -> Seq<char>
    decreases cs.len(),
{
    if cs.len() == 0 {
        Seq::empty()
    } else {
        concern_lines_s(cs.drop_last(), repo, number) + concern_line_s(cs.last().1, repo, number)
    }
}

/// The proposal's status comment: attribution, one checkbox per requested member, the
/// concern list, and closing boilerplate.
pub open spec fn proposal_body_s(
    issue: Issue,
    initiator: GitHubUser,
    disp: FcpDisposition,
    reviewers: Seq<(GitHubUser, FcpReviewRequest)>,
    concerns: Seq<(GitHubUser, FcpConcern)>,
) -> Seq<char> {
    "Team member @"@ + initiator.login@ + " has proposed to "@ + disposition_repr_s(disp)
        + " this. The next step is review by the rest of the tagged "@ + "teams:\n\n"@
        + reviewer_lines_s(reviewers) + (if concerns.len() == 0 {
        "\nNo concerns currently listed.\n"@
    } else {
        "\nConcerns:\n\n"@
    }) + concern_lines_s(concerns, issue.repository@, issue.number as int)
        + "\nOnce these tagged members reach consensus, this will enter its final "@
        + "comment period. If you spot a major issue that hasn't been raised "@
        + "at any point in this process, please speak up!\n"@ + "\nSee [this document]("@
        + "https://github.com/dikaiosune/rust-dashboard/blob/master/RFCBOT.md"@
        + ") for info about what commands tagged team members can give me."@
}

/// Renders the proposal's status comment.
pub fn proposal_body(
    issue: &Issue,
    initiator: &GitHubUser,
    disp: FcpDisposition,
    reviewers: &Vec<(GitHubUser, FcpReviewRequest)>,
    concerns: &Vec<(GitHubUser, FcpConcern)>,
) -> (r: String)
    ensures
        r@ == proposal_body_s(*issue, *initiator, disp, reviewers@, concerns@),
{
    let mut msg = String::new();
    msg.append("Team member @");
    msg.append(initiator.login.as_str());
    msg.append(" has proposed to ");
    msg.append(disp.repr());
    msg.append(" this. The next step is review by the rest of the tagged ");
    msg.append("teams:\n\n");
    let ghost head = msg@;
    let n_rev = reviewers.len();
    let mut i: usize = 0;
    proof {
        assert(reviewers@.take(0) =~= Seq::<(GitHubUser, FcpReviewRequest)>::empty());
    }
    while i < n_rev
        invariant
            i <= n_rev,
            n_rev == reviewers@.len(),
            msg@ == head + reviewer_lines_s(reviewers@.take(i as int)),
        decreases n_rev - i,
    {
        if reviewers[i].1.reviewed {
            msg.append("* [x] @");
        } else {
            msg.append("* [ ] @");
        }
        msg.append(reviewers[i].0.login.as_str());
        msg.append("\n");
        proof {
            assert(reviewers@.take(i + 1).drop_last() =~= reviewers@.take(i as int));
            assert(reviewers@.take(i + 1).last() == reviewers@[i as int]);
            assert(msg@ =~= head + reviewer_lines_s(reviewers@.take(i + 1)));
        }
        i += 1;
    }
    proof {
        assert(reviewers@.take(n_rev as int) =~= reviewers@);
    }
    if concerns.len() == 0 {
        msg.append("\nNo concerns currently listed.\n");
    } else {
        msg.append("\nConcerns:\n\n");
    }
    let ghost mid = msg@;
    let n_con = concerns.len();
    let mut j: usize = 0;
    proof {
        assert(concerns@.take(0) =~= Seq::<(GitHubUser, FcpConcern)>::empty());
    }
    while j < n_con
        invariant
            j <= n_con,
            n_con == concerns@.len(),
            msg@ == mid + concern_lines_s(
                concerns@.take(j as int),
                issue.repository@,
                issue.number as int,
            ),
        decreases n_con - j,
    {
        let resolved = concerns[j].1.fk_resolved_comment;
        match resolved {
            Some(rc) => {
                msg.append("* ~~");
                msg.append(concerns[j].1.name.as_str());
                msg.append("~~ resolved by ");
                add_comment_url(&mut msg, issue.repository.as_str(), issue.number, rc);
                msg.append("\n");
            },
            None => {
                msg.append("* ");
                msg.append(concerns[j].1.name.as_str());
                msg.append(" (");
                add_comment_url(
                    &mut msg,
                    issue.repository.as_str(),
                    issue.number,
                    concerns[j].1.fk_initiating_comment,
                );
                msg.append(")\n");
            },
        }
        proof {
            assert(concerns@.take(j + 1).drop_last() =~= concerns@.take(j as int));
            assert(concerns@.take(j + 1).last() == concerns@[j as int]);
            assert(msg@ =~= mid + concern_lines_s(
                concerns@.take(j + 1),
                issue.repository@,
                issue.number as int,
            ));
        }
        j += 1;
    }
    proof {
        assert(concerns@.take(n_con as int) =~= concerns@);
    }
    msg.append("\nOnce these tagged members reach consensus, this will enter its final ");
    msg.append("comment period. If you spot a major issue that hasn't been raised ");
    msg.append("at any point in this process, please speak up!\n");
    msg.append("\nSee [this document](");
    msg.append("https://github.com/dikaiosune/rust-dashboard/blob/master/RFCBOT.md");
    msg.append(") for info about what commands tagged team members can give me.");
    proof {
        assert(msg@ =~= proposal_body_s(*issue, *initiator, disp, reviewers@, concerns@));
    }
    msg
}

/// The one-line cancellation notice.
pub open spec fn cancellation_body_s(initiator: GitHubUser) -> Seq<char> {
    "@"@ + initiator.login@ + " proposal cancelled."@
}

/// Renders the cancellation notice.
pub fn cancellation_body(initiator: &GitHubUser) -> (r: String)
    ensures
        r@ == cancellation_body_s(*initiator),
{
    let mut msg = String::new();
    msg.append("@");
    msg.append(initiator.login.as_str());
    msg.append(" proposal cancelled.");
    proof {
        assert(msg@ =~= cancellation_body_s(*initiator));
    }
    msg
}

/// The waiting-period notice, with a warning naming the initiator when the
/// completion-period label could not be attached.
pub open spec fn fcp_start_notice_body_s(
    repo: Seq<char>,
    number: int,
    author_login: Seq<char>,
    status_comment_id: int,
    added_label: bool,
) -> Seq<char> {
    ":bell: **This is now entering its final comment period**, "@ + "as per the [review above]("@
        + comment_url_s(repo, number, status_comment_id) + "). :bell:"@ + (if !added_label {
        "\n\n*psst @"@ + author_login + ", I wasn't able to add the `final-comment-period` label,"@
            + " please do so.*"@
    } else {
        Seq::empty()
    })
}

/// Renders the waiting-period notice.
pub fn fcp_start_notice_body(
    repo: &str,
    number: i64,
    author_login: &str,
    status_comment_id: i64,
    added_label: bool,
) -> (r: String)
    ensures
        r@ == fcp_start_notice_body_s(
            repo@,
            number as int,
            author_login@,
            status_comment_id as int,
            added_label,
        ),
{
    let mut msg = String::new();
    msg.append(":bell: **This is now entering its final comment period**, ");
    msg.append("as per the [review above](");
    add_comment_url(&mut msg, repo, number, status_comment_id);
    msg.append("). :bell:");
    if !added_label {
        msg.append("\n\n*psst @");
        msg.append(author_login);
        msg.append(", I wasn't able to add the `final-comment-period` label,");
        msg.append(" please do so.*");
    }
    proof {
        assert(msg@ =~= fcp_start_notice_body_s(
            repo@,
            number as int,
            author_login@,
            status_comment_id as int,
            added_label,
        ));
    }
    msg
}

/// The fixed completion notice.
pub open spec fn fcp_complete_body_s() -> Seq<char> {
    "The final comment period is now complete."@
}

/// Renders the completion notice.
pub fn fcp_complete_body() -> (r: String)
    ensures
        r@ == fcp_complete_body_s(),
{
    let mut msg = String::new();
    msg.append("The final comment period is now complete.");
    proof {
        assert(msg@ =~= fcp_complete_body_s());
    }
    msg
}

/// Decides how a comment is left: an edit when a comment id is given, a new
/// comment otherwise, and delivered only when posting is enabled and the
/// issue is still open — otherwise the attempt is recorded undelivered.
pub fn plan_comment(issue: &Issue, body: String, existing_comment: Option<i64>, post_comments: bool) -> (r:
    CommentEffect)
    ensures
        r.repository@ == issue.repository@,
        r.body == body,
        r.target == match existing_comment {
            Some(id) => CommentTarget::EditExisting(id),
            None => CommentTarget::NewOnIssue(issue.number),
        },
        r.deliver == (post_comments && issue.open),
{
    CommentEffect {
        repository: issue.repository.clone(),
        target: match existing_comment {
            Some(id) => CommentTarget::EditExisting(id),
            None => CommentTarget::NewOnIssue(issue.number),
        },
        body: body,
        deliver: post_comments && issue.open,
    }
}

} // verus!
