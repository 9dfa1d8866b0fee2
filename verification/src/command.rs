//! The command parser: extracts a structured bot command from a free-text
//! comment body. The first line that begins with the bot's mention token is
//! stripped of the token and any colons, trimmed, and tokenized; the leading
//! tokens pick the command. Anything else is "not a command", which is not an
//! error condition.

use vstd::prelude::*;

use crate::text::{
    after_first_token_s, first_token_s, head_token, is_ws, split_first_token, starts_with_s,
    starts_with_str, str_eq, strip_char_all_s, strip_char_all_str, strip_prefix_all_s,
    strip_prefix_all_str, trim_end_s, trim_s, trim_start_s, trim_str,
};

verus! {

/// The proposed outcome of a proposal.
#[derive(Clone, Copy, Debug, Eq, PartialEq, Structural)]
pub enum FcpDisposition {
    Merge,
    Close,
    Postpone,
}

/// The characters of the keyword naming a disposition.
pub open spec fn disposition_repr_s(d: FcpDisposition) -> Seq<char> {
    match d {
        FcpDisposition::Merge => "merge"@,
        FcpDisposition::Close => "close"@,
        FcpDisposition::Postpone => "postpone"@,
    }
}

impl FcpDisposition {
    /// The keyword naming this disposition, as commands and the renderer use it.
    pub fn repr(self) -> (r: &'static str)
        ensures
            r@ == disposition_repr_s(self),
    {
        match self {
            FcpDisposition::Merge => "merge",
            FcpDisposition::Close => "close",
            FcpDisposition::Postpone => "postpone",
        }
    }

    /// Reads a disposition back from its keyword; yields nothing on any other
    /// string.
    pub fn from_str(string: &str) -> (r: Option<Self>)
        ensures
            match r {
                Some(d) => string@ == disposition_repr_s(d),
                None => string@ != "merge"@ && string@ != "close"@ && string@ != "postpone"@,
            },
    {
        if str_eq(string, "merge") {
            Some(FcpDisposition::Merge)
        } else if str_eq(string, "close") {
            Some(FcpDisposition::Close)
        } else if str_eq(string, "postpone") {
            Some(FcpDisposition::Postpone)
        } else {
            None
        }
    }
}

/// A structured command addressed to the bot. Name payloads borrow from the
/// comment body they were parsed out of.
#[derive(Clone, Copy, Debug, Eq, PartialEq)]
pub enum RfcBotCommand<'a> {
    FcpPropose(FcpDisposition),
    FcpCancel,
    Reviewed,
    NewConcern(&'a str),
    ResolveConcern(&'a str),
    FeedbackRequest(&'a str),
}

/// The mathematical value of a parsed command: payloads as character
/// sequences.
pub enum CommandView {
    FcpPropose(FcpDisposition),
    FcpCancel,
    Reviewed,
    NewConcern(Seq<char>),
    ResolveConcern(Seq<char>),
    FeedbackRequest(Seq<char>),
}

impl<'a> View for RfcBotCommand<'a> {
    type V = CommandView;

    open spec fn view(&self) -> CommandView {
        match *self {
            RfcBotCommand::FcpPropose(d) => CommandView::FcpPropose(d),
            RfcBotCommand::FcpCancel => CommandView::FcpCancel,
            RfcBotCommand::Reviewed => CommandView::Reviewed,
            RfcBotCommand::NewConcern(n) => CommandView::NewConcern(n@),
            RfcBotCommand::ResolveConcern(n) => CommandView::ResolveConcern(n@),
            RfcBotCommand::FeedbackRequest(u) => CommandView::FeedbackRequest(u@),
        }
    }
}

/// Index of the first newline of `s`, if any.
pub open spec fn find_nl(s: Seq<char>) -> Option<int>
    decreases s.len(),
{
    if s.len() == 0 {
        None
    } else if s[0] == '\n' {
        Some(0int)
    } else {
        match find_nl(s.skip(1)) {
            None => None,
            Some(j) => Some(j + 1),
        }
    }
}

pub proof fn lemma_find_nl(s: Seq<char>)
    ensures
        match find_nl(s) {
            Some(i) => 0 <= i < s.len() && s[i] == '\n' && forall|j: int|
                0 <= j < i ==> s[j] != '\n',
            None => forall|j: int| 0 <= j < s.len() ==> s[j] != '\n',
        },
    decreases s.len(),
{
    if s.len() > 0 && s[0] != '\n' {
        lemma_find_nl(s.skip(1));
        match find_nl(s.skip(1)) {
            None => {
                assert forall|j: int| 0 <= j < s.len() implies s[j] != '\n' by {
                    if j >= 1 {
                        assert(s[j] == s.skip(1)[j - 1]);
                    }
                }
            },
            Some(i) => {
                assert(s[i + 1] == s.skip(1)[i]);
                assert forall|j: int| 0 <= j < i + 1 implies s[j] != '\n' by {
                    if j >= 1 {
                        assert(s[j] == s.skip(1)[j - 1]);
                    }
                }
            },
        }
    }
}

/// `find_nl` follows from a left-to-right scan that stopped at `j`.
pub proof fn lemma_find_nl_from_scan(s: Seq<char>, j: int)
    requires
        0 <= j <= s.len(),
        forall|k: int| 0 <= k < j ==> s[k] != '\n',
        j < s.len() ==> s[j] == '\n',
    ensures
        find_nl(s) == if j < s.len() {
            Some(j)
        } else {
            None::<int>
        },
    decreases j,
{
    if s.len() > 0 && s[0] != '\n' {
        lemma_find_nl_from_scan(s.skip(1), j - 1);
    }
}

/// The first newline-separated line of `body` that begins with `mention`.
pub open spec fn mention_line(body: Seq<char>, mention: Seq<char>) -> Option<Seq<char>>
    decreases body.len(),
    via mention_line_decreases
{
    match find_nl(body) {
        None => if starts_with_s(body, mention) {
            Some(body)
        } else {
            None
        },
        Some(i) => if starts_with_s(body.take(i), mention) {
            Some(body.take(i))
        } else {
            mention_line(body.skip(i + 1), mention)
        },
    }
}

#[via_fn]
proof fn mention_line_decreases(body: Seq<char>, mention: Seq<char>) {
    lemma_find_nl(body);
}

/// What a mention line means once found: strip the token and any colons, trim,
/// and read the leading tokens.
pub open spec fn parse_line_spec(line: Seq<char>, mention: Seq<char>) -> Option<CommandView> {
    let cmd = trim_s(strip_char_all_s(strip_prefix_all_s(line, mention), ':'));
    let tok = first_token_s(cmd);
    if tok == "fcp"@ || tok == "pr"@ {
        let sub = first_token_s(after_first_token_s(cmd));
        if sub == "merge"@ {
            Some(CommandView::FcpPropose(FcpDisposition::Merge))
        } else if sub == "close"@ {
            Some(CommandView::FcpPropose(FcpDisposition::Close))
        } else if sub == "postpone"@ {
            Some(CommandView::FcpPropose(FcpDisposition::Postpone))
        } else if sub == "cancel"@ {
            Some(CommandView::FcpCancel)
        } else {
            None
        }
    } else if tok == "concern"@ {
        Some(CommandView::NewConcern(trim_s(cmd.skip(7))))
    } else if tok == "resolved"@ {
        Some(CommandView::ResolveConcern(trim_s(cmd.skip(8))))
    } else if tok == "reviewed"@ {
        Some(CommandView::Reviewed)
    } else if tok == "f?"@ {
        let user = first_token_s(after_first_token_s(cmd));
        if user.len() == 0 {
            None
        } else {
            Some(CommandView::FeedbackRequest(user.skip(1)))
        }
    } else {
        None
    }
}

/// The whole parser: the command of the first line addressed to the bot, if
/// that line carries one.
pub open spec fn parse_spec(body: Seq<char>, mention: Seq<char>) -> Option<CommandView> {
    match mention_line(body, mention) {
        None => None,
        Some(line) => parse_line_spec(line, mention),
    }
}

/// The mention token commands must open with to address this bot.
pub fn rfc_bot_mention() -> (r: &'static str)
    ensures
        r@ == "@rfcbot"@,
{
    "@rfcbot"
}

proof fn lemma_head_token_le(s: Seq<char>)
    ensures
        head_token(s).len() <= s.len(),
    decreases s.len(),
{
    if s.len() > 0 && !is_ws(s[0]) {
        lemma_head_token_le(s.skip(1));
    }
}

proof fn lemma_trim_start_first(s: Seq<char>)
    ensures
        trim_start_s(s).len() > 0 ==> !is_ws(trim_start_s(s)[0]),
    decreases s.len(),
{
    if s.len() > 0 && is_ws(s[0]) {
        lemma_trim_start_first(s.skip(1));
    }
}

proof fn lemma_trim_end_prefix(s: Seq<char>)
    ensures
        trim_end_s(s).len() <= s.len(),
        forall|j: int| 0 <= j < trim_end_s(s).len() ==> trim_end_s(s)[j] == s[j],
    decreases s.len(),
{
    if s.len() > 0 && is_ws(s[s.len() - 1]) {
        lemma_trim_end_prefix(s.drop_last());
        assert forall|j: int|
            0 <= j < trim_end_s(s).len() implies trim_end_s(s)[j] == s[j] by {
            assert(trim_end_s(s)[j] == trim_end_s(s.drop_last())[j]);
            assert(s.drop_last()[j] == s[j]);
        }
    }
}

/// A trimmed string has no leading whitespace left, so tokenizing it starts
/// at its first character.
pub proof fn lemma_trim_is_trimmed(s: Seq<char>)
    ensures
        trim_start_s(trim_s(s)) == trim_s(s),
{
    lemma_trim_start_first(s);
    lemma_trim_end_prefix(trim_start_s(s));
    if trim_s(s).len() > 0 {
        assert(trim_s(s)[0] == trim_start_s(s)[0]);
    }
}

impl<'a> RfcBotCommand<'a> {
    /// Reads the command of one already-located mention line.
    fn parse_line(line: &'a str, mention: &str) -> (r: Option<RfcBotCommand<'a>>)
        ensures
            match r {
                Some(cmd) => parse_line_spec(line@, mention@) == Some(cmd@),
                None => parse_line_spec(line@, mention@) is None,
            },
    {
        proof {
            reveal_strlit("fcp");
            reveal_strlit("pr");
            reveal_strlit("merge");
            reveal_strlit("close");
            reveal_strlit("postpone");
            reveal_strlit("cancel");
            reveal_strlit("concern");
            reveal_strlit("resolved");
            reveal_strlit("reviewed");
            reveal_strlit("f?");
        }
        let cmd = trim_str(strip_char_all_str(strip_prefix_all_str(line, mention), ':'));
        proof {
            lemma_trim_is_trimmed(strip_char_all_s(strip_prefix_all_s(line@, mention@), ':'));
            lemma_head_token_le(cmd@);
        }
        let (tok, rest) = split_first_token(cmd);
        if str_eq(tok, "fcp") || str_eq(tok, "pr") {
            let (sub, _tail) = split_first_token(rest);
            if str_eq(sub, "merge") {
                Some(RfcBotCommand::FcpPropose(FcpDisposition::Merge))
            } else if str_eq(sub, "close") {
                Some(RfcBotCommand::FcpPropose(FcpDisposition::Close))
            } else if str_eq(sub, "postpone") {
                Some(RfcBotCommand::FcpPropose(FcpDisposition::Postpone))
            } else if str_eq(sub, "cancel") {
                Some(RfcBotCommand::FcpCancel)
            } else {
                None
            }
        } else if str_eq(tok, "concern") {
            let n = cmd.unicode_len();
            proof {
                assert(cmd@.skip(7) =~= cmd@.subrange(7, n as int));
            }
            Some(RfcBotCommand::NewConcern(trim_str(cmd.substring_char(7, n))))
        } else if str_eq(tok, "resolved") {
            let n = cmd.unicode_len();
            proof {
                assert(cmd@.skip(8) =~= cmd@.subrange(8, n as int));
            }
            Some(RfcBotCommand::ResolveConcern(trim_str(cmd.substring_char(8, n))))
        } else if str_eq(tok, "reviewed") {
            Some(RfcBotCommand::Reviewed)
        } else if str_eq(tok, "f?") {
            let (user, _tail) = split_first_token(rest);
            let nu = user.unicode_len();
            if nu == 0 {
                None
            } else {
                proof {
                    assert(user@.skip(1) =~= user@.subrange(1, nu as int));
                }
                Some(RfcBotCommand::FeedbackRequest(user.substring_char(1, nu)))
            }
        } else {
            None
        }
    }

    /// The command parser for a configurable mention token: finds the first
    /// line of `body` beginning with `mention` and reads its command.
    pub fn parse(body: &'a str, mention: &str) -> (r: Option<RfcBotCommand<'a>>)
        ensures
            match r {
                Some(cmd) => parse_spec(body@, mention@) == Some(cmd@),
                None => parse_spec(body@, mention@) is None,
            },
    {
        let n = body.unicode_len();
        let mut lo: usize = 0;
        proof {
            assert(body@.skip(0) =~= body@);
        }
        loop
            invariant
                lo <= n,
                n == body@.len(),
                mention_line(body@, mention@) == mention_line(body@.skip(lo as int), mention@),
            decreases n - lo,
        {
            let mut j: usize = lo;
            loop
                invariant
                    lo <= j <= n,
                    n == body@.len(),
                    forall|k: int| lo <= k < j ==> body@[k] != '\n',
                ensures
                    lo <= j <= n,
                    forall|k: int| lo <= k < j ==> body@[k] != '\n',
                    j < n ==> body@[j as int] == '\n',
                decreases n - j,
            {
                if j >= n {
                    break;
                }
                if body.get_char(j) == '\n' {
                    break;
                }
                j += 1;
            }
            let line = body.substring_char(lo, j);
            proof {
                lemma_find_nl_from_scan(body@.skip(lo as int), j - lo);
                assert(body@.skip(lo as int).take(j - lo) =~= body@.subrange(
                    lo as int,
                    j as int,
                ));
                if j < n {
                    assert(body@.skip(lo as int).skip(j - lo + 1) =~= body@.skip(j + 1));
                } else {
                    assert(body@.skip(lo as int) =~= body@.subrange(lo as int, n as int));
                }
            }
            if starts_with_str(line, mention) {
                return Self::parse_line(line, mention);
            }
            if j >= n {
                return None;
            }
            lo = j + 1;
        }
    }

    /// Reads a command addressed to this bot's own mention token out of a
    /// comment body.
    pub fn from_str(command: &'a str) -> (r: Option<RfcBotCommand<'a>>)
        ensures
            match r {
                Some(cmd) => parse_spec(command@, "@rfcbot"@) == Some(cmd@),
                None => parse_spec(command@, "@rfcbot"@) is None,
            },
    {
        Self::parse(command, rfc_bot_mention())
    }
}

} // verus!
