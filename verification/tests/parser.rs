//! Command parser behavior: the bot's grammar over real comment bodies.

use rfcbot::command::{FcpDisposition, RfcBotCommand};

#[test]
fn success_fcp_reviewed() {
    let body = "@rfcbot: reviewed";
    let body_no_colon = "@rfcbot reviewed";

    let with_colon = RfcBotCommand::from_str(body).unwrap();
    let without_colon = RfcBotCommand::from_str(body_no_colon).unwrap();

    assert_eq!(with_colon, without_colon);
    assert_eq!(with_colon, RfcBotCommand::Reviewed);
}

#[test]
fn success_fcp_merge() {
    let body = "@rfcbot: fcp merge\n\nSome justification here.";
    let body_no_colon = "@rfcbot fcp merge\n\nSome justification here.";

    let with_colon = RfcBotCommand::from_str(body).unwrap();
    let without_colon = RfcBotCommand::from_str(body_no_colon).unwrap();

    assert_eq!(with_colon, without_colon);
    assert_eq!(with_colon, RfcBotCommand::FcpPropose(FcpDisposition::Merge));
}

#[test]
fn success_fcp_close() {
    let body = "@rfcbot: fcp close\n\nSome justification here.";
    let body_no_colon = "@rfcbot fcp close\n\nSome justification here.";

    let with_colon = RfcBotCommand::from_str(body).unwrap();
    let without_colon = RfcBotCommand::from_str(body_no_colon).unwrap();

    assert_eq!(with_colon, without_colon);
    assert_eq!(with_colon, RfcBotCommand::FcpPropose(FcpDisposition::Close));
}

#[test]
fn success_fcp_postpone() {
    let body = "@rfcbot: fcp postpone\n\nSome justification here.";
    let body_no_colon = "@rfcbot fcp postpone\n\nSome justification here.";

    let with_colon = RfcBotCommand::from_str(body).unwrap();
    let without_colon = RfcBotCommand::from_str(body_no_colon).unwrap();

    assert_eq!(with_colon, without_colon);
    assert_eq!(with_colon, RfcBotCommand::FcpPropose(FcpDisposition::Postpone));
}

#[test]
fn success_fcp_cancel() {
    let body = "@rfcbot: fcp cancel\n\nSome justification here.";
    let body_no_colon = "@rfcbot fcp cancel\n\nSome justification here.";

    let with_colon = RfcBotCommand::from_str(body).unwrap();
    let without_colon = RfcBotCommand::from_str(body_no_colon).unwrap();

    assert_eq!(with_colon, without_colon);
    assert_eq!(with_colon, RfcBotCommand::FcpCancel);
}

#[test]
fn success_concern() {
    let body = "@rfcbot: concern CONCERN_NAME
someothertext
somemoretext

somemoretext";
    let body_no_colon = "@rfcbot concern CONCERN_NAME
someothertext
somemoretext

somemoretext";

    let with_colon = RfcBotCommand::from_str(body).unwrap();
    let without_colon = RfcBotCommand::from_str(body_no_colon).unwrap();

    assert_eq!(with_colon, without_colon);
    assert_eq!(with_colon, RfcBotCommand::NewConcern("CONCERN_NAME"));
}

#[test]
fn success_resolve() {
    let body = "@rfcbot: resolved CONCERN_NAME
someothertext
somemoretext

somemoretext";
    let body_no_colon = "@rfcbot resolved CONCERN_NAME
someothertext
somemoretext

somemoretext";

    let with_colon = RfcBotCommand::from_str(body).unwrap();
    let without_colon = RfcBotCommand::from_str(body_no_colon).unwrap();

    assert_eq!(with_colon, without_colon);
    assert_eq!(with_colon, RfcBotCommand::ResolveConcern("CONCERN_NAME"));
}

#[test]
fn success_resolve_mid_body() {
    let body = "someothertext
@rfcbot: resolved CONCERN_NAME
somemoretext

somemoretext";
    let body_no_colon = "someothertext
somemoretext

@rfcbot resolved CONCERN_NAME

somemoretext";

    let with_colon = RfcBotCommand::from_str(body).unwrap();
    let without_colon = RfcBotCommand::from_str(body_no_colon).unwrap();

    assert_eq!(with_colon, without_colon);
    assert_eq!(with_colon, RfcBotCommand::ResolveConcern("CONCERN_NAME"));
}

#[test]
fn success_feedback() {
    let body = "@rfcbot: f? @bob
someothertext
somemoretext

somemoretext";
    let body_no_colon = "@rfcbot f? @bob
someothertext
somemoretext

somemoretext";

    let with_colon = RfcBotCommand::from_str(body).unwrap();
    let without_colon = RfcBotCommand::from_str(body_no_colon).unwrap();

    assert_eq!(with_colon, without_colon);
    assert_eq!(with_colon, RfcBotCommand::FeedbackRequest("bob"));
}

#[test]
fn success_pr_merge() {
    let cmd = RfcBotCommand::from_str("@rfcbot pr merge").unwrap();
    assert_eq!(cmd, RfcBotCommand::FcpPropose(FcpDisposition::Merge));
}

#[test]
fn failure_no_mention() {
    assert_eq!(RfcBotCommand::from_str("fcp merge"), None);
}

#[test]
fn failure_unknown_subcommand() {
    assert_eq!(RfcBotCommand::from_str("@rfcbot fcp launch"), None);
}

#[test]
fn failure_feedback_without_user() {
    assert_eq!(RfcBotCommand::from_str("@rfcbot f?"), None);
}

#[test]
fn failure_plain_chatter() {
    assert_eq!(RfcBotCommand::from_str("this looks good to me"), None);
}

#[test]
fn first_mention_line_wins() {
    let body = "@rfcbot reviewed\n@rfcbot: fcp merge";
    assert_eq!(RfcBotCommand::from_str(body), Some(RfcBotCommand::Reviewed));
}

#[test]
fn concern_name_keeps_spaces() {
    let cmd = RfcBotCommand::from_str("@rfcbot concern leaky abstraction here").unwrap();
    assert_eq!(cmd, RfcBotCommand::NewConcern("leaky abstraction here"));
}

#[test]
fn disposition_repr_round_trip() {
    for d in [FcpDisposition::Merge, FcpDisposition::Close, FcpDisposition::Postpone] {
        assert_eq!(FcpDisposition::from_str(d.repr()), Some(d));
    }
    assert_eq!(FcpDisposition::from_str("reopen"), None);
}
