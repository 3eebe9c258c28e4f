use fluxer_bounty_bot::confirmation::{
    confirmation_reaction, confirmation_result, user_arg_from_confirmation,
    user_confirmation_prompt, ConfirmationMessage, MaybeExpired,
};
use fluxer_bounty_bot::model::{
    BountyChannels, BountyInfoKey, BountyNum, BountyRelatedMessage, BountyState,
    BountySubmissionFormat,
};
use fluxer_bounty_bot::reactions::ReactionRegistry;
use fluxer_bounty_bot::workflow::{
    bounty_created_text, check_submission, missing_required_keys, plan_message_update,
    target_channel, MessageUpdate, SubmissionCheck,
};
use fluxer_bounty_bot::submission::parse_message_content_as_submission;

#[test]
fn reactions_answer_only_for_the_allowed_user() {
    assert_eq!(confirmation_reaction(1, 1, Some("✅")), Some(true));
    assert_eq!(confirmation_reaction(1, 1, Some("❌")), Some(false));
    assert_eq!(confirmation_reaction(2, 1, Some("✅")), None);
    assert_eq!(confirmation_reaction(1, 1, Some("👍")), None);
    assert_eq!(confirmation_reaction(1, 1, None), None);
}

#[test]
fn confirmation_results() {
    assert_eq!(
        confirmation_result(Some(ConfirmationMessage::Answered(true))),
        (MaybeExpired::NotExpired(true), true)
    );
    assert_eq!(
        confirmation_result(Some(ConfirmationMessage::Answered(false))),
        (MaybeExpired::NotExpired(false), true)
    );
    assert_eq!(confirmation_result(Some(ConfirmationMessage::Expired)), (MaybeExpired::Expired, false));
    assert_eq!(confirmation_result(None), (MaybeExpired::Expired, false));
}

#[test]
fn user_argument_confirmation() {
    assert_eq!(
        user_confirmation_prompt(5, "dave", "0007"),
        "Is <@5> (`dave#0007`) the user you're looking for?"
    );
    assert_eq!(user_arg_from_confirmation(MaybeExpired::NotExpired(true), 5), MaybeExpired::NotExpired(Some(5)));
    assert_eq!(user_arg_from_confirmation(MaybeExpired::NotExpired(false), 5), MaybeExpired::Expired);
    assert_eq!(user_arg_from_confirmation(MaybeExpired::Expired, 5), MaybeExpired::Expired);
}

#[test]
fn incomplete_submission_is_answered() {
    let format = BountySubmissionFormat::default();
    match check_submission(&format, "## Title\nA title") {
        SubmissionCheck::Incomplete(text) => assert_eq!(
            text,
            "Your submission is missing the following: Issue URL, Bounty Amount"
        ),
        SubmissionCheck::Complete(_) => panic!("expected missing keys"),
    }
    let parsed = parse_message_content_as_submission(&format, "## Amount\n1");
    assert_eq!(
        missing_required_keys(&format, &parsed),
        vec![BountyInfoKey::Title, BountyInfoKey::IssueUrl]
    );
}

#[test]
fn complete_submission_is_accepted() {
    let format = BountySubmissionFormat::default();
    let text = "## Title\nT\n## Issue\nhttps://x\n## Bounty Amount\n3$";
    match check_submission(&format, text) {
        SubmissionCheck::Complete(c) => {
            assert_eq!(c, parse_message_content_as_submission(&format, text));
            assert!(missing_required_keys(&format, &c).is_empty());
        }
        SubmissionCheck::Incomplete(t) => panic!("unexpected: {t}"),
    }
    assert_eq!(bounty_created_text(BountyNum(12)), "Bounty `12` created (now awaiting approval).");
}

fn channels() -> BountyChannels {
    BountyChannels {
        approval_queue_channel: Some(1),
        approved_bounties_channel: Some(2),
        claimed_bounties_channel: Some(3),
        completed_bounties_channel: Some(4),
        rejected_bounties_channel: None,
    }
}

#[test]
fn bounties_go_to_the_channel_of_their_state() {
    let c = channels();
    assert_eq!(target_channel(&c, BountyState::Pending, false), Some(1));
    assert_eq!(target_channel(&c, BountyState::Pending, true), Some(1));
    assert_eq!(target_channel(&c, BountyState::Approved, false), Some(2));
    assert_eq!(target_channel(&c, BountyState::Approved, true), Some(3));
    assert_eq!(target_channel(&c, BountyState::Completed, true), Some(4));
    assert_eq!(target_channel(&c, BountyState::Rejected, false), None);
}

#[test]
fn message_update_plans() {
    let m = BountyRelatedMessage { channel_id: 2, message_id: 9 };
    assert_eq!(plan_message_update(Some(2), Some(m)), MessageUpdate::Edit(m));
    assert_eq!(plan_message_update(Some(3), Some(m)), MessageUpdate::Replace { old: m, channel: 3 });
    assert_eq!(plan_message_update(Some(3), None), MessageUpdate::Send(3));
    assert_eq!(plan_message_update(None, Some(m)), MessageUpdate::Remove(m));
    assert_eq!(plan_message_update(None, None), MessageUpdate::Nothing);
}

#[test]
fn registry_handles_and_expires() {
    let mut r: ReactionRegistry<&str, u8> = ReactionRegistry::new();
    assert!(!r.register(10, "a", Some((1, 100))));
    assert!(!r.register(11, "b", None));
    assert!(!r.register(12, "c", Some((2, 50))));
    assert!(!r.register(13, "d", Some((3, 500))));
    assert!(r.register(12, "c2", Some((4, 50))));
    // Taking out and putting back (call not done) keeps the handler.
    let e = r.take(11).unwrap();
    assert_eq!(e.0, "b");
    r.settle(11, e, false);
    assert!(r.contains(11));
    // A finished call removes it.
    let e = r.take(11).unwrap();
    r.settle(11, e, true);
    assert!(!r.contains(11));
    assert!(r.take(11).is_none());
    // Expiry at time 100: only the entries whose time is before 100 expire.
    let mut expired = r.expire(100);
    expired.sort();
    assert_eq!(expired, vec![(12, 4)]);
    assert!(r.contains(10));
    assert!(r.contains(13));
    assert!(!r.contains(12));
    assert!(r.expire(100).is_empty());
    let mut expired = r.expire(1000);
    expired.sort();
    assert_eq!(expired, vec![(10, 1), (13, 3)]);
}
