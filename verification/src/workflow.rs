//! The decisions taken when a bounty is submitted and when its message is
//! brought up to date; the chat and database work around them is the caller's.
use vstd::prelude::*;
use crate::message::{key_heading, key_heading_exec};
use crate::model::{
    BountyChannels, BountyInfoKey, BountyNum, BountyRelatedMessage, BountyState,
    BountySubmissionContent, BountySubmissionFormat,
};
use crate::submission::{parse_message_content_as_submission, submission_content};
use crate::text::{append_chars, append_str, decimal, join, join_chars, push_decimal, string_of, views};

verus! {

/// The required keys that a content lacks, in the order they are required.
pub open spec fn missing_keys(required: Seq<BountyInfoKey>, slots: Seq<Option<Seq<char>>>) -> Seq<
    BountyInfoKey,
> {
    required.filter(|k: BountyInfoKey| slots[k.position()] is None)
}

/// Lists the required keys that `content` lacks, in the order of `required`.
pub fn missing_required_keys(format: &BountySubmissionFormat, content: &BountySubmissionContent) -> (r:
    Vec<BountyInfoKey>)
    ensures
        r@ == missing_keys(format.required@, content@),
{
    let req = &format.required;
    let mut out: Vec<BountyInfoKey> = Vec::new();
    let mut i: usize = 0;
    proof {
        reveal_with_fuel(Seq::<_>::filter, 1);
        assert(req@.take(0) =~= Seq::<BountyInfoKey>::empty());
        assert(out@ =~= missing_keys(req@.take(0), content@));
    }
    while i < req.len()
        invariant
            i <= req.len(),
            out@ == missing_keys(req@.take(i as int), content@),
        decreases req.len() - i,
    {
        let k = req[i];
        proof {
            reveal_with_fuel(Seq::<_>::filter, 1);
        }
        assert(req@.take(i + 1).drop_last() =~= req@.take(i as int));
        if !content.contains_key(k) {
            out.push(k);
        }
        i = i + 1;
    }
    assert(req@.take(req.len() as int) =~= req@);
    out
}

/// The headings of the given keys.
pub open spec fn key_headings(format: &BountySubmissionFormat, keys: Seq<BountyInfoKey>) -> Seq<
    Seq<char>,
> {
    keys.map_values(|k: BountyInfoKey| key_heading(format, k.position()))
}

/// The answer to a submission that lacks required keys.
pub open spec fn missing_keys_text(format: &BountySubmissionFormat, keys: Seq<BountyInfoKey>) -> Seq<
    char,
> {
    "Your submission is missing the following: "@ + join(key_headings(format, keys), ", "@)
}

/// Outcome of checking a submitted message.
pub enum SubmissionCheck {
    /// All required keys are present; the content to store.
    Complete(BountySubmissionContent),
    /// Some are missing; the answer that names them.
    Incomplete(String),
}

/// Reads a submitted message and checks that it holds every required key.
/// When some are missing, gives the answer that lists their headings.
pub fn check_submission(format: &BountySubmissionFormat, text: &str) -> (r: SubmissionCheck)
    ensures
        match r {
            SubmissionCheck::Complete(c) => c@ == submission_content(format, text@) && missing_keys(
                format.required@,
                c@,
            ).len() == 0,
            SubmissionCheck::Incomplete(t) => missing_keys(
                format.required@,
                submission_content(format, text@),
            ).len() > 0 && t@ == missing_keys_text(
                format,
                missing_keys(format.required@, submission_content(format, text@)),
            ),
        },
{
    let parsed = parse_message_content_as_submission(format, text);
    let missing = missing_required_keys(format, &parsed);
    if missing.len() == 0 {
        return SubmissionCheck::Complete(parsed);
    }
    let ghost mk = missing@;
    let mut hs: Vec<Vec<char>> = Vec::new();
    let mut i: usize = 0;
    while i < missing.len()
        invariant
            i <= missing.len(),
            mk == missing@,
            views(hs@) == key_headings(format, mk).take(i as int),
        decreases missing.len() - i,
    {
        let h = key_heading_exec(format, missing[i].index());
        let ghost before = views(hs@);
        let ghost hv = h@;
        hs.push(h);
        assert(views(hs@) =~= before.push(hv));
        assert(key_headings(format, mk).take(i + 1) =~= key_headings(format, mk).take(i as int).push(
            hv,
        ));
        i = i + 1;
    }
    assert(key_headings(format, mk).take(missing.len() as int) =~= key_headings(format, mk));
    let sep = [',', ' '];
    proof {
        assert(sep@ =~= ", "@) by {
            reveal_strlit(", ");
        }
    }
    let joined = join_chars(&hs, sep.as_slice());
    let mut out: Vec<char> = Vec::new();
    append_str(&mut out, "Your submission is missing the following: ");
    append_chars(&mut out, joined.as_slice());
    SubmissionCheck::Incomplete(string_of(out.as_slice()))
}

/// The announcement that a bounty was created.
pub fn bounty_created_text(bounty_number: BountyNum) -> (r: String)
    ensures
        r@ == "Bounty `"@ + decimal(bounty_number.0 as nat) + "` created (now awaiting approval)."@,
{
    let mut v: Vec<char> = Vec::new();
    append_str(&mut v, "Bounty `");
    push_decimal(&mut v, bounty_number.0 as u128);
    append_str(&mut v, "` created (now awaiting approval).");
    string_of(v.as_slice())
}

/// The channel where a bounty is shown: an approved bounty that someone is
/// assigned to goes to the claimed-bounties channel; otherwise the channel of
/// its state. `None` when the community has not set that channel.
pub open spec fn target_channel_of(channels: BountyChannels, state: BountyState, has_assignees: bool) -> Option<
    u64,
> {
    if has_assignees && state == BountyState::Approved {
        channels.claimed_bounties_channel
    } else {
        match state {
            BountyState::Approved => channels.approved_bounties_channel,
            BountyState::Completed => channels.completed_bounties_channel,
            BountyState::Pending => channels.approval_queue_channel,
            BountyState::Rejected => channels.rejected_bounties_channel,
        }
    }
}

/// Chooses the channel where a bounty is shown.
pub fn target_channel(channels: &BountyChannels, state: BountyState, has_assignees: bool) -> (r:
    Option<u64>)
    ensures
        r == target_channel_of(*channels, state, has_assignees),
        state == BountyState::Pending ==> r == channels.approval_queue_channel,
        state == BountyState::Approved && !has_assignees ==> r == channels.approved_bounties_channel,
        state == BountyState::Approved && has_assignees ==> r == channels.claimed_bounties_channel,
        state == BountyState::Completed ==> r == channels.completed_bounties_channel,
        state == BountyState::Rejected ==> r == channels.rejected_bounties_channel,
{
    if has_assignees && state == BountyState::Approved {
        channels.claimed_bounties_channel
    } else {
        match state {
            BountyState::Approved => channels.approved_bounties_channel,
            BountyState::Completed => channels.completed_bounties_channel,
            BountyState::Pending => channels.approval_queue_channel,
            BountyState::Rejected => channels.rejected_bounties_channel,
        }
    }
}

/// What to do to bring a bounty's message up to date.
#[derive(Clone, Copy, Debug, PartialEq, Eq, Structural)]
pub enum MessageUpdate {
    /// Edit the existing message in place.
    Edit(BountyRelatedMessage),
    /// Delete the existing message (a failure to delete is only reported), send
    /// a new one to the channel, and record it.
    Replace { old: BountyRelatedMessage, channel: u64 },
    /// Send a new message to the channel and record it.
    Send(u64),
    /// Delete the existing message (a failure is only reported) and record that
    /// there is none.
    Remove(BountyRelatedMessage),
    /// Nothing to do.
    Nothing,
}

/// The update that brings a bounty's message to `target`: a message already in
/// that channel is edited; one elsewhere is replaced; with no target, the
/// message is removed.
pub open spec fn plan_of(target: Option<u64>, related: Option<BountyRelatedMessage>) -> MessageUpdate {
    match (target, related) {
        (Some(c), Some(m)) => if m.channel_id == c {
            MessageUpdate::Edit(m)
        } else {
            MessageUpdate::Replace { old: m, channel: c }
        },
        (Some(c), None) => MessageUpdate::Send(c),
        (None, Some(m)) => MessageUpdate::Remove(m),
        (None, None) => MessageUpdate::Nothing,
    }
}

/// Decides how to bring a bounty's message up to date.
pub fn plan_message_update(target: Option<u64>, related: Option<BountyRelatedMessage>) -> (r:
    MessageUpdate)
    ensures
        r == plan_of(target, related),
{
    match (target, related) {
        (Some(c), Some(m)) => if m.channel_id == c {
            MessageUpdate::Edit(m)
        } else {
            MessageUpdate::Replace { old: m, channel: c }
        },
        (Some(c), None) => MessageUpdate::Send(c),
        (None, Some(m)) => MessageUpdate::Remove(m),
        (None, None) => MessageUpdate::Nothing,
    }
}

/// The message a bounty has after an update, given the message sent by it (if
/// any): the sent one, the edited one kept, or none.
pub open spec fn related_after(plan: MessageUpdate, sent: Option<BountyRelatedMessage>) -> Option<
    BountyRelatedMessage,
> {
    match plan {
        MessageUpdate::Edit(m) => Some(m),
        MessageUpdate::Replace { .. } => sent,
        MessageUpdate::Send(_) => sent,
        MessageUpdate::Remove(_) => None,
        MessageUpdate::Nothing => None,
    }
}

/// Whether carrying out an update sends a new message.
pub open spec fn sends_message(plan: MessageUpdate) -> bool {
    match plan {
        MessageUpdate::Replace { .. } => true,
        MessageUpdate::Send(_) => true,
        _ => false,
    }
}

/// Once an update is carried out (the new message, if one is sent, going to the
/// channel it was sent to), the bounty's message is in the channel where the
/// bounty belongs; when there is no such channel, the bounty has no message.
pub proof fn law_update_reaches_target(
    target: Option<u64>,
    related: Option<BountyRelatedMessage>,
    sent: Option<BountyRelatedMessage>,
)
    requires
        sends_message(plan_of(target, related)) ==> (sent matches Some(m) && target == Some(
            m.channel_id,
        )),
    ensures
        match target {
            Some(c) => related_after(plan_of(target, related), sent) matches Some(m) && m.channel_id
                == c,
            None => related_after(plan_of(target, related), sent) is None,
        },
{
}

/// Each state has its own channel, whatever the other channels are: a pending
/// bounty is shown in the approval queue, an approved one in the approved
/// channel (in the claimed channel once someone is assigned), a completed one in
/// the completed channel and a rejected one in the rejected channel. Only an
/// approved bounty depends on its assignees.
pub proof fn law_target_channel_by_state(channels: BountyChannels, has_assignees: bool)
    ensures
        target_channel_of(channels, BountyState::Pending, has_assignees)
            == channels.approval_queue_channel,
        target_channel_of(channels, BountyState::Approved, false) == channels.approved_bounties_channel,
        target_channel_of(channels, BountyState::Approved, true) == channels.claimed_bounties_channel,
        target_channel_of(channels, BountyState::Completed, has_assignees)
            == channels.completed_bounties_channel,
        target_channel_of(channels, BountyState::Rejected, has_assignees)
            == channels.rejected_bounties_channel,
{
}

/// How a bounty's message is brought up to date, by what there is: with no
/// channel for it, an existing message is removed (and nothing is done when
/// there is none); with a channel, a message already there is edited, one
/// elsewhere is replaced by a new one in that channel, and with no message a new
/// one is sent there.
pub proof fn law_plan_by_case(c: u64, m: BountyRelatedMessage)
    ensures
        plan_of(None, None) == MessageUpdate::Nothing,
        plan_of(None, Some(m)) == MessageUpdate::Remove(m),
        plan_of(Some(c), None) == MessageUpdate::Send(c),
        m.channel_id == c ==> plan_of(Some(c), Some(m)) == MessageUpdate::Edit(m),
        m.channel_id != c ==> plan_of(Some(c), Some(m)) == (MessageUpdate::Replace { old: m, channel: c }),
{
}

/// A message that is already in the right channel is edited, never deleted.
pub proof fn law_message_in_place_is_kept(c: u64, m: BountyRelatedMessage)
    requires
        m.channel_id == c,
    ensures
        plan_of(Some(c), Some(m)) == MessageUpdate::Edit(m),
{
}

proof fn lemma_missing_facts(required: Seq<BountyInfoKey>, slots: Seq<Option<Seq<char>>>)
    ensures
        forall|i: int|
            0 <= i < missing_keys(required, slots).len() ==> required.contains(
                #[trigger] missing_keys(required, slots)[i],
            ) && slots[missing_keys(required, slots)[i].position()] is None,
        forall|i: int|
            0 <= i < required.len() && slots[required[i].position()] is None
                ==> missing_keys(required, slots).contains(#[trigger] required[i]),
    decreases required.len(),
{
    reveal_with_fuel(Seq::<_>::filter, 1);
    if required.len() > 0 {
        let prev = required.drop_last();
        lemma_missing_facts(prev, slots);
        let m = missing_keys(required, slots);
        let mp = missing_keys(prev, slots);
        let l = required.last();
        assert forall|i: int| 0 <= i < m.len() implies required.contains(#[trigger] m[i]) && slots[m[i].position()] is None by {
            if i < mp.len() {
                assert(m[i] == mp[i]);
                let j = choose|j: int| 0 <= j < prev.len() && prev[j] == mp[i];
                assert(required[j] == prev[j]);
            } else {
                assert(m[i] == l);
                assert(required[required.len() - 1] == l);
            }
        }
        assert forall|i: int| 0 <= i < required.len() && slots[required[i].position()] is None implies m.contains(
            #[trigger] required[i],
        ) by {
            if i < prev.len() {
                assert(prev[i] == required[i]);
                assert(mp.contains(prev[i]));
                let j = choose|j: int| 0 <= j < mp.len() && mp[j] == prev[i];
                assert(m[j] == mp[j]);
            } else {
                assert(m[m.len() - 1] == l);
            }
        }
    }
}

/// The keys named as missing are exactly the required keys without a text; a
/// submission is accepted exactly when there are none.
pub proof fn law_missing_keys(required: Seq<BountyInfoKey>, slots: Seq<Option<Seq<char>>>)
    ensures
        forall|k: BountyInfoKey|
            missing_keys(required, slots).contains(k) <==> (required.contains(k)
                && slots[k.position()] is None),
        missing_keys(required, slots).len() == 0 <==> forall|i: int|
            0 <= i < required.len() ==> slots[(#[trigger] required[i]).position()] is Some,
{
    lemma_missing_facts(required, slots);
    let m = missing_keys(required, slots);
    assert forall|k: BountyInfoKey| m.contains(k) <==> (required.contains(k) && slots[k.position()] is None) by {
        if m.contains(k) {
            let i = choose|i: int| 0 <= i < m.len() && m[i] == k;
        }
        if required.contains(k) && slots[k.position()] is None {
            let i = choose|i: int| 0 <= i < required.len() && required[i] == k;
        }
    }
    if m.len() == 0 {
        assert forall|i: int| 0 <= i < required.len() implies slots[(#[trigger] required[i]).position()] is Some by {
            if slots[required[i].position()] is None {
                assert(m.contains(required[i]));
            }
        }
    } else {
        assert(m.contains(m[0]));
        let i = choose|i: int| 0 <= i < required.len() && required[i] == m[0];
    }
}

} // verus!
