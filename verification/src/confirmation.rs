//! Yes/no confirmation through reactions, and the decisions around asking a
//! user which member they meant.
use vstd::prelude::*;
use crate::text::{append_str, chars_of, decimal, push_decimal, string_of};

verus! {

/// A value, or the note that the time to give it ran out (or that it was refused).
#[derive(Clone, Copy, Debug, PartialEq, Eq)]
pub enum MaybeExpired<T> {
    NotExpired(T),
    Expired,
}

/// The reaction that confirms: a check mark.
pub open spec fn confirm_emoji() -> Seq<char> {
    seq!['\u{2705}']
}

/// The reaction that cancels: a cross mark.
pub open spec fn cancel_emoji() -> Seq<char> {
    seq!['\u{274C}']
}

/// The answer a reaction gives to a confirmation prompt, if any: only the
/// allowed person's check mark (yes) or cross mark (no) answers; custom emoji
/// (`None`) and anyone else's reactions are ignored.
pub open spec fn reaction_answer(reactor: u64, allowed_reactor: u64, emoji: Option<Seq<char>>) -> Option<bool> {
    if reactor != allowed_reactor {
        None
    } else {
        match emoji {
            None => None,
            Some(e) => if e == confirm_emoji() {
                Some(true)
            } else if e == cancel_emoji() {
                Some(false)
            } else {
                None
            },
        }
    }
}

fn chars_equal(a: &[char], b: &[char]) -> (r: bool)
    ensures
        r == (a@ == b@),
{
    if a.len() != b.len() {
        return false;
    }
    let mut i: usize = 0;
    while i < a.len()
        invariant
            i <= a.len() == b.len(),
            forall|j: int| 0 <= j < i ==> a@[j] == b@[j],
        decreases a.len() - i,
    {
        if a[i] != b[i] {
            return false;
        }
        i = i + 1;
    }
    assert(a@ =~= b@);
    true
}

/// Decides what a reaction on a confirmation prompt means. `emoji` is the text
/// of a standard emoji, or `None` for a custom one. An answer (`Some`) also means
/// that the prompt stops listening for reactions.
pub fn confirmation_reaction(reactor: u64, allowed_reactor: u64, emoji: Option<&str>) -> (r: Option<bool>)
    ensures
        r == reaction_answer(
            reactor,
            allowed_reactor,
            match emoji {
                Some(e) => Some(e@),
                None => None,
            },
        ),
        reactor != allowed_reactor ==> r is None,
        r is Some ==> emoji is Some,
{
    if reactor != allowed_reactor {
        return None;
    }
    match emoji {
        None => None,
        Some(e) => {
            let ec = chars_of(e);
            let yes = ['\u{2705}'];
            let no = ['\u{274C}'];
            assert(yes@ =~= confirm_emoji());
            assert(no@ =~= cancel_emoji());
            if chars_equal(ec.as_slice(), yes.as_slice()) {
                Some(true)
            } else if chars_equal(ec.as_slice(), no.as_slice()) {
                Some(false)
            } else {
                None
            }
        },
    }
}

/// What a confirmation prompt hears back: an answer, or that it expired.
#[derive(Clone, Copy, Debug, PartialEq, Eq, Structural)]
pub enum ConfirmationMessage {
    Answered(bool),
    Expired,
}

/// The result of a confirmation, given what the prompt heard back (`None` when
/// the channel closed without a message), and whether the prompt is to be deleted
/// (only when it was answered).
pub fn confirmation_result(received: Option<ConfirmationMessage>) -> (r: (MaybeExpired<bool>, bool))
    ensures
        match received {
            Some(ConfirmationMessage::Answered(b)) => r == (MaybeExpired::NotExpired(b), true),
            _ => r == (MaybeExpired::<bool>::Expired, false),
        },
{
    match received {
        Some(ConfirmationMessage::Answered(b)) => (MaybeExpired::NotExpired(b), true),
        Some(ConfirmationMessage::Expired) => (MaybeExpired::Expired, false),
        None => (MaybeExpired::Expired, false),
    }
}

/// The text asking whether a found member is the one meant.
pub open spec fn user_prompt_text(member_id: u64, username: Seq<char>, discriminator: Seq<char>) -> Seq<char> {
    "Is <@"@ + decimal(member_id as nat) + "> (`"@ + username + "#"@ + discriminator
        + "`) the user you're looking for?"@
}

/// Builds the text asking whether a found member is the one meant.
pub fn user_confirmation_prompt(member_id: u64, username: &str, discriminator: &str) -> (r: String)
    ensures
        r@ == user_prompt_text(member_id, username@, discriminator@),
{
    let mut v: Vec<char> = Vec::new();
    append_str(&mut v, "Is <@");
    push_decimal(&mut v, member_id as u128);
    append_str(&mut v, "> (`");
    append_str(&mut v, username);
    append_str(&mut v, "#");
    append_str(&mut v, discriminator);
    append_str(&mut v, "`) the user you're looking for?");
    string_of(v.as_slice())
}

/// The user an argument names, once the found member was offered for
/// confirmation: the member if confirmed, and expired if refused or unanswered.
pub fn user_arg_from_confirmation(result: MaybeExpired<bool>, member_id: u64) -> (r: MaybeExpired<
    Option<u64>,
>)
    ensures
        r == (match result {
            MaybeExpired::NotExpired(true) => MaybeExpired::NotExpired(Some(member_id)),
            _ => MaybeExpired::<Option<u64>>::Expired,
        }),
{
    match result {
        MaybeExpired::NotExpired(true) => MaybeExpired::NotExpired(Some(member_id)),
        MaybeExpired::Expired | MaybeExpired::NotExpired(false) => MaybeExpired::Expired,
    }
}

/// Only the asked user answers a prompt, only with a check mark (yes) or a
/// cross mark (no); every other reaction leaves the prompt waiting.
pub proof fn law_only_the_asked_user_answers(reactor: u64, allowed_reactor: u64, emoji: Option<Seq<char>>)
    ensures
        reactor != allowed_reactor ==> reaction_answer(reactor, allowed_reactor, emoji) is None,
        emoji is None ==> reaction_answer(reactor, allowed_reactor, emoji) is None,
        reaction_answer(allowed_reactor, allowed_reactor, Some(seq!['\u{2705}'])) == Some(true),
        reaction_answer(allowed_reactor, allowed_reactor, Some(seq!['\u{274C}'])) == Some(false),
        reaction_answer(reactor, allowed_reactor, emoji) is Some ==> reactor == allowed_reactor
            && (emoji == Some(seq!['\u{2705}']) || emoji == Some(seq!['\u{274C}'])),
{
    let yes: Seq<char> = seq!['\u{2705}'];
    let no: Seq<char> = seq!['\u{274C}'];
    assert(yes[0] != no[0]);
    assert(yes != no);
}

} // verus!
