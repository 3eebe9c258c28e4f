//! The data the bot keeps about bounties and about a community's configuration.
use vstd::prelude::*;
use vstd::string::*;
use crate::text::{chars_of, decimal, parse_decimal_u64, parse_u64, push_decimal, string_of};

verus! {

/// Number of pieces of information a bounty submission can hold.
pub const KEY_COUNT: usize = 6;

/// A piece of information in a bounty submission. The order of the variants is
/// the order in which the pieces are shown.
#[derive(Clone, Copy, Debug, PartialEq, Eq, Structural, Hash, PartialOrd, Ord)]
pub enum BountyInfoKey {
    Title,
    Deadline,
    IssueUrl,
    AdditionalInfo,
    JudgingCriteria,
    BountyAmount,
}

impl BountyInfoKey {
    /// Position of the key in the display order.
    pub open spec fn position(self) -> int {
        match self {
            BountyInfoKey::Title => 0,
            BountyInfoKey::Deadline => 1,
            BountyInfoKey::IssueUrl => 2,
            BountyInfoKey::AdditionalInfo => 3,
            BountyInfoKey::JudgingCriteria => 4,
            BountyInfoKey::BountyAmount => 5,
        }
    }

    /// The key at a position of the display order.
    pub open spec fn at(i: int) -> BountyInfoKey {
        if i == 0 {
            BountyInfoKey::Title
        } else if i == 1 {
            BountyInfoKey::Deadline
        } else if i == 2 {
            BountyInfoKey::IssueUrl
        } else if i == 3 {
            BountyInfoKey::AdditionalInfo
        } else if i == 4 {
            BountyInfoKey::JudgingCriteria
        } else {
            BountyInfoKey::BountyAmount
        }
    }

    /// Position of the key in the display order.
    pub fn index(self) -> (r: usize)
        ensures
            r as int == self.position(),
            r < KEY_COUNT,
            BountyInfoKey::at(r as int) == self,
    {
        match self {
            BountyInfoKey::Title => 0,
            BountyInfoKey::Deadline => 1,
            BountyInfoKey::IssueUrl => 2,
            BountyInfoKey::AdditionalInfo => 3,
            BountyInfoKey::JudgingCriteria => 4,
            BountyInfoKey::BountyAmount => 5,
        }
    }

    /// The key at a position of the display order.
    pub fn from_index(i: usize) -> (k: BountyInfoKey)
        requires
            i < KEY_COUNT,
        ensures
            k == BountyInfoKey::at(i as int),
            k.position() == i,
    {
        if i == 0 {
            BountyInfoKey::Title
        } else if i == 1 {
            BountyInfoKey::Deadline
        } else if i == 2 {
            BountyInfoKey::IssueUrl
        } else if i == 3 {
            BountyInfoKey::AdditionalInfo
        } else if i == 4 {
            BountyInfoKey::JudgingCriteria
        } else {
            BountyInfoKey::BountyAmount
        }
    }
}

/// Position and key determine each other.
pub proof fn lemma_key_position(k: BountyInfoKey)
    ensures
        0 <= k.position() < KEY_COUNT,
        BountyInfoKey::at(k.position()) == k,
{
}

/// The character sequences of a vector of strings.
pub open spec fn string_views(v: Seq<String>) -> Seq<Seq<char>> {
    v.map_values(|s: String| s@)
}

/// How a community's members write bounty submissions: for each key, the
/// section titles that introduce it (the first one is used when displaying),
/// and the keys that a submission must contain.
pub struct BountySubmissionFormat {
    pub titles: [Vec<String>; KEY_COUNT],
    pub required: Vec<BountyInfoKey>,
}

impl BountySubmissionFormat {
    /// The section titles of each key, by key position.
    pub open spec fn title_views(&self) -> Seq<Seq<Seq<char>>> {
        Seq::new(KEY_COUNT as nat, |k: int| string_views(self.titles@[k]@))
    }
}

/// The section titles of the default format, by key position.
pub open spec fn default_title_views() -> Seq<Seq<Seq<char>>> {
    seq![
        seq!["Title"@, "Bounty Title"@],
        seq!["Due Date"@, "Deadline"@],
        seq!["Issue URL"@, "Issue"@],
        seq!["Additional Information"@, "Additional Info"@],
        seq!["Judging Criteria"@, "Criteria"@],
        seq!["Bounty Amount"@, "Amount"@],
    ]
}

/// The keys that the default format requires.
pub open spec fn default_required() -> Seq<BountyInfoKey> {
    seq![BountyInfoKey::Title, BountyInfoKey::IssueUrl, BountyInfoKey::BountyAmount]
}

fn two_titles(a: &str, b: &str) -> (v: Vec<String>)
    ensures
        string_views(v@) == seq![a@, b@],
{
    let mut v: Vec<String> = Vec::new();
    v.push(String::from_str(a));
    v.push(String::from_str(b));
    assert(string_views(v@) =~= seq![a@, b@]);
    v
}

impl Default for BountySubmissionFormat {
    fn default() -> (r: Self)
        ensures
            r.title_views() == default_title_views(),
            r.required@ == default_required(),
    {
        let titles = [
            two_titles("Title", "Bounty Title"),
            two_titles("Due Date", "Deadline"),
            two_titles("Issue URL", "Issue"),
            two_titles("Additional Information", "Additional Info"),
            two_titles("Judging Criteria", "Criteria"),
            two_titles("Bounty Amount", "Amount"),
        ];
        let mut required: Vec<BountyInfoKey> = Vec::new();
        required.push(BountyInfoKey::Title);
        required.push(BountyInfoKey::IssueUrl);
        required.push(BountyInfoKey::BountyAmount);
        let r = BountySubmissionFormat { titles, required };
        assert(r.title_views() =~= default_title_views());
        assert(r.required@ =~= default_required());
        r
    }
}

/// The information of a bounty submission: at most one text per key.
#[derive(Clone, Debug, PartialEq, Eq)]
pub struct BountySubmissionContent {
    values: [Option<String>; KEY_COUNT],
}

/// The character sequence held by an optional string.
pub open spec fn opt_view(o: Option<String>) -> Option<Seq<char>> {
    match o {
        Some(s) => Some(s@),
        None => None,
    }
}

/// Content with no key set.
pub open spec fn empty_slots() -> Seq<Option<Seq<char>>> {
    Seq::new(KEY_COUNT as nat, |i: int| None)
}

impl View for BountySubmissionContent {
    /// The text of each key, by key position.
    type V = Seq<Option<Seq<char>>>;

    closed spec fn view(&self) -> Seq<Option<Seq<char>>> {
        Seq::new(KEY_COUNT as nat, |i: int| opt_view(self.values@[i]))
    }
}

impl BountySubmissionContent {
    /// The view has one entry per key.
    pub proof fn lemma_view_len(&self)
        ensures
            self@.len() == KEY_COUNT,
    {
    }

    /// Content with no key set.
    pub fn new() -> (r: Self)
        ensures
            r@ == empty_slots(),
    {
        let r = BountySubmissionContent { values: [None, None, None, None, None, None] };
        assert(r@ =~= empty_slots());
        r
    }

    /// Sets the text of `key`, replacing any earlier text.
    pub fn insert(&mut self, key: BountyInfoKey, value: String)
        ensures
            final(self)@ == old(self)@.update(key.position(), Some(value@)),
    {
        let i = key.index();
        let ghost v = value@;
        self.values[i] = Some(value);
        assert(final(self)@ =~= old(self)@.update(key.position(), Some(v)));
    }

    /// Whether `key` has a text.
    pub fn contains_key(&self, key: BountyInfoKey) -> (r: bool)
        ensures
            r == (self@[key.position()] is Some),
    {
        self.values[key.index()].is_some()
    }

    /// The text of `key`, if it has one.
    pub fn get(&self, key: BountyInfoKey) -> (r: Option<String>)
        ensures
            opt_view(r) == self@[key.position()],
    {
        match &self.values[key.index()] {
            Some(s) => Some(s.clone()),
            None => None,
        }
    }
}

/// The stage a bounty is in.
#[derive(Clone, Copy, Debug, PartialEq, Eq, Structural, Hash)]
pub enum BountyState {
    Pending,
    Approved,
    Completed,
    Rejected,
}

/// How a bounty state is displayed.
pub open spec fn state_name(s: BountyState) -> Seq<char> {
    match s {
        BountyState::Pending => "Pending"@,
        BountyState::Approved => "Approved"@,
        BountyState::Completed => "Completed"@,
        BountyState::Rejected => "Rejected"@,
    }
}

impl BountyState {
    /// How the state is displayed.
    pub fn name(self) -> (r: String)
        ensures
            r@ == state_name(self),
    {
        match self {
            BountyState::Pending => String::from_str("Pending"),
            BountyState::Approved => String::from_str("Approved"),
            BountyState::Completed => String::from_str("Completed"),
            BountyState::Rejected => String::from_str("Rejected"),
        }
    }
}

/// The number of a bounty within its community.
#[derive(Clone, Copy, Debug, PartialEq, Eq, Structural, Hash)]
pub struct BountyNum(pub u64);

impl BountyNum {
    /// Reads a bounty number written in decimal (as `u64::from_str` reads it).
    pub fn parse(s: &str) -> (r: Option<BountyNum>)
        ensures
            r == (match parse_u64(s@) {
                Some(n) => Some(BountyNum(n)),
                None => None,
            }),
    {
        let cs = chars_of(s);
        match parse_decimal_u64(cs.as_slice()) {
            Some(n) => Some(BountyNum(n)),
            None => None,
        }
    }

    /// How the number is displayed: in decimal.
    pub fn to_text(self) -> (r: String)
        ensures
            r@ == decimal(self.0 as nat),
    {
        let mut v: Vec<char> = Vec::new();
        push_decimal(&mut v, self.0 as u128);
        string_of(v.as_slice())
    }
}

/// A person waiting for (or, when first in line, holding) a bounty.
pub struct QueuedBountyAssignee {
    pub bounty_id: i64,
    pub user_id: u64,
    /// When the person joined the queue, in microseconds since the Unix epoch.
    pub queued_at: i64,
}

/// A contribution of money to a bounty.
pub struct BountyStakeholder {
    pub bounty_id: i64,
    pub user_id: u64,
    /// The contribution in US cents.
    pub amount: i32,
    pub note: Option<String>,
}

/// The message that shows a bounty in a channel.
#[derive(Clone, Copy, Debug, PartialEq, Eq, Structural)]
pub struct BountyRelatedMessage {
    pub channel_id: u64,
    pub message_id: u64,
}

/// The channels a community has set aside for bounties in each stage.
#[derive(Clone, Copy, Debug, PartialEq, Eq, Structural)]
pub struct BountyChannels {
    pub approval_queue_channel: Option<u64>,
    pub approved_bounties_channel: Option<u64>,
    pub claimed_bounties_channel: Option<u64>,
    pub completed_bounties_channel: Option<u64>,
    pub rejected_bounties_channel: Option<u64>,
}

} // verus!
