//! The message that shows a bounty: its text is built here from the bounty's
//! data; sending it is left to the caller.
use vstd::prelude::*;
use crate::ids::default_avatar_id;
use crate::model::{
    state_name, string_views, BountyInfoKey, BountyNum, BountyState, BountyStakeholder,
    BountySubmissionContent, BountySubmissionFormat, QueuedBountyAssignee, KEY_COUNT,
};
use crate::text::{
    all_digits, digit_value, digits_value, is_digit, lemma_decimal_digits, lemma_digit_char,
    append_chars, append_str, chars_of, decimal, digit_char, join, join_chars, push_decimal,
    push_signed_decimal, signed_decimal, string_of, views,
};

verus! {

// ---------------------------------------------------------------------------
// Money
// ---------------------------------------------------------------------------

/// An amount of US cents written as dollars with two decimals, e.g. `-1.05`.
pub open spec fn dollars(cents: int) -> Seq<char> {
    let a = if cents < 0 {
        -cents
    } else {
        cents
    };
    let sign = if cents < 0 {
        seq!['-']
    } else {
        seq![]
    };
    sign + decimal((a / 100) as nat) + seq!['.', digit_char(((a % 100) / 10) as nat), digit_char(
        (a % 10) as nat,
    )]
}

/// An amount written in dollars reads back as that amount: a minus sign exactly
/// for negative amounts, then the whole dollars in digits, a point, and exactly
/// two digits of cents, the dollars times a hundred plus the cents being the
/// amount's size.
pub proof fn law_dollars_read_back(cents: int)
    ensures
        ({
            let d = dollars(cents);
            let a = if cents < 0 { -cents } else { cents };
            let body = if cents < 0 { d.drop_first() } else { d };
            let whole = body.take(body.len() - 3);
            let frac = body.skip(body.len() - 2);
            &&& d.len() > 0
            &&& (d[0] == '-') == (cents < 0)
            &&& body.len() >= 4
            &&& body[body.len() - 3] == '.'
            &&& all_digits(whole)
            &&& all_digits(frac)
            &&& digits_value(whole) * 100 + digits_value(frac) == a
        }),
{
    let d = dollars(cents);
    let a = if cents < 0 { -cents } else { cents };
    let w = decimal((a / 100) as nat);
    let d1 = digit_char(((a % 100) / 10) as nat);
    let d2 = digit_char((a % 10) as nat);
    let tail: Seq<char> = seq!['.', d1, d2];
    lemma_decimal_digits((a / 100) as nat);
    lemma_digit_char(((a % 100) / 10) as nat);
    lemma_digit_char((a % 10) as nat);
    let body = w + tail;
    if cents < 0 {
        assert(d =~= seq!['-'] + body);
        assert(d.drop_first() =~= body);
    } else {
        assert(d =~= body);
        assert(d[0] == w[0]);
        assert(is_digit(w[0]));
    }
    assert(body.take(body.len() - 3) =~= w);
    let frac = body.skip(body.len() - 2);
    assert(frac =~= seq![d1, d2]);
    assert(frac.drop_last() =~= seq![d1]);
    let one: Seq<char> = seq![d1];
    assert(one.drop_last() =~= Seq::<char>::empty());
    assert(digits_value(Seq::<char>::empty()) == 0);
    assert(one.last() == d1);
    assert(digits_value(one) == digits_value(one.drop_last()) * 10 + digit_value(one.last()));
    assert(digits_value(one) == digit_value(d1));
    assert(frac.last() == d2);
    assert(digits_value(frac) == digit_value(d1) * 10 + digit_value(d2));
    assert(a == (a / 100) * 100 + ((a % 100) / 10) * 10 + a % 10);
}

/// Appends an amount of cents written as dollars with two decimals.
pub fn push_dollars(out: &mut Vec<char>, cents: i128)
    requires
        cents > i128::MIN,
    ensures
        final(out)@ == old(out)@ + dollars(cents as int),
{
    let a: u128 = if cents < 0 {
        (-cents) as u128
    } else {
        cents as u128
    };
    if cents < 0 {
        out.push('-');
    }
    push_decimal(out, a / 100);
    out.push('.');
    let tens = (a % 100) / 10;
    let ones = a % 10;
    let ghost mid = out@;
    crate::text::push_decimal(out, tens);
    crate::text::push_decimal(out, ones);
    assert(decimal(tens as nat) =~= seq![digit_char(tens as nat)]);
    assert(decimal(ones as nat) =~= seq![digit_char(ones as nat)]);
    assert(final(out)@ =~= old(out)@ + dollars(cents as int));
}

/// The sum of the contributions, in cents.
pub open spec fn total_cents(s: Seq<BountyStakeholder>) -> int
    decreases s.len(),
{
    if s.len() == 0 {
        0
    } else {
        total_cents(s.drop_last()) + s.last().amount
    }
}

proof fn lemma_total_bound(s: Seq<BountyStakeholder>)
    ensures
        -0x8000_0000 * s.len() <= total_cents(s) <= 0x7fff_ffff * s.len(),
    decreases s.len(),
{
    if s.len() > 0 {
        lemma_total_bound(s.drop_last());
    }
}

/// Every contribution counts towards the total, whoever made it and whatever
/// came before: no contributions total nothing, and one more contribution adds
/// its amount.
pub proof fn law_total_adds_every_contribution(s: Seq<BountyStakeholder>, x: BountyStakeholder)
    ensures
        total_cents(Seq::<BountyStakeholder>::empty()) == 0,
        total_cents(s.push(x)) == total_cents(s) + x.amount,
{
    assert(s.push(x).drop_last() =~= s);
}

/// Adds up the contributions, in cents.
pub fn sum_cents(s: &Vec<BountyStakeholder>) -> (r: i128)
    ensures
        r == total_cents(s@),
        r > i128::MIN,
{
    let mut total: i128 = 0;
    let mut i: usize = 0;
    while i < s.len()
        invariant
            i <= s.len(),
            total == total_cents(s@.take(i as int)),
            -0x8000_0000 * i <= total <= 0x7fff_ffff * i,
        decreases s.len() - i,
    {
        assert(s@.take(i + 1).drop_last() =~= s@.take(i as int));
        total = total + s[i].amount as i128;
        i = i + 1;
    }
    assert(s@.take(s.len() as int) =~= s@);
    total
}

// ---------------------------------------------------------------------------
// Order of the assignee queue
// ---------------------------------------------------------------------------

/// Inserts `x` after every element of `s` that joined no later than it, scanning
/// from the back (so that, on a sorted `s`, earlier equal elements stay first).
pub open spec fn insert_by_time(s: Seq<(u64, i64)>, x: (u64, i64)) -> Seq<(u64, i64)>
    decreases s.len(),
{
    if s.len() == 0 {
        seq![x]
    } else if s.last().1 <= x.1 {
        s.push(x)
    } else {
        insert_by_time(s.drop_last(), x).push(s.last())
    }
}

/// The queue in order of joining; among equal times, in the given order.
pub open spec fn sort_by_time(s: Seq<(u64, i64)>) -> Seq<(u64, i64)>
    decreases s.len(),
{
    if s.len() == 0 {
        seq![]
    } else {
        insert_by_time(sort_by_time(s.drop_last()), s.last())
    }
}

/// The (user, time) pairs of a queue.
pub open spec fn queue_entries(q: Seq<QueuedBountyAssignee>) -> Seq<(u64, i64)> {
    q.map_values(|a: QueuedBountyAssignee| (a.user_id, a.queued_at))
}

proof fn lemma_insert_at(s: Seq<(u64, i64)>, x: (u64, i64), j: int)
    requires
        0 <= j <= s.len(),
        forall|k: int| j <= k < s.len() ==> (#[trigger] s[k]).1 > x.1,
        j > 0 ==> s[j - 1].1 <= x.1,
    ensures
        insert_by_time(s, x) == s.insert(j, x),
    decreases s.len(),
{
    if s.len() == 0 {
        assert(s.insert(j, x) =~= seq![x]);
    } else if j == s.len() {
        assert(s.insert(j, x) =~= s.push(x));
    } else {
        let t = s.drop_last();
        assert forall|k: int| j <= k < t.len() implies (#[trigger] t[k]).1 > x.1 by {
            assert(t[k] == s[k]);
        }
        lemma_insert_at(t, x, j);
        assert(t.insert(j, x).push(s.last()) =~= s.insert(j, x));
    }
}

/// The queue's (user, time) pairs in order of joining, earlier first; equal
/// times keep the given order.
pub fn sorted_queue(q: &Vec<QueuedBountyAssignee>) -> (r: Vec<(u64, i64)>)
    ensures
        r@ == sort_by_time(queue_entries(q@)),
{
    let ghost e = queue_entries(q@);
    let mut out: Vec<(u64, i64)> = Vec::new();
    let mut i: usize = 0;
    while i < q.len()
        invariant
            i <= q.len(),
            e == queue_entries(q@),
            out@ == sort_by_time(e.take(i as int)),
        decreases q.len() - i,
    {
        let x = (q[i].user_id, q[i].queued_at);
        assert(e.take(i + 1).drop_last() =~= e.take(i as int));
        assert(e.take(i + 1).last() == x);
        let mut j = out.len();
        while j > 0 && out[j - 1].1 > x.1
            invariant
                j <= out.len(),
                forall|k: int| j <= k < out.len() ==> (#[trigger] out@[k]).1 > x.1,
            decreases j,
        {
            j = j - 1;
        }
        proof {
            lemma_insert_at(out@, x, j as int);
        }
        out.insert(j, x);
        i = i + 1;
    }
    assert(e.take(q.len() as int) =~= e);
    out
}

// ---------------------------------------------------------------------------
// The message
// ---------------------------------------------------------------------------

/// Where user avatars are served from.
pub const AVATAR_URL_BASE: &'static str = "https://fluxerusercontent.com/avatars";

/// Where static files (such as the default avatars) are served from.
pub const STATIC_BASE: &'static str = "https://fluxerstatic.com";

/// The colour of a bounty's message: that of a submission awaiting a decision.
pub const SUBMISSION_PENDING: u32 = 0xFEE75C;

/// What is known of a user.
pub struct UserInfo {
    pub id: u64,
    pub username: String,
    pub discriminator: String,
    /// The hash of the user's own avatar, if they set one.
    pub avatar: Option<String>,
}

/// The creator of a bounty: known in full, or only by ID when looking them up failed.
pub enum BountyAuthor {
    Known(UserInfo),
    Unknown(u64),
}

/// The parts of a bounty message (an embed).
pub struct BountyMessage {
    pub title: String,
    pub description: String,
    /// The embed's colour, as `0xRRGGBB`.
    pub color: u32,
    pub author_name: String,
    pub author_icon_url: String,
    pub footer: String,
    /// When the bounty was created, in microseconds since the Unix epoch.
    pub timestamp: i64,
}

/// The heading shown for a key: its first title, or a note that it has none.
pub open spec fn key_heading(format: &BountySubmissionFormat, k: int) -> Seq<char> {
    if format.title_views()[k].len() > 0 {
        format.title_views()[k][0]
    } else {
        "*no titles for key*"@
    }
}

/// Whether the text of position `k` is shown as a section of the description.
/// The title never is; the deadline is not when shown separately.
pub open spec fn shows_section(k: int, skip_deadline: bool) -> bool {
    k != BountyInfoKey::Title.position() && !(skip_deadline && k
        == BountyInfoKey::Deadline.position())
}

/// The description sections of the keys before position `k`, in key order.
pub open spec fn sections_before(
    format: &BountySubmissionFormat,
    slots: Seq<Option<Seq<char>>>,
    skip_deadline: bool,
    k: int,
) -> Seq<Seq<char>>
    decreases k,
{
    if k <= 0 {
        seq![]
    } else {
        let prev = sections_before(format, slots, skip_deadline, k - 1);
        match slots[k - 1] {
            Some(v) => if shows_section(k - 1, skip_deadline) {
                prev.push("## "@ + key_heading(format, k - 1) + "\n"@ + v)
            } else {
                prev
            },
            None => prev,
        }
    }
}

/// The description sections of a content, in key order.
pub open spec fn content_sections(
    format: &BountySubmissionFormat,
    slots: Seq<Option<Seq<char>>>,
    skip_deadline: bool,
) -> Seq<Seq<char>> {
    sections_before(format, slots, skip_deadline, KEY_COUNT as int)
}

/// Whether a set key at position `k` is one the description shows: any key but
/// the title, and not the deadline when it is shown on its own.
pub open spec fn listed_key(slots: Seq<Option<Seq<char>>>, skip_deadline: bool, k: int) -> bool {
    1 <= k < KEY_COUNT && slots[k] is Some && !(skip_deadline && k == 1)
}

/// The section of the description that shows the text of position `k`.
pub open spec fn key_section(format: &BountySubmissionFormat, slots: Seq<Option<Seq<char>>>, k: int) -> Seq<char> {
    "## "@ + key_heading(format, k) + "\n"@ + slots[k]->0
}

/// How many listed keys stand before position `k`.
spec fn listed_before(slots: Seq<Option<Seq<char>>>, skip_deadline: bool, k: int) -> nat
    decreases k,
{
    if k <= 0 {
        0
    } else {
        listed_before(slots, skip_deadline, k - 1) + if listed_key(slots, skip_deadline, k - 1) {
            1nat
        } else {
            0nat
        }
    }
}

proof fn lemma_listed_before_grows(slots: Seq<Option<Seq<char>>>, skip_deadline: bool, j: int, k: int)
    requires
        0 <= j <= k,
    ensures
        listed_before(slots, skip_deadline, j) <= listed_before(slots, skip_deadline, k),
    decreases k - j,
{
    if j < k {
        lemma_listed_before_grows(slots, skip_deadline, j, k - 1);
    }
}

proof fn lemma_sections_before_listed(
    format: &BountySubmissionFormat,
    slots: Seq<Option<Seq<char>>>,
    skip_deadline: bool,
    k: int,
)
    requires
        0 <= k <= KEY_COUNT,
        slots.len() == KEY_COUNT,
    ensures
        sections_before(format, slots, skip_deadline, k).len() == listed_before(slots, skip_deadline, k),
        forall|j: int|
            0 <= j < k && #[trigger] listed_key(slots, skip_deadline, j) ==> sections_before(
                format,
                slots,
                skip_deadline,
                k,
            )[listed_before(slots, skip_deadline, j) as int] == key_section(format, slots, j),
    decreases k,
{
    if k > 0 {
        lemma_sections_before_listed(format, slots, skip_deadline, k - 1);
        let prev = sections_before(format, slots, skip_deadline, k - 1);
        let cur = sections_before(format, slots, skip_deadline, k);
        assert forall|j: int|
            0 <= j < k && #[trigger] listed_key(slots, skip_deadline, j) implies cur[listed_before(
            slots,
            skip_deadline,
            j,
        ) as int] == key_section(format, slots, j) by {
            if j < k - 1 {
                lemma_listed_before_grows(slots, skip_deadline, j + 1, k - 1);
                assert(listed_before(slots, skip_deadline, j) < prev.len());
            }
        }
    }
}

/// The description shows every set key but the title (and the deadline when it
/// is shown on its own), each once as `## <heading>` followed by its text, in
/// key order, and nothing else.
pub proof fn law_every_set_key_is_shown(
    format: &BountySubmissionFormat,
    slots: Seq<Option<Seq<char>>>,
    skip_deadline: bool,
)
    requires
        slots.len() == KEY_COUNT,
    ensures
        content_sections(format, slots, skip_deadline).len() == (if slots[1] is Some
            && !skip_deadline {
            1int
        } else {
            0int
        }) + (if slots[2] is Some {
            1int
        } else {
            0int
        }) + (if slots[3] is Some {
            1int
        } else {
            0int
        }) + (if slots[4] is Some {
            1int
        } else {
            0int
        }) + (if slots[5] is Some {
            1int
        } else {
            0int
        }),
        forall|k: int|
            #[trigger] listed_key(slots, skip_deadline, k) ==> content_sections(
                format,
                slots,
                skip_deadline,
            ).contains(key_section(format, slots, k)),
        forall|k1: int, k2: int|
            k1 < k2 && #[trigger] listed_key(slots, skip_deadline, k1) && #[trigger] listed_key(
                slots,
                skip_deadline,
                k2,
            ) ==> exists|i: int, j: int|
                0 <= i < j < content_sections(format, slots, skip_deadline).len()
                    && #[trigger] content_sections(format, slots, skip_deadline)[i] == key_section(
                    format,
                    slots,
                    k1,
                ) && #[trigger] content_sections(format, slots, skip_deadline)[j] == key_section(
                    format,
                    slots,
                    k2,
                ),
{
    let n = KEY_COUNT as int;
    lemma_sections_before_listed(format, slots, skip_deadline, n);
    let cs = content_sections(format, slots, skip_deadline);
    assert(listed_before(slots, skip_deadline, 0) == 0);
    assert(!listed_key(slots, skip_deadline, 0));
    assert(listed_before(slots, skip_deadline, 1) == 0);
    assert(listed_before(slots, skip_deadline, 2) == listed_before(slots, skip_deadline, 1) + (if listed_key(slots, skip_deadline, 1) { 1nat } else { 0nat }));
    assert(listed_before(slots, skip_deadline, 3) == listed_before(slots, skip_deadline, 2) + (if listed_key(slots, skip_deadline, 2) { 1nat } else { 0nat }));
    assert(listed_before(slots, skip_deadline, 4) == listed_before(slots, skip_deadline, 3) + (if listed_key(slots, skip_deadline, 3) { 1nat } else { 0nat }));
    assert(listed_before(slots, skip_deadline, 5) == listed_before(slots, skip_deadline, 4) + (if listed_key(slots, skip_deadline, 4) { 1nat } else { 0nat }));
    assert(listed_before(slots, skip_deadline, 6) == listed_before(slots, skip_deadline, 5) + (if listed_key(slots, skip_deadline, 5) { 1nat } else { 0nat }));
    assert(cs.len() == listed_before(slots, skip_deadline, n));
    assert forall|k: int| #[trigger] listed_key(slots, skip_deadline, k) implies cs.contains(
        key_section(format, slots, k),
    ) by {
        lemma_listed_before_grows(slots, skip_deadline, k + 1, n);
        let i = listed_before(slots, skip_deadline, k) as int;
        assert(cs[i] == key_section(format, slots, k));
    }
    assert forall|k1: int, k2: int|
        k1 < k2 && #[trigger] listed_key(slots, skip_deadline, k1) && #[trigger] listed_key(
            slots,
            skip_deadline,
            k2,
        ) implies exists|i: int, j: int|
        0 <= i < j < cs.len() && #[trigger] cs[i] == key_section(format, slots, k1) && #[trigger] cs[j]
            == key_section(format, slots, k2) by {
        lemma_listed_before_grows(slots, skip_deadline, k1 + 1, k2);
        lemma_listed_before_grows(slots, skip_deadline, k2 + 1, n);
        let i = listed_before(slots, skip_deadline, k1) as int;
        let j = listed_before(slots, skip_deadline, k2) as int;
        assert(cs[i] == key_section(format, slots, k1));
        assert(cs[j] == key_section(format, slots, k2));
    }
}

/// The message title: the content's title, or a note that it has none.
pub open spec fn message_title(slots: Seq<Option<Seq<char>>>) -> Seq<char> {
    match slots[BountyInfoKey::Title.position()] {
        Some(t) => t,
        None => "*No title*"@,
    }
}

/// The heading shown for the key at position `k`.
pub(crate) fn key_heading_exec(format: &BountySubmissionFormat, k: usize) -> (r: Vec<char>)
    requires
        k < KEY_COUNT,
    ensures
        r@ == key_heading(format, k as int),
{
    let ts = &format.titles[k];
    assert(format.title_views()[k as int] == string_views(ts@));
    if ts.len() > 0 {
        chars_of(ts[0].as_str())
    } else {
        let mut v: Vec<char> = Vec::new();
        append_str(&mut v, "*no titles for key*");
        v
    }
}

fn content_sections_exec(
    format: &BountySubmissionFormat,
    content: &BountySubmissionContent,
    skip_deadline: bool,
) -> (r: Vec<Vec<char>>)
    ensures
        views(r@) == content_sections(format, content@, skip_deadline),
{
    let mut out: Vec<Vec<char>> = Vec::new();
    let mut k: usize = 0;
    proof {
        content.lemma_view_len();
    }
    while k < KEY_COUNT
        invariant
            k <= KEY_COUNT,
            content@.len() == KEY_COUNT,
            views(out@) == sections_before(format, content@, skip_deadline, k as int),
        decreases KEY_COUNT - k,
    {
        let key = BountyInfoKey::from_index(k);
        let shown = k != 0 && !(skip_deadline && k == 1);
        match content.get(key) {
            Some(v) => {
                if shown {
                    let mut piece: Vec<char> = Vec::new();
                    append_str(&mut piece, "## ");
                    let heading = key_heading_exec(format, k);
                    append_chars(&mut piece, heading.as_slice());
                    append_str(&mut piece, "\n");
                    append_str(&mut piece, v.as_str());
                    let ghost before = views(out@);
                    let ghost pv = piece@;
                    out.push(piece);
                    assert(views(out@) =~= before.push(pv));
                }
            },
            None => {},
        }
        k = k + 1;
    }
    out
}

/// The lines listing the queue: the first person is the assignee, the rest queue.
pub open spec fn assignee_lines(q: Seq<(u64, i64)>) -> Seq<Seq<char>> {
    Seq::new(
        q.len(),
        |i: int|
            if i == 0 {
                "[**Assigned**] <@"@ + decimal(q[i].0 as nat) + ">"@
            } else {
                "[**Queued**] <@"@ + decimal(q[i].0 as nat) + ">"@
            },
    )
}

/// One line per queue entry, in the queue's order, each naming that entry's
/// user: the first is the assignee, every later one is queued.
pub proof fn law_first_in_queue_is_assigned(q: Seq<(u64, i64)>)
    ensures
        assignee_lines(q).len() == q.len(),
        q.len() > 0 ==> assignee_lines(q)[0] == "[**Assigned**] <@"@ + decimal(q[0].0 as nat) + ">"@,
        forall|i: int|
            1 <= i < q.len() ==> #[trigger] assignee_lines(q)[i] == "[**Queued**] <@"@ + decimal(
                q[i].0 as nat,
            ) + ">"@,
{
}

/// The part of the description that names the assignee and the queue.
pub open spec fn assignees_block(q: Seq<QueuedBountyAssignee>) -> Seq<char> {
    if q.len() == 0 {
        "*No one*\n"@
    } else {
        join(assignee_lines(sort_by_time(queue_entries(q))), "\n"@) + "\n"@
    }
}

/// A timestamp tag that chat clients show as a short date and time.
pub open spec fn time_tag(seconds: i64) -> Seq<char> {
    "<t:"@ + signed_decimal(seconds as int) + ":s>"@
}

/// The part of the description that shows the due date.
pub open spec fn deadline_block(deadline: Option<i64>) -> Seq<char> {
    match deadline {
        Some(d) => "**Due date**\n"@ + time_tag(d) + "\n"@,
        None => seq![],
    }
}

/// The line that shows one contribution.
pub open spec fn stakeholder_line(s: BountyStakeholder) -> Seq<char> {
    "`$"@ + dollars(s.amount as int) + "` by <@"@ + decimal(s.user_id as nat) + ">"@ + match s.note {
        Some(n) => " - "@ + n@,
        None => seq![],
    } + "\n"@
}

/// Every contribution gets its own line, in order: one more contribution adds
/// its line at the end.
pub proof fn law_each_contribution_listed(s: Seq<BountyStakeholder>, x: BountyStakeholder)
    ensures
        stakeholder_lines(Seq::<BountyStakeholder>::empty()) == Seq::<char>::empty(),
        stakeholder_lines(s.push(x)) == stakeholder_lines(s) + stakeholder_line(x),
{
    assert(s.push(x).drop_last() =~= s);
}

/// The lines of the contributions, in order.
pub open spec fn stakeholder_lines(s: Seq<BountyStakeholder>) -> Seq<char>
    decreases s.len(),
{
    if s.len() == 0 {
        seq![]
    } else {
        stakeholder_lines(s.drop_last()) + stakeholder_line(s.last())
    }
}

/// The part of the description that lists the contributions and their total.
pub open spec fn stakes_block(s: Seq<BountyStakeholder>) -> Seq<char> {
    if s.len() == 0 {
        seq![]
    } else {
        "**Bounty Amount (USD)**\n"@ + stakeholder_lines(s) + "**Total Bounty Amount (USD)**\n`$"@
            + dollars(total_cents(s)) + "`\n"@
    }
}

/// The description of a bounty message.
pub open spec fn bounty_description(
    format: &BountySubmissionFormat,
    slots: Seq<Option<Seq<char>>>,
    assignees: Seq<QueuedBountyAssignee>,
    deadline: Option<i64>,
    stakeholders: Seq<BountyStakeholder>,
) -> Seq<char> {
    join(content_sections(format, slots, true), "\n"@) + "\n===\n"@ + "**Assigned to**\n"@
        + assignees_block(assignees) + deadline_block(deadline) + stakes_block(stakeholders)
}

/// The name shown for a known user: name, tag and ID.
pub open spec fn user_name(u: &UserInfo) -> Seq<char> {
    u.username@ + "#"@ + u.discriminator@ + " ("@ + decimal(u.id as nat) + ")"@
}

/// The avatar shown for a known user: their own, or the default one for their ID.
pub open spec fn user_icon_url(u: &UserInfo) -> Seq<char> {
    match u.avatar {
        Some(h) => AVATAR_URL_BASE@ + "/"@ + decimal(u.id as nat) + "/"@ + h@ + ".webp?size=128"@,
        None => STATIC_BASE@ + "/avatars/"@ + decimal((u.id % 6) as nat) + ".png"@,
    }
}

/// The name shown for the creator.
pub open spec fn author_name(a: &BountyAuthor) -> Seq<char> {
    match a {
        BountyAuthor::Known(u) => user_name(u),
        BountyAuthor::Unknown(id) => decimal(*id as nat),
    }
}

/// The avatar shown for the creator: a known user's, or the first default one
/// when they are unknown.
pub open spec fn author_icon_url(a: &BountyAuthor) -> Seq<char> {
    match a {
        BountyAuthor::Known(u) => user_icon_url(u),
        BountyAuthor::Unknown(_) => STATIC_BASE@ + "/avatars/0.png"@,
    }
}

fn push_assignees(out: &mut Vec<char>, assignees: &Vec<QueuedBountyAssignee>)
    ensures
        final(out)@ == old(out)@ + assignees_block(assignees@),
{
    if assignees.len() == 0 {
        append_str(out, "*No one*\n");
    } else {
        let q = sorted_queue(assignees);
        let ghost qv = q@;
        let mut ls: Vec<Vec<char>> = Vec::new();
        let mut i: usize = 0;
        while i < q.len()
            invariant
                i <= q.len(),
                qv == q@,
                views(ls@) == assignee_lines(qv).take(i as int),
            decreases q.len() - i,
        {
            let mut line: Vec<char> = Vec::new();
            if i == 0 {
                append_str(&mut line, "[**Assigned**] <@");
            } else {
                append_str(&mut line, "[**Queued**] <@");
            }
            push_decimal(&mut line, q[i].0 as u128);
            append_str(&mut line, ">");
            let ghost before = views(ls@);
            let ghost lv = line@;
            ls.push(line);
            assert(views(ls@) =~= before.push(lv));
            assert(assignee_lines(qv).take(i + 1) =~= assignee_lines(qv).take(i as int).push(lv));
            i = i + 1;
        }
        assert(assignee_lines(qv).take(q.len() as int) =~= assignee_lines(qv));
        let nl = ['\n'];
        let joined = join_chars(&ls, nl.as_slice());
        proof {
            assert(nl@ =~= "\n"@) by {
                reveal_strlit("\n");
            }
            // The queue is not empty, so neither is its sorted form.
            lemma_sort_len(queue_entries(assignees@));
        }
        append_chars(out, joined.as_slice());
        append_str(out, "\n");
    }
}

/// Sorting keeps the length.
pub proof fn lemma_sort_len(s: Seq<(u64, i64)>)
    ensures
        sort_by_time(s).len() == s.len(),
    decreases s.len(),
{
    if s.len() > 0 {
        lemma_sort_len(s.drop_last());
        lemma_insert_len(sort_by_time(s.drop_last()), s.last());
    }
}

proof fn lemma_insert_len(s: Seq<(u64, i64)>, x: (u64, i64))
    ensures
        insert_by_time(s, x).len() == s.len() + 1,
    decreases s.len(),
{
    if s.len() > 0 {
        lemma_insert_len(s.drop_last(), x);
    }
}

fn push_deadline(out: &mut Vec<char>, deadline: Option<i64>)
    ensures
        final(out)@ == old(out)@ + deadline_block(deadline),
{
    match deadline {
        Some(d) => {
            append_str(out, "**Due date**\n");
            append_str(out, "<t:");
            push_signed_decimal(out, d);
            append_str(out, ":s>");
            append_str(out, "\n");
            assert(final(out)@ =~= old(out)@ + deadline_block(deadline));
        },
        None => {
            assert(final(out)@ =~= old(out)@ + deadline_block(deadline));
        },
    }
}

fn push_stakeholder_line(out: &mut Vec<char>, s: &BountyStakeholder)
    ensures
        final(out)@ == old(out)@ + stakeholder_line(*s),
{
    append_str(out, "`$");
    push_dollars(out, s.amount as i128);
    append_str(out, "` by <@");
    push_decimal(out, s.user_id as u128);
    append_str(out, ">");
    match &s.note {
        Some(n) => {
            append_str(out, " - ");
            append_str(out, n.as_str());
        },
        None => {},
    }
    append_str(out, "\n");
    assert(final(out)@ =~= old(out)@ + stakeholder_line(*s));
}

fn push_stakes(out: &mut Vec<char>, stakeholders: &Vec<BountyStakeholder>)
    ensures
        final(out)@ == old(out)@ + stakes_block(stakeholders@),
{
    if stakeholders.len() == 0 {
        assert(final(out)@ =~= old(out)@ + stakes_block(stakeholders@));
        return;
    }
    append_str(out, "**Bounty Amount (USD)**\n");
    let ghost head = out@;
    let mut i: usize = 0;
    while i < stakeholders.len()
        invariant
            i <= stakeholders.len(),
            out@ == head + stakeholder_lines(stakeholders@.take(i as int)),
        decreases stakeholders.len() - i,
    {
        push_stakeholder_line(out, &stakeholders[i]);
        assert(stakeholders@.take(i + 1).drop_last() =~= stakeholders@.take(i as int));
        i = i + 1;
    }
    assert(stakeholders@.take(stakeholders.len() as int) =~= stakeholders@);
    let total = sum_cents(stakeholders);
    append_str(out, "**Total Bounty Amount (USD)**\n`$");
    push_dollars(out, total);
    append_str(out, "`\n");
    assert(final(out)@ =~= old(out)@ + stakes_block(stakeholders@));
}

fn user_parts(u: &UserInfo) -> (r: (String, String))
    ensures
        r.0@ == user_name(u),
        r.1@ == user_icon_url(u),
{
    let mut name: Vec<char> = Vec::new();
    let mut url: Vec<char> = Vec::new();
    append_str(&mut name, u.username.as_str());
    append_str(&mut name, "#");
    append_str(&mut name, u.discriminator.as_str());
    append_str(&mut name, " (");
    push_decimal(&mut name, u.id as u128);
    append_str(&mut name, ")");
    match &u.avatar {
        Some(h) => {
            append_str(&mut url, AVATAR_URL_BASE);
            append_str(&mut url, "/");
            push_decimal(&mut url, u.id as u128);
            append_str(&mut url, "/");
            append_str(&mut url, h.as_str());
            append_str(&mut url, ".webp?size=128");
        },
        None => {
            append_str(&mut url, STATIC_BASE);
            append_str(&mut url, "/avatars/");
            let d = default_avatar_id(u.id);
            push_decimal(&mut url, d as u128);
            append_str(&mut url, ".png");
        },
    }
    assert(name@ =~= user_name(u));
    assert(url@ =~= user_icon_url(u));
    (string_of(name.as_slice()), string_of(url.as_slice()))
}

fn author_parts(created_by: &BountyAuthor) -> (r: (String, String))
    ensures
        r.0@ == author_name(created_by),
        r.1@ == author_icon_url(created_by),
{
    match created_by {
        BountyAuthor::Known(u) => user_parts(u),
        BountyAuthor::Unknown(id) => {
            let mut name: Vec<char> = Vec::new();
            let mut url: Vec<char> = Vec::new();
            push_decimal(&mut name, *id as u128);
            append_str(&mut url, STATIC_BASE);
            append_str(&mut url, "/avatars/0.png");
            assert(url@ =~= author_icon_url(created_by));
            (string_of(name.as_slice()), string_of(url.as_slice()))
        },
    }
}

fn title_of(content: &BountySubmissionContent) -> (r: String)
    ensures
        r@ == message_title(content@),
{
    match content.get(BountyInfoKey::Title) {
        Some(t) => t,
        None => String::from_str("*No title*"),
    }
}

/// Builds the message that shows a bounty.
///
/// The title is the bounty's title (or a note that it has none). The
/// description lists the other pieces of information in key order, each under
/// a heading (the due date excepted, which is shown from `deadline`), then who
/// is assigned and who queues (in order of joining), the due date if there is
/// one, and the contributions with their total in dollars if there are any.
/// The author is the creator, with their avatar; the footer is the bounty
/// number and state.
pub fn bounty_content_to_message(
    content: &BountySubmissionContent,
    created_by: BountyAuthor,
    format: &BountySubmissionFormat,
    bounty_number: BountyNum,
    created_at: i64,
    state: BountyState,
    assignees: Vec<QueuedBountyAssignee>,
    deadline: Option<i64>,
    stakeholders: Vec<BountyStakeholder>,
) -> (r: BountyMessage)
    ensures
        r.title@ == message_title(content@),
        r.description@ == bounty_description(
            format,
            content@,
            assignees@,
            deadline,
            stakeholders@,
        ),
        r.color == SUBMISSION_PENDING,
        r.author_name@ == author_name(&created_by),
        r.author_icon_url@ == author_icon_url(&created_by),
        r.footer@ == decimal(bounty_number.0 as nat) + " - "@ + state_name(state),
        r.timestamp == created_at,
{
    let sections = content_sections_exec(format, content, true);
    let nl = ['\n'];
    proof {
        assert(nl@ =~= "\n"@) by {
            reveal_strlit("\n");
        }
    }
    let mut d = join_chars(&sections, nl.as_slice());
    append_str(&mut d, "\n===\n");
    append_str(&mut d, "**Assigned to**\n");
    push_assignees(&mut d, &assignees);
    push_deadline(&mut d, deadline);
    push_stakes(&mut d, &stakeholders);
    assert(d@ =~= bounty_description(format, content@, assignees@, deadline, stakeholders@));
    let (name, url) = author_parts(&created_by);
    let mut footer: Vec<char> = Vec::new();
    push_decimal(&mut footer, bounty_number.0 as u128);
    append_str(&mut footer, " - ");
    let state_text = state.name();
    append_str(&mut footer, state_text.as_str());
    BountyMessage {
        title: title_of(content),
        description: string_of(d.as_slice()),
        color: SUBMISSION_PENDING,
        author_name: name,
        author_icon_url: url,
        footer: string_of(footer.as_slice()),
        timestamp: created_at,
    }
}

/// Builds the message that shows a newly submitted bounty in the approval
/// queue: the title, every other piece of information (the due date included)
/// in key order under its heading, the submitter as author, and the bounty
/// number as footer.
pub fn submission_message(
    content: &BountySubmissionContent,
    created_by: &UserInfo,
    format: &BountySubmissionFormat,
    bounty_number: BountyNum,
    created_at: i64,
) -> (r: BountyMessage)
    ensures
        r.title@ == message_title(content@),
        r.description@ == join(content_sections(format, content@, false), "\n"@),
        r.color == SUBMISSION_PENDING,
        r.author_name@ == user_name(created_by),
        r.author_icon_url@ == user_icon_url(created_by),
        r.footer@ == decimal(bounty_number.0 as nat),
        r.timestamp == created_at,
{
    let sections = content_sections_exec(format, content, false);
    let nl = ['\n'];
    proof {
        assert(nl@ =~= "\n"@) by {
            reveal_strlit("\n");
        }
    }
    let d = join_chars(&sections, nl.as_slice());
    let (name, url) = user_parts(created_by);
    let mut footer: Vec<char> = Vec::new();
    push_decimal(&mut footer, bounty_number.0 as u128);
    BountyMessage {
        title: title_of(content),
        description: string_of(d.as_slice()),
        color: SUBMISSION_PENDING,
        author_name: name,
        author_icon_url: url,
        footer: string_of(footer.as_slice()),
        timestamp: created_at,
    }
}

// ---------------------------------------------------------------------------
// Laws of the queue order
// ---------------------------------------------------------------------------

/// Whether entries are in order of joining.
pub open spec fn sorted_by_time(s: Seq<(u64, i64)>) -> bool {
    forall|i: int, j: int| 0 <= i < j < s.len() ==> (#[trigger] s[i]).1 <= (#[trigger] s[j]).1
}

proof fn lemma_insert_props(s: Seq<(u64, i64)>, x: (u64, i64))
    requires
        sorted_by_time(s),
    ensures
        sorted_by_time(insert_by_time(s, x)),
        insert_by_time(s, x).to_multiset() =~= s.to_multiset().insert(x),
    decreases s.len(),
{
    broadcast use vstd::seq_lib::group_to_multiset_ensures;

    if s.len() == 0 {
        assert(seq![x] =~= Seq::<(u64, i64)>::empty().push(x));
    } else if s.last().1 <= x.1 {
    } else {
        let t = s.drop_last();
        let l = s.last();
        assert(sorted_by_time(t)) by {
            assert forall|i: int, j: int| 0 <= i < j < t.len() implies (#[trigger] t[i]).1 <= (
            #[trigger] t[j]).1 by {
                assert(t[i] == s[i] && t[j] == s[j]);
            }
        }
        lemma_insert_props(t, x);
        let u = insert_by_time(t, x);
        assert(t.push(l) =~= s);
        assert forall|e: (u64, i64)| u.contains(e) implies e.1 <= l.1 by {
            assert(u.to_multiset().count(e) > 0);
            if e != x {
                assert(t.to_multiset().count(e) > 0);
                assert(t.contains(e));
                let i = choose|i: int| 0 <= i < t.len() && t[i] == e;
                assert(s[i] == e);
                assert(s[s.len() - 1] == l);
            }
        }
        assert forall|i: int, j: int| 0 <= i < j < u.push(l).len() implies (#[trigger] u.push(l)[i]).1
            <= (#[trigger] u.push(l)[j]).1 by {
            if j == u.len() {
                assert(u.contains(u[i]));
            } else {
                assert(u.push(l)[i] == u[i] && u.push(l)[j] == u[j]);
            }
        }
    }
}

/// The queue as shown is in order of joining, and holds exactly the entries of
/// the queue it was given.
pub proof fn law_queue_order(q: Seq<(u64, i64)>)
    ensures
        sorted_by_time(sort_by_time(q)),
        sort_by_time(q).to_multiset() =~= q.to_multiset(),
    decreases q.len(),
{
    broadcast use vstd::seq_lib::group_to_multiset_ensures;

    if q.len() > 0 {
        law_queue_order(q.drop_last());
        lemma_insert_props(sort_by_time(q.drop_last()), q.last());
        assert(q.drop_last().push(q.last()) =~= q);
    }
}

} // verus!
