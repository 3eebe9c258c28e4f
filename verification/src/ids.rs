//! Reading user and channel references out of command arguments.
use vstd::prelude::*;
use crate::text::{
    all_digits, decimal, is_digit, is_trimmed, is_ws, lemma_decimal_digits, lemma_parse_decimal,
    lemma_trimmed_fixed, lemma_trim_start_skip, lemma_trim_ignores_outer_ws, chars_of, ends_with, has_prefix, has_suffix, parse_u64, slice_chars, starts_with, string_of,
    trim, trim_chars, trim_start, views,
};
use fluxer_neptunium::model::id::marker::{GenericMarker, UserMarker};
use fluxer_neptunium::model::id::Id;
use fluxer_neptunium::exts::UserExt;

verus! {

/// Parses a snowflake ID by calling fluxer-neptunium's `Id::try_from(&str)`,
/// whose body is `value.parse()` into a `u64`: std documents that this accepts
/// an optional `+` followed by one or more ASCII digits whose value fits in 64
/// bits, and refuses anything else.
#[verifier::external_body]
pub(crate) fn parse_id(s: &str) -> (r: Option<u64>)
    ensures
        r == parse_u64(s@),
{
    Id::<GenericMarker>::try_from(s).ok().map(Id::into_inner)
}

/// The default avatar of a user, by calling fluxer-neptunium's
/// `UserExt::get_default_avatar_id` on the user ID, whose body is
/// `(id % 6) as u8`.
#[verifier::external_body]
pub(crate) fn default_avatar_id(user_id: u64) -> (r: u8)
    ensures
        r as int == user_id as int % 6,
{
    Id::<UserMarker>::new(user_id).get_default_avatar_id()
}

/// The text inside a mention `<@...>`: what follows `<@` in the text with leading
/// whitespace removed, when that ends with `>`, without the `>`.
pub open spec fn mention_inner(s: Seq<char>) -> Option<Seq<char>> {
    let t = trim_start(s);
    if starts_with(t, seq!['<', '@']) && ends_with(t.skip(2), seq!['>']) {
        Some(t.skip(2).drop_last())
    } else {
        None
    }
}

/// The user that `s` names: the ID inside a mention `<@ID>`, or else `s` read
/// as an ID.
pub open spec fn mention_or_id(s: Seq<char>) -> Option<u64> {
    match mention_inner(s) {
        Some(inner) => parse_u64(inner),
        None => parse_u64(s),
    }
}

fn trim_start_chars(s: &[char]) -> (r: Vec<char>)
    ensures
        r@ == trim_start(s@),
{
    let mut i: usize = 0;
    assert(s@.skip(0) =~= s@);
    while i < s.len() && crate::text::is_whitespace(s[i])
        invariant
            i <= s.len(),
            trim_start(s@) == trim_start(s@.skip(i as int)),
        decreases s.len() - i,
    {
        assert(s@.skip(i as int).drop_first() =~= s@.skip(i + 1));
        i = i + 1;
    }
    if i < s.len() {
        assert(trim_start(s@.skip(i as int)) == s@.skip(i as int));
    } else {
        assert(s@.skip(i as int) =~= Seq::<char>::empty());
    }
    slice_chars(s, i, s.len())
}

/// Reads a user reference: a mention `<@ID>` (after leading whitespace) or a
/// plain ID.
pub fn parse_mention_or_id(input: &str) -> (r: Option<u64>)
    ensures
        r == mention_or_id(input@),
{
    let s = chars_of(input);
    let t = trim_start_chars(s.as_slice());
    let open = ['<', '@'];
    let close = ['>'];
    assert(open@ =~= seq!['<', '@']);
    assert(close@ =~= seq!['>']);
    if has_prefix(t.as_slice(), open.as_slice()) {
        let rest = slice_chars(t.as_slice(), 2, t.len());
        assert(rest@ =~= t@.skip(2));
        if has_suffix(rest.as_slice(), close.as_slice()) {
            let inner = slice_chars(rest.as_slice(), 0, rest.len() - 1);
            assert(inner@ =~= rest@.drop_last());
            return parse_id(string_of(inner.as_slice()).as_str());
        }
    }
    parse_id(input)
}

/// The non-empty pieces of `s` between slashes, given the unfinished piece `cur`.
pub open spec fn segments_acc(s: Seq<char>, cur: Seq<char>) -> Seq<Seq<char>>
    decreases s.len(),
{
    let done = if cur.len() == 0 {
        seq![]
    } else {
        seq![cur]
    };
    if s.len() == 0 {
        done
    } else if s[0] == '/' {
        done + segments_acc(s.drop_first(), seq![])
    } else {
        segments_acc(s.drop_first(), cur.push(s[0]))
    }
}

/// The non-empty pieces of `s` between slashes, in order.
pub open spec fn segments(s: Seq<char>) -> Seq<Seq<char>> {
    segments_acc(s, seq![])
}

/// The channel (and community) that `s` names: a channel mention `<#ID>`, a
/// plain channel ID, or a link whose last two path pieces are the community ID
/// and the channel ID. Surrounding whitespace is ignored.
pub open spec fn channel_reference(s: Seq<char>) -> Option<(Option<u64>, u64)> {
    let t = trim(s);
    if starts_with(t, seq!['<', '#']) {
        let rest = t.skip(2);
        if ends_with(rest, seq!['>']) && parse_u64(rest.drop_last()) is Some {
            Some((None, parse_u64(rest.drop_last())->0))
        } else {
            None
        }
    } else if parse_u64(t) is Some {
        Some((None, parse_u64(t)->0))
    } else {
        let parts = segments(t);
        if parts.len() < 2 {
            None
        } else {
            match (parse_u64(parts[parts.len() - 2]), parse_u64(parts[parts.len() - 1])) {
                (Some(g), Some(c)) => Some((Some(g), c)),
                _ => None,
            }
        }
    }
}

fn split_segments(s: &[char]) -> (r: Vec<Vec<char>>)
    ensures
        views(r@) == segments(s@),
{
    let mut out: Vec<Vec<char>> = Vec::new();
    let mut cur: Vec<char> = Vec::new();
    let mut i: usize = 0;
    assert(s@.skip(0) =~= s@);
    while i < s.len()
        invariant
            i <= s.len(),
            segments(s@) == views(out@) + segments_acc(s@.skip(i as int), cur@),
        decreases s.len() - i,
    {
        let c = s[i];
        let ghost rest = s@.skip(i as int);
        assert(rest[0] == c);
        assert(rest.drop_first() =~= s@.skip(i + 1));
        if c == '/' {
            let ghost before = views(out@);
            let ghost cv = cur@;
            if cur.len() > 0 {
                out.push(cur);
                assert(views(out@) =~= before + seq![cv]);
            } else {
                assert(views(out@) =~= before + Seq::<Seq<char>>::empty());
            }
            cur = Vec::new();
            assert(cur@ =~= Seq::<char>::empty());
        } else {
            cur.push(c);
        }
        i = i + 1;
    }
    assert(s@.skip(i as int) =~= Seq::<char>::empty());
    let ghost before = views(out@);
    let ghost cv = cur@;
    if cur.len() > 0 {
        out.push(cur);
        assert(views(out@) =~= before + seq![cv]);
    } else {
        assert(views(out@) =~= before + Seq::<Seq<char>>::empty());
    }
    out
}

/// Reads a channel reference: a channel mention `<#ID>`, a plain channel ID, or
/// a link ending in `/<community ID>/<channel ID>` (empty path pieces ignored).
/// Gives the community ID only for links.
pub fn parse_channel_mention_or_id_or_link(input: &str) -> (r: Option<(Option<u64>, u64)>)
    ensures
        r == channel_reference(input@),
{
    let s = chars_of(input);
    let t = trim_chars(s.as_slice());
    let t_str = string_of(t.as_slice());
    let open = ['<', '#'];
    let close = ['>'];
    assert(open@ =~= seq!['<', '#']);
    assert(close@ =~= seq!['>']);
    if has_prefix(t.as_slice(), open.as_slice()) {
        let rest = slice_chars(t.as_slice(), 2, t.len());
        assert(rest@ =~= t@.skip(2));
        if has_suffix(rest.as_slice(), close.as_slice()) {
            let inner = slice_chars(rest.as_slice(), 0, rest.len() - 1);
            assert(inner@ =~= rest@.drop_last());
            match parse_id(string_of(inner.as_slice()).as_str()) {
                Some(id) => Some((None, id)),
                None => None,
            }
        } else {
            None
        }
    } else if let Some(id) = parse_id(t_str.as_str()) {
        Some((None, id))
    } else {
        let parts = split_segments(t.as_slice());
        if parts.len() < 2 {
            None
        } else {
            let n = parts.len();
            let guild = parse_id(string_of(parts[n - 2].as_slice()).as_str());
            let channel = parse_id(string_of(parts[n - 1].as_slice()).as_str());
            match (guild, channel) {
                (Some(g), Some(c)) => Some((Some(g), c)),
                _ => None,
            }
        }
    }
}

// ---------------------------------------------------------------------------
// Laws
// ---------------------------------------------------------------------------

proof fn lemma_digit_not_ws_or_sign(n: nat)
    ensures
        decimal(n).len() > 0,
        !is_ws(decimal(n)[0]),
        !is_ws(decimal(n).last()),
        decimal(n)[0] != '<',
        forall|i: int| 0 <= i < decimal(n).len() ==> decimal(n)[i] != '/',
{
    lemma_decimal_digits(n);
    let d = decimal(n);
    assert(is_digit(d[0]));
    assert(is_digit(d[d.len() - 1]));
    assert forall|i: int| 0 <= i < d.len() implies d[i] != '/' by {
        assert(is_digit(d[i]));
    }
}

/// A user mention, after any leading whitespace, and a plain user ID are read
/// back as that user.
pub proof fn law_user_mention_roundtrip(lead: Seq<char>, id: u64)
    requires
        forall|j: int| 0 <= j < lead.len() ==> is_ws(#[trigger] lead[j]),
    ensures
        mention_or_id(lead + "<@"@ + decimal(id as nat) + ">"@) == Some(id),
        mention_or_id(decimal(id as nat)) == Some(id),
{
    reveal_strlit("<@");
    reveal_strlit(">");
    lemma_parse_decimal(id);
    lemma_digit_not_ws_or_sign(id as nat);
    let d = decimal(id as nat);
    let m = "<@"@ + d + ">"@;
    let x = lead + "<@"@ + d + ">"@;
    assert(x =~= lead + m);
    assert forall|j: int| 0 <= j < lead.len() implies is_ws(#[trigger] x[j]) by {
        assert(x[j] == lead[j]);
    }
    lemma_trim_start_skip(x, lead.len() as int);
    assert(x.skip(lead.len() as int) =~= m);
    assert(trim_start(m) == m);
    assert(m.take(2) =~= seq!['<', '@']);
    assert(m.skip(2) =~= d + seq!['>']);
    assert((d + seq!['>']).skip((d + seq!['>']).len() - 1) =~= seq!['>']);
    assert((d + seq!['>']).drop_last() =~= d);
    assert(trim_start(d) == d);
    assert(!starts_with(d, seq!['<', '@'])) by {
        if starts_with(d, seq!['<', '@']) {
            assert(d.take(2)[0] == '<');
        }
    }
}

/// A channel mention, and a plain channel ID, are read back as that channel
/// (with no community).
pub proof fn law_channel_mention_roundtrip(id: u64)
    ensures
        channel_reference("<#"@ + decimal(id as nat) + ">"@) == Some((None::<u64>, id)),
        channel_reference(decimal(id as nat)) == Some((None::<u64>, id)),
{
    reveal_strlit("<#");
    reveal_strlit(">");
    lemma_parse_decimal(id);
    lemma_digit_not_ws_or_sign(id as nat);
    let d = decimal(id as nat);
    let m = "<#"@ + d + ">"@;
    assert(is_trimmed(m));
    lemma_trimmed_fixed(m);
    assert(m.take(2) =~= seq!['<', '#']);
    assert(m.skip(2) =~= d + seq!['>']);
    assert((d + seq!['>']).skip((d + seq!['>']).len() - 1) =~= seq!['>']);
    assert((d + seq!['>']).drop_last() =~= d);
    assert(is_trimmed(d));
    lemma_trimmed_fixed(d);
    assert(!starts_with(d, seq!['<', '#'])) by {
        if starts_with(d, seq!['<', '#']) {
            assert(d.take(2)[0] == '<');
        }
    }
}

/// Whitespace around a channel reference is ignored.
pub proof fn law_channel_reference_ignores_outer_whitespace(w1: Seq<char>, s: Seq<char>, w2: Seq<char>)
    requires
        forall|j: int| 0 <= j < w1.len() ==> is_ws(#[trigger] w1[j]),
        forall|j: int| 0 <= j < w2.len() ==> is_ws(#[trigger] w2[j]),
    ensures
        channel_reference(w1 + s + w2) == channel_reference(s),
{
    lemma_trim_ignores_outer_ws(w1, s, w2);
}

proof fn lemma_segments_of_slashes(t: Seq<char>)
    requires
        forall|i: int| 0 <= i < t.len() ==> t[i] == '/',
    ensures
        segments_acc(t, seq![]) == Seq::<Seq<char>>::empty(),
    decreases t.len(),
{
    if t.len() > 0 {
        lemma_segments_of_slashes(t.drop_first());
        assert(segments_acc(t, seq![]) =~= Seq::<Seq<char>>::empty() + segments_acc(t.drop_first(), seq![]));
    }
}

proof fn lemma_segments_trailing_slashes(x: Seq<char>, cur: Seq<char>, t: Seq<char>)
    requires
        forall|i: int| 0 <= i < t.len() ==> t[i] == '/',
    ensures
        segments_acc(x + t, cur) == segments_acc(x, cur),
    decreases x.len(),
{
    if x.len() == 0 {
        assert(x + t =~= t);
        if t.len() > 0 {
            lemma_segments_of_slashes(t.drop_first());
            let done = if cur.len() == 0 { Seq::<Seq<char>>::empty() } else { seq![cur] };
            assert(segments_acc(t, cur) == done + segments_acc(t.drop_first(), seq![]));
            assert(done + Seq::<Seq<char>>::empty() =~= done);
        }
    } else {
        assert((x + t)[0] == x[0]);
        assert((x + t).drop_first() =~= x.drop_first() + t);
        if x[0] == '/' {
            lemma_segments_trailing_slashes(x.drop_first(), seq![], t);
        } else {
            lemma_segments_trailing_slashes(x.drop_first(), cur.push(x[0]), t);
        }
    }
}

proof fn lemma_segments_plain(b: Seq<char>, cur: Seq<char>)
    requires
        forall|i: int| 0 <= i < b.len() ==> b[i] != '/',
        (cur + b).len() > 0,
    ensures
        segments_acc(b, cur) == seq![cur + b],
    decreases b.len(),
{
    if b.len() == 0 {
        assert(cur + b =~= cur);
    } else {
        lemma_segments_plain(b.drop_first(), cur.push(b[0]));
        assert(cur.push(b[0]) + b.drop_first() =~= cur + b);
    }
}

proof fn lemma_segments_append(a: Seq<char>, cur: Seq<char>, b: Seq<char>)
    requires
        b.len() > 0,
        forall|i: int| 0 <= i < b.len() ==> b[i] != '/',
    ensures
        segments_acc(a + seq!['/'] + b, cur) == segments_acc(a, cur) + seq![b],
    decreases a.len(),
{
    let s = a + seq!['/'] + b;
    if a.len() == 0 {
        assert(s[0] == '/');
        assert(s.drop_first() =~= b);
        lemma_segments_plain(b, seq![]);
        assert(Seq::<char>::empty() + b =~= b);
    } else {
        assert(s.drop_first() =~= a.drop_first() + seq!['/'] + b);
        assert(s[0] == a[0]);
        if a[0] == '/' {
            lemma_segments_append(a.drop_first(), seq![], b);
        } else {
            lemma_segments_append(a.drop_first(), cur.push(a[0]), b);
        }
    }
}

/// A link whose path ends in `/<community ID>/<channel ID>`, possibly followed
/// by slashes, is read as that channel of that community, whatever comes before
/// (as long as it does not start with whitespace, which is ignored, see
/// `law_channel_reference_ignores_outer_whitespace`, or with a channel
/// mention's `<#`).
pub proof fn law_channel_link(prefix: Seq<char>, guild: u64, channel: u64, tail: Seq<char>)
    requires
        prefix.len() == 0 || !is_ws(prefix[0]),
        !starts_with(prefix + seq!['/'], seq!['<', '#']),
        forall|i: int| 0 <= i < tail.len() ==> tail[i] == '/',
    ensures
        channel_reference(prefix + seq!['/'] + decimal(guild as nat) + seq!['/'] + decimal(
            channel as nat,
        ) + tail) == Some((Some(guild), channel)),
{
    lemma_parse_decimal(guild);
    lemma_parse_decimal(channel);
    lemma_digit_not_ws_or_sign(guild as nat);
    lemma_digit_not_ws_or_sign(channel as nat);
    let g = decimal(guild as nat);
    let c = decimal(channel as nat);
    let head = prefix + seq!['/'] + g;
    let base = head + seq!['/'] + c;
    let link = base + tail;
    assert(link =~= prefix + seq!['/'] + g + seq!['/'] + c + tail);
    assert(link.last() == c.last() || link.last() == '/') by {
        if tail.len() > 0 {
            assert(link.last() == tail.last());
        } else {
            assert(link.last() == c.last());
        }
    }
    assert(link[0] == (prefix + seq!['/'])[0]);
    assert(is_trimmed(link));
    lemma_trimmed_fixed(link);
    assert(!starts_with(link, seq!['<', '#'])) by {
        if starts_with(link, seq!['<', '#']) {
            assert((prefix + seq!['/']).len() >= 1);
            if prefix.len() == 0 {
                assert(link[1] == g[0]);
                assert(link.take(2)[1] == '#');
                lemma_decimal_digits(guild as nat);
                assert(is_digit(g[0]));
            } else {
                assert(link[0] == prefix[0]);
                assert(link[1] == (prefix + seq!['/'])[1]);
                assert((prefix + seq!['/']).take(2) =~= link.take(2));
            }
        }
    }
    assert(parse_u64(link) is None) by {
        let at = (prefix + seq!['/'] + g).len() as int;
        assert(link[at] == '/');
        if link.len() > 0 && link[0] == '+' {
            let t = link.drop_first();
            assert(t[at - 1] == '/');
            assert(!is_digit(t[at - 1]));
            assert(!all_digits(t));
        } else {
            assert(!is_digit(link[at]));
            assert(!all_digits(link));
        }
    }
    lemma_segments_trailing_slashes(base, seq![], tail);
    lemma_segments_append(head, seq![], c);
    lemma_segments_append(prefix, seq![], g);
    assert(segments(link) == segments(prefix) + seq![g] + seq![c]);
    let parts = segments(link);
    assert(parts[parts.len() - 2] == g);
    assert(parts[parts.len() - 1] == c);
}

} // verus!
