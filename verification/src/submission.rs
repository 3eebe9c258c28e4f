//! Reading bounty submissions out of chat messages.
use vstd::prelude::*;
use crate::model::{
    string_views, BountyInfoKey, BountySubmissionContent, BountySubmissionFormat, KEY_COUNT,
    empty_slots,
};
use crate::text::{
    chars_of, is_trimmed, lemma_trim_is_trimmed, lemma_trimmed_fixed, lemma_trim_drop_last_ws,
    lemma_lines_after_newline, lemma_lines_within_line, strip_cr, lines_acc, trim_start, trim_end, lowercase, string_of, to_lowercase, has_prefix, join, join_chars, lines, slice_chars, split_lines, starts_with, trim, trim_chars, views,
};

verus! {

/// The marker that opens a section: two hashes and a space.
pub open spec fn marker() -> Seq<char> {
    seq!['#', '#', ' ']
}

/// Whether a line opens a section: once trimmed, it starts with the marker.
pub open spec fn is_header(line: Seq<char>) -> bool {
    starts_with(trim(line), marker())
}

/// The title of a section opened by `line`: the trimmed text after the marker.
pub open spec fn header_title(line: Seq<char>) -> Seq<char> {
    trim(trim(line).skip(3))
}

/// A section with a title and the lines of its body collected so far.
pub type OpenSection = Option<(Seq<char>, Seq<Seq<char>>)>;

/// The finished form of an open section: its title, and its body lines joined
/// by newlines and trimmed.
pub open spec fn close_section(cur: OpenSection) -> Seq<(Seq<char>, Seq<char>)> {
    match cur {
        None => seq![],
        Some((t, b)) => seq![(t, trim(join(b, seq!['\n'])))],
    }
}

/// The sections found in `ls`, given the section currently open. Every header
/// line opens a new section; every other line belongs to the open section, and
/// lines before the first header belong to none.
pub open spec fn sections_acc(ls: Seq<Seq<char>>, cur: OpenSection) -> Seq<(Seq<char>, Seq<char>)>
    decreases ls.len(),
{
    if ls.len() == 0 {
        close_section(cur)
    } else if is_header(ls[0]) {
        close_section(cur) + sections_acc(ls.drop_first(), Some((header_title(ls[0]), seq![])))
    } else {
        match cur {
            None => sections_acc(ls.drop_first(), None),
            Some((t, b)) => sections_acc(ls.drop_first(), Some((t, b.push(ls[0])))),
        }
    }
}

/// The sections of a text, in order: pairs of title and body.
pub open spec fn sections(text: Seq<char>) -> Seq<(Seq<char>, Seq<char>)> {
    sections_acc(lines(text), None)
}

/// The character sequences of a vector of pairs of character vectors.
pub open spec fn pair_views(v: Seq<(Vec<char>, Vec<char>)>) -> Seq<(Seq<char>, Seq<char>)> {
    v.map_values(|p: (Vec<char>, Vec<char>)| (p.0@, p.1@))
}

/// The view of the section that the parser holds open.
pub open spec fn open_view(title: Option<Vec<char>>, body: Seq<Vec<char>>) -> OpenSection {
    match title {
        None => None,
        Some(t) => Some((t@, views(body))),
    }
}

fn close_exec(out: &mut Vec<(Vec<char>, Vec<char>)>, title: Option<Vec<char>>, body: &Vec<Vec<char>>)
    ensures
        pair_views(final(out)@) == pair_views(old(out)@) + close_section(open_view(title, body@)),
{
    match title {
        None => {
            assert(pair_views(out@) =~= pair_views(out@) + Seq::<(Seq<char>, Seq<char>)>::empty());
        },
        Some(t) => {
            let nl = ['\n'];
            let joined = join_chars(body, nl.as_slice());
            assert(nl@ =~= seq!['\n']);
            let trimmed = trim_chars(joined.as_slice());
            let ghost before = pair_views(out@);
            let ghost tv = t@;
            out.push((t, trimmed));
            assert(pair_views(out@) =~= before + seq![(tv, trim(join(views(body@), seq!['\n'])))]);
        },
    }
}

/// Splits a text into its sections of title and body.
pub fn split_sections(text: &[char]) -> (r: Vec<(Vec<char>, Vec<char>)>)
    ensures
        pair_views(r@) == sections(text@),
{
    let ls = split_lines(text);
    let marker_chars = ['#', '#', ' '];
    assert(marker_chars@ =~= marker());
    let mut out: Vec<(Vec<char>, Vec<char>)> = Vec::new();
    let mut title: Option<Vec<char>> = None;
    let mut body: Vec<Vec<char>> = Vec::new();
    let mut i: usize = 0;
    assert(views(ls@).skip(0) =~= views(ls@));
    while i < ls.len()
        invariant
            i <= ls.len(),
            views(ls@) == lines(text@),
            marker_chars@ == marker(),
            title is None ==> body@.len() == 0,
            sections(text@) == pair_views(out@) + sections_acc(
                views(ls@).skip(i as int),
                open_view(title, body@),
            ),
        decreases ls.len() - i,
    {
        let ghost rest = views(ls@).skip(i as int);
        assert(rest[0] == ls@[i as int]@);
        assert(rest.drop_first() =~= views(ls@).skip(i + 1));
        let line = &ls[i];
        let trimmed = trim_chars(line.as_slice());
        if has_prefix(trimmed.as_slice(), marker_chars.as_slice()) {
            let ghost before = pair_views(out@);
            let ghost old_open = open_view(title, body@);
            close_exec(&mut out, title, &body);
            let after = slice_chars(trimmed.as_slice(), 3, trimmed.len());
            assert(after@ =~= trim(ls@[i as int]@).skip(3));
            let new_title = trim_chars(after.as_slice());
            title = Some(new_title);
            body = Vec::new();
            assert(open_view(title, body@) =~= Some(
                (header_title(ls@[i as int]@), Seq::<Seq<char>>::empty()),
            ));
            assert(pair_views(out@) + sections_acc(views(ls@).skip(i + 1), open_view(title, body@))
                =~= before + (close_section(old_open) + sections_acc(
                views(ls@).skip(i + 1),
                open_view(title, body@),
            )));
        } else {
            match title {
                None => {},
                Some(_) => {
                    let ghost old_body = views(body@);
                    body.push(line.clone());
                    assert(views(body@) =~= old_body.push(ls@[i as int]@));
                },
            }
        }
        i = i + 1;
    }
    assert(views(ls@).skip(i as int) =~= Seq::<Seq<char>>::empty());
    let ghost before = pair_views(out@);
    close_exec(&mut out, title, &body);
    out
}

/// The section titles of each key, lowercased, by key position.
pub open spec fn lower_titles(format: &BountySubmissionFormat) -> Seq<Seq<Seq<char>>> {
    Seq::new(
        KEY_COUNT as nat,
        |k: int| format.title_views()[k].map_values(|t: Seq<char>| lowercase(t)),
    )
}

/// The first key position, from `k` on, whose titles contain `t`.
pub open spec fn key_from(lt: Seq<Seq<Seq<char>>>, t: Seq<char>, k: int) -> Option<int>
    decreases lt.len() - k,
{
    if k < 0 || k >= lt.len() {
        None
    } else if lt[k].contains(t) {
        Some(k)
    } else {
        key_from(lt, t, k + 1)
    }
}

/// The key a section belongs to: the first key (in display order) one of whose
/// titles equals the section title, ignoring case.
pub open spec fn section_key(lt: Seq<Seq<Seq<char>>>, title: Seq<char>) -> Option<int> {
    key_from(lt, lowercase(title), 0)
}

/// The content that the sections give, in order: each section that belongs to a
/// key sets that key's text to its body, replacing what an earlier one set.
pub open spec fn assign(lt: Seq<Seq<Seq<char>>>, secs: Seq<(Seq<char>, Seq<char>)>) -> Seq<
    Option<Seq<char>>,
>
    decreases secs.len(),
{
    if secs.len() == 0 {
        empty_slots()
    } else {
        let prev = assign(lt, secs.drop_last());
        match section_key(lt, secs.last().0) {
            Some(k) => prev.update(k, Some(secs.last().1)),
            None => prev,
        }
    }
}

/// The content of a submission written in `text` under `format`.
pub open spec fn submission_content(format: &BountySubmissionFormat, text: Seq<char>) -> Seq<
    Option<Seq<char>>,
> {
    assign(lower_titles(format), sections(text))
}

/// The title table of a vector of title lists.
pub open spec fn table_view(lt: Seq<Vec<String>>) -> Seq<Seq<Seq<char>>> {
    Seq::new(lt.len(), |k: int| string_views(lt[k]@))
}

fn contains_string(v: &Vec<String>, t: &String) -> (r: bool)
    ensures
        r == string_views(v@).contains(t@),
{
    let mut j: usize = 0;
    while j < v.len()
        invariant
            j <= v.len(),
            forall|i: int| 0 <= i < j ==> string_views(v@)[i] != t@,
        decreases v.len() - j,
    {
        if v[j] == *t {
            assert(string_views(v@)[j as int] == t@);
            return true;
        }
        j = j + 1;
    }
    false
}

fn find_key(lt: &Vec<Vec<String>>, t: &String) -> (r: Option<usize>)
    ensures
        match r {
            Some(k) => key_from(table_view(lt@), t@, 0) == Some(k as int),
            None => key_from(table_view(lt@), t@, 0) is None,
        },
        r matches Some(k) ==> k < lt@.len(),
{
    let ghost tv = table_view(lt@);
    let mut k: usize = 0;
    while k < lt.len()
        invariant
            k <= lt.len(),
            tv == table_view(lt@),
            key_from(tv, t@, 0) == key_from(tv, t@, k as int),
        decreases lt.len() - k,
    {
        if contains_string(&lt[k], t) {
            return Some(k);
        }
        k = k + 1;
    }
    None
}

fn lower_title_table(format: &BountySubmissionFormat) -> (lt: Vec<Vec<String>>)
    ensures
        table_view(lt@) == lower_titles(format),
        lt@.len() == KEY_COUNT,
{
    let mut lt: Vec<Vec<String>> = Vec::new();
    let mut k: usize = 0;
    while k < KEY_COUNT
        invariant
            k <= KEY_COUNT,
            lt@.len() == k,
            forall|kk: int| 0 <= kk < k ==> #[trigger] string_views(lt@[kk]@) == lower_titles(
                format,
            )[kk],
        decreases KEY_COUNT - k,
    {
        let ts = &format.titles[k];
        let mut row: Vec<String> = Vec::new();
        let mut j: usize = 0;
        while j < ts.len()
            invariant
                j <= ts.len(),
                k < KEY_COUNT,
                ts == format.titles@[k as int],
                string_views(row@) == lower_titles(format)[k as int].take(j as int),
            decreases ts.len() - j,
        {
            let low = to_lowercase(ts[j].as_str());
            assert(format.title_views()[k as int] == string_views(ts@));
            assert(lower_titles(format)[k as int][j as int] == lowercase(ts@[j as int]@));
            assert(lower_titles(format)[k as int].len() == ts@.len());
            let ghost old_row = string_views(row@);
            row.push(low);
            assert(string_views(row@) =~= old_row.push(lowercase(ts@[j as int]@)));
            assert(string_views(row@) =~= lower_titles(format)[k as int].take(j + 1));
            j = j + 1;
        }
        assert(format.title_views()[k as int] == string_views(ts@));
        assert(lower_titles(format)[k as int].take(j as int) =~= lower_titles(format)[k as int]);
        lt.push(row);
        k = k + 1;
    }
    assert(table_view(lt@) =~= lower_titles(format));
    lt
}

/// The content that sections give when their titles are compared as they
/// stand (both sides already lowercased): each section whose title is among a
/// key's titles sets the text of the first such key, replacing what an earlier
/// one set.
pub open spec fn assign_lowered(
    lt: Seq<Seq<Seq<char>>>,
    secs: Seq<(Seq<char>, Seq<char>)>,
) -> Seq<Option<Seq<char>>>
    decreases secs.len(),
{
    if secs.len() == 0 {
        empty_slots()
    } else {
        let prev = assign_lowered(lt, secs.drop_last());
        match key_from(lt, secs.last().0, 0) {
            Some(k) => prev.update(k, Some(secs.last().1)),
            None => prev,
        }
    }
}

/// Sections with their titles lowercased.
pub open spec fn lowered_sections(secs: Seq<(Seq<char>, Seq<char>)>) -> Seq<(Seq<char>, Seq<char>)> {
    secs.map_values(|p: (Seq<char>, Seq<char>)| (lowercase(p.0), p.1))
}

/// The character sequences of a vector of pairs of strings.
pub open spec fn string_pair_views(v: Seq<(String, String)>) -> Seq<(Seq<char>, Seq<char>)> {
    v.map_values(|p: (String, String)| (p.0@, p.1@))
}

proof fn lemma_assign_lowered(lt: Seq<Seq<Seq<char>>>, secs: Seq<(Seq<char>, Seq<char>)>)
    ensures
        assign(lt, secs) == assign_lowered(lt, lowered_sections(secs)),
    decreases secs.len(),
{
    if secs.len() > 0 {
        lemma_assign_lowered(lt, secs.drop_last());
        assert(lowered_sections(secs).drop_last() =~= lowered_sections(secs.drop_last()));
        assert(lowered_sections(secs).last() == (lowercase(secs.last().0), secs.last().1));
    }
}

/// Reads the content out of sections against a table of titles by key position,
/// comparing titles exactly as given (the caller lowercases both sides to
/// ignore case): each section whose title is among a key's titles sets the text
/// of the first such key, and a later section for a key replaces an earlier one.
pub fn assign_sections(table: &Vec<Vec<String>>, sections: &Vec<(String, String)>) -> (r:
    BountySubmissionContent)
    requires
        table@.len() == KEY_COUNT,
    ensures
        r@ == assign_lowered(table_view(table@), string_pair_views(sections@)),
{
    let ghost ltv = table_view(table@);
    let ghost sv = string_pair_views(sections@);
    let mut result = BountySubmissionContent::new();
    let mut i: usize = 0;
    assert(sv.take(0) =~= Seq::<(Seq<char>, Seq<char>)>::empty());
    while i < sections.len()
        invariant
            i <= sections.len(),
            sv == string_pair_views(sections@),
            ltv == table_view(table@),
            table@.len() == KEY_COUNT,
            result@ == assign_lowered(ltv, sv.take(i as int)),
        decreases sections.len() - i,
    {
        let ghost taken = sv.take(i + 1);
        assert(taken.drop_last() =~= sv.take(i as int));
        assert(taken.last() == (sections@[i as int].0@, sections@[i as int].1@));
        let ghost prev = result@;
        match find_key(table, &sections[i].0) {
            Some(k) => {
                let body = sections[i].1.clone();
                result.insert(BountyInfoKey::from_index(k), body);
                assert(result@ == prev.update(k as int, Some(taken.last().1)));
            },
            None => {},
        }
        assert(result@ == assign_lowered(ltv, taken));
        i = i + 1;
    }
    assert(sv.take(sections.len() as int) =~= sv);
    result
}

/// Reads the content of a bounty submission out of a message text.
///
/// A section starts at a line that, trimmed, begins with `"## "`; its title is
/// the rest of that line, trimmed, and its body is the text of the following
/// lines up to the next such line, trimmed. A section whose title matches one
/// of a key's titles, ignoring case, sets that key's text (the first key that
/// matches wins; a later section for the same key replaces an earlier one).
/// Does not check that the required keys are present.
pub fn parse_message_content_as_submission(format: &BountySubmissionFormat, content: &str) -> (r:
    BountySubmissionContent)
    ensures
        r@ == submission_content(format, content@),
{
    let lt = lower_title_table(format);
    let text = chars_of(content);
    let secs = split_sections(text.as_slice());
    let ghost sv = pair_views(secs@);
    let mut lowered: Vec<(String, String)> = Vec::new();
    let mut i: usize = 0;
    while i < secs.len()
        invariant
            i <= secs.len(),
            sv == pair_views(secs@),
            string_pair_views(lowered@) == lowered_sections(sv.take(i as int)),
        decreases secs.len() - i,
    {
        let title = string_of(secs[i].0.as_slice());
        let low = to_lowercase(title.as_str());
        let body = string_of(secs[i].1.as_slice());
        let ghost before = string_pair_views(lowered@);
        lowered.push((low, body));
        assert(string_pair_views(lowered@) =~= before.push((lowercase(sv[i as int].0), sv[i as int].1)));
        assert(lowered_sections(sv.take(i + 1)) =~= lowered_sections(sv.take(i as int)).push(
            (lowercase(sv[i as int].0), sv[i as int].1),
        ));
        i = i + 1;
    }
    assert(sv.take(secs.len() as int) =~= sv);
    proof {
        lemma_assign_lowered(lower_titles(format), sv);
    }
    assign_sections(&lt, &lowered)
}

// ---------------------------------------------------------------------------
// Laws of the parser
// ---------------------------------------------------------------------------

proof fn lemma_close_trimmed(cur: OpenSection)
    ensures
        forall|i: int| 0 <= i < close_section(cur).len() ==> is_trimmed(#[trigger] close_section(cur)[i].1),
{
    match cur {
        Some((t, b)) => {
            lemma_trim_is_trimmed(join(b, seq!['\n']));
            assert(close_section(cur)[0].1 == trim(join(b, seq!['\n'])));
        },
        None => {},
    }
}

proof fn lemma_sections_acc_trimmed(ls: Seq<Seq<char>>, cur: OpenSection)
    ensures
        forall|i: int|
            0 <= i < sections_acc(ls, cur).len() ==> is_trimmed(#[trigger] sections_acc(ls, cur)[i].1),
    decreases ls.len(),
{
    lemma_close_trimmed(cur);
    if ls.len() == 0 {
    } else if is_header(ls[0]) {
        let next = Some((header_title(ls[0]), Seq::<Seq<char>>::empty()));
        lemma_sections_acc_trimmed(ls.drop_first(), next);
        let a = close_section(cur);
        let b = sections_acc(ls.drop_first(), next);
        assert(sections_acc(ls, cur) == a + b);
        assert forall|i: int| 0 <= i < (a + b).len() implies is_trimmed(#[trigger] (a + b)[i].1) by {
            if i >= a.len() {
                assert((a + b)[i] == b[i - a.len()]);
            } else {
                assert((a + b)[i] == a[i]);
            }
        }
    } else {
        match cur {
            None => {
                lemma_sections_acc_trimmed(ls.drop_first(), None);
                assert(sections_acc(ls, cur) == sections_acc(ls.drop_first(), None));
            },
            Some((t, b)) => {
                lemma_sections_acc_trimmed(ls.drop_first(), Some((t, b.push(ls[0]))));
                assert(sections_acc(ls, cur) == sections_acc(ls.drop_first(), Some((t, b.push(ls[0])))));
            },
        }
    }
}

/// Whether some section belongs to key position `k`.
pub open spec fn has_section_for(lt: Seq<Seq<Seq<char>>>, secs: Seq<(Seq<char>, Seq<char>)>, k: int) -> bool {
    exists|i: int| 0 <= i < secs.len() && section_key(lt, #[trigger] secs[i].0) == Some(k)
}

/// Whether section `i` is the last one that belongs to key position `k`.
pub open spec fn last_section_for(
    lt: Seq<Seq<Seq<char>>>,
    secs: Seq<(Seq<char>, Seq<char>)>,
    k: int,
    i: int,
) -> bool {
    &&& 0 <= i < secs.len()
    &&& section_key(lt, secs[i].0) == Some(k)
    &&& forall|j: int| i < j < secs.len() ==> section_key(lt, #[trigger] secs[j].0) != Some(k)
}

proof fn lemma_key_from_range(lt: Seq<Seq<Seq<char>>>, t: Seq<char>, k: int)
    requires
        0 <= k,
    ensures
        key_from(lt, t, k) matches Some(j) ==> k <= j < lt.len(),
    decreases lt.len() - k,
{
    if k < lt.len() && !lt[k].contains(t) {
        lemma_key_from_range(lt, t, k + 1);
    }
}

proof fn lemma_assign_at(lt: Seq<Seq<Seq<char>>>, secs: Seq<(Seq<char>, Seq<char>)>, k: int)
    requires
        0 <= k < KEY_COUNT,
        lt.len() == KEY_COUNT,
    ensures
        assign(lt, secs).len() == KEY_COUNT,
        assign(lt, secs)[k] is Some <==> has_section_for(lt, secs, k),
        assign(lt, secs)[k] is Some ==> exists|i: int|
            last_section_for(lt, secs, k, i) && assign(lt, secs)[k] == Some(#[trigger] secs[i].1),
    decreases secs.len(),
{
    if secs.len() == 0 {
    } else {
        let prev = secs.drop_last();
        let n = secs.len() - 1;
        lemma_assign_at(lt, prev, k);
        assert(secs[n] == secs.last());
        assert forall|j: int| 0 <= j < n implies #[trigger] prev[j] == secs[j] by {}
        let sk = section_key(lt, secs.last().0);
        lemma_key_from_range(lt, lowercase(secs.last().0), 0);
        if sk == Some(k) {
            assert(has_section_for(lt, secs, k));
            assert(last_section_for(lt, secs, k, n));
            assert(assign(lt, secs)[k] == Some(secs[n].1));
        } else {
            assert(assign(lt, secs)[k] == assign(lt, prev)[k]);
            if has_section_for(lt, prev, k) {
                let i = choose|i: int| 0 <= i < prev.len() && section_key(lt, #[trigger] prev[i].0) == Some(k);
                assert(section_key(lt, secs[i].0) == Some(k));
            }
            if has_section_for(lt, secs, k) {
                let i = choose|i: int| 0 <= i < secs.len() && section_key(lt, #[trigger] secs[i].0) == Some(k);
                assert(i != n);
                assert(section_key(lt, prev[i].0) == Some(k));
            }
            if assign(lt, secs)[k] is Some {
                let i = choose|i: int|
                    last_section_for(lt, prev, k, i) && assign(lt, prev)[k] == Some(#[trigger] prev[i].1);
                assert(last_section_for(lt, secs, k, i)) by {
                    assert forall|j: int| i < j < secs.len() implies section_key(lt, #[trigger] secs[j].0)
                        != Some(k) by {
                        if j < n {
                            assert(section_key(lt, prev[j].0) != Some(k));
                        }
                    }
                }
                assert(assign(lt, secs)[k] == Some(secs[i].1));
            }
        }
    }
}

/// Every text that the parser reads out of a submission has no whitespace at
/// either end.
pub proof fn law_parsed_texts_trimmed(format: &BountySubmissionFormat, text: Seq<char>)
    ensures
        forall|k: int|
            0 <= k < KEY_COUNT && #[trigger] submission_content(format, text)[k] is Some
                ==> is_trimmed(submission_content(format, text)[k]->0),
{
    let lt = lower_titles(format);
    let secs = sections(text);
    lemma_sections_acc_trimmed(lines(text), None);
    assert forall|k: int|
        0 <= k < KEY_COUNT && #[trigger] submission_content(format, text)[k] is Some implies is_trimmed(
        submission_content(format, text)[k]->0,
    ) by {
        lemma_assign_at(lt, secs, k);
        let i = choose|i: int|
            last_section_for(lt, secs, k, i) && assign(lt, secs)[k] == Some(#[trigger] secs[i].1);
        assert(is_trimmed(secs[i].1));
    }
}

/// A key gets a text exactly when some section belongs to it, and then the text
/// is the body of the last such section.
pub proof fn law_last_matching_section_wins(format: &BountySubmissionFormat, text: Seq<char>, k: int)
    requires
        0 <= k < KEY_COUNT,
    ensures
        (submission_content(format, text)[k] is Some) <==> has_section_for(
            lower_titles(format),
            sections(text),
            k,
        ),
        submission_content(format, text)[k] is Some ==> exists|i: int|
            last_section_for(lower_titles(format), sections(text), k, i) && submission_content(
                format,
                text,
            )[k] == Some(#[trigger] sections(text)[i].1),
{
    lemma_assign_at(lower_titles(format), sections(text), k);
}

/// Whether two lists of sections agree up to the case of their titles: the
/// same number of sections, the same bodies, and titles with the same lowercase
/// forms.
pub open spec fn same_up_to_title_case(
    s1: Seq<(Seq<char>, Seq<char>)>,
    s2: Seq<(Seq<char>, Seq<char>)>,
) -> bool {
    &&& s1.len() == s2.len()
    &&& forall|i: int|
        0 <= i < s1.len() ==> lowercase((#[trigger] s1[i]).0) == lowercase(s2[i].0) && s1[i].1
            == s2[i].1
}

/// Whether two formats have, for each key, the same number of titles with the
/// same lowercase forms.
pub open spec fn same_titles_up_to_case(f1: &BountySubmissionFormat, f2: &BountySubmissionFormat) -> bool {
    forall|k: int|
        0 <= k < KEY_COUNT ==> {
            &&& (#[trigger] f1.title_views()[k]).len() == f2.title_views()[k].len()
            &&& forall|j: int|
                0 <= j < f1.title_views()[k].len() ==> lowercase(#[trigger] f1.title_views()[k][j])
                    == lowercase(f2.title_views()[k][j])
        }
}

/// Section titles are read without regard to case: sections that differ only
/// in the case of their titles give the same content.
pub proof fn law_section_titles_ignore_case(
    format: &BountySubmissionFormat,
    s1: Seq<(Seq<char>, Seq<char>)>,
    s2: Seq<(Seq<char>, Seq<char>)>,
)
    requires
        same_up_to_title_case(s1, s2),
    ensures
        assign(lower_titles(format), s1) == assign(lower_titles(format), s2),
    decreases s1.len(),
{
    if s1.len() > 0 {
        let p1 = s1.drop_last();
        let p2 = s2.drop_last();
        assert forall|i: int| 0 <= i < p1.len() implies lowercase(#[trigger] p1[i].0) == lowercase(
            p2[i].0,
        ) && p1[i].1 == p2[i].1 by {
            assert(p1[i] == s1[i]);
            assert(p2[i] == s2[i]);
        }
        law_section_titles_ignore_case(format, p1, p2);
        let n = s1.len() - 1;
        assert(s1.last() == s1[n]);
        assert(s2.last() == s2[n]);
        assert(lowercase(s1[n].0) == lowercase(s2[n].0));
    }
}

/// A format's titles are compared without regard to case: two formats whose
/// titles differ only in case read every text alike.
pub proof fn law_format_titles_ignore_case(
    f1: &BountySubmissionFormat,
    f2: &BountySubmissionFormat,
    text: Seq<char>,
)
    requires
        same_titles_up_to_case(f1, f2),
    ensures
        submission_content(f1, text) == submission_content(f2, text),
{
    assert forall|k: int| 0 <= k < KEY_COUNT implies #[trigger] lower_titles(f1)[k] == lower_titles(
        f2,
    )[k] by {
        let a = f1.title_views()[k];
        let b = f2.title_views()[k];
        assert(a.len() == b.len());
        assert forall|j: int| 0 <= j < a.len() implies lowercase(#[trigger] a[j]) == lowercase(b[j]) by {}
        assert(a.map_values(|t: Seq<char>| lowercase(t)) =~= b.map_values(|t: Seq<char>| lowercase(t)));
    }
    assert(lower_titles(f1) =~= lower_titles(f2));
}

/// Whether two open sections agree up to the case of their titles.
pub open spec fn open_related(c1: OpenSection, c2: OpenSection) -> bool {
    match (c1, c2) {
        (None, None) => true,
        (Some((t1, b1)), Some((t2, b2))) => lowercase(t1) == lowercase(t2) && b1 == b2,
        _ => false,
    }
}

/// Whether two lists of lines agree, except for header lines whose titles have
/// the same lowercase forms.
pub open spec fn lines_related(l1: Seq<Seq<char>>, l2: Seq<Seq<char>>) -> bool {
    &&& l1.len() == l2.len()
    &&& forall|i: int|
        0 <= i < l1.len() ==> #[trigger] l1[i] == l2[i] || (is_header(l1[i]) && is_header(l2[i])
            && lowercase(header_title(l1[i])) == lowercase(header_title(l2[i])))
}

proof fn lemma_same_at(s1: Seq<(Seq<char>, Seq<char>)>, s2: Seq<(Seq<char>, Seq<char>)>, i: int)
    requires
        same_up_to_title_case(s1, s2),
        0 <= i < s1.len(),
    ensures
        lowercase(s1[i].0) == lowercase(s2[i].0),
        s1[i].1 == s2[i].1,
{
}

proof fn lemma_same_concat(
    a1: Seq<(Seq<char>, Seq<char>)>,
    a2: Seq<(Seq<char>, Seq<char>)>,
    b1: Seq<(Seq<char>, Seq<char>)>,
    b2: Seq<(Seq<char>, Seq<char>)>,
)
    requires
        same_up_to_title_case(a1, a2),
        same_up_to_title_case(b1, b2),
    ensures
        same_up_to_title_case(a1 + b1, a2 + b2),
{
    assert forall|i: int| 0 <= i < (a1 + b1).len() implies lowercase(#[trigger] (a1 + b1)[i].0)
        == lowercase((a2 + b2)[i].0) && (a1 + b1)[i].1 == (a2 + b2)[i].1 by {
        if i < a1.len() {
            assert((a1 + b1)[i] == a1[i]);
            assert((a2 + b2)[i] == a2[i]);
            lemma_same_at(a1, a2, i);
        } else {
            let j = i - a1.len();
            assert(0 <= j < b1.len());
            assert((a1 + b1)[i] == b1[j]);
            assert((a2 + b2)[i] == b2[j]);
            lemma_same_at(b1, b2, j);
        }
    }
}

proof fn lemma_sections_related(
    l1: Seq<Seq<char>>,
    l2: Seq<Seq<char>>,
    c1: OpenSection,
    c2: OpenSection,
)
    requires
        lines_related(l1, l2),
        open_related(c1, c2),
    ensures
        same_up_to_title_case(sections_acc(l1, c1), sections_acc(l2, c2)),
    decreases l1.len(),
{
    let k1 = close_section(c1);
    let k2 = close_section(c2);
    assert(same_up_to_title_case(k1, k2)) by {
        match (c1, c2) {
            (Some((t1, b1)), Some((t2, b2))) => {
                assert(k1[0] == (t1, trim(join(b1, seq!['\n']))));
                assert(k2[0] == (t2, trim(join(b2, seq!['\n']))));
            },
            _ => {},
        }
    }
    if l1.len() > 0 {
        let r1 = l1.drop_first();
        let r2 = l2.drop_first();
        assert(lines_related(r1, r2)) by {
            assert forall|i: int| 0 <= i < r1.len() implies #[trigger] r1[i] == r2[i] || (is_header(
                r1[i],
            ) && is_header(r2[i]) && lowercase(header_title(r1[i])) == lowercase(
                header_title(r2[i]),
            )) by {
                assert(r1[i] == l1[i + 1]);
                assert(r2[i] == l2[i + 1]);
            }
        }
        assert(l1[0] == l2[0] || (is_header(l1[0]) && is_header(l2[0]) && lowercase(
            header_title(l1[0]),
        ) == lowercase(header_title(l2[0]))));
        if is_header(l1[0]) {
            let n1: OpenSection = Some((header_title(l1[0]), Seq::<Seq<char>>::empty()));
            let n2: OpenSection = Some((header_title(l2[0]), Seq::<Seq<char>>::empty()));
            lemma_sections_related(r1, r2, n1, n2);
            lemma_same_concat(k1, k2, sections_acc(r1, n1), sections_acc(r2, n2));
        } else {
            match (c1, c2) {
                (Some((t1, b1)), Some((t2, b2))) => {
                    lemma_sections_related(r1, r2, Some((t1, b1.push(l1[0]))), Some((t2, b2.push(l2[0]))));
                },
                _ => {
                    lemma_sections_related(r1, r2, None, None);
                },
            }
        }
    }
}

/// The line that a line without a break becomes, when a break follows it or
/// when it ends the text.
pub open spec fn finished_line(h: Seq<char>, after: Seq<char>) -> Seq<char> {
    if after.len() == 0 {
        h
    } else {
        strip_cr(h)
    }
}

/// The lines after a line break that starts `after`.
pub open spec fn lines_following(after: Seq<char>) -> Seq<Seq<char>> {
    if after.len() == 0 {
        seq![]
    } else {
        lines(after.drop_first())
    }
}

proof fn lemma_lines_around(before: Seq<char>, h: Seq<char>, after: Seq<char>)
    requires
        before.len() == 0 || before.last() == '\n',
        after.len() == 0 || after[0] == '\n',
        !h.contains('\n'),
        h.len() > 0,
    ensures
        lines(before + h + after) == lines(before) + seq![finished_line(h, after)] + lines_following(
            after,
        ),
{
    let x = before + h + after;
    assert(x =~= before + (h + after));
    if before.len() > 0 {
        lemma_lines_after_newline(before, h + after, seq![]);
    } else {
        assert(x =~= h + after);
        assert(lines(before) =~= Seq::<Seq<char>>::empty());
    }
    lemma_lines_within_line(h, after, seq![]);
    assert(Seq::<char>::empty() + h =~= h);
    let tail = lines_acc(after, h);
    if after.len() == 0 {
        assert(tail =~= seq![h]);
    } else {
        assert(tail == seq![strip_cr(h)] + lines_acc(after.drop_first(), seq![]));
    }
    assert(lines(before) + tail =~= lines(before) + seq![finished_line(h, after)] + lines_following(
        after,
    ));
}

proof fn lemma_header_nonempty(h: Seq<char>)
    requires
        is_header(h),
    ensures
        h.len() > 0,
{
    if h.len() == 0 {
        assert(trim_start(h) =~= h);
        assert(trim_end(h) =~= h);
        assert(trim(h).len() == 0);
    }
}

proof fn lemma_finished_header(h: Seq<char>, after: Seq<char>)
    requires
        is_header(h),
    ensures
        is_header(finished_line(h, after)),
        header_title(finished_line(h, after)) == header_title(h),
{
    lemma_header_nonempty(h);
    if after.len() > 0 && h.last() == '\r' {
        lemma_trim_drop_last_ws(h);
    }
}

/// Heading titles are read without regard to case: replacing one heading line
/// of a message by another whose title has the same lowercase form leaves the
/// submission's content unchanged.
pub proof fn law_heading_case_ignored(
    format: &BountySubmissionFormat,
    before: Seq<char>,
    h1: Seq<char>,
    h2: Seq<char>,
    after: Seq<char>,
)
    requires
        before.len() == 0 || before.last() == '\n',
        after.len() == 0 || after[0] == '\n',
        !h1.contains('\n'),
        !h2.contains('\n'),
        is_header(h1),
        is_header(h2),
        lowercase(header_title(h1)) == lowercase(header_title(h2)),
    ensures
        submission_content(format, before + h1 + after) == submission_content(
            format,
            before + h2 + after,
        ),
{
    lemma_header_nonempty(h1);
    lemma_header_nonempty(h2);
    lemma_lines_around(before, h1, after);
    lemma_lines_around(before, h2, after);
    lemma_finished_header(h1, after);
    lemma_finished_header(h2, after);
    let pre = lines(before);
    let post = lines_following(after);
    let f1 = finished_line(h1, after);
    let f2 = finished_line(h2, after);
    let l1 = pre + seq![f1] + post;
    let l2 = pre + seq![f2] + post;
    assert(lines_related(l1, l2)) by {
        assert forall|i: int| 0 <= i < l1.len() implies #[trigger] l1[i] == l2[i] || (is_header(
            l1[i],
        ) && is_header(l2[i]) && lowercase(header_title(l1[i])) == lowercase(header_title(l2[i]))) by {
            if i < pre.len() {
                assert(l1[i] == pre[i]);
                assert(l2[i] == pre[i]);
            } else if i == pre.len() {
                assert(l1[i] == f1);
                assert(l2[i] == f2);
            } else {
                assert(l1[i] == post[i - pre.len() - 1]);
                assert(l2[i] == post[i - pre.len() - 1]);
            }
        }
    }
    lemma_sections_related(l1, l2, None, None);
    law_section_titles_ignore_case(format, sections(before + h1 + after), sections(before + h2 + after));
}

/// A heading written as `## ` followed by a title: titles with the same
/// lowercase form give the same content, wherever the heading stands among the
/// message's lines.
pub proof fn law_title_case_ignored(
    format: &BountySubmissionFormat,
    before: Seq<char>,
    t1: Seq<char>,
    t2: Seq<char>,
    after: Seq<char>,
)
    requires
        before.len() == 0 || before.last() == '\n',
        after.len() == 0 || after[0] == '\n',
        t1.len() > 0 && is_trimmed(t1) && !t1.contains('\n'),
        t2.len() > 0 && is_trimmed(t2) && !t2.contains('\n'),
        lowercase(t1) == lowercase(t2),
    ensures
        submission_content(format, before + marker() + t1 + after) == submission_content(
            format,
            before + marker() + t2 + after,
        ),
{
    lemma_heading_of_title(t1);
    lemma_heading_of_title(t2);
    law_heading_case_ignored(format, before, marker() + t1, marker() + t2, after);
    assert(before + (marker() + t1) + after =~= before + marker() + t1 + after);
    assert(before + (marker() + t2) + after =~= before + marker() + t2 + after);
}

proof fn lemma_heading_of_title(t: Seq<char>)
    requires
        t.len() > 0 && is_trimmed(t) && !t.contains('\n'),
    ensures
        is_header(marker() + t),
        header_title(marker() + t) == t,
        !(marker() + t).contains('\n'),
{
    let h = marker() + t;
    assert(h[0] == '#');
    assert(h.last() == t.last());
    assert(is_trimmed(h));
    lemma_trimmed_fixed(h);
    assert(h.take(3) =~= marker());
    assert(h.skip(3) =~= t);
    lemma_trimmed_fixed(t);
    assert(!h.contains('\n')) by {
        if h.contains('\n') {
            let i = choose|i: int| 0 <= i < h.len() && h[i] == '\n';
            if i >= 3 {
                assert(t[i - 3] == '\n');
                assert(t.contains('\n'));
            }
        }
    }
}

proof fn lemma_body_lines(body: Seq<Seq<char>>, post: Seq<Seq<char>>, t: Seq<char>, acc: Seq<Seq<char>>)
    requires
        forall|i: int| 0 <= i < body.len() ==> !is_header(#[trigger] body[i]),
    ensures
        sections_acc(body + post, Some((t, acc))) == sections_acc(post, Some((t, acc + body))),
    decreases body.len(),
{
    if body.len() == 0 {
        assert(body + post =~= post);
        assert(acc + body =~= acc);
    } else {
        assert((body + post)[0] == body[0]);
        assert((body + post).drop_first() =~= body.drop_first() + post);
        assert forall|i: int| 0 <= i < body.drop_first().len() implies !is_header(
            #[trigger] body.drop_first()[i],
        ) by {
            assert(body.drop_first()[i] == body[i + 1]);
        }
        lemma_body_lines(body.drop_first(), post, t, acc.push(body[0]));
        assert(acc.push(body[0]) + body.drop_first() =~= acc + body);
    }
}

/// A header line and the lines after it up to the next header line (or the end)
/// make one section: its title is the header's title and its text is all those
/// lines, joined by line breaks and trimmed. What follows is read on its own.
pub proof fn law_section_holds_its_lines(h: Seq<char>, body: Seq<Seq<char>>, post: Seq<Seq<char>>)
    requires
        is_header(h),
        forall|i: int| 0 <= i < body.len() ==> !is_header(#[trigger] body[i]),
        post.len() == 0 || is_header(post[0]),
    ensures
        sections_acc(seq![h] + body + post, None) == seq![(header_title(h), trim(join(body, seq!['\n'])))]
            + sections_acc(post, None),
{
    let ls = seq![h] + body + post;
    assert(ls[0] == h);
    assert(ls.drop_first() =~= body + post);
    lemma_body_lines(body, post, header_title(h), seq![]);
    assert(Seq::<Seq<char>>::empty() + body =~= body);
    let sec = (header_title(h), trim(join(body, seq!['\n'])));
    if post.len() == 0 {
        assert(sections_acc(post, Some((header_title(h), body))) == seq![sec]);
        assert(sections_acc(post, None) =~= Seq::<(Seq<char>, Seq<char>)>::empty());
        assert(seq![sec] + Seq::<(Seq<char>, Seq<char>)>::empty() =~= seq![sec]);
    } else {
        let next: OpenSection = Some((header_title(post[0]), Seq::<Seq<char>>::empty()));
        assert(sections_acc(post, Some((header_title(h), body))) == seq![sec] + sections_acc(
            post.drop_first(),
            next,
        ));
        assert(sections_acc(post, None) == Seq::<(Seq<char>, Seq<char>)>::empty() + sections_acc(
            post.drop_first(),
            next,
        ));
        assert(Seq::<(Seq<char>, Seq<char>)>::empty() + sections_acc(post.drop_first(), next)
            =~= sections_acc(post.drop_first(), next));
    }
    assert(close_section(None) =~= Seq::<(Seq<char>, Seq<char>)>::empty());
}

/// Lines before the first header line belong to no section.
pub proof fn law_lines_before_first_header_ignored(pre: Seq<Seq<char>>, post: Seq<Seq<char>>)
    requires
        forall|i: int| 0 <= i < pre.len() ==> !is_header(#[trigger] pre[i]),
    ensures
        sections_acc(pre + post, None) == sections_acc(post, None),
    decreases pre.len(),
{
    if pre.len() == 0 {
        assert(pre + post =~= post);
    } else {
        assert((pre + post)[0] == pre[0]);
        assert((pre + post).drop_first() =~= pre.drop_first() + post);
        assert forall|i: int| 0 <= i < pre.drop_first().len() implies !is_header(
            #[trigger] pre.drop_first()[i],
        ) by {
            assert(pre.drop_first()[i] == pre[i + 1]);
        }
        law_lines_before_first_header_ignored(pre.drop_first(), post);
    }
}

} // verus!
