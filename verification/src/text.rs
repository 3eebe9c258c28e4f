//! Character-level text handling: whitespace trimming, line splitting,
//! joining, and decimal formatting and parsing of integers.
use vstd::prelude::*;

verus! {

broadcast use vstd::string::group_string_axioms;

// ---------------------------------------------------------------------------
// Conversions between strings and character vectors
// ---------------------------------------------------------------------------

/// Appends one character to a string.
/// Calls `String::push`, which std documents as appending the given char to the end.
#[verifier::external_body]
fn push_char(s: &mut String, c: char)
    ensures
        final(s)@ == old(s)@.push(c),
{
    s.push(c);
}

/// The characters of a string slice, in order.
pub fn chars_of(s: &str) -> (r: Vec<char>)
    ensures
        r@ == s@,
{
    let mut r: Vec<char> = Vec::new();
    for c in it: s.chars()
        invariant
            r@ == it.seq().take(it.index() as int),
    {
        r.push(c);
    }
    r
}

/// A string holding the given characters, in order.
pub fn string_of(v: &[char]) -> (r: String)
    ensures
        r@ == v@,
{
    let mut r = String::new();
    let mut i: usize = 0;
    while i < v.len()
        invariant
            i <= v.len(),
            r@ == v@.take(i as int),
        decreases v.len() - i,
    {
        push_char(&mut r, v[i]);
        i = i + 1;
        assert(r@ =~= v@.take(i as int));
    }
    assert(v@.take(v.len() as int) =~= v@);
    r
}

/// Appends all characters of `src` to `dst`.
pub fn append_chars(dst: &mut Vec<char>, src: &[char])
    ensures
        final(dst)@ == old(dst)@ + src@,
{
    let mut i: usize = 0;
    while i < src.len()
        invariant
            i <= src.len(),
            dst@ == old(dst)@ + src@.take(i as int),
        decreases src.len() - i,
    {
        dst.push(src[i]);
        i = i + 1;
        assert(dst@ =~= old(dst)@ + src@.take(i as int));
    }
    assert(src@.take(src.len() as int) =~= src@);
}

/// Appends all characters of the string slice `src` to `dst`.
pub fn append_str(dst: &mut Vec<char>, src: &str)
    ensures
        final(dst)@ == old(dst)@ + src@,
{
    let v = chars_of(src);
    append_chars(dst, v.as_slice());
}

// ---------------------------------------------------------------------------
// Whitespace and trimming
// ---------------------------------------------------------------------------

/// Whether `c` has the Unicode `White_Space` property, which is what
/// `char::is_whitespace` tests.
pub open spec fn is_ws(c: char) -> bool {
    let u = c as u32;
    ||| 0x09 <= u <= 0x0D
    ||| u == 0x20
    ||| u == 0x85
    ||| u == 0xA0
    ||| u == 0x1680
    ||| 0x2000 <= u <= 0x200A
    ||| u == 0x2028
    ||| u == 0x2029
    ||| u == 0x202F
    ||| u == 0x205F
    ||| u == 0x3000
}

/// Executable whitespace test.
pub fn is_whitespace(c: char) -> (r: bool)
    ensures
        r == is_ws(c),
{
    let u = c as u32;
    (0x09 <= u && u <= 0x0D) || u == 0x20 || u == 0x85 || u == 0xA0 || u == 0x1680 || (0x2000
        <= u && u <= 0x200A) || u == 0x2028 || u == 0x2029 || u == 0x202F || u == 0x205F || u
        == 0x3000
}

/// `s` without its leading whitespace.
pub open spec fn trim_start(s: Seq<char>) -> Seq<char>
    decreases s.len(),
{
    if s.len() > 0 && is_ws(s[0]) {
        trim_start(s.drop_first())
    } else {
        s
    }
}

/// `s` without its trailing whitespace.
pub open spec fn trim_end(s: Seq<char>) -> Seq<char>
    decreases s.len(),
{
    if s.len() > 0 && is_ws(s.last()) {
        trim_end(s.drop_last())
    } else {
        s
    }
}

/// `s` without leading and trailing whitespace (what `str::trim` returns).
pub open spec fn trim(s: Seq<char>) -> Seq<char> {
    trim_end(trim_start(s))
}

pub(crate) proof fn lemma_trim_start_skip(s: Seq<char>, i: int)
    requires
        0 <= i <= s.len(),
        forall|j: int| 0 <= j < i ==> is_ws(#[trigger] s[j]),
    ensures
        trim_start(s) == trim_start(s.skip(i)),
    decreases i,
{
    if i > 0 {
        let t = s.drop_first();
        assert forall|j: int| 0 <= j < i - 1 implies is_ws(#[trigger] t[j]) by {
            assert(t[j] == s[j + 1]);
        }
        lemma_trim_start_skip(t, i - 1);
        assert(t.skip(i - 1) =~= s.skip(i));
    } else {
        assert(s.skip(0) =~= s);
    }
}

pub(crate) proof fn lemma_trim_end_take(s: Seq<char>, i: int)
    requires
        0 <= i <= s.len(),
        forall|j: int| i <= j < s.len() ==> is_ws(#[trigger] s[j]),
    ensures
        trim_end(s) == trim_end(s.take(i)),
    decreases s.len() - i,
{
    if i < s.len() {
        let t = s.drop_last();
        assert forall|j: int| i <= j < t.len() implies is_ws(#[trigger] t[j]) by {
            assert(t[j] == s[j]);
        }
        lemma_trim_end_take(t, i);
        assert(t.take(i) =~= s.take(i));
    } else {
        assert(s.take(i) =~= s);
    }
}

/// Whether `s` has no leading and no trailing whitespace.
pub open spec fn is_trimmed(s: Seq<char>) -> bool {
    s.len() == 0 || (!is_ws(s[0]) && !is_ws(s.last()))
}

proof fn lemma_trim_start_first(s: Seq<char>)
    ensures
        trim_start(s).len() == 0 || !is_ws(trim_start(s)[0]),
        trim_start(s).len() <= s.len(),
        trim_start(s) == s.skip(s.len() - trim_start(s).len()),
    decreases s.len(),
{
    if s.len() > 0 && is_ws(s[0]) {
        lemma_trim_start_first(s.drop_first());
        assert(s.drop_first().skip(s.drop_first().len() - trim_start(s).len()) =~= s.skip(
            s.len() - trim_start(s).len(),
        ));
    } else {
        assert(s.skip(0) =~= s);
    }
}

proof fn lemma_trim_end_last(s: Seq<char>)
    ensures
        trim_end(s).len() == 0 || !is_ws(trim_end(s).last()),
        trim_end(s).len() <= s.len(),
        trim_end(s) == s.take(trim_end(s).len() as int),
    decreases s.len(),
{
    if s.len() > 0 && is_ws(s.last()) {
        lemma_trim_end_last(s.drop_last());
        assert(s.drop_last().take(trim_end(s).len() as int) =~= s.take(trim_end(s).len() as int));
    } else {
        assert(s.take(s.len() as int) =~= s);
    }
}

/// Trimming leaves no whitespace at either end.
pub proof fn lemma_trim_is_trimmed(s: Seq<char>)
    ensures
        is_trimmed(trim(s)),
{
    lemma_trim_start_first(s);
    let u = trim_start(s);
    lemma_trim_end_last(u);
    let t = trim_end(u);
    if t.len() > 0 {
        assert(t[0] == u[0]);
    }
}

/// A trimmed text is its own trimmed form.
pub proof fn lemma_trimmed_fixed(s: Seq<char>)
    requires
        is_trimmed(s),
    ensures
        trim(s) == s,
{
    if s.len() > 0 {
        assert(trim_start(s) == s);
        assert(trim_end(s) == s);
    }
}

/// Trimming twice is trimming once.
pub proof fn lemma_trim_idempotent(s: Seq<char>)
    ensures
        trim(trim(s)) == trim(s),
{
    lemma_trim_is_trimmed(s);
    lemma_trimmed_fixed(trim(s));
}

proof fn lemma_trim_append_ws(s: Seq<char>, w: Seq<char>)
    requires
        forall|j: int| 0 <= j < w.len() ==> is_ws(#[trigger] w[j]),
    ensures
        trim_end(trim_start(s + w)) == trim_end(trim_start(s)),
    decreases s.len(),
{
    if s.len() == 0 {
        assert(s + w =~= w);
        lemma_trim_start_skip(w, w.len() as int);
        assert(w.skip(w.len() as int) =~= Seq::<char>::empty());
    } else if is_ws(s[0]) {
        assert((s + w).drop_first() =~= s.drop_first() + w);
        lemma_trim_append_ws(s.drop_first(), w);
    } else {
        assert((s + w)[0] == s[0]);
        assert forall|j: int| s.len() <= j < (s + w).len() implies is_ws(#[trigger] (s + w)[j]) by {
            assert((s + w)[j] == w[j - s.len()]);
        }
        lemma_trim_end_take(s + w, s.len() as int);
        assert((s + w).take(s.len() as int) =~= s);
    }
}

/// Whitespace around a text does not change its trimmed form.
pub proof fn lemma_trim_ignores_outer_ws(w1: Seq<char>, s: Seq<char>, w2: Seq<char>)
    requires
        forall|j: int| 0 <= j < w1.len() ==> is_ws(#[trigger] w1[j]),
        forall|j: int| 0 <= j < w2.len() ==> is_ws(#[trigger] w2[j]),
    ensures
        trim(w1 + s + w2) == trim(s),
{
    let x = w1 + s + w2;
    assert forall|j: int| 0 <= j < w1.len() implies is_ws(#[trigger] x[j]) by {
        assert(x[j] == w1[j]);
    }
    lemma_trim_start_skip(x, w1.len() as int);
    assert(x.skip(w1.len() as int) =~= s + w2);
    lemma_trim_append_ws(s, w2);
}

/// Dropping one trailing whitespace character does not change the trimmed form.
pub(crate) proof fn lemma_trim_drop_last_ws(s: Seq<char>)
    requires
        s.len() > 0,
        is_ws(s.last()),
    ensures
        trim(s.drop_last()) == trim(s),
{
    lemma_trim_append_ws(s.drop_last(), seq![s.last()]);
    assert(s.drop_last() + seq![s.last()] =~= s);
}

proof fn lemma_trim_start_cut(s: Seq<char>)
    ensures
        trim_start(s) == s.skip(s.len() - trim_start(s).len()),
        forall|k: int| 0 <= k < s.len() - trim_start(s).len() ==> is_ws(#[trigger] s[k]),
    decreases s.len(),
{
    lemma_trim_start_first(s);
    if s.len() > 0 && is_ws(s[0]) {
        lemma_trim_start_cut(s.drop_first());
        assert forall|k: int| 0 <= k < s.len() - trim_start(s).len() implies is_ws(#[trigger] s[k]) by {
            if k > 0 {
                assert(s[k] == s.drop_first()[k - 1]);
            }
        }
    }
}

proof fn lemma_trim_end_cut(s: Seq<char>)
    ensures
        trim_end(s) == s.take(trim_end(s).len() as int),
        forall|k: int| trim_end(s).len() <= k < s.len() ==> is_ws(#[trigger] s[k]),
    decreases s.len(),
{
    lemma_trim_end_last(s);
    if s.len() > 0 && is_ws(s.last()) {
        lemma_trim_end_cut(s.drop_last());
        assert forall|k: int| trim_end(s).len() <= k < s.len() implies is_ws(#[trigger] s[k]) by {
            if k < s.len() - 1 {
                assert(s[k] == s.drop_last()[k]);
            }
        }
    }
}

/// Trimming takes away whitespace at the two ends and nothing else: the result
/// is a stretch of the text, everything before and after it is whitespace, and
/// it neither starts nor ends with whitespace.
pub proof fn law_trim_cuts_outer_whitespace(s: Seq<char>)
    ensures
        is_trimmed(trim(s)),
        exists|i: int, j: int|
            0 <= i <= j <= s.len() && trim(s) == s.subrange(i, j) && (forall|k: int|
                0 <= k < i ==> is_ws(#[trigger] s[k])) && (forall|k: int|
                j <= k < s.len() ==> is_ws(#[trigger] s[k])),
{
    lemma_trim_is_trimmed(s);
    lemma_trim_start_cut(s);
    let u = trim_start(s);
    let i = s.len() - u.len();
    lemma_trim_end_cut(u);
    let l = trim_end(u).len() as int;
    let j = i + l;
    lemma_trim_start_first(s);
    lemma_trim_end_last(u);
    assert(u == s.skip(i));
    assert(trim_end(u) == u.take(l));
    assert(0 <= i <= s.len());
    assert(l <= u.len());
    assert(trim(s) == trim_end(u));
    assert(trim(s) =~= s.subrange(i, j));
    assert forall|k: int| j <= k < s.len() implies is_ws(#[trigger] s[k]) by {
        assert(s[k] == u[k - i]);
    }
    assert(forall|k: int| 0 <= k < i ==> is_ws(#[trigger] s[k]));
}

/// Index of the first non-whitespace character at or after `from`, or the length.
fn skip_ws_forward(s: &[char], from: usize) -> (r: usize)
    requires
        from <= s.len(),
    ensures
        from <= r <= s.len(),
        forall|j: int| from <= j < r ==> is_ws(#[trigger] s@[j]),
        r < s.len() ==> !is_ws(s@[r as int]),
{
    let mut i = from;
    while i < s.len() && is_whitespace(s[i])
        invariant
            from <= i <= s.len(),
            forall|j: int| from <= j < i ==> is_ws(#[trigger] s@[j]),
        decreases s.len() - i,
    {
        i = i + 1;
    }
    i
}

/// Whitespace-trimmed copy of `s`.
pub fn trim_chars(s: &[char]) -> (r: Vec<char>)
    ensures
        r@ == trim(s@),
{
    let start = skip_ws_forward(s, 0);
    let mut end = s.len();
    while end > start && is_whitespace(s[end - 1])
        invariant
            start <= end <= s.len(),
            forall|j: int| end <= j < s.len() ==> is_ws(#[trigger] s@[j]),
        decreases end - start,
    {
        end = end - 1;
    }
    proof {
        lemma_trim_start_skip(s@, start as int);
        if start < s.len() {
            assert(trim_start(s@.skip(start as int)) == s@.skip(start as int));
        } else {
            assert(s@.skip(start as int) =~= Seq::<char>::empty());
        }
        let t = s@.skip(start as int);
        assert forall|j: int| end - start <= j < t.len() implies is_ws(#[trigger] t[j]) by {
            assert(t[j] == s@[j + start]);
        }
        lemma_trim_end_take(t, end - start);
        if end > start {
            assert(t.take(end - start).last() == s@[end - 1]);
        } else {
            assert(t.take(0) =~= Seq::<char>::empty());
        }
    }
    let mut r: Vec<char> = Vec::new();
    let mut i = start;
    while i < end
        invariant
            start <= i <= end,
            end <= s.len(),
            r@ == s@.subrange(start as int, i as int),
        decreases end - i,
    {
        r.push(s[i]);
        i = i + 1;
        assert(r@ =~= s@.subrange(start as int, i as int));
    }
    assert(s@.subrange(start as int, end as int) =~= s@.skip(start as int).take(end - start));
    r
}

/// Whether `s` begins with `p`.
pub open spec fn starts_with(s: Seq<char>, p: Seq<char>) -> bool {
    p.len() <= s.len() && s.take(p.len() as int) == p
}

/// Executable prefix test.
pub fn has_prefix(s: &[char], p: &[char]) -> (r: bool)
    ensures
        r == starts_with(s@, p@),
{
    if p.len() > s.len() {
        return false;
    }
    let mut i: usize = 0;
    while i < p.len()
        invariant
            i <= p.len() <= s.len(),
            forall|j: int| 0 <= j < i ==> s@[j] == p@[j],
        decreases p.len() - i,
    {
        if s[i] != p[i] {
            assert(s@.take(p.len() as int)[i as int] != p@[i as int]);
            return false;
        }
        i = i + 1;
    }
    assert(s@.take(p.len() as int) =~= p@);
    true
}

/// Whether `s` ends with `p`.
pub open spec fn ends_with(s: Seq<char>, p: Seq<char>) -> bool {
    p.len() <= s.len() && s.skip(s.len() - p.len()) == p
}

/// Executable suffix test.
pub fn has_suffix(s: &[char], p: &[char]) -> (r: bool)
    ensures
        r == ends_with(s@, p@),
{
    if p.len() > s.len() {
        return false;
    }
    let off = s.len() - p.len();
    let mut i: usize = 0;
    while i < p.len()
        invariant
            i <= p.len() <= s.len(),
            off == s.len() - p.len(),
            forall|j: int| 0 <= j < i ==> s@[off + j] == p@[j],
        decreases p.len() - i,
    {
        if s[off + i] != p[i] {
            assert(s@.skip(off as int)[i as int] != p@[i as int]);
            return false;
        }
        i = i + 1;
    }
    assert(s@.skip(off as int) =~= p@);
    true
}

/// Copy of `s[from..to]`.
pub fn slice_chars(s: &[char], from: usize, to: usize) -> (r: Vec<char>)
    requires
        from <= to <= s.len(),
    ensures
        r@ == s@.subrange(from as int, to as int),
{
    let mut r: Vec<char> = Vec::new();
    let mut i = from;
    while i < to
        invariant
            from <= i <= to <= s.len(),
            r@ == s@.subrange(from as int, i as int),
        decreases to - i,
    {
        r.push(s[i]);
        i = i + 1;
        assert(r@ =~= s@.subrange(from as int, i as int));
    }
    r
}


// ---------------------------------------------------------------------------
// Lines and joining
// ---------------------------------------------------------------------------

/// The character sequences held by a sequence of character vectors.
pub open spec fn views(v: Seq<Vec<char>>) -> Seq<Seq<char>> {
    v.map_values(|l: Vec<char>| l@)
}

/// `t` without one trailing carriage return, if it has one.
pub open spec fn strip_cr(t: Seq<char>) -> Seq<char> {
    if t.len() > 0 && t.last() == '\r' {
        t.drop_last()
    } else {
        t
    }
}

/// The lines of `s`, given that the current unfinished line so far is `cur`.
/// A line ends at `'\n'`; a line so ended loses one trailing `'\r'`.
/// An unfinished last line counts only if it is not empty.
pub open spec fn lines_acc(s: Seq<char>, cur: Seq<char>) -> Seq<Seq<char>>
    decreases s.len(),
{
    if s.len() == 0 {
        if cur.len() == 0 {
            seq![]
        } else {
            seq![cur]
        }
    } else if s[0] == '\n' {
        seq![strip_cr(cur)] + lines_acc(s.drop_first(), seq![])
    } else {
        lines_acc(s.drop_first(), cur.push(s[0]))
    }
}

/// The lines of `s`, as `str::lines` yields them.
pub open spec fn lines(s: Seq<char>) -> Seq<Seq<char>> {
    lines_acc(s, seq![])
}

fn strip_cr_exec(v: &mut Vec<char>)
    ensures
        final(v)@ == strip_cr(old(v)@),
{
    if v.len() > 0 && v[v.len() - 1] == '\r' {
        v.pop();
    }
}

/// Splits `s` into its lines.
pub fn split_lines(s: &[char]) -> (r: Vec<Vec<char>>)
    ensures
        views(r@) == lines(s@),
{
    let mut out: Vec<Vec<char>> = Vec::new();
    let mut cur: Vec<char> = Vec::new();
    let mut i: usize = 0;
    assert(s@.skip(0) =~= s@);
    while i < s.len()
        invariant
            i <= s.len(),
            lines(s@) == views(out@) + lines_acc(s@.skip(i as int), cur@),
        decreases s.len() - i,
    {
        let c = s[i];
        let ghost rest = s@.skip(i as int);
        assert(rest[0] == c);
        assert(rest.drop_first() =~= s@.skip(i + 1));
        if c == '\n' {
            let ghost before = views(out@);
            let ghost cur_view = cur@;
            let mut line = cur;
            strip_cr_exec(&mut line);
            out.push(line);
            cur = Vec::new();
            assert(views(out@) =~= before.push(strip_cr(cur_view)));
            assert(cur@ =~= Seq::<char>::empty());
            assert(before + (seq![strip_cr(cur_view)] + lines_acc(s@.skip(i + 1), seq![]))
                =~= before.push(strip_cr(cur_view)) + lines_acc(s@.skip(i + 1), seq![]));
        } else {
            cur.push(c);
        }
        i = i + 1;
    }
    assert(s@.skip(i as int) =~= Seq::<char>::empty());
    if cur.len() > 0 {
        let ghost before = views(out@);
        let ghost cur_view = cur@;
        out.push(cur);
        assert(views(out@) =~= before + seq![cur_view]);
    } else {
        assert(views(out@) =~= views(out@) + Seq::<Seq<char>>::empty());
    }
    out
}

/// Lines of a text that follows a finished line are the lines of each part.
pub(crate) proof fn lemma_lines_after_newline(a: Seq<char>, q: Seq<char>, cur: Seq<char>)
    requires
        a.len() > 0,
        a.last() == '\n',
    ensures
        lines_acc(a + q, cur) == lines_acc(a, cur) + lines_acc(q, seq![]),
    decreases a.len(),
{
    assert((a + q)[0] == a[0]);
    assert((a + q).drop_first() =~= a.drop_first() + q);
    if a.len() == 1 {
        assert(a.drop_first() + q =~= q);
        assert(a.drop_first() =~= Seq::<char>::empty());
        assert(a[0] == '\n');
        let e: Seq<Seq<char>> = lines_acc(Seq::<char>::empty(), seq![]);
        assert(e =~= Seq::<Seq<char>>::empty());
        assert(lines_acc(a, cur) =~= seq![strip_cr(cur)]);
        assert(lines_acc(a + q, cur) =~= seq![strip_cr(cur)] + lines_acc(q, seq![]));
    } else {
        assert(a.drop_first().last() == a.last());
        if a[0] == '\n' {
            lemma_lines_after_newline(a.drop_first(), q, seq![]);
            assert(lines_acc(a + q, cur) == seq![strip_cr(cur)] + lines_acc(a.drop_first() + q, seq![]));
            assert(lines_acc(a, cur) == seq![strip_cr(cur)] + lines_acc(a.drop_first(), seq![]));
            assert(seq![strip_cr(cur)] + (lines_acc(a.drop_first(), seq![]) + lines_acc(q, seq![]))
                =~= (seq![strip_cr(cur)] + lines_acc(a.drop_first(), seq![])) + lines_acc(q, seq![]));
        } else {
            lemma_lines_after_newline(a.drop_first(), q, cur.push(a[0]));
        }
    }
}

/// Text without a line break only extends the unfinished line.
pub(crate) proof fn lemma_lines_within_line(h: Seq<char>, b: Seq<char>, cur: Seq<char>)
    requires
        !h.contains('\n'),
    ensures
        lines_acc(h + b, cur) == lines_acc(b, cur + h),
    decreases h.len(),
{
    if h.len() == 0 {
        assert(h + b =~= b);
        assert(cur + h =~= cur);
    } else {
        assert((h + b)[0] == h[0]);
        assert(h[0] != '\n') by {
            if h[0] == '\n' {
                assert(h.contains(h[0]));
            }
        }
        assert((h + b).drop_first() =~= h.drop_first() + b);
        assert(!h.drop_first().contains('\n')) by {
            if h.drop_first().contains('\n') {
                let i = choose|i: int| 0 <= i < h.drop_first().len() && h.drop_first()[i] == '\n';
                assert(h[i + 1] == '\n');
            }
        }
        lemma_lines_within_line(h.drop_first(), b, cur.push(h[0]));
        assert(cur.push(h[0]) + h.drop_first() =~= cur + h);
    }
}

/// The pieces of `ls` with `sep` between each two neighbours.
pub open spec fn join(ls: Seq<Seq<char>>, sep: Seq<char>) -> Seq<char>
    decreases ls.len(),
{
    if ls.len() == 0 {
        seq![]
    } else if ls.len() == 1 {
        ls[0]
    } else {
        join(ls.drop_last(), sep) + sep + ls.last()
    }
}

proof fn lemma_join_prepend(a: Seq<char>, ls: Seq<Seq<char>>, sep: Seq<char>)
    requires
        ls.len() > 0,
    ensures
        join(seq![a] + ls, sep) == a + sep + join(ls, sep),
    decreases ls.len(),
{
    let x = seq![a] + ls;
    assert(x.last() == ls.last());
    if ls.len() == 1 {
        assert(x.drop_last() =~= seq![a]);
        assert(join(seq![a], sep) == a);
    } else {
        assert(x.drop_last() =~= seq![a] + ls.drop_last());
        lemma_join_prepend(a, ls.drop_last(), sep);
        assert(a + sep + join(ls.drop_last(), sep) + sep + ls.last() =~= a + sep + (join(
            ls.drop_last(),
            sep,
        ) + sep + ls.last()));
    }
}

/// A line break when `s` ends with one.
pub open spec fn final_break(s: Seq<char>) -> Seq<char> {
    if s.len() > 0 && s.last() == '\n' {
        seq!['\n']
    } else {
        seq![]
    }
}

proof fn lemma_without_first(s: Seq<char>, c: char)
    requires
        s.len() > 0,
        !s.contains(c),
    ensures
        s[0] != c,
        !s.drop_first().contains(c),
{
    if s[0] == c {
        assert(s.contains(s[0]));
    }
    if s.drop_first().contains(c) {
        let k = choose|k: int| 0 <= k < s.drop_first().len() && s.drop_first()[k] == c;
        assert(s[k + 1] == c);
        assert(s.contains(s[k + 1]));
    }
}

proof fn lemma_push_without(cur: Seq<char>, x: char, c: char)
    requires
        !cur.contains(c),
        x != c,
    ensures
        !cur.push(x).contains(c),
{
    if cur.push(x).contains(c) {
        let k = choose|k: int| 0 <= k < cur.push(x).len() && cur.push(x)[k] == c;
        if k < cur.len() {
            assert(cur[k] == c);
            assert(cur.contains(cur[k]));
        }
    }
}

proof fn lemma_lines_acc_shape(s: Seq<char>, cur: Seq<char>)
    requires
        !cur.contains('\n'),
    ensures
        (s.len() > 0 || cur.len() > 0) ==> lines_acc(s, cur).len() > 0,
        forall|i: int| 0 <= i < lines_acc(s, cur).len() ==> !(#[trigger] lines_acc(s, cur)[i]).contains('\n'),
    decreases s.len(),
{
    if s.len() == 0 {
        if cur.len() > 0 {
            assert(lines_acc(s, cur) =~= seq![cur]);
        }
    } else if s[0] == '\n' {
        lemma_lines_acc_shape(s.drop_first(), seq![]);
        let rest = lines_acc(s.drop_first(), seq![]);
        assert(lines_acc(s, cur) == seq![strip_cr(cur)] + rest);
        assert(!strip_cr(cur).contains('\n')) by {
            if strip_cr(cur).contains('\n') {
                let k = choose|k: int| 0 <= k < strip_cr(cur).len() && strip_cr(cur)[k] == '\n';
                assert(cur[k] == '\n');
                assert(cur.contains(cur[k]));
            }
        }
        assert forall|i: int| 0 <= i < lines_acc(s, cur).len() implies !(#[trigger] lines_acc(s, cur)[i]).contains(
            '\n',
        ) by {
            if i > 0 {
                assert(lines_acc(s, cur)[i] == rest[i - 1]);
            }
        }
    } else {
        lemma_push_without(cur, s[0], '\n');
        lemma_lines_acc_shape(s.drop_first(), cur.push(s[0]));
    }
}

#[verifier::spinoff_prover]
proof fn lemma_lines_acc_rejoin(s: Seq<char>, cur: Seq<char>)
    requires
        !s.contains('\r'),
        !cur.contains('\r'),
        !cur.contains('\n'),
    ensures
        join(lines_acc(s, cur), seq!['\n']) + final_break(s) == cur + s,
    decreases s.len(),
{
    let nl: Seq<char> = seq!['\n'];
    if s.len() == 0 {
        assert(cur + s =~= cur);
        if cur.len() == 0 {
            assert(join(Seq::<Seq<char>>::empty(), nl) =~= Seq::<char>::empty());
        } else {
            assert(lines_acc(s, cur) =~= seq![cur]);
        }
    } else {
        let t = s.drop_first();
        lemma_without_first(s, '\r');
        if s[0] == '\n' {
            lemma_lines_acc_rejoin(t, seq![]);
            lemma_lines_acc_shape(t, seq![]);
            if cur.len() > 0 && cur.last() == '\r' {
                assert(cur.contains(cur.last()));
            }
            assert(strip_cr(cur) == cur);
            let rest = lines_acc(t, seq![]);
            assert(lines_acc(s, cur) == seq![cur] + rest);
            assert(s =~= nl + t);
            if t.len() == 0 {
                assert(rest =~= Seq::<Seq<char>>::empty());
                assert(seq![cur] + rest =~= seq![cur]);
            } else {
                lemma_join_prepend(cur, rest, nl);
                assert(s.last() == t.last());
                assert(cur + nl + join(rest, nl) + final_break(t) =~= cur + (nl + (join(rest, nl)
                    + final_break(t))));
            }
        } else {
            let c2 = cur.push(s[0]);
            lemma_push_without(cur, s[0], '\r');
            lemma_push_without(cur, s[0], '\n');
            lemma_lines_acc_rejoin(t, c2);
            assert(c2 + t =~= cur + s);
            if t.len() > 0 {
                assert(s.last() == t.last());
            }
        }
    }
}

/// For a text without carriage returns, its lines hold no line breaks, and
/// putting them back together with line breaks (plus the final one, if the
/// text ends with a line break) gives the text back: no character is lost or
/// added, and no line is dropped or merged.
pub proof fn law_lines_rejoin(s: Seq<char>)
    requires
        !s.contains('\r'),
    ensures
        join(lines(s), seq!['\n']) + final_break(s) == s,
        forall|i: int| 0 <= i < lines(s).len() ==> !(#[trigger] lines(s)[i]).contains('\n'),
{
    lemma_lines_acc_rejoin(s, seq![]);
    lemma_lines_acc_shape(s, seq![]);
    assert(Seq::<char>::empty() + s =~= s);
}

/// Joins the pieces with the separator between each two neighbours.
pub fn join_chars(ls: &Vec<Vec<char>>, sep: &[char]) -> (r: Vec<char>)
    ensures
        r@ == join(views(ls@), sep@),
{
    let mut r: Vec<char> = Vec::new();
    let mut i: usize = 0;
    while i < ls.len()
        invariant
            i <= ls.len(),
            r@ == join(views(ls@).take(i as int), sep@),
        decreases ls.len() - i,
    {
        let ghost prev = views(ls@).take(i as int);
        let ghost next = views(ls@).take(i + 1);
        assert(next.drop_last() =~= prev);
        assert(next.last() == ls@[i as int]@);
        if i > 0 {
            append_chars(&mut r, sep);
        }
        append_chars(&mut r, ls[i].as_slice());
        if i == 0 {
            assert(prev =~= Seq::<Seq<char>>::empty());
            assert(r@ =~= next[0]);
        } else {
            assert(r@ =~= join(prev, sep@) + sep@ + next.last());
        }
        i = i + 1;
    }
    assert(views(ls@).take(ls.len() as int) =~= views(ls@));
    r
}

// ---------------------------------------------------------------------------
// Decimal numbers
// ---------------------------------------------------------------------------

/// The ASCII digit for `d`, for `d` below ten.
pub open spec fn digit_char(d: nat) -> char {
    if d == 0 {
        '0'
    } else if d == 1 {
        '1'
    } else if d == 2 {
        '2'
    } else if d == 3 {
        '3'
    } else if d == 4 {
        '4'
    } else if d == 5 {
        '5'
    } else if d == 6 {
        '6'
    } else if d == 7 {
        '7'
    } else if d == 8 {
        '8'
    } else {
        '9'
    }
}

/// The decimal representation of `n`, without sign or leading zeros.
pub open spec fn decimal(n: nat) -> Seq<char>
    decreases n,
{
    if n < 10 {
        seq![digit_char(n)]
    } else {
        decimal(n / 10).push(digit_char(n % 10))
    }
}

/// The decimal representation of a signed integer.
pub open spec fn signed_decimal(n: int) -> Seq<char> {
    if n < 0 {
        seq!['-'] + decimal((-n) as nat)
    } else {
        decimal(n as nat)
    }
}

fn digit_exec(d: u128) -> (c: char)
    requires
        d < 10,
    ensures
        c == digit_char(d as nat),
{
    if d == 0 {
        '0'
    } else if d == 1 {
        '1'
    } else if d == 2 {
        '2'
    } else if d == 3 {
        '3'
    } else if d == 4 {
        '4'
    } else if d == 5 {
        '5'
    } else if d == 6 {
        '6'
    } else if d == 7 {
        '7'
    } else if d == 8 {
        '8'
    } else {
        '9'
    }
}

/// Appends the decimal representation of `n`.
pub fn push_decimal(out: &mut Vec<char>, n: u128)
    ensures
        final(out)@ == old(out)@ + decimal(n as nat),
    decreases n,
{
    if n >= 10 {
        push_decimal(out, n / 10);
    }
    out.push(digit_exec(n % 10));
    assert(final(out)@ =~= old(out)@ + decimal(n as nat)) by {
        if n < 10 {
            assert(n % 10 == n);
        }
    }
}

/// Appends the decimal representation of a signed number.
pub fn push_signed_decimal(out: &mut Vec<char>, n: i64)
    ensures
        final(out)@ == old(out)@ + signed_decimal(n as int),
{
    if n < 0 {
        out.push('-');
        let m: i128 = n as i128;
        let abs: u128 = (-m) as u128;
        push_decimal(out, abs);
        assert(final(out)@ =~= old(out)@ + (seq!['-'] + decimal((-n) as nat)));
    } else {
        push_decimal(out, n as u128);
    }
}

/// The numeric value of an ASCII digit.
pub open spec fn digit_value(c: char) -> nat {
    ((c as u32) - ('0' as u32)) as nat
}

/// Whether `c` is an ASCII digit.
pub open spec fn is_digit(c: char) -> bool {
    '0' <= c && c <= '9'
}

/// The number that a sequence of ASCII digits denotes.
pub open spec fn digits_value(s: Seq<char>) -> nat
    decreases s.len(),
{
    if s.len() == 0 {
        0
    } else {
        digits_value(s.drop_last()) * 10 + digit_value(s.last())
    }
}

/// Whether every character of `t` is an ASCII digit.
pub open spec fn all_digits(t: Seq<char>) -> bool {
    forall|i: int| 0 <= i < t.len() ==> is_digit(#[trigger] t[i])
}

/// What `u64::from_str` returns: an optional `+` followed by one or more ASCII
/// digits whose value fits in 64 bits gives that value; anything else is an error.
pub open spec fn parse_u64(s: Seq<char>) -> Option<u64> {
    let t = if s.len() > 0 && s[0] == '+' {
        s.drop_first()
    } else {
        s
    };
    if t.len() > 0 && all_digits(t) && digits_value(t) <= u64::MAX {
        Some(digits_value(t) as u64)
    } else {
        None
    }
}

pub(crate) proof fn lemma_digit_char(d: nat)
    requires
        d < 10,
    ensures
        is_digit(digit_char(d)),
        digit_value(digit_char(d)) == d,
{
}

/// The decimal representation of a number consists of digits, does not start
/// with `+`, and denotes that number.
pub proof fn lemma_decimal_digits(n: nat)
    ensures
        decimal(n).len() > 0,
        forall|i: int| 0 <= i < decimal(n).len() ==> is_digit(#[trigger] decimal(n)[i]),
        decimal(n)[0] != '+',
        digits_value(decimal(n)) == n,
    decreases n,
{
    if n < 10 {
        lemma_digit_char(n);
        assert(decimal(n).drop_last() =~= Seq::<char>::empty());
        assert(digits_value(Seq::<char>::empty()) == 0);
        assert(digits_value(decimal(n)) == digits_value(decimal(n).drop_last()) * 10
            + digit_value(decimal(n).last()));
    } else {
        lemma_decimal_digits(n / 10);
        lemma_digit_char(n % 10);
        let d = decimal(n);
        assert(d.drop_last() =~= decimal(n / 10));
        assert forall|i: int| 0 <= i < d.len() implies is_digit(#[trigger] d[i]) by {
            if i < d.len() - 1 {
                assert(d[i] == decimal(n / 10)[i]);
            }
        }
        assert(d[0] == decimal(n / 10)[0]);
        assert(d.last() == digit_char(n % 10));
        assert(digits_value(d) == digits_value(d.drop_last()) * 10 + digit_value(d.last()));
        assert((n / 10) * 10 + n % 10 == n);
    }
}

/// Parsing the decimal representation of a 64-bit number gives it back.
pub proof fn lemma_parse_decimal(n: u64)
    ensures
        parse_u64(decimal(n as nat)) == Some(n),
{
    lemma_decimal_digits(n as nat);
}

// ---------------------------------------------------------------------------
// Case
// ---------------------------------------------------------------------------

/// The lowercase form of `s`, as `str::to_lowercase` computes it (full Unicode
/// case mapping; depends on the characters alone).
pub uninterp spec fn lowercase(s: Seq<char>) -> Seq<char>;

/// Lowercases a string by calling `str::to_lowercase`. The contract names the
/// result and says nothing more of it: Unicode case mapping is not written out here.
#[verifier::external_body]
pub fn to_lowercase(s: &str) -> (r: String)
    ensures
        r@ == lowercase(s@),
{
    s.to_lowercase()
}

proof fn lemma_digits_value_prefix(s: Seq<char>, i: int)
    requires
        0 <= i <= s.len(),
    ensures
        digits_value(s) >= digits_value(s.take(i)),
    decreases s.len(),
{
    if i < s.len() {
        lemma_digits_value_prefix(s.drop_last(), i);
        assert(s.drop_last().take(i) =~= s.take(i));
    } else {
        assert(s.take(i) =~= s);
    }
}

fn digit_of(c: char) -> (r: Option<u64>)
    ensures
        match r {
            Some(d) => is_digit(c) && d == digit_value(c) && d < 10,
            None => !is_digit(c),
        },
{
    if '0' <= c && c <= '9' {
        Some((c as u32 - '0' as u32) as u64)
    } else {
        None
    }
}

/// Reads a decimal number as `u64::from_str` does.
pub fn parse_decimal_u64(s: &[char]) -> (r: Option<u64>)
    ensures
        r == parse_u64(s@),
{
    let start: usize = if s.len() > 0 && s[0] == '+' {
        1
    } else {
        0
    };
    let ghost t = if s@.len() > 0 && s@[0] == '+' {
        s@.drop_first()
    } else {
        s@
    };
    assert(t =~= s@.skip(start as int));
    if start >= s.len() {
        return None;
    }
    let mut value: u64 = 0;
    let mut i: usize = start;
    assert(t.take(0) =~= Seq::<char>::empty());
    while i < s.len()
        invariant
            start <= i <= s.len(),
            t =~= s@.skip(start as int),
            t == (if s@.len() > 0 && s@[0] == '+' {
                s@.drop_first()
            } else {
                s@
            }),
            value == digits_value(t.take(i - start)),
            forall|j: int| 0 <= j < i - start ==> is_digit(#[trigger] t[j]),
        decreases s.len() - i,
    {
        let ghost k = i - start;
        assert(t.take(k + 1).drop_last() =~= t.take(k));
        assert(t[k] == s@[i as int]);
        match digit_of(s[i]) {
            None => {
                assert(!is_digit(t[k]));
                assert(0 <= k < t.len());
                assert(!all_digits(t));
                assert(parse_u64(s@) is None);
                return None;
            },
            Some(d) => {
                let next = value.checked_mul(10);
                match next {
                    None => {
                        proof {
                            assert(value * 10 > u64::MAX);
                            assert(digits_value(t.take(k + 1)) == value * 10 + d);
                            lemma_digits_value_prefix(t, k + 1);
                            assert(digits_value(t) > u64::MAX);
                            assert(parse_u64(s@) is None);
                        }
                        return None;
                    },
                    Some(m) => match m.checked_add(d) {
                        None => {
                            proof {
                                assert(digits_value(t.take(k + 1)) == value * 10 + d);
                                lemma_digits_value_prefix(t, k + 1);
                            }
                            return None;
                        },
                        Some(v) => {
                            value = v;
                        },
                    },
                }
            },
        }
        i = i + 1;
    }
    assert(t.take(s.len() - start) =~= t);
    Some(value)
}

} // verus!
