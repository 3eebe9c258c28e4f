//! Reading the bounty number that starts a command's arguments.
use vstd::prelude::*;
use crate::model::BountyNum;
use crate::text::{
    trim_start, decimal, is_digit, is_trimmed, is_ws, lemma_decimal_digits, lemma_parse_decimal, lemma_trimmed_fixed,
    append_str, chars_of, parse_u64, slice_chars, string_of, trim, trim_chars};

verus! {

/// The position of the first occurrence of `c` in `s`.
pub open spec fn first_index_of(s: Seq<char>, c: char) -> Option<int>
    decreases s.len(),
{
    if s.len() == 0 {
        None
    } else if s[0] == c {
        Some(0)
    } else {
        match first_index_of(s.drop_first(), c) {
            Some(i) => Some(i + 1),
            None => None,
        }
    }
}

/// `s` split at its first space: the part before it and the part after it; the
/// whole of `s` and nothing when there is no space.
pub open spec fn split_at_space(s: Seq<char>) -> (Seq<char>, Seq<char>) {
    match first_index_of(s, ' ') {
        Some(i) => (s.take(i), s.skip(i + 1)),
        None => (s, seq![]),
    }
}

/// Why a command's arguments do not start with a bounty number.
#[derive(Clone, Copy, Debug, PartialEq, Eq, Structural)]
pub enum BountyArgError {
    /// The arguments are empty.
    MissingId,
    /// The first argument is not a bounty number.
    InvalidId,
}

/// The bounty number that starts the (trimmed) arguments, and the text after the
/// space that follows it.
pub open spec fn bounty_args(args: Seq<char>) -> Result<(BountyNum, Seq<char>), BountyArgError> {
    let (num, rest) = split_at_space(trim(args));
    if num.len() == 0 {
        Err(BountyArgError::MissingId)
    } else {
        match parse_u64(num) {
            Some(n) => Ok((BountyNum(n), rest)),
            None => Err(BountyArgError::InvalidId),
        }
    }
}

fn find_char(s: &[char], c: char) -> (r: Option<usize>)
    ensures
        match r {
            Some(i) => first_index_of(s@, c) == Some(i as int) && i < s@.len(),
            None => first_index_of(s@, c) is None,
        },
{
    let mut i: usize = 0;
    assert(s@.skip(0) =~= s@);
    while i < s.len()
        invariant
            i <= s.len(),
            forall|j: int| 0 <= j < i ==> s@[j] != c,
            first_index_of(s@, c) == match first_index_of(s@.skip(i as int), c) {
                Some(k) => Some(k + i),
                None => None,
            },
        decreases s.len() - i,
    {
        assert(s@.skip(i as int)[0] == s@[i as int]);
        if s[i] == c {
            return Some(i);
        }
        assert(s@.skip(i as int).drop_first() =~= s@.skip(i + 1));
        i = i + 1;
    }
    assert(s@.skip(i as int) =~= Seq::<char>::empty());
    None
}

/// Reads the bounty number that starts a command's arguments: the arguments are
/// trimmed and split at the first space; the part before must be a bounty
/// number. Gives the number and the rest of the arguments.
pub fn bounty_num_from_args(args: &str) -> (r: Result<(BountyNum, String), BountyArgError>)
    ensures
        match bounty_args(args@) {
            Ok((n, rest)) => r matches Ok((m, s)) && m == n && s@ == rest,
            Err(e) => r == Err::<(BountyNum, String), BountyArgError>(e),
        },
{
    let all = chars_of(args);
    let t = trim_chars(all.as_slice());
    let idx = find_char(t.as_slice(), ' ');
    let num: Vec<char>;
    let rest: Vec<char>;
    match idx {
        Some(i) => {
            assert(i < t@.len());
            num = slice_chars(t.as_slice(), 0, i);
            rest = slice_chars(t.as_slice(), i + 1, t.len());
            assert(num@ =~= split_at_space(t@).0);
            assert(rest@ =~= split_at_space(t@).1);
        },
        None => {
            num = slice_chars(t.as_slice(), 0, t.len());
            rest = Vec::new();
            assert(num@ =~= split_at_space(t@).0);
            assert(rest@ =~= split_at_space(t@).1);
        },
    }
    if num.len() == 0 {
        return Err(BountyArgError::MissingId);
    }
    let num_str = string_of(num.as_slice());
    match BountyNum::parse(num_str.as_str()) {
        Some(n) => Ok((n, string_of(rest.as_slice()))),
        None => Err(BountyArgError::InvalidId),
    }
}

/// The answer to arguments without a usable bounty number, for the given action.
pub fn bounty_arg_error_text(e: BountyArgError, operation: &str) -> (r: String)
    ensures
        r@ == match e {
            BountyArgError::MissingId => "Provide a bounty ID to "@ + operation@ + " that bounty."@,
            BountyArgError::InvalidId => "Could not parse the bounty ID."@,
        },
{
    let mut v: Vec<char> = Vec::new();
    match e {
        BountyArgError::MissingId => {
            append_str(&mut v, "Provide a bounty ID to ");
            append_str(&mut v, operation);
            append_str(&mut v, " that bounty.");
        },
        BountyArgError::InvalidId => {
            append_str(&mut v, "Could not parse the bounty ID.");
        },
    }
    string_of(v.as_slice())
}

proof fn lemma_first_space(d: Seq<char>, rest: Seq<char>)
    requires
        forall|i: int| 0 <= i < d.len() ==> d[i] != ' ',
    ensures
        first_index_of(d + seq![' '] + rest, ' ') == Some(d.len() as int),
    decreases d.len(),
{
    let s = d + seq![' '] + rest;
    if d.len() == 0 {
        assert(s[0] == ' ');
    } else {
        assert(s[0] == d[0]);
        assert(s.drop_first() =~= d.drop_first() + seq![' '] + rest);
        lemma_first_space(d.drop_first(), rest);
    }
}

proof fn lemma_no_space(d: Seq<char>)
    requires
        forall|i: int| 0 <= i < d.len() ==> d[i] != ' ',
    ensures
        first_index_of(d, ' ') is None,
    decreases d.len(),
{
    if d.len() > 0 {
        assert(d.drop_first().len() < d.len());
        lemma_no_space(d.drop_first());
    }
}

/// Arguments written as a bounty number, a space and the rest (with no
/// whitespace at its end) are read back as that number and that rest.
pub proof fn law_bounty_args_roundtrip(n: u64, rest: Seq<char>)
    requires
        rest.len() == 0 || !is_ws(rest.last()),
    ensures
        bounty_args(decimal(n as nat) + seq![' '] + rest) == Ok::<(BountyNum, Seq<char>), BountyArgError>((BountyNum(n), rest)),
{
    lemma_decimal_digits(n as nat);
    lemma_parse_decimal(n);
    let d = decimal(n as nat);
    assert(!is_ws(d[0])) by {
        assert(is_digit(d[0]));
    }
    assert(!is_ws(d.last())) by {
        assert(is_digit(d[d.len() - 1]));
    }
    assert forall|i: int| 0 <= i < d.len() implies d[i] != ' ' by {
        assert(is_digit(d[i]));
    }
    let s = d + seq![' '] + rest;
    if rest.len() == 0 {
        assert(s =~= d.push(' '));
        assert(trim(s) == d) by {
            assert(trim_start(s) == s);
            assert(s.drop_last() =~= d);
            assert(is_trimmed(d));
            lemma_trimmed_fixed(d);
        }
        lemma_no_space(d);
        assert(split_at_space(d) == (d, Seq::<char>::empty()));
        assert(rest =~= Seq::<char>::empty());
        assert(split_at_space(trim(s)) == (d, rest));
    } else {
        assert(s.last() == rest.last());
        assert(s[0] == d[0]);
        assert(is_trimmed(s));
        lemma_trimmed_fixed(s);
        lemma_first_space(d, rest);
        assert(s.take(d.len() as int) =~= d);
        assert(s.skip(d.len() as int + 1) =~= rest);
        assert(split_at_space(trim(s)) == (d, rest));
    }
}

} // verus!
