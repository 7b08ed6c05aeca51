//! Characters, words and decimal numbers: what the command line and the listing
//! parser read text with.

use vstd::prelude::*;
use vstd::slice::slice_subrange;
use vstd::string::StrSliceExecFns;

verus! {

/// Whether `c` is whitespace: one of the code points with the Unicode property
/// White_Space.
pub open spec fn is_space(c: char) -> bool {
    let u = c as u32;
    ||| 0x0009 <= u <= 0x000D
    ||| u == 0x0020
    ||| u == 0x0085
    ||| u == 0x00A0
    ||| u == 0x1680
    ||| 0x2000 <= u <= 0x200A
    ||| u == 0x2028
    ||| u == 0x2029
    ||| u == 0x202F
    ||| u == 0x205F
    ||| u == 0x3000
}

/// `char::is_whitespace`: whether `c` has the Unicode property White_Space, which the
/// code points listed in `is_space` have and no others.
#[verifier::external_body]
pub(crate) fn whitespace(c: char) -> (r: bool)
    ensures
        r == is_space(c),
{
    c.is_whitespace()
}

/// The characters of `s`, one by one.
pub fn chars_of(s: &str) -> (r: Vec<char>)
    ensures
        r@ == s@,
{
    let mut out: Vec<char> = Vec::new();
    for c in it: s.chars()
        invariant
            it.seq() == s@,
            out@ == it.seq().take(it.index() as int),
    {
        out.push(c);
        assert(it.seq().take(it.index() + 1) =~= it.seq().take(it.index() as int).push(c));
    }
    assert(out@ =~= s@);
    out
}

/// Whether `long` begins with `short`.
pub open spec fn is_prefix(short: Seq<char>, long: Seq<char>) -> bool {
    short.len() <= long.len() && long.take(short.len() as int) == short
}

/// Tells whether `long` begins with `short`.
pub fn starts_with(long: &[char], short: &[char]) -> (r: bool)
    ensures
        r == is_prefix(short@, long@),
{
    let n: usize = short.len();
    if n > long.len() {
        return false;
    }
    let mut i: usize = 0;
    while i < n
        invariant
            n == short@.len(),
            n <= long@.len(),
            i <= n,
            forall|j: int| 0 <= j < i ==> long@[j] == short@[j],
        decreases n - i,
    {
        if long[i] != short[i] {
            assert(long@.take(n as int)[i as int] != short@[i as int]);
            return false;
        }
        i = i + 1;
    }
    assert(long@.take(n as int) =~= short@);
    true
}

/// Tells whether `a` and `b` hold the same characters.
pub fn same_chars(a: &[char], b: &[char]) -> (r: bool)
    ensures
        r == (a@ == b@),
{
    if a.len() != b.len() {
        return false;
    }
    let r = starts_with(a, b);
    assert(a@.take(a@.len() as int) =~= a@);
    r
}

/// The first place at or after `from` that holds no whitespace, or the end.
pub open spec fn skip_spaces(s: Seq<char>, from: int) -> int
    decreases s.len() - from,
{
    if 0 <= from < s.len() && is_space(s[from]) {
        skip_spaces(s, from + 1)
    } else {
        from
    }
}

/// The first place at or after `from` that holds whitespace, or the end.
pub open spec fn skip_word(s: Seq<char>, from: int) -> int
    decreases s.len() - from,
{
    if 0 <= from < s.len() && !is_space(s[from]) {
        skip_word(s, from + 1)
    } else {
        from
    }
}

/// Where word `n` of `s` begins and ends, counting from 0 the words that begin at or
/// after `from`. A word is a longest run of characters that are no whitespace.
pub open spec fn word_span(s: Seq<char>, from: int, n: nat) -> Option<(int, int)>
    decreases n,
{
    let start = skip_spaces(s, from);
    let end = skip_word(s, start);
    if start >= s.len() {
        None
    } else if n == 0 {
        Some((start, end))
    } else {
        word_span(s, end, (n - 1) as nat)
    }
}

/// Word `n` of `s`, or `None` where `s` has no more than `n` words.
pub open spec fn word(s: Seq<char>, n: nat) -> Option<Seq<char>> {
    match word_span(s, 0, n) {
        Some((start, end)) => Some(s.subrange(start, end)),
        None => None,
    }
}

/// Steps over whitespace from `from` on.
pub fn past_spaces(s: &[char], from: usize) -> (r: usize)
    requires
        from <= s@.len(),
    ensures
        r == skip_spaces(s@, from as int),
        from <= r <= s@.len(),
        r < s@.len() ==> !is_space(s@[r as int]),
{
    let total: usize = s.len();
    let mut i: usize = from;
    while i < total && whitespace(s[i])
        invariant
            total == s@.len(),
            from <= i <= total,
            skip_spaces(s@, from as int) == skip_spaces(s@, i as int),
        decreases total - i,
    {
        i = i + 1;
    }
    i
}

/// Steps over a word from `from` on.
pub fn past_word(s: &[char], from: usize) -> (r: usize)
    requires
        from <= s@.len(),
    ensures
        r == skip_word(s@, from as int),
        from <= r <= s@.len(),
        from < s@.len() && !is_space(s@[from as int]) ==> from < r,
{
    let total: usize = s.len();
    let mut i: usize = from;
    while i < total && !whitespace(s[i])
        invariant
            total == s@.len(),
            from <= i <= total,
            skip_word(s@, from as int) == skip_word(s@, i as int),
            from < total && !is_space(s@[from as int]) && i == from ==> !is_space(s@[i as int]),
        decreases total - i,
    {
        i = i + 1;
    }
    i
}

/// Finds word `n` of `s`: where it begins and where it ends.
pub fn find_word(s: &[char], n: usize) -> (r: Option<(usize, usize)>)
    ensures
        match r {
            Some((start, end)) => {
                &&& word_span(s@, 0, n as nat) == Some((start as int, end as int))
                &&& start < end <= s@.len()
            },
            None => word_span(s@, 0, n as nat).is_none(),
        },
{
    let mut at: usize = 0;
    let mut left: usize = n;
    loop
        invariant
            at <= s@.len(),
            word_span(s@, 0, n as nat) == word_span(s@, at as int, left as nat),
        decreases left,
    {
        let start = past_spaces(s, at);
        if start >= s.len() {
            return None;
        }
        let end = past_word(s, start);
        if left == 0 {
            return Some((start, end));
        }
        at = end;
        left = left - 1;
    }
}

/// Where `s` ends once the whitespace at its end is left off.
pub open spec fn trim_end(s: Seq<char>) -> int
    decreases s.len(),
{
    if s.len() > 0 && is_space(s.last()) {
        trim_end(s.drop_last())
    } else {
        s.len() as int
    }
}

/// `s` without the whitespace at its beginning and at its end.
pub open spec fn trimmed(s: Seq<char>) -> Seq<char> {
    let end = trim_end(s);
    let start = skip_spaces(s.take(end), 0);
    s.subrange(start, end)
}

/// Leaves off the whitespace at the beginning and at the end of `s`.
pub fn trim(s: &str) -> (r: String)
    ensures
        r@ == trimmed(s@),
{
    let chars = chars_of(s);
    let mut end: usize = chars.len();
    assert(chars@.take(end as int) =~= chars@);
    while end > 0 && whitespace(chars[end - 1])
        invariant
            end <= chars@.len(),
            trim_end(chars@.take(end as int)) == trim_end(chars@),
        decreases end,
    {
        assert(chars@.take(end as int).drop_last() =~= chars@.take(end - 1));
        end = end - 1;
    }
    let kept = slice_subrange(chars.as_slice(), 0, end);
    assert(kept@ =~= chars@.take(end as int));
    let start = past_spaces(kept, 0);
    s.substring_char(start, end).to_owned()
}

/// The value of a run of decimal digits, read as a number.
pub open spec fn digits_value(s: Seq<char>) -> int
    decreases s.len(),
{
    if s.len() == 0 {
        0
    } else {
        digits_value(s.drop_last()) * 10 + (s.last() as int - '0' as int)
    }
}

/// Whether every character of `s` is one of the digits `0` to `9`.
pub open spec fn all_digits(s: Seq<char>) -> bool {
    forall|i: int| 0 <= i < s.len() ==> '0' <= #[trigger] s[i] <= '9'
}

/// The 64-bit integer that `s` spells in decimal: an optional sign `+` or `-`, then at
/// least one digit and nothing else. `None` where `s` has another shape or the number
/// does not fit.
pub open spec fn decimal(s: Seq<char>) -> Option<i64> {
    let negative = s.len() > 0 && s[0] == '-';
    let signed = s.len() > 0 && (s[0] == '-' || s[0] == '+');
    let body = if signed {
        s.skip(1)
    } else {
        s
    };
    let value = if negative {
        -digits_value(body)
    } else {
        digits_value(body)
    };
    if body.len() == 0 || !all_digits(body) || value < i64::MIN || value > i64::MAX {
        None
    } else {
        Some(value as i64)
    }
}

/// More digits never make a number smaller.
pub proof fn lemma_digits_grow(s: Seq<char>, n: int)
    requires
        all_digits(s),
        0 <= n <= s.len(),
    ensures
        0 <= digits_value(s.take(n)) <= digits_value(s),
    decreases s.len() - n,
{
    if n == 0 {
        assert(s.take(0).len() == 0);
        lemma_digits_nonnegative(s);
    } else if n == s.len() {
        assert(s.take(n) =~= s);
        lemma_digits_nonnegative(s);
    } else {
        lemma_digits_grow(s, n + 1);
        let longer = s.take(n + 1);
        assert(longer.drop_last() =~= s.take(n));
        lemma_digits_nonnegative(s.take(n));
        assert('0' <= s[n] <= '9');
        assert(longer.last() == s[n]);
    }
}

/// A run of digits spells no negative number.
pub proof fn lemma_digits_nonnegative(s: Seq<char>)
    requires
        all_digits(s),
    ensures
        0 <= digits_value(s),
    decreases s.len(),
{
    if s.len() > 0 {
        lemma_digits_nonnegative(s.drop_last());
        assert('0' <= s[s.len() - 1] <= '9');
    }
}

/// Reads `s` as a 64-bit integer in decimal.
pub fn parse_decimal(s: &[char]) -> (r: Option<i64>)
    ensures
        r == decimal(s@),
{
    let total: usize = s.len();
    if total == 0 {
        return None;
    }
    let negative: bool = s[0] == '-';
    let first: usize = if s[0] == '-' || s[0] == '+' {
        1
    } else {
        0
    };
    if first == total {
        return None;
    }
    let ghost body = if first == 1 {
        s@.skip(1)
    } else {
        s@
    };
    assert(body =~= s@.subrange(first as int, total as int));
    // The number is gathered below zero, where the range reaches one further.
    let mut acc: i64 = 0;
    let mut i: usize = first;
    while i < total
        invariant
            0 < total == s@.len(),
            negative == (s@[0] == '-'),
            first == if s@[0] == '-' || s@[0] == '+' {
                1usize
            } else {
                0usize
            },
            first <= i <= total,
            body == s@.subrange(first as int, total as int),
            all_digits(body.take(i - first)),
            acc == -digits_value(body.take(i - first)),
            acc <= 0,
        decreases total - i,
    {
        let c: char = s[i];
        let ghost seen = body.take(i - first);
        let ghost more = body.take(i - first + 1);
        proof {
            assert(more.drop_last() =~= seen);
            assert(more.last() == c);
            assert(body[i - first] == c);
        }
        if c < '0' || c > '9' {
            assert(body =~= s@.skip(first as int));
            assert(!all_digits(body));
            return None;
        }
        let digit: i64 = (c as u32 - '0' as u32) as i64;
        proof {
            assert forall|j: int| 0 <= j < more.len() implies '0' <= #[trigger] more[j] <= '9' by {
                if j < seen.len() {
                    assert(seen[j] == more[j]);
                }
            }
        }
        if acc < -922337203685477580 || (acc == -922337203685477580 && digit > 8) {
            proof {
                // The digits so far already spell a number beyond the range.
                assert(digits_value(more) > -(i64::MIN as int));
                assert(body =~= s@.skip(first as int));
                assert(s@.skip(0) =~= s@);
                if all_digits(body) {
                    lemma_digits_grow(body, i - first + 1);
                    assert(digits_value(body) >= digits_value(more));
                    assert(digits_value(body) > i64::MAX + 1);
                }
                assert(decimal(s@).is_none());
            }
            return None;
        }
        acc = acc * 10 - digit;
        i = i + 1;
    }
    assert(body.take(total - first) =~= body);
    assert(body =~= s@.skip(first as int));
    if negative {
        Some(acc)
    } else if acc == i64::MIN {
        None
    } else {
        Some(-acc)
    }
}

} // verus!
