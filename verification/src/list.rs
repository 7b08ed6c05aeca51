//! Reading the subvolume listing: which lines name a subvolume of the top levels.

use crate::text::{chars_of, decimal, find_word, parse_decimal, word};
use vstd::prelude::*;
use vstd::slice::slice_subrange;
use vstd::string::StrSliceExecFns;

verus! {

/// The level from which on a subvolume is left out of the list.
pub const LEVEL_LIMIT: i64 = 256;

/// The number of characters from `from` up to the next line feed, or to the end of the
/// text.
pub open spec fn line_len(text: Seq<char>, from: int) -> nat
    decreases text.len() - from,
{
    if 0 <= from < text.len() && text[from] != '\n' {
        1 + line_len(text, from + 1)
    } else {
        0
    }
}

/// Where the line that begins at `from` ends: at the next line feed, or at the end of
/// the text.
pub open spec fn line_end(text: Seq<char>, from: int) -> int {
    from + line_len(text, from)
}

/// The subvolume that a line of the listing names: its ninth word, where its seventh
/// word is a level below `LEVEL_LIMIT`. A line of another shape names none.
pub open spec fn subvolume(line: Seq<char>) -> Option<Seq<char>> {
    match word(line, 6) {
        None => None,
        Some(level) => match decimal(level) {
            None => None,
            Some(value) => if value >= LEVEL_LIMIT {
                None
            } else {
                word(line, 8)
            },
        },
    }
}

/// The subvolumes that the lines of `text` name, from `from` on, in the order of the
/// lines.
pub open spec fn subvolumes(text: Seq<char>, from: int) -> Seq<Seq<char>>
    decreases text.len() - from,
{
    if 0 <= from < text.len() {
        let end = line_end(text, from);
        let here = match subvolume(text.subrange(from, end)) {
            Some(name) => seq![name],
            None => Seq::empty(),
        };
        if end < text.len() {
            here + subvolumes(text, end + 1)
        } else {
            here
        }
    } else {
        Seq::empty()
    }
}

/// Finds the end of the line that begins at `from`.
fn end_of_line(text: &[char], from: usize) -> (r: usize)
    requires
        from <= text@.len(),
    ensures
        r == line_end(text@, from as int),
        from <= r <= text@.len(),
{
    let total: usize = text.len();
    let mut i: usize = from;
    while i < total && text[i] != '\n'
        invariant
            total == text@.len(),
            from <= i <= total,
            line_end(text@, from as int) == line_end(text@, i as int),
        decreases total - i,
    {
        i = i + 1;
    }
    i
}

/// Reads one line of the listing: where in the line the name of its subvolume stands,
/// if it names one.
fn subvolume_span(line: &[char]) -> (r: Option<(usize, usize)>)
    ensures
        match r {
            Some((start, end)) => {
                &&& start < end <= line@.len()
                &&& subvolume(line@) == Some(line@.subrange(start as int, end as int))
            },
            None => subvolume(line@).is_none(),
        },
{
    match find_word(line, 6) {
        None => None,
        Some((start, end)) => {
            match parse_decimal(slice_subrange(line, start, end)) {
                None => None,
                Some(value) => {
                    if value >= LEVEL_LIMIT {
                        None
                    } else {
                        find_word(line, 8)
                    }
                },
            }
        },
    }
}

/// Reads the listing that the subvolume tool printed and returns the names of the
/// subvolumes it lists below `LEVEL_LIMIT`, in the order of the lines. Lines of
/// another shape are passed over.
pub fn run(stdout: &str) -> (r: Vec<String>)
    ensures
        r@.len() == subvolumes(stdout@, 0).len(),
        forall|i: int| 0 <= i < r@.len() ==> (#[trigger] r@[i])@ == subvolumes(stdout@, 0)[i],
{
    let text = chars_of(stdout);
    let total: usize = text.len();
    let mut names: Vec<String> = Vec::new();
    let mut from: usize = 0;
    let ghost all = subvolumes(stdout@, 0);
    while from < total
        invariant
            text@ == stdout@,
            total == text@.len(),
            from <= total,
            all == subvolumes(stdout@, 0),
            names@.len() + subvolumes(text@, from as int).len() == all.len(),
            forall|i: int| 0 <= i < names@.len() ==> (#[trigger] names@[i])@ == all[i],
            forall|i: int|
                0 <= i < subvolumes(text@, from as int).len() ==> subvolumes(
                    text@,
                    from as int,
                )[i] == all[names@.len() + i],
        decreases total - from,
    {
        let end = end_of_line(text.as_slice(), from);
        let line = slice_subrange(text.as_slice(), from, end);
        let ghost rest = if end < total {
            subvolumes(text@, end + 1)
        } else {
            Seq::<Seq<char>>::empty()
        };
        match subvolume_span(line) {
            Some((start, stop)) => {
                let name = stdout.substring_char(from + start, from + stop);
                proof {
                    assert(name@ =~= line@.subrange(start as int, stop as int));
                    assert(subvolumes(text@, from as int) =~= seq![name@] + rest);
                    assert(subvolumes(text@, from as int)[0] == name@);
                    assert forall|i: int| 0 <= i < rest.len() implies rest[i] == all[names@.len()
                        + 1 + i] by {
                        assert(subvolumes(text@, from as int)[i + 1] == rest[i]);
                    }
                }
                names.push(name.to_owned());
            },
            None => {
                proof {
                    assert(subvolumes(text@, from as int) =~= rest);
                }
            },
        }
        if end < total {
            from = end + 1;
        } else {
            from = total;
        }
    }
    names
}

} // verus!
