//! Reading one line of typed input: its ending, the word that asks to
//! stop, and the die rolls, one decimal digit per roll.

use vstd::prelude::*;
use vstd::string::StrSliceExecFns;

verus! {

/// What is left of a line once its ending is taken off: first one line feed
/// at the end, then one carriage return at the end.
pub open spec fn without_line_ending(line: Seq<char>) -> Seq<char> {
    let body = if line.len() > 0 && line.last() == '\n' {
        line.drop_last()
    } else {
        line
    };
    if body.len() > 0 && body.last() == '\r' {
        body.drop_last()
    } else {
        body
    }
}

/// Whether a line asks to stop: it is the letter `q`, small or capital,
/// and nothing else.
pub open spec fn asks_to_quit(line: Seq<char>) -> bool {
    line.len() == 1 && (line[0] == 'q' || line[0] == 'Q')
}

/// Whether `c` is one of the decimal digits `0` to `9`.
pub open spec fn is_digit(c: char) -> bool {
    '0' <= c <= '9'
}

/// Whether a line holds decimal digits and nothing else.
pub open spec fn all_digits(line: Seq<char>) -> bool {
    forall|i: int| 0 <= i < line.len() ==> is_digit(#[trigger] line[i])
}

/// The number that a decimal digit stands for.
pub open spec fn digit_value(c: char) -> usize {
    (c as u32 - '0' as u32) as usize
}

/// The rolls that a line of digits stands for: one roll per character.
pub open spec fn rolls_of(line: Seq<char>) -> Seq<usize> {
    Seq::new(line.len(), |i: int| digit_value(line[i]))
}

/// Takes the line ending off a line that was read. A line with nothing
/// before its ending gives nothing.
pub fn strip_line_ending(line: &str) -> (stripped: Option<&str>)
    ensures
        stripped is Some <==> without_line_ending(line@).len() > 0,
        stripped matches Some(rest) ==> rest@ == without_line_ending(line@),
{
    let mut end: usize = line.unicode_len();
    if end > 0 && line.get_char(end - 1) == '\n' {
        end = end - 1;
    }
    if end > 0 && line.get_char(end - 1) == '\r' {
        end = end - 1;
    }
    if end == 0 {
        None
    } else {
        let rest = line.substring_char(0, end);
        Some(rest)
    }
}

/// Tells whether a line asks to stop.
pub fn is_quit(line: &str) -> (quit: bool)
    ensures
        quit == asks_to_quit(line@),
{
    if line.unicode_len() != 1 {
        return false;
    }
    let c = line.get_char(0);
    c == 'q' || c == 'Q'
}

/// Reads a line as die rolls, one decimal digit per roll. A line with any
/// other character gives nothing.
pub fn parse_rolls(line: &str) -> (rolls: Option<Vec<usize>>)
    ensures
        rolls is Some <==> all_digits(line@),
        rolls matches Some(values) ==> values@ == rolls_of(line@),
{
    let len: usize = line.unicode_len();
    let mut values: Vec<usize> = Vec::new();
    let mut done: usize = 0;
    while done < len
        invariant
            len == line@.len(),
            done <= len,
            all_digits(line@.take(done as int)),
            values@ == rolls_of(line@.take(done as int)),
        decreases len - done,
    {
        let c = line.get_char(done);
        if c < '0' || c > '9' {
            return None;
        }
        let value: usize = (c as u32 - '0' as u32) as usize;
        values.push(value);
        proof {
            let next = line@.take(done + 1);
            assert(all_digits(next)) by {
                assert forall|i: int| 0 <= i < next.len() implies is_digit(#[trigger] next[i]) by {
                    if i < done {
                        assert(next[i] == line@.take(done as int)[i]);
                    }
                }
            }
            assert(values@ =~= rolls_of(next));
        }
        done = done + 1;
    }
    assert(line@.take(done as int) =~= line@);
    Some(values)
}

} // verus!
