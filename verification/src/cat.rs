//! `cat`: the lines of a file, with numbers where they are wanted.

use crate::decimal::{decimal_digits, push_decimal};
use crate::text::{pad_left, padded_left};
use vstd::prelude::*;
use vstd::string::*;

verus! {

/// The number of lines in `lines` that are not empty.
pub open spec fn nonblank_count(lines: Seq<Seq<char>>) -> nat
    decreases lines.len(),
{
    if lines.len() == 0 {
        0
    } else {
        nonblank_count(lines.drop_last()) + if lines.last().len() > 0 {
            1nat
        } else {
            0nat
        }
    }
}

/// A line after its number: the number at the right of six characters, a
/// tab, the line.
pub open spec fn numbered(number: nat, line: Seq<char>) -> Seq<char> {
    padded_left(decimal_digits(number), 6) + "\t"@ + line
}

/// What is printed for line `i` of a file. Where all lines are numbered, its
/// number counted from one; where the lines that are not empty are numbered,
/// its number among those, and nothing for an empty line; else the line.
pub open spec fn cat_line(
    lines: Seq<Seq<char>>,
    i: int,
    number_lines: bool,
    number_nonblank_lines: bool,
) -> Seq<char> {
    if number_lines {
        numbered((i + 1) as nat, lines[i])
    } else if number_nonblank_lines {
        if lines[i].len() == 0 {
            Seq::empty()
        } else {
            numbered(nonblank_count(lines.take(i + 1)), lines[i])
        }
    } else {
        lines[i]
    }
}

/// What is printed for a file, line by line.
pub open spec fn cat_spec(lines: Seq<Seq<char>>, number_lines: bool, number_nonblank_lines: bool)
    -> Seq<Seq<char>> {
    Seq::new(lines.len(), |i: int| cat_line(lines, i, number_lines, number_nonblank_lines))
}

/// A line after its number.
fn number_line(number: u64, line: &str) -> (out: String)
    ensures
        out@ == numbered(number as nat, line@),
{
    let mut digits = String::new();
    push_decimal(&mut digits, number);
    let mut out = pad_left(digits.as_str(), 6);
    out.append("\t");
    out.append(line);
    proof {
        assert(digits@ =~= decimal_digits(number as nat));
    }
    out
}

/// The lines to print for the lines of one file. Numbers start anew with
/// each file.
pub fn cat(lines: &Vec<String>, number_lines: bool, number_nonblank_lines: bool) -> (out: Vec<
    String,
>)
    ensures
        out.deep_view() == cat_spec(lines.deep_view(), number_lines, number_nonblank_lines),
{
    let ghost all = lines.deep_view();
    let ghost want = cat_spec(all, number_lines, number_nonblank_lines);
    let mut out: Vec<String> = Vec::new();
    let mut nonblank: u64 = 0;
    let mut i: usize = 0;
    proof {
        assert(all.take(0) =~= Seq::<Seq<char>>::empty());
    }
    while i < lines.len()
        invariant
            i <= lines.len(),
            all == lines.deep_view(),
            want == cat_spec(all, number_lines, number_nonblank_lines),
            nonblank == nonblank_count(all.take(i as int)),
            nonblank <= i,
            out.deep_view() == want.take(i as int),
        decreases lines.len() - i,
    {
        proof {
            assert(all.take(i + 1).drop_last() =~= all.take(i as int));
            assert(all.take(i + 1).last() == lines@[i as int]@);
            assert(all[i as int] == lines@[i as int]@);
        }
        let line = lines[i].as_str();
        let blank: bool = line.is_empty();
        if !blank {
            nonblank = nonblank + 1;
        }
        let text = if number_lines {
            number_line((i + 1) as u64, line)
        } else if number_nonblank_lines {
            if blank {
                String::new()
            } else {
                number_line(nonblank, line)
            }
        } else {
            String::from_str(line)
        };
        let ghost before = out.deep_view();
        out.push(text);
        proof {
            assert(text@ == want[i as int]);
            assert(out.deep_view() =~= before.push(text@));
            assert(want.take(i + 1) =~= want.take(i as int).push(want[i as int]));
        }
        i = i + 1;
    }
    proof {
        assert(want.take(i as int) =~= want);
    }
    out
}

} // verus!
