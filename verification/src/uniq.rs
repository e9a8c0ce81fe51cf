//! `uniq`: runs of lines that are the same but for white space at their
//! ends, each reported once, with its length where that is wanted.

use crate::decimal::{decimal_digits, push_decimal};
use crate::text::{pad_left, padded_left, text_eq, trim_end, trimmed_end};
use vstd::prelude::*;
use vstd::string::*;

verus! {

/// The state of a scan: the line that the run at hand began with, the length
/// of that run, and the runs that are closed, each with its length and its
/// first line.
pub struct Scan {
    pub previous: Seq<char>,
    pub count: nat,
    pub closed: Seq<(nat, Seq<char>)>,
}

/// The scan of `lines`. It starts with an empty line at hand and a run of
/// length zero. A line that equals the one at hand, white space at the ends
/// apart, lengthens the run; any other line closes the run and begins one of
/// its own. A run of length zero is dropped when it closes.
pub open spec fn scan(lines: Seq<Seq<char>>) -> Scan
    decreases lines.len(),
{
    if lines.len() == 0 {
        Scan { previous: Seq::empty(), count: 0, closed: Seq::empty() }
    } else {
        let before = scan(lines.drop_last());
        if trimmed_end(lines.last()) != trimmed_end(before.previous) {
            Scan {
                previous: lines.last(),
                count: 1,
                closed: if before.count > 0 {
                    before.closed.push((before.count, before.previous))
                } else {
                    before.closed
                },
            }
        } else {
            Scan { previous: before.previous, count: before.count + 1, closed: before.closed }
        }
    }
}

/// The runs of `lines`, the last one included.
pub open spec fn runs(lines: Seq<Seq<char>>) -> Seq<(nat, Seq<char>)> {
    let end = scan(lines);
    if end.count > 0 {
        end.closed.push((end.count, end.previous))
    } else {
        end.closed
    }
}

/// What is written for a run: its first line, after the length of the run at
/// the right of four characters and a space where counts are shown.
pub open spec fn run_text(run: (nat, Seq<char>), show_count: bool) -> Seq<char> {
    if show_count {
        padded_left(decimal_digits(run.0), 4) + " "@ + run.1
    } else {
        run.1
    }
}

/// What is written for `lines`, run by run.
pub open spec fn uniq_spec(lines: Seq<Seq<char>>, show_count: bool) -> Seq<Seq<char>> {
    Seq::new(runs(lines).len(), |i: int| run_text(runs(lines)[i], show_count))
}

/// The text for a run of `count` lines that began with `text`.
fn write_run(count: u64, text: &str, show_count: bool) -> (out: String)
    ensures
        out@ == run_text((count as nat, text@), show_count),
{
    if show_count {
        let mut number = String::new();
        push_decimal(&mut number, count);
        let mut out = pad_left(number.as_str(), 4);
        out.append(" ");
        out.append(text);
        proof {
            assert(number@ =~= decimal_digits(count as nat));
        }
        out
    } else {
        String::from_str(text)
    }
}

/// The texts to write for `lines`, each line with its terminator as it was
/// read: one for each run, in order.
pub fn uniq(lines: &Vec<String>, show_count: bool) -> (out: Vec<String>)
    ensures
        out.deep_view() == uniq_spec(lines.deep_view(), show_count),
{
    let ghost all = lines.deep_view();
    let mut out: Vec<String> = Vec::new();
    let mut previous = String::new();
    let mut count: u64 = 0;
    let mut i: usize = 0;
    proof {
        assert(all.take(0) =~= Seq::<Seq<char>>::empty());
    }
    while i < lines.len()
        invariant
            i <= lines.len(),
            all == lines.deep_view(),
            previous@ == scan(all.take(i as int)).previous,
            count == scan(all.take(i as int)).count,
            count <= i,
            out@.len() == scan(all.take(i as int)).closed.len(),
            forall|k: int|
                0 <= k < out@.len() ==> (#[trigger] out@[k])@ == run_text(
                    scan(all.take(i as int)).closed[k],
                    show_count,
                ),
        decreases lines.len() - i,
    {
        proof {
            assert(all.take(i + 1).drop_last() =~= all.take(i as int));
            assert(all.take(i + 1).last() == lines@[i as int]@);
        }
        let same = text_eq(trim_end(lines[i].as_str()), trim_end(previous.as_str()));
        if !same {
            if count > 0 {
                out.push(write_run(count, previous.as_str(), show_count));
            }
            previous = lines[i].clone();
            count = 0;
        }
        count = count + 1;
        i = i + 1;
    }
    proof {
        assert(all.take(i as int) =~= all);
    }
    if count > 0 {
        out.push(write_run(count, previous.as_str(), show_count));
    }
    proof {
        assert(out.deep_view() =~= uniq_spec(all, show_count));
    }
    out
}

} // verus!
