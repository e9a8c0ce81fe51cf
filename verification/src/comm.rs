//! `comm`: two sorted lists of lines, merged into three columns.

use crate::text::{chars_of, lowercase, text_eq, to_lowercase};
use vstd::prelude::*;
use vstd::string::*;

verus! {

/// How one text stands to another in the order of texts.
#[derive(Debug, Clone, Copy, PartialEq, Eq, Structural)]
pub enum Rank {
    Lower,
    Same,
    Higher,
}

/// `a` comes before `b`: at the first place where they differ `a` has the
/// character with the lower code, or `a` ends there and `b` goes on.
pub open spec fn text_less(a: Seq<char>, b: Seq<char>) -> bool
    decreases a.len(),
{
    if b.len() == 0 {
        false
    } else if a.len() == 0 {
        true
    } else if a.first() != b.first() {
        a.first() < b.first()
    } else {
        text_less(a.drop_first(), b.drop_first())
    }
}

/// How `a` stands to `b`.
pub open spec fn rank_spec(a: Seq<char>, b: Seq<char>) -> Rank {
    if a == b {
        Rank::Same
    } else if text_less(a, b) {
        Rank::Lower
    } else {
        Rank::Higher
    }
}

/// Compares two texts character by character.
pub fn rank(a: &str, b: &str) -> (r: Rank)
    ensures
        r == rank_spec(a@, b@),
{
    let x = chars_of(a);
    let y = chars_of(b);
    let mut i: usize = 0;
    proof {
        assert(x@.skip(0) =~= x@);
        assert(y@.skip(0) =~= y@);
    }
    while i < x.len() && i < y.len() && x[i] == y[i]
        invariant
            i <= x.len(),
            i <= y.len(),
            x@ == a@,
            y@ == b@,
            x@.take(i as int) == y@.take(i as int),
            text_less(x@, y@) == text_less(x@.skip(i as int), y@.skip(i as int)),
        decreases x.len() - i,
    {
        proof {
            let xs = x@.skip(i as int);
            let ys = y@.skip(i as int);
            assert(xs.first() == x@[i as int]);
            assert(ys.first() == y@[i as int]);
            assert(xs.drop_first() =~= x@.skip(i + 1));
            assert(ys.drop_first() =~= y@.skip(i + 1));
            assert(x@.take(i + 1) =~= x@.take(i as int).push(x@[i as int]));
            assert(y@.take(i + 1) =~= y@.take(i as int).push(y@[i as int]));
        }
        i = i + 1;
    }
    proof {
        let xs = x@.skip(i as int);
        let ys = y@.skip(i as int);
        if i < x.len() {
            assert(xs.first() == x@[i as int]);
        }
        if i < y.len() {
            assert(ys.first() == y@[i as int]);
        }
        if i == x.len() && i == y.len() {
            assert(x@.take(i as int) =~= x@);
            assert(y@.take(i as int) =~= y@);
        } else if i < x.len() && i < y.len() {
            assert(x@[i as int] != y@[i as int]);
        } else {
            assert(x@.len() != y@.len());
        }
    }
    if i == x.len() && i == y.len() {
        Rank::Same
    } else if i == x.len() {
        Rank::Lower
    } else if i == y.len() {
        Rank::Higher
    } else if x[i] < y[i] {
        Rank::Lower
    } else {
        Rank::Higher
    }
}

/// Where a line was found.
#[derive(Debug, Clone, Copy, PartialEq, Eq, Structural)]
pub enum Column {
    /// In the first list only.
    First,
    /// In the second list only.
    Second,
    /// In both lists.
    Both,
}

/// The lines of two lists in one, each with its column: the lists are walked
/// together, the lower of the two lines at hand goes out first, and a line
/// that both have at hand goes out once. Where one list is at its end, the
/// rest of the other follows.
pub open spec fn merged(a: Seq<Seq<char>>, b: Seq<Seq<char>>) -> Seq<(Column, Seq<char>)>
    decreases a.len() + b.len(),
{
    if a.len() == 0 && b.len() == 0 {
        Seq::empty()
    } else if b.len() == 0 {
        seq![(Column::First, a.first())] + merged(a.drop_first(), b)
    } else if a.len() == 0 {
        seq![(Column::Second, b.first())] + merged(a, b.drop_first())
    } else {
        match rank_spec(a.first(), b.first()) {
            Rank::Same => seq![(Column::Both, a.first())] + merged(a.drop_first(), b.drop_first()),
            Rank::Lower => seq![(Column::First, a.first())] + merged(a.drop_first(), b),
            Rank::Higher => seq![(Column::Second, b.first())] + merged(a, b.drop_first()),
        }
    }
}

/// Which columns are printed, what stands between them, and whether case
/// counts.
#[derive(Debug)]
pub struct Options {
    pub show_col1: bool,
    pub show_col2: bool,
    pub show_col3: bool,
    pub insensitive: bool,
    pub delimiter: String,
}

/// The line printed for a text in a column: nothing for a column that is
/// switched off; otherwise the text, after one delimiter for each column
/// before its own that is switched on.
pub open spec fn column_line(
    column: Column,
    text: Seq<char>,
    show_col1: bool,
    show_col2: bool,
    show_col3: bool,
    delimiter: Seq<char>,
) -> Option<Seq<char>> {
    let first = if show_col1 {
        delimiter
    } else {
        Seq::empty()
    };
    let second = if show_col2 {
        delimiter
    } else {
        Seq::empty()
    };
    match column {
        Column::First => if show_col1 {
            Some(text)
        } else {
            None
        },
        Column::Second => if show_col2 {
            Some(first + text)
        } else {
            None
        },
        Column::Both => if show_col3 {
            Some(first + second + text)
        } else {
            None
        },
    }
}

/// The line to print for a text in a column, if any.
pub fn print_column(column: Column, text: &str, options: &Options) -> (line: Option<String>)
    ensures
        match line {
            Some(l) => column_line(
                column,
                text@,
                options.show_col1,
                options.show_col2,
                options.show_col3,
                options.delimiter@,
            ) == Some(l@),
            None => column_line(
                column,
                text@,
                options.show_col1,
                options.show_col2,
                options.show_col3,
                options.delimiter@,
            ) is None,
        },
{
    let shown = match column {
        Column::First => options.show_col1,
        Column::Second => options.show_col2,
        Column::Both => options.show_col3,
    };
    if !shown {
        return None;
    }
    let mut line = String::new();
    match column {
        Column::First => {},
        Column::Second => {
            if options.show_col1 {
                line.append(options.delimiter.as_str());
            }
        },
        Column::Both => {
            if options.show_col1 {
                line.append(options.delimiter.as_str());
            }
            if options.show_col2 {
                line.append(options.delimiter.as_str());
            }
        },
    }
    line.append(text);
    proof {
        assert(Some(line@) =~= column_line(
            column,
            text@,
            options.show_col1,
            options.show_col2,
            options.show_col3,
            options.delimiter@,
        ));
    }
    Some(line)
}

/// The lines printed for a merged list, in its order.
pub open spec fn printed(
    entries: Seq<(Column, Seq<char>)>,
    show_col1: bool,
    show_col2: bool,
    show_col3: bool,
    delimiter: Seq<char>,
) -> Seq<Seq<char>>
    decreases entries.len(),
{
    if entries.len() == 0 {
        Seq::empty()
    } else {
        let rest = printed(entries.drop_first(), show_col1, show_col2, show_col3, delimiter);
        match column_line(
            entries.first().0,
            entries.first().1,
            show_col1,
            show_col2,
            show_col3,
            delimiter,
        ) {
            Some(line) => seq![line] + rest,
            None => rest,
        }
    }
}

/// The lines as they are compared and printed: in lower case where case does
/// not count, unchanged where it does.
pub open spec fn cased(lines: Seq<Seq<char>>, insensitive: bool) -> Seq<Seq<char>> {
    if insensitive {
        Seq::new(lines.len(), |i: int| lowercase(lines[i]))
    } else {
        lines
    }
}

/// The lines in the form in which they are compared and printed.
pub fn fold_case(lines: &Vec<String>, insensitive: bool) -> (out: Vec<String>)
    ensures
        out.deep_view() == cased(lines.deep_view(), insensitive),
{
    let ghost want = cased(lines.deep_view(), insensitive);
    let mut out: Vec<String> = Vec::new();
    let mut i: usize = 0;
    while i < lines.len()
        invariant
            i <= lines.len(),
            want == cased(lines.deep_view(), insensitive),
            out.deep_view() == want.take(i as int),
        decreases lines.len() - i,
    {
        let line = if insensitive {
            to_lowercase(lines[i].as_str())
        } else {
            lines[i].clone()
        };
        let ghost before = out.deep_view();
        out.push(line);
        proof {
            assert(lines.deep_view()[i as int] == lines@[i as int]@);
            assert(out.deep_view() =~= before.push(line@));
            assert(want.take(i + 1) =~= want.take(i as int).push(want[i as int]));
        }
        i = i + 1;
    }
    proof {
        assert(want.take(i as int) =~= want);
    }
    out
}

/// What a run prints for two lists of lines.
pub open spec fn comm_spec(
    lines1: Seq<Seq<char>>,
    lines2: Seq<Seq<char>>,
    show_col1: bool,
    show_col2: bool,
    show_col3: bool,
    insensitive: bool,
    delimiter: Seq<char>,
) -> Seq<Seq<char>> {
    printed(
        merged(cased(lines1, insensitive), cased(lines2, insensitive)),
        show_col1,
        show_col2,
        show_col3,
        delimiter,
    )
}

/// Merges two lists of lines and gives the lines to print, in order.
pub fn comm(lines1: &Vec<String>, lines2: &Vec<String>, options: &Options) -> (out: Vec<String>)
    ensures
        out.deep_view() == comm_spec(
            lines1.deep_view(),
            lines2.deep_view(),
            options.show_col1,
            options.show_col2,
            options.show_col3,
            options.insensitive,
            options.delimiter@,
        ),
{
    let a = fold_case(lines1, options.insensitive);
    let b = fold_case(lines2, options.insensitive);
    let ghost av = a.deep_view();
    let ghost bv = b.deep_view();
    let ghost d = options.delimiter@;
    let mut out: Vec<String> = Vec::new();
    let mut i: usize = 0;
    let mut j: usize = 0;
    proof {
        assert(av.skip(0) =~= av);
        assert(bv.skip(0) =~= bv);
        assert(out.deep_view() + printed(
            merged(av, bv),
            options.show_col1,
            options.show_col2,
            options.show_col3,
            d,
        ) =~= printed(merged(av, bv), options.show_col1, options.show_col2, options.show_col3, d));
    }
    while i < a.len() || j < b.len()
        invariant
            i <= a.len(),
            j <= b.len(),
            av == a.deep_view(),
            bv == b.deep_view(),
            d == options.delimiter@,
            printed(merged(av, bv), options.show_col1, options.show_col2, options.show_col3, d)
                == out.deep_view() + printed(
                merged(av.skip(i as int), bv.skip(j as int)),
                options.show_col1,
                options.show_col2,
                options.show_col3,
                d,
            ),
        decreases (a.len() - i) + (b.len() - j),
    {
        let ghost xs = av.skip(i as int);
        let ghost ys = bv.skip(j as int);
        proof {
            if i < a.len() {
                assert(xs.first() == a@[i as int]@);
                assert(xs.drop_first() =~= av.skip(i + 1));
            }
            if j < b.len() {
                assert(ys.first() == b@[j as int]@);
                assert(ys.drop_first() =~= bv.skip(j + 1));
            }
        }
        let column = if j >= b.len() {
            Column::First
        } else if i >= a.len() {
            Column::Second
        } else {
            match rank(a[i].as_str(), b[j].as_str()) {
                Rank::Same => Column::Both,
                Rank::Lower => Column::First,
                Rank::Higher => Column::Second,
            }
        };
        let text = match column {
            Column::Second => b[j].as_str(),
            _ => a[i].as_str(),
        };
        let ghost before = out.deep_view();
        let ghost entries = merged(xs, ys);
        proof {
            assert(entries.first() == (column, text@));
        }
        match print_column(column, text, options) {
            Some(line) => {
                out.push(line);
                proof {
                    assert(out.deep_view() =~= before.push(line@));
                }
            },
            None => {},
        }
        match column {
            Column::First => {
                i = i + 1;
            },
            Column::Second => {
                j = j + 1;
            },
            Column::Both => {
                i = i + 1;
                j = j + 1;
            },
        }
        proof {
            assert(entries.drop_first() =~= merged(av.skip(i as int), bv.skip(j as int)));
            let rest = printed(
                entries.drop_first(),
                options.show_col1,
                options.show_col2,
                options.show_col3,
                d,
            );
            assert(printed(
                merged(av, bv),
                options.show_col1,
                options.show_col2,
                options.show_col3,
                d,
            ) =~= out.deep_view() + rest);
        }
    }
    proof {
        assert(av.skip(i as int).len() == 0 && bv.skip(j as int).len() == 0);
        assert(out.deep_view() + Seq::<Seq<char>>::empty() =~= out.deep_view());
    }
    out
}

/// The two inputs cannot both be the standard input.
#[derive(Debug, Clone, Copy, PartialEq, Eq, Structural)]
pub struct BothStdin;

impl BothStdin {
    /// The text to report.
    pub fn message(&self) -> (text: String)
        ensures
            text@ == "Both input files cannot be STDIN (\"-\")"@,
    {
        String::from_str("Both input files cannot be STDIN (\"-\")")
    }
}

/// Refuses a run whose two inputs are both `-`, the standard input.
pub fn check_inputs(file1: &str, file2: &str) -> (result: Result<(), BothStdin>)
    ensures
        result is Err <==> (file1@ == "-"@ && file2@ == "-"@),
{
    let dash1 = is_dash(file1);
    let dash2 = is_dash(file2);
    if dash1 && dash2 {
        Err(BothStdin)
    } else {
        Ok(())
    }
}

/// Whether `name` is `-`.
pub fn is_dash(name: &str) -> (yes: bool)
    ensures
        yes == (name@ == "-"@),
{
    text_eq(name, "-")
}

} // verus!
