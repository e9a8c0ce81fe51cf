//! `cal`: reading a month given by number or by name, and laying out the
//! days of a month in weeks.

use crate::decimal::{
    decimal_digits, decimal_within, parse_decimal, push_decimal, push_signed, signed_digits,
};
use crate::text::{
    center, centered, chars_of, join, joined, lowercase, pad_left, pad_right, padded_left,
    padded_right, push_spaces, spaces, to_lowercase,
};
use ansi_term::Style;
use chrono::{Datelike, NaiveDate};
use vstd::prelude::*;
use vstd::string::*;

verus! {

/// Why a month is refused.
#[derive(Debug)]
pub enum MonthError {
    /// A number that is no month; it carries the number.
    OutOfRange(u32),
    /// A text that is no number and names no month, or more than one; it
    /// carries the text.
    Invalid(String),
}

/// A `MonthError` as a mathematical value.
pub enum MonthErrorView {
    OutOfRange(u32),
    Invalid(Seq<char>),
}

impl View for MonthError {
    type V = MonthErrorView;

    open spec fn view(&self) -> MonthErrorView {
        match self {
            MonthError::OutOfRange(number) => MonthErrorView::OutOfRange(*number),
            MonthError::Invalid(text) => MonthErrorView::Invalid(text@),
        }
    }
}

/// The text that reports an error.
pub open spec fn message_spec(e: MonthErrorView) -> Seq<char> {
    match e {
        MonthErrorView::OutOfRange(number) => "month \""@ + decimal_digits(number as nat)
            + "\" not in the range 1 through 12"@,
        MonthErrorView::Invalid(text) => "Invalid month \""@ + text + "\""@,
    }
}

impl MonthError {
    /// The text to report.
    pub fn message(&self) -> (text: String)
        ensures
            text@ == message_spec(self@),
    {
        match self {
            MonthError::OutOfRange(number) => {
                let mut text = String::from_str("month \"");
                push_decimal(&mut text, *number as u64);
                text.append("\" not in the range 1 through 12");
                text
            },
            MonthError::Invalid(value) => String::from_str("Invalid month \"").concat(
                value.as_str(),
            ).concat("\""),
        }
    }
}

/// The English name of month `month`, counted from one.
pub open spec fn month_name_spec(month: int) -> Seq<char> {
    if month == 1 {
        "January"@
    } else if month == 2 {
        "February"@
    } else if month == 3 {
        "March"@
    } else if month == 4 {
        "April"@
    } else if month == 5 {
        "May"@
    } else if month == 6 {
        "June"@
    } else if month == 7 {
        "July"@
    } else if month == 8 {
        "August"@
    } else if month == 9 {
        "September"@
    } else if month == 10 {
        "October"@
    } else if month == 11 {
        "November"@
    } else {
        "December"@
    }
}

/// The English name of month `month`, counted from one.
pub fn month_name(month: u32) -> (name: &'static str)
    requires
        1 <= month <= 12,
    ensures
        name@ == month_name_spec(month as int),
{
    if month == 1 {
        "January"
    } else if month == 2 {
        "February"
    } else if month == 3 {
        "March"
    } else if month == 4 {
        "April"
    } else if month == 5 {
        "May"
    } else if month == 6 {
        "June"
    } else if month == 7 {
        "July"
    } else if month == 8 {
        "August"
    } else if month == 9 {
        "September"
    } else if month == 10 {
        "October"
    } else if month == 11 {
        "November"
    } else {
        "December"
    }
}

/// The number that a text denotes: ASCII digits, after `+` or after nothing,
/// with a value that fits 32 bits.
pub open spec fn number_spec(s: Seq<char>) -> Option<u32> {
    let digits = if s.len() > 0 && s[0] == '+' {
        s.skip(1)
    } else {
        s
    };
    match decimal_within(digits, u32::MAX as int) {
        Some(n) => Some(n as u32),
        None => None,
    }
}

/// Reads a text as a number.
pub fn parse_number(text: &str) -> (number: Option<u32>)
    ensures
        number == number_spec(text@),
{
    let chars = chars_of(text);
    let n: usize = chars.len();
    let start: usize = if n > 0 && chars[0] == '+' { 1 } else { 0 };
    proof {
        assert(chars@.subrange(start as int, n as int) =~= if start == 1 {
            text@.skip(1)
        } else {
            text@
        });
    }
    match parse_decimal(&chars, start, n, 0xffff_ffffu64) {
        Some(value) => Some(value as u32),
        None => None,
    }
}

/// `name` begins with `prefix`.
pub open spec fn begins_with(name: Seq<char>, prefix: Seq<char>) -> bool {
    prefix.len() <= name.len() && name.take(prefix.len() as int) == prefix
}

/// Whether `name` begins with `prefix`.
pub fn starts_with(name: &str, prefix: &str) -> (yes: bool)
    ensures
        yes == begins_with(name@, prefix@),
{
    let name_chars = chars_of(name);
    let prefix_chars = chars_of(prefix);
    if prefix_chars.len() > name_chars.len() {
        return false;
    }
    let mut i: usize = 0;
    while i < prefix_chars.len()
        invariant
            i <= prefix_chars.len() <= name_chars.len(),
            name_chars@ == name@,
            prefix_chars@ == prefix@,
            name@.take(i as int) == prefix@.take(i as int),
        decreases prefix_chars.len() - i,
    {
        if name_chars[i] != prefix_chars[i] {
            proof {
                assert(name@.take(prefix@.len() as int)[i as int] != prefix@[i as int]);
            }
            return false;
        }
        proof {
            assert(name@.take(i + 1) =~= name@.take(i as int).push(name@[i as int]));
            assert(prefix@.take(i + 1) =~= prefix@.take(i as int).push(prefix@[i as int]));
        }
        i = i + 1;
    }
    proof {
        assert(prefix@.take(i as int) =~= prefix@);
    }
    true
}

/// Month `month` is the only one whose name, in the form `names` gives it,
/// begins with `prefix`.
pub open spec fn only_match(names: Seq<Seq<char>>, prefix: Seq<char>, month: int) -> bool {
    &&& 1 <= month <= names.len()
    &&& begins_with(names[month - 1], prefix)
    &&& forall|other: int|
        1 <= other <= names.len() && other != month ==> !begins_with(
            #[trigger] names[other - 1],
            prefix,
        )
}

/// The month that a beginning of a name stands for, where it stands for
/// exactly one.
pub open spec fn named_month(names: Seq<Seq<char>>, prefix: Seq<char>) -> Option<u32> {
    if exists|month: int| only_match(names, prefix, month) {
        Some((choose|month: int| only_match(names, prefix, month)) as u32)
    } else {
        None
    }
}

/// Finds the one name in `names` that begins with `prefix`, and gives its
/// place counted from one; `None` where no name or more than one begins so.
pub fn month_by_prefix(names: &Vec<String>, prefix: &str) -> (found: Option<u32>)
    requires
        names.len() <= u32::MAX,
    ensures
        found == named_month(names.deep_view(), prefix@),
{
    let ghost views = names.deep_view();
    let mut found: Option<u32> = None;
    let mut several: bool = false;
    let ghost mut second: int = 0;
    let mut i: usize = 0;
    while i < names.len()
        invariant
            i <= names.len() <= u32::MAX,
            views == names.deep_view(),
            several ==> found is Some,
            found is Some ==> 1 <= found->0 <= i && begins_with(views[found->0 - 1], prefix@),
            several ==> 1 <= second <= i && second != found->0 && begins_with(
                views[second - 1],
                prefix@,
            ),
            !several ==> forall|other: int|
                1 <= other <= i && !(found is Some && other == found->0) ==> !begins_with(
                    #[trigger] views[other - 1],
                    prefix@,
                ),
        decreases names.len() - i,
    {
        proof {
            assert(views[i as int] == names@[i as int]@);
        }
        if starts_with(names[i].as_str(), prefix) {
            if found.is_some() {
                several = true;
                proof {
                    second = i + 1;
                }
            } else {
                found = Some((i + 1) as u32);
            }
        }
        i = i + 1;
    }
    proof {
        assert(views.len() == names.len());
        if several {
            assert forall|month: int| !only_match(views, prefix@, month) by {
                if only_match(views, prefix@, month) {
                    if month == found->0 {
                        assert(!begins_with(views[second - 1], prefix@));
                    } else {
                        assert(!begins_with(views[found->0 - 1], prefix@));
                    }
                }
            }
        } else if found is Some {
            assert(only_match(views, prefix@, found->0 as int));
            let chosen = choose|month: int| only_match(views, prefix@, month);
            if chosen != found->0 {
                assert(!begins_with(views[found->0 - 1], prefix@));
            }
        } else {
            assert forall|month: int| !only_match(views, prefix@, month) by {
                if only_match(views, prefix@, month) {
                    assert(!begins_with(views[month - 1], prefix@));
                }
            }
        }
    }
    if several {
        None
    } else {
        found
    }
}

/// The names of the twelve months in lower case, January first.
pub open spec fn lower_names() -> Seq<Seq<char>> {
    Seq::new(12, |i: int| lowercase(month_name_spec(i + 1)))
}

/// What a text means as a month. A number is read as a number and must lie
/// between 1 and 12. Any other text is compared, without regard to case,
/// with the beginnings of the twelve names, and must fit exactly one.
pub open spec fn month_spec(s: Seq<char>) -> Result<u32, MonthErrorView> {
    match number_spec(s) {
        Some(number) => if 1 <= number <= 12 {
            Ok(number)
        } else {
            Err(MonthErrorView::OutOfRange(number))
        },
        None => match named_month(lower_names(), lowercase(s)) {
            Some(month) => Ok(month),
            None => Err(MonthErrorView::Invalid(s)),
        },
    }
}

/// Reads a month given by its number or by the beginning of its name.
pub fn parse_month(month: String) -> (result: Result<u32, MonthError>)
    ensures
        match result {
            Ok(number) => month_spec(month@) == Ok::<u32, MonthErrorView>(number),
            Err(e) => month_spec(month@) == Err::<u32, MonthErrorView>(e@),
        },
        result is Ok ==> 1 <= result->Ok_0 <= 12,
{
    match parse_number(month.as_str()) {
        Some(number) => {
            if 1 <= number && number <= 12 {
                Ok(number)
            } else {
                Err(MonthError::OutOfRange(number))
            }
        },
        None => {
            let lower = to_lowercase(month.as_str());
            let mut names: Vec<String> = Vec::new();
            let mut m: u32 = 1;
            while m <= 12
                invariant
                    1 <= m <= 13,
                    names.len() == m - 1,
                    forall|i: int|
                        0 <= i < m - 1 ==> (#[trigger] names@[i])@ == lowercase(
                            month_name_spec(i + 1),
                        ),
                decreases 13 - m,
            {
                names.push(to_lowercase(month_name(m)));
                m = m + 1;
            }
            proof {
                assert(names.deep_view() =~= lower_names());
            }
            match month_by_prefix(&names, lower.as_str()) {
                Some(found) => Ok(found),
                None => Err(MonthError::Invalid(month)),
            }
        },
    }
}

/// A calendar date as three numbers.
#[derive(Debug, Clone, Copy, PartialEq, Eq, Structural)]
pub struct Date {
    pub year: i32,
    pub month: u32,
    pub day: u32,
}

/// The day of the week of a date, counted from Sunday as 1, as `chrono` has
/// it; `None` where `chrono` has no such date.
pub uninterp spec fn weekday_of(year: i32, month: u32, day: u32) -> Option<u32>;

/// `NaiveDate::from_ymd_opt` makes a date of year, month and day, or `None`
/// where there is no such date; `weekday` gives its day of the week, and
/// `number_from_sunday` numbers that from Sunday as 1 to Saturday as 7.
#[verifier::external_body]
fn weekday_from_sunday(year: i32, month: u32, day: u32) -> (weekday: Option<u32>)
    ensures
        weekday == weekday_of(year, month, day),
{
    match NaiveDate::from_ymd_opt(year, month, day) {
        Some(date) => Some(date.weekday().number_from_sunday()),
        None => None,
    }
}

/// The date before a date, as `chrono` has it; `None` where `chrono` has no
/// such date or none before it.
pub uninterp spec fn day_before(year: i32, month: u32, day: u32) -> Option<(i32, u32, u32)>;

/// `NaiveDate::from_ymd_opt` makes a date of year, month and day, or `None`
/// where there is no such date; `pred_opt` gives the previous calendar date,
/// or `None` for the first date that can be represented.
#[verifier::external_body]
fn previous_day(year: i32, month: u32, day: u32) -> (previous: Option<(i32, u32, u32)>)
    ensures
        previous == day_before(year, month, day),
{
    match NaiveDate::from_ymd_opt(year, month, day) {
        Some(date) => match date.pred_opt() {
            Some(before) => Some((before.year(), before.month(), before.day())),
            None => None,
        },
        None => None,
    }
}

/// The first day of the month after `month` of `year`: year and month.
pub open spec fn next_month(year: i32, month: u32) -> (int, int) {
    if month == 12 {
        (year + 1, 1)
    } else {
        (year as int, month + 1)
    }
}

/// The month after `month` of `year` can be written down.
pub open spec fn has_next_month(year: i32, month: u32) -> bool {
    next_month(year, month).0 <= i32::MAX && next_month(year, month).1 <= u32::MAX
}

/// The last day of a month: the day before the first day of the next month.
pub open spec fn last_day_spec(year: i32, month: u32) -> Option<Date> {
    if has_next_month(year, month) {
        match day_before(
            next_month(year, month).0 as i32,
            next_month(year, month).1 as u32,
            1,
        ) {
            Some(date) => Some(Date { year: date.0, month: date.1, day: date.2 }),
            None => None,
        }
    } else {
        None
    }
}

/// The last day of `month` in `year`.
pub fn last_day_in_month(year: i32, month: u32) -> (last: Date)
    requires
        last_day_spec(year, month) is Some,
    ensures
        Some(last) == last_day_spec(year, month),
{
    let (y, m): (i32, u32) = if month == 12 {
        (year + 1, 1)
    } else {
        (year, month + 1)
    };
    let date = previous_day(y, m, 1).unwrap();
    Date { year: date.0, month: date.1, day: date.2 }
}

/// The last day of `month` in `year`, or `None` where the calendar has no
/// such month.
pub fn try_last_day_in_month(year: i32, month: u32) -> (last: Option<Date>)
    ensures
        last == last_day_spec(year, month),
{
    if (month == 12 && year == i32::MAX) || month == u32::MAX {
        return None;
    }
    let (y, m): (i32, u32) = if month == 12 {
        (year + 1, 1)
    } else {
        (year, month + 1)
    };
    if previous_day(y, m, 1).is_some() {
        Some(last_day_in_month(year, month))
    } else {
        None
    }
}

/// `text` between the codes that switch reverse video on and all styles off.
pub open spec fn reversed(text: Seq<char>) -> Seq<char> {
    "\u{1b}[7m"@ + text + "\u{1b}[0m"@
}

/// `Style::new().reverse().paint(..)` writes a text in reverse video: the
/// escape code 7 before the text, the reset code behind it.
#[verifier::external_body]
fn reverse_video(text: &str) -> (out: String)
    ensures
        out@ == reversed(text@),
{
    Style::new().reverse().paint(text).to_string()
}

/// The number of a day, two characters wide.
pub open spec fn day_text(day: int) -> Seq<char> {
    padded_left(decimal_digits(day as nat), 2)
}

/// The cell of a day of `month` in `year`: its number, in reverse video where
/// the day is `today`.
pub open spec fn day_cell(year: i32, month: u32, today: Date, day: int) -> Seq<char> {
    if today.year == year && today.month == month && today.day == day {
        reversed(day_text(day))
    } else {
        day_text(day)
    }
}

/// The number of empty cells before the first day of a month that begins on
/// weekday `first_weekday`, counted from Sunday as 1.
pub open spec fn leading_blanks(first_weekday: u32) -> int {
    if first_weekday >= 1 {
        first_weekday - 1
    } else {
        0
    }
}

/// The cells of a month: an empty one for each weekday before the first day
/// of the month, then one for each day.
pub open spec fn month_cells(
    year: i32,
    month: u32,
    today: Date,
    first_weekday: u32,
    last_day: u32,
) -> Seq<Seq<char>> {
    Seq::new(leading_blanks(first_weekday) as nat, |i: int| "  "@) + Seq::new(
        last_day as nat,
        |i: int| day_cell(year, month, today, i + 1),
    )
}

/// Line number `week` of the cells: seven cells with a space between each
/// two, or what is left of them, filled up to twenty characters, and two
/// spaces behind.
pub open spec fn week_line(cells: Seq<Seq<char>>, week: int) -> Seq<char> {
    let to = if 7 * week + 7 <= cells.len() {
        7 * week + 7
    } else {
        cells.len() as int
    };
    padded_right(joined(cells.subrange(7 * week, to), " "@), 20) + "  "@
}

/// The first line of a month: its name, with the year where it is wanted, in
/// the middle of twenty characters, and two spaces behind.
pub open spec fn title_line(year: i32, month: u32, print_year: bool) -> Seq<char> {
    if print_year {
        centered(month_name_spec(month as int) + " "@ + signed_digits(year as int), 20) + "  "@
    } else {
        centered(month_name_spec(month as int), 20) + "  "@
    }
}

/// The lines of a month that begins on weekday `first_weekday` and has
/// `last_day` days: the title, the names of the weekdays, one line for each
/// week, and empty lines up to eight lines in all.
pub open spec fn month_lines(
    year: i32,
    month: u32,
    print_year: bool,
    today: Date,
    first_weekday: u32,
    last_day: u32,
) -> Seq<Seq<char>> {
    let cells = month_cells(year, month, today, first_weekday, last_day);
    let weeks = (cells.len() + 6) / 7;
    seq![title_line(year, month, print_year), "Su Mo Tu We Th Fr Sa  "@] + Seq::new(
        weeks as nat,
        |week: int| week_line(cells, week),
    ) + Seq::new(
        if weeks < 6 {
            (6 - weeks) as nat
        } else {
            0
        },
        |i: int| spaces(22),
    )
}

/// The cells of a month, as `month_cells` describes them.
fn cells_of_month(year: i32, month: u32, today: Date, first_weekday: u32, last_day: u32) -> (cells:
    Vec<String>)
    ensures
        cells.deep_view() == month_cells(year, month, today, first_weekday, last_day),
{
    let ghost want = month_cells(year, month, today, first_weekday, last_day);
    let blanks: u32 = if first_weekday >= 1 { first_weekday - 1 } else { 0 };
    let mut cells: Vec<String> = Vec::new();
    let mut i: u32 = 0;
    while i < blanks
        invariant
            i <= blanks,
            blanks == leading_blanks(first_weekday),
            want == month_cells(year, month, today, first_weekday, last_day),
            cells.deep_view() == want.take(i as int),
        decreases blanks - i,
    {
        let ghost before = cells.deep_view();
        cells.push(String::from_str("  "));
        proof {
            assert(cells.deep_view() =~= before.push("  "@));
            assert(want.take(i + 1) =~= want.take(i as int).push(want[i as int]));
        }
        i = i + 1;
    }
    let mut d: u32 = 0;
    while d < last_day
        invariant
            d <= last_day,
            blanks == leading_blanks(first_weekday),
            want == month_cells(year, month, today, first_weekday, last_day),
            cells.deep_view() == want.take(blanks + d),
        decreases last_day - d,
    {
        let day: u32 = d + 1;
        let mut number = String::new();
        push_decimal(&mut number, day as u64);
        let plain = pad_left(number.as_str(), 2);
        let cell = if today.year == year && today.month == month && today.day == day {
            reverse_video(plain.as_str())
        } else {
            plain
        };
        let ghost before = cells.deep_view();
        cells.push(cell);
        proof {
            assert(number@ =~= decimal_digits(day as nat));
            assert(cell@ == day_cell(year, month, today, day as int));
            assert(cells.deep_view() =~= before.push(cell@));
            assert(want[blanks + d] == day_cell(year, month, today, d + 1));
            assert(want.take(blanks + d + 1) =~= want.take(blanks + d).push(want[blanks + d]));
        }
        d = d + 1;
    }
    proof {
        assert(want.take(blanks + last_day) =~= want);
    }
    cells
}

/// Lays out a month that begins on weekday `first_weekday`, counted from
/// Sunday as 1, and has `last_day` days.
pub fn layout_month(
    year: i32,
    month: u32,
    print_year: bool,
    today: Date,
    first_weekday: u32,
    last_day: u32,
) -> (lines: Vec<String>)
    requires
        1 <= month <= 12,
    ensures
        lines.deep_view() == month_lines(year, month, print_year, today, first_weekday, last_day),
{
    let ghost want = month_lines(year, month, print_year, today, first_weekday, last_day);
    let cells = cells_of_month(year, month, today, first_weekday, last_day);
    let ghost cell_views = cells.deep_view();
    let ghost weeks = (cell_views.len() + 6) / 7;
    let mut lines: Vec<String> = Vec::new();

    let mut title = String::from_str(month_name(month));
    if print_year {
        title.append(" ");
        push_signed(&mut title, year as i64);
    }
    let mut first = center(title.as_str(), 20);
    first.append("  ");
    lines.push(first);
    lines.push(String::from_str("Su Mo Tu We Th Fr Sa  "));
    proof {
        assert(lines.deep_view() =~= want.take(2));
    }

    let n: usize = cells.len();
    let mut start: usize = 0;
    let ghost mut week: int = 0;
    while start < n
        invariant
            start <= n,
            n == cell_views.len(),
            cell_views == cells.deep_view(),
            cell_views == month_cells(year, month, today, first_weekday, last_day),
            weeks == (cell_views.len() + 6) / 7,
            want == month_lines(year, month, print_year, today, first_weekday, last_day),
            start == 7 * week || start == n,
            0 <= week <= weeks,
            start == n ==> week == weeks,
            lines.deep_view() == want.take(2 + week),
        decreases n - start,
    {
        let end: usize = if n - start > 7 { start + 7 } else { n };
        let mut line = pad_right(join(&cells, start, end, " ").as_str(), 20);
        line.append("  ");
        let ghost before = lines.deep_view();
        lines.push(line);
        proof {
            assert(line@ == week_line(cell_views, week));
            assert(want[2 + week] == week_line(cell_views, week));
            assert(lines.deep_view() =~= before.push(line@));
            assert(want.take(2 + week + 1) =~= want.take(2 + week).push(want[2 + week]));
            week = week + 1;
        }
        start = end;
    }
    proof {
        assert(week == weeks);
    }
    let mut count: usize = lines.len();
    while count < 8
        invariant
            count == lines.len(),
            want == month_lines(year, month, print_year, today, first_weekday, last_day),
            weeks == (month_cells(year, month, today, first_weekday, last_day).len() + 6) / 7,
            count >= 2 + weeks,
            count <= 8 || count == 2 + weeks,
            lines.deep_view() == want.take(count as int),
        decreases 8 - count,
    {
        let mut blank = String::new();
        push_spaces(&mut blank, 22);
        let ghost before = lines.deep_view();
        lines.push(blank);
        proof {
            assert(want[count as int] == spaces(22));
            assert(lines.deep_view() =~= before.push(blank@));
            assert(want.take(count + 1) =~= want.take(count as int).push(want[count as int]));
        }
        count = count + 1;
    }
    proof {
        assert(want.take(count as int) =~= want);
    }
    lines
}

/// What `format_month` gives: the layout of the month with the weekday of
/// its first day and the number of its last day; `None` where the calendar
/// has no such month.
pub open spec fn format_month_spec(year: i32, month: u32, print_year: bool, today: Date)
    -> Option<Seq<Seq<char>>> {
    if 1 <= month <= 12 && weekday_of(year, month, 1) is Some && last_day_spec(year, month)
        is Some {
        Some(
            month_lines(
                year,
                month,
                print_year,
                today,
                weekday_of(year, month, 1)->0,
                last_day_spec(year, month)->0.day,
            ),
        )
    } else {
        None
    }
}

/// The eight lines of a month, each twenty-two characters wide: title,
/// weekdays and six lines for the weeks. The day `today` stands in reverse
/// video.
pub fn format_month(year: i32, month: u32, print_year: bool, today: Date) -> (lines: Vec<String>)
    requires
        format_month_spec(year, month, print_year, today) is Some,
    ensures
        Some(lines.deep_view()) == format_month_spec(year, month, print_year, today),
{
    let first_weekday: u32 = weekday_from_sunday(year, month, 1).unwrap();
    let last = last_day_in_month(year, month);
    layout_month(year, month, print_year, today, first_weekday, last.day)
}

/// The lines of a month, or `None` where the calendar has no such month.
pub fn try_format_month(year: i32, month: u32, print_year: bool, today: Date) -> (lines: Option<
    Vec<String>,
>)
    ensures
        match lines {
            Some(l) => Some(l.deep_view()) == format_month_spec(year, month, print_year, today),
            None => format_month_spec(year, month, print_year, today) is None,
        },
{
    if month < 1 || month > 12 {
        return None;
    }
    if weekday_from_sunday(year, month, 1).is_none() {
        return None;
    }
    if try_last_day_in_month(year, month).is_none() {
        return None;
    }
    Some(format_month(year, month, print_year, today))
}

/// What a run shows: a year, and in it one month or all of them. The whole
/// current year is shown where that is asked for; the current month where
/// neither month nor year is given; otherwise what is given, in the current
/// year where none is.
pub open spec fn period_spec(
    month: Option<u32>,
    year: Option<i32>,
    show_current_year: bool,
    today: Date,
) -> (i32, Option<u32>) {
    if show_current_year {
        (today.year, None)
    } else if month is None && year is None {
        (today.year, Some(today.month))
    } else {
        (
            match year {
                Some(y) => y,
                None => today.year,
            },
            month,
        )
    }
}

/// Decides the year to show, and the month where only one is shown.
pub fn choose_period(month: Option<u32>, year: Option<i32>, show_current_year: bool, today: Date)
    -> (period: (i32, Option<u32>))
    ensures
        period == period_spec(month, year, show_current_year, today),
{
    if show_current_year {
        (today.year, None)
    } else if month.is_none() && year.is_none() {
        (today.year, Some(today.month))
    } else {
        (
            match year {
                Some(y) => y,
                None => today.year,
            },
            month,
        )
    }
}

/// The smallest of three lengths.
pub open spec fn shortest(a: int, b: int, c: int) -> int {
    if a <= b && a <= c {
        a
    } else if b <= c {
        b
    } else {
        c
    }
}

/// Three months side by side: line for line, as far as all three have lines.
pub open spec fn side_by_side(a: Seq<Seq<char>>, b: Seq<Seq<char>>, c: Seq<Seq<char>>) -> Seq<
    Seq<char>,
> {
    Seq::new(shortest(a.len() as int, b.len() as int, c.len() as int) as nat, |i: int| a[i] + b[i] + c[i])
}

/// The lines of a year: the year at the right of thirty-two characters, then
/// the twelve months in four rows of three, with an empty line between rows.
pub open spec fn year_lines(year: i32, months: Seq<Seq<Seq<char>>>) -> Seq<Seq<char>>
    recommends
        months.len() == 12,
{
    seq![padded_left(signed_digits(year as int), 32)] + side_by_side(
        months[0],
        months[1],
        months[2],
    ) + seq![Seq::<char>::empty()] + side_by_side(months[3], months[4], months[5]) + seq![
        Seq::<char>::empty(),
    ] + side_by_side(months[6], months[7], months[8]) + seq![Seq::<char>::empty()]
        + side_by_side(months[9], months[10], months[11])
}

/// Appends three months side by side to `lines`.
fn push_side_by_side(lines: &mut Vec<String>, a: &Vec<String>, b: &Vec<String>, c: &Vec<String>)
    ensures
        final(lines).deep_view() == old(lines).deep_view() + side_by_side(
            a.deep_view(),
            b.deep_view(),
            c.deep_view(),
        ),
{
    let ghost rows = side_by_side(a.deep_view(), b.deep_view(), c.deep_view());
    let n: usize = if a.len() <= b.len() && a.len() <= c.len() {
        a.len()
    } else if b.len() <= c.len() {
        b.len()
    } else {
        c.len()
    };
    let mut i: usize = 0;
    proof {
        assert(old(lines).deep_view() + rows.take(0) =~= old(lines).deep_view());
    }
    while i < n
        invariant
            i <= n,
            n == rows.len(),
            n <= a.len() && n <= b.len() && n <= c.len(),
            rows == side_by_side(a.deep_view(), b.deep_view(), c.deep_view()),
            lines.deep_view() == old(lines).deep_view() + rows.take(i as int),
        decreases n - i,
    {
        let mut row = String::from_str(a[i].as_str());
        row.append(b[i].as_str());
        row.append(c[i].as_str());
        let ghost before = lines.deep_view();
        lines.push(row);
        proof {
            assert(a.deep_view()[i as int] == a@[i as int]@);
            assert(b.deep_view()[i as int] == b@[i as int]@);
            assert(c.deep_view()[i as int] == c@[i as int]@);
            assert(row@ == rows[i as int]);
            assert(lines.deep_view() =~= before.push(row@));
            assert(old(lines).deep_view() + rows.take(i + 1) =~= (old(lines).deep_view()
                + rows.take(i as int)).push(rows[i as int]));
        }
        i = i + 1;
    }
    proof {
        assert(rows.take(n as int) =~= rows);
    }
}

/// Lays out a year from the layouts of its twelve months.
pub fn layout_year(year: i32, months: &Vec<Vec<String>>) -> (lines: Vec<String>)
    requires
        months.len() == 12,
    ensures
        lines.deep_view() == year_lines(year, months.deep_view()),
{
    let ghost views = months.deep_view();
    let mut number = String::new();
    push_signed(&mut number, year as i64);
    let mut lines: Vec<String> = Vec::new();
    lines.push(pad_left(number.as_str(), 32));
    proof {
        assert(number@ =~= signed_digits(year as int));
        assert(lines.deep_view() =~= seq![padded_left(signed_digits(year as int), 32)]);
        assert forall|k: int| 0 <= k < 12 implies #[trigger] views[k] == months@[k].deep_view() by {}
    }
    let mut row: usize = 0;
    while row < 4
        invariant
            row <= 4,
            months.len() == 12,
            views == months.deep_view(),
            forall|k: int| 0 <= k < 12 ==> #[trigger] views[k] == months@[k].deep_view(),
            row == 0 ==> lines.deep_view() == seq![padded_left(signed_digits(year as int), 32)],
            row == 1 ==> lines.deep_view() == seq![padded_left(signed_digits(year as int), 32)]
                + side_by_side(views[0], views[1], views[2]) + seq![Seq::<char>::empty()],
            row == 2 ==> lines.deep_view() == seq![padded_left(signed_digits(year as int), 32)]
                + side_by_side(views[0], views[1], views[2]) + seq![Seq::<char>::empty()]
                + side_by_side(views[3], views[4], views[5]) + seq![Seq::<char>::empty()],
            row == 3 ==> lines.deep_view() == seq![padded_left(signed_digits(year as int), 32)]
                + side_by_side(views[0], views[1], views[2]) + seq![Seq::<char>::empty()]
                + side_by_side(views[3], views[4], views[5]) + seq![Seq::<char>::empty()]
                + side_by_side(views[6], views[7], views[8]) + seq![Seq::<char>::empty()],
            row == 4 ==> lines.deep_view() == year_lines(year, views),
        decreases 4 - row,
    {
        push_side_by_side(&mut lines, &months[3 * row], &months[3 * row + 1], &months[3 * row + 2]);
        if row < 3 {
            let ghost before = lines.deep_view();
            lines.push(String::new());
            proof {
                assert(lines.deep_view() =~= before + seq![Seq::<char>::empty()]);
            }
        }
        row = row + 1;
    }
    lines
}

/// What `format_year` gives: the layout of the year from the layouts of its
/// months, none of them with the year in its title; `None` where the
/// calendar lacks one of the months.
pub open spec fn format_year_spec(year: i32, today: Date) -> Option<Seq<Seq<char>>> {
    if forall|m: int| 1 <= m <= 12 ==> #[trigger] format_month_spec(year, m as u32, false, today)
        is Some {
        Some(
            year_lines(
                year,
                Seq::new(12, |k: int| format_month_spec(year, (k + 1) as u32, false, today)->0),
            ),
        )
    } else {
        None
    }
}

/// The lines of a whole year, or `None` where the calendar has no such year.
pub fn format_year(year: i32, today: Date) -> (lines: Option<Vec<String>>)
    ensures
        match lines {
            Some(l) => Some(l.deep_view()) == format_year_spec(year, today),
            None => format_year_spec(year, today) is None,
        },
{
    let mut months: Vec<Vec<String>> = Vec::new();
    let mut month: u32 = 1;
    while month <= 12
        invariant
            1 <= month <= 13,
            months.len() == month - 1,
            forall|m: int|
                1 <= m < month ==> #[trigger] format_month_spec(year, m as u32, false, today)
                    == Some(months@[m - 1].deep_view()),
        decreases 13 - month,
    {
        match try_format_month(year, month, false, today) {
            Some(lines) => {
                months.push(lines);
            },
            None => {
                return None;
            },
        }
        month = month + 1;
    }
    proof {
        assert(months.deep_view() =~= Seq::new(
            12,
            |k: int| format_month_spec(year, (k + 1) as u32, false, today)->0,
        )) by {
            assert forall|k: int| 0 <= k < 12 implies #[trigger] months.deep_view()[k]
                == format_month_spec(year, (k + 1) as u32, false, today)->0 by {
                assert(format_month_spec(year, (k + 1) as u32, false, today) == Some(
                    months@[k].deep_view(),
                ));
                assert(months.deep_view()[k] == months@[k].deep_view());
            }
        }
    }
    Some(layout_year(year, &months))
}

} // verus!
