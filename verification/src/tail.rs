//! `tail`: the grammar of a count argument, the arithmetic that turns a count
//! and a total into the place where output starts, and the selection of that
//! output from the content of a source.

use crate::decimal::{all_digits, decimal_value, parse_decimal};
use crate::text::chars_of;
use vstd::prelude::*;
use vstd::string::*;

verus! {

/// What a count argument asks for.
#[derive(Debug, Clone, Copy, PartialEq, Eq, Structural)]
pub enum TakeValue {
    /// The argument `+0`: everything, from the first unit on.
    PlusZero,
    /// A signed count: a positive one names the unit to start at, counted from
    /// one; a negative one counts units back from the end; zero selects nothing.
    TakeNum(i64),
}

/// A count argument that is no number in the accepted form, or whose value
/// does not fit; it carries the argument as it was given.
#[derive(Debug)]
pub struct ParseError {
    pub text: String,
}

impl ParseError {
    /// The text to report: the rejected argument itself.
    pub fn message(&self) -> (text: String)
        ensures
            text@ == self.text@,
    {
        self.text.clone()
    }
}

/// `s` begins with `+` or `-`.
pub open spec fn has_sign(s: Seq<char>) -> bool {
    s.len() > 0 && (s[0] == '+' || s[0] == '-')
}

/// `s` begins with `+`.
pub open spec fn has_plus(s: Seq<char>) -> bool {
    s.len() > 0 && s[0] == '+'
}

/// What follows the optional sign.
pub open spec fn magnitude_digits(s: Seq<char>) -> Seq<char> {
    if has_sign(s) {
        s.skip(1)
    } else {
        s
    }
}

/// The grammar of a count: an optional sign, then one or more ASCII digits,
/// and nothing else.
pub open spec fn is_count(s: Seq<char>) -> bool {
    magnitude_digits(s).len() > 0 && all_digits(magnitude_digits(s))
}

/// The number a count denotes. Only `+` makes it positive: a count without a
/// sign counts from the end, as one with `-` does.
pub open spec fn count_value(s: Seq<char>) -> int {
    if has_plus(s) {
        decimal_value(magnitude_digits(s)) as int
    } else {
        -(decimal_value(magnitude_digits(s)) as int)
    }
}

/// What a count argument parses to; `None` where it is rejected.
pub open spec fn parsed_count(s: Seq<char>) -> Option<TakeValue> {
    if !is_count(s) || count_value(s) < i64::MIN || count_value(s) > i64::MAX {
        None
    } else if has_plus(s) && count_value(s) == 0 {
        Some(TakeValue::PlusZero)
    } else {
        Some(TakeValue::TakeNum(count_value(s) as i64))
    }
}

/// Parses a count argument. It is accepted exactly when it follows the grammar
/// and its value fits in 64 bits with sign; a rejected argument comes back in
/// the error, unchanged.
pub fn parse_num(val: String) -> (result: Result<TakeValue, ParseError>)
    ensures
        match result {
            Ok(take_val) => parsed_count(val@) == Some(take_val),
            Err(e) => parsed_count(val@) is None && e.text@ == val@,
        },
{
    let chars = chars_of(val.as_str());
    let n: usize = chars.len();
    let plus: bool = n > 0 && chars[0] == '+';
    let signed: bool = n > 0 && (chars[0] == '+' || chars[0] == '-');
    let start: usize = if signed { 1 } else { 0 };
    let limit: u64 = if plus { 0x7fff_ffff_ffff_ffffu64 } else { 0x8000_0000_0000_0000u64 };
    proof {
        assert(chars@.subrange(start as int, n as int) =~= magnitude_digits(val@));
    }
    match parse_decimal(&chars, start, n, limit) {
        None => Err(ParseError { text: val }),
        Some(magnitude) => {
            if plus {
                if magnitude == 0 {
                    Ok(TakeValue::PlusZero)
                } else {
                    Ok(TakeValue::TakeNum(magnitude as i64))
                }
            } else if magnitude == 0x8000_0000_0000_0000u64 {
                Ok(TakeValue::TakeNum(i64::MIN))
            } else {
                Ok(TakeValue::TakeNum(-(magnitude as i64)))
            }
        },
    }
}

/// The zero-based unit at which output starts, for a request and the total
/// number of units; `None` where nothing is to be printed.
pub open spec fn start_index(take_val: TakeValue, total: i64) -> Option<u64> {
    match take_val {
        TakeValue::PlusZero => if total > 0 {
            Some(0u64)
        } else {
            None
        },
        TakeValue::TakeNum(n) => {
            if n == 0 || total == 0 || n > total {
                None
            } else if n > 0 {
                Some((n - 1) as u64)
            } else if total + n < 0 {
                Some(0u64)
            } else {
                Some((total + n) as u64)
            }
        },
    }
}

/// Resolves a request against the total number of lines or bytes of a source.
/// A start that is returned lies inside the source.
pub fn get_start_index(take_val: &TakeValue, total: i64) -> (start: Option<u64>)
    requires
        total >= 0,
    ensures
        start == start_index(*take_val, total),
        start is Some ==> start->0 < total,
{
    match take_val {
        TakeValue::PlusZero => {
            if total > 0 {
                Some(0)
            } else {
                None
            }
        },
        TakeValue::TakeNum(num) => {
            let n: i64 = *num;
            if n == 0 || total == 0 || n > total {
                None
            } else if n > 0 {
                Some((n - 1) as u64)
            } else {
                let start: i64 = total + n;
                if start < 0 {
                    Some(0)
                } else {
                    Some(start as u64)
                }
            }
        },
    }
}

/// The number of line terminators in `s`.
pub open spec fn newline_count(s: Seq<u8>) -> nat
    decreases s.len(),
{
    if s.len() == 0 {
        0
    } else {
        newline_count(s.drop_last()) + if s.last() == 10u8 {
            1nat
        } else {
            0nat
        }
    }
}

/// The number of lines in `s`: each line terminator ends one, and bytes after
/// the last terminator make one more.
pub open spec fn line_count(s: Seq<u8>) -> nat {
    newline_count(s) + if s.len() > 0 && s.last() != 10u8 {
        1nat
    } else {
        0nat
    }
}

/// The place in `s` at which the line with zero-based number `k` begins: just
/// behind the `k`-th line terminator, or the end of `s` where it has fewer.
pub open spec fn line_start(s: Seq<u8>, k: nat) -> nat
    decreases s.len(),
{
    if k == 0 || s.len() == 0 {
        0
    } else if s.first() == 10u8 {
        1 + line_start(s.drop_first(), (k - 1) as nat)
    } else {
        1 + line_start(s.drop_first(), k)
    }
}

/// A line begins inside `s` or at its end.
pub proof fn lemma_line_start_bound(s: Seq<u8>, k: nat)
    ensures
        line_start(s, k) <= s.len(),
    decreases s.len(),
{
    if k != 0 && s.len() != 0 {
        if s.first() == 10u8 {
            lemma_line_start_bound(s.drop_first(), (k - 1) as nat);
        } else {
            lemma_line_start_bound(s.drop_first(), k);
        }
    }
}

/// There are no more line terminators than bytes.
pub proof fn lemma_newline_count_bound(s: Seq<u8>)
    ensures
        newline_count(s) <= s.len(),
    decreases s.len(),
{
    if s.len() > 0 {
        lemma_newline_count_bound(s.drop_last());
    }
}

/// Counts the lines and the bytes of a source, in this order.
pub fn count_lines_bytes(content: &[u8]) -> (totals: (i64, i64))
    requires
        content@.len() <= i64::MAX,
    ensures
        totals.0 == line_count(content@),
        totals.1 == content@.len(),
{
    let n: usize = content.len();
    let mut lines: i64 = 0;
    let mut i: usize = 0;
    while i < n
        invariant
            i <= n,
            n == content@.len(),
            n <= i64::MAX,
            lines == newline_count(content@.take(i as int)),
            lines <= i,
        decreases n - i,
    {
        proof {
            assert(content@.take(i + 1).drop_last() =~= content@.take(i as int));
        }
        if content[i] == 10u8 {
            lines = lines + 1;
        }
        i = i + 1;
    }
    proof {
        assert(content@.take(n as int) =~= content@);
    }
    if n > 0 && content[n - 1] != 10u8 {
        proof {
            lemma_newline_count_bound(content@.drop_last());
        }
        lines = lines + 1;
    }
    (lines, n as i64)
}

/// The lines of `s` from the one numbered `start` on; nothing without a start.
pub open spec fn lines_from(s: Seq<u8>, start: Option<u64>) -> Seq<u8> {
    match start {
        Some(k) => s.skip(line_start(s, k as nat) as int),
        None => Seq::empty(),
    }
}

/// The bytes of `s` from the one numbered `start` on; nothing without a start
/// or with one behind the end.
pub open spec fn bytes_from(s: Seq<u8>, start: Option<u64>) -> Seq<u8> {
    match start {
        Some(k) if k <= s.len() => s.skip(k as int),
        _ => Seq::empty(),
    }
}

/// Copies what stands in `content` from `from` on.
fn copy_from(content: &[u8], from: usize) -> (out: Vec<u8>)
    requires
        from <= content@.len(),
    ensures
        out@ == content@.skip(from as int),
{
    let n: usize = content.len();
    let mut out: Vec<u8> = Vec::new();
    let mut i: usize = from;
    while i < n
        invariant
            from <= i <= n,
            n == content@.len(),
            out@ == content@.subrange(from as int, i as int),
        decreases n - i,
    {
        out.push(content[i]);
        proof {
            assert(content@.subrange(from as int, i + 1) =~= content@.subrange(
                from as int,
                i as int,
            ).push(content@[i as int]));
        }
        i = i + 1;
    }
    proof {
        assert(content@.subrange(from as int, n as int) =~= content@.skip(from as int));
    }
    out
}

/// The output in line mode: every byte of `content` from the first byte of
/// line `start` on, unchanged. A start behind the last line gives nothing.
pub fn select_lines(content: &[u8], start: Option<u64>) -> (out: Vec<u8>)
    ensures
        out@ == lines_from(content@, start),
{
    match start {
        None => Vec::new(),
        Some(k) => {
            let n: usize = content.len();
            let mut seen: u64 = 0;
            let mut i: usize = 0;
            proof {
                assert(content@.skip(0) =~= content@);
            }
            while i < n && seen < k
                invariant
                    i <= n,
                    n == content@.len(),
                    seen <= k,
                    line_start(content@, k as nat) == i + line_start(
                        content@.skip(i as int),
                        (k - seen) as nat,
                    ),
                decreases n - i,
            {
                proof {
                    let rest = content@.skip(i as int);
                    assert(rest.first() == content@[i as int]);
                    assert(rest.drop_first() =~= content@.skip(i + 1));
                }
                if content[i] == 10u8 {
                    seen = seen + 1;
                }
                i = i + 1;
            }
            proof {
                lemma_line_start_bound(content@.skip(i as int), (k - seen) as nat);
            }
            copy_from(content, i)
        },
    }
}

/// The output in byte mode: every byte of `content` from the one numbered
/// `start` on, unchanged. A start behind the end gives nothing.
pub fn select_bytes(content: &[u8], start: Option<u64>) -> (out: Vec<u8>)
    ensures
        out@ == bytes_from(content@, start),
{
    match start {
        None => Vec::new(),
        Some(k) => {
            if k <= content.len() as u64 {
                copy_from(content, k as usize)
            } else {
                Vec::new()
            }
        },
    }
}

/// The unit that a run counts in, with the request for it.
#[derive(Debug, Clone, Copy, PartialEq, Eq, Structural)]
pub enum Selection {
    Lines(TakeValue),
    Bytes(TakeValue),
}

/// Which of the two count arguments was rejected, with the argument.
#[derive(Debug)]
pub enum CountError {
    IllegalLineCount(ParseError),
    IllegalByteCount(ParseError),
}

impl CountError {
    /// What the message says: which count was illegal, and its text.
    pub open spec fn message_spec(&self) -> Seq<char> {
        match self {
            CountError::IllegalLineCount(e) => "illegal line count -- "@ + e.text@,
            CountError::IllegalByteCount(e) => "illegal byte count -- "@ + e.text@,
        }
    }

    /// The text to report.
    pub fn message(&self) -> (text: String)
        ensures
            text@ == self.message_spec(),
    {
        match self {
            CountError::IllegalLineCount(e) => String::from_str("illegal line count -- ").concat(
                e.text.as_str(),
            ),
            CountError::IllegalByteCount(e) => String::from_str("illegal byte count -- ").concat(
                e.text.as_str(),
            ),
        }
    }
}

/// What the two count arguments select together: bytes where a byte count is
/// given, lines otherwise. The line count is read first, so where both are
/// illegal the line count is the one reported.
pub open spec fn selection_spec(lines: Seq<char>, bytes: Option<Seq<char>>) -> Option<Selection> {
    match (parsed_count(lines), bytes) {
        (None, _) => None,
        (Some(l), None) => Some(Selection::Lines(l)),
        (Some(_), Some(b)) => match parsed_count(b) {
            None => None,
            Some(take_val) => Some(Selection::Bytes(take_val)),
        },
    }
}

/// Reads the line count and, where there is one, the byte count.
pub fn parse_selection(lines: String, bytes: Option<String>) -> (result: Result<
    Selection,
    CountError,
>)
    ensures
        match result {
            Ok(selection) => selection_spec(
                lines@,
                match bytes {
                    Some(b) => Some(b@),
                    None => None,
                },
            ) == Some(selection),
            Err(CountError::IllegalLineCount(e)) => parsed_count(lines@) is None && e.text@
                == lines@,
            Err(CountError::IllegalByteCount(e)) => parsed_count(lines@) is Some && bytes is Some
                && parsed_count(bytes->0@) is None && e.text@ == bytes->0@,
        },
{
    let line_count = match parse_num(lines) {
        Ok(take_val) => take_val,
        Err(e) => {
            return Err(CountError::IllegalLineCount(e));
        },
    };
    match bytes {
        None => Ok(Selection::Lines(line_count)),
        Some(b) => match parse_num(b) {
            Ok(take_val) => Ok(Selection::Bytes(take_val)),
            Err(e) => Err(CountError::IllegalByteCount(e)),
        },
    }
}

/// What a run prints for a source with this content.
pub open spec fn tail_spec(s: Seq<u8>, selection: Selection) -> Seq<u8>
    recommends
        s.len() <= i64::MAX,
{
    match selection {
        Selection::Lines(take_val) => lines_from(s, start_index(take_val, line_count(s) as i64)),
        Selection::Bytes(take_val) => bytes_from(s, start_index(take_val, s.len() as i64)),
    }
}

/// The output for one source: its totals are counted, the request is resolved
/// against them, and the content from the start on is handed back unchanged.
pub fn tail(content: &[u8], selection: &Selection) -> (out: Vec<u8>)
    requires
        content@.len() <= i64::MAX,
    ensures
        out@ == tail_spec(content@, *selection),
{
    let totals = count_lines_bytes(content);
    match selection {
        Selection::Lines(take_val) => select_lines(content, get_start_index(take_val, totals.0)),
        Selection::Bytes(take_val) => select_bytes(content, get_start_index(take_val, totals.1)),
    }
}

/// The header line of a source: none for a single source or in quiet mode;
/// otherwise the name between arrows, after an empty line for every source
/// but the first.
pub open spec fn header_spec(filename: Seq<char>, file_num: int, num_files: int, quiet: bool)
    -> Option<Seq<char>> {
    if quiet || num_files <= 1 {
        None
    } else if file_num > 0 {
        Some("\n==> "@ + filename + " <==\n"@)
    } else {
        Some("==> "@ + filename + " <==\n"@)
    }
}

/// The header to print before the output of source number `file_num` of
/// `num_files`, counted from zero.
pub fn header(filename: &str, file_num: usize, num_files: usize, quiet: bool) -> (text: Option<
    String,
>)
    ensures
        match text {
            Some(t) => header_spec(filename@, file_num as int, num_files as int, quiet) == Some(
                t@,
            ),
            None => header_spec(filename@, file_num as int, num_files as int, quiet) is None,
        },
{
    if quiet || num_files <= 1 {
        None
    } else {
        let opening = if file_num > 0 { "\n==> " } else { "==> " };
        Some(String::from_str(opening).concat(filename).concat(" <==\n"))
    }
}

/// A count without a sign reads as the same count with `-` before it. Neither
/// is ever `PlusZero`: where the digits denote zero, both are `TakeNum(0)`.
pub proof fn lemma_unsigned_reads_as_negative(digits: Seq<char>)
    requires
        digits.len() > 0,
        all_digits(digits),
    ensures
        parsed_count(digits) == parsed_count(seq!['-'] + digits),
        parsed_count(digits) != Some(TakeValue::PlusZero),
        decimal_value(digits) == 0 ==> parsed_count(digits) == Some(TakeValue::TakeNum(0)),
{
    let negative = seq!['-'] + digits;
    assert(crate::decimal::is_digit(digits[0]));
    assert(magnitude_digits(negative) =~= digits);
}

/// Only `+` before digits that denote zero gives `PlusZero`; the same digits
/// alone or after `-` give `TakeNum(0)`.
pub proof fn lemma_plus_zero_is_special(digits: Seq<char>)
    requires
        digits.len() > 0,
        all_digits(digits),
        decimal_value(digits) == 0,
    ensures
        parsed_count(seq!['+'] + digits) == Some(TakeValue::PlusZero),
        parsed_count(seq!['-'] + digits) == Some(TakeValue::TakeNum(0)),
        parsed_count(digits) == Some(TakeValue::TakeNum(0)),
{
    lemma_unsigned_reads_as_negative(digits);
    assert(magnitude_digits(seq!['+'] + digits) =~= digits);
}

/// `PlusZero` comes from no other argument than `+` and digits that denote zero.
pub proof fn lemma_plus_zero_only_from_plus(s: Seq<char>)
    ensures
        parsed_count(s) == Some(TakeValue::PlusZero) <==> is_count(s) && has_plus(s)
            && decimal_value(magnitude_digits(s)) == 0,
{
}

/// After `+` every magnitude up to the greatest positive value is accepted and
/// kept, that greatest value included; a greater one is rejected.
pub proof fn lemma_plus_range(digits: Seq<char>)
    requires
        digits.len() > 0,
        all_digits(digits),
    ensures
        parsed_count(seq!['+'] + digits) is Some <==> decimal_value(digits) <= i64::MAX,
        0 < decimal_value(digits) <= i64::MAX ==> parsed_count(seq!['+'] + digits) == Some(
            TakeValue::TakeNum(decimal_value(digits) as i64),
        ),
{
    assert(magnitude_digits(seq!['+'] + digits) =~= digits);
}

/// After `-`, or without a sign, every magnitude up to that of the least
/// negative value is accepted and negated, that magnitude included; a greater
/// one is rejected.
pub proof fn lemma_minus_range(digits: Seq<char>)
    requires
        digits.len() > 0,
        all_digits(digits),
    ensures
        parsed_count(seq!['-'] + digits) is Some <==> decimal_value(digits) <= -(i64::MIN as int),
        decimal_value(digits) <= -(i64::MIN as int) ==> parsed_count(seq!['-'] + digits) == Some(
            TakeValue::TakeNum((-(decimal_value(digits) as int)) as i64),
        ),
        parsed_count(digits) == parsed_count(seq!['-'] + digits),
{
    lemma_unsigned_reads_as_negative(digits);
    assert(magnitude_digits(seq!['-'] + digits) =~= digits);
}

/// `+0` starts at the first unit of a source that has one, and selects nothing
/// from an empty source.
pub proof fn lemma_plus_zero_start(total: i64)
    requires
        total >= 0,
    ensures
        total == 0 ==> start_index(TakeValue::PlusZero, total) is None,
        total > 0 ==> start_index(TakeValue::PlusZero, total) == Some(0u64),
{
}

/// A count of zero selects nothing, whatever the source holds.
pub proof fn lemma_zero_count_selects_nothing(total: i64)
    requires
        total >= 0,
    ensures
        start_index(TakeValue::TakeNum(0), total) is None,
{
}

/// Nothing is selected from an empty source, nor by a start beyond the end.
pub proof fn lemma_empty_or_beyond_selects_nothing(n: i64, total: i64)
    requires
        total >= 0,
        total == 0 || (n > 0 && n > total),
    ensures
        start_index(TakeValue::TakeNum(n), total) is None,
{
}

/// A positive count inside the source names its start, counted from one.
pub proof fn lemma_positive_count_start(n: i64, total: i64)
    requires
        1 <= n <= total,
    ensures
        start_index(TakeValue::TakeNum(n), total) == Some((n - 1) as u64),
{
}

/// A negative count no longer than the source starts that many units before
/// the end.
pub proof fn lemma_negative_count_start(n: i64, total: i64)
    requires
        total >= 0,
        n < 0,
        -n <= total,
    ensures
        start_index(TakeValue::TakeNum(n), total) == Some((total + n) as u64),
{
}

/// A negative count longer than a non-empty source selects all of it.
pub proof fn lemma_long_negative_count_start(n: i64, total: i64)
    requires
        total > 0,
        n < 0,
        -n > total,
    ensures
        start_index(TakeValue::TakeNum(n), total) == Some(0u64),
{
}

/// The line terminators of a text are that of its first byte and those of
/// the rest.
pub proof fn lemma_newline_count_first(s: Seq<u8>)
    requires
        s.len() > 0,
    ensures
        newline_count(s) == newline_count(s.drop_first()) + if s.first() == 10u8 {
            1nat
        } else {
            0nat
        },
    decreases s.len(),
{
    if s.len() == 1 {
        assert(s.drop_last() =~= s.drop_first());
        assert(newline_count(s.drop_last()) == 0);
    } else {
        lemma_newline_count_first(s.drop_last());
        assert(s.drop_last().drop_first() =~= s.drop_first().drop_last());
        assert(s.drop_last().first() == s.first());
        assert(s.drop_first().last() == s.last());
    }
}

/// A source has no more lines than bytes, and no lines only where it is
/// empty.
pub proof fn lemma_line_count_bound(s: Seq<u8>)
    ensures
        line_count(s) <= s.len(),
        line_count(s) == 0 <==> s.len() == 0,
{
    lemma_newline_count_bound(s);
    if s.len() > 0 {
        lemma_newline_count_bound(s.drop_last());
    }
}

/// What stands from the start of line `k` on holds all lines but the first
/// `k`.
pub proof fn lemma_lines_after_start(s: Seq<u8>, k: nat)
    requires
        k <= line_count(s),
    ensures
        line_count(s.skip(line_start(s, k) as int)) == line_count(s) - k,
    decreases s.len(),
{
    if k == 0 || s.len() == 0 {
        assert(s.skip(0) =~= s);
    } else {
        let rest = s.drop_first();
        lemma_newline_count_first(s);
        if rest.len() > 0 {
            assert(rest.last() == s.last());
        }
        if s.first() == 10u8 {
            lemma_lines_after_start(rest, (k - 1) as nat);
            lemma_line_start_bound(rest, (k - 1) as nat);
            assert(s.skip(1 + line_start(rest, (k - 1) as nat) as int) =~= rest.skip(
                line_start(rest, (k - 1) as nat) as int,
            ));
        } else if rest.len() == 0 {
            assert(s.skip(1) =~= Seq::<u8>::empty());
            assert(line_start(rest, k) == 0);
        } else {
            lemma_lines_after_start(rest, k);
            lemma_line_start_bound(rest, k);
            assert(s.skip(1 + line_start(rest, k) as int) =~= rest.skip(
                line_start(rest, k) as int,
            ));
        }
    }
}

/// `+0` prints a source whole, in lines and in bytes, and a count of zero
/// prints nothing.
pub proof fn lemma_tail_all_or_nothing(s: Seq<u8>)
    requires
        s.len() <= i64::MAX,
    ensures
        tail_spec(s, Selection::Lines(TakeValue::PlusZero)) == s,
        tail_spec(s, Selection::Bytes(TakeValue::PlusZero)) == s,
        tail_spec(s, Selection::Lines(TakeValue::TakeNum(0))).len() == 0,
        tail_spec(s, Selection::Bytes(TakeValue::TakeNum(0))).len() == 0,
{
    lemma_line_count_bound(s);
    assert(s.skip(0) =~= s);
    if s.len() == 0 {
        assert(Seq::<u8>::empty() =~= s);
    }
}

/// A negative count asks for that many lines from the end: exactly that
/// many are printed where the source has them, and the whole source where it
/// has fewer. What is printed is the end of the source.
pub proof fn lemma_tail_last_lines(s: Seq<u8>, n: i64)
    requires
        s.len() <= i64::MAX,
        n < 0,
    ensures
        -n <= line_count(s) ==> line_count(tail_spec(s, Selection::Lines(TakeValue::TakeNum(n))))
            == -n,
        -n > line_count(s) ==> tail_spec(s, Selection::Lines(TakeValue::TakeNum(n))) == s,
        exists|from: int|
            0 <= from <= s.len() && tail_spec(s, Selection::Lines(TakeValue::TakeNum(n)))
                == #[trigger] s.skip(from),
{
    lemma_line_count_bound(s);
    let total = line_count(s);
    let out = tail_spec(s, Selection::Lines(TakeValue::TakeNum(n)));
    if total == 0 {
        assert(out =~= s.skip(0));
        assert(s.skip(0) =~= s);
    } else if -n > total {
        assert(out =~= s.skip(0));
        assert(s.skip(0) =~= s);
    } else {
        let k = (total + n) as nat;
        lemma_lines_after_start(s, k);
        lemma_line_start_bound(s, k);
        assert(out == s.skip(line_start(s, k) as int));
    }
}

/// A positive count `n` prints the lines from line `n` on, counted from one:
/// all lines but the first `n - 1`.
pub proof fn lemma_tail_lines_from(s: Seq<u8>, n: i64)
    requires
        s.len() <= i64::MAX,
        1 <= n <= line_count(s),
    ensures
        line_count(tail_spec(s, Selection::Lines(TakeValue::TakeNum(n)))) == line_count(s) - (n
            - 1),
{
    lemma_line_count_bound(s);
    lemma_lines_after_start(s, (n - 1) as nat);
}

/// A negative count asks for that many bytes from the end: exactly those
/// are printed where the source has them, and the whole source where it has
/// fewer.
pub proof fn lemma_tail_last_bytes(s: Seq<u8>, n: i64)
    requires
        s.len() <= i64::MAX,
        n < 0,
    ensures
        -n <= s.len() ==> tail_spec(s, Selection::Bytes(TakeValue::TakeNum(n))) == s.skip(
            s.len() + n,
        ),
        -n > s.len() ==> tail_spec(s, Selection::Bytes(TakeValue::TakeNum(n))) == s,
{
    assert(s.skip(0) =~= s);
    if s.len() == 0 {
        assert(Seq::<u8>::empty() =~= s);
    }
}

} // verus!
