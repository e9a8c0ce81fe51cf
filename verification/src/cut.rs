//! `cut`: the list of positions that selects parts of a line, and the
//! selection itself, by characters, bytes or fields.

use crate::decimal::{
    all_digits, decimal_digits, decimal_within, is_digit, parse_decimal, push_decimal,
};
use crate::pattern::{is_match, pattern_compiles, pattern_matches};
use crate::text::{chars_of, decode_lossy, string_of, utf8_lossy};
use csv::StringRecord;
use std::ops::Range;
use vstd::prelude::*;
use vstd::string::*;
use vstd::utf8::{decode_utf8, valid_utf8};

verus! {

/// What one range selects from `items`: the items whose positions lie in it,
/// in order. Positions behind the end select nothing, and so does a range
/// that ends where it starts or before.
pub open spec fn picked<T>(items: Seq<T>, range: Range<usize>) -> Seq<T> {
    let lo = if range.start <= items.len() {
        range.start as int
    } else {
        items.len() as int
    };
    let hi = if range.end <= items.len() {
        range.end as int
    } else {
        items.len() as int
    };
    if lo < hi {
        items.subrange(lo, hi)
    } else {
        Seq::empty()
    }
}

/// What a list of ranges selects from `items`: the selections of the ranges,
/// one after the other in the order of the list. A position named twice is
/// taken twice.
pub open spec fn picked_all<T>(items: Seq<T>, ranges: Seq<Range<usize>>) -> Seq<T>
    decreases ranges.len(),
{
    if ranges.len() == 0 {
        Seq::empty()
    } else {
        picked_all(items, ranges.drop_last()) + picked(items, ranges.last())
    }
}

/// Selects from `items` what the ranges name.
pub fn pick<T: Copy>(items: &[T], ranges: &[Range<usize>]) -> (out: Vec<T>)
    ensures
        out@ == picked_all(items@, ranges@),
{
    let mut out: Vec<T> = Vec::new();
    let n: usize = items.len();
    let mut r: usize = 0;
    while r < ranges.len()
        invariant
            r <= ranges@.len(),
            n == items@.len(),
            out@ == picked_all(items@, ranges@.take(r as int)),
        decreases ranges@.len() - r,
    {
        let lo: usize = if ranges[r].start <= n { ranges[r].start } else { n };
        let hi: usize = if ranges[r].end <= n { ranges[r].end } else { n };
        let ghost before = out@;
        let mut i: usize = lo;
        while i < hi
            invariant
                lo <= n,
                hi <= n,
                lo <= i,
                lo < hi ==> i <= hi,
                n == items@.len(),
                lo < hi ==> out@ == before + items@.subrange(lo as int, i as int),
                lo >= hi ==> out@ == before,
            decreases hi - i,
        {
            out.push(items[i]);
            proof {
                assert(items@.subrange(lo as int, i + 1) =~= items@.subrange(
                    lo as int,
                    i as int,
                ).push(items@[i as int]));
            }
            i = i + 1;
        }
        proof {
            let done = ranges@.take(r + 1);
            assert(done.drop_last() =~= ranges@.take(r as int));
            assert(done.last() == ranges@[r as int]);
            assert(out@ =~= before + picked(items@, ranges@[r as int]));
        }
        r = r + 1;
    }
    proof {
        assert(ranges@.take(r as int) =~= ranges@);
    }
    out
}

/// The characters of `line` at the positions that `char_pos` names.
pub fn extract_chars(line: &str, char_pos: &[Range<usize>]) -> (out: String)
    ensures
        out@ == picked_all(line@, char_pos@),
{
    let chars = chars_of(line);
    let selected = pick(chars.as_slice(), char_pos);
    string_of(&selected, 0, selected.len())
}

/// The bytes of `line` at the positions that `byte_pos` names, decoded again
/// as text. Where the selection cuts a character apart, the decoding is lossy.
pub fn extract_bytes(line: &str, byte_pos: &[Range<usize>]) -> (out: String)
    ensures
        out@ == utf8_lossy(picked_all(line.spec_bytes(), byte_pos@)),
        valid_utf8(picked_all(line.spec_bytes(), byte_pos@)) ==> out@ == decode_utf8(
            picked_all(line.spec_bytes(), byte_pos@),
        ),
{
    let selected = pick(line.as_bytes(), byte_pos);
    decode_lossy(selected.as_slice())
}

/// A record of `csv`, carried as it is; what it holds is named by
/// `record_fields`.
#[verifier::external_type_specification]
#[verifier::external_body]
pub struct ExStringRecord(csv::StringRecord);

/// The fields that a record holds, in order.
pub uninterp spec fn record_fields(record: StringRecord) -> Seq<Seq<char>>;

/// `StringRecord::get` returns the field at index `i`, and `None` where the
/// record has no such field.
pub assume_specification[ StringRecord::get ](record: &StringRecord, i: usize) -> (field: Option<
    &str,
>)
    ensures
        match field {
            Some(text) => i < record_fields(*record).len() && text@ == record_fields(*record)[i as int],
            None => i >= record_fields(*record).len(),
        },
;

/// `StringRecord::len` returns the number of fields in the record.
pub assume_specification[ StringRecord::len ](record: &StringRecord) -> (len: usize)
    ensures
        len == record_fields(*record).len(),
;

/// The fields of `record` at the positions that `field_pos` names.
pub fn extract_fields(record: &StringRecord, field_pos: &[Range<usize>]) -> (out: Vec<String>)
    ensures
        out.deep_view() == picked_all(record_fields(*record), field_pos@),
{
    let mut out: Vec<String> = Vec::new();
    let n: usize = record.len();
    let ghost fields = record_fields(*record);
    let mut r: usize = 0;
    while r < field_pos.len()
        invariant
            r <= field_pos@.len(),
            n == fields.len(),
            fields == record_fields(*record),
            out@.len() == picked_all(fields, field_pos@.take(r as int)).len(),
            forall|i: int|
                0 <= i < out@.len() ==> (#[trigger] out@[i])@ == picked_all(
                    fields,
                    field_pos@.take(r as int),
                )[i],
        decreases field_pos@.len() - r,
    {
        let lo: usize = if field_pos[r].start <= n { field_pos[r].start } else { n };
        let hi: usize = if field_pos[r].end <= n { field_pos[r].end } else { n };
        let ghost before = picked_all(fields, field_pos@.take(r as int));
        let mut i: usize = lo;
        while i < hi
            invariant
                lo <= n,
                hi <= n,
                lo <= i,
                lo < hi ==> i <= hi,
                n == fields.len(),
                fields == record_fields(*record),
                lo < hi ==> out@.len() == before.len() + (i - lo),
                lo >= hi ==> out@.len() == before.len(),
                forall|j: int| 0 <= j < before.len() ==> (#[trigger] out@[j])@ == before[j],
                forall|j: int|
                    before.len() <= j < out@.len() ==> (#[trigger] out@[j])@ == fields[lo + (j
                        - before.len())],
            decreases hi - i,
        {
            match record.get(i) {
                Some(text) => {
                    out.push(String::from_str(text));
                },
                None => {},
            }
            i = i + 1;
        }
        proof {
            let done = field_pos@.take(r + 1);
            assert(done.drop_last() =~= field_pos@.take(r as int));
            assert(done.last() == field_pos@[r as int]);
        }
        r = r + 1;
    }
    proof {
        assert(field_pos@.take(r as int) =~= field_pos@);
        assert(out.deep_view() =~= picked_all(fields, field_pos@));
    }
    out
}

/// Why a list of positions, or a delimiter, is refused.
#[derive(Debug)]
pub enum CutError {
    /// An entry of the list is no position and no range; it carries the text
    /// that is at fault.
    IllegalListValue(String),
    /// A range whose first number is not lower than its second; it carries
    /// both as they were written.
    RangeOrder(usize, usize),
    /// A delimiter that is not one byte long; it carries the delimiter.
    Delimiter(String),
}

/// A `CutError` as a mathematical value.
pub enum CutErrorView {
    IllegalListValue(Seq<char>),
    RangeOrder(usize, usize),
    Delimiter(Seq<char>),
}

impl View for CutError {
    type V = CutErrorView;

    open spec fn view(&self) -> CutErrorView {
        match self {
            CutError::IllegalListValue(text) => CutErrorView::IllegalListValue(text@),
            CutError::RangeOrder(first, second) => CutErrorView::RangeOrder(*first, *second),
            CutError::Delimiter(text) => CutErrorView::Delimiter(text@),
        }
    }
}

/// The text that reports an error.
pub open spec fn message_spec(e: CutErrorView) -> Seq<char> {
    match e {
        CutErrorView::IllegalListValue(text) => "illegal list value: \""@ + text + "\""@,
        CutErrorView::RangeOrder(first, second) => "First number in range ("@ + decimal_digits(
            first as nat,
        ) + ") must be lower than second number ("@ + decimal_digits(second as nat) + ")"@,
        CutErrorView::Delimiter(text) => "--delim \""@ + text + "\" must be a single byte"@,
    }
}

impl CutError {
    /// The text to report.
    pub fn message(&self) -> (text: String)
        ensures
            text@ == message_spec(self@),
    {
        match self {
            CutError::IllegalListValue(value) => String::from_str("illegal list value: \"").concat(
                value.as_str(),
            ).concat("\""),
            CutError::RangeOrder(first, second) => {
                let mut text = String::from_str("First number in range (");
                push_decimal(&mut text, *first as u64);
                text.append(") must be lower than second number (");
                push_decimal(&mut text, *second as u64);
                text.append(")");
                text
            },
            CutError::Delimiter(value) => String::from_str("--delim \"").concat(
                value.as_str(),
            ).concat("\" must be a single byte"),
        }
    }
}

/// The zero-based position that the text `s` names: `s` is a number written
/// in ASCII digits alone, counted from one, that fits the machine's word.
pub open spec fn index_spec(s: Seq<char>) -> Option<usize> {
    match decimal_within(s, usize::MAX as int) {
        Some(n) if n >= 1 => Some((n - 1) as usize),
        _ => None,
    }
}

/// Reads `chars[start..end]` as a position.
fn parse_index_chars(chars: &Vec<char>, start: usize, end: usize) -> (result: Result<
    usize,
    CutError,
>)
    requires
        start <= end <= chars.len(),
    ensures
        match result {
            Ok(index) => index_spec(chars@.subrange(start as int, end as int)) == Some(index),
            Err(e) => index_spec(chars@.subrange(start as int, end as int)) is None && e@
                == CutErrorView::IllegalListValue(chars@.subrange(start as int, end as int)),
        },
{
    match parse_decimal(chars, start, end, usize::MAX as u64) {
        Some(n) if n >= 1 => Ok((n - 1) as usize),
        _ => Err(CutError::IllegalListValue(string_of(chars, start, end))),
    }
}

/// Reads a position, written as a number from one on, and gives it counted
/// from zero. A sign, a zero, an empty text or anything that is no digit is
/// refused, and the error carries `input`.
pub fn parse_index(input: &str) -> (result: Result<usize, CutError>)
    ensures
        match result {
            Ok(index) => index_spec(input@) == Some(index),
            Err(e) => index_spec(input@) is None && e@ == CutErrorView::IllegalListValue(input@),
        },
{
    let chars = chars_of(input);
    proof {
        assert(chars@.subrange(0, chars@.len() as int) =~= input@);
    }
    parse_index_chars(&chars, 0, chars.len())
}

/// The place of the first `sep` in `s`, or the length of `s` where it has none.
pub open spec fn first_sep(s: Seq<char>, sep: char) -> int
    decreases s.len(),
{
    if s.len() == 0 || s.first() == sep {
        0
    } else {
        1 + first_sep(s.drop_first(), sep)
    }
}

/// The first separator is the one that has no other before it.
pub proof fn lemma_first_sep_is(s: Seq<char>, sep: char, k: int)
    requires
        0 <= k <= s.len(),
        k < s.len() ==> s[k] == sep,
        forall|j: int| 0 <= j < k ==> s[j] != sep,
    ensures
        first_sep(s, sep) == k,
    decreases s.len(),
{
    if k > 0 {
        let rest = s.drop_first();
        assert(s.first() == s[0]);
        assert forall|j: int| 0 <= j < k - 1 implies rest[j] != sep by {
            assert(rest[j] == s[j + 1]);
        }
        lemma_first_sep_is(rest, sep, k - 1);
    }
}

/// The place of the first `sep` in `chars[start..end]`, or `end`.
fn find_sep(chars: &Vec<char>, start: usize, end: usize, sep: char) -> (stop: usize)
    requires
        start <= end <= chars.len(),
    ensures
        start <= stop <= end,
        stop - start == first_sep(chars@.subrange(start as int, end as int), sep),
        stop < end ==> chars@[stop as int] == sep,
{
    let ghost s = chars@.subrange(start as int, end as int);
    let mut i: usize = start;
    while i < end && chars[i] != sep
        invariant
            start <= i <= end <= chars.len(),
            s == chars@.subrange(start as int, end as int),
            forall|j: int| 0 <= j < i - start ==> s[j] != sep,
        decreases end - i,
    {
        i = i + 1;
    }
    proof {
        lemma_first_sep_is(s, sep, i - start);
    }
    i
}

/// `s` has the form of a range with its dash at `k`: ASCII digits, a dash,
/// ASCII digits.
pub open spec fn is_range_at(s: Seq<char>, k: int) -> bool {
    &&& 0 < k < s.len() - 1
    &&& s[k] == '-'
    &&& all_digits(s.take(k))
    &&& all_digits(s.skip(k + 1))
}

/// `s` has the form of a range in ASCII digits.
pub open spec fn is_range(s: Seq<char>) -> bool {
    exists|k: int| is_range_at(s, k)
}

/// A range in ASCII digits has its dash where its first dash is.
pub proof fn lemma_dash_is_first(s: Seq<char>, k: int)
    requires
        is_range_at(s, k),
    ensures
        first_sep(s, '-') == k,
{
    assert forall|j: int| 0 <= j < k implies s[j] != '-' by {
        assert(s.take(k)[j] == s[j]);
        assert(is_digit(s.take(k)[j]));
    }
    lemma_first_sep_is(s, '-', k);
}

/// The regular expression for a range: decimal digits of any script, a dash,
/// and such digits again, and nothing else.
pub open spec fn range_pattern() -> Seq<char> {
    "^(\\d+)-(\\d+)$"@
}

/// `s` is read as a range: it has the form of one in ASCII digits, or it has
/// a dash and `range_pattern` matches it.
pub open spec fn is_range_like(s: Seq<char>) -> bool {
    is_range(s) || (first_sep(s, '-') < s.len() && pattern_compiles(range_pattern(), false)
        && pattern_matches(range_pattern(), false, s))
}

/// What one entry of the list means: a single position `n` selects `n` alone;
/// a range `a-b` with `a` lower than `b` selects from `a` to `b`, both
/// included. In what is read as a range, the first number that is no
/// position is reported by itself; anything else is reported whole.
pub open spec fn entry_spec(s: Seq<char>) -> Result<Range<usize>, CutErrorView> {
    match index_spec(s) {
        Some(n) => Ok((n..(n + 1) as usize)),
        None => if is_range_like(s) {
            let k = first_sep(s, '-');
            match (index_spec(s.take(k)), index_spec(s.skip(k + 1))) {
                (None, _) => Err(CutErrorView::IllegalListValue(s.take(k))),
                (Some(_), None) => Err(CutErrorView::IllegalListValue(s.skip(k + 1))),
                (Some(first), Some(second)) => if first >= second {
                    Err(CutErrorView::RangeOrder((first + 1) as usize, (second + 1) as usize))
                } else {
                    Ok((first..(second + 1) as usize))
                },
            }
        } else {
            Err(CutErrorView::IllegalListValue(s))
        },
    }
}

/// Whether `chars[start..end]` holds ASCII digits alone.
fn only_digits(chars: &Vec<char>, start: usize, end: usize) -> (yes: bool)
    requires
        start <= end <= chars.len(),
    ensures
        yes == all_digits(chars@.subrange(start as int, end as int)),
{
    let ghost s = chars@.subrange(start as int, end as int);
    let mut i: usize = start;
    while i < end
        invariant
            start <= i <= end <= chars.len(),
            s == chars@.subrange(start as int, end as int),
            forall|j: int| 0 <= j < i - start ==> is_digit(#[trigger] s[j]),
        decreases end - i,
    {
        if !(chars[i] >= '0' && chars[i] <= '9') {
            proof {
                assert(!is_digit(s[i - start]));
            }
            return false;
        }
        i = i + 1;
    }
    true
}

/// Reads one entry of the list, `chars[start..end]`.
fn parse_entry(chars: &Vec<char>, start: usize, end: usize) -> (result: Result<
    Range<usize>,
    CutError,
>)
    requires
        start <= end <= chars.len(),
    ensures
        match result {
            Ok(range) => entry_spec(chars@.subrange(start as int, end as int)) == Ok::<
                Range<usize>,
                CutErrorView,
            >(range),
            Err(e) => entry_spec(chars@.subrange(start as int, end as int)) == Err::<
                Range<usize>,
                CutErrorView,
            >(e@),
        },
{
    let ghost s = chars@.subrange(start as int, end as int);
    match parse_index_chars(chars, start, end) {
        Ok(n) => Ok(n..n + 1),
        Err(whole) => {
            let dash: usize = find_sep(chars, start, end, '-');
            let ghost k = dash - start;
            proof {
                if is_range(s) {
                    let at = choose|at: int| is_range_at(s, at);
                    lemma_dash_is_first(s, at);
                }
            }
            if dash == end {
                return Err(whole);
            }
            proof {
                assert(s.take(k) =~= chars@.subrange(start as int, dash as int));
                assert(s.skip(k + 1) =~= chars@.subrange(dash + 1, end as int));
            }
            let ascii: bool = dash > start && dash + 1 < end && only_digits(chars, start, dash)
                && only_digits(chars, dash + 1, end);
            let range_like: bool = if ascii {
                true
            } else {
                let text = string_of(chars, start, end);
                match is_match("^(\\d+)-(\\d+)$", false, text.as_str()) {
                    Some(found) => found,
                    None => false,
                }
            };
            if !range_like {
                return Err(whole);
            }
            proof {
                if ascii {
                    assert(is_range_at(s, k));
                }
                assert(is_range_like(s));
            }
            let first: usize = match parse_index_chars(chars, start, dash) {
                Ok(n) => n,
                Err(e) => {
                    return Err(e);
                },
            };
            let second: usize = match parse_index_chars(chars, dash + 1, end) {
                Ok(n) => n,
                Err(e) => {
                    return Err(e);
                },
            };
            if first >= second {
                Err(CutError::RangeOrder(first + 1, second + 1))
            } else {
                Ok(first..second + 1)
            }
        },
    }
}

/// What a list of positions means: its entries stand between commas, each is
/// read by itself, and their ranges are kept in the order of the list. The
/// first entry at fault decides the error. An empty list has one empty entry,
/// which is at fault.
pub open spec fn list_spec(s: Seq<char>) -> Result<Seq<Range<usize>>, CutErrorView>
    decreases s.len(),
{
    let k = first_sep(s, ',');
    if 0 <= k < s.len() {
        match (entry_spec(s.take(k)), list_spec(s.skip(k + 1))) {
            (Err(e), _) => Err(e),
            (Ok(_), Err(e)) => Err(e),
            (Ok(range), Ok(ranges)) => Ok(seq![range] + ranges),
        }
    } else {
        match entry_spec(s) {
            Err(e) => Err(e),
            Ok(range) => Ok(seq![range]),
        }
    }
}

/// The ranges `done`, followed by what `rest` gives.
pub open spec fn after(done: Seq<Range<usize>>, rest: Result<Seq<Range<usize>>, CutErrorView>)
    -> Result<Seq<Range<usize>>, CutErrorView> {
    match rest {
        Ok(ranges) => Ok(done + ranges),
        Err(e) => Err(e),
    }
}

/// Reads a list of positions: numbers and ranges of numbers, counted from one
/// and separated by commas. The ranges that come back count from zero and
/// leave their end out.
pub fn parse_pos(range: String) -> (result: Result<Vec<Range<usize>>, CutError>)
    ensures
        match result {
            Ok(ranges) => list_spec(range@) == Ok::<Seq<Range<usize>>, CutErrorView>(ranges@),
            Err(e) => list_spec(range@) == Err::<Seq<Range<usize>>, CutErrorView>(e@),
        },
{
    let chars = chars_of(range.as_str());
    let n: usize = chars.len();
    let mut out: Vec<Range<usize>> = Vec::new();
    let mut start: usize = 0;
    proof {
        assert(chars@.skip(0) =~= chars@);
        assert(Seq::<Range<usize>>::empty() + list_spec(chars@)->Ok_0 =~= list_spec(
            chars@,
        )->Ok_0);
    }
    loop
        invariant
            start <= n,
            n == chars.len(),
            chars@ == range@,
            list_spec(range@) == after(out@, list_spec(chars@.skip(start as int))),
        decreases n - start,
    {
        let ghost rest = chars@.skip(start as int);
        let stop: usize = find_sep(&chars, start, n, ',');
        proof {
            assert(chars@.subrange(start as int, n as int) =~= rest);
            assert(rest.take(stop - start) =~= chars@.subrange(start as int, stop as int));
            if stop == n {
                assert(chars@.subrange(start as int, stop as int) =~= rest);
            }
        }
        match parse_entry(&chars, start, stop) {
            Err(e) => {
                return Err(e);
            },
            Ok(entry) => {
                let ghost before = out@;
                out.push(entry);
                if stop == n {
                    proof {
                        assert(before + seq![entry] =~= out@);
                    }
                    return Ok(out);
                }
                proof {
                    assert(rest.skip(stop - start + 1) =~= chars@.skip(stop + 1));
                    let tail = list_spec(chars@.skip(stop + 1));
                    if tail is Ok {
                        assert(before + (seq![entry] + tail->Ok_0) =~= out@ + tail->Ok_0);
                    }
                }
                start = stop + 1;
            },
        }
    }
}

/// The delimiter of fields as one byte; a delimiter of any other length is
/// refused.
pub fn parse_delimiter(delimiter: &str) -> (result: Result<u8, CutError>)
    ensures
        match result {
            Ok(byte) => delimiter.spec_bytes() == seq![byte],
            Err(e) => delimiter.spec_bytes().len() != 1 && e@ == CutErrorView::Delimiter(
                delimiter@,
            ),
        },
{
    let bytes = delimiter.as_bytes();
    if bytes.len() == 1 {
        proof {
            assert(bytes@ =~= seq![bytes@[0]]);
        }
        Ok(bytes[0])
    } else {
        Err(CutError::Delimiter(String::from_str(delimiter)))
    }
}

/// What a run selects, with the positions.
#[derive(Debug)]
pub enum Extract {
    Fields(Vec<Range<usize>>),
    Bytes(Vec<Range<usize>>),
    Chars(Vec<Range<usize>>),
}

/// The list that decides among the three options: that of fields where it is
/// given, else that of bytes, else that of characters.
pub open spec fn deciding_list(
    fields: Option<String>,
    bytes: Option<String>,
    chars: Option<String>,
) -> Seq<char> {
    if fields is Some {
        fields->0@
    } else if bytes is Some {
        bytes->0@
    } else {
        chars->0@
    }
}

/// Reads the one list that is given among the three options. Fields come
/// before bytes, and bytes before characters; what follows the first list
/// that is given is not read.
pub fn parse_extract(fields: Option<String>, bytes: Option<String>, chars: Option<String>) -> (result:
    Result<Extract, CutError>)
    requires
        fields is Some || bytes is Some || chars is Some,
    ensures
        match result {
            Ok(Extract::Fields(positions)) => fields is Some && list_spec(fields->0@) == Ok::<
                Seq<Range<usize>>,
                CutErrorView,
            >(positions@),
            Ok(Extract::Bytes(positions)) => fields is None && bytes is Some && list_spec(
                bytes->0@,
            ) == Ok::<Seq<Range<usize>>, CutErrorView>(positions@),
            Ok(Extract::Chars(positions)) => fields is None && bytes is None && list_spec(
                chars->0@,
            ) == Ok::<Seq<Range<usize>>, CutErrorView>(positions@),
            Err(e) => list_spec(deciding_list(fields, bytes, chars)) == Err::<
                Seq<Range<usize>>,
                CutErrorView,
            >(e@),
        },
{
    if let Some(list) = fields {
        match parse_pos(list) {
            Ok(positions) => Ok(Extract::Fields(positions)),
            Err(e) => Err(e),
        }
    } else if let Some(list) = bytes {
        match parse_pos(list) {
            Ok(positions) => Ok(Extract::Bytes(positions)),
            Err(e) => Err(e),
        }
    } else {
        match parse_pos(chars.unwrap()) {
            Ok(positions) => Ok(Extract::Chars(positions)),
            Err(e) => Err(e),
        }
    }
}

} // verus!
