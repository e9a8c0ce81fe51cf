//! Moving text between strings and vectors of characters.

use vstd::prelude::*;
use vstd::string::*;
use vstd::utf8::{decode_utf8, valid_utf8};

verus! {

/// `String::push` appends one character to the string.
pub assume_specification[ String::push ](s: &mut String, c: char)
    ensures
        final(s)@ == old(s)@.push(c),
;

/// The text that lossy decoding makes of `bytes`: that of `String::from_utf8_lossy`.
pub uninterp spec fn utf8_lossy(bytes: Seq<u8>) -> Seq<char>;

/// `String::from_utf8_lossy` decodes bytes as UTF-8 and puts U+FFFD in place
/// of what is no valid sequence. Its result depends on the bytes alone, and
/// for valid UTF-8 it is the text that the bytes encode.
#[verifier::external_body]
pub(crate) fn decode_lossy(bytes: &[u8]) -> (text: String)
    ensures
        text@ == utf8_lossy(bytes@),
        valid_utf8(bytes@) ==> text@ == decode_utf8(bytes@),
{
    String::from_utf8_lossy(bytes).into_owned()
}

/// The lower-case form of a text: that of `str::to_lowercase`.
pub uninterp spec fn lowercase(s: Seq<char>) -> Seq<char>;

/// `str::to_lowercase` returns the lower-case equivalent of a text, which
/// depends on the text alone.
#[verifier::external_body]
pub(crate) fn to_lowercase(s: &str) -> (lower: String)
    ensures
        lower@ == lowercase(s@),
{
    s.to_lowercase()
}

/// The characters of `s`, in order.
pub fn chars_of(s: &str) -> (chars: Vec<char>)
    ensures
        chars@ == s@,
{
    let mut chars: Vec<char> = Vec::new();
    for c in it: s.chars()
        invariant
            it.seq() == s@,
            chars@ == it.seq().take(it.index()),
    {
        chars.push(c);
    }
    chars
}

/// The string made of the characters `chars[from..to]`.
pub fn string_of(chars: &Vec<char>, from: usize, to: usize) -> (s: String)
    requires
        from <= to <= chars.len(),
    ensures
        s@ == chars@.subrange(from as int, to as int),
{
    let mut s = String::new();
    let mut i: usize = from;
    while i < to
        invariant
            from <= i <= to <= chars.len(),
            s@ == chars@.subrange(from as int, i as int),
        decreases to - i,
    {
        s.push(chars[i]);
        proof {
            assert(chars@.subrange(from as int, i + 1) =~= chars@.subrange(
                from as int,
                i as int,
            ).push(chars@[i as int]));
        }
        i = i + 1;
    }
    s
}

/// `n` spaces.
pub open spec fn spaces(n: int) -> Seq<char> {
    Seq::new(
        if n > 0 {
            n as nat
        } else {
            0
        },
        |i: int| ' ',
    )
}

/// `s` filled up with spaces behind it to `width` characters; a longer `s`
/// stays as it is.
pub open spec fn padded_right(s: Seq<char>, width: int) -> Seq<char> {
    s + spaces(width - s.len())
}

/// `s` filled up with spaces before it to `width` characters; a longer `s`
/// stays as it is.
pub open spec fn padded_left(s: Seq<char>, width: int) -> Seq<char> {
    spaces(width - s.len()) + s
}

/// `s` in the middle of `width` characters; of an odd number of spaces the
/// greater half stands behind it. A longer `s` stays as it is.
pub open spec fn centered(s: Seq<char>, width: int) -> Seq<char> {
    if s.len() >= width {
        s
    } else {
        spaces((width - s.len()) / 2) + s + spaces((width - s.len()) - (width - s.len()) / 2)
    }
}

/// Appends `n` spaces to `out`.
pub fn push_spaces(out: &mut String, n: usize)
    ensures
        final(out)@ == old(out)@ + spaces(n as int),
{
    let mut i: usize = 0;
    while i < n
        invariant
            i <= n,
            out@ == old(out)@ + spaces(i as int),
        decreases n - i,
    {
        out.push(' ');
        proof {
            assert(old(out)@ + spaces(i + 1) =~= (old(out)@ + spaces(i as int)).push(' '));
        }
        i = i + 1;
    }
}

/// The number of characters in `s`.
pub fn char_count(s: &str) -> (n: usize)
    ensures
        n == s@.len(),
{
    s.unicode_len()
}

/// `s` with spaces behind it up to `width` characters.
pub fn pad_right(s: &str, width: usize) -> (out: String)
    ensures
        out@ == padded_right(s@, width as int),
{
    let len: usize = char_count(s);
    let mut out = String::from_str(s);
    if len < width {
        push_spaces(&mut out, width - len);
    } else {
        proof {
            assert(s@ + spaces(width - len) =~= s@);
        }
    }
    out
}

/// `s` with spaces before it up to `width` characters.
pub fn pad_left(s: &str, width: usize) -> (out: String)
    ensures
        out@ == padded_left(s@, width as int),
{
    let len: usize = char_count(s);
    let mut out = String::new();
    if len < width {
        push_spaces(&mut out, width - len);
    }
    out.append(s);
    proof {
        assert(out@ =~= padded_left(s@, width as int));
    }
    out
}

/// `s` in the middle of `width` characters.
pub fn center(s: &str, width: usize) -> (out: String)
    ensures
        out@ == centered(s@, width as int),
{
    let len: usize = char_count(s);
    if len >= width {
        String::from_str(s)
    } else {
        let before: usize = (width - len) / 2;
        let mut out = String::new();
        push_spaces(&mut out, before);
        out.append(s);
        push_spaces(&mut out, (width - len) - before);
        proof {
            assert(out@ =~= centered(s@, width as int));
        }
        out
    }
}

/// The texts of `parts` one after the other, with `sep` between each two.
pub open spec fn joined(parts: Seq<Seq<char>>, sep: Seq<char>) -> Seq<char>
    decreases parts.len(),
{
    if parts.len() == 0 {
        Seq::empty()
    } else if parts.len() == 1 {
        parts[0]
    } else {
        joined(parts.drop_last(), sep) + sep + parts.last()
    }
}

/// The texts `parts[from..to]` one after the other, with `sep` between each two.
pub fn join(parts: &Vec<String>, from: usize, to: usize, sep: &str) -> (out: String)
    requires
        from <= to <= parts.len(),
    ensures
        out@ == joined(parts.deep_view().subrange(from as int, to as int), sep@),
{
    let ghost views = parts.deep_view();
    let mut out = String::new();
    let mut i: usize = from;
    while i < to
        invariant
            from <= i <= to <= parts.len(),
            views == parts.deep_view(),
            out@ == joined(views.subrange(from as int, i as int), sep@),
        decreases to - i,
    {
        if i > from {
            out.append(sep);
        }
        out.append(parts[i].as_str());
        proof {
            let longer = views.subrange(from as int, i + 1);
            assert(longer.drop_last() =~= views.subrange(from as int, i as int));
            assert(longer.last() == parts@[i as int]@);
            if i == from {
                assert(out@ =~= longer[0]);
            }
        }
        i = i + 1;
    }
    out
}

/// Whether two texts are the same.
pub fn text_eq(a: &str, b: &str) -> (yes: bool)
    ensures
        yes == (a@ == b@),
{
    let x = chars_of(a);
    let y = chars_of(b);
    if x.len() != y.len() {
        return false;
    }
    let mut i: usize = 0;
    while i < x.len()
        invariant
            i <= x.len(),
            x.len() == y.len(),
            x@ == a@,
            y@ == b@,
            x@.take(i as int) == y@.take(i as int),
        decreases x.len() - i,
    {
        if x[i] != y[i] {
            return false;
        }
        proof {
            assert(x@.take(i + 1) =~= x@.take(i as int).push(x@[i as int]));
            assert(y@.take(i + 1) =~= y@.take(i as int).push(y@[i as int]));
        }
        i = i + 1;
    }
    proof {
        assert(x@.take(i as int) =~= x@);
        assert(y@.take(i as int) =~= y@);
    }
    true
}

/// A text without the white space at its end: that of `str::trim_end`.
pub uninterp spec fn trimmed_end(s: Seq<char>) -> Seq<char>;

/// `str::trim_end` returns the text with trailing white space removed, which
/// depends on the text alone.
#[verifier::external_body]
pub(crate) fn trim_end(s: &str) -> (trimmed: &str)
    ensures
        trimmed@ == trimmed_end(s@),
{
    s.trim_end()
}

} // verus!
