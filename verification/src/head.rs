//! `head`: the first lines or bytes of a source.

use crate::tail::{header_spec, line_start};
use crate::text::{decode_lossy, utf8_lossy};
use vstd::prelude::*;
use vstd::slice::slice_subrange;

verus! {

/// The header to print before the output of source number `file_num` of
/// `num_files`, counted from zero: none for a single source; otherwise the
/// name between arrows, after an empty line for every source but the first.
pub fn header(filename: &str, file_num: usize, num_files: usize) -> (text: Option<String>)
    ensures
        match text {
            Some(t) => header_spec(filename@, file_num as int, num_files as int, false) == Some(
                t@,
            ),
            None => header_spec(filename@, file_num as int, num_files as int, false) is None,
        },
{
    crate::tail::header(filename, file_num, num_files, false)
}

/// The first `n` lines of `s`, with their terminators; all of `s` where it
/// has no more lines.
pub open spec fn lines_until(s: Seq<u8>, n: u64) -> Seq<u8> {
    s.take(line_start(s, n as nat) as int)
}

/// The first `n` lines of `content`, unchanged.
pub fn first_lines(content: &[u8], n: u64) -> (out: Vec<u8>)
    ensures
        out@ == lines_until(content@, n),
{
    let len: usize = content.len();
    let mut out: Vec<u8> = Vec::new();
    let mut seen: u64 = 0;
    let mut i: usize = 0;
    proof {
        assert(content@.skip(0) =~= content@);
    }
    while i < len && seen < n
        invariant
            i <= len,
            len == content@.len(),
            seen <= n,
            out@ == content@.take(i as int),
            line_start(content@, n as nat) == i + line_start(
                content@.skip(i as int),
                (n - seen) as nat,
            ),
        decreases len - i,
    {
        proof {
            let rest = content@.skip(i as int);
            assert(rest.first() == content@[i as int]);
            assert(rest.drop_first() =~= content@.skip(i + 1));
            assert(content@.take(i + 1) =~= content@.take(i as int).push(content@[i as int]));
        }
        out.push(content[i]);
        if content[i] == 10u8 {
            seen = seen + 1;
        }
        i = i + 1;
    }
    out
}

/// The text of the first `bytes_read` bytes of `buffer`. Where they end
/// inside a character, the decoding is lossy.
pub fn first_bytes(buffer: &[u8], bytes_read: usize) -> (out: String)
    requires
        bytes_read <= buffer@.len(),
    ensures
        out@ == utf8_lossy(buffer@.take(bytes_read as int)),
{
    let read = slice_subrange(buffer, 0, bytes_read);
    proof {
        assert(read@ =~= buffer@.take(bytes_read as int));
    }
    decode_lossy(read)
}

} // verus!
