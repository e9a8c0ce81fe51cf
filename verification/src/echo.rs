//! `echo`: the words of the command line, on one line.

use crate::text::{join, joined};
use vstd::prelude::*;
use vstd::string::*;

verus! {

/// What is printed for `words`: the words with a space between each two, and
/// a line terminator unless it is left out.
pub open spec fn echo_spec(words: Seq<Seq<char>>, omit_newline: bool) -> Seq<char> {
    if omit_newline {
        joined(words, " "@)
    } else {
        joined(words, " "@) + "\n"@
    }
}

/// The text to print for `words`.
pub fn echo(words: &Vec<String>, omit_newline: bool) -> (out: String)
    ensures
        out@ == echo_spec(words.deep_view(), omit_newline),
{
    let mut out = join(words, 0, words.len(), " ");
    proof {
        assert(words.deep_view().subrange(0, words.len() as int) =~= words.deep_view());
    }
    if !omit_newline {
        out.append("\n");
    }
    out
}

} // verus!
