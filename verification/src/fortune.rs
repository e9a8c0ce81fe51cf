//! `fortune`: reading fortunes from the lines of files, picking one, and
//! listing those that a pattern matches.

use crate::pattern::{compiles, is_match, pattern_compiles, pattern_matches};
use crate::text::{join, joined, text_eq};
use rand::rngs::StdRng;
use rand::seq::SliceRandom;
use rand::SeedableRng;
use vstd::prelude::*;
use vstd::string::*;

verus! {

/// A fortune, with the name of the file it came from.
#[derive(Debug)]
pub struct Fortune {
    pub source: String,
    pub text: String,
}

/// A `Fortune` as a mathematical value.
pub struct FortuneView {
    pub source: Seq<char>,
    pub text: Seq<char>,
}

impl View for Fortune {
    type V = FortuneView;

    open spec fn view(&self) -> FortuneView {
        FortuneView { source: self.source@, text: self.text@ }
    }
}

/// A file of fortunes: its name without directories, and its lines without
/// their terminators.
#[derive(Debug)]
pub struct SourceFile {
    pub basename: String,
    pub lines: Vec<String>,
}

/// A `SourceFile` as a mathematical value.
pub struct SourceFileView {
    pub basename: Seq<char>,
    pub lines: Seq<Seq<char>>,
}

impl View for SourceFile {
    type V = SourceFileView;

    open spec fn view(&self) -> SourceFileView {
        SourceFileView { basename: self.basename@, lines: self.lines.deep_view() }
    }
}

/// The state of reading: the lines gathered for the fortune at hand, and the
/// fortunes that are complete.
pub struct Reading {
    pub buffer: Seq<Seq<char>>,
    pub fortunes: Seq<FortuneView>,
}

/// Reading one line of the file `source`. A line that is a lone percent sign
/// ends a fortune: the lines gathered, with line feeds between them, become
/// its text, unless none were gathered. Any other line is gathered.
pub open spec fn read_line(state: Reading, source: Seq<char>, line: Seq<char>) -> Reading {
    if line == "%"@ {
        if state.buffer.len() > 0 {
            Reading {
                buffer: Seq::empty(),
                fortunes: state.fortunes.push(
                    FortuneView { source: source, text: joined(state.buffer, "\n"@) },
                ),
            }
        } else {
            state
        }
    } else {
        Reading { buffer: state.buffer.push(line), fortunes: state.fortunes }
    }
}

/// Reading the lines of one file, in order.
pub open spec fn read_lines(state: Reading, source: Seq<char>, lines: Seq<Seq<char>>) -> Reading
    decreases lines.len(),
{
    if lines.len() == 0 {
        state
    } else {
        read_line(read_lines(state, source, lines.drop_last()), source, lines.last())
    }
}

/// Reading files one after the other. Lines left over at the end of a file,
/// with no percent sign behind them, stay gathered for the next file.
pub open spec fn read_files(files: Seq<SourceFileView>) -> Reading
    decreases files.len(),
{
    if files.len() == 0 {
        Reading { buffer: Seq::empty(), fortunes: Seq::empty() }
    } else {
        read_lines(read_files(files.drop_last()), files.last().basename, files.last().lines)
    }
}

/// The files as mathematical values.
pub open spec fn file_views(files: Seq<SourceFile>) -> Seq<SourceFileView> {
    Seq::new(files.len(), |i: int| files[i]@)
}

/// The fortunes as mathematical values.
pub open spec fn fortune_views(fortunes: Seq<Fortune>) -> Seq<FortuneView> {
    Seq::new(fortunes.len(), |i: int| fortunes[i]@)
}

/// The fortunes of the files, in the order in which they stand.
pub fn read_fortunes(files: &Vec<SourceFile>) -> (fortunes: Vec<Fortune>)
    ensures
        fortune_views(fortunes@) == read_files(file_views(files@)).fortunes,
{
    let ghost views = file_views(files@);
    let mut fortunes: Vec<Fortune> = Vec::new();
    let mut buffer: Vec<String> = Vec::new();
    let mut f: usize = 0;
    proof {
        assert(views.take(0) =~= Seq::<SourceFileView>::empty());
        assert(fortune_views(fortunes@) =~= Seq::<FortuneView>::empty());
        assert(buffer.deep_view() =~= Seq::<Seq<char>>::empty());
    }
    while f < files.len()
        invariant
            f <= files.len(),
            views == file_views(files@),
            buffer.deep_view() == read_files(views.take(f as int)).buffer,
            fortune_views(fortunes@) == read_files(views.take(f as int)).fortunes,
        decreases files.len() - f,
    {
        let file = &files[f];
        let ghost start = read_files(views.take(f as int));
        let ghost source = file.basename@;
        let ghost lines = file.lines.deep_view();
        proof {
            assert(views.take(f + 1).drop_last() =~= views.take(f as int));
            assert(views.take(f + 1).last() == files@[f as int]@);
            assert(lines.take(0) =~= Seq::<Seq<char>>::empty());
        }
        let mut i: usize = 0;
        while i < file.lines.len()
            invariant
                i <= file.lines.len(),
                lines == file.lines.deep_view(),
                source == file.basename@,
                buffer.deep_view() == read_lines(start, source, lines.take(i as int)).buffer,
                fortune_views(fortunes@) == read_lines(
                    start,
                    source,
                    lines.take(i as int),
                ).fortunes,
            decreases file.lines.len() - i,
        {
            proof {
                assert(lines.take(i + 1).drop_last() =~= lines.take(i as int));
                assert(lines.take(i + 1).last() == file.lines@[i as int]@);
            }
            let line = file.lines[i].as_str();
            if text_eq(line, "%") {
                if buffer.len() > 0 {
                    proof {
                        assert(buffer.deep_view().subrange(0, buffer.len() as int)
                            =~= buffer.deep_view());
                    }
                    let text = join(&buffer, 0, buffer.len(), "\n");
                    let ghost before = fortune_views(fortunes@);
                    let fortune = Fortune { source: file.basename.clone(), text };
                    fortunes.push(fortune);
                    buffer = Vec::new();
                    proof {
                        assert(fortune_views(fortunes@) =~= before.push(fortune@));
                        assert(buffer.deep_view() =~= Seq::<Seq<char>>::empty());
                    }
                }
            } else {
                let ghost before = buffer.deep_view();
                buffer.push(String::from_str(line));
                proof {
                    assert(buffer.deep_view() =~= before.push(line@));
                }
            }
            i = i + 1;
        }
        proof {
            assert(lines.take(i as int) =~= lines);
        }
        f = f + 1;
    }
    proof {
        assert(views.take(f as int) =~= views);
    }
    fortunes
}

/// The place of the fortune that `rand` picks among `len` fortunes with a
/// generator seeded with `seed`.
pub uninterp spec fn seeded_index(len: nat, seed: u64) -> int;

/// `item` stands at place `i` of `items`.
pub open spec fn stands_at(items: Seq<Fortune>, item: Fortune, i: int) -> bool {
    0 <= i && i < items.len() && items[i] == item
}

/// `SliceRandom::choose` returns one element of the slice, or `None` for an
/// empty slice. With the generator that `StdRng::seed_from_u64` makes of a
/// seed, the place of that element depends on the length and the seed alone.
#[verifier::external_body]
fn choose_seeded(fortunes: &[Fortune], seed: u64) -> (picked: Option<&Fortune>)
    ensures
        picked is None <==> fortunes@.len() == 0,
        picked is Some ==> stands_at(
            fortunes@,
            *picked->0,
            seeded_index(fortunes@.len(), seed),
        ),
{
    let mut rng = StdRng::seed_from_u64(seed);
    fortunes.choose(&mut rng)
}

/// `SliceRandom::choose` returns one element of the slice, or `None` for an
/// empty slice. With the generator of the thread, which one is left open.
#[verifier::external_body]
fn choose_unseeded(fortunes: &[Fortune]) -> (picked: Option<&Fortune>)
    ensures
        picked is None <==> fortunes@.len() == 0,
        picked is Some ==> fortunes@.contains(*picked->0),
{
    fortunes.choose(&mut rand::thread_rng())
}

/// What picking gives for each fortune that may have been chosen: its text.
pub fn text_of(picked: Option<&Fortune>) -> (text: Option<String>)
    ensures
        match picked {
            Some(fortune) => text is Some && text->0@ == fortune.text@,
            None => text is None,
        },
{
    match picked {
        Some(fortune) => Some(fortune.text.clone()),
        None => None,
    }
}

/// The text of one of the fortunes. With a seed it is the one at the place
/// that the seed and the number of fortunes decide; without, any of them.
/// There is none where there are no fortunes.
pub fn pick_fortune(fortunes: &[Fortune], seed: Option<u64>) -> (text: Option<String>)
    ensures
        text is None <==> fortunes@.len() == 0,
        text is Some ==> exists|i: int|
            0 <= i < fortunes@.len() && text->0@ == (#[trigger] fortunes@[i]).text@,
        text is Some && seed is Some ==> text->0@ == fortunes@[seeded_index(
            fortunes@.len(),
            seed->0,
        )].text@,
{
    let picked = match seed {
        Some(value) => choose_seeded(fortunes, value),
        None => choose_unseeded(fortunes),
    };
    text_of(picked)
}

/// What a listing writes, and where.
#[derive(Debug)]
pub enum Output {
    /// For the error stream: the name of a source, in parentheses, and a
    /// percent sign on the next line.
    Source(String),
    /// For the output stream: a fortune, and a percent sign on the next line.
    Text(String),
}

/// An `Output` as a mathematical value.
pub enum OutputView {
    Source(Seq<char>),
    Text(Seq<char>),
}

impl View for Output {
    type V = OutputView;

    open spec fn view(&self) -> OutputView {
        match self {
            Output::Source(text) => OutputView::Source(text@),
            Output::Text(text) => OutputView::Text(text@),
        }
    }
}

/// The state of a listing: the source of the last fortune listed, and what
/// was written.
pub struct Listing {
    pub source: Option<Seq<char>>,
    pub written: Seq<OutputView>,
}

/// The listing of the fortunes that `pattern` matches: each is written in
/// its turn, after the name of its source where that differs from the source
/// of the fortune listed last.
pub open spec fn listing(fortunes: Seq<FortuneView>, pattern: Seq<char>, insensitive: bool)
    -> Listing
    decreases fortunes.len(),
{
    if fortunes.len() == 0 {
        Listing { source: None, written: Seq::empty() }
    } else {
        let before = listing(fortunes.drop_last(), pattern, insensitive);
        let fortune = fortunes.last();
        if !pattern_matches(pattern, insensitive, fortune.text) {
            before
        } else if before.source == Some(fortune.source) {
            Listing {
                source: before.source,
                written: before.written.push(OutputView::Text(fortune.text + "\n%\n"@)),
            }
        } else {
            Listing {
                source: Some(fortune.source),
                written: before.written.push(
                    OutputView::Source("("@ + fortune.source + ")\n%\n"@),
                ).push(OutputView::Text(fortune.text + "\n%\n"@)),
            }
        }
    }
}

/// The outputs as mathematical values.
pub open spec fn output_views(outputs: Seq<Output>) -> Seq<OutputView> {
    Seq::new(outputs.len(), |i: int| outputs[i]@)
}

/// Lists the fortunes that the pattern matches.
pub fn list_matching(fortunes: &Vec<Fortune>, pattern: &str, insensitive: bool) -> (out: Vec<
    Output,
>)
    requires
        pattern_compiles(pattern@, insensitive),
    ensures
        output_views(out@) == listing(fortune_views(fortunes@), pattern@, insensitive).written,
{
    let ghost views = fortune_views(fortunes@);
    let mut out: Vec<Output> = Vec::new();
    let mut previous: Option<String> = None;
    let mut i: usize = 0;
    proof {
        assert(views.take(0) =~= Seq::<FortuneView>::empty());
        assert(output_views(out@) =~= Seq::<OutputView>::empty());
    }
    while i < fortunes.len()
        invariant
            i <= fortunes.len(),
            views == fortune_views(fortunes@),
            pattern_compiles(pattern@, insensitive),
            match previous {
                Some(source) => listing(views.take(i as int), pattern@, insensitive).source
                    == Some(source@),
                None => listing(views.take(i as int), pattern@, insensitive).source is None,
            },
            output_views(out@) == listing(views.take(i as int), pattern@, insensitive).written,
        decreases fortunes.len() - i,
    {
        proof {
            assert(views.take(i + 1).drop_last() =~= views.take(i as int));
            assert(views.take(i + 1).last() == fortunes@[i as int]@);
        }
        let fortune = &fortunes[i];
        if is_match(pattern, insensitive, fortune.text.as_str()).unwrap() {
            let same = match &previous {
                Some(source) => text_eq(source.as_str(), fortune.source.as_str()),
                None => false,
            };
            if !same {
                let ghost before = output_views(out@);
                let heading = Output::Source(
                    String::from_str("(").concat(fortune.source.as_str()).concat(")\n%\n"),
                );
                out.push(heading);
                previous = Some(fortune.source.clone());
                proof {
                    assert(output_views(out@) =~= before.push(heading@));
                }
            }
            let ghost before = output_views(out@);
            let text = Output::Text(String::from_str(fortune.text.as_str()).concat("\n%\n"));
            out.push(text);
            proof {
                assert(output_views(out@) =~= before.push(text@));
            }
        }
        i = i + 1;
    }
    proof {
        assert(views.take(i as int) =~= views);
    }
    out
}

/// A pattern that does not compile; it carries the pattern.
#[derive(Debug)]
pub struct InvalidPattern {
    pub pattern: String,
}

impl InvalidPattern {
    /// The text to report.
    pub fn message(&self) -> (text: String)
        ensures
            text@ == "Invalid --pattern \""@ + self.pattern@ + "\""@,
    {
        String::from_str("Invalid --pattern \"").concat(self.pattern.as_str()).concat("\"")
    }
}

/// Hands a pattern back where it compiles, and refuses it where it does not.
pub fn check_pattern(pattern: String, insensitive: bool) -> (result: Result<
    String,
    InvalidPattern,
>)
    ensures
        match result {
            Ok(p) => pattern_compiles(pattern@, insensitive) && p@ == pattern@,
            Err(e) => !pattern_compiles(pattern@, insensitive) && e.pattern@ == pattern@,
        },
{
    if compiles(pattern.as_str(), insensitive) {
        Ok(pattern)
    } else {
        Err(InvalidPattern { pattern })
    }
}

/// Lists the fortunes that the pattern matches, or refuses a pattern that
/// does not compile.
pub fn try_list_matching(fortunes: &Vec<Fortune>, pattern: String, insensitive: bool) -> (result:
    Result<Vec<Output>, InvalidPattern>)
    ensures
        match result {
            Ok(out) => pattern_compiles(pattern@, insensitive) && output_views(out@) == listing(
                fortune_views(fortunes@),
                pattern@,
                insensitive,
            ).written,
            Err(e) => !pattern_compiles(pattern@, insensitive) && e.pattern@ == pattern@,
        },
{
    match check_pattern(pattern, insensitive) {
        Ok(checked) => Ok(list_matching(fortunes, checked.as_str(), insensitive)),
        Err(e) => Err(e),
    }
}

/// What is printed for a pick: the fortune, or the word that there is none.
pub fn fortune_or_none(picked: Option<String>) -> (text: String)
    ensures
        text@ == match picked {
            Some(fortune) => fortune@,
            None => "No fortunes found"@,
        },
{
    match picked {
        Some(fortune) => fortune,
        None => String::from_str("No fortunes found"),
    }
}

} // verus!
