//! A line-oriented pattern-search-and-annotate engine.
//!
//! Given a compiled pattern and lines of text drawn from one of three source
//! kinds (a single stream, an explicit file list, or a recursive directory
//! walk), the library finds every match on every line, renders only the
//! matching lines — optionally prefixed with a 1-based line number, optionally
//! headed once per source by a source label, with matched spans marked for
//! emphasis — and assembles the blocks with the separators that each source
//! kind calls for.

use vstd::prelude::*;

pub mod annotate;
pub mod matcher;
pub mod output;
pub mod render;
pub mod scan;

verus! {

/// A half-open byte range `[start, end)` identifying one match within a line.
#[derive(Clone, Copy, PartialEq, Eq, Structural, Debug)]
pub struct MatchSpan {
    pub start: usize,
    pub end: usize,
}

impl MatchSpan {
    /// The mathematical value of the span: a pair of unbounded integers.
    pub open spec fn model(self) -> (int, int) {
        (self.start as int, self.end as int)
    }
}

/// The mathematical values of a run of spans.
pub open spec fn spans_of(ms: Seq<MatchSpan>) -> Seq<(int, int)> {
    ms.map_values(|m: MatchSpan| m.model())
}

/// The spans of a line's matches, in order: each within a line of length
/// `len`, each with `start <= end`, and non-overlapping left to right
/// (`end` of one never exceeds `start` of the next).
pub open spec fn spans_wf(ms: Seq<(int, int)>, len: int) -> bool {
    &&& forall|i: int| 0 <= i < ms.len() ==> 0 <= #[trigger] ms[i].0 <= ms[i].1 <= len
    &&& forall|i: int| 0 < i < ms.len() ==> #[trigger] ms[i - 1].1 <= ms[i].0
}

/// The two fatal configuration errors: both are detected before any source
/// is read, and abort the run before it produces output.
#[derive(Clone, Copy, PartialEq, Eq, Structural, Debug)]
pub enum GrepError {
    /// The pattern is not a valid regular expression.
    InvalidPattern,
    /// Recursive search was asked for with other than exactly one path.
    RecursiveNeedsSingleDirectory,
}

/// The three kinds of line source a run draws from.
#[derive(Clone, Copy, PartialEq, Eq, Structural, Debug)]
pub enum SourceKind {
    /// A single unnamed input stream.
    Stream,
    /// An explicit ordered list of files.
    FileList,
    /// A recursive walk of one directory.
    Directory,
}

/// The already-validated configuration of one run. The flags mirror the
/// command line; the core performs no flag parsing itself.
#[derive(Clone, Debug)]
pub struct Args {
    /// enable case insensitive search
    pub insensitive: bool,
    /// regex to search for
    pub query: String,
    /// enable showing filenames
    pub names: bool,
    /// enable show linenumbers
    pub linenumber: bool,
    /// enable highlighting a match
    pub color: bool,
    /// enable recursive search in directories
    pub recursive: bool,
    /// list of filenames to search in
    pub filenames: Vec<String>,
}

/// Searches the lines of a single unnamed stream: the matching lines come
/// back rendered in order, numbered from 1 when asked, with no header and
/// no separator.
pub fn grep_stream(m: &matcher::Matcher, lines: &Vec<Vec<u8>>, linenumber: bool, color: bool) -> (r:
    Vec<u8>)
    ensures
        output::run_bytes_ok(
            r@,
            output::stream_run(
                m.spec_pattern(),
                m.spec_case_insensitive(),
                lines.deep_view(),
                color,
            ),
            linenumber,
            color,
        ),
        !color ==> r@ == output::run_plain(
            output::stream_run(
                m.spec_pattern(),
                m.spec_case_insensitive(),
                lines.deep_view(),
                false,
            ),
            linenumber,
        ),
{
    let run = output::assemble_stream(m, lines, color);
    output::render_run(&run, linenumber, color)
}

/// Searches an explicit list of files, each already read into its
/// [`output::FileData`]: every file gets its block in the given order —
/// headed by its label when `names` is on, matches or not — and every
/// block is followed by exactly one separator line.
pub fn grep_file_list(
    m: &matcher::Matcher,
    files: &Vec<output::FileData>,
    names: bool,
    linenumber: bool,
    color: bool,
) -> (r: Vec<u8>)
    ensures
        output::run_bytes_ok(
            r@,
            output::list_run(
                m.spec_pattern(),
                m.spec_case_insensitive(),
                output::file_models(files@),
                names,
                color,
            ),
            linenumber,
            color,
        ),
        (!color && !names) ==> r@ == output::run_plain(
            output::list_run(
                m.spec_pattern(),
                m.spec_case_insensitive(),
                output::file_models(files@),
                false,
                false,
            ),
            linenumber,
        ),
{
    let run = output::assemble_file_list(m, files, names, color);
    proof {
        if !color && !names {
            output::lemma_file_list_blocks(
                m.spec_pattern(),
                m.spec_case_insensitive(),
                output::file_models(files@),
                names,
                color,
            );
        }
    }
    output::render_run(&run, linenumber, color)
}

/// Searches the files found by a directory walk, in traversal order: only
/// files with at least one match produce output — headed by the file's
/// label when `names` is on — and one separator line closes the whole
/// traversal.
pub fn grep_directory(
    m: &matcher::Matcher,
    files: &Vec<output::FileData>,
    names: bool,
    linenumber: bool,
    color: bool,
) -> (r: Vec<u8>)
    ensures
        output::run_bytes_ok(
            r@,
            output::dir_run(
                m.spec_pattern(),
                m.spec_case_insensitive(),
                output::file_models(files@),
                names,
                color,
            ),
            linenumber,
            color,
        ),
        (!color && !names) ==> r@ == output::run_plain(
            output::dir_run(
                m.spec_pattern(),
                m.spec_case_insensitive(),
                output::file_models(files@),
                false,
                false,
            ),
            linenumber,
        ),
{
    let run = output::assemble_directory(m, files, names, color);
    proof {
        if !color && !names {
            output::lemma_directory_blocks(
                m.spec_pattern(),
                m.spec_case_insensitive(),
                output::file_models(files@),
                names,
                color,
            );
            assert forall|k: int|
                0 <= k < run@.blocks.len() implies (#[trigger] run@.blocks[k].header) is None by {
                assert(run@.blocks[k].lines.len() > 0);
            }
            assert(output::no_headers(run@));
        }
    }
    output::render_run(&run, linenumber, color)
}

impl Args {
    /// Which source kind these arguments select: recursive mode needs
    /// exactly one path (a fatal configuration error otherwise), no path
    /// means the input stream, and any paths otherwise are a file list.
    pub fn source_kind(&self) -> (r: Result<SourceKind, GrepError>)
        ensures
            r is Err <==> self.recursive && self.filenames@.len() != 1,
            r matches Err(e) ==> e == GrepError::RecursiveNeedsSingleDirectory,
            r matches Ok(k) ==> k == (if self.recursive {
                SourceKind::Directory
            } else if self.filenames@.len() == 0 {
                SourceKind::Stream
            } else {
                SourceKind::FileList
            }),
    {
        if self.recursive {
            if self.filenames.len() == 1 {
                Ok(SourceKind::Directory)
            } else {
                Err(GrepError::RecursiveNeedsSingleDirectory)
            }
        } else if self.filenames.len() == 0 {
            Ok(SourceKind::Stream)
        } else {
            Ok(SourceKind::FileList)
        }
    }
}

} // verus!
