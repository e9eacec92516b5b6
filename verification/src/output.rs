//! Output assembly: grouping annotated lines into per-source blocks with
//! the headers and separators that each source kind calls for, and writing
//! the blocks out as bytes.
//!
//! A file list gives every listed file a block — its header (when labels
//! are on) comes matches or not, and every block carries its own separator.
//! A directory walk gives a block only to files with at least one match,
//! and the one separator comes after the whole traversal. A stream is a
//! single bare block.

use vstd::prelude::*;

use crate::annotate::AnnModel;
use crate::annotate::AnnotatedLine;
use crate::matcher::Matcher;
use crate::render::decorate_label;
use crate::render::emph_count;
use crate::render::push_bytes;
use crate::render::render_line;
use crate::render::render_line_plain;
use crate::render::render_line_spec;
use crate::scan::ann_models;
use crate::scan::annotate_lines;
use crate::scan::file_ann;

verus! {

/// One source's worth of input: its label (the path, empty for a stream)
/// and its lines, already read and decoded.
pub struct FileData {
    pub label: String,
    pub lines: Vec<Vec<u8>>,
}

/// The mathematical value of one source's input.
pub ghost struct FileModel {
    pub label: Seq<char>,
    pub lines: Seq<Seq<u8>>,
}

impl View for FileData {
    type V = FileModel;

    open spec fn view(&self) -> FileModel {
        FileModel { label: self.label@, lines: self.lines.deep_view() }
    }
}

pub open spec fn file_models(fs: Seq<FileData>) -> Seq<FileModel> {
    fs.map_values(|f: FileData| f@)
}

/// One output block: an optional source label to head it, the annotated
/// lines of that source, and whether a separator blank line follows it.
pub struct Block {
    pub header: Option<String>,
    pub lines: Vec<AnnotatedLine>,
    pub separator: bool,
}

/// The mathematical value of one block.
pub ghost struct BlockModel {
    pub header: Option<Seq<char>>,
    pub lines: Seq<AnnModel>,
    pub separator: bool,
}

impl View for Block {
    type V = BlockModel;

    open spec fn view(&self) -> BlockModel {
        BlockModel {
            header: match self.header {
                Some(l) => Some(l@),
                None => None,
            },
            lines: ann_models(self.lines@),
            separator: self.separator,
        }
    }
}

pub open spec fn block_models(bs: Seq<Block>) -> Seq<BlockModel> {
    bs.map_values(|b: Block| b@)
}

/// A whole run's output: the blocks in source order, and whether one final
/// separator closes the run.
pub struct RunOutput {
    pub blocks: Vec<Block>,
    pub trailing_separator: bool,
}

/// The mathematical value of a run's output.
pub ghost struct RunModel {
    pub blocks: Seq<BlockModel>,
    pub trailing_separator: bool,
}

impl View for RunOutput {
    type V = RunModel;

    open spec fn view(&self) -> RunModel {
        RunModel { blocks: block_models(self.blocks@), trailing_separator: self.trailing_separator }
    }
}

/// The assembled output of a stream run: one unlabeled block, no separator.
pub open spec fn stream_run(p: Seq<char>, ci: bool, lines: Seq<Seq<u8>>, emphasize: bool) -> RunModel {
    RunModel {
        blocks: seq![
            BlockModel { header: None, lines: file_ann(p, ci, lines, emphasize), separator: false },
        ],
        trailing_separator: false,
    }
}

/// The assembled output of a file-list run: one block per file in the
/// given order; when labels are shown every file is headed by its label,
/// matches or not; every block carries its own separator.
pub open spec fn list_run(
    p: Seq<char>,
    ci: bool,
    fs: Seq<FileModel>,
    show_labels: bool,
    emphasize: bool,
) -> RunModel {
    RunModel {
        blocks: Seq::new(
            fs.len(),
            |i: int|
                BlockModel {
                    header: if show_labels {
                        Some(fs[i].label)
                    } else {
                        None
                    },
                    lines: file_ann(p, ci, fs[i].lines, emphasize),
                    separator: true,
                },
        ),
        trailing_separator: false,
    }
}

/// The blocks of the first `n` files of a directory run: only files with
/// at least one matching line contribute a block, in traversal order.
pub open spec fn dir_blocks_upto(
    p: Seq<char>,
    ci: bool,
    fs: Seq<FileModel>,
    n: int,
    show_labels: bool,
    emphasize: bool,
) -> Seq<BlockModel>
    decreases n,
{
    if n <= 0 {
        Seq::empty()
    } else {
        dir_blocks_upto(p, ci, fs, n - 1, show_labels, emphasize) + (if file_ann(
            p,
            ci,
            fs[n - 1].lines,
            emphasize,
        ).len() > 0 {
            seq![
                BlockModel {
                    header: if show_labels {
                        Some(fs[n - 1].label)
                    } else {
                        None
                    },
                    lines: file_ann(p, ci, fs[n - 1].lines, emphasize),
                    separator: false,
                },
            ]
        } else {
            Seq::empty()
        })
    }
}

/// The assembled output of a directory run: blocks for the matching files
/// only, each without a separator, and the one separator closing the run.
pub open spec fn dir_run(
    p: Seq<char>,
    ci: bool,
    fs: Seq<FileModel>,
    show_labels: bool,
    emphasize: bool,
) -> RunModel {
    RunModel {
        blocks: dir_blocks_upto(p, ci, fs, fs.len() as int, show_labels, emphasize),
        trailing_separator: true,
    }
}

/// Assembles a stream run.
pub fn assemble_stream(m: &Matcher, lines: &Vec<Vec<u8>>, emphasize: bool) -> (r: RunOutput)
    ensures
        r@ == stream_run(m.spec_pattern(), m.spec_case_insensitive(), lines.deep_view(), emphasize),
{
    let anns = annotate_lines(m, lines, emphasize);
    let mut blocks: Vec<Block> = Vec::new();
    blocks.push(Block { header: None, lines: anns, separator: false });
    let r = RunOutput { blocks, trailing_separator: false };
    proof {
        assert(r@.blocks =~= stream_run(
            m.spec_pattern(),
            m.spec_case_insensitive(),
            lines.deep_view(),
            emphasize,
        ).blocks);
    }
    r
}

/// Assembles a file-list run: every listed file gets its block in order;
/// with labels on, every file's header appears even with zero matches, and
/// every block carries exactly one separator.
pub fn assemble_file_list(
    m: &Matcher,
    files: &Vec<FileData>,
    show_labels: bool,
    emphasize: bool,
) -> (r: RunOutput)
    ensures
        r@ == list_run(
            m.spec_pattern(),
            m.spec_case_insensitive(),
            file_models(files@),
            show_labels,
            emphasize,
        ),
{
    let ghost p = m.spec_pattern();
    let ghost ci = m.spec_case_insensitive();
    let ghost fs = file_models(files@);
    let ghost goal = list_run(p, ci, fs, show_labels, emphasize);
    let mut blocks: Vec<Block> = Vec::new();
    let mut i: usize = 0;
    proof {
        assert(block_models(blocks@) =~= goal.blocks.take(0));
    }
    while i < files.len()
        invariant
            p == m.spec_pattern(),
            ci == m.spec_case_insensitive(),
            fs == file_models(files@),
            goal == list_run(p, ci, fs, show_labels, emphasize),
            fs.len() == files@.len(),
            i <= files@.len(),
            block_models(blocks@) == goal.blocks.take(i as int),
        decreases files@.len() - i,
    {
        let ghost blocks0 = blocks@;
        proof {
            assert(fs[i as int] == files@[i as int]@);
        }
        let anns = annotate_lines(m, &files[i].lines, emphasize);
        let header: Option<String> = if show_labels {
            Some(files[i].label.clone())
        } else {
            None
        };
        let b = Block { header, lines: anns, separator: true };
        proof {
            assert(b@ == goal.blocks[i as int]);
        }
        blocks.push(b);
        proof {
            assert(block_models(blocks@) =~= block_models(blocks0).push(b@));
            assert(block_models(blocks@) =~= goal.blocks.take(i as int + 1));
        }
        i = i + 1;
    }
    let r = RunOutput { blocks, trailing_separator: false };
    proof {
        assert(goal.blocks.take(fs.len() as int) =~= goal.blocks);
    }
    r
}

/// Assembles a directory run: a file contributes a block exactly when it
/// has a matching line, blocks carry no separator of their own, and the
/// run closes with the one trailing separator.
pub fn assemble_directory(
    m: &Matcher,
    files: &Vec<FileData>,
    show_labels: bool,
    emphasize: bool,
) -> (r: RunOutput)
    ensures
        r@ == dir_run(
            m.spec_pattern(),
            m.spec_case_insensitive(),
            file_models(files@),
            show_labels,
            emphasize,
        ),
{
    let ghost p = m.spec_pattern();
    let ghost ci = m.spec_case_insensitive();
    let ghost fs = file_models(files@);
    let mut blocks: Vec<Block> = Vec::new();
    let mut i: usize = 0;
    proof {
        assert(block_models(blocks@) =~= dir_blocks_upto(p, ci, fs, 0, show_labels, emphasize));
    }
    while i < files.len()
        invariant
            p == m.spec_pattern(),
            ci == m.spec_case_insensitive(),
            fs == file_models(files@),
            fs.len() == files@.len(),
            i <= files@.len(),
            block_models(blocks@) == dir_blocks_upto(p, ci, fs, i as int, show_labels, emphasize),
        decreases files@.len() - i,
    {
        let ghost blocks0 = blocks@;
        proof {
            assert(fs[i as int] == files@[i as int]@);
        }
        let anns = annotate_lines(m, &files[i].lines, emphasize);
        proof {
            assert(ann_models(anns@).len() == anns@.len());
        }
        if anns.len() > 0 {
            let header: Option<String> = if show_labels {
                Some(files[i].label.clone())
            } else {
                None
            };
            let b = Block { header, lines: anns, separator: false };
            blocks.push(b);
            proof {
                assert(block_models(blocks@) =~= block_models(blocks0).push(b@));
                assert(block_models(blocks@) =~= dir_blocks_upto(
                    p,
                    ci,
                    fs,
                    i as int + 1,
                    show_labels,
                    emphasize,
                ));
            }
        } else {
            proof {
                assert(file_ann(p, ci, fs[i as int].lines, emphasize).len() == 0);
                assert(dir_blocks_upto(p, ci, fs, i as int + 1, show_labels, emphasize)
                    =~= dir_blocks_upto(p, ci, fs, i as int, show_labels, emphasize));
            }
        }
        i = i + 1;
    }
    RunOutput { blocks, trailing_separator: true }
}

/// The concatenation of a run of byte chunks.
pub open spec fn concat_bytes(ps: Seq<Seq<u8>>) -> Seq<u8>
    decreases ps.len(),
{
    if ps.len() == 0 {
        Seq::empty()
    } else {
        ps[0] + concat_bytes(ps.drop_first())
    }
}

proof fn lemma_concat_bytes_snoc(ps: Seq<Seq<u8>>, x: Seq<u8>)
    ensures
        concat_bytes(ps.push(x)) == concat_bytes(ps) + x,
    decreases ps.len(),
{
    if ps.len() == 0 {
        assert(ps.push(x).drop_first() =~= Seq::<Seq<u8>>::empty());
        assert(concat_bytes(Seq::<Seq<u8>>::empty()) == Seq::<u8>::empty());
        assert(ps.push(x)[0] == x);
        assert(x + Seq::<u8>::empty() =~= x);
        assert(Seq::<u8>::empty() + x =~= x);
    } else {
        lemma_concat_bytes_snoc(ps.drop_first(), x);
        assert(ps.push(x).drop_first() =~= ps.drop_first().push(x));
        assert(ps.push(x)[0] == ps[0]);
        assert(ps[0] + (concat_bytes(ps.drop_first()) + x) =~= (ps[0] + concat_bytes(
            ps.drop_first(),
        )) + x);
    }
}

/// A separator blank line, or nothing.
pub open spec fn sep_bytes(present: bool) -> Seq<u8> {
    if present {
        seq![10u8]
    } else {
        Seq::empty()
    }
}

/// The plain (undecorated) rendering of a run of annotated lines.
pub open spec fn lines_plain(ls: Seq<AnnModel>, show_linenumber: bool) -> Seq<u8>
    decreases ls.len(),
{
    if ls.len() == 0 {
        Seq::empty()
    } else {
        render_line_plain(ls[0], show_linenumber) + lines_plain(ls.drop_first(), show_linenumber)
    }
}

proof fn lemma_lines_plain_snoc(ls: Seq<AnnModel>, i: int, show_linenumber: bool)
    requires
        0 <= i < ls.len(),
    ensures
        lines_plain(ls.take(i + 1), show_linenumber) == lines_plain(ls.take(i), show_linenumber)
            + render_line_plain(ls[i], show_linenumber),
    decreases i,
{
    if i == 0 {
        assert(ls.take(0) =~= Seq::<AnnModel>::empty());
        assert(ls.take(1).drop_first() =~= Seq::<AnnModel>::empty());
        assert(lines_plain(Seq::<AnnModel>::empty(), show_linenumber) == Seq::<u8>::empty());
        assert(render_line_plain(ls[0], show_linenumber) + Seq::<u8>::empty() =~= render_line_plain(
            ls[0],
            show_linenumber,
        ));
        assert(Seq::<u8>::empty() + render_line_plain(ls[0], show_linenumber) =~= render_line_plain(
            ls[0],
            show_linenumber,
        ));
    } else {
        lemma_lines_plain_snoc(ls.drop_first(), i - 1, show_linenumber);
        assert(ls.take(i + 1).drop_first() =~= ls.drop_first().take(i));
        assert(ls.take(i).drop_first() =~= ls.drop_first().take(i - 1));
        assert(ls.drop_first()[i - 1] == ls[i]);
        assert(ls.take(i + 1)[0] == ls[0]);
        assert(ls.take(i)[0] == ls[0]);
        assert(render_line_plain(ls[0], show_linenumber) + (lines_plain(
            ls.drop_first().take(i - 1),
            show_linenumber,
        ) + render_line_plain(ls[i], show_linenumber)) =~= (render_line_plain(
            ls[0],
            show_linenumber,
        ) + lines_plain(ls.drop_first().take(i - 1), show_linenumber)) + render_line_plain(
            ls[i],
            show_linenumber,
        ));
    }
}

/// The plain rendering of one block: its lines, then its separator. A
/// plain block has no header.
pub open spec fn block_plain(b: BlockModel, show_linenumber: bool) -> Seq<u8> {
    lines_plain(b.lines, show_linenumber) + sep_bytes(b.separator)
}

/// The plain rendering of a run of blocks.
pub open spec fn blocks_plain(bs: Seq<BlockModel>, show_linenumber: bool) -> Seq<u8>
    decreases bs.len(),
{
    if bs.len() == 0 {
        Seq::empty()
    } else {
        block_plain(bs[0], show_linenumber) + blocks_plain(bs.drop_first(), show_linenumber)
    }
}

proof fn lemma_blocks_plain_snoc(bs: Seq<BlockModel>, i: int, show_linenumber: bool)
    requires
        0 <= i < bs.len(),
    ensures
        blocks_plain(bs.take(i + 1), show_linenumber) == blocks_plain(bs.take(i), show_linenumber)
            + block_plain(bs[i], show_linenumber),
    decreases i,
{
    if i == 0 {
        assert(bs.take(0) =~= Seq::<BlockModel>::empty());
        assert(bs.take(1).drop_first() =~= Seq::<BlockModel>::empty());
        assert(blocks_plain(Seq::<BlockModel>::empty(), show_linenumber) == Seq::<u8>::empty());
        assert(block_plain(bs[0], show_linenumber) + Seq::<u8>::empty() =~= block_plain(
            bs[0],
            show_linenumber,
        ));
        assert(Seq::<u8>::empty() + block_plain(bs[0], show_linenumber) =~= block_plain(
            bs[0],
            show_linenumber,
        ));
    } else {
        lemma_blocks_plain_snoc(bs.drop_first(), i - 1, show_linenumber);
        assert(bs.take(i + 1).drop_first() =~= bs.drop_first().take(i));
        assert(bs.take(i).drop_first() =~= bs.drop_first().take(i - 1));
        assert(bs.drop_first()[i - 1] == bs[i]);
        assert(bs.take(i + 1)[0] == bs[0]);
        assert(bs.take(i)[0] == bs[0]);
        assert(block_plain(bs[0], show_linenumber) + (blocks_plain(
            bs.drop_first().take(i - 1),
            show_linenumber,
        ) + block_plain(bs[i], show_linenumber)) =~= (block_plain(bs[0], show_linenumber)
            + blocks_plain(bs.drop_first().take(i - 1), show_linenumber)) + block_plain(
            bs[i],
            show_linenumber,
        ));
    }
}

/// The plain rendering of a whole run: its blocks, then its trailing
/// separator. This is the run's exact output whenever no emphasis is
/// applied and no block has a header.
pub open spec fn run_plain(run: RunModel, show_linenumber: bool) -> Seq<u8> {
    blocks_plain(run.blocks, show_linenumber) + sep_bytes(run.trailing_separator)
}

/// Whether no block of the run carries a header.
pub open spec fn no_headers(run: RunModel) -> bool {
    forall|k: int| 0 <= k < run.blocks.len() ==> (#[trigger] run.blocks[k].header) is None
}

/// What one rendered line's bytes can be: with emphasis on, the segments
/// interleaved with some decorated forms; without, exactly the plain
/// rendering.
pub open spec fn line_chunk_ok(c: Seq<u8>, a: AnnModel, show_linenumber: bool, color: bool) -> bool {
    if color {
        exists|ds: Seq<Seq<u8>>|
            ds.len() == emph_count(a.segments) && c == render_line_spec(a, ds, show_linenumber)
    } else {
        c == render_line_plain(a, show_linenumber)
    }
}

/// What one rendered block's bytes can be: some header bytes (none when
/// the block has no header), one chunk per annotated line in order — each
/// of the shape `line_chunk_ok` allows — and the block's separator.
pub open spec fn block_bytes_ok(
    p: Seq<u8>,
    b: BlockModel,
    show_linenumber: bool,
    color: bool,
) -> bool {
    exists|hdr: Seq<u8>, chunks: Seq<Seq<u8>>|
        #![trigger hdr + concat_bytes(chunks)]
        chunks.len() == b.lines.len() && (forall|j: int|
            0 <= j < chunks.len() ==> line_chunk_ok(
                #[trigger] chunks[j],
                b.lines[j],
                show_linenumber,
                color,
            )) && (b.header is None ==> hdr == Seq::<u8>::empty()) && p == hdr + concat_bytes(chunks)
            + sep_bytes(b.separator)
}

/// What a whole rendered run's bytes can be: one piece per block in order,
/// each of the shape `block_bytes_ok` allows, and the trailing separator.
pub open spec fn run_bytes_ok(r: Seq<u8>, run: RunModel, show_linenumber: bool, color: bool) -> bool {
    exists|pieces: Seq<Seq<u8>>|
        pieces.len() == run.blocks.len() && (forall|k: int|
            0 <= k < pieces.len() ==> block_bytes_ok(
                #[trigger] pieces[k],
                run.blocks[k],
                show_linenumber,
                color,
            )) && r == concat_bytes(pieces) + sep_bytes(run.trailing_separator)
}

/// Renders one block: its decorated header when it has one, each line
/// rendered in order, and its separator.
fn render_block(b: &Block, show_linenumber: bool, color: bool) -> (r: Vec<u8>)
    ensures
        block_bytes_ok(r@, b@, show_linenumber, color),
        (!color && b@.header is None) ==> r@ == block_plain(b@, show_linenumber),
{
    let mut out: Vec<u8> = Vec::new();
    match &b.header {
        Some(l) => {
            let d = decorate_label(l);
            push_bytes(&mut out, &d);
            out.push(10);
        },
        None => {},
    }
    let ghost hdr = out@;
    proof {
        if b@.header is None {
            assert(hdr =~= Seq::<u8>::empty());
        }
    }
    let ghost ls = b@.lines;
    let mut chunks_g: Ghost<Seq<Seq<u8>>> = Ghost(Seq::empty());
    let mut i: usize = 0;
    proof {
        assert(concat_bytes(Seq::<Seq<u8>>::empty()) == Seq::<u8>::empty());
        assert(hdr + Seq::<u8>::empty() =~= hdr);
        assert(ls.take(0) =~= Seq::<AnnModel>::empty());
        assert(lines_plain(Seq::<AnnModel>::empty(), show_linenumber) == Seq::<u8>::empty());
    }
    while i < b.lines.len()
        invariant
            ls == b@.lines,
            ls.len() == b.lines@.len(),
            i <= b.lines@.len(),
            chunks_g@.len() == i,
            forall|j: int|
                0 <= j < i ==> line_chunk_ok(
                    #[trigger] chunks_g@[j],
                    ls[j],
                    show_linenumber,
                    color,
                ),
            out@ == hdr + concat_bytes(chunks_g@),
            !color ==> out@ == hdr + lines_plain(ls.take(i as int), show_linenumber),
        decreases b.lines@.len() - i,
    {
        let ghost chunks0 = chunks_g@;
        proof {
            assert(ls[i as int] == b.lines@[i as int]@);
        }
        let piece = render_line(&b.lines[i], show_linenumber, color);
        push_bytes(&mut out, &piece);
        proof {
            lemma_concat_bytes_snoc(chunks0, piece@);
            chunks_g@ = chunks0.push(piece@);
            assert(hdr + (concat_bytes(chunks0) + piece@) =~= (hdr + concat_bytes(chunks0))
                + piece@);
            if !color {
                lemma_lines_plain_snoc(ls, i as int, show_linenumber);
                assert(hdr + (lines_plain(ls.take(i as int), show_linenumber) + render_line_plain(
                    ls[i as int],
                    show_linenumber,
                )) =~= (hdr + lines_plain(ls.take(i as int), show_linenumber)) + render_line_plain(
                    ls[i as int],
                    show_linenumber,
                ));
            }
        }
        i = i + 1;
    }
    if b.separator {
        out.push(10);
    }
    proof {
        let chunks = chunks_g@;
        assert(ls.take(ls.len() as int) =~= ls);
        if b.separator {
            assert(out@ =~= hdr + concat_bytes(chunks) + sep_bytes(b@.separator));
        } else {
            assert(out@ =~= hdr + concat_bytes(chunks) + sep_bytes(b@.separator));
        }
        assert(block_bytes_ok(out@, b@, show_linenumber, color)) by {
            assert(chunks.len() == b@.lines.len() && (forall|j: int|
                0 <= j < chunks.len() ==> line_chunk_ok(
                    #[trigger] chunks[j],
                    b@.lines[j],
                    show_linenumber,
                    color,
                )) && (b@.header is None ==> hdr == Seq::<u8>::empty()) && out@ == hdr
                + concat_bytes(chunks) + sep_bytes(b@.separator));
        }
        if !color && b@.header is None {
            assert(out@ =~= block_plain(b@, show_linenumber));
        }
    }
    out
}

/// Renders a whole assembled run as bytes, block by block in order, closed
/// by the run's trailing separator. Without emphasis and with no headers
/// the result is exactly the run's plain rendering; in every case it has
/// the block-and-chunk shape that `run_bytes_ok` states.
pub fn render_run(run: &RunOutput, show_linenumber: bool, color: bool) -> (r: Vec<u8>)
    ensures
        run_bytes_ok(r@, run@, show_linenumber, color),
        (!color && no_headers(run@)) ==> r@ == run_plain(run@, show_linenumber),
{
    let ghost bs = run@.blocks;
    let mut out: Vec<u8> = Vec::new();
    let mut pieces_g: Ghost<Seq<Seq<u8>>> = Ghost(Seq::empty());
    let mut i: usize = 0;
    proof {
        assert(concat_bytes(Seq::<Seq<u8>>::empty()) == Seq::<u8>::empty());
        assert(out@ =~= concat_bytes(Seq::<Seq<u8>>::empty()));
        assert(bs.take(0) =~= Seq::<BlockModel>::empty());
        assert(blocks_plain(Seq::<BlockModel>::empty(), show_linenumber) == Seq::<u8>::empty());
    }
    while i < run.blocks.len()
        invariant
            bs == run@.blocks,
            bs.len() == run.blocks@.len(),
            i <= run.blocks@.len(),
            pieces_g@.len() == i,
            forall|k: int|
                0 <= k < i ==> block_bytes_ok(
                    #[trigger] pieces_g@[k],
                    bs[k],
                    show_linenumber,
                    color,
                ),
            out@ == concat_bytes(pieces_g@),
            (!color && no_headers(run@)) ==> out@ == blocks_plain(
                bs.take(i as int),
                show_linenumber,
            ),
        decreases run.blocks@.len() - i,
    {
        let ghost pieces0 = pieces_g@;
        proof {
            assert(bs[i as int] == run.blocks@[i as int]@);
        }
        let piece = render_block(&run.blocks[i], show_linenumber, color);
        push_bytes(&mut out, &piece);
        proof {
            lemma_concat_bytes_snoc(pieces0, piece@);
            pieces_g@ = pieces0.push(piece@);
            if !color && no_headers(run@) {
                assert(bs[i as int].header is None);
                lemma_blocks_plain_snoc(bs, i as int, show_linenumber);
            }
        }
        i = i + 1;
    }
    if run.trailing_separator {
        out.push(10);
    }
    proof {
        let pieces = pieces_g@;
        assert(bs.take(bs.len() as int) =~= bs);
        assert(out@ =~= concat_bytes(pieces) + sep_bytes(run@.trailing_separator));
        assert(run_bytes_ok(out@, run@, show_linenumber, color)) by {
            assert(pieces.len() == run@.blocks.len() && (forall|k: int|
                0 <= k < pieces.len() ==> block_bytes_ok(
                    #[trigger] pieces[k],
                    run@.blocks[k],
                    show_linenumber,
                    color,
                )) && out@ == concat_bytes(pieces) + sep_bytes(run@.trailing_separator));
        }
        if !color && no_headers(run@) {
            assert(out@ =~= run_plain(run@, show_linenumber));
        }
    }
    out
}

/// In a file-list run every listed file has its block, in order: with
/// labels on each is headed by its file's label — even a file with no
/// match — and each block carries exactly one separator.
pub proof fn lemma_file_list_blocks(
    p: Seq<char>,
    ci: bool,
    fs: Seq<FileModel>,
    show_labels: bool,
    emphasize: bool,
)
    ensures
        list_run(p, ci, fs, show_labels, emphasize).blocks.len() == fs.len(),
        forall|k: int|
            0 <= k < fs.len() ==> #[trigger] list_run(p, ci, fs, show_labels, emphasize).blocks[k]
                == (BlockModel {
                header: if show_labels {
                    Some(fs[k].label)
                } else {
                    None
                },
                lines: file_ann(p, ci, fs[k].lines, emphasize),
                separator: true,
            }),
        !list_run(p, ci, fs, show_labels, emphasize).trailing_separator,
{
}

proof fn lemma_dir_blocks_upto(
    p: Seq<char>,
    ci: bool,
    fs: Seq<FileModel>,
    n: int,
    show_labels: bool,
    emphasize: bool,
)
    requires
        0 <= n <= fs.len(),
    ensures
        forall|k: int|
            0 <= k < dir_blocks_upto(p, ci, fs, n, show_labels, emphasize).len()
                ==> (#[trigger] dir_blocks_upto(p, ci, fs, n, show_labels, emphasize)[k].lines.len()
                > 0 && (dir_blocks_upto(p, ci, fs, n, show_labels, emphasize)[k].header is Some
                <==> show_labels) && !dir_blocks_upto(p, ci, fs, n, show_labels, emphasize)[k].separator),
    decreases n,
{
    if n > 0 {
        lemma_dir_blocks_upto(p, ci, fs, n - 1, show_labels, emphasize);
        let prev = dir_blocks_upto(p, ci, fs, n - 1, show_labels, emphasize);
        let cur = dir_blocks_upto(p, ci, fs, n, show_labels, emphasize);
        if file_ann(p, ci, fs[n - 1].lines, emphasize).len() > 0 {
            assert forall|k: int| 0 <= k < cur.len() implies (#[trigger] cur[k].lines.len() > 0 && (
            cur[k].header is Some <==> show_labels) && !cur[k].separator) by {
                if k < prev.len() {
                    assert(cur[k] == prev[k]);
                }
            }
        } else {
            assert(cur =~= prev);
        }
    }
}

/// In a directory run a block — and with labels on, a header — appears
/// only for a file with at least one matching line; no block carries its
/// own separator, and the run closes with exactly one separator.
pub proof fn lemma_directory_blocks(
    p: Seq<char>,
    ci: bool,
    fs: Seq<FileModel>,
    show_labels: bool,
    emphasize: bool,
)
    ensures
        forall|k: int|
            0 <= k < dir_run(p, ci, fs, show_labels, emphasize).blocks.len()
                ==> (#[trigger] dir_run(p, ci, fs, show_labels, emphasize).blocks[k].lines.len() > 0
                && (dir_run(p, ci, fs, show_labels, emphasize).blocks[k].header is Some
                <==> show_labels) && !dir_run(p, ci, fs, show_labels, emphasize).blocks[k].separator),
        dir_run(p, ci, fs, show_labels, emphasize).trailing_separator,
{
    lemma_dir_blocks_upto(p, ci, fs, fs.len() as int, show_labels, emphasize);
}

} // verus!
