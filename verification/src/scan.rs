//! Scanning the lines of one source: every line is matched against the
//! compiled pattern, and exactly the matching lines come back annotated,
//! numbered 1-based by their physical position in that source.

use vstd::prelude::*;

use crate::annotate::AnnModel;
use crate::annotate::AnnotatedLine;
use crate::annotate::ann_segments;
use crate::annotate::annotate;
use crate::matcher::Matcher;
use crate::matcher::regex_matches;

verus! {

/// The mathematical values of a run of annotated lines.
pub open spec fn ann_models(s: Seq<AnnotatedLine>) -> Seq<AnnModel> {
    s.map_values(|a: AnnotatedLine| a@)
}

/// The annotation of one matching line.
pub open spec fn line_ann(
    p: Seq<char>,
    ci: bool,
    line: Seq<u8>,
    number: int,
    emphasize: bool,
) -> AnnModel {
    AnnModel { line_number: number, segments: ann_segments(line, regex_matches(p, ci, line), emphasize) }
}

/// The annotated lines among the first `n` lines of a source: one entry per
/// line with at least one match, in order, numbered by position (1-based).
pub open spec fn file_ann_upto(
    p: Seq<char>,
    ci: bool,
    lines: Seq<Seq<u8>>,
    n: int,
    emphasize: bool,
) -> Seq<AnnModel>
    decreases n,
{
    if n <= 0 {
        Seq::empty()
    } else {
        file_ann_upto(p, ci, lines, n - 1, emphasize) + (if regex_matches(
            p,
            ci,
            lines[n - 1],
        ).len() > 0 {
            seq![line_ann(p, ci, lines[n - 1], n, emphasize)]
        } else {
            Seq::empty()
        })
    }
}

/// The annotated lines of a whole source.
pub open spec fn file_ann(
    p: Seq<char>,
    ci: bool,
    lines: Seq<Seq<u8>>,
    emphasize: bool,
) -> Seq<AnnModel> {
    file_ann_upto(p, ci, lines, lines.len() as int, emphasize)
}

/// Annotates the lines of one source: exactly the lines with at least one
/// match come back, in order, each split into segments and numbered by its
/// 1-based position among `lines`.
pub fn annotate_lines(m: &Matcher, lines: &Vec<Vec<u8>>, emphasize: bool) -> (r: Vec<
    AnnotatedLine,
>)
    ensures
        ann_models(r@) == file_ann(
            m.spec_pattern(),
            m.spec_case_insensitive(),
            lines.deep_view(),
            emphasize,
        ),
{
    let ghost p = m.spec_pattern();
    let ghost ci = m.spec_case_insensitive();
    let ghost lv = lines.deep_view();
    let mut out: Vec<AnnotatedLine> = Vec::new();
    let mut i: usize = 0;
    proof {
        assert(ann_models(out@) =~= Seq::<AnnModel>::empty());
        assert(lv.len() == lines@.len());
    }
    while i < lines.len()
        invariant
            p == m.spec_pattern(),
            ci == m.spec_case_insensitive(),
            lv == lines.deep_view(),
            lv.len() == lines@.len(),
            i <= lines@.len(),
            ann_models(out@) == file_ann_upto(p, ci, lv, i as int, emphasize),
        decreases lines@.len() - i,
    {
        proof {
            assert(lv[i as int] == lines@[i as int]@);
        }
        let ghost out0 = out@;
        let spans = m.find_all(&lines[i]);
        let ghost ms = crate::spans_of(spans@);
        proof {
            assert(ms.len() == spans@.len());
        }
        match annotate(&lines[i], &spans, i + 1, emphasize) {
            Some(al) => {
                proof {
                    assert(al@ == line_ann(p, ci, lv[i as int], i as int + 1, emphasize));
                }
                out.push(al);
                proof {
                    assert(ann_models(out@) =~= ann_models(out0).push(al@));
                    assert(file_ann_upto(p, ci, lv, i as int + 1, emphasize) == file_ann_upto(
                        p,
                        ci,
                        lv,
                        i as int,
                        emphasize,
                    ) + seq![line_ann(p, ci, lv[i as int], i as int + 1, emphasize)]);
                    assert(ann_models(out@) =~= file_ann_upto(p, ci, lv, i as int + 1, emphasize));
                }
            },
            None => {
                proof {
                    assert(regex_matches(p, ci, lv[i as int]).len() == 0);
                    assert(file_ann_upto(p, ci, lv, i as int + 1, emphasize) == file_ann_upto(
                        p,
                        ci,
                        lv,
                        i as int,
                        emphasize,
                    ) + Seq::<AnnModel>::empty());
                    assert(file_ann_upto(p, ci, lv, i as int, emphasize)
                        + Seq::<AnnModel>::empty() =~= file_ann_upto(p, ci, lv, i as int, emphasize));
                }
            },
        }
        i = i + 1;
    }
    proof {
        assert(file_ann_upto(p, ci, lv, lv.len() as int, emphasize) == file_ann(
            p,
            ci,
            lv,
            emphasize,
        ));
    }
    out
}

proof fn lemma_numbers_upto(p: Seq<char>, ci: bool, lines: Seq<Seq<u8>>, n: int, emphasize: bool)
    requires
        0 <= n <= lines.len(),
    ensures
        forall|j: int|
            0 <= j < file_ann_upto(p, ci, lines, n, emphasize).len() ==> 1 <= #[trigger] file_ann_upto(
                p,
                ci,
                lines,
                n,
                emphasize,
            )[j].line_number <= n,
        forall|j: int, k: int|
            0 <= j < k < file_ann_upto(p, ci, lines, n, emphasize).len() ==> #[trigger] file_ann_upto(
                p,
                ci,
                lines,
                n,
                emphasize,
            )[j].line_number < #[trigger] file_ann_upto(p, ci, lines, n, emphasize)[k].line_number,
    decreases n,
{
    if n > 0 {
        lemma_numbers_upto(p, ci, lines, n - 1, emphasize);
        let prev = file_ann_upto(p, ci, lines, n - 1, emphasize);
        let cur = file_ann_upto(p, ci, lines, n, emphasize);
        if regex_matches(p, ci, lines[n - 1]).len() > 0 {
            let fresh = line_ann(p, ci, lines[n - 1], n, emphasize);
            assert(cur == prev + seq![fresh]);
            assert forall|j: int| 0 <= j < cur.len() implies 1 <= #[trigger] cur[j].line_number
                <= n by {
                if j < prev.len() {
                    assert(cur[j] == prev[j]);
                } else {
                    assert(cur[j] == fresh);
                }
            }
            assert forall|j: int, k: int| 0 <= j < k < cur.len() implies #[trigger] cur[j].line_number
                < #[trigger] cur[k].line_number by {
                assert(cur[j] == prev[j]);
                if k < prev.len() {
                    assert(cur[k] == prev[k]);
                } else {
                    assert(cur[k] == fresh);
                    assert(prev[j].line_number <= n - 1);
                }
            }
        } else {
            assert(cur =~= prev);
        }
    }
}


/// Line numbering is per source and monotone: the annotated lines of one
/// source carry 1-based numbers no larger than the source's line count, and
/// the numbers strictly increase from one annotated line to the next.
/// Because each source is annotated from its own lines alone, numbering
/// restarts at 1 with every new source.
pub proof fn lemma_line_numbers(p: Seq<char>, ci: bool, lines: Seq<Seq<u8>>, emphasize: bool)
    ensures
        forall|j: int|
            0 <= j < file_ann(p, ci, lines, emphasize).len() ==> 1 <= #[trigger] file_ann(
                p,
                ci,
                lines,
                emphasize,
            )[j].line_number <= lines.len(),
        forall|j: int, k: int|
            0 <= j < k < file_ann(p, ci, lines, emphasize).len() ==> #[trigger] file_ann(
                p,
                ci,
                lines,
                emphasize,
            )[j].line_number < #[trigger] file_ann(p, ci, lines, emphasize)[k].line_number,
{
    lemma_numbers_upto(p, ci, lines, lines.len() as int, emphasize);
}

} // verus!
