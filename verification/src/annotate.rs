//! Turning one line of text and its match spans into an annotated line:
//! an ordered run of plain and emphasized segments that covers the whole
//! line, with the line's 1-based number carried alongside.

use vstd::prelude::*;

use crate::MatchSpan;
use crate::spans_of;
use crate::spans_wf;

verus! {

/// The mathematical value of one segment: its bytes and whether it is a match
/// to be emphasized.
pub ghost struct SegModel {
    pub text: Seq<u8>,
    pub emphasized: bool,
}

/// One segment of an annotated line.
pub struct Segment {
    pub text: Vec<u8>,
    pub emphasized: bool,
}

impl View for Segment {
    type V = SegModel;

    open spec fn view(&self) -> SegModel {
        SegModel { text: self.text@, emphasized: self.emphasized }
    }
}

/// The mathematical value of an annotated line.
pub ghost struct AnnModel {
    pub line_number: int,
    pub segments: Seq<SegModel>,
}

/// A matching line, split into segments, with its 1-based line number.
pub struct AnnotatedLine {
    pub line_number: usize,
    pub segments: Vec<Segment>,
}

pub open spec fn seg_models(segs: Seq<Segment>) -> Seq<SegModel> {
    segs.map_values(|s: Segment| s@)
}

impl View for AnnotatedLine {
    type V = AnnModel;

    open spec fn view(&self) -> AnnModel {
        AnnModel { line_number: self.line_number as int, segments: seg_models(self.segments@) }
    }
}

/// Where the gap before match `i` starts: at the line's start for the first
/// match, at the previous match's end otherwise.
pub open spec fn gap_start(ms: Seq<(int, int)>, i: int) -> int {
    if i == 0 {
        0
    } else {
        ms[i - 1].1
    }
}

/// The segments of a line annotated with the match spans `ms`: the plain gap
/// before each match, the matched bytes themselves (emphasized when asked),
/// and the plain remainder after the last match. `2 * ms.len() + 1` segments
/// in all; gaps may be empty.
pub open spec fn ann_segments(line: Seq<u8>, ms: Seq<(int, int)>, emphasize: bool) -> Seq<
    SegModel,
> {
    Seq::new(
        2 * ms.len() + 1,
        |k: int|
            if k % 2 == 1 {
                SegModel { text: line.subrange(ms[k / 2].0, ms[k / 2].1), emphasized: emphasize }
            } else if k == 2 * ms.len() {
                SegModel {
                    text: line.subrange(gap_start(ms, ms.len() as int), line.len() as int),
                    emphasized: false,
                }
            } else {
                SegModel { text: line.subrange(gap_start(ms, k / 2), ms[k / 2].0), emphasized: false }
            },
    )
}

/// The bytes of a run of segments, in order.
pub open spec fn concat_segments(segs: Seq<SegModel>) -> Seq<u8>
    decreases segs.len(),
{
    if segs.len() == 0 {
        Seq::empty()
    } else {
        segs[0].text + concat_segments(segs.drop_first())
    }
}

proof fn lemma_concat_two(x: SegModel, y: SegModel)
    ensures
        concat_segments(seq![x, y]) == x.text + y.text,
{
    assert(seq![x, y].drop_first() =~= seq![y]);
    assert(seq![y].drop_first() =~= Seq::<SegModel>::empty());
    assert(concat_segments(Seq::<SegModel>::empty()) == Seq::<u8>::empty());
    assert(concat_segments(seq![y]) == y.text + concat_segments(seq![y].drop_first()));
    assert(concat_segments(seq![x, y]) == x.text + concat_segments(seq![x, y].drop_first()));
    assert(x.text + (y.text + Seq::<u8>::empty()) =~= x.text + y.text);
}

proof fn lemma_concat_one(x: SegModel)
    ensures
        concat_segments(seq![x]) == x.text,
{
    assert(seq![x].drop_first() =~= Seq::<SegModel>::empty());
    assert(concat_segments(Seq::<SegModel>::empty()) == Seq::<u8>::empty());
    assert(concat_segments(seq![x]) == x.text + concat_segments(seq![x].drop_first()));
    assert(x.text + Seq::<u8>::empty() =~= x.text);
}

proof fn lemma_concat_append(a: Seq<SegModel>, b: Seq<SegModel>)
    ensures
        concat_segments(a + b) == concat_segments(a) + concat_segments(b),
    decreases a.len(),
{
    if a.len() == 0 {
        assert(a + b =~= b);
        assert(concat_segments(a) + concat_segments(b) =~= concat_segments(b));
    } else {
        lemma_concat_append(a.drop_first(), b);
        assert((a + b).drop_first() =~= a.drop_first() + b);
        assert(concat_segments(a + b) == a[0].text + (concat_segments(a.drop_first())
            + concat_segments(b)));
        assert(a[0].text + (concat_segments(a.drop_first()) + concat_segments(b)) =~= (a[0].text
            + concat_segments(a.drop_first())) + concat_segments(b));
    }
}

proof fn lemma_concat_prefix(line: Seq<u8>, ms: Seq<(int, int)>, emphasize: bool, i: int)
    requires
        spans_wf(ms, line.len() as int),
        0 <= i <= ms.len(),
    ensures
        concat_segments(ann_segments(line, ms, emphasize).take(2 * i)) == line.subrange(
            0,
            gap_start(ms, i),
        ),
    decreases i,
{
    let ann = ann_segments(line, ms, emphasize);
    if i == 0 {
        assert(ann.take(0) =~= Seq::<SegModel>::empty());
        assert(concat_segments(ann.take(0)) =~= line.subrange(0, 0));
    } else {
        lemma_concat_prefix(line, ms, emphasize, i - 1);
        if i - 1 > 0 {
            assert(0 <= ms[i - 2].0 <= ms[i - 2].1 <= line.len());
            assert(ms[i - 2].1 <= ms[i - 1].0);
        }
        assert(0 <= ms[i - 1].0 <= ms[i - 1].1 <= line.len());
        assert(0 <= gap_start(ms, i - 1) <= ms[i - 1].0);
        let pair = seq![ann[2 * i - 2], ann[2 * i - 1]];
        assert(ann.take(2 * i) =~= ann.take(2 * (i - 1)) + pair);
        lemma_concat_append(ann.take(2 * (i - 1)), pair);
        lemma_concat_two(ann[2 * i - 2], ann[2 * i - 1]);
        assert((2 * i - 2) / 2 == i - 1);
        assert((2 * i - 1) / 2 == i - 1);
        assert(ann[2 * i - 2].text == line.subrange(gap_start(ms, i - 1), ms[i - 1].0));
        assert(ann[2 * i - 1].text == line.subrange(ms[i - 1].0, ms[i - 1].1));
        assert(concat_segments(ann.take(2 * i)) == line.subrange(0, gap_start(ms, i - 1))
            + (line.subrange(gap_start(ms, i - 1), ms[i - 1].0) + line.subrange(
            ms[i - 1].0,
            ms[i - 1].1,
        )));
        assert(line.subrange(0, gap_start(ms, i - 1)) + (line.subrange(
            gap_start(ms, i - 1),
            ms[i - 1].0,
        ) + line.subrange(ms[i - 1].0, ms[i - 1].1)) =~= line.subrange(0, ms[i - 1].1));
        assert(gap_start(ms, i) == ms[i - 1].1);
    }
}

/// The round trip: the segments of an annotated line, concatenated in order,
/// are exactly the original line — no byte gained or lost — for any run of
/// well-formed match spans.
pub proof fn lemma_annotation_round_trip(line: Seq<u8>, ms: Seq<(int, int)>, emphasize: bool)
    requires
        spans_wf(ms, line.len() as int),
    ensures
        concat_segments(ann_segments(line, ms, emphasize)) == line,
{
    let ann = ann_segments(line, ms, emphasize);
    let n = ms.len() as int;
    lemma_concat_prefix(line, ms, emphasize, n);
    if n > 0 {
        assert(0 <= ms[n - 1].0 <= ms[n - 1].1 <= line.len());
    }
    assert(0 <= gap_start(ms, n) <= line.len());
    let tail = seq![ann[2 * n]];
    assert(ann =~= ann.take(2 * n) + tail);
    lemma_concat_append(ann.take(2 * n), tail);
    lemma_concat_one(ann[2 * n]);
    assert(ann[2 * n].text == line.subrange(gap_start(ms, n), line.len() as int));
    assert(line.subrange(0, gap_start(ms, n)) + line.subrange(gap_start(ms, n), line.len() as int)
        =~= line);
}

proof fn lemma_seg_models_push(s: Seq<Segment>, x: Segment)
    ensures
        seg_models(s.push(x)) =~= seg_models(s).push(x@),
{
}

/// A fresh copy of `src[from..to]`.
pub fn copy_range(src: &Vec<u8>, from: usize, to: usize) -> (r: Vec<u8>)
    requires
        from <= to <= src@.len(),
    ensures
        r@ == src@.subrange(from as int, to as int),
{
    let mut r: Vec<u8> = Vec::new();
    let mut k: usize = from;
    while k < to
        invariant
            from <= k <= to <= src@.len(),
            r@ == src@.subrange(from as int, k as int),
        decreases to - k,
    {
        r.push(src[k]);
        proof {
            assert(src@.subrange(from as int, (k + 1) as int) =~= src@.subrange(
                from as int,
                k as int,
            ) + seq![src@[k as int]]);
        }
        k = k + 1;
    }
    r
}

/// Annotates one line with the matches found in it: `None` when there is no
/// match (the line produces no output at all), otherwise the line split into
/// plain and emphasized segments, carrying the given 1-based line number.
pub fn annotate(line: &Vec<u8>, matches: &Vec<MatchSpan>, line_number: usize, emphasize: bool) -> (r:
    Option<AnnotatedLine>)
    requires
        spans_wf(spans_of(matches@), line@.len() as int),
    ensures
        matches@.len() == 0 <==> r is None,
        r matches Some(a) ==> a@ == (AnnModel {
            line_number: line_number as int,
            segments: ann_segments(line@, spans_of(matches@), emphasize),
        }),
        r matches Some(a) ==> concat_segments(a@.segments) == line@,
{
    if matches.len() == 0 {
        return None;
    }
    let ghost ms = spans_of(matches@);
    let ghost ann = ann_segments(line@, ms, emphasize);
    let mut segs: Vec<Segment> = Vec::new();
    let mut i: usize = 0;
    while i < matches.len()
        invariant
            spans_wf(ms, line@.len() as int),
            ms == spans_of(matches@),
            ann == ann_segments(line@, ms, emphasize),
            i <= matches@.len(),
            seg_models(segs@) =~= ann.take(2 * i as int),
        decreases matches@.len() - i,
    {
        let ghost segs0 = segs@;
        proof {
            assert(ms[i as int] == matches@[i as int].model());
            if i > 0 {
                assert(ms[i as int - 1] == matches@[i as int - 1].model());
                assert(ms[i as int - 1].1 <= ms[i as int].0);
            }
            assert(0 <= ms[i as int].0 <= ms[i as int].1 <= line@.len());
        }
        let gs: usize = if i == 0 {
            0
        } else {
            matches[i - 1].end
        };
        let m = matches[i];
        proof {
            assert(gs as int == gap_start(ms, i as int));
        }
        let gap = copy_range(line, gs, m.start);
        let gseg = Segment { text: gap, emphasized: false };
        proof {
            lemma_seg_models_push(segs@, gseg);
        }
        segs.push(gseg);
        let mat = copy_range(line, m.start, m.end);
        let mseg = Segment { text: mat, emphasized: emphasize };
        proof {
            lemma_seg_models_push(segs@, mseg);
        }
        segs.push(mseg);
        proof {
            assert((2 * i as int) / 2 == i as int);
            assert((2 * i as int + 1) / 2 == i as int);
            assert(seg_models(segs@) =~= seg_models(segs0).push(gseg@).push(mseg@));
            assert(gseg@ == ann[2 * i as int]);
            assert(mseg@ == ann[2 * i as int + 1]);
            assert(seg_models(segs@) =~= ann.take(2 * (i + 1) as int));
        }
        i = i + 1;
    }
    let last_end: usize = matches[matches.len() - 1].end;
    proof {
        assert(ms[ms.len() - 1] == matches@[matches@.len() - 1].model());
        assert(0 <= ms[ms.len() - 1].0 <= ms[ms.len() - 1].1 <= line@.len());
        assert(last_end as int == gap_start(ms, ms.len() as int));
    }
    let tail = copy_range(line, last_end, line.len());
    let tseg = Segment { text: tail, emphasized: false };
    proof {
        lemma_seg_models_push(segs@, tseg);
    }
    segs.push(tseg);
    proof {
        assert(tseg@ == ann[2 * ms.len() as int]);
        assert(seg_models(segs@) =~= ann);
        lemma_annotation_round_trip(line@, ms, emphasize);
    }
    Some(AnnotatedLine { line_number, segments: segs })
}

} // verus!
