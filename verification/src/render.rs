//! Rendering an annotated line as bytes: an optional decimal line-number
//! prefix, the segments in order — an emphasized segment replaced by its
//! decorated form — and a closing newline.

use vstd::prelude::*;

use colored::Colorize;

use crate::annotate::AnnModel;
use crate::annotate::AnnotatedLine;
use crate::annotate::SegModel;
use crate::annotate::concat_segments;
use crate::annotate::copy_range;

verus! {

/// The decimal digits of `n`, most significant first.
pub open spec fn dec_digits(n: int) -> Seq<u8>
    decreases n,
{
    if n < 10 {
        seq![(48 + n) as u8]
    } else {
        dec_digits(n / 10) + seq![(48 + n % 10) as u8]
    }
}

/// Appends the decimal digits of `n` to `out`.
pub fn push_decimal(out: &mut Vec<u8>, n: usize)
    ensures
        final(out)@ == old(out)@ + dec_digits(n as int),
    decreases n,
{
    if n < 10 {
        out.push((48 + n as u8));
        proof {
            assert(out@ =~= old(out)@ + dec_digits(n as int));
        }
    } else {
        push_decimal(out, n / 10);
        out.push(48 + (n % 10) as u8);
        proof {
            assert(out@ =~= old(out)@ + dec_digits(n as int));
        }
    }
}

/// How many of the segments are emphasized.
pub open spec fn emph_count(segs: Seq<SegModel>) -> int
    decreases segs.len(),
{
    if segs.len() == 0 {
        0
    } else {
        (if segs[0].emphasized {
            1int
        } else {
            0int
        }) + emph_count(segs.drop_first())
    }
}

/// The texts of the emphasized segments, in order.
pub open spec fn emph_texts(segs: Seq<SegModel>) -> Seq<Seq<u8>>
    decreases segs.len(),
{
    if segs.len() == 0 {
        Seq::empty()
    } else if segs[0].emphasized {
        seq![segs[0].text] + emph_texts(segs.drop_first())
    } else {
        emph_texts(segs.drop_first())
    }
}

/// The bytes of the segments in order, each emphasized segment replaced by
/// the next element of `ds` (its decorated form), plain segments verbatim.
pub open spec fn rendered_with(segs: Seq<SegModel>, ds: Seq<Seq<u8>>) -> Seq<u8>
    decreases segs.len(),
{
    if segs.len() == 0 {
        Seq::empty()
    } else if segs[0].emphasized {
        ds[0] + rendered_with(segs.drop_first(), ds.drop_first())
    } else {
        segs[0].text + rendered_with(segs.drop_first(), ds)
    }
}

/// One rendered line: the optional decimal line number with its `:` before
/// the segments, and a closing newline.
pub open spec fn render_line_spec(a: AnnModel, ds: Seq<Seq<u8>>, show_linenumber: bool) -> Seq<
    u8,
> {
    (if show_linenumber {
        dec_digits(a.line_number) + seq![58u8]
    } else {
        Seq::empty()
    }) + rendered_with(a.segments, ds) + seq![10u8]
}

/// One rendered line with every segment kept verbatim: what rendering
/// produces when no emphasis is applied.
pub open spec fn render_line_plain(a: AnnModel, show_linenumber: bool) -> Seq<u8> {
    render_line_spec(a, emph_texts(a.segments), show_linenumber)
}

pub proof fn lemma_emph_count_nonneg(segs: Seq<SegModel>)
    ensures
        emph_count(segs) >= 0,
        emph_count(segs) == emph_texts(segs).len(),
    decreases segs.len(),
{
    if segs.len() > 0 {
        lemma_emph_count_nonneg(segs.drop_first());
    }
}

/// Replacing each emphasized segment by its own text renders the segments
/// verbatim: the result is their plain concatenation.
pub proof fn lemma_rendered_verbatim(segs: Seq<SegModel>)
    ensures
        rendered_with(segs, emph_texts(segs)) == concat_segments(segs),
    decreases segs.len(),
{
    if segs.len() > 0 {
        lemma_rendered_verbatim(segs.drop_first());
        if segs[0].emphasized {
            let ds = emph_texts(segs);
            assert(ds == seq![segs[0].text] + emph_texts(segs.drop_first()));
            assert(ds[0] == segs[0].text);
            assert(ds.drop_first() =~= emph_texts(segs.drop_first()));
        }
    }
}

/// A plainly rendered matching line is the original line itself: the
/// optional decimal number prefix, then the line's bytes unchanged, then
/// the closing newline — whatever the match spans were.
pub proof fn lemma_plain_render_round_trip(
    line: Seq<u8>,
    ms: Seq<(int, int)>,
    number: int,
    emphasize: bool,
    show_linenumber: bool,
)
    requires
        crate::spans_wf(ms, line.len() as int),
    ensures
        render_line_plain(
            AnnModel { line_number: number, segments: crate::annotate::ann_segments(line, ms, emphasize) },
            show_linenumber,
        ) == (if show_linenumber {
            dec_digits(number) + seq![58u8]
        } else {
            Seq::<u8>::empty()
        }) + line + seq![10u8],
{
    let segs = crate::annotate::ann_segments(line, ms, emphasize);
    lemma_rendered_verbatim(segs);
    crate::annotate::lemma_annotation_round_trip(line, ms, emphasize);
}

proof fn lemma_rendered_append(a: Seq<SegModel>, b: Seq<SegModel>, ds: Seq<Seq<u8>>)
    requires
        emph_count(a) <= ds.len(),
    ensures
        rendered_with(a + b, ds) == rendered_with(a, ds) + rendered_with(
            b,
            ds.skip(emph_count(a)),
        ),
    decreases a.len(),
{
    lemma_emph_count_nonneg(a);
    if a.len() == 0 {
        assert(a + b =~= b);
        assert(ds.skip(0) =~= ds);
        assert(rendered_with(a, ds) + rendered_with(b, ds) =~= rendered_with(b, ds));
    } else {
        assert((a + b).drop_first() =~= a.drop_first() + b);
        lemma_emph_count_nonneg(a.drop_first());
        if a[0].emphasized {
            lemma_rendered_append(a.drop_first(), b, ds.drop_first());
            assert(ds.drop_first().skip(emph_count(a.drop_first())) =~= ds.skip(emph_count(a)));
            assert(ds[0] + (rendered_with(a.drop_first(), ds.drop_first()) + rendered_with(
                b,
                ds.skip(emph_count(a)),
            )) =~= (ds[0] + rendered_with(a.drop_first(), ds.drop_first())) + rendered_with(
                b,
                ds.skip(emph_count(a)),
            ));
        } else {
            lemma_rendered_append(a.drop_first(), b, ds);
            assert(a[0].text + (rendered_with(a.drop_first(), ds) + rendered_with(
                b,
                ds.skip(emph_count(a)),
            )) =~= (a[0].text + rendered_with(a.drop_first(), ds)) + rendered_with(
                b,
                ds.skip(emph_count(a)),
            ));
        }
    }
}

proof fn lemma_rendered_one(s: SegModel, ds: Seq<Seq<u8>>)
    ensures
        s.emphasized ==> rendered_with(seq![s], ds) == ds[0],
        !s.emphasized ==> rendered_with(seq![s], ds) == s.text,
        s.emphasized ==> emph_count(seq![s]) == 1,
        !s.emphasized ==> emph_count(seq![s]) == 0,
{
    assert(seq![s].drop_first() =~= Seq::<SegModel>::empty());
    assert(rendered_with(Seq::<SegModel>::empty(), ds.drop_first()) == Seq::<u8>::empty());
    assert(rendered_with(Seq::<SegModel>::empty(), ds) == Seq::<u8>::empty());
    assert(emph_count(Seq::<SegModel>::empty()) == 0);
    if s.emphasized {
        assert(ds[0] + Seq::<u8>::empty() =~= ds[0]);
    } else {
        assert(s.text + Seq::<u8>::empty() =~= s.text);
    }
}

/// Appends a copy of every byte of `src` to `out`.
pub fn push_bytes(out: &mut Vec<u8>, src: &Vec<u8>)
    ensures
        final(out)@ == old(out)@ + src@,
{
    let mut k: usize = 0;
    while k < src.len()
        invariant
            k <= src@.len(),
            out@ == old(out)@ + src@.subrange(0, k as int),
        decreases src@.len() - k,
    {
        out.push(src[k]);
        proof {
            assert(old(out)@ + src@.subrange(0, (k + 1) as int) =~= (old(out)@ + src@.subrange(
                0,
                k as int,
            )) + seq![src@[k as int]]);
        }
        k = k + 1;
    }
    proof {
        assert(src@.subrange(0, src@.len() as int) =~= src@);
    }
}

/// Renders one annotated line, the decorated form of each emphasized segment
/// supplied by the caller in `decorated`, one entry per emphasized segment in
/// order.
pub fn render_line_with(a: &AnnotatedLine, decorated: &Vec<Vec<u8>>, show_linenumber: bool) -> (r:
    Vec<u8>)
    requires
        decorated@.len() == emph_count(a@.segments),
    ensures
        r@ == render_line_spec(a@, decorated.deep_view(), show_linenumber),
{
    let ghost segs = a@.segments;
    let ghost ds = decorated.deep_view();
    let dlen = decorated.len();
    let mut out: Vec<u8> = Vec::new();
    if show_linenumber {
        push_decimal(&mut out, a.line_number);
        out.push(58);
    }
    let ghost header = out@;
    let mut i: usize = 0;
    let mut j: usize = 0;
    proof {
        assert(segs.take(0) =~= Seq::<SegModel>::empty());
        assert(out@ =~= header + rendered_with(segs.take(0), ds));
        lemma_emph_count_nonneg(segs);
    }
    while i < a.segments.len()
        invariant
            segs == a@.segments,
            ds == decorated.deep_view(),
            ds.len() == emph_count(segs),
            dlen == ds.len(),
            i <= a.segments@.len(),
            j <= dlen,
            j == emph_count(segs.take(i as int)),
            out@ == header + rendered_with(segs.take(i as int), ds),
        decreases a.segments@.len() - i,
    {
        proof {
            assert(segs[i as int] == a.segments@[i as int]@);
            lemma_emph_count_nonneg(segs.take(i as int));
            assert(segs.take(i as int + 1) =~= segs.take(i as int) + seq![segs[i as int]]);
            lemma_emph_snoc(segs, i as int);
        }
        let seg_emph = a.segments[i].emphasized;
        if seg_emph {
            proof {
                // the prefix's emphasized count never exceeds the whole
                // run's, so `j` indexes into `decorated`
                lemma_emph_prefix_bound(segs, i as int);
            }
            push_bytes(&mut out, &decorated[j]);
            proof {
                assert(decorated@[j as int]@ == ds[j as int]);
                lemma_rendered_append(segs.take(i as int), seq![segs[i as int]], ds);
                lemma_rendered_one(segs[i as int], ds.skip(j as int));
                assert(ds.skip(j as int)[0] == ds[j as int]);
                assert(out@ =~= header + rendered_with(segs.take(i as int + 1), ds));
            }
            j = j + 1;
        } else {
            push_bytes(&mut out, &a.segments[i].text);
            proof {
                assert(a.segments@[i as int].text@ == segs[i as int].text);
                lemma_rendered_append(segs.take(i as int), seq![segs[i as int]], ds);
                lemma_rendered_one(segs[i as int], ds.skip(j as int));
                assert(out@ =~= header + rendered_with(segs.take(i as int + 1), ds));
            }
        }
        i = i + 1;
    }
    out.push(10);
    proof {
        assert(segs.take(segs.len() as int) =~= segs);
        assert(out@ =~= header + rendered_with(segs, ds) + seq![10u8]);
        assert(out@ =~= render_line_spec(a@, ds, show_linenumber));
    }
    out
}

/// Relies on colored's bold and red styling to mark a matched span for
/// emphasis. Whether and how escape codes are added depends on the process
/// environment, the terminal, and colored's global override, so nothing is
/// claimed about the bytes that come back.
#[verifier::external_body]
fn decorate_match(text: &Vec<u8>) -> (r: Vec<u8>) {
    match core::str::from_utf8(text) {
        Ok(s) => s.bold().red().to_string().into_bytes(),
        Err(_) => text.clone(),
    }
}

/// Relies on colored's purple styling to mark a source label. As with
/// match decoration, the result depends on the environment, so nothing is
/// claimed about the bytes that come back.
#[verifier::external_body]
pub(crate) fn decorate_label(label: &String) -> (r: Vec<u8>) {
    label.as_str().purple().to_string().into_bytes()
}

proof fn lemma_emph_texts_snoc(segs: Seq<SegModel>, i: int)
    requires
        0 <= i < segs.len(),
    ensures
        emph_texts(segs.take(i + 1)) == emph_texts(segs.take(i)) + (if segs[i].emphasized {
            seq![segs[i].text]
        } else {
            Seq::<Seq<u8>>::empty()
        }),
    decreases i,
{
    if i == 0 {
        assert(segs.take(0) =~= Seq::<SegModel>::empty());
        assert(segs.take(1).drop_first() =~= Seq::<SegModel>::empty());
        assert(emph_texts(Seq::<SegModel>::empty()) =~= Seq::<Seq<u8>>::empty());
        if segs[0].emphasized {
            assert(emph_texts(segs.take(1)) =~= Seq::<Seq<u8>>::empty() + seq![segs[0].text]);
        } else {
            assert(emph_texts(segs.take(1)) =~= Seq::<Seq<u8>>::empty());
        }
    } else {
        lemma_emph_texts_snoc(segs.drop_first(), i - 1);
        assert(segs.take(i + 1).drop_first() =~= segs.drop_first().take(i));
        assert(segs.take(i).drop_first() =~= segs.drop_first().take(i - 1));
        assert(segs.drop_first()[i - 1] == segs[i]);
        if segs[0].emphasized {
            if segs[i].emphasized {
                assert(seq![segs[0].text] + (emph_texts(segs.drop_first().take(i - 1))
                    + seq![segs[i].text]) =~= (seq![segs[0].text] + emph_texts(
                    segs.drop_first().take(i - 1),
                )) + seq![segs[i].text]);
            } else {
                assert(emph_texts(segs.take(i + 1)) =~= emph_texts(segs.take(i))
                    + Seq::<Seq<u8>>::empty());
            }
        } else {
            if !segs[i].emphasized {
                assert(emph_texts(segs.take(i + 1)) =~= emph_texts(segs.take(i))
                    + Seq::<Seq<u8>>::empty());
            }
        }
    }
}

/// Renders one annotated line as bytes: the decimal line number and a `:`
/// first when asked, then the segments in order — emphasized segments
/// decorated when `color` is on, every segment verbatim otherwise — and a
/// closing newline.
pub fn render_line(a: &AnnotatedLine, show_linenumber: bool, color: bool) -> (r: Vec<u8>)
    ensures
        !color ==> r@ == render_line_plain(a@, show_linenumber),
        exists|ds: Seq<Seq<u8>>|
            ds.len() == emph_count(a@.segments) && r@ == render_line_spec(
                a@,
                ds,
                show_linenumber,
            ),
{
    let ghost segs = a@.segments;
    let mut decorated: Vec<Vec<u8>> = Vec::new();
    let mut i: usize = 0;
    proof {
        assert(segs.take(0) =~= Seq::<SegModel>::empty());
        assert(decorated.deep_view() =~~= Seq::<Seq<u8>>::empty());
    }
    while i < a.segments.len()
        invariant
            segs == a@.segments,
            i <= a.segments@.len(),
            decorated.deep_view().len() == emph_count(segs.take(i as int)),
            !color ==> decorated.deep_view() == emph_texts(segs.take(i as int)),
        decreases a.segments@.len() - i,
    {
        let ghost d0 = decorated.deep_view();
        proof {
            assert(segs[i as int] == a.segments@[i as int]@);
            lemma_emph_snoc(segs, i as int);
            lemma_emph_texts_snoc(segs, i as int);
        }
        if a.segments[i].emphasized {
            let piece = if color {
                decorate_match(&a.segments[i].text)
            } else {
                copy_range(&a.segments[i].text, 0, a.segments[i].text.len())
            };
            proof {
                assert(a.segments@[i as int].text@.subrange(
                    0,
                    a.segments@[i as int].text@.len() as int,
                ) =~= segs[i as int].text);
            }
            decorated.push(piece);
            proof {
                assert(decorated.deep_view() =~~= d0.push(piece@));
                if !color {
                    assert(d0.push(piece@) =~= emph_texts(segs.take(i as int)) + seq![segs[i
                        as int].text]);
                }
            }
        }
        i = i + 1;
    }
    proof {
        assert(segs.take(segs.len() as int) =~= segs);
        assert(decorated@.len() == decorated.deep_view().len());
    }
    let r = render_line_with(a, &decorated, show_linenumber);
    proof {
        if !color {
            assert(r@ == render_line_plain(a@, show_linenumber));
        }
        assert(decorated.deep_view().len() == emph_count(a@.segments) && r@ == render_line_spec(
            a@,
            decorated.deep_view(),
            show_linenumber,
        ));
    }
    r
}

proof fn lemma_emph_snoc(segs: Seq<SegModel>, i: int)
    requires
        0 <= i < segs.len(),
    ensures
        emph_count(segs.take(i + 1)) == emph_count(segs.take(i)) + (if segs[i].emphasized {
            1int
        } else {
            0int
        }),
    decreases i,
{
    if i == 0 {
        assert(segs.take(0) =~= Seq::<SegModel>::empty());
        assert(segs.take(1).drop_first() =~= Seq::<SegModel>::empty());
    } else {
        lemma_emph_snoc(segs.drop_first(), i - 1);
        assert(segs.take(i + 1).drop_first() =~= segs.drop_first().take(i));
        assert(segs.take(i).drop_first() =~= segs.drop_first().take(i - 1));
        assert(segs.drop_first()[i - 1] == segs[i]);
    }
}

proof fn lemma_emph_prefix_bound(segs: Seq<SegModel>, i: int)
    requires
        0 <= i < segs.len(),
        segs[i].emphasized,
    ensures
        emph_count(segs.take(i)) + 1 <= emph_count(segs),
    decreases segs.len(),
{
    lemma_emph_snoc(segs, i);
    lemma_emph_take_bound(segs, i + 1);
}

proof fn lemma_emph_take_bound(segs: Seq<SegModel>, i: int)
    requires
        0 <= i <= segs.len(),
    ensures
        emph_count(segs.take(i)) <= emph_count(segs),
    decreases segs.len(),
{
    if segs.len() == 0 {
        assert(segs.take(i) =~= segs);
    } else if i == 0 {
        assert(segs.take(0) =~= Seq::<SegModel>::empty());
        lemma_emph_count_nonneg(segs);
    } else {
        lemma_emph_take_bound(segs.drop_first(), i - 1);
        assert(segs.take(i).drop_first() =~= segs.drop_first().take(i - 1));
    }
}

} // verus!
