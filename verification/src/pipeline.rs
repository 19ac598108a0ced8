//! The whole pipeline, from a frozen paragraph to its lines, and what holds
//! of it whatever the partition into style runs.

use vstd::prelude::*;
use crate::boundary::{is_separator, scan, separator_count, separator_positions};
use crate::error::LayoutError;
use crate::font::FontResolver;
use crate::line_breaker::{break_lines, greedy_lines, lemma_line_start, lemma_lines_cover_stream,
    line_of, line_start, LineView, ParagraphLayout};
use crate::shaper::{lemma_shape_runs, shape_all, shape_paragraph, stream_view, ClusterView};
use crate::spacing::{boundary_count, boundary_count_upto, lemma_boundary_count,
    lemma_shaped_resolvable, resolve, spaced, spaced_stream};
use crate::style::{valid_partition, Paragraph, StyleRun};

verus! {

/// The merged cluster stream of a paragraph after word spacing is resolved
/// against the separators of its whole text.
pub open spec fn resolved_clusters(text: Seq<char>, runs: Seq<StyleRun>, fonts: FontResolver) -> Seq<
    ClusterView,
> {
    spaced_stream(shape_all(text, runs, fonts), separator_positions(text))
}

/// The lines of a paragraph at a maximum width.
pub open spec fn layout_of(
    text: Seq<char>,
    runs: Seq<StyleRun>,
    fonts: FontResolver,
    max_width: u64,
) -> Seq<LineView> {
    greedy_lines(resolved_clusters(text, runs, fonts), max_width)
}

/// How many clusters of the first `upto` lines received a spacing addition.
pub open spec fn additions_upto(lines: Seq<LineView>, upto: int) -> nat
    decreases upto,
{
    if upto <= 0 {
        0
    } else {
        additions_upto(lines, upto - 1) + boundary_count(lines[upto - 1].clusters)
    }
}

/// How many clusters of a layout received a spacing addition.
pub open spec fn spacing_additions(lines: Seq<LineView>) -> nat {
    additions_upto(lines, lines.len() as int)
}

/// The marked clusters among the first `m` of a subrange are those of the
/// stream between the start of the subrange and `m` clusters behind it.
pub proof fn lemma_boundary_count_shift(clusters: Seq<ClusterView>, from: int, to: int, m: int)
    requires
        0 <= from,
        0 <= m,
        from + m <= to <= clusters.len(),
    ensures
        boundary_count_upto(clusters.subrange(from, to), m) == boundary_count_upto(
            clusters,
            from + m,
        ) - boundary_count_upto(clusters, from),
    decreases m,
{
    if m > 0 {
        lemma_boundary_count_shift(clusters, from, to, m - 1);
        assert(clusters.subrange(from, to)[m - 1] == clusters[from + m - 1]);
    }
}

/// The lines of the greedy layout hold, together, the marked clusters of
/// the stream.
pub proof fn lemma_additions_upto(clusters: Seq<ClusterView>, max_width: u64, k: int)
    requires
        0 <= k <= greedy_lines(clusters, max_width).len(),
    ensures
        additions_upto(greedy_lines(clusters, max_width), k) == boundary_count_upto(
            clusters,
            line_start(clusters, max_width, k),
        ),
    decreases k,
{
    if k > 0 {
        lemma_additions_upto(clusters, max_width, k - 1);
        lemma_lines_cover_stream(clusters, max_width);
        lemma_line_start(clusters, max_width, k - 1);
        let from = line_start(clusters, max_width, k - 1);
        let to = line_start(clusters, max_width, k);
        assert(greedy_lines(clusters, max_width)[k - 1] == line_of(clusters, from, to));
        lemma_boundary_count_shift(clusters, from, to, to - from);
    }
}

/// Boundary-count invariance. For a text with `k` separators, exactly `k`
/// clusters receive a spacing addition, in the resolved stream and in the
/// lines of the layout, however the text is partitioned into style runs,
/// whatever the fonts and whatever the width.
pub proof fn lemma_spacing_count(
    text: Seq<char>,
    runs: Seq<StyleRun>,
    fonts: FontResolver,
    max_width: u64,
)
    requires
        text.len() <= usize::MAX,
        valid_partition(text.len(), runs),
    ensures
        boundary_count(resolved_clusters(text, runs, fonts)) == separator_count(text),
        spacing_additions(layout_of(text, runs, fonts, max_width)) == separator_count(text),
{
    let shaped = shape_all(text, runs, fonts);
    let stream = resolved_clusters(text, runs, fonts);
    lemma_shape_runs(text, runs, fonts, 0);
    if runs.len() > 0 {
        assert(runs[0].start == 0);
    }
    lemma_boundary_count(text, shaped);
    let lines = greedy_lines(stream, max_width);
    lemma_additions_upto(stream, max_width, lines.len() as int);
    lemma_lines_cover_stream(stream, max_width);
}

/// Two partitions of one text receive the same number of spacing additions.
pub proof fn lemma_boundary_count_invariance(
    text: Seq<char>,
    first: Seq<StyleRun>,
    second: Seq<StyleRun>,
    fonts: FontResolver,
    max_width: u64,
)
    requires
        text.len() <= usize::MAX,
        valid_partition(text.len(), first),
        valid_partition(text.len(), second),
    ensures
        spacing_additions(layout_of(text, first, fonts, max_width)) == spacing_additions(
            layout_of(text, second, fonts, max_width),
        ),
        boundary_count(resolved_clusters(text, first, fonts)) == boundary_count(
            resolved_clusters(text, second, fonts),
        ),
{
    lemma_spacing_count(text, first, fonts, max_width);
    lemma_spacing_count(text, second, fonts, max_width);
}

/// Every cluster of the resolved stream lies within its own run, is marked
/// exactly when it holds a separator, and is then widened by the word
/// spacing of its own run, never by that of a neighbour.
pub proof fn lemma_owning_run_spacing(
    text: Seq<char>,
    runs: Seq<StyleRun>,
    fonts: FontResolver,
    i: int,
)
    requires
        text.len() <= usize::MAX,
        valid_partition(text.len(), runs),
        0 <= i < resolved_clusters(text, runs, fonts).len(),
    ensures
        ({
            let c = resolved_clusters(text, runs, fonts)[i];
            &&& c.run < runs.len()
            &&& runs[c.run as int].start <= c.start < c.end <= runs[c.run as int].end
            &&& c.boundary == is_separator(text[c.start as int])
            &&& c.boundary ==> c.end == c.start + 1 && c.spacing == runs[c.run as int].style.word_spacing
            &&& !c.boundary ==> c.spacing == 0
        }),
{
    let shaped = shape_all(text, runs, fonts);
    lemma_shape_runs(text, runs, fonts, 0);
    if runs.len() > 0 {
        assert(runs[0].start == 0);
    }
    lemma_shaped_resolvable(text, shaped);
    assert(resolved_clusters(text, runs, fonts)[i] == spaced(shaped[i], separator_positions(text)));
}

/// Determinism. Two layouts of the same text, runs, fonts and width are
/// equal line by line, cluster by cluster and field by field.
pub proof fn lemma_layout_deterministic(
    first: ParagraphLayout,
    second: ParagraphLayout,
    text: Seq<char>,
    runs: Seq<StyleRun>,
    fonts: FontResolver,
    max_width: u64,
)
    requires
        first@ == layout_of(text, runs, fonts, max_width),
        second@ == layout_of(text, runs, fonts, max_width),
    ensures
        first@ == second@,
        first.lines@.len() == second.lines@.len(),
        forall|k: int|
            0 <= k < first.lines@.len() ==> {
                &&& (#[trigger] first.lines@[k]).clusters@.len() == second.lines@[k].clusters@.len()
                &&& first.lines@[k].width == second.lines@[k].width
                &&& first.lines@[k].ascent == second.lines@[k].ascent
                &&& first.lines@[k].descent == second.lines@[k].descent
                &&& forall|j: int|
                    0 <= j < first.lines@[k].clusters@.len() ==> (
                    #[trigger] first.lines@[k].clusters@[j])@ == second.lines@[k].clusters@[j]@
            },
{
    assert(first@.len() == first.lines@.len());
    assert(second@.len() == second.lines@.len());
    assert forall|k: int| 0 <= k < first.lines@.len() implies {
        &&& (#[trigger] first.lines@[k]).clusters@.len() == second.lines@[k].clusters@.len()
        &&& first.lines@[k].width == second.lines@[k].width
        &&& first.lines@[k].ascent == second.lines@[k].ascent
        &&& first.lines@[k].descent == second.lines@[k].descent
        &&& forall|j: int|
            0 <= j < first.lines@[k].clusters@.len() ==> (#[trigger] first.lines@[k].clusters@[j])@
                == second.lines@[k].clusters@[j]@
    } by {
        assert(first@[k] == first.lines@[k]@);
        assert(second@[k] == second.lines@[k]@);
        let a = first.lines@[k].clusters@;
        let b = second.lines@[k].clusters@;
        assert(stream_view(a) == stream_view(b));
        assert(stream_view(a).len() == a.len());
        assert(stream_view(b).len() == b.len());
        assert forall|j: int| 0 <= j < a.len() implies (#[trigger] a[j])@ == b[j]@ by {
            assert(stream_view(a)[j] == a[j]@);
            assert(stream_view(b)[j] == b[j]@);
        }
    }
}

/// Lays a paragraph out: finds the separators of its whole text, shapes
/// each run, resolves word spacing over the merged stream and breaks the
/// stream into lines no wider than `max_width` where words allow it.
///
/// On a well-formed paragraph every boundary resolves, so this succeeds.
pub fn layout(paragraph: &Paragraph, fonts: &FontResolver, max_width: u64) -> (r: Result<
    ParagraphLayout,
    LayoutError,
>)
    requires
        paragraph.well_formed(),
    ensures
        r is Ok,
        r.unwrap()@ == layout_of(
            paragraph.text_view(),
            paragraph.runs_view(),
            *fonts,
            max_width,
        ),
        spacing_additions(r.unwrap()@) == separator_count(paragraph.text_view()),
{
    let text = paragraph.text();
    let boundaries = scan(text);
    let clusters = shape_paragraph(paragraph, fonts);
    proof {
        assert(text@.len() == text.len());
        lemma_shaped_resolvable(paragraph.text_view(), stream_view(clusters@));
        lemma_spacing_count(paragraph.text_view(), paragraph.runs_view(), *fonts, max_width);
    }
    match resolve(&clusters, &boundaries) {
        Ok(adjusted) => Ok(break_lines(&adjusted, max_width)),
        Err(e) => Err(e),
    }
}

/// Counts the clusters of a layout that received a spacing addition.
pub fn count_spacing_additions(layout: &ParagraphLayout) -> (n: u128)
    ensures
        n == spacing_additions(layout@),
{
    let count = layout.lines.len();
    let mut n: u128 = 0;
    let mut k: usize = 0;
    while k < count
        invariant
            count == layout.lines@.len(),
            layout@.len() == count,
            k <= count,
            n == additions_upto(layout@, k as int),
            n <= k * 0xffff_ffff_ffff_ffff,
        decreases count - k,
    {
        let line = &layout.lines[k];
        assert(line@ == layout@[k as int]);
        let ghost held = stream_view(line.clusters@);
        let m = line.clusters.len();
        let mut marked: usize = 0;
        let mut j: usize = 0;
        while j < m
            invariant
                m == line.clusters@.len(),
                held == stream_view(line.clusters@),
                j <= m,
                marked == boundary_count_upto(held, j as int),
                marked <= j,
            decreases m - j,
        {
            assert(held[j as int] == line.clusters@[j as int]@);
            if line.clusters[j].boundary {
                marked = marked + 1;
            }
            j = j + 1;
        }
        n = n + marked as u128;
        k = k + 1;
    }
    n
}

} // verus!
