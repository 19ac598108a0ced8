//! Shaping: each style run becomes glyph clusters under its resolved face.
//! A cluster never crosses a run boundary, and a separator always stands in a
//! cluster of its own.

use vstd::prelude::*;
use crate::boundary::{is_separator, separator};
use crate::font::{copy_glyphs, FontFace, FontHandle, FontResolver, GlyphMetrics};
use crate::style::{valid_partition, Paragraph, StyleAttributes, StyleRun};

verus! {

/// One or more glyphs that stand for the codepoints `[start, end)` of the
/// buffer.
///
/// The cluster names its run by index and carries what later stages read of
/// that run's style. `spacing` and `boundary` are left at rest by the shaper
/// and set when word spacing is resolved.
#[derive(Debug, PartialEq, Eq)]
pub struct GlyphCluster {
    pub glyphs: Vec<u32>,
    pub start: usize,
    pub end: usize,
    /// Index of the owning style run.
    pub run: usize,
    pub font: FontHandle,
    /// The font size of the owning run.
    pub size: u16,
    /// Advance under the face's metrics at the run's size.
    pub advance: u32,
    pub ascent: u32,
    pub descent: u32,
    pub color: u32,
    /// The word-spacing attribute of the owning run.
    pub word_spacing: u32,
    /// Extra advance applied to this cluster.
    pub spacing: u32,
    /// Whether this cluster sits on a word boundary.
    pub boundary: bool,
}

/// The mathematical value of a [`GlyphCluster`].
pub ghost struct ClusterView {
    pub glyphs: Seq<u32>,
    pub start: usize,
    pub end: usize,
    pub run: usize,
    pub font: FontHandle,
    pub size: u16,
    pub advance: u32,
    pub ascent: u32,
    pub descent: u32,
    pub color: u32,
    pub word_spacing: u32,
    pub spacing: u32,
    pub boundary: bool,
}

impl View for GlyphCluster {
    type V = ClusterView;

    open spec fn view(&self) -> ClusterView {
        ClusterView {
            glyphs: self.glyphs@,
            start: self.start,
            end: self.end,
            run: self.run,
            font: self.font,
            size: self.size,
            advance: self.advance,
            ascent: self.ascent,
            descent: self.descent,
            color: self.color,
            word_spacing: self.word_spacing,
            spacing: self.spacing,
            boundary: self.boundary,
        }
    }
}

impl Clone for GlyphCluster {
    fn clone(&self) -> (c: Self)
        ensures
            c@ == self@,
    {
        GlyphCluster {
            glyphs: copy_glyphs(&self.glyphs),
            start: self.start,
            end: self.end,
            run: self.run,
            font: self.font,
            size: self.size,
            advance: self.advance,
            ascent: self.ascent,
            descent: self.descent,
            color: self.color,
            word_spacing: self.word_spacing,
            spacing: self.spacing,
            boundary: self.boundary,
        }
    }
}

/// The mathematical value of a cluster stream.
pub open spec fn stream_view(clusters: Seq<GlyphCluster>) -> Seq<ClusterView> {
    clusters.map_values(|c: GlyphCluster| c@)
}

/// Pushing a cluster onto a stream pushes its value onto the stream's value.
pub proof fn lemma_stream_view_push(clusters: Seq<GlyphCluster>, c: GlyphCluster)
    ensures
        stream_view(clusters.push(c)) == stream_view(clusters).push(c@),
{
    assert(stream_view(clusters.push(c)) =~= stream_view(clusters).push(c@));
}

/// A metric in thousandths of an em, brought to a font size; rounds down.
pub open spec fn scaled(units: u16, size: u16) -> u32 {
    ((units as int * size as int) / 1000) as u32
}

/// Executable form of [`scaled`].
pub fn scale(units: u16, size: u16) -> (r: u32)
    ensures
        r == scaled(units, size),
{
    assert(units as int * size as int <= 0xffff * 0xffff) by (nonlinear_arith)
        requires
            0 <= units as int <= 0xffff,
            0 <= size as int <= 0xffff,
    ;
    assert(0 <= units as int * size as int) by (nonlinear_arith)
        requires
            0 <= units as int,
            0 <= size as int,
    ;
    (units as u32 * size as u32) / 1000
}

/// Whether the face joins the codepoints at `pos` and `pos + 1` into one
/// glyph. A separator is never joined with anything.
pub open spec fn joins(text: Seq<char>, face: FontFace, pos: int, limit: int) -> bool {
    &&& pos + 1 < limit
    &&& !is_separator(text[pos])
    &&& !is_separator(text[pos + 1])
    &&& face.spec_ligature(text[pos], text[pos + 1]) is Some
}

/// The number of codepoints that the cluster starting at `pos` covers.
pub open spec fn cluster_len(text: Seq<char>, face: FontFace, pos: int, limit: int) -> int {
    if joins(text, face, pos, limit) {
        2
    } else {
        1
    }
}

/// The cluster that starts at `pos` in a run that ends at `limit`: the
/// ligature of the two codepoints there where the face joins them, else the
/// glyphs of the one codepoint, with the metrics brought to the size of the
/// style.
pub open spec fn cluster_at(
    text: Seq<char>,
    style: StyleAttributes,
    run: usize,
    font: FontHandle,
    face: FontFace,
    pos: int,
    limit: int,
) -> ClusterView {
    let joined = joins(text, face, pos, limit);
    let ligature = face.spec_ligature(text[pos], text[pos + 1]).unwrap();
    ClusterView {
        glyphs: if joined {
            seq![ligature.glyph]
        } else {
            face.spec_glyphs(text[pos])
        },
        start: pos as usize,
        end: (pos + cluster_len(text, face, pos, limit)) as usize,
        run,
        font,
        size: style.size,
        advance: scaled(
            if joined {
                ligature.advance
            } else {
                face.spec_advance(text[pos])
            },
            style.size,
        ),
        ascent: scaled(face.ascent, style.size),
        descent: scaled(face.descent, style.size),
        color: style.color,
        word_spacing: style.word_spacing,
        spacing: 0,
        boundary: false,
    }
}

/// The clusters of the codepoints `[pos, limit)`, left to right.
pub open spec fn shape_span(
    text: Seq<char>,
    style: StyleAttributes,
    run: usize,
    font: FontHandle,
    face: FontFace,
    pos: int,
    limit: int,
) -> Seq<ClusterView>
    decreases limit - pos,
{
    if pos >= limit {
        Seq::empty()
    } else {
        seq![cluster_at(text, style, run, font, face, pos, limit)] + shape_span(
            text,
            style,
            run,
            font,
            face,
            pos + cluster_len(text, face, pos, limit),
            limit,
        )
    }
}

/// The clusters of one run, under the face that its style resolves to.
pub open spec fn shape_run(
    text: Seq<char>,
    run: StyleRun,
    index: usize,
    fonts: FontResolver,
) -> Seq<ClusterView> {
    let font = fonts.spec_resolve(run.style.family@, run.style.weight, run.style.slant);
    shape_span(
        text,
        run.style,
        index,
        font,
        fonts.spec_face(font),
        run.start as int,
        run.end as int,
    )
}

/// The clusters of the runs from index `from` on, concatenated in run order.
pub open spec fn shape_runs(
    text: Seq<char>,
    runs: Seq<StyleRun>,
    fonts: FontResolver,
    from: int,
) -> Seq<ClusterView>
    decreases runs.len() - from,
{
    if from < 0 || from >= runs.len() {
        Seq::empty()
    } else {
        shape_run(text, runs[from], from as usize, fonts) + shape_runs(text, runs, fonts, from + 1)
    }
}

/// The whole cluster stream of a paragraph.
pub open spec fn shape_all(text: Seq<char>, runs: Seq<StyleRun>, fonts: FontResolver) -> Seq<
    ClusterView,
> {
    shape_runs(text, runs, fonts, 0)
}

/// The clusters are non-empty, follow each other without gap or overlap,
/// and cover exactly `[from, to)`.
pub open spec fn tiles(clusters: Seq<ClusterView>, from: int, to: int) -> bool {
    &&& from <= to
    &&& forall|i: int| 0 <= i < clusters.len() ==> (#[trigger] clusters[i]).start < clusters[i].end
    &&& forall|i: int, j: int|
        0 <= i && j == i + 1 && j < clusters.len() ==> (#[trigger] clusters[i]).end == (
        #[trigger] clusters[j]).start
    &&& clusters.len() == 0 ==> from == to
    &&& clusters.len() > 0 ==> clusters[0].start == from && clusters[clusters.len() - 1].end == to
}

/// Every cluster lies within the text, a separator is alone in its cluster,
/// and a cluster that does not start with a separator holds none.
pub open spec fn isolates_separators(text: Seq<char>, clusters: Seq<ClusterView>) -> bool {
    forall|i: int|
        0 <= i < clusters.len() ==> {
            let c = #[trigger] clusters[i];
            &&& c.end <= text.len()
            &&& is_separator(text[c.start as int]) ==> c.end == c.start + 1
            &&& !is_separator(text[c.start as int]) ==> forall|p: int|
                c.start <= p < c.end ==> !is_separator(#[trigger] text[p])
        }
}

/// Every cluster comes from the shaper untouched: no spacing, no boundary mark.
pub open spec fn unspaced(clusters: Seq<ClusterView>) -> bool {
    forall|i: int|
        0 <= i < clusters.len() ==> (#[trigger] clusters[i]).spacing == 0 && !clusters[i].boundary
}

/// Two tilings that meet give a tiling of the whole.
pub proof fn lemma_tiles_concat(
    a: Seq<ClusterView>,
    b: Seq<ClusterView>,
    from: int,
    mid: int,
    to: int,
)
    requires
        tiles(a, from, mid),
        tiles(b, mid, to),
    ensures
        tiles(a + b, from, to),
{
    let s = a + b;
    assert forall|i: int| 0 <= i < s.len() implies (#[trigger] s[i]).start < s[i].end by {
        if i < a.len() {
            assert(s[i] == a[i]);
        } else {
            assert(s[i] == b[i - a.len()]);
        }
    }
    assert forall|i: int, j: int| 0 <= i && j == i + 1 && j < s.len() implies (#[trigger] s[i]).end
        == (#[trigger] s[j]).start by {
        if j < a.len() {
            assert(s[i] == a[i] && s[j] == a[j]);
        } else if i < a.len() {
            assert(s[i] == a[a.len() - 1] && s[j] == b[0]);
        } else {
            assert(s[i] == b[i - a.len()] && s[j] == b[j - a.len()]);
        }
    }
    if s.len() > 0 {
        if a.len() > 0 {
            assert(s[0] == a[0]);
        } else {
            assert(s[0] == b[0]);
        }
        if b.len() > 0 {
            assert(s[s.len() - 1] == b[b.len() - 1]);
        } else {
            assert(s[s.len() - 1] == a[a.len() - 1]);
        }
    }
}

/// The clusters of a span tile it, isolate its separators, belong to the
/// run they were shaped for, carry its word spacing and hold a glyph each.
pub proof fn lemma_shape_span(
    text: Seq<char>,
    style: StyleAttributes,
    run: usize,
    font: FontHandle,
    face: FontFace,
    pos: int,
    limit: int,
)
    requires
        0 <= pos <= limit <= text.len() <= usize::MAX,
    ensures
        tiles(shape_span(text, style, run, font, face, pos, limit), pos, limit),
        isolates_separators(text, shape_span(text, style, run, font, face, pos, limit)),
        unspaced(shape_span(text, style, run, font, face, pos, limit)),
        forall|i: int|
            0 <= i < shape_span(text, style, run, font, face, pos, limit).len() ==> {
                let c = #[trigger] shape_span(text, style, run, font, face, pos, limit)[i];
                c.run == run && c.word_spacing == style.word_spacing && c.font == font
                    && c.glyphs.len() > 0
            },
    decreases limit - pos,
{
    if pos < limit {
        let c = cluster_at(text, style, run, font, face, pos, limit);
        let next = pos + cluster_len(text, face, pos, limit);
        let rest = shape_span(text, style, run, font, face, next, limit);
        let all = shape_span(text, style, run, font, face, pos, limit);
        lemma_shape_span(text, style, run, font, face, next, limit);
        assert(all == seq![c] + rest);
        assert(tiles(seq![c], pos, next));
        lemma_tiles_concat(seq![c], rest, pos, next, limit);
        assert forall|i: int| 0 <= i < all.len() implies {
            let d = #[trigger] all[i];
            &&& d.end <= text.len()
            &&& is_separator(text[d.start as int]) ==> d.end == d.start + 1
            &&& !is_separator(text[d.start as int]) ==> forall|p: int|
                d.start <= p < d.end ==> !is_separator(#[trigger] text[p])
            &&& d.spacing == 0 && !d.boundary
            &&& d.run == run && d.word_spacing == style.word_spacing && d.font == font
            &&& d.glyphs.len() > 0
        } by {
            if i > 0 {
                assert(all[i] == rest[i - 1]);
            }
        }
    }
}

/// The clusters of a valid partition's runs tile the text from the start of
/// run `from` on, and isolate its separators.
pub proof fn lemma_shape_runs(text: Seq<char>, runs: Seq<StyleRun>, fonts: FontResolver, from: int)
    requires
        valid_partition(text.len(), runs),
        text.len() <= usize::MAX,
        0 <= from <= runs.len(),
    ensures
        tiles(
            shape_runs(text, runs, fonts, from),
            if from < runs.len() {
                runs[from].start as int
            } else {
                text.len() as int
            },
            text.len() as int,
        ),
        isolates_separators(text, shape_runs(text, runs, fonts, from)),
        unspaced(shape_runs(text, runs, fonts, from)),
        forall|i: int|
            0 <= i < shape_runs(text, runs, fonts, from).len() ==> {
                let c = #[trigger] shape_runs(text, runs, fonts, from)[i];
                from <= c.run < runs.len() && c.word_spacing == runs[c.run as int].style.word_spacing
                    && runs[c.run as int].start <= c.start && c.end <= runs[c.run as int].end
            },
    decreases runs.len() - from,
{
    if from < runs.len() {
        lemma_partition_ordered(text.len(), runs, from);
        lemma_partition_count(text.len(), runs, from);
        let run = runs[from];
        let head = shape_run(text, run, from as usize, fonts);
        let tail = shape_runs(text, runs, fonts, from + 1);
        let all = shape_runs(text, runs, fonts, from);
        let font = fonts.spec_resolve(run.style.family@, run.style.weight, run.style.slant);
        lemma_shape_span(
            text,
            run.style,
            from as usize,
            font,
            fonts.spec_face(font),
            run.start as int,
            run.end as int,
        );
        lemma_shape_runs(text, runs, fonts, from + 1);
        if from + 1 < runs.len() {
            assert(runs[from].end == runs[from + 1].start);
        }
        lemma_tiles_concat(head, tail, run.start as int, run.end as int, text.len() as int);
        assert(all == head + tail);
        lemma_tiles_within(head, run.start as int, run.end as int);
        assert forall|i: int| 0 <= i < all.len() implies {
            let c = #[trigger] all[i];
            &&& c.end <= text.len()
            &&& is_separator(text[c.start as int]) ==> c.end == c.start + 1
            &&& !is_separator(text[c.start as int]) ==> forall|p: int|
                c.start <= p < c.end ==> !is_separator(#[trigger] text[p])
            &&& c.spacing == 0 && !c.boundary
            &&& from <= c.run < runs.len() && c.word_spacing == runs[c.run as int].style.word_spacing
                && runs[c.run as int].start <= c.start && c.end <= runs[c.run as int].end
        } by {
            if i < head.len() {
                assert(all[i] == head[i]);
            } else {
                assert(all[i] == tail[i - head.len()]);
            }
        }
    }
}

/// In a valid partition every run lies within the text.
pub proof fn lemma_partition_ordered(len: nat, runs: Seq<StyleRun>, k: int)
    requires
        valid_partition(len, runs),
        0 <= k < runs.len(),
    ensures
        runs[k].start < runs[k].end <= len,
    decreases runs.len() - k,
{
    if k + 1 < runs.len() {
        lemma_partition_ordered(len, runs, k + 1);
        assert(runs[k].end == runs[k + 1].start);
    }
}

/// A valid partition has no more runs than the text has codepoints.
pub proof fn lemma_partition_count(len: nat, runs: Seq<StyleRun>, k: int)
    requires
        valid_partition(len, runs),
        0 <= k < runs.len(),
    ensures
        k < runs[k].end,
        runs.len() <= len,
    decreases k,
{
    if k > 0 {
        lemma_partition_count(len, runs, k - 1);
        assert(runs[k - 1].end == runs[k].start);
    }
    lemma_partition_ordered(len, runs, k);
    if k < runs.len() - 1 {
        lemma_partition_count_upward(len, runs, k);
    }
}

proof fn lemma_partition_count_upward(len: nat, runs: Seq<StyleRun>, k: int)
    requires
        valid_partition(len, runs),
        0 <= k < runs.len(),
        k < runs[k].end,
    ensures
        runs.len() <= len,
    decreases runs.len() - k,
{
    if k + 1 < runs.len() {
        assert(runs[k].end == runs[k + 1].start);
        lemma_partition_count_upward(len, runs, k + 1);
    }
}

/// Every cluster of a tiling lies within the tiled range.
pub proof fn lemma_tiles_within(clusters: Seq<ClusterView>, from: int, to: int)
    requires
        tiles(clusters, from, to),
    ensures
        forall|i: int|
            0 <= i < clusters.len() ==> from <= (#[trigger] clusters[i]).start && clusters[i].end
                <= to,
        forall|i: int, j: int|
            0 <= i < j < clusters.len() ==> (#[trigger] clusters[i]).end <= (
            #[trigger] clusters[j]).start,
{
    assert forall|i: int| 0 <= i < clusters.len() implies from <= (#[trigger] clusters[i]).start by {
        lemma_tiles_prefix(clusters, from, to, i);
    }
    assert forall|i: int| 0 <= i < clusters.len() implies (#[trigger] clusters[i]).end <= to by {
        lemma_tiles_suffix(clusters, from, to, i);
    }
    assert forall|i: int, j: int| 0 <= i < j < clusters.len() implies (#[trigger] clusters[i]).end
        <= (#[trigger] clusters[j]).start by {
        lemma_tiles_apart(clusters, from, to, i, j);
    }
}

proof fn lemma_tiles_prefix(clusters: Seq<ClusterView>, from: int, to: int, i: int)
    requires
        tiles(clusters, from, to),
        0 <= i < clusters.len(),
    ensures
        from <= clusters[i].start,
    decreases i,
{
    if i > 0 {
        lemma_tiles_prefix(clusters, from, to, i - 1);
        assert(clusters[i - 1].end == clusters[i].start);
    }
}

proof fn lemma_tiles_suffix(clusters: Seq<ClusterView>, from: int, to: int, i: int)
    requires
        tiles(clusters, from, to),
        0 <= i < clusters.len(),
    ensures
        clusters[i].end <= to,
    decreases clusters.len() - i,
{
    if i + 1 < clusters.len() {
        lemma_tiles_suffix(clusters, from, to, i + 1);
        assert(clusters[i].end == clusters[i + 1].start);
    }
}

proof fn lemma_tiles_apart(clusters: Seq<ClusterView>, from: int, to: int, i: int, j: int)
    requires
        tiles(clusters, from, to),
        0 <= i < j < clusters.len(),
    ensures
        clusters[i].end <= clusters[j].start,
    decreases j - i,
{
    if i + 1 < j {
        lemma_tiles_apart(clusters, from, to, i, j - 1);
        assert(clusters[j - 1].end == clusters[j].start);
    } else {
        assert(clusters[i].end == clusters[j].start);
    }
}

/// Shapes the codepoints of `run` and pushes their clusters onto `out`.
fn shape_into(
    out: &mut Vec<GlyphCluster>,
    text: &Vec<char>,
    run: &StyleRun,
    index: usize,
    fonts: &FontResolver,
)
    requires
        run.start <= run.end <= text@.len(),
    ensures
        stream_view(final(out)@) == stream_view(old(out)@) + shape_run(text@, *run, index, *fonts),
{
    let font = fonts.resolve(&run.style.family, run.style.weight, run.style.slant);
    let face = fonts.face(font);
    let limit = run.end;
    let ascent = scale(face.ascent, run.style.size);
    let descent = scale(face.descent, run.style.size);
    let mut pos = run.start;
    assert(stream_view(old(out)@) + shape_run(text@, *run, index, *fonts) == stream_view(old(out)@)
        + shape_span(text@, run.style, index, font, *face, pos as int, limit as int));
    while pos < limit
        invariant
            run.start <= pos <= limit,
            limit == run.end,
            limit <= text@.len(),
            ascent == scaled(face.ascent, run.style.size),
            descent == scaled(face.descent, run.style.size),
            stream_view(out@) + shape_span(
                text@,
                run.style,
                index,
                font,
                *face,
                pos as int,
                limit as int,
            ) == stream_view(old(out)@) + shape_run(text@, *run, index, *fonts),
        decreases limit - pos,
    {
        let ghost before = stream_view(out@);
        let ghost here = cluster_at(text@, run.style, index, font, *face, pos as int, limit as int);
        let ghost rest = shape_span(
            text@,
            run.style,
            index,
            font,
            *face,
            pos + cluster_len(text@, *face, pos as int, limit as int),
            limit as int,
        );
        let first = text[pos];
        let mut joined: Option<GlyphMetrics> = None;
        if pos + 1 < limit && !separator(first) {
            let second = text[pos + 1];
            if !separator(second) {
                joined = face.ligature(first, second);
            }
        }
        assert(joined is Some == joins(text@, *face, pos as int, limit as int));
        let (glyphs, advance, len) = match joined {
            Some(m) => {
                let mut glyphs: Vec<u32> = Vec::new();
                glyphs.push(m.glyph);
                assert(glyphs@ == seq![m.glyph]);
                (glyphs, m.advance, 2usize)
            },
            None => {
                let (glyphs, advance) = face.glyphs_of(first);
                (glyphs, advance, 1usize)
            },
        };
        let cluster = GlyphCluster {
            glyphs,
            start: pos,
            end: pos + len,
            run: index,
            font,
            size: run.style.size,
            advance: scale(advance, run.style.size),
            ascent,
            descent,
            color: run.style.color,
            word_spacing: run.style.word_spacing,
            spacing: 0,
            boundary: false,
        };
        assert(cluster@ == here);
        proof {
            lemma_stream_view_push(out@, cluster);
        }
        out.push(cluster);
        pos = pos + len;
        assert(stream_view(out@) + rest == before + (seq![here] + rest));
    }
}

/// Shapes one run: resolves its face, falling back where none is registered,
/// and turns its codepoints into clusters under that face's metrics.
pub fn shape(text: &Vec<char>, run: &StyleRun, index: usize, fonts: &FontResolver) -> (clusters:
    Vec<GlyphCluster>)
    requires
        run.start <= run.end <= text@.len(),
    ensures
        stream_view(clusters@) == shape_run(text@, *run, index, *fonts),
        tiles(stream_view(clusters@), run.start as int, run.end as int),
        isolates_separators(text@, stream_view(clusters@)),
        forall|i: int|
            0 <= i < clusters@.len() ==> (#[trigger] clusters@[i]).run == index
                && clusters@[i].word_spacing == run.style.word_spacing && clusters@[i].glyphs@.len()
                > 0,
{
    let mut clusters: Vec<GlyphCluster> = Vec::new();
    shape_into(&mut clusters, text, run, index, fonts);
    proof {
        assert(text@.len() == text.len());
        let font = fonts.spec_resolve(run.style.family@, run.style.weight, run.style.slant);
        lemma_shape_span(
            text@,
            run.style,
            index,
            font,
            fonts.spec_face(font),
            run.start as int,
            run.end as int,
        );
        assert(stream_view(clusters@) == shape_run(text@, *run, index, *fonts));
        assert forall|i: int| 0 <= i < clusters@.len() implies (#[trigger] clusters@[i]).run
            == index && clusters@[i].word_spacing == run.style.word_spacing
            && clusters@[i].glyphs@.len() > 0 by {
            assert(stream_view(clusters@)[i] == clusters@[i]@);
        }
    }
    clusters
}

/// Shapes every run of the paragraph and merges the clusters in run order.
pub fn shape_paragraph(paragraph: &Paragraph, fonts: &FontResolver) -> (clusters: Vec<GlyphCluster>)
    requires
        paragraph.well_formed(),
    ensures
        stream_view(clusters@) == shape_all(paragraph.text_view(), paragraph.runs_view(), *fonts),
        tiles(stream_view(clusters@), 0, paragraph.text_view().len() as int),
        isolates_separators(paragraph.text_view(), stream_view(clusters@)),
        unspaced(stream_view(clusters@)),
{
    let text = paragraph.text();
    let runs = paragraph.runs();
    let mut clusters: Vec<GlyphCluster> = Vec::new();
    let count = runs.len();
    let mut r: usize = 0;
    while r < count
        invariant
            count == runs@.len(),
            r <= count,
            valid_partition(text@.len(), runs@),
            stream_view(clusters@) + shape_runs(text@, runs@, *fonts, r as int) == shape_all(
                text@,
                runs@,
                *fonts,
            ),
        decreases count - r,
    {
        let ghost before = stream_view(clusters@);
        let ghost head = shape_run(text@, runs@[r as int], r, *fonts);
        let ghost tail = shape_runs(text@, runs@, *fonts, r + 1);
        proof {
            lemma_partition_ordered(text@.len(), runs@, r as int);
        }
        shape_into(&mut clusters, text, &runs[r], r, fonts);
        r = r + 1;
        assert(stream_view(clusters@) + tail == before + (head + tail));
    }
    proof {
        assert(text@.len() == text.len());
        lemma_shape_runs(text@, runs@, *fonts, 0);
        assert(stream_view(clusters@) + Seq::<ClusterView>::empty() == stream_view(clusters@));
    }
    clusters
}

} // verus!
