//! The surface a painter needs: every glyph of a layout with its position,
//! its font and its colour.

use vstd::prelude::*;
use crate::font::FontHandle;
use crate::line_breaker::{lemma_span_width_bound, span_width, LineView, ParagraphLayout};
use crate::shaper::{stream_view, ClusterView};

verus! {

/// One glyph, placed. `x` is the left edge of its cluster from the left edge
/// of the paragraph, `y` the baseline of its line from the top; `font` and
/// `size` say what to draw it with. The glyphs of one cluster share the
/// origin of the cluster.
#[derive(Clone, Copy, Debug, PartialEq, Eq, Structural)]
pub struct PositionedGlyph {
    pub glyph: u32,
    pub x: u128,
    pub y: u128,
    pub font: FontHandle,
    pub size: u16,
    pub color: u32,
}

/// The height of the first `k` lines, each as tall as its ascent and descent.
pub open spec fn height_upto(lines: Seq<LineView>, k: int) -> int
    decreases k,
{
    if k <= 0 {
        0
    } else {
        height_upto(lines, k - 1) + lines[k - 1].ascent + lines[k - 1].descent
    }
}

/// The baseline of line `k`: the height of the lines above it and its own ascent.
pub open spec fn baseline(lines: Seq<LineView>, k: int) -> int {
    height_upto(lines, k) + lines[k].ascent
}

/// The glyphs of one cluster whose origin is at `(x, y)`.
pub open spec fn cluster_glyphs(c: ClusterView, x: int, y: int) -> Seq<PositionedGlyph> {
    Seq::new(
        c.glyphs.len(),
        |g: int|
            PositionedGlyph {
                glyph: c.glyphs[g],
                x: x as u128,
                y: y as u128,
                font: c.font,
                size: c.size,
                color: c.color,
            },
    )
}

/// The glyphs of the first `j` clusters of a line whose baseline is at `y`.
/// Each cluster starts where the advances of the clusters before it end.
pub open spec fn line_glyphs_upto(clusters: Seq<ClusterView>, y: int, j: int) -> Seq<
    PositionedGlyph,
>
    decreases j,
{
    if j <= 0 {
        Seq::empty()
    } else {
        line_glyphs_upto(clusters, y, j - 1) + cluster_glyphs(
            clusters[j - 1],
            span_width(clusters, 0, j - 1),
            y,
        )
    }
}

/// The glyphs of one line, left to right.
pub open spec fn line_glyphs(clusters: Seq<ClusterView>, y: int) -> Seq<PositionedGlyph> {
    line_glyphs_upto(clusters, y, clusters.len() as int)
}

/// The glyphs of the first `k` lines, line by line.
pub open spec fn glyphs_upto(lines: Seq<LineView>, k: int) -> Seq<PositionedGlyph>
    decreases k,
{
    if k <= 0 {
        Seq::empty()
    } else {
        glyphs_upto(lines, k - 1) + line_glyphs(lines[k - 1].clusters, baseline(lines, k - 1))
    }
}

/// The glyphs of a layout in painting order.
pub open spec fn positioned_glyphs(lines: Seq<LineView>) -> Seq<PositionedGlyph> {
    glyphs_upto(lines, lines.len() as int)
}

/// The first `k` lines are at most `k` times as tall as the tallest possible line.
pub proof fn lemma_height_bound(lines: Seq<LineView>, k: int)
    requires
        0 <= k,
    ensures
        0 <= height_upto(lines, k) <= k * 0x1_ffff_fffe,
    decreases k,
{
    if k > 0 {
        lemma_height_bound(lines, k - 1);
    }
}

/// Lays the glyphs of a layout out for a painter: line by line and left to
/// right, each with its absolute position, its font and its colour.
pub fn glyph_stream(layout: &ParagraphLayout) -> (glyphs: Vec<PositionedGlyph>)
    ensures
        glyphs@ == positioned_glyphs(layout@),
{
    let mut glyphs: Vec<PositionedGlyph> = Vec::new();
    let count = layout.lines.len();
    let mut top: u128 = 0;
    let mut k: usize = 0;
    while k < count
        invariant
            count == layout.lines@.len(),
            layout@.len() == count,
            k <= count,
            top == height_upto(layout@, k as int),
            glyphs@ == glyphs_upto(layout@, k as int),
        decreases count - k,
    {
        proof {
            lemma_height_bound(layout@, k as int);
        }
        let line = &layout.lines[k];
        assert(line@ == layout@[k as int]);
        let ghost held = stream_view(line.clusters@);
        let y = top + line.ascent as u128;
        let ghost above = glyphs@;
        let n = line.clusters.len();
        let mut x: u128 = 0;
        let mut j: usize = 0;
        assert(glyphs@ =~= above + line_glyphs_upto(held, y as int, 0));
        while j < n
            invariant
                n == line.clusters@.len(),
                held == stream_view(line.clusters@),
                j <= n,
                x == span_width(held, 0, j as int),
                glyphs@ == above + line_glyphs_upto(held, y as int, j as int),
            decreases n - j,
        {
            proof {
                lemma_span_width_bound(held, 0, j as int);
            }
            let c = &line.clusters[j];
            assert(held[j as int] == c@);
            let ghost left = glyphs@;
            let ghost here = cluster_glyphs(c@, x as int, y as int);
            let m = c.glyphs.len();
            let mut g: usize = 0;
            assert(glyphs@ =~= left + here.subrange(0, 0));
            while g < m
                invariant
                    m == c.glyphs@.len(),
                    here == cluster_glyphs(c@, x as int, y as int),
                    g <= m,
                    glyphs@ == left + here.subrange(0, g as int),
                decreases m - g,
            {
                glyphs.push(
                    PositionedGlyph {
                        glyph: c.glyphs[g],
                        x,
                        y,
                        font: c.font,
                        size: c.size,
                        color: c.color,
                    },
                );
                g = g + 1;
                assert(glyphs@ =~= left + here.subrange(0, g as int));
            }
            assert(here.subrange(0, m as int) == here);
            assert(glyphs@ =~= above + (line_glyphs_upto(held, y as int, j as int) + here));
            x = x + c.advance as u128 + c.spacing as u128;
            j = j + 1;
        }
        top = top + line.ascent as u128 + line.descent as u128;
        k = k + 1;
    }
    glyphs
}

} // verus!
