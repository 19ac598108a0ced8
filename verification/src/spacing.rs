//! Word-spacing resolution: every word boundary of the buffer is looked up in
//! the merged cluster stream, and the cluster that holds it is widened by the
//! word spacing of its own run.

use vstd::prelude::*;
use crate::boundary::{is_separator, lemma_separators_skip, lemma_separators_upto, separator_count,
    separator_positions, separators_upto};
use crate::error::LayoutError;
use crate::shaper::{isolates_separators, lemma_tiles_within, stream_view,
    tiles, ClusterView, GlyphCluster};

verus! {

/// The cluster's codepoint range contains the index `b`.
pub open spec fn covers(c: ClusterView, b: usize) -> bool {
    c.start <= b < c.end
}

/// The cluster holds the codepoint at `b` and nothing else.
pub open spec fn isolates(c: ClusterView, b: usize) -> bool {
    c.start == b && c.end == b + 1
}

/// How many of the first `upto` clusters contain the index `b`.
pub open spec fn covering_upto(clusters: Seq<ClusterView>, b: usize, upto: int) -> nat
    decreases upto,
{
    if upto <= 0 {
        0
    } else {
        covering_upto(clusters, b, upto - 1) + if covers(clusters[upto - 1], b) {
            1nat
        } else {
            0nat
        }
    }
}

/// How many clusters of the stream contain the index `b`.
pub open spec fn covering_count(clusters: Seq<ClusterView>, b: usize) -> nat {
    covering_upto(clusters, b, clusters.len() as int)
}

/// The boundary at `b` resolves: exactly one cluster contains it, and that
/// cluster holds the separator alone.
pub open spec fn resolves(clusters: Seq<ClusterView>, b: usize) -> bool {
    &&& covering_count(clusters, b) == 1
    &&& forall|i: int|
        0 <= i < clusters.len() && covers(#[trigger] clusters[i], b) ==> isolates(clusters[i], b)
}

/// Every boundary resolves.
pub open spec fn resolvable(clusters: Seq<ClusterView>, boundaries: Seq<usize>) -> bool {
    forall|j: int| 0 <= j < boundaries.len() ==> resolves(clusters, #[trigger] boundaries[j])
}

/// The cluster contains one of the boundaries.
pub open spec fn on_boundary(c: ClusterView, boundaries: Seq<usize>) -> bool {
    exists|j: int| 0 <= j < boundaries.len() && covers(c, #[trigger] boundaries[j])
}

/// The cluster after resolution: on a boundary it is marked and widened by
/// the word spacing of its own run, elsewhere it has no extra advance.
pub open spec fn spaced(c: ClusterView, boundaries: Seq<usize>) -> ClusterView {
    if on_boundary(c, boundaries) {
        ClusterView { spacing: c.word_spacing, boundary: true, ..c }
    } else {
        ClusterView { spacing: 0, boundary: false, ..c }
    }
}

/// The stream after resolution, cluster by cluster.
pub open spec fn spaced_stream(clusters: Seq<ClusterView>, boundaries: Seq<usize>) -> Seq<
    ClusterView,
> {
    Seq::new(clusters.len(), |i: int| spaced(clusters[i], boundaries))
}

/// How many of the first `upto` clusters are marked as boundaries.
pub open spec fn boundary_count_upto(clusters: Seq<ClusterView>, upto: int) -> nat
    decreases upto,
{
    if upto <= 0 {
        0
    } else {
        boundary_count_upto(clusters, upto - 1) + if clusters[upto - 1].boundary {
            1nat
        } else {
            0nat
        }
    }
}

/// How many clusters of the stream received a spacing addition.
pub open spec fn boundary_count(clusters: Seq<ClusterView>) -> nat {
    boundary_count_upto(clusters, clusters.len() as int)
}

/// In a tiling that starts at 0, the first `k` clusters contain an index
/// once if it lies below their end, and not at all otherwise.
pub proof fn lemma_covering_tiles(clusters: Seq<ClusterView>, to: int, b: usize, k: int)
    requires
        tiles(clusters, 0, to),
        0 <= k <= clusters.len(),
    ensures
        covering_upto(clusters, b, k) == if k > 0 && b < clusters[k - 1].end {
            1nat
        } else {
            0nat
        },
    decreases k,
{
    if k > 0 {
        lemma_covering_tiles(clusters, to, b, k - 1);
        if k > 1 {
            assert(clusters[k - 2].end == clusters[k - 1].start);
        }
        assert(clusters[k - 1].start < clusters[k - 1].end);
    }
}

/// A stream that tiles the text and isolates its separators resolves every
/// separator of the text, and its clusters on a boundary are those that
/// start with a separator.
pub proof fn lemma_shaped_resolvable(text: Seq<char>, clusters: Seq<ClusterView>)
    requires
        text.len() <= usize::MAX,
        tiles(clusters, 0, text.len() as int),
        isolates_separators(text, clusters),
    ensures
        resolvable(clusters, separator_positions(text)),
        forall|i: int|
            0 <= i < clusters.len() ==> on_boundary(
                #[trigger] clusters[i],
                separator_positions(text),
            ) == is_separator(text[clusters[i].start as int]),
{
    let positions = separator_positions(text);
    lemma_separators_upto(text, text.len() as int);
    lemma_tiles_within(clusters, 0, text.len() as int);
    assert forall|j: int| 0 <= j < positions.len() implies resolves(
        clusters,
        #[trigger] positions[j],
    ) by {
        let b = positions[j];
        lemma_covering_tiles(clusters, text.len() as int, b, clusters.len() as int);
        assert forall|i: int| 0 <= i < clusters.len() && covers(#[trigger] clusters[i], b) implies
            isolates(clusters[i], b) by {
            let c = clusters[i];
            if !is_separator(text[c.start as int]) {
                assert(!is_separator(text[b as int]));
            }
        }
    }
    assert forall|i: int| 0 <= i < clusters.len() implies on_boundary(
        #[trigger] clusters[i],
        positions,
    ) == is_separator(text[clusters[i].start as int]) by {
        let c = clusters[i];
        if is_separator(text[c.start as int]) {
            assert(positions.contains(c.start));
            let j = choose|j: int| 0 <= j < positions.len() && positions[j] == c.start;
            assert(covers(c, positions[j]));
        } else if on_boundary(c, positions) {
            let j = choose|j: int| 0 <= j < positions.len() && covers(c, #[trigger] positions[j]);
            assert(is_separator(text[positions[j] as int]));
            assert(false);
        }
    }
}

/// In a stream that tiles the text and isolates its separators, and whose
/// boundary marks sit exactly on the clusters that start with a separator,
/// the marks among the first `k` clusters are as many as the separators
/// that those clusters cover.
pub proof fn lemma_boundary_count_upto(text: Seq<char>, clusters: Seq<ClusterView>, k: int)
    requires
        text.len() <= usize::MAX,
        tiles(clusters, 0, text.len() as int),
        isolates_separators(text, clusters),
        forall|i: int|
            0 <= i < clusters.len() ==> (#[trigger] clusters[i]).boundary == is_separator(
                text[clusters[i].start as int],
            ),
        0 <= k <= clusters.len(),
    ensures
        boundary_count_upto(clusters, k) == separators_upto(
            text,
            if k == 0 {
                0
            } else {
                clusters[k - 1].end as int
            },
        ).len(),
    decreases k,
{
    if k > 0 {
        lemma_boundary_count_upto(text, clusters, k - 1);
        let c = clusters[k - 1];
        if k > 1 {
            assert(clusters[k - 2].end == c.start);
        }
        assert(c.start < c.end);
        if is_separator(text[c.start as int]) {
            assert(separators_upto(text, c.end as int) == separators_upto(
                text,
                c.start as int,
            ).push(c.start));
        } else {
            lemma_separators_skip(text, c.start as int, c.end as int);
        }
    }
}

/// Resolution keeps every codepoint range, so the stream still tiles the
/// text and isolates its separators.
pub proof fn lemma_spaced_keeps_ranges(
    text: Seq<char>,
    clusters: Seq<ClusterView>,
    boundaries: Seq<usize>,
    from: int,
    to: int,
)
    requires
        tiles(clusters, from, to),
        isolates_separators(text, clusters),
    ensures
        tiles(spaced_stream(clusters, boundaries), from, to),
        isolates_separators(text, spaced_stream(clusters, boundaries)),
{
    let out = spaced_stream(clusters, boundaries);
    assert forall|i: int| 0 <= i < out.len() implies (#[trigger] out[i]).start == clusters[i].start
        && out[i].end == clusters[i].end by {}
    assert forall|i: int, j: int| 0 <= i && j == i + 1 && j < out.len() implies (
    #[trigger] out[i]).end == (#[trigger] out[j]).start by {
        assert(clusters[i].end == clusters[j].start);
    }
    assert forall|i: int| 0 <= i < out.len() implies {
        let c = #[trigger] out[i];
        &&& c.start < c.end
        &&& c.end <= text.len()
        &&& is_separator(text[c.start as int]) ==> c.end == c.start + 1
        &&& !is_separator(text[c.start as int]) ==> forall|p: int|
            c.start <= p < c.end ==> !is_separator(#[trigger] text[p])
    } by {
        assert(out[i].start == clusters[i].start);
    }
}

/// After resolution against the separators of the text, a stream that tiles
/// the text and isolates its separators holds exactly as many marked
/// clusters as the text holds separators.
pub proof fn lemma_boundary_count(text: Seq<char>, clusters: Seq<ClusterView>)
    requires
        text.len() <= usize::MAX,
        tiles(clusters, 0, text.len() as int),
        isolates_separators(text, clusters),
    ensures
        boundary_count(spaced_stream(clusters, separator_positions(text))) == separator_count(text),
{
    let positions = separator_positions(text);
    let out = spaced_stream(clusters, positions);
    lemma_shaped_resolvable(text, clusters);
    lemma_spaced_keeps_ranges(text, clusters, positions, 0, text.len() as int);
    assert forall|i: int| 0 <= i < out.len() implies (#[trigger] out[i]).boundary == is_separator(
        text[out[i].start as int],
    ) by {
        assert(out[i] == spaced(clusters[i], positions));
    }
    lemma_boundary_count_upto(text, out, out.len() as int);
}

/// Whether the boundary at `b` resolves in the stream.
fn resolves_in(clusters: &Vec<GlyphCluster>, b: usize) -> (ok: bool)
    ensures
        ok == resolves(stream_view(clusters@), b),
{
    let ghost stream = stream_view(clusters@);
    let n = clusters.len();
    let mut count: usize = 0;
    let mut alone = true;
    let mut i: usize = 0;
    while i < n
        invariant
            n == clusters@.len(),
            stream == stream_view(clusters@),
            i <= n,
            count == covering_upto(stream, b, i as int),
            count <= i,
            alone == forall|k: int|
                0 <= k < i && covers(#[trigger] stream[k], b) ==> isolates(stream[k], b),
        decreases n - i,
    {
        let c = &clusters[i];
        assert(stream[i as int] == c@);
        if c.start <= b && b < c.end {
            count = count + 1;
            if !(c.start == b && c.end - c.start == 1) {
                alone = false;
            }
        }
        i = i + 1;
    }
    count == 1 && alone
}

/// Whether the cluster contains one of the boundaries.
fn sits_on_boundary(c: &GlyphCluster, boundaries: &Vec<usize>) -> (hit: bool)
    ensures
        hit == on_boundary(c@, boundaries@),
{
    let n = boundaries.len();
    let mut j: usize = 0;
    while j < n
        invariant
            n == boundaries@.len(),
            j <= n,
            forall|k: int| 0 <= k < j ==> !covers(c@, #[trigger] boundaries@[k]),
        decreases n - j,
    {
        let b = boundaries[j];
        if c.start <= b && b < c.end {
            return true;
        }
        j = j + 1;
    }
    false
}

/// Applies word spacing to the merged cluster stream.
///
/// Each boundary index must resolve to exactly one cluster, whichever run
/// produced it, and that cluster must hold the separator alone; otherwise
/// the stream and the boundaries disagree and nothing is returned. On
/// success every cluster on a boundary is marked and its `spacing` is the
/// word spacing of its own run; every other cluster has no extra advance.
/// The advance of a cluster in its line is its `advance` and its `spacing`.
pub fn resolve(clusters: &Vec<GlyphCluster>, boundaries: &Vec<usize>) -> (r: Result<
    Vec<GlyphCluster>,
    LayoutError,
>)
    ensures
        match r {
            Ok(adjusted) => resolvable(stream_view(clusters@), boundaries@) && stream_view(
                adjusted@,
            ) == spaced_stream(stream_view(clusters@), boundaries@),
            Err(e) => e == LayoutError::ClusterBoundaryMismatch && !resolvable(
                stream_view(clusters@),
                boundaries@,
            ),
        },
{
    let ghost stream = stream_view(clusters@);
    let count = boundaries.len();
    let mut j: usize = 0;
    while j < count
        invariant
            count == boundaries@.len(),
            stream == stream_view(clusters@),
            j <= count,
            forall|k: int| 0 <= k < j ==> resolves(stream, #[trigger] boundaries@[k]),
        decreases count - j,
    {
        if !resolves_in(clusters, boundaries[j]) {
            return Err(LayoutError::ClusterBoundaryMismatch);
        }
        j = j + 1;
    }
    let n = clusters.len();
    let mut adjusted: Vec<GlyphCluster> = Vec::new();
    let mut i: usize = 0;
    while i < n
        invariant
            n == clusters@.len(),
            stream == stream_view(clusters@),
            i <= n,
            adjusted@.len() == i,
            forall|k: int|
                0 <= k < i ==> (#[trigger] adjusted@[k])@ == spaced(stream[k], boundaries@),
        decreases n - i,
    {
        let c = &clusters[i];
        assert(stream[i as int] == c@);
        let hit = sits_on_boundary(c, boundaries);
        let mut cluster = c.clone();
        cluster.spacing = if hit {
            c.word_spacing
        } else {
            0
        };
        cluster.boundary = hit;
        assert(cluster@ == spaced(c@, boundaries@));
        adjusted.push(cluster);
        i = i + 1;
    }
    assert(stream_view(adjusted@) =~= spaced_stream(stream, boundaries@));
    Ok(adjusted)
}

} // verus!
