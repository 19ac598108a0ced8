//! Greedy line breaking over the spaced cluster stream. A line may end only
//! in front of a word, never inside one; a word that does not fit on any
//! line gets a line of its own and overflows it.

use vstd::prelude::*;
use crate::shaper::{lemma_stream_view_push, stream_view, ClusterView, GlyphCluster};

verus! {

/// One line of a laid-out paragraph.
#[derive(Clone, Debug, PartialEq, Eq)]
pub struct Line {
    pub clusters: Vec<GlyphCluster>,
    /// The sum of the advances of the clusters, spacing included.
    pub width: u128,
    /// The largest ascent among the clusters.
    pub ascent: u32,
    /// The largest descent among the clusters.
    pub descent: u32,
}

/// The mathematical value of a [`Line`].
pub ghost struct LineView {
    pub clusters: Seq<ClusterView>,
    pub width: int,
    pub ascent: u32,
    pub descent: u32,
}

impl View for Line {
    type V = LineView;

    open spec fn view(&self) -> LineView {
        LineView {
            clusters: stream_view(self.clusters@),
            width: self.width as int,
            ascent: self.ascent,
            descent: self.descent,
        }
    }
}

/// The lines of a paragraph, top to bottom.
#[derive(Clone, Debug, PartialEq, Eq)]
pub struct ParagraphLayout {
    pub lines: Vec<Line>,
}

impl View for ParagraphLayout {
    type V = Seq<LineView>;

    open spec fn view(&self) -> Seq<LineView> {
        self.lines@.map_values(|line: Line| line@)
    }
}

/// What a cluster adds to the width of its line.
pub open spec fn total_advance(c: ClusterView) -> int {
    c.advance + c.spacing
}

/// The width of the clusters `[from, to)`.
pub open spec fn span_width(clusters: Seq<ClusterView>, from: int, to: int) -> int
    decreases to - from,
{
    if to <= from {
        0
    } else {
        span_width(clusters, from, to - 1) + total_advance(clusters[to - 1])
    }
}

/// The largest ascent among the clusters `[from, to)`.
pub open spec fn span_ascent(clusters: Seq<ClusterView>, from: int, to: int) -> u32
    decreases to - from,
{
    if to <= from {
        0
    } else if clusters[to - 1].ascent > span_ascent(clusters, from, to - 1) {
        clusters[to - 1].ascent
    } else {
        span_ascent(clusters, from, to - 1)
    }
}

/// The largest descent among the clusters `[from, to)`.
pub open spec fn span_descent(clusters: Seq<ClusterView>, from: int, to: int) -> u32
    decreases to - from,
{
    if to <= from {
        0
    } else if clusters[to - 1].descent > span_descent(clusters, from, to - 1) {
        clusters[to - 1].descent
    } else {
        span_descent(clusters, from, to - 1)
    }
}

/// A word starts at `pos`: the cluster there is no boundary, and it is the
/// first of the stream or follows a boundary.
pub open spec fn starts_word(clusters: Seq<ClusterView>, pos: int) -> bool {
    &&& 0 <= pos < clusters.len()
    &&& !clusters[pos].boundary
    &&& pos == 0 || clusters[pos - 1].boundary
}

/// The end of the word that holds `pos`: the next boundary cluster at or
/// after `pos`, or the end of the stream.
pub open spec fn word_end(clusters: Seq<ClusterView>, pos: int) -> int
    decreases clusters.len() - pos,
{
    if pos < 0 || pos >= clusters.len() || clusters[pos].boundary {
        pos
    } else {
        word_end(clusters, pos + 1)
    }
}

/// The line that starts at `start` cannot take the word that starts at
/// `pos`: with it the line would be wider than `max_width`. The first word
/// of a line is always taken.
pub open spec fn overflows(clusters: Seq<ClusterView>, max_width: u64, start: int, pos: int) -> bool {
    &&& start < pos
    &&& starts_word(clusters, pos)
    &&& span_width(clusters, start, word_end(clusters, pos)) > max_width
}

/// The first position at or after `pos` where the line from `start` breaks.
pub open spec fn line_end_from(
    clusters: Seq<ClusterView>,
    max_width: u64,
    start: int,
    pos: int,
) -> int
    decreases clusters.len() - pos,
{
    if pos >= clusters.len() {
        clusters.len() as int
    } else if overflows(clusters, max_width, start, pos) {
        pos
    } else {
        line_end_from(clusters, max_width, start, pos + 1)
    }
}

/// The end of the line that starts at `start`: the first word start behind
/// `start` whose word no longer fits, or the end of the stream.
pub open spec fn line_end(clusters: Seq<ClusterView>, max_width: u64, start: int) -> int {
    line_end_from(clusters, max_width, start, start + 1)
}

/// The line that holds exactly these clusters: its width is the sum of
/// their advances, its ascent and descent the largest among them.
pub open spec fn measured(held: Seq<ClusterView>) -> LineView {
    LineView {
        clusters: held,
        width: span_width(held, 0, held.len() as int),
        ascent: span_ascent(held, 0, held.len() as int),
        descent: span_descent(held, 0, held.len() as int),
    }
}

/// The line made of the clusters `[from, to)` of the stream.
pub open spec fn line_of(clusters: Seq<ClusterView>, from: int, to: int) -> LineView {
    measured(clusters.subrange(from, to))
}

/// The lines of the stream from `start` on.
pub open spec fn lines_from(clusters: Seq<ClusterView>, max_width: u64, start: int) -> Seq<
    LineView,
>
    decreases clusters.len() - start,
{
    if start < 0 || start >= clusters.len() {
        Seq::empty()
    } else {
        proof {
            lemma_line_end_from_bounds(clusters, max_width, start, start + 1);
        }
        seq![line_of(clusters, start, line_end(clusters, max_width, start))] + lines_from(
            clusters,
            max_width,
            line_end(clusters, max_width, start),
        )
    }
}

/// The greedy layout of the whole stream.
pub open spec fn greedy_lines(clusters: Seq<ClusterView>, max_width: u64) -> Seq<LineView> {
    lines_from(clusters, max_width, 0)
}

/// A line end lies at or behind the position the search started from, and
/// within the stream.
pub proof fn lemma_line_end_from_bounds(
    clusters: Seq<ClusterView>,
    max_width: u64,
    start: int,
    pos: int,
)
    requires
        pos <= clusters.len(),
    ensures
        pos <= line_end_from(clusters, max_width, start, pos) <= clusters.len(),
    decreases clusters.len() - pos,
{
    if pos < clusters.len() && !overflows(clusters, max_width, start, pos) {
        lemma_line_end_from_bounds(clusters, max_width, start, pos + 1);
    }
}

/// The first `m` clusters of a subrange measure what the same clusters
/// measure in the stream.
pub proof fn lemma_span_shift(clusters: Seq<ClusterView>, from: int, to: int, m: int)
    requires
        0 <= from,
        0 <= m,
        from + m <= to <= clusters.len(),
    ensures
        span_width(clusters.subrange(from, to), 0, m) == span_width(clusters, from, from + m),
        span_ascent(clusters.subrange(from, to), 0, m) == span_ascent(clusters, from, from + m),
        span_descent(clusters.subrange(from, to), 0, m) == span_descent(clusters, from, from + m),
    decreases m,
{
    if m > 0 {
        lemma_span_shift(clusters, from, to, m - 1);
        assert(clusters.subrange(from, to)[m - 1] == clusters[from + m - 1]);
    }
}

/// The width of a span is the sum of the widths of its two parts.
pub proof fn lemma_span_width_split(clusters: Seq<ClusterView>, from: int, mid: int, to: int)
    requires
        from <= mid <= to,
    ensures
        span_width(clusters, from, to) == span_width(clusters, from, mid) + span_width(
            clusters,
            mid,
            to,
        ),
    decreases to - mid,
{
    if mid < to {
        lemma_span_width_split(clusters, from, mid, to - 1);
    }
}

/// A span of `n` clusters is at most `n` times the widest possible cluster.
pub proof fn lemma_span_width_bound(clusters: Seq<ClusterView>, from: int, to: int)
    requires
        from <= to,
    ensures
        0 <= span_width(clusters, from, to) <= (to - from) * 0x1_ffff_fffe,
    decreases to - from,
{
    if from < to {
        lemma_span_width_bound(clusters, from, to - 1);
    }
}

/// The start of line `k` of the greedy layout, counted from 0; the end of
/// the stream for every `k` behind the last line.
pub open spec fn line_start(clusters: Seq<ClusterView>, max_width: u64, k: int) -> int
    decreases k,
{
    if k <= 0 {
        0
    } else if line_start(clusters, max_width, k - 1) >= clusters.len() {
        clusters.len() as int
    } else {
        line_end(clusters, max_width, line_start(clusters, max_width, k - 1))
    }
}

/// Where the search from `pos` ends, no word start between `pos` and the
/// end overflows the line, and the end is the end of the stream or a word
/// start that overflows it.
pub proof fn lemma_line_end_from(clusters: Seq<ClusterView>, max_width: u64, start: int, pos: int)
    requires
        pos <= clusters.len(),
    ensures
        pos <= line_end_from(clusters, max_width, start, pos) <= clusters.len(),
        line_end_from(clusters, max_width, start, pos) < clusters.len() ==> overflows(
            clusters,
            max_width,
            start,
            line_end_from(clusters, max_width, start, pos),
        ),
        forall|q: int|
            pos <= q < line_end_from(clusters, max_width, start, pos) ==> !overflows(
                clusters,
                max_width,
                start,
                q,
            ),
    decreases clusters.len() - pos,
{
    if pos < clusters.len() && !overflows(clusters, max_width, start, pos) {
        lemma_line_end_from(clusters, max_width, start, pos + 1);
    }
}

/// A word ends at or behind where it is entered, holds no boundary, and
/// is followed by a boundary or by the end of the stream.
pub proof fn lemma_word_end(clusters: Seq<ClusterView>, pos: int)
    requires
        0 <= pos <= clusters.len(),
    ensures
        pos <= word_end(clusters, pos) <= clusters.len(),
        forall|t: int| pos <= t < word_end(clusters, pos) ==> !(#[trigger] clusters[t]).boundary,
        word_end(clusters, pos) < clusters.len() ==> clusters[word_end(clusters, pos)].boundary,
    decreases clusters.len() - pos,
{
    if pos < clusters.len() && !clusters[pos].boundary {
        lemma_word_end(clusters, pos + 1);
    }
}

/// A word ends at or before the first boundary behind its start.
pub proof fn lemma_word_end_before(clusters: Seq<ClusterView>, pos: int, b: int)
    requires
        0 <= pos <= b < clusters.len(),
        clusters[b].boundary,
    ensures
        word_end(clusters, pos) <= b,
    decreases b - pos,
{
    if pos < b && !clusters[pos].boundary {
        lemma_word_end_before(clusters, pos + 1, b);
    }
}

/// A span is at least as wide as any span within it.
pub proof fn lemma_span_width_mono(clusters: Seq<ClusterView>, a: int, b: int, c: int, d: int)
    requires
        a <= b <= c <= d,
    ensures
        span_width(clusters, b, c) <= span_width(clusters, a, d),
{
    lemma_span_width_split(clusters, a, b, d);
    lemma_span_width_split(clusters, b, c, d);
    lemma_span_width_bound(clusters, a, b);
    lemma_span_width_bound(clusters, c, d);
}

/// Line starts lie within the stream and grow strictly until they reach its
/// end; every line start but the first is the start of a word.
pub proof fn lemma_line_start(clusters: Seq<ClusterView>, max_width: u64, k: int)
    requires
        0 <= k,
    ensures
        0 <= line_start(clusters, max_width, k) <= clusters.len(),
        line_start(clusters, max_width, k) <= line_start(clusters, max_width, k + 1)
            <= clusters.len(),
        line_start(clusters, max_width, k) < clusters.len() ==> line_start(clusters, max_width, k)
            < line_start(clusters, max_width, k + 1) && line_start(clusters, max_width, k + 1)
            == line_end(clusters, max_width, line_start(clusters, max_width, k)),
        0 < k && line_start(clusters, max_width, k) < clusters.len() ==> starts_word(
            clusters,
            line_start(clusters, max_width, k),
        ),
    decreases k,
{
    if k > 0 {
        lemma_line_start(clusters, max_width, k - 1);
        let before = line_start(clusters, max_width, k - 1);
        if before < clusters.len() {
            lemma_line_end_from(clusters, max_width, before, before + 1);
        }
    }
    let here = line_start(clusters, max_width, k);
    if here < clusters.len() {
        lemma_line_end_from(clusters, max_width, here, here + 1);
    }
}

/// Line `k` of the lines that follow line start `j` holds the clusters
/// between line start `j + k` and the next line start.
pub proof fn lemma_lines_from(clusters: Seq<ClusterView>, max_width: u64, j: int, k: int)
    requires
        0 <= j,
        0 <= k < lines_from(clusters, max_width, line_start(clusters, max_width, j)).len(),
    ensures
        line_start(clusters, max_width, j + k) < clusters.len(),
        lines_from(clusters, max_width, line_start(clusters, max_width, j))[k] == line_of(
            clusters,
            line_start(clusters, max_width, j + k),
            line_start(clusters, max_width, j + k + 1),
        ),
    decreases k,
{
    let start = line_start(clusters, max_width, j);
    lemma_line_start(clusters, max_width, j);
    let next = line_end(clusters, max_width, start);
    let rest = lines_from(clusters, max_width, next);
    assert(lines_from(clusters, max_width, start) == seq![line_of(clusters, start, next)] + rest);
    if k > 0 {
        assert(lines_from(clusters, max_width, start)[k] == rest[k - 1]);
        lemma_lines_from(clusters, max_width, j + 1, k - 1);
    }
}

/// The lines that follow line start `j` are as many as the line starts
/// from `j` on that lie within the stream.
pub proof fn lemma_lines_count(clusters: Seq<ClusterView>, max_width: u64, j: int)
    requires
        0 <= j,
    ensures
        line_start(
            clusters,
            max_width,
            j + lines_from(clusters, max_width, line_start(clusters, max_width, j)).len(),
        ) == clusters.len(),
    decreases clusters.len() - line_start(clusters, max_width, j),
{
    let start = line_start(clusters, max_width, j);
    lemma_line_start(clusters, max_width, j);
    if start < clusters.len() {
        let next = line_end(clusters, max_width, start);
        let rest = lines_from(clusters, max_width, next);
        assert(lines_from(clusters, max_width, start) == seq![line_of(clusters, start, next)]
            + rest);
        lemma_lines_count(clusters, max_width, j + 1);
    }
}

/// The lines cut the stream at its line starts: line `k` holds the clusters
/// from line start `k` up to line start `k + 1`, no line is empty, and the
/// last line ends where the stream ends.
pub open spec fn cut_at_line_starts(
    clusters: Seq<ClusterView>,
    max_width: u64,
    lines: Seq<LineView>,
) -> bool {
    &&& forall|k: int|
        0 <= k < lines.len() ==> {
            &&& #[trigger] lines[k] == line_of(
                clusters,
                line_start(clusters, max_width, k),
                line_start(clusters, max_width, k + 1),
            )
            &&& line_start(clusters, max_width, k) < line_start(clusters, max_width, k + 1)
                <= clusters.len()
        }
    &&& line_start(clusters, max_width, lines.len() as int) == clusters.len()
}

/// The greedy layout cuts the stream at its line starts, so every cluster
/// is on exactly one line and the lines keep the order of the stream.
pub proof fn lemma_lines_cover_stream(clusters: Seq<ClusterView>, max_width: u64)
    ensures
        cut_at_line_starts(clusters, max_width, greedy_lines(clusters, max_width)),
{
    let lines = greedy_lines(clusters, max_width);
    assert forall|k: int| 0 <= k < lines.len() implies {
        &&& #[trigger] lines[k] == line_of(
            clusters,
            line_start(clusters, max_width, k),
            line_start(clusters, max_width, k + 1),
        )
        &&& line_start(clusters, max_width, k) < line_start(clusters, max_width, k + 1)
            <= clusters.len()
    } by {
        lemma_lines_from(clusters, max_width, 0, k);
        lemma_line_start(clusters, max_width, k);
    }
    lemma_lines_count(clusters, max_width, 0);
}

/// No line breaks inside a word: every line after the first starts with
/// the first cluster of a word, right behind a boundary cluster.
pub proof fn lemma_no_mid_word_break(clusters: Seq<ClusterView>, max_width: u64, k: int)
    requires
        0 < k < greedy_lines(clusters, max_width).len(),
    ensures
        starts_word(clusters, line_start(clusters, max_width, k)),
        clusters[line_start(clusters, max_width, k) - 1].boundary,
        !clusters[line_start(clusters, max_width, k)].boundary,
{
    lemma_lines_from(clusters, max_width, 0, k);
    lemma_line_start(clusters, max_width, k);
    lemma_line_start(clusters, max_width, k - 1);
}

/// A word wider than `max_width` has a line of its own and is not split:
/// it starts its line, ends within it, and no other word starts on it.
pub proof fn lemma_wide_word_alone(clusters: Seq<ClusterView>, max_width: u64, k: int, q: int)
    requires
        0 <= k < greedy_lines(clusters, max_width).len(),
        line_start(clusters, max_width, k) <= q < line_start(clusters, max_width, k + 1),
        starts_word(clusters, q),
        span_width(clusters, q, word_end(clusters, q)) > max_width,
    ensures
        q == line_start(clusters, max_width, k),
        word_end(clusters, q) <= line_start(clusters, max_width, k + 1),
        forall|other: int|
            line_start(clusters, max_width, k) <= other < line_start(clusters, max_width, k + 1)
                && starts_word(clusters, other) ==> other == q,
{
    let start = line_start(clusters, max_width, k);
    let end = line_start(clusters, max_width, k + 1);
    lemma_lines_from(clusters, max_width, 0, k);
    lemma_line_start(clusters, max_width, k);
    lemma_line_end_from(clusters, max_width, start, start + 1);
    lemma_word_end(clusters, q);
    if q > start {
        assert(!overflows(clusters, max_width, start, q));
        lemma_span_width_mono(clusters, start, q, word_end(clusters, q), word_end(clusters, q));
        assert(false);
    }
    if end < clusters.len() {
        assert(overflows(clusters, max_width, start, end));
        lemma_word_end_before(clusters, q, end - 1);
    }
    assert forall|other: int| start <= other < end && starts_word(clusters, other) implies other
        == q by {
        if other > start {
            assert(!overflows(clusters, max_width, start, other));
            lemma_word_end(clusters, other);
            lemma_word_end_before(clusters, q, other - 1);
            lemma_span_width_mono(
                clusters,
                start,
                q,
                word_end(clusters, q),
                word_end(clusters, other),
            );
            assert(false);
        }
    }
}

/// The cluster index `q` lies on line `k` of the greedy layout.
pub open spec fn on_line(clusters: Seq<ClusterView>, max_width: u64, k: int, q: int) -> bool {
    line_start(clusters, max_width, k) <= q < line_start(clusters, max_width, k + 1)
}

/// Every line after the first starts with the first cluster of a word.
pub open spec fn breaks_before_words(clusters: Seq<ClusterView>, max_width: u64) -> bool {
    forall|k: int|
        0 < k < greedy_lines(clusters, max_width).len() ==> starts_word(
            clusters,
            #[trigger] line_start(clusters, max_width, k),
        )
}

/// Every word wider than `max_width` starts its line, ends within it, and
/// is the only word that starts on it.
pub open spec fn wide_words_alone(clusters: Seq<ClusterView>, max_width: u64) -> bool {
    forall|k: int, q: int|
        0 <= k < greedy_lines(clusters, max_width).len() && #[trigger] on_line(
            clusters,
            max_width,
            k,
            q,
        ) && starts_word(clusters, q) && span_width(clusters, q, word_end(clusters, q))
            > max_width ==> {
            &&& q == line_start(clusters, max_width, k)
            &&& word_end(clusters, q) <= line_start(clusters, max_width, k + 1)
            &&& forall|other: int|
                #[trigger] on_line(clusters, max_width, k, other) && starts_word(clusters, other)
                    ==> other == q
        }
}

/// Every word on a line but its first ends within `max_width` of the
/// start of the line.
pub open spec fn words_fit(clusters: Seq<ClusterView>, max_width: u64) -> bool {
    forall|k: int, q: int|
        0 <= k < greedy_lines(clusters, max_width).len() && #[trigger] on_line(
            clusters,
            max_width,
            k,
            q,
        ) && starts_word(clusters, q) && line_start(clusters, max_width, k) < q ==> span_width(
            clusters,
            line_start(clusters, max_width, k),
            word_end(clusters, q),
        ) <= max_width
}

/// Every line but the last is full: the first word of the next line would
/// not have fitted on it.
pub open spec fn lines_are_full(clusters: Seq<ClusterView>, max_width: u64) -> bool {
    forall|k: int|
        0 <= k && k + 1 < greedy_lines(clusters, max_width).len() ==> span_width(
            clusters,
            #[trigger] line_start(clusters, max_width, k),
            word_end(clusters, line_start(clusters, max_width, k + 1)),
        ) > max_width
}

/// The greedy layout takes every word that fits and no word that does not.
pub proof fn lemma_greedy_fills_lines(clusters: Seq<ClusterView>, max_width: u64)
    ensures
        words_fit(clusters, max_width),
        lines_are_full(clusters, max_width),
{
    assert forall|k: int, q: int|
        0 <= k < greedy_lines(clusters, max_width).len() && #[trigger] on_line(
            clusters,
            max_width,
            k,
            q,
        ) && starts_word(clusters, q) && line_start(clusters, max_width, k) < q implies span_width(
        clusters,
        line_start(clusters, max_width, k),
        word_end(clusters, q),
    ) <= max_width by {
        let start = line_start(clusters, max_width, k);
        lemma_lines_from(clusters, max_width, 0, k);
        lemma_line_start(clusters, max_width, k);
        lemma_line_end_from(clusters, max_width, start, start + 1);
        assert(!overflows(clusters, max_width, start, q));
    }
    assert forall|k: int| 0 <= k && k + 1 < greedy_lines(clusters, max_width).len() implies span_width(
        clusters,
        #[trigger] line_start(clusters, max_width, k),
        word_end(clusters, line_start(clusters, max_width, k + 1)),
    ) > max_width by {
        let start = line_start(clusters, max_width, k);
        lemma_lines_from(clusters, max_width, 0, k);
        lemma_lines_from(clusters, max_width, 0, k + 1);
        lemma_line_start(clusters, max_width, k);
        lemma_line_end_from(clusters, max_width, start, start + 1);
    }
}

/// The greedy layout never breaks inside a word and leaves every word
/// wider than `max_width` alone on its line.
pub proof fn lemma_greedy_respects_words(clusters: Seq<ClusterView>, max_width: u64)
    ensures
        breaks_before_words(clusters, max_width),
        wide_words_alone(clusters, max_width),
{
    assert forall|k: int| 0 < k < greedy_lines(clusters, max_width).len() implies starts_word(
        clusters,
        #[trigger] line_start(clusters, max_width, k),
    ) by {
        lemma_no_mid_word_break(clusters, max_width, k);
    }
    assert forall|k: int, q: int|
        0 <= k < greedy_lines(clusters, max_width).len() && #[trigger] on_line(
            clusters,
            max_width,
            k,
            q,
        ) && starts_word(clusters, q) && span_width(clusters, q, word_end(clusters, q))
            > max_width implies {
        &&& q == line_start(clusters, max_width, k)
        &&& word_end(clusters, q) <= line_start(clusters, max_width, k + 1)
        &&& forall|other: int|
            #[trigger] on_line(clusters, max_width, k, other) && starts_word(clusters, other)
                ==> other == q
    } by {
        lemma_wide_word_alone(clusters, max_width, k, q);
    }
}

/// The end of the word at `pos` and its width from `pos` on.
fn measure_word(clusters: &Vec<GlyphCluster>, pos: usize) -> (r: (usize, u128))
    requires
        pos < clusters@.len(),
    ensures
        r.0 == word_end(stream_view(clusters@), pos as int),
        pos <= r.0 <= clusters@.len(),
        r.1 == span_width(stream_view(clusters@), pos as int, r.0 as int),
{
    let ghost stream = stream_view(clusters@);
    let n = clusters.len();
    let mut end = pos;
    let mut width: u128 = 0;
    while end < n && !clusters[end].boundary
        invariant
            n == clusters@.len(),
            stream == stream_view(clusters@),
            pos <= end <= n,
            word_end(stream, end as int) == word_end(stream, pos as int),
            width == span_width(stream, pos as int, end as int),
        decreases n - end,
    {
        proof {
            lemma_span_width_bound(stream, pos as int, end as int);
            assert(stream[end as int] == clusters@[end as int]@);
        }
        width = width + clusters[end].advance as u128 + clusters[end].spacing as u128;
        end = end + 1;
    }
    proof {
        if end < n {
            assert(stream[end as int] == clusters@[end as int]@);
        }
    }
    (end, width)
}

/// The end of the line that starts at `start`.
fn find_line_end(clusters: &Vec<GlyphCluster>, max_width: u64, start: usize) -> (end: usize)
    requires
        start < clusters@.len(),
    ensures
        end == line_end(stream_view(clusters@), max_width, start as int),
        start < end <= clusters@.len(),
{
    let ghost stream = stream_view(clusters@);
    let n = clusters.len();
    let mut pos = start + 1;
    let mut width: u128 = clusters[start].advance as u128 + clusters[start].spacing as u128;
    proof {
        assert(stream[start as int] == clusters@[start as int]@);
        assert(span_width(stream, start as int, start as int) == 0);
    }
    while pos < n
        invariant
            n == clusters@.len(),
            stream == stream_view(clusters@),
            start < pos <= n,
            line_end_from(stream, max_width, start as int, pos as int) == line_end(
                stream,
                max_width,
                start as int,
            ),
            width == span_width(stream, start as int, pos as int),
        decreases n - pos,
    {
        proof {
            lemma_span_width_bound(stream, start as int, pos as int);
            assert(stream[pos as int] == clusters@[pos as int]@);
            assert(stream[pos - 1] == clusters@[pos - 1]@);
        }
        if !clusters[pos].boundary && clusters[pos - 1].boundary {
            let (word_stop, word_width) = measure_word(clusters, pos);
            proof {
                lemma_span_width_split(stream, start as int, pos as int, word_stop as int);
                lemma_span_width_bound(stream, pos as int, word_stop as int);
            }
            if width + word_width > max_width as u128 {
                return pos;
            }
        }
        width = width + clusters[pos].advance as u128 + clusters[pos].spacing as u128;
        pos = pos + 1;
    }
    n
}

/// Gathers the clusters `[from, to)` into a line and measures it.
fn make_line(clusters: &Vec<GlyphCluster>, from: usize, to: usize) -> (line: Line)
    requires
        from <= to <= clusters@.len(),
    ensures
        line@ == line_of(stream_view(clusters@), from as int, to as int),
{
    let ghost stream = stream_view(clusters@);
    let mut held: Vec<GlyphCluster> = Vec::new();
    let mut width: u128 = 0;
    let mut ascent: u32 = 0;
    let mut descent: u32 = 0;
    let mut i = from;
    assert(stream_view(held@) =~= stream.subrange(from as int, i as int));
    while i < to
        invariant
            from <= i <= to <= clusters@.len(),
            stream == stream_view(clusters@),
            stream_view(held@) == stream.subrange(from as int, i as int),
            width == span_width(stream, from as int, i as int),
            ascent == span_ascent(stream, from as int, i as int),
            descent == span_descent(stream, from as int, i as int),
        decreases to - i,
    {
        proof {
            lemma_span_width_bound(stream, from as int, i as int);
            assert(stream[i as int] == clusters@[i as int]@);
        }
        let c = clusters[i].clone();
        width = width + c.advance as u128 + c.spacing as u128;
        if c.ascent > ascent {
            ascent = c.ascent;
        }
        if c.descent > descent {
            descent = c.descent;
        }
        proof {
            lemma_stream_view_push(held@, c);
        }
        held.push(c);
        i = i + 1;
        assert(stream_view(held@) =~= stream.subrange(from as int, i as int));
    }
    proof {
        lemma_span_shift(stream, from as int, to as int, to - from);
    }
    Line { clusters: held, width, ascent, descent }
}

/// Cuts the stream into its greedy lines.
fn pack_lines(clusters: &Vec<GlyphCluster>, max_width: u64) -> (layout: ParagraphLayout)
    ensures
        layout@ == greedy_lines(stream_view(clusters@), max_width),
{
    let ghost stream = stream_view(clusters@);
    let n = clusters.len();
    let mut lines: Vec<Line> = Vec::new();
    let mut start: usize = 0;
    while start < n
        invariant
            n == clusters@.len(),
            start <= n,
            stream == stream_view(clusters@),
            lines@.map_values(|line: Line| line@) + lines_from(stream, max_width, start as int)
                == greedy_lines(stream, max_width),
        decreases n - start,
    {
        let ghost before = lines@.map_values(|line: Line| line@);
        let end = find_line_end(clusters, max_width, start);
        let line = make_line(clusters, start, end);
        let ghost tail = lines_from(stream, max_width, end as int);
        assert(lines_from(stream, max_width, start as int) == seq![line@] + tail);
        lines.push(line);
        assert(lines@.map_values(|line: Line| line@) == before.push(line@));
        assert(before.push(line@) + tail == before + (seq![line@] + tail));
        start = end;
    }
    assert(lines@.map_values(|line: Line| line@) + Seq::<LineView>::empty() == lines@.map_values(
        |line: Line| line@,
    ));
    ParagraphLayout { lines }
}

/// Packs the cluster stream into lines, greedily and left to right.
///
/// A line takes clusters until the next word would make it wider than
/// `max_width`; it then ends in front of that word. Separators never cause
/// a break, and the first word of a line is taken however wide it is. The
/// last line is closed when the stream ends. An empty stream gives no line.
pub fn break_lines(clusters: &Vec<GlyphCluster>, max_width: u64) -> (layout: ParagraphLayout)
    ensures
        layout@ == greedy_lines(stream_view(clusters@), max_width),
        cut_at_line_starts(stream_view(clusters@), max_width, layout@),
        breaks_before_words(stream_view(clusters@), max_width),
        wide_words_alone(stream_view(clusters@), max_width),
        words_fit(stream_view(clusters@), max_width),
        lines_are_full(stream_view(clusters@), max_width),
{
    let layout = pack_lines(clusters, max_width);
    proof {
        lemma_lines_cover_stream(stream_view(clusters@), max_width);
        lemma_greedy_respects_words(stream_view(clusters@), max_width);
        lemma_greedy_fills_lines(stream_view(clusters@), max_width);
    }
    layout
}

} // verus!
