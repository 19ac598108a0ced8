//! Style attributes, style runs, and the model that partitions a text buffer
//! into runs.

use vstd::prelude::*;
use vstd::string::*;
use crate::error::LayoutError;

verus! {

/// The style of a span of text. Sizes and spacings share one layout unit.
#[derive(Debug, PartialEq, Eq)]
pub struct StyleAttributes {
    pub family: String,
    /// Font size, a positive number of layout units per em.
    pub size: u16,
    /// Weight class, 400 for normal and 700 for bold.
    pub weight: u16,
    pub slant: bool,
    /// Colour as 0xAARRGGBB.
    pub color: u32,
    /// Extra advance given to every word separator.
    pub word_spacing: u32,
}

/// The mathematical value of a [`StyleAttributes`]; two styles are equal when
/// their views are.
pub ghost struct StyleView {
    pub family: Seq<char>,
    pub size: u16,
    pub weight: u16,
    pub slant: bool,
    pub color: u32,
    pub word_spacing: u32,
}

impl View for StyleAttributes {
    type V = StyleView;

    open spec fn view(&self) -> StyleView {
        StyleView {
            family: self.family@,
            size: self.size,
            weight: self.weight,
            slant: self.slant,
            color: self.color,
            word_spacing: self.word_spacing,
        }
    }
}

impl Clone for StyleAttributes {
    fn clone(&self) -> (s: Self)
        ensures
            s == *self,
    {
        StyleAttributes {
            family: self.family.clone(),
            size: self.size,
            weight: self.weight,
            slant: self.slant,
            color: self.color,
            word_spacing: self.word_spacing,
        }
    }
}

impl StyleAttributes {
    /// A style is well formed when its size is positive.
    pub open spec fn well_formed(&self) -> bool {
        self.size > 0
    }

    /// A style of positive size.
    pub fn new(
        family: &str,
        size: u16,
        weight: u16,
        slant: bool,
        color: u32,
        word_spacing: u32,
    ) -> (s: Self)
        requires
            size > 0,
        ensures
            s.well_formed(),
            s@ == (StyleView { family: family@, size, weight, slant, color, word_spacing }),
    {
        StyleAttributes { family: String::from_str(family), size, weight, slant, color, word_spacing }
    }

    /// Value equality of two styles.
    pub fn same(&self, other: &StyleAttributes) -> (r: bool)
        ensures
            r == (self@ == other@),
    {
        let r = self.family == other.family && self.size == other.size && self.weight
            == other.weight && self.slant == other.slant && self.color == other.color
            && self.word_spacing == other.word_spacing;
        assert(r == (self@ == other@));
        r
    }

    /// This style with another slant flag.
    pub fn with_slant(&self, slant: bool) -> (s: Self)
        ensures
            s@ == (StyleView { slant, ..self@ }),
            self.well_formed() ==> s.well_formed(),
    {
        let mut s = self.clone();
        s.slant = slant;
        s
    }

    /// This style with another weight class.
    pub fn with_weight(&self, weight: u16) -> (s: Self)
        ensures
            s@ == (StyleView { weight, ..self@ }),
            self.well_formed() ==> s.well_formed(),
    {
        let mut s = self.clone();
        s.weight = weight;
        s
    }

    /// This style with another size.
    pub fn with_size(&self, size: u16) -> (s: Self)
        requires
            size > 0,
        ensures
            s@ == (StyleView { size, ..self@ }),
            s.well_formed(),
    {
        let mut s = self.clone();
        s.size = size;
        s
    }
}

/// A half-open range `[start, end)` of the text buffer and the style it carries.
#[derive(Clone, Debug, PartialEq, Eq)]
pub struct StyleRun {
    pub start: usize,
    pub end: usize,
    pub style: StyleAttributes,
}

/// The runs are non-empty, start at 0, follow each other without gap or
/// overlap, and end at `len`.
pub open spec fn valid_partition(len: nat, runs: Seq<StyleRun>) -> bool {
    &&& forall|i: int| 0 <= i < runs.len() ==> (#[trigger] runs[i]).start < runs[i].end
    &&& forall|i: int, j: int|
        0 <= i && j == i + 1 && j < runs.len() ==> (#[trigger] runs[i]).end == (
        #[trigger] runs[j]).start
    &&& runs.len() == 0 ==> len == 0
    &&& runs.len() > 0 ==> runs[0].start == 0 && runs[runs.len() - 1].end == len
}

/// Neighbouring runs differ in style, so that every run is a maximal span
/// of one style.
pub open spec fn maximal_runs(runs: Seq<StyleRun>) -> bool {
    forall|i: int, j: int|
        0 <= i && j == i + 1 && j < runs.len() ==> (#[trigger] runs[i]).style@ != (
        #[trigger] runs[j]).style@
}

/// What `append` does to the run list, given the length of the buffer before
/// and after: nothing for an empty text, a longer last run when the style
/// equals that of the last run, a new run otherwise.
pub open spec fn runs_after_append(
    runs: Seq<StyleRun>,
    old_len: nat,
    new_len: nat,
    style: StyleAttributes,
) -> Seq<StyleRun> {
    if new_len == old_len {
        runs
    } else if runs.len() > 0 && runs.last().style@ == style@ {
        runs.update(
            runs.len() - 1,
            StyleRun { start: runs.last().start, end: new_len as usize, style: runs.last().style },
        )
    } else {
        runs.push(StyleRun { start: old_len as usize, end: new_len as usize, style })
    }
}

/// Appending keeps a partition a partition and maximal runs maximal.
pub proof fn lemma_append_keeps_partition(
    runs: Seq<StyleRun>,
    old_len: nat,
    new_len: nat,
    style: StyleAttributes,
)
    requires
        old_len <= new_len <= usize::MAX,
    ensures
        valid_partition(old_len, runs) ==> valid_partition(
            new_len,
            runs_after_append(runs, old_len, new_len, style),
        ),
        maximal_runs(runs) ==> maximal_runs(runs_after_append(runs, old_len, new_len, style)),
{
    let after = runs_after_append(runs, old_len, new_len, style);
    if new_len != old_len {
        let last = runs.len() - 1;
        if valid_partition(old_len, runs) {
            assert forall|i: int| 0 <= i < after.len() implies (#[trigger] after[i]).start
                < after[i].end by {
                if i < last {
                    assert(after[i] == runs[i]);
                } else if i == last && last >= 0 {
                    assert(runs[last].start < runs[last].end);
                }
            }
            assert forall|i: int, j: int| 0 <= i && j == i + 1 && j < after.len() implies (
            #[trigger] after[i]).end == (#[trigger] after[j]).start by {
                if j < last {
                    assert(after[i] == runs[i] && after[j] == runs[j]);
                } else if j == last {
                    assert(after[i] == runs[i]);
                    assert(runs[i].end == runs[j].start);
                }
            }
        }
        if maximal_runs(runs) {
            assert forall|i: int, j: int| 0 <= i && j == i + 1 && j < after.len() implies (
            #[trigger] after[i]).style@ != (#[trigger] after[j]).style@ by {
                if j < last {
                    assert(after[i] == runs[i] && after[j] == runs[j]);
                } else if j == last {
                    assert(after[i] == runs[i]);
                    assert(runs[i].style@ != runs[j].style@);
                }
            }
        }
    }
}

/// A text buffer under construction, with its partition into style runs.
#[derive(Clone, Debug, PartialEq, Eq)]
pub struct StyleRunModel {
    pub text: Vec<char>,
    pub runs: Vec<StyleRun>,
}

impl StyleRunModel {
    /// A model without text and without runs.
    pub fn new() -> (m: Self)
        ensures
            m.text@ == Seq::<char>::empty(),
            m.runs@ == Seq::<StyleRun>::empty(),
            valid_partition(m.text@.len(), m.runs@),
    {
        StyleRunModel { text: Vec::new(), runs: Vec::new() }
    }

    /// Appends `text` to the buffer under `style`: the last run grows when it
    /// has that style, else a new run opens at the old end of the buffer.
    /// An empty `text` changes nothing.
    ///
    /// A model whose runs partition its buffer stays so, and runs that are
    /// maximal stay maximal: a model built by `new` and `append` alone
    /// always finalizes.
    pub fn append(&mut self, text: &str, style: StyleAttributes)
        ensures
            final(self).text@ == old(self).text@ + text@,
            final(self).runs@ == runs_after_append(
                old(self).runs@,
                old(self).text@.len(),
                final(self).text@.len(),
                style,
            ),
            valid_partition(old(self).text@.len(), old(self).runs@) ==> valid_partition(
                final(self).text@.len(),
                final(self).runs@,
            ),
            maximal_runs(old(self).runs@) ==> maximal_runs(final(self).runs@),
    {
        let old_len = self.text.len();
        let ghost old_text = self.text@;
        for c in it: text.chars()
            invariant
                it.seq() == text@,
                self.text@ == old_text + text@.take(it.index()),
                self.runs@ == old(self).runs@,
        {
            self.text.push(c);
            assert(text@.take(it.index() + 1) == text@.take(it.index()).push(c));
        }
        assert(text@.take(text@.len() as int) == text@);
        let new_len = self.text.len();
        if new_len != old_len {
            let count = self.runs.len();
            if count > 0 && self.runs[count - 1].style.same(&style) {
                let last = &self.runs[count - 1];
                let grown = StyleRun { start: last.start, end: new_len, style: last.style.clone() };
                self.runs.set(count - 1, grown);
            } else {
                self.runs.push(StyleRun { start: old_len, end: new_len, style });
            }
        }
        proof {
            lemma_append_keeps_partition(
                old(self).runs@,
                old(self).text@.len(),
                self.text@.len(),
                style,
            );
        }
    }

    /// Freezes the model. Fails when the runs do not partition the buffer.
    pub fn finalize(self) -> (r: Result<Paragraph, LayoutError>)
        ensures
            match r {
                Ok(p) => valid_partition(self.text@.len(), self.runs@) && p.text_view()
                    == self.text@ && p.runs_view() == self.runs@ && p.well_formed(),
                Err(e) => e == LayoutError::InvalidRunPartition && !valid_partition(
                    self.text@.len(),
                    self.runs@,
                ),
            },
    {
        let count = self.runs.len();
        let mut expected: usize = 0;
        let mut i: usize = 0;
        while i < count
            invariant
                count == self.runs@.len(),
                i <= count,
                forall|k: int| 0 <= k < i ==> (#[trigger] self.runs@[k]).start < self.runs@[k].end,
                forall|k: int, j: int|
                    0 <= k && j == k + 1 && j < i ==> (#[trigger] self.runs@[k]).end == (
                    #[trigger] self.runs@[j]).start,
                i == 0 ==> expected == 0,
                i > 0 ==> self.runs@[0].start == 0 && expected == self.runs@[i - 1].end,
            decreases count - i,
        {
            let start = self.runs[i].start;
            let end = self.runs[i].end;
            if start != expected || end <= start {
                proof {
                    if i > 0 && start != expected {
                        assert(self.runs@[i - 1].end != self.runs@[i as int].start);
                    }
                }
                return Err(LayoutError::InvalidRunPartition);
            }
            expected = end;
            i = i + 1;
        }
        if expected != self.text.len() {
            return Err(LayoutError::InvalidRunPartition);
        }
        Ok(Paragraph { text: self.text, runs: self.runs })
    }
}

/// A frozen text buffer with a valid partition into style runs.
#[derive(Clone, Debug, PartialEq, Eq)]
pub struct Paragraph {
    text: Vec<char>,
    runs: Vec<StyleRun>,
}

impl Paragraph {
    /// The codepoints of the paragraph.
    pub closed spec fn text_view(&self) -> Seq<char> {
        self.text@
    }

    /// The style runs of the paragraph, in order.
    pub closed spec fn runs_view(&self) -> Seq<StyleRun> {
        self.runs@
    }

    /// The runs partition the text.
    pub open spec fn well_formed(&self) -> bool {
        valid_partition(self.text_view().len(), self.runs_view())
    }

    /// The codepoints of the paragraph.
    pub fn text(&self) -> (t: &Vec<char>)
        ensures
            t@ == self.text_view(),
    {
        &self.text
    }

    /// The style runs of the paragraph, in order.
    pub fn runs(&self) -> (r: &Vec<StyleRun>)
        ensures
            r@ == self.runs_view(),
    {
        &self.runs
    }
}

} // verus!
