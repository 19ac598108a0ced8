//! The paragraphs that show how word spacing behaves at style changes, and
//! the steps that take one of them to positioned glyphs.

use vstd::prelude::*;
use vstd::string::*;
use crate::error::LayoutError;
use crate::font::FontResolver;
use crate::output::{glyph_stream, positioned_glyphs, PositionedGlyph};
use crate::pipeline::{layout, layout_of};
use crate::style::{valid_partition, StyleAttributes, StyleRun, StyleRunModel, StyleView};

verus! {

/// Width of the surface the scenarios are painted on.
pub const SURFACE_WIDTH: u32 = 320;

/// Height of the surface the scenarios are painted on.
pub const SURFACE_HEIGHT: u32 = 240;

/// The width the scenarios are laid out at.
pub const LAYOUT_WIDTH: u64 = 500;

/// The colour the surface is cleared to, opaque white.
pub const BACKGROUND: u32 = 0xffff_ffff;

/// The word spacing of every scenario.
pub const WORD_SPACING: u32 = 40;

/// The style every scenario starts from: Open Sans at size 24, normal
/// weight, upright, opaque black, with the scenarios' word spacing.
pub open spec fn regular_style() -> StyleView {
    StyleView {
        family: "Open Sans"@,
        size: 24,
        weight: 400,
        slant: false,
        color: 0xff00_0000,
        word_spacing: WORD_SPACING,
    }
}

/// A paragraph to lay out, and the name its picture goes by.
#[derive(Clone, Debug, PartialEq, Eq)]
pub struct Scenario {
    pub name: &'static str,
    pub model: StyleRunModel,
}

impl Scenario {
    /// The scenario holds `text` in one run of style `style`.
    pub open spec fn is_one_run(&self, text: Seq<char>, style: StyleView) -> bool {
        &&& self.model.text@ == text
        &&& self.model.runs@.len() == 1
        &&& self.model.runs@[0].start == 0
        &&& self.model.runs@[0].end == text.len()
        &&& self.model.runs@[0].style@ == style
    }

    /// The scenario holds `text` in two runs that meet at `seam`, the first
    /// in the regular style and the second in `second`.
    pub open spec fn is_two_runs(&self, text: Seq<char>, seam: int, second: StyleView) -> bool {
        &&& self.model.text@ == text
        &&& self.model.runs@.len() == 2
        &&& self.model.runs@[0].start == 0
        &&& self.model.runs@[0].end == seam
        &&& self.model.runs@[0].style@ == regular_style()
        &&& self.model.runs@[1].start == seam
        &&& self.model.runs@[1].end == text.len()
        &&& self.model.runs@[1].style@ == second
    }
}

/// The size of the surface to paint on, the regular style and an empty model.
pub fn setup_paragraph_with_word_spacing() -> (r: ((u32, u32), StyleAttributes, StyleRunModel))
    ensures
        r.0 == (SURFACE_WIDTH, SURFACE_HEIGHT),
        r.1@ == regular_style(),
        r.1.well_formed(),
        r.2.text@ == Seq::<char>::empty(),
        r.2.runs@ == Seq::<StyleRun>::empty(),
{
    let style = StyleAttributes::new("Open Sans", 24, 400, false, 0xff00_0000, WORD_SPACING);
    ((SURFACE_WIDTH, SURFACE_HEIGHT), style, StyleRunModel::new())
}

/// The whole text in the regular style.
pub fn all_without_slant() -> (s: Scenario)
    ensures
        s.name@ == "all_without_slant"@,
        s.is_one_run("a b c d e f g"@, regular_style()),
        valid_partition(s.model.text@.len(), s.model.runs@),
{
    let (_, regular, mut model) = setup_paragraph_with_word_spacing();
    proof {
        reveal_strlit("a b c d e f g");
    }
    model.append("a b c d e f g", regular);
    assert(model.text@ == "a b c d e f g"@);
    Scenario { name: "all_without_slant", model }
}

/// The whole text slanted.
pub fn all_with_slant() -> (s: Scenario)
    ensures
        s.name@ == "all_without_slant"@,
        s.is_one_run("a b c d e f g"@, (StyleView { slant: true, ..regular_style() })),
        valid_partition(s.model.text@.len(), s.model.runs@),
{
    let (_, regular, mut model) = setup_paragraph_with_word_spacing();
    let italic = regular.with_slant(true);
    proof {
        reveal_strlit("a b c d e f g");
    }
    model.append("a b c d e f g", italic);
    assert(model.text@ == "a b c d e f g"@);
    Scenario { name: "all_without_slant", model }
}

/// The slant changes between two spaces.
pub fn alternating_slant() -> (s: Scenario)
    ensures
        s.name@ == "alternating_slant_with_spacing"@,
        s.is_two_runs("a b  c d e f g"@, 4, (StyleView { slant: true, ..regular_style() })),
        valid_partition(s.model.text@.len(), s.model.runs@),
{
    let (_, regular, mut model) = setup_paragraph_with_word_spacing();
    let italic = regular.with_slant(true);
    proof {
        reveal_strlit("a b ");
        reveal_strlit(" c d e f g");
        reveal_strlit("a b  c d e f g");
    }
    model.append("a b ", regular);
    model.append(" c d e f g", italic);
    assert(model.text@ == "a b  c d e f g"@);
    Scenario { name: "alternating_slant_with_spacing", model }
}

/// The slant changes between two spaces and back behind a space.
pub fn twice_alternating_slant() -> (s: Scenario)
    ensures
        s.name@ == "twice_alternating_slant"@,
        s.model.text@ == "a b  c d e f g"@,
        s.model.runs@.len() == 3,
        s.model.runs@[0].start == 0 && s.model.runs@[0].end == 4,
        s.model.runs@[1].start == 4 && s.model.runs@[1].end == 11,
        s.model.runs@[2].start == 11 && s.model.runs@[2].end == 14,
        s.model.runs@[0].style@ == regular_style(),
        s.model.runs@[1].style@ == (StyleView { slant: true, ..regular_style() }),
        s.model.runs@[2].style@ == regular_style(),
        valid_partition(s.model.text@.len(), s.model.runs@),
{
    let (_, regular, mut model) = setup_paragraph_with_word_spacing();
    let italic = regular.with_slant(true);
    proof {
        reveal_strlit("a b ");
        reveal_strlit(" c d e ");
        reveal_strlit("f g");
        reveal_strlit("a b  c d e f g");
    }
    model.append("a b ", regular.clone());
    model.append(" c d e ", italic);
    model.append("f g", regular);
    assert(model.text@ == "a b  c d e f g"@);
    Scenario { name: "twice_alternating_slant", model }
}

/// The slant changes inside a word.
pub fn alternating_slant_within_word() -> (s: Scenario)
    ensures
        s.name@ == "alternating_slant_within_word"@,
        s.is_two_runs("First second"@, 4, (StyleView { slant: true, ..regular_style() })),
        valid_partition(s.model.text@.len(), s.model.runs@),
{
    let (_, regular, mut model) = setup_paragraph_with_word_spacing();
    let italic = regular.with_slant(true);
    proof {
        reveal_strlit("Firs");
        reveal_strlit("t second");
        reveal_strlit("First second");
    }
    model.append("Firs", regular);
    model.append("t second", italic);
    assert(model.text@ == "First second"@);
    Scenario { name: "alternating_slant_within_word", model }
}

/// The weight changes between two spaces.
pub fn alternating_weight() -> (s: Scenario)
    ensures
        s.name@ == "alternating_weight"@,
        s.is_two_runs("a b  c d e f g"@, 4, (StyleView { weight: 700, ..regular_style() })),
        valid_partition(s.model.text@.len(), s.model.runs@),
{
    let (_, regular, mut model) = setup_paragraph_with_word_spacing();
    let bold = regular.with_weight(700);
    proof {
        reveal_strlit("a b ");
        reveal_strlit(" c d e f g");
        reveal_strlit("a b  c d e f g");
    }
    model.append("a b ", regular);
    model.append(" c d e f g", bold);
    assert(model.text@ == "a b  c d e f g"@);
    Scenario { name: "alternating_weight", model }
}

/// The size changes between two spaces.
pub fn alternating_size() -> (s: Scenario)
    ensures
        s.name@ == "alternating_size"@,
        s.is_two_runs("a b  c d e f g"@, 4, (StyleView { size: 32, ..regular_style() })),
        valid_partition(s.model.text@.len(), s.model.runs@),
{
    let (_, regular, mut model) = setup_paragraph_with_word_spacing();
    let larger = regular.with_size(32);
    proof {
        reveal_strlit("a b ");
        reveal_strlit(" c d e f g");
        reveal_strlit("a b  c d e f g");
    }
    model.append("a b ", regular);
    model.append(" c d e f g", larger);
    assert(model.text@ == "a b  c d e f g"@);
    Scenario { name: "alternating_size", model }
}

/// Freezes a model, lays it out at the scenarios' width and hands its
/// glyphs out for painting at the origin of the surface.
pub fn resolve(model: StyleRunModel, fonts: &FontResolver) -> (r: Result<
    Vec<PositionedGlyph>,
    LayoutError,
>)
    ensures
        match r {
            Ok(glyphs) => valid_partition(model.text@.len(), model.runs@) && glyphs@
                == positioned_glyphs(layout_of(model.text@, model.runs@, *fonts, LAYOUT_WIDTH)),
            Err(e) => e == LayoutError::InvalidRunPartition && !valid_partition(
                model.text@.len(),
                model.runs@,
            ),
        },
{
    match model.finalize() {
        Err(e) => Err(e),
        Ok(paragraph) => match layout(&paragraph, fonts, LAYOUT_WIDTH) {
            Ok(lines) => Ok(glyph_stream(&lines)),
            Err(e) => Err(e),
        },
    }
}

} // verus!
