//! Font faces as plain metric tables, and the resolver that maps a family,
//! weight and slant to a face or to the fallback face.
//!
//! All metrics are in thousandths of an em, so that a face serves every size.

use vstd::prelude::*;
use vstd::string::*;
use crate::error::LayoutError;

verus! {

/// The glyphs that draw one codepoint, a base glyph and whatever marks go
/// with it, and their advance in thousandths of an em.
#[derive(Clone, Debug, PartialEq, Eq)]
pub struct GlyphEntry {
    pub codepoint: char,
    pub glyphs: Vec<u32>,
    pub advance: u16,
}

/// A glyph that stands for two adjacent codepoints.
#[derive(Clone, Copy, Debug, PartialEq, Eq, Structural)]
pub struct Ligature {
    pub first: char,
    pub second: char,
    pub glyph: u32,
    pub advance: u16,
}

/// One glyph id with its advance in thousandths of an em.
#[derive(Clone, Copy, Debug, PartialEq, Eq, Structural)]
pub struct GlyphMetrics {
    pub glyph: u32,
    pub advance: u16,
}

/// One face: what it is registered under, its vertical metrics and its glyphs.
#[derive(Clone, Debug, PartialEq, Eq)]
pub struct FontFace {
    pub family: String,
    pub weight: u16,
    pub slant: bool,
    pub ascent: u16,
    pub descent: u16,
    /// Advance of glyph 0, which stands for every codepoint the face lacks.
    pub missing_advance: u16,
    pub glyphs: Vec<GlyphEntry>,
    pub ligatures: Vec<Ligature>,
}

/// The first index at or after `from` whose entry is for `c`.
pub open spec fn first_entry(entries: Seq<GlyphEntry>, c: char, from: int) -> Option<int>
    decreases entries.len() - from,
{
    if from < 0 || from >= entries.len() {
        None
    } else if entries[from].codepoint == c {
        Some(from)
    } else {
        first_entry(entries, c, from + 1)
    }
}

/// The first index at or after `from` whose ligature joins `a` and `b`.
pub open spec fn first_ligature(ligatures: Seq<Ligature>, a: char, b: char, from: int) -> Option<
    int,
>
    decreases ligatures.len() - from,
{
    if from < 0 || from >= ligatures.len() {
        None
    } else if ligatures[from].first == a && ligatures[from].second == b {
        Some(from)
    } else {
        first_ligature(ligatures, a, b, from + 1)
    }
}

/// Glyph 0 alone, which stands for what a face cannot draw.
pub fn missing_glyph() -> (glyphs: Vec<u32>)
    ensures
        glyphs@ == seq![0u32],
{
    let mut glyphs: Vec<u32> = Vec::new();
    glyphs.push(0);
    assert(glyphs@ == seq![0u32]);
    glyphs
}

/// A copy of a list of glyph ids.
pub fn copy_glyphs(glyphs: &Vec<u32>) -> (copy: Vec<u32>)
    ensures
        copy@ == glyphs@,
{
    let mut copy: Vec<u32> = Vec::new();
    let n = glyphs.len();
    let mut i: usize = 0;
    while i < n
        invariant
            n == glyphs@.len(),
            i <= n,
            copy@ == glyphs@.subrange(0, i as int),
        decreases n - i,
    {
        copy.push(glyphs[i]);
        i = i + 1;
        assert(copy@ == glyphs@.subrange(0, i as int));
    }
    assert(glyphs@.subrange(0, n as int) == glyphs@);
    copy
}

impl FontFace {
    /// The glyphs of `c`: those of the first entry for `c`; glyph 0 alone
    /// where the face has no entry for `c` or the entry holds no glyph.
    pub open spec fn spec_glyphs(&self, c: char) -> Seq<u32> {
        match first_entry(self.glyphs@, c, 0) {
            Some(k) => if self.glyphs@[k].glyphs@.len() > 0 {
                self.glyphs@[k].glyphs@
            } else {
                seq![0u32]
            },
            None => seq![0u32],
        }
    }

    /// The advance of `c`: that of the first entry for `c`, else that of
    /// glyph 0.
    pub open spec fn spec_advance(&self, c: char) -> u16 {
        match first_entry(self.glyphs@, c, 0) {
            Some(k) => self.glyphs@[k].advance,
            None => self.missing_advance,
        }
    }

    /// The glyph that joins `a` and `b`, where the face has one.
    pub open spec fn spec_ligature(&self, a: char, b: char) -> Option<GlyphMetrics> {
        match first_ligature(self.ligatures@, a, b, 0) {
            Some(k) => Some(
                GlyphMetrics { glyph: self.ligatures@[k].glyph, advance: self.ligatures@[k].advance },
            ),
            None => None,
        }
    }

    /// Whether the face is registered under this family, weight and slant.
    pub open spec fn spec_matches(&self, family: Seq<char>, weight: u16, slant: bool) -> bool {
        self.family@ == family && self.weight == weight && self.slant == slant
    }

    /// The glyphs and the advance of one codepoint.
    pub fn glyphs_of(&self, c: char) -> (r: (Vec<u32>, u16))
        ensures
            r.0@ == self.spec_glyphs(c),
            r.0@.len() > 0,
            r.1 == self.spec_advance(c),
    {
        let n = self.glyphs.len();
        let mut k: usize = 0;
        while k < n
            invariant
                n == self.glyphs@.len(),
                k <= n,
                first_entry(self.glyphs@, c, 0) == first_entry(self.glyphs@, c, k as int),
            decreases n - k,
        {
            if self.glyphs[k].codepoint == c {
                let entry = &self.glyphs[k];
                if entry.glyphs.len() > 0 {
                    return (copy_glyphs(&entry.glyphs), entry.advance);
                }
                return (missing_glyph(), entry.advance);
            }
            k = k + 1;
        }
        (missing_glyph(), self.missing_advance)
    }

    /// The glyph that joins `a` and `b` in this order, where the face has one.
    pub fn ligature(&self, a: char, b: char) -> (m: Option<GlyphMetrics>)
        ensures
            m == self.spec_ligature(a, b),
    {
        let n = self.ligatures.len();
        let mut k: usize = 0;
        while k < n
            invariant
                n == self.ligatures@.len(),
                k <= n,
                first_ligature(self.ligatures@, a, b, 0) == first_ligature(
                    self.ligatures@,
                    a,
                    b,
                    k as int,
                ),
            decreases n - k,
        {
            if self.ligatures[k].first == a && self.ligatures[k].second == b {
                return Some(
                    GlyphMetrics {
                        glyph: self.ligatures[k].glyph,
                        advance: self.ligatures[k].advance,
                    },
                );
            }
            k = k + 1;
        }
        None
    }

    /// Whether the face is registered under exactly this family, weight and
    /// slant.
    pub fn matches(&self, family: &String, weight: u16, slant: bool) -> (r: bool)
        ensures
            r == self.spec_matches(family@, weight, slant),
    {
        self.family == *family && self.weight == weight && self.slant == slant
    }
}

/// What a resolution hands out: a registered face by its index, or the fallback.
#[derive(Clone, Copy, Debug, PartialEq, Eq, Structural)]
pub enum FontHandle {
    Face(usize),
    Fallback,
}

/// The registered faces, searched in order, and the face that stands in when
/// none of them matches.
#[derive(Clone, Debug, PartialEq, Eq)]
pub struct FontResolver {
    pub faces: Vec<FontFace>,
    pub fallback: FontFace,
}

/// The first index at or after `from` of a face registered under the request.
pub open spec fn first_face(
    faces: Seq<FontFace>,
    family: Seq<char>,
    weight: u16,
    slant: bool,
    from: int,
) -> Option<int>
    decreases faces.len() - from,
{
    if from < 0 || from >= faces.len() {
        None
    } else if faces[from].spec_matches(family, weight, slant) {
        Some(from)
    } else {
        first_face(faces, family, weight, slant, from + 1)
    }
}

/// `first_face` finds a matching face before which none matches, or there is
/// none at all.
pub proof fn lemma_first_face(
    faces: Seq<FontFace>,
    family: Seq<char>,
    weight: u16,
    slant: bool,
    from: int,
)
    requires
        0 <= from,
    ensures
        match first_face(faces, family, weight, slant, from) {
            Some(i) => from <= i < faces.len() && faces[i].spec_matches(family, weight, slant)
                && forall|j: int| from <= j < i ==> !(#[trigger] faces[j]).spec_matches(
                    family,
                    weight,
                    slant,
                ),
            None => forall|j: int| from <= j < faces.len() ==> !(#[trigger] faces[j]).spec_matches(
                    family,
                    weight,
                    slant,
                ),
        },
    decreases faces.len() - from,
{
    if from < faces.len() && !faces[from].spec_matches(family, weight, slant) {
        lemma_first_face(faces, family, weight, slant, from + 1);
    }
}

impl FontResolver {
    /// The index of the first face registered under the request.
    pub open spec fn spec_find(&self, family: Seq<char>, weight: u16, slant: bool) -> Option<int> {
        first_face(self.faces@, family, weight, slant, 0)
    }

    /// The handle a request resolves to: the first matching face, else the fallback.
    pub open spec fn spec_resolve(&self, family: Seq<char>, weight: u16, slant: bool) -> FontHandle {
        match self.spec_find(family, weight, slant) {
            Some(i) => FontHandle::Face(i as usize),
            None => FontHandle::Fallback,
        }
    }

    /// The face behind a handle; a handle that names no registered face
    /// stands for the fallback.
    pub open spec fn spec_face(&self, handle: FontHandle) -> FontFace {
        match handle {
            FontHandle::Face(i) => if i < self.faces@.len() {
                self.faces@[i as int]
            } else {
                self.fallback
            },
            FontHandle::Fallback => self.fallback,
        }
    }

    /// A resolver without registered faces: every request gets `fallback`.
    pub fn new(fallback: FontFace) -> (r: Self)
        ensures
            r.faces@ == Seq::<FontFace>::empty(),
            r.fallback == fallback,
    {
        FontResolver { faces: Vec::new(), fallback }
    }

    /// Registers a face behind those already registered.
    pub fn register(&mut self, face: FontFace)
        ensures
            final(self).faces@ == old(self).faces@.push(face),
            final(self).fallback == old(self).fallback,
    {
        self.faces.push(face);
    }

    /// Looks for the first face registered under exactly this family, weight
    /// and slant.
    pub fn find(&self, family: &String, weight: u16, slant: bool) -> (r: Result<usize, LayoutError>)
        ensures
            match r {
                Ok(i) => self.spec_find(family@, weight, slant) == Some(i as int) && i
                    < self.faces@.len() && self.faces@[i as int].spec_matches(family@, weight, slant)
                    && forall|j: int|
                    0 <= j < i ==> !(#[trigger] self.faces@[j]).spec_matches(family@, weight, slant),
                Err(e) => e == LayoutError::FontResolutionFailed && self.spec_find(
                    family@,
                    weight,
                    slant,
                ) is None && forall|j: int|
                    0 <= j < self.faces@.len() ==> !(#[trigger] self.faces@[j]).spec_matches(
                        family@,
                        weight,
                        slant,
                    ),
            },
    {
        let n = self.faces.len();
        let mut k: usize = 0;
        while k < n
            invariant
                n == self.faces@.len(),
                k <= n,
                first_face(self.faces@, family@, weight, slant, 0) == first_face(
                    self.faces@,
                    family@,
                    weight,
                    slant,
                    k as int,
                ),
            decreases n - k,
        {
            if self.faces[k].matches(family, weight, slant) {
                proof {
                    lemma_first_face(self.faces@, family@, weight, slant, 0);
                }
                return Ok(k);
            }
            k = k + 1;
        }
        proof {
            lemma_first_face(self.faces@, family@, weight, slant, 0);
        }
        Err(LayoutError::FontResolutionFailed)
    }

    /// Resolves a request to a handle. A request that no face matches
    /// degrades to the fallback face; it never fails.
    pub fn resolve(&self, family: &String, weight: u16, slant: bool) -> (handle: FontHandle)
        ensures
            handle == self.spec_resolve(family@, weight, slant),
            handle matches FontHandle::Face(i) ==> i < self.faces@.len(),
    {
        match self.find(family, weight, slant) {
            Ok(i) => FontHandle::Face(i),
            Err(_) => FontHandle::Fallback,
        }
    }

    /// The face behind a handle.
    pub fn face(&self, handle: FontHandle) -> (face: &FontFace)
        ensures
            *face == self.spec_face(handle),
    {
        match handle {
            FontHandle::Face(i) => if i < self.faces.len() {
                &self.faces[i]
            } else {
                &self.fallback
            },
            FontHandle::Fallback => &self.fallback,
        }
    }
}

} // verus!
