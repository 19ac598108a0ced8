use paragraph_layout::error::LayoutError;
use paragraph_layout::font::{
    copy_glyphs, missing_glyph, FontFace, FontHandle, FontResolver, GlyphEntry, GlyphMetrics, Ligature,
};

fn face(family: &str, weight: u16, slant: bool, missing_advance: u16) -> FontFace {
    FontFace {
        family: family.to_string(),
        weight,
        slant,
        ascent: 1000,
        descent: 250,
        missing_advance,
        glyphs: vec![
            GlyphEntry { codepoint: 'a', glyphs: vec![1], advance: 500 },
            GlyphEntry { codepoint: 'b', glyphs: vec![2], advance: 520 },
            GlyphEntry { codepoint: 'a', glyphs: vec![9], advance: 900 },
            GlyphEntry { codepoint: ' ', glyphs: vec![3], advance: 250 },
            GlyphEntry { codepoint: '\u{e9}', glyphs: vec![5, 6], advance: 550 },
            GlyphEntry { codepoint: 'q', glyphs: vec![], advance: 310 },
        ],
        ligatures: vec![
            Ligature { first: 'f', second: 'i', glyph: 100, advance: 800 },
            Ligature { first: 'f', second: 'l', glyph: 101, advance: 810 },
            Ligature { first: 'f', second: 'i', glyph: 102, advance: 820 },
        ],
    }
}

fn resolver() -> FontResolver {
    let mut fonts = FontResolver::new(face("Fallback", 400, false, 600));
    fonts.register(face("Open Sans", 400, false, 510));
    fonts.register(face("Open Sans", 700, false, 520));
    fonts.register(face("Open Sans", 400, false, 530));
    fonts.register(face("Other", 400, true, 540));
    fonts
}

#[test]
fn glyphs_of_takes_the_first_entry_of_a_codepoint() {
    let f = face("Open Sans", 400, false, 600);
    assert_eq!(f.glyphs_of('a'), (vec![1], 500));
    assert_eq!(f.glyphs_of('b'), (vec![2], 520));
    assert_eq!(f.glyphs_of(' '), (vec![3], 250));
}

#[test]
fn glyphs_of_gives_every_glyph_of_the_entry() {
    let f = face("Open Sans", 400, false, 600);
    assert_eq!(f.glyphs_of('\u{e9}'), (vec![5, 6], 550));
}

#[test]
fn glyphs_of_an_unknown_codepoint_is_glyph_zero() {
    let f = face("Open Sans", 400, false, 600);
    assert_eq!(f.glyphs_of('z'), (vec![0], 600));
}

#[test]
fn glyphs_of_an_entry_without_glyphs_is_glyph_zero() {
    let f = face("Open Sans", 400, false, 600);
    assert_eq!(f.glyphs_of('q'), (vec![0], 310));
}

#[test]
fn copy_glyphs_copies() {
    assert_eq!(copy_glyphs(&vec![3, 1, 2]), vec![3, 1, 2]);
    assert_eq!(copy_glyphs(&vec![]), Vec::<u32>::new());
    assert_eq!(missing_glyph(), vec![0]);
}

#[test]
fn ligature_takes_the_first_entry_of_a_pair() {
    let f = face("Open Sans", 400, false, 600);
    assert_eq!(f.ligature('f', 'i'), Some(GlyphMetrics { glyph: 100, advance: 800 }));
    assert_eq!(f.ligature('f', 'l'), Some(GlyphMetrics { glyph: 101, advance: 810 }));
}

#[test]
fn ligature_is_ordered() {
    let f = face("Open Sans", 400, false, 600);
    assert_eq!(f.ligature('i', 'f'), None);
    assert_eq!(f.ligature('f', 'f'), None);
}

#[test]
fn matches_needs_family_weight_and_slant() {
    let f = face("Open Sans", 400, false, 600);
    assert!(f.matches(&"Open Sans".to_string(), 400, false));
    assert!(!f.matches(&"Open Sans".to_string(), 400, true));
    assert!(!f.matches(&"Open Sans".to_string(), 700, false));
    assert!(!f.matches(&"open sans".to_string(), 400, false));
}

#[test]
fn new_resolver_has_no_faces() {
    let fonts = FontResolver::new(face("Fallback", 400, false, 600));
    assert!(fonts.faces.is_empty());
    assert_eq!(fonts.fallback, face("Fallback", 400, false, 600));
}

#[test]
fn register_keeps_the_order_of_registration() {
    let fonts = resolver();
    assert_eq!(fonts.faces.len(), 4);
    assert_eq!(fonts.faces[1], face("Open Sans", 700, false, 520));
    assert_eq!(fonts.fallback, face("Fallback", 400, false, 600));
}

#[test]
fn find_returns_the_first_matching_face() {
    let fonts = resolver();
    assert_eq!(fonts.find(&"Open Sans".to_string(), 400, false), Ok(0));
    assert_eq!(fonts.find(&"Open Sans".to_string(), 700, false), Ok(1));
    assert_eq!(fonts.find(&"Other".to_string(), 400, true), Ok(3));
}

#[test]
fn find_fails_where_no_face_matches() {
    let fonts = resolver();
    assert_eq!(
        fonts.find(&"Open Sans".to_string(), 400, true),
        Err(LayoutError::FontResolutionFailed)
    );
    assert_eq!(
        fonts.find(&"Missing".to_string(), 400, false),
        Err(LayoutError::FontResolutionFailed)
    );
    assert_eq!(
        fonts.find(&"Fallback".to_string(), 400, false),
        Err(LayoutError::FontResolutionFailed)
    );
}

#[test]
fn resolve_degrades_to_the_fallback() {
    let fonts = resolver();
    assert_eq!(fonts.resolve(&"Open Sans".to_string(), 400, false), FontHandle::Face(0));
    assert_eq!(fonts.resolve(&"Other".to_string(), 400, true), FontHandle::Face(3));
    assert_eq!(fonts.resolve(&"Open Sans".to_string(), 400, true), FontHandle::Fallback);
    assert_eq!(fonts.resolve(&"Missing".to_string(), 900, true), FontHandle::Fallback);
}

#[test]
fn resolve_on_an_empty_resolver_is_the_fallback() {
    let fonts = FontResolver::new(face("Fallback", 400, false, 600));
    assert_eq!(fonts.resolve(&"Fallback".to_string(), 400, false), FontHandle::Fallback);
}

#[test]
fn face_follows_the_handle() {
    let fonts = resolver();
    assert_eq!(fonts.face(FontHandle::Face(2)), &face("Open Sans", 400, false, 530));
    assert_eq!(fonts.face(FontHandle::Fallback), &face("Fallback", 400, false, 600));
}

#[test]
fn face_of_an_unknown_index_is_the_fallback() {
    let fonts = resolver();
    assert_eq!(fonts.face(FontHandle::Face(4)), &face("Fallback", 400, false, 600));
    assert_eq!(fonts.face(FontHandle::Face(usize::MAX)), &face("Fallback", 400, false, 600));
}
