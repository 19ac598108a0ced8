use paragraph_layout::font::{FontFace, FontHandle, FontResolver, GlyphEntry, Ligature};
use paragraph_layout::shaper::{scale, shape, shape_paragraph, GlyphCluster};
use paragraph_layout::style::{StyleAttributes, StyleRun, StyleRunModel};

const BLACK: u32 = 0xff00_0000;

fn open_sans() -> FontFace {
    let mut glyphs = Vec::new();
    for c in 'a'..='z' {
        glyphs.push(GlyphEntry { codepoint: c, glyphs: vec![c as u32], advance: 500 });
    }
    glyphs.push(GlyphEntry { codepoint: ' ', glyphs: vec![32], advance: 250 });
    glyphs.push(GlyphEntry { codepoint: '\u{e9}', glyphs: vec![101, 769], advance: 520 });
    FontFace {
        family: "Open Sans".to_string(),
        weight: 400,
        slant: false,
        ascent: 1000,
        descent: 250,
        missing_advance: 600,
        glyphs,
        ligatures: vec![
            Ligature { first: 'f', second: 'i', glyph: 1000, advance: 800 },
            Ligature { first: ' ', second: 'a', glyph: 1001, advance: 700 },
            Ligature { first: 'a', second: ' ', glyph: 1002, advance: 700 },
            Ligature { first: ' ', second: ' ', glyph: 1003, advance: 700 },
        ],
    }
}

fn fallback() -> FontFace {
    FontFace {
        family: "Fallback".to_string(),
        weight: 400,
        slant: false,
        ascent: 800,
        descent: 200,
        missing_advance: 600,
        glyphs: vec![GlyphEntry { codepoint: ' ', glyphs: vec![32], advance: 300 }],
        ligatures: vec![],
    }
}

fn fonts() -> FontResolver {
    let mut fonts = FontResolver::new(fallback());
    fonts.register(open_sans());
    fonts
}

fn regular() -> StyleAttributes {
    StyleAttributes::new("Open Sans", 24, 400, false, BLACK, 40)
}

fn chars(text: &str) -> Vec<char> {
    text.chars().collect()
}

fn in_open_sans(glyph: u32, start: usize, end: usize, run: usize, advance: u32) -> GlyphCluster {
    GlyphCluster {
        glyphs: vec![glyph],
        start,
        end,
        run,
        font: FontHandle::Face(0),
        size: 24,
        advance,
        ascent: 24,
        descent: 6,
        color: BLACK,
        word_spacing: 40,
        spacing: 0,
        boundary: false,
    }
}

fn in_fallback(glyph: u32, start: usize, end: usize, run: usize, advance: u32) -> GlyphCluster {
    GlyphCluster {
        glyphs: vec![glyph],
        start,
        end,
        run,
        font: FontHandle::Fallback,
        size: 24,
        advance,
        ascent: 19,
        descent: 4,
        color: BLACK,
        word_spacing: 40,
        spacing: 0,
        boundary: false,
    }
}

#[test]
fn scale_rounds_down_to_whole_units() {
    assert_eq!(scale(500, 24), 12);
    assert_eq!(scale(250, 24), 6);
    assert_eq!(scale(600, 24), 14);
    assert_eq!(scale(333, 7), 2);
    assert_eq!(scale(999, 1), 0);
    assert_eq!(scale(1000, 1), 1);
    assert_eq!(scale(0, 65535), 0);
    assert_eq!(scale(65535, 65535), 4_294_836);
}

#[test]
fn shape_gives_one_cluster_per_codepoint() {
    let text = chars("a b");
    let run = StyleRun { start: 0, end: 3, style: regular() };
    assert_eq!(
        shape(&text, &run, 0, &fonts()),
        vec![
            in_open_sans('a' as u32, 0, 1, 0, 12),
            in_open_sans(32, 1, 2, 0, 6),
            in_open_sans('b' as u32, 2, 3, 0, 12),
        ]
    );
}

#[test]
fn shape_of_an_empty_run_is_empty() {
    let text = chars("abc");
    let run = StyleRun { start: 2, end: 2, style: regular() };
    assert_eq!(shape(&text, &run, 0, &fonts()), vec![]);
}

#[test]
fn shape_covers_its_run_only() {
    let text = chars("abcdef");
    let run = StyleRun { start: 2, end: 4, style: regular() };
    assert_eq!(
        shape(&text, &run, 7, &fonts()),
        vec![in_open_sans('c' as u32, 2, 3, 7, 12), in_open_sans('d' as u32, 3, 4, 7, 12)]
    );
}

#[test]
fn shape_joins_a_ligature_into_one_cluster() {
    let text = chars("fig");
    let run = StyleRun { start: 0, end: 3, style: regular() };
    assert_eq!(
        shape(&text, &run, 0, &fonts()),
        vec![in_open_sans(1000, 0, 2, 0, 19), in_open_sans('g' as u32, 2, 3, 0, 12)]
    );
}

#[test]
fn shape_joins_left_to_right() {
    let text = chars("ffi");
    let run = StyleRun { start: 0, end: 3, style: regular() };
    assert_eq!(
        shape(&text, &run, 0, &fonts()),
        vec![in_open_sans('f' as u32, 0, 1, 0, 12), in_open_sans(1000, 1, 3, 0, 19)]
    );
}

#[test]
fn shape_never_joins_a_separator() {
    let text = chars("a a  a");
    let run = StyleRun { start: 0, end: 6, style: regular() };
    assert_eq!(
        shape(&text, &run, 0, &fonts()),
        vec![
            in_open_sans('a' as u32, 0, 1, 0, 12),
            in_open_sans(32, 1, 2, 0, 6),
            in_open_sans('a' as u32, 2, 3, 0, 12),
            in_open_sans(32, 3, 4, 0, 6),
            in_open_sans(32, 4, 5, 0, 6),
            in_open_sans('a' as u32, 5, 6, 0, 12),
        ]
    );
}

#[test]
fn shape_does_not_join_across_the_end_of_the_run() {
    let text = chars("fi");
    let run = StyleRun { start: 0, end: 1, style: regular() };
    assert_eq!(shape(&text, &run, 0, &fonts()), vec![in_open_sans('f' as u32, 0, 1, 0, 12)]);
}

#[test]
fn shape_keeps_the_glyphs_of_a_composed_codepoint_in_one_cluster() {
    let text = chars("\u{e9}t\u{e9}");
    let run = StyleRun { start: 0, end: 3, style: regular() };
    let composed = |start: usize| GlyphCluster {
        glyphs: vec![101, 769],
        ..in_open_sans(0, start, start + 1, 0, 12)
    };
    assert_eq!(
        shape(&text, &run, 0, &fonts()),
        vec![composed(0), in_open_sans('t' as u32, 1, 2, 0, 12), composed(2)]
    );
}

#[test]
fn shape_uses_glyph_zero_for_what_the_face_lacks() {
    let text = chars("aXb");
    let run = StyleRun { start: 0, end: 3, style: regular() };
    assert_eq!(
        shape(&text, &run, 0, &fonts()),
        vec![
            in_open_sans('a' as u32, 0, 1, 0, 12),
            in_open_sans(0, 1, 2, 0, 14),
            in_open_sans('b' as u32, 2, 3, 0, 12),
        ]
    );
}

#[test]
fn shape_falls_back_where_no_face_is_registered() {
    let text = chars("a b");
    let run = StyleRun { start: 0, end: 3, style: regular().with_slant(true) };
    assert_eq!(
        shape(&text, &run, 0, &fonts()),
        vec![in_fallback(0, 0, 1, 0, 14), in_fallback(32, 1, 2, 0, 7), in_fallback(0, 2, 3, 0, 14)]
    );
}

#[test]
fn shape_scales_with_the_size_of_the_run() {
    let text = chars("a ");
    let run = StyleRun { start: 0, end: 2, style: regular().with_size(32) };
    let clusters = shape(&text, &run, 0, &fonts());
    assert_eq!(clusters.len(), 2);
    assert_eq!((clusters[0].advance, clusters[0].ascent, clusters[0].descent), (16, 32, 8));
    assert_eq!((clusters[1].advance, clusters[1].ascent, clusters[1].descent), (8, 32, 8));
    assert_eq!((clusters[0].size, clusters[1].size), (32, 32));
}

#[test]
fn shape_carries_the_style_of_the_run() {
    let text = chars("a");
    let style = StyleAttributes::new("Open Sans", 24, 400, false, 0x8012_3456, 17);
    let run = StyleRun { start: 0, end: 1, style };
    let clusters = shape(&text, &run, 3, &fonts());
    assert_eq!(clusters.len(), 1);
    assert_eq!(clusters[0].color, 0x8012_3456);
    assert_eq!(clusters[0].word_spacing, 17);
    assert_eq!(clusters[0].run, 3);
    assert_eq!(clusters[0].spacing, 0);
    assert!(!clusters[0].boundary);
}

#[test]
fn shape_paragraph_merges_the_runs_in_order() {
    let mut model = StyleRunModel::new();
    model.append("a b ", regular());
    model.append(" c", regular().with_slant(true));
    let paragraph = model.finalize().unwrap();
    assert_eq!(
        shape_paragraph(&paragraph, &fonts()),
        vec![
            in_open_sans('a' as u32, 0, 1, 0, 12),
            in_open_sans(32, 1, 2, 0, 6),
            in_open_sans('b' as u32, 2, 3, 0, 12),
            in_open_sans(32, 3, 4, 0, 6),
            in_fallback(32, 4, 5, 1, 7),
            in_fallback(0, 5, 6, 1, 14),
        ]
    );
}

#[test]
fn shape_paragraph_keeps_clusters_within_their_runs() {
    let model = StyleRunModel {
        text: chars("fifi"),
        runs: vec![
            StyleRun { start: 0, end: 1, style: regular() },
            StyleRun { start: 1, end: 4, style: regular() },
        ],
    };
    let paragraph = model.finalize().unwrap();
    assert_eq!(
        shape_paragraph(&paragraph, &fonts()),
        vec![
            in_open_sans('f' as u32, 0, 1, 0, 12),
            in_open_sans('i' as u32, 1, 2, 1, 12),
            in_open_sans(1000, 2, 4, 1, 19),
        ]
    );
}

#[test]
fn shape_paragraph_of_nothing_is_empty() {
    let paragraph = StyleRunModel::new().finalize().unwrap();
    assert_eq!(shape_paragraph(&paragraph, &fonts()), vec![]);
}
