use paragraph_layout::boundary::scan;
use paragraph_layout::font::{FontFace, FontResolver, GlyphEntry};
use paragraph_layout::line_breaker::ParagraphLayout;
use paragraph_layout::pipeline::{count_spacing_additions, layout};
use paragraph_layout::style::{StyleAttributes, StyleRun, StyleRunModel};

fn face(family: &str, letter: u16, space: u16) -> FontFace {
    let mut glyphs = Vec::new();
    for c in 'a'..='z' {
        glyphs.push(GlyphEntry { codepoint: c, glyphs: vec![c as u32], advance: letter });
    }
    glyphs.push(GlyphEntry { codepoint: ' ', glyphs: vec![32], advance: space });
    FontFace {
        family: family.to_string(),
        weight: 400,
        slant: false,
        ascent: 1000,
        descent: 250,
        missing_advance: 600,
        glyphs,
        ligatures: vec![],
    }
}

fn fonts() -> FontResolver {
    let mut fonts = FontResolver::new(face("Fallback", 700, 300));
    fonts.register(face("Open Sans", 500, 250));
    fonts
}

fn regular() -> StyleAttributes {
    StyleAttributes::new("Open Sans", 24, 400, false, 0xff00_0000, 40)
}

fn one_run(text: &str, style: StyleAttributes) -> StyleRunModel {
    let mut model = StyleRunModel::new();
    model.append(text, style);
    model
}

fn two_runs(text: &str, seam: usize, first: StyleAttributes, second: StyleAttributes) -> StyleRunModel {
    let text: Vec<char> = text.chars().collect();
    let end = text.len();
    StyleRunModel {
        text,
        runs: vec![
            StyleRun { start: 0, end: seam, style: first },
            StyleRun { start: seam, end, style: second },
        ],
    }
}

fn lay_out(model: StyleRunModel, max_width: u64) -> ParagraphLayout {
    layout(&model.finalize().unwrap(), &fonts(), max_width).unwrap()
}

/// Advance and spacing of every cluster, line by line.
fn advances(layout: &ParagraphLayout) -> Vec<Vec<(u32, u32)>> {
    layout
        .lines
        .iter()
        .map(|l| l.clusters.iter().map(|c| (c.advance, c.spacing)).collect())
        .collect()
}

#[test]
fn layout_of_an_empty_paragraph_has_no_lines() {
    let result = lay_out(StyleRunModel::new(), 500);
    assert_eq!(result, ParagraphLayout { lines: vec![] });
    assert_eq!(count_spacing_additions(&result), 0);
}

#[test]
fn layout_of_one_run_spaces_every_separator() {
    let result = lay_out(one_run("a b c d e f g", regular()), 500);
    assert_eq!(result.lines.len(), 1);
    assert_eq!(result.lines[0].width, 360);
    assert_eq!((result.lines[0].ascent, result.lines[0].descent), (24, 6));
    assert_eq!(count_spacing_additions(&result), 6);
    let spacings: Vec<u32> = result.lines[0].clusters.iter().map(|c| c.spacing).collect();
    assert_eq!(spacings, vec![0, 40, 0, 40, 0, 40, 0, 40, 0, 40, 0, 40, 0]);
}

#[test]
fn a_seam_anywhere_leaves_the_spacing_as_it_is() {
    let whole = lay_out(one_run("a b c d e f g", regular()), 500);
    for seam in 1..13 {
        let split = lay_out(two_runs("a b c d e f g", seam, regular(), regular()), 500);
        assert_eq!(count_spacing_additions(&split), 6);
        assert_eq!(advances(&split), advances(&whole));
        assert_eq!(split.lines[0].width, 360);
    }
}

#[test]
fn a_style_change_anywhere_leaves_the_count_of_additions_as_it_is() {
    for seam in 1..13 {
        for second in [regular().with_slant(true), regular().with_weight(700), regular().with_size(32)] {
            let split = lay_out(two_runs("a b c d e f g", seam, regular(), second), 500);
            assert_eq!(count_spacing_additions(&split), 6);
            let total: u32 = split.lines.iter().flat_map(|l| l.clusters.iter()).map(|c| c.spacing).sum();
            assert_eq!(total, 240);
        }
    }
}

#[test]
fn spaces_on_both_sides_of_a_style_change_are_all_spaced() {
    let mut model = StyleRunModel::new();
    model.append("a b ", regular());
    model.append(" c d e f g", regular().with_slant(true));
    let separators = scan(&model.text).len() as u128;
    assert_eq!(separators, 7);
    let split = lay_out(model, 500);
    let whole = lay_out(one_run("a b  c d e f g", regular()), 500);
    assert_eq!(count_spacing_additions(&split), 7);
    assert_eq!(count_spacing_additions(&split), count_spacing_additions(&whole));
    let marks: Vec<usize> = split
        .lines
        .iter()
        .flat_map(|l| l.clusters.iter())
        .filter(|c| c.boundary)
        .map(|c| c.start)
        .collect();
    assert_eq!(marks, vec![1, 3, 4, 6, 8, 10, 12]);
    let spaced: Vec<u32> = split
        .lines
        .iter()
        .flat_map(|l| l.clusters.iter())
        .filter(|c| c.boundary)
        .map(|c| c.spacing)
        .collect();
    assert_eq!(spaced, vec![40; 7]);
}

#[test]
fn a_space_that_meets_a_seam_is_spaced_once() {
    for (first, second) in [("a b", " c d e f g"), ("a b ", "c d e f g")] {
        let mut model = StyleRunModel::new();
        model.append(first, regular());
        model.append(second, regular().with_slant(true));
        let result = lay_out(model, 500);
        assert_eq!(count_spacing_additions(&result), 6);
    }
}

#[test]
fn the_count_of_additions_is_the_count_of_separators() {
    for text in ["", " ", "abc", "  a  b  ", "a b c d e f g", " leading", "trailing ", "a    b"] {
        let chars: Vec<char> = text.chars().collect();
        let separators = scan(&chars).len() as u128;
        for max_width in [0u64, 40, 100, 500] {
            let whole = lay_out(one_run(text, regular()), max_width);
            assert_eq!(count_spacing_additions(&whole), separators);
            for seam in 1..chars.len() {
                let split = lay_out(two_runs(text, seam, regular(), regular().with_slant(true)), max_width);
                assert_eq!(count_spacing_additions(&split), separators);
            }
        }
    }
}

#[test]
fn a_separator_takes_the_spacing_of_its_own_run() {
    let narrow = StyleAttributes::new("Open Sans", 24, 400, false, 0xff00_0000, 10);
    let mut model = StyleRunModel::new();
    model.append("a ", regular());
    model.append(" b", narrow);
    let result = lay_out(model, 500);
    let clusters = &result.lines[0].clusters;
    assert_eq!((clusters[1].run, clusters[1].spacing), (0, 40));
    assert_eq!((clusters[2].run, clusters[2].spacing), (1, 10));
    assert_eq!(result.lines[0].width, 12 + 46 + 16 + 12);
}

#[test]
fn layout_is_the_same_every_time() {
    let mut model = StyleRunModel::new();
    model.append("a b ", regular());
    model.append(" c d e ", regular().with_slant(true));
    model.append("f g", regular());
    let paragraph = model.finalize().unwrap();
    let first = layout(&paragraph, &fonts(), 100).unwrap();
    for _ in 0..5 {
        assert_eq!(layout(&paragraph, &fonts(), 100).unwrap(), first);
    }
    assert_eq!(format!("{:?}", layout(&paragraph, &fonts(), 100).unwrap()), format!("{:?}", first));
}

#[test]
fn layout_breaks_the_paragraph_at_the_maximum_width() {
    let result = lay_out(one_run("a b c d e f g", regular()), 100);
    let widths: Vec<u128> = result.lines.iter().map(|l| l.width).collect();
    assert_eq!(widths, vec![116, 116, 116, 12]);
    assert_eq!(count_spacing_additions(&result), 6);
}

#[test]
fn a_word_wider_than_the_maximum_has_its_line_and_layout_ends() {
    let result = lay_out(one_run("a bcdefg h", regular()), 30);
    let spans: Vec<(usize, usize)> = result
        .lines
        .iter()
        .map(|l| (l.clusters[0].start, l.clusters[l.clusters.len() - 1].end))
        .collect();
    assert_eq!(spans, vec![(0, 2), (2, 9), (9, 10)]);
    assert_eq!(result.lines[1].width, 118);
    assert!(result.lines[1].width > 30);
}

#[test]
fn every_cluster_lies_within_its_run() {
    let mut model = StyleRunModel::new();
    model.append("a b ", regular());
    model.append(" c d e ", regular().with_slant(true));
    model.append("f g", regular());
    let runs = model.runs.clone();
    let result = lay_out(model, 500);
    for c in result.lines.iter().flat_map(|l| l.clusters.iter()) {
        assert!(runs[c.run].start <= c.start && c.end <= runs[c.run].end);
        assert_eq!(c.word_spacing, runs[c.run].style.word_spacing);
    }
}

#[test]
fn the_largest_word_spacing_does_not_overflow() {
    let wide = StyleAttributes::new("Open Sans", 24, 400, false, 0xff00_0000, u32::MAX);
    let result = lay_out(one_run("a b c", wide), u64::MAX);
    assert_eq!(result.lines.len(), 1);
    assert_eq!(result.lines[0].width, 36 + 2 * (6 + u32::MAX as u128));
    assert_eq!(count_spacing_additions(&result), 2);
}

#[test]
fn a_paragraph_of_separators_is_one_line() {
    let result = lay_out(one_run("    ", regular()), 0);
    assert_eq!(result.lines.len(), 1);
    assert_eq!(result.lines[0].width, 4 * 46);
    assert_eq!(count_spacing_additions(&result), 4);
}
