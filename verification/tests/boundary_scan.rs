use paragraph_layout::boundary::{scan, separator};

fn chars(text: &str) -> Vec<char> {
    text.chars().collect()
}

#[test]
fn space_is_the_only_separator() {
    assert!(separator(' '));
    assert!(!separator('a'));
    assert!(!separator('\t'));
    assert!(!separator('\n'));
    assert!(!separator('\u{a0}'));
    assert!(!separator('\u{3000}'));
}

#[test]
fn scan_of_empty_buffer_finds_nothing() {
    assert_eq!(scan(&vec![]), Vec::<usize>::new());
}

#[test]
fn scan_of_one_word_finds_nothing() {
    assert_eq!(scan(&chars("word")), Vec::<usize>::new());
}

#[test]
fn scan_lists_every_space_in_ascending_order() {
    assert_eq!(scan(&chars("a b c d e f g")), vec![1, 3, 5, 7, 9, 11]);
}

#[test]
fn scan_finds_adjacent_spaces() {
    assert_eq!(scan(&chars("a b  c d e f g")), vec![1, 3, 4, 6, 8, 10, 12]);
}

#[test]
fn scan_finds_leading_and_trailing_spaces() {
    assert_eq!(scan(&chars("  ab ")), vec![0, 1, 4]);
    assert_eq!(scan(&chars("   ")), vec![0, 1, 2]);
}

#[test]
fn scan_indexes_codepoints() {
    assert_eq!(scan(&chars("\u{e9}\u{4e2d} x\u{1f600} y")), vec![2, 5]);
}

#[test]
fn scan_passes_over_other_white_space() {
    assert_eq!(scan(&chars("a\tb\nc\u{a0}d e")), vec![7]);
}
