//! Word-boundary detection over the whole text buffer, blind to style runs.

use vstd::prelude::*;

verus! {

/// The codepoints that separate words: the space character.
pub open spec fn is_separator(c: char) -> bool {
    c == ' '
}

/// Executable form of [`is_separator`].
pub fn separator(c: char) -> (r: bool)
    ensures
        r == is_separator(c),
{
    c == ' '
}

/// The indices below `upto` at which `text` holds a separator, ascending.
pub open spec fn separators_upto(text: Seq<char>, upto: int) -> Seq<usize>
    decreases upto,
{
    if upto <= 0 {
        Seq::empty()
    } else if is_separator(text[upto - 1]) {
        separators_upto(text, upto - 1).push((upto - 1) as usize)
    } else {
        separators_upto(text, upto - 1)
    }
}

/// The word boundaries of `text`: every index that holds a separator, ascending.
pub open spec fn separator_positions(text: Seq<char>) -> Seq<usize> {
    separators_upto(text, text.len() as int)
}

/// The number of separator codepoints in `text`.
pub open spec fn separator_count(text: Seq<char>) -> nat {
    separator_positions(text).len()
}

/// `separators_upto` lists exactly the separator indices below `upto`, each
/// once and in ascending order.
pub proof fn lemma_separators_upto(text: Seq<char>, upto: int)
    requires
        0 <= upto <= text.len() <= usize::MAX,
    ensures
        separators_upto(text, upto).len() <= upto,
        forall|k: int|
            0 <= k < separators_upto(text, upto).len() ==> {
                let p = #[trigger] separators_upto(text, upto)[k];
                p < upto && is_separator(text[p as int])
            },
        forall|k: int, l: int|
            0 <= k < l < separators_upto(text, upto).len() ==> separators_upto(text, upto)[k]
                < separators_upto(text, upto)[l],
        forall|i: int|
            0 <= i < upto && is_separator(#[trigger] text[i]) ==> separators_upto(
                text,
                upto,
            ).contains(i as usize),
    decreases upto,
{
    if upto > 0 {
        lemma_separators_upto(text, upto - 1);
        let before = separators_upto(text, upto - 1);
        let all = separators_upto(text, upto);
        assert forall|i: int| 0 <= i < upto && is_separator(#[trigger] text[i]) implies all.contains(
            i as usize,
        ) by {
            if i < upto - 1 {
                let k = choose|k: int| 0 <= k < before.len() && before[k] == i as usize;
                assert(all[k] == i as usize);
            } else {
                assert(all[all.len() - 1] == i as usize);
            }
        }
    }
}

/// Where no separator lies in `[from, to)`, the separators below `to` are
/// those below `from`.
pub proof fn lemma_separators_skip(text: Seq<char>, from: int, to: int)
    requires
        0 <= from <= to,
        forall|i: int| from <= i < to ==> !is_separator(#[trigger] text[i]),
    ensures
        separators_upto(text, to) == separators_upto(text, from),
    decreases to - from,
{
    if from < to {
        lemma_separators_skip(text, from, to - 1);
    }
}

/// Scans the whole buffer once and returns the index of every separator, in
/// ascending order. The style runs play no part in it.
pub fn scan(buffer: &Vec<char>) -> (boundaries: Vec<usize>)
    ensures
        boundaries@ == separator_positions(buffer@),
        boundaries@.len() == separator_count(buffer@),
        forall|k: int|
            0 <= k < boundaries@.len() ==> (#[trigger] boundaries@[k]) < buffer@.len()
                && is_separator(buffer@[boundaries@[k] as int]),
        forall|k: int, l: int| 0 <= k < l < boundaries@.len() ==> boundaries@[k] < boundaries@[l],
        forall|i: int|
            0 <= i < buffer@.len() && is_separator(#[trigger] buffer@[i]) ==> boundaries@.contains(
                i as usize,
            ),
{
    let mut boundaries: Vec<usize> = Vec::new();
    let n = buffer.len();
    let mut i: usize = 0;
    while i < n
        invariant
            n == buffer@.len(),
            i <= n,
            boundaries@ == separators_upto(buffer@, i as int),
        decreases n - i,
    {
        if separator(buffer[i]) {
            boundaries.push(i);
        }
        i = i + 1;
    }
    proof {
        lemma_separators_upto(buffer@, n as int);
    }
    boundaries
}

} // verus!
