//! Words: the maximal runs of non-blank characters of a text.

use vstd::prelude::*;
use vstd::seq_lib::lemma_flatten_concat;
use crate::text::{blank, is_blank, rows_view};

verus! {

/// Whether a word starts at index `i` of `s`: a non-blank character that is
/// the first of the text or follows a blank.
pub open spec fn starts_word(s: Seq<char>, i: int) -> bool {
    &&& 0 <= i < s.len()
    &&& !is_blank(s[i])
    &&& (i == 0 || is_blank(s[i - 1]))
}

/// The first index from `i` on that holds a blank, or the length of `s` if
/// there is none.
pub open spec fn word_end(s: Seq<char>, i: int) -> int
    decreases s.len() - i,
{
    if 0 <= i < s.len() && !is_blank(s[i]) {
        word_end(s, i + 1)
    } else {
        i
    }
}

/// The words that start at index `i` or later, in order.
pub open spec fn words_from(s: Seq<char>, i: int) -> Seq<Seq<char>>
    decreases s.len() - i,
{
    if i < 0 || i >= s.len() {
        Seq::empty()
    } else if starts_word(s, i) {
        seq![s.subrange(i, word_end(s, i))] + words_from(s, i + 1)
    } else {
        words_from(s, i + 1)
    }
}

/// The words of `s`, in order.
pub open spec fn words(s: Seq<char>) -> Seq<Seq<char>> {
    words_from(s, 0)
}

/// A run of non-blank characters from `i` that stops at `j` ends at `j`.
pub proof fn lemma_word_end(s: Seq<char>, i: int, j: int)
    requires
        0 <= i <= j <= s.len(),
        forall|k: int| i <= k < j ==> !is_blank(#[trigger] s[k]),
        j == s.len() || is_blank(s[j]),
    ensures
        word_end(s, i) == j,
    decreases j - i,
{
    if i < j {
        lemma_word_end(s, i + 1, j);
    }
}

/// No word starts strictly inside a run of non-blank characters.
pub proof fn lemma_no_word_inside(s: Seq<char>, i: int, j: int)
    requires
        1 <= i <= j <= s.len(),
        forall|k: int| i - 1 <= k < j - 1 ==> !is_blank(#[trigger] s[k]),
    ensures
        words_from(s, i) == words_from(s, j),
    decreases j - i,
{
    if i < j {
        lemma_no_word_inside(s, i + 1, j);
    }
}

/// The test that keeps the characters that are not blank.
pub open spec fn not_blank() -> spec_fn(char) -> bool {
    |c: char| !is_blank(c)
}

/// `s` without its blanks.
pub open spec fn solid(s: Seq<char>) -> Seq<char> {
    s.filter(not_blank())
}

/// Whether `s` holds no blank.
pub open spec fn is_solid(s: Seq<char>) -> bool {
    forall|k: int| 0 <= k < s.len() ==> !is_blank(#[trigger] s[k])
}

/// A text without blanks loses nothing when its blanks are taken out.
pub proof fn lemma_solid_of_solid(s: Seq<char>)
    requires
        is_solid(s),
    ensures
        solid(s) == s,
    decreases s.len(),
{
    reveal(Seq::filter);
    if s.len() > 0 {
        lemma_solid_of_solid(s.drop_last());
    }
}

/// The run of non-blank characters from `i` reaches up to `word_end(s, i)`
/// and no further.
pub proof fn lemma_word_end_bounds(s: Seq<char>, i: int)
    requires
        0 <= i <= s.len(),
    ensures
        i <= word_end(s, i) <= s.len(),
        forall|k: int| i <= k < word_end(s, i) ==> !is_blank(#[trigger] s[k]),
        word_end(s, i) == s.len() || is_blank(s[word_end(s, i)]),
    decreases s.len() - i,
{
    if i < s.len() && !is_blank(s[i]) {
        lemma_word_end_bounds(s, i + 1);
    }
}

/// Whether every member of `ws` is not empty and holds no blank.
pub open spec fn are_words(ws: Seq<Seq<char>>) -> bool {
    forall|k: int| 0 <= k < ws.len() ==> (#[trigger] ws[k]).len() > 0 && is_solid(ws[k])
}

/// Every word is a stretch of the text that is not empty and holds no blank.
pub proof fn lemma_words_are_solid(s: Seq<char>, i: int)
    requires
        0 <= i,
    ensures
        are_words(words_from(s, i)),
    decreases s.len() - i,
{
    if i < s.len() {
        lemma_words_are_solid(s, i + 1);
        if starts_word(s, i) {
            lemma_word_end_bounds(s, i);
            lemma_word_end_bounds(s, i + 1);
        }
    }
}

/// What is left of a single character when blanks are taken out.
pub proof fn lemma_solid_of_one(c: char)
    ensures
        solid(seq![c]) == if is_blank(c) {
            Seq::<char>::empty()
        } else {
            seq![c]
        },
{
    reveal_with_fuel(Seq::filter, 2);
}

/// The words from a word boundary on, put end to end, are the rest of the
/// text without its blanks.
proof fn lemma_words_keep_text_from(s: Seq<char>, i: int)
    requires
        0 <= i <= s.len(),
        i == 0 || i == s.len() || is_blank(s[i - 1]),
    ensures
        words_from(s, i).flatten() == solid(s.skip(i)),
    decreases s.len() - i,
{
    broadcast use Seq::filter_distributes_over_add;

    if i < s.len() && is_blank(s[i]) {
        lemma_words_keep_text_from(s, i + 1);
        assert(s.skip(i) =~= seq![s[i]] + s.skip(i + 1));
        lemma_solid_of_one(s[i]);
    } else if i < s.len() {
        let j = word_end(s, i);
        lemma_word_end_bounds(s, i);
        let word = s.subrange(i, j);
        lemma_solid_of_solid(word);
        lemma_no_word_inside(s, i + 1, j);
        lemma_flatten_concat(seq![word], words_from(s, j));
        seq![word].lemma_flatten_one_element();
        assert(s.skip(i) =~= word + s.skip(j));
        if j < s.len() {
            lemma_words_keep_text_from(s, j + 1);
            assert(s.skip(j) =~= seq![s[j]] + s.skip(j + 1));
            lemma_solid_of_one(s[j]);
        }
    }
}

/// The words of a text, put end to end, are the text without its blanks:
/// splitting drops no character that is not blank, and keeps their order.
pub proof fn lemma_words_keep_text(s: Seq<char>)
    ensures
        words(s).flatten() == solid(s),
{
    lemma_words_keep_text_from(s, 0);
    assert(s.skip(0) =~= s);
}

/// Whether no word runs across the seam between `a` and `b`: one of them is
/// empty, or `a` ends in a blank, or `b` starts with one.
pub open spec fn parted(a: Seq<char>, b: Seq<char>) -> bool {
    a.len() == 0 || b.len() == 0 || is_blank(a.last()) || is_blank(b[0])
}

/// In front of a seam that parts words, a run of non-blank characters ends
/// where it ends without what follows the seam.
proof fn lemma_word_end_in_front(a: Seq<char>, b: Seq<char>, i: int)
    requires
        parted(a, b),
        0 <= i < a.len(),
    ensures
        word_end(a + b, i) == word_end(a, i),
        word_end(a, i) <= a.len(),
    decreases a.len() - i,
{
    if !is_blank(a[i]) {
        if i + 1 < a.len() {
            lemma_word_end_in_front(a, b, i + 1);
        } else {
            assert(word_end(a, i + 1) == i + 1);
            assert(word_end(a + b, i + 1) == i + 1);
        }
    }
}

/// Behind `a`, runs of non-blank characters end where they end in `b` alone.
proof fn lemma_word_end_behind(a: Seq<char>, b: Seq<char>, j: int)
    requires
        0 <= j <= b.len(),
    ensures
        word_end(a + b, a.len() + j) == a.len() + word_end(b, j),
    decreases b.len() - j,
{
    if j < b.len() && !is_blank(b[j]) {
        lemma_word_end_behind(a, b, j + 1);
    }
}

/// Behind a seam that parts words, the words are those of `b` alone.
proof fn lemma_words_behind(a: Seq<char>, b: Seq<char>, j: int)
    requires
        parted(a, b),
        0 <= j <= b.len(),
    ensures
        words_from(a + b, a.len() + j) == words_from(b, j),
    decreases b.len() - j,
{
    let s = a + b;
    let n = a.len() as int;
    if j < b.len() {
        lemma_words_behind(a, b, j + 1);
        if starts_word(b, j) {
            lemma_word_end_behind(a, b, j);
            lemma_word_end_bounds(b, j);
            assert(s.subrange(n + j, n + word_end(b, j)) =~= b.subrange(j, word_end(b, j)));
        }
    }
}

/// In front of a seam that parts words, the words are those of `a` alone,
/// followed by those of `b`.
proof fn lemma_words_in_front(a: Seq<char>, b: Seq<char>, i: int)
    requires
        parted(a, b),
        0 <= i <= a.len(),
    ensures
        words_from(a + b, i) == words_from(a, i) + words(b),
    decreases a.len() - i,
{
    if i == a.len() {
        lemma_words_behind(a, b, 0);
    } else {
        lemma_words_in_front(a, b, i + 1);
        if starts_word(a, i) {
            lemma_word_end_in_front(a, b, i);
            lemma_word_end_bounds(a, i);
            let end = word_end(a, i);
            assert((a + b).subrange(i, end) =~= a.subrange(i, end));
        }
    }
}

/// Where no word runs across the seam, the words of two texts put together
/// are the words of the first followed by the words of the second.
pub proof fn lemma_words_of_parts(a: Seq<char>, b: Seq<char>)
    requires
        parted(a, b),
    ensures
        words(a + b) == words(a) + words(b),
{
    lemma_words_in_front(a, b, 0);
}

/// A text that is not empty and holds no blank is one word.
pub proof fn lemma_words_of_word(w: Seq<char>)
    requires
        w.len() > 0,
        is_solid(w),
    ensures
        words(w) == seq![w],
{
    lemma_word_end(w, 0, w.len() as int);
    lemma_no_word_inside(w, 1, w.len() as int);
    assert(w.subrange(0, w.len() as int) =~= w);
}

/// A single space holds no word.
pub proof fn lemma_words_of_space()
    ensures
        words(seq![' ']) == Seq::<Seq<char>>::empty(),
{
    reveal_with_fuel(words_from, 2);
}

/// Splits `text` into its words.
pub fn split_words(text: &Vec<char>) -> (ws: Vec<Vec<char>>)
    ensures
        rows_view(ws@) == words(text@),
{
    let mut ws: Vec<Vec<char>> = Vec::new();
    let mut i: usize = 0;
    while i < text.len()
        invariant
            i <= text.len(),
            0 < i < text.len() ==> is_blank(text@[i - 1]),
            words(text@) == rows_view(ws@) + words_from(text@, i as int),
        decreases text.len() - i,
    {
        if blank(text[i]) {
            i += 1;
        } else {
            let mut word: Vec<char> = Vec::new();
            word.push(text[i]);
            let mut j: usize = i + 1;
            while j < text.len() && !blank(text[j])
                invariant
                    i < j <= text.len(),
                    forall|k: int| i <= k < j ==> !is_blank(#[trigger] text@[k]),
                    word@ == text@.subrange(i as int, j as int),
                decreases text.len() - j,
            {
                word.push(text[j]);
                j += 1;
            }
            proof {
                lemma_word_end(text@, i as int, j as int);
                lemma_no_word_inside(text@, i + 1, j as int);
            }
            ws.push(word);
            if j < text.len() {
                i = j + 1;
            } else {
                i = j;
            }
        }
    }
    ws
}

} // verus!
