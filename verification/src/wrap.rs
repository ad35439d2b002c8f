//! Wrapping a text into lines of a fixed number of columns.

use vstd::prelude::*;
use vstd::seq_lib::lemma_flatten_concat;
use crate::text::{blank, chars_of, is_blank, push_range, rows_view, strings_of};
use crate::words::{
    are_words, is_solid, lemma_solid_of_one, lemma_solid_of_solid, lemma_words_are_solid,
    lemma_words_keep_text, lemma_words_of_parts, lemma_words_of_space, lemma_words_of_word,
    not_blank, solid, split_words, words,
};

verus! {

/// The pieces that a word is cut into so that none is wider than `width`:
/// every piece but the last holds exactly `width` characters, and the last
/// holds what is left, at least one character of a word that is not empty.
pub open spec fn chunks(word: Seq<char>, width: nat) -> Seq<Seq<char>>
    decreases word.len(),
{
    if width == 0 || word.len() <= width {
        seq![word]
    } else {
        seq![word.take(width as int)] + chunks(word.skip(width as int), width)
    }
}

/// A line that has just received the whole word `word` as its first content:
/// the word and, where the width leaves room for it, the space that parts it
/// from the next word.
pub open spec fn opened(word: Seq<char>, width: nat) -> Seq<char> {
    if word.len() + 1 <= width {
        word.push(' ')
    } else {
        word
    }
}

/// Whether a word can stand straight behind what `line` holds: the line is
/// empty or ends in a blank.
pub open spec fn ends_parted(line: Seq<char>) -> bool {
    line.len() == 0 || is_blank(line.last())
}

/// `line` with `word` put on it. One space comes with the word: behind it
/// where the word can stand straight behind what the line holds, else
/// between the two.
pub open spec fn with_word(line: Seq<char>, word: Seq<char>) -> Seq<char> {
    if ends_parted(line) {
        line + word.push(' ')
    } else {
        line.push(' ') + word
    }
}

/// The state of a wrap: the lines that are complete, and the line that still
/// takes words.
pub struct Wrapped {
    pub done: Seq<Seq<char>>,
    pub open: Seq<char>,
}

/// The wrap `w` after one more word.
///
/// A word that fits on the open line together with its one space is put
/// there. A word that does not, but is no wider than a line, closes the open
/// line, whatever that line holds, and starts the next one. A word wider than
/// `width` is cut into chunks: it closes the open line only if that line
/// holds something, all its chunks but the last are complete lines of their
/// own, and the last stands on the open line with no space behind it.
pub open spec fn add_word(w: Wrapped, word: Seq<char>, width: nat) -> Wrapped {
    if w.open.len() + word.len() + 1 <= width {
        Wrapped { done: w.done, open: with_word(w.open, word) }
    } else if word.len() <= width {
        Wrapped { done: w.done.push(w.open), open: opened(word, width) }
    } else {
        let pieces = chunks(word, width);
        let closed = if w.open.len() == 0 {
            w.done
        } else {
            w.done.push(w.open)
        };
        Wrapped { done: closed + pieces.drop_last(), open: pieces.last() }
    }
}

/// The wrap of the words `ws`, taken in order, starting from one empty line.
pub open spec fn add_words(ws: Seq<Seq<char>>, width: nat) -> Wrapped
    decreases ws.len(),
{
    if ws.len() == 0 {
        Wrapped { done: Seq::empty(), open: Seq::empty() }
    } else {
        add_word(add_words(ws.drop_last(), width), ws.last(), width)
    }
}

/// The lines of `text` wrapped at `width` columns.
pub open spec fn wrap(text: Seq<char>, width: nat) -> Seq<Seq<char>> {
    let w = add_words(words(text), width);
    w.done.push(w.open)
}

/// Whether no member of `lines` is wider than `width`.
pub open spec fn all_fit(lines: Seq<Seq<char>>, width: nat) -> bool {
    forall|i: int| 0 <= i < lines.len() ==> (#[trigger] lines[i]).len() <= width
}

/// The chunks of a word: there is at least one, every one but the last is
/// exactly `width` wide, the last is not wider and holds something if the
/// word does, and put end to end they are the word.
pub proof fn lemma_chunks(word: Seq<char>, width: nat)
    requires
        width >= 1,
    ensures
        chunks(word, width).len() >= 1,
        forall|i: int|
            0 <= i < chunks(word, width).len() - 1 ==> (#[trigger] chunks(word, width)[i]).len()
                == width,
        chunks(word, width).last().len() <= width,
        word.len() >= 1 ==> chunks(word, width).last().len() >= 1,
        word.len() <= width ==> chunks(word, width) == seq![word],
        word.len() > width ==> chunks(word, width).len() >= 2,
        chunks(word, width).flatten() == word,
    decreases word.len(),
{
    if word.len() <= width {
        seq![word].lemma_flatten_one_element();
    } else {
        let head = word.take(width as int);
        let tail = word.skip(width as int);
        lemma_chunks(tail, width);
        let rest = chunks(tail, width);
        lemma_flatten_concat(seq![head], rest);
        seq![head].lemma_flatten_one_element();
    }
}

/// A word that is not empty is cut into as many chunks as it takes lines of
/// `width` columns to hold it: its length divided by the width, rounded up.
pub proof fn lemma_chunks_count(word: Seq<char>, width: nat)
    requires
        width >= 1,
        word.len() >= 1,
    ensures
        chunks(word, width).len() == (word.len() + width - 1) / (width as int),
    decreases word.len(),
{
    let n = word.len() as int;
    let w = width as int;
    if n <= w {
        assert((n + w - 1) / w == 1) by (nonlinear_arith)
            requires
                1 <= n <= w,
        ;
    } else {
        lemma_chunks_count(word.skip(w), width);
        assert((n + w - 1) / w == (n - w + w - 1) / w + 1) by (nonlinear_arith)
            requires
                w >= 1,
        ;
    }
}

/// Wrapping keeps every line, the open one too, within the width.
pub proof fn lemma_add_words_fit(ws: Seq<Seq<char>>, width: nat)
    requires
        width >= 1,
    ensures
        all_fit(add_words(ws, width).done, width),
        add_words(ws, width).open.len() <= width,
    decreases ws.len(),
{
    if ws.len() > 0 {
        let before = add_words(ws.drop_last(), width);
        let word = ws.last();
        lemma_add_words_fit(ws.drop_last(), width);
        if word.len() > width {
            lemma_chunks(word, width);
            let cut = chunks(word, width).drop_last();
            assert(all_fit(before.done + cut, width));
            assert(all_fit(before.done.push(before.open) + cut, width));
        }
    }
}

/// No line of a wrapped text is wider than the width, and there is at least
/// one line.
pub proof fn lemma_wrap_fits(text: Seq<char>, width: nat)
    requires
        width >= 1,
    ensures
        wrap(text, width).len() >= 1,
        all_fit(wrap(text, width), width),
{
    lemma_add_words_fit(words(text), width);
}

/// A text that is one word wider than the width is wrapped into the chunks
/// of that word and nothing else: no line is empty, every line but the last
/// is exactly `width` wide, and no space is added.
pub proof fn lemma_wrap_of_wide_word(text: Seq<char>, width: nat)
    requires
        width >= 1,
        is_solid(text),
        text.len() > width,
    ensures
        wrap(text, width) == chunks(text, width),
{
    lemma_words_of_word(text);
    lemma_chunks(text, width);
    assert(seq![text].drop_last() =~= Seq::<Seq<char>>::empty());
    assert(add_words(seq![text], width) == add_word(
        add_words(Seq::<Seq<char>>::empty(), width),
        text,
        width,
    ));
}

/// The columns that the words `ws` take when each comes with one space.
pub open spec fn spread(ws: Seq<Seq<char>>) -> nat
    decreases ws.len(),
{
    if ws.len() == 0 {
        0
    } else {
        spread(ws.drop_last()) + ws.last().len() + 1
    }
}

/// As long as the words, each with its one space, are not wider than the
/// width, they all stand on the open line; once they are wider, a line has
/// been closed.
pub proof fn lemma_add_words_one_line(ws: Seq<Seq<char>>, width: nat)
    requires
        width >= 1,
    ensures
        add_words(ws, width).done.len() == 0 <==> spread(ws) <= width,
        spread(ws) <= width ==> add_words(ws, width).open.len() == spread(ws),
    decreases ws.len(),
{
    if ws.len() > 0 {
        lemma_add_words_one_line(ws.drop_last(), width);
        if ws.last().len() > width {
            lemma_chunks(ws.last(), width);
        }
    }
}

/// A text is wrapped into a single line if and only if its words, each with
/// its one space, are not wider than the width. A text that needs more
/// columns gives more lines.
pub proof fn lemma_wrap_one_line(text: Seq<char>, width: nat)
    requires
        width >= 1,
    ensures
        wrap(text, width).len() == 1 <==> spread(words(text)) <= width,
{
    lemma_add_words_one_line(words(text), width);
}

/// The characters that a wrap has laid out so far, line after line.
pub open spec fn laid(w: Wrapped) -> Seq<char> {
    w.done.flatten() + w.open
}

/// `s` followed by a space has the same characters that are not blank as `s`.
proof fn lemma_solid_ignores_space(s: Seq<char>)
    ensures
        solid(s + seq![' ']) == solid(s),
{
    Seq::filter_distributes_over_add(s, seq![' '], not_blank());
    lemma_solid_of_one(' ');
}

/// One more word adds its characters, and nothing else that is not blank,
/// behind what the wrap has laid out.
proof fn lemma_add_word_keeps_text(w: Wrapped, word: Seq<char>, width: nat)
    requires
        width >= 1,
        is_solid(word),
    ensures
        solid(laid(add_word(w, word, width))) == solid(laid(w)) + word,
{
    let after = add_word(w, word, width);
    let grown = laid(w) + word;
    assert(solid(grown) == solid(laid(w)) + word) by {
        Seq::filter_distributes_over_add(laid(w), word, not_blank());
        lemma_solid_of_solid(word);
    }
    if w.open.len() + word.len() + 1 <= width {
        if ends_parted(w.open) {
            assert(laid(after) =~= grown + seq![' ']);
            lemma_solid_ignores_space(grown);
        } else {
            let spaced = laid(w) + seq![' '];
            assert(laid(after) =~= spaced + word);
            lemma_solid_ignores_space(laid(w));
            Seq::filter_distributes_over_add(spaced, word, not_blank());
            lemma_solid_of_solid(word);
        }
    } else if word.len() <= width {
        w.done.lemma_flatten_push(w.open);
        if word.len() + 1 <= width {
            assert(laid(after) =~= grown + seq![' ']);
            lemma_solid_ignores_space(grown);
        }
    } else {
        lemma_chunks(word, width);
        let pieces = chunks(word, width);
        let cut = pieces.drop_last();
        assert(after.done.flatten() =~= laid(w) + cut.flatten()) by {
            if w.open.len() == 0 {
                lemma_flatten_concat(w.done, cut);
            } else {
                lemma_flatten_concat(w.done.push(w.open), cut);
                w.done.lemma_flatten_push(w.open);
            }
        }
        assert(cut.flatten() + pieces.last() =~= word) by {
            assert(cut.push(pieces.last()) =~= pieces);
            cut.lemma_flatten_push(pieces.last());
        }
    }
}

/// What a wrap has laid out, without its blanks, is the words put end to end.
pub proof fn lemma_add_words_keep_text(ws: Seq<Seq<char>>, width: nat)
    requires
        width >= 1,
        are_words(ws),
    ensures
        solid(laid(add_words(ws, width))) == ws.flatten(),
    decreases ws.len(),
{
    if ws.len() == 0 {
        lemma_solid_of_solid(Seq::<char>::empty());
    } else {
        let word = ws.last();
        lemma_add_words_keep_text(ws.drop_last(), width);
        lemma_add_word_keeps_text(add_words(ws.drop_last(), width), word, width);
        assert(ws.flatten() == ws.drop_last().flatten() + word) by {
            assert(ws.drop_last().push(word) =~= ws);
            ws.drop_last().lemma_flatten_push(word);
        }
    }
}

/// Wrapping keeps the characters of the text: the lines, put end to end and
/// without their blanks, are the text without its blanks. No character of a
/// word is lost, repeated or moved.
pub proof fn lemma_wrap_keeps_text(text: Seq<char>, width: nat)
    requires
        width >= 1,
    ensures
        solid(wrap(text, width).flatten()) == solid(text),
{
    let w = add_words(words(text), width);
    lemma_words_are_solid(text, 0);
    lemma_add_words_keep_text(words(text), width);
    lemma_words_keep_text(text);
    w.done.lemma_flatten_push(w.open);
}

/// The words that stand on `lines`, line after line.
pub open spec fn words_on(lines: Seq<Seq<char>>) -> Seq<Seq<char>>
    decreases lines.len(),
{
    if lines.len() == 0 {
        Seq::empty()
    } else {
        words_on(lines.drop_last()) + words(lines.last())
    }
}

/// The words `ws` with every one that is wider than `width` replaced by its
/// chunks.
pub open spec fn cut_words(ws: Seq<Seq<char>>, width: nat) -> Seq<Seq<char>>
    decreases ws.len(),
{
    if ws.len() == 0 {
        Seq::empty()
    } else {
        cut_words(ws.drop_last(), width) + chunks(ws.last(), width)
    }
}

/// The words on two runs of lines are the words on the first followed by the
/// words on the second.
proof fn lemma_words_on_parts(a: Seq<Seq<char>>, b: Seq<Seq<char>>)
    ensures
        words_on(a + b) == words_on(a) + words_on(b),
    decreases b.len(),
{
    if b.len() > 0 {
        lemma_words_on_parts(a, b.drop_last());
        assert((a + b).drop_last() =~= a + b.drop_last());
    }
}

/// Lines that each hold one word and nothing else hold those words.
proof fn lemma_words_on_words(ws: Seq<Seq<char>>)
    requires
        are_words(ws),
    ensures
        words_on(ws) == ws,
    decreases ws.len(),
{
    if ws.len() > 0 {
        lemma_words_on_words(ws.drop_last());
        lemma_words_of_word(ws.last());
    }
}

/// The chunks of a word are words themselves: none is empty, none holds a
/// blank.
proof fn lemma_chunks_are_words(word: Seq<char>, width: nat)
    requires
        width >= 1,
        word.len() > 0,
        is_solid(word),
    ensures
        are_words(chunks(word, width)),
    decreases word.len(),
{
    if word.len() > width {
        lemma_chunks_are_words(word.skip(width as int), width);
    }
}

/// A word followed by a space, or a word alone, is that one word.
proof fn lemma_words_of_opened(word: Seq<char>, width: nat)
    requires
        word.len() > 0,
        is_solid(word),
    ensures
        words(word.push(' ')) == seq![word],
        words(opened(word, width)) == seq![word],
{
    lemma_words_of_word(word);
    lemma_words_of_parts(word, seq![' ']);
    lemma_words_of_space();
    assert(word + seq![' '] =~= word.push(' '));
}

/// A word put on a line adds itself behind the words of the line, and is not
/// joined to the last of them.
proof fn lemma_words_with_word(line: Seq<char>, word: Seq<char>)
    requires
        word.len() > 0,
        is_solid(word),
    ensures
        words(with_word(line, word)) == words(line) + seq![word],
{
    lemma_words_of_opened(word, 0);
    lemma_words_of_word(word);
    if ends_parted(line) {
        lemma_words_of_parts(line, word.push(' '));
    } else {
        lemma_words_of_parts(line, seq![' ']);
        lemma_words_of_space();
        assert(line + seq![' '] =~= line.push(' '));
        lemma_words_of_parts(line.push(' '), word);
    }
}

/// One more word adds itself, or its chunks if it is wider than the width,
/// behind the words that the wrap holds, and joins no two words.
proof fn lemma_add_word_keeps_words(w: Wrapped, word: Seq<char>, width: nat)
    requires
        width >= 1,
        word.len() > 0,
        is_solid(word),
    ensures
        words_on(add_word(w, word, width).done) + words(add_word(w, word, width).open)
            == words_on(w.done) + words(w.open) + chunks(word, width),
{
    lemma_chunks(word, width);
    lemma_chunks_are_words(word, width);
    let pieces = chunks(word, width);
    assert(w.done.push(w.open).drop_last() =~= w.done);
    if w.open.len() + word.len() + 1 <= width {
        lemma_words_with_word(w.open, word);
    } else if word.len() <= width {
        lemma_words_of_opened(word, width);
    } else {
        let cut = pieces.drop_last();
        lemma_words_on_words(cut);
        if w.open.len() == 0 {
            lemma_words_on_parts(w.done, cut);
        } else {
            lemma_words_on_parts(w.done.push(w.open), cut);
        }
        lemma_words_of_word(pieces.last());
    }
}

/// The words that a wrap holds are the words it was given, the wide ones cut
/// into chunks.
pub proof fn lemma_add_words_keep_words(ws: Seq<Seq<char>>, width: nat)
    requires
        width >= 1,
        are_words(ws),
    ensures
        words_on(add_words(ws, width).done) + words(add_words(ws, width).open) == cut_words(
            ws,
            width,
        ),
    decreases ws.len(),
{
    if ws.len() > 0 {
        lemma_add_words_keep_words(ws.drop_last(), width);
        lemma_add_word_keeps_words(add_words(ws.drop_last(), width), ws.last(), width);
    }
}

/// Wrapping keeps the words of the text: the words that stand on the lines,
/// line after line, are the words of the text in their order, every one
/// that is wider than a line replaced by its chunks. No word is dropped,
/// moved or joined to another, and no word that fits on a line is cut.
pub proof fn lemma_wrap_keeps_words(text: Seq<char>, width: nat)
    requires
        width >= 1,
    ensures
        words_on(wrap(text, width)) == cut_words(words(text), width),
{
    let w = add_words(words(text), width);
    lemma_words_are_solid(text, 0);
    lemma_add_words_keep_words(words(text), width);
    assert(w.done.push(w.open).drop_last() =~= w.done);
}

/// Wraps the characters of `text` at `width` columns.
pub fn wrap_chars(text: &Vec<char>, width: usize) -> (lines: Vec<Vec<char>>)
    requires
        width >= 1,
    ensures
        rows_view(lines@) == wrap(text@, width as nat),
{
    let ws = split_words(text);
    let mut lines: Vec<Vec<char>> = Vec::new();
    let mut open: Vec<char> = Vec::new();
    let mut n: usize = 0;
    assert(rows_view(lines@) =~= Seq::<Seq<char>>::empty());
    while n < ws.len()
        invariant
            n <= ws.len(),
            width >= 1,
            open@.len() <= width,
            add_words(rows_view(ws@).take(n as int), width as nat) == (Wrapped {
                done: rows_view(lines@),
                open: open@,
            }),
        decreases ws.len() - n,
    {
        let word = &ws[n];
        let ghost before = Wrapped { done: rows_view(lines@), open: open@ };
        proof {
            let upto = rows_view(ws@).take(n + 1);
            assert(upto.drop_last() =~= rows_view(ws@).take(n as int));
            assert(word@.subrange(0, word@.len() as int) =~= word@);
        }
        if word.len() < width - open.len() {
            if open.len() == 0 || blank(open[open.len() - 1]) {
                push_range(&mut open, word, 0, word.len());
                open.push(' ');
            } else {
                open.push(' ');
                push_range(&mut open, word, 0, word.len());
            }
        } else if word.len() <= width {
            assert(rows_view(lines@.push(open)) =~= before.done.push(before.open));
            lines.push(open);
            open = Vec::new();
            push_range(&mut open, word, 0, word.len());
            if open.len() < width {
                open.push(' ');
            }
        } else {
            if open.len() > 0 {
                assert(rows_view(lines@.push(open)) =~= before.done.push(before.open));
                lines.push(open);
            }
            let ghost closed = rows_view(lines@);
            let mut start: usize = 0;
            let ghost mut cut: Seq<Seq<char>> = Seq::empty();
            while word.len() - start > width
                invariant
                    start <= word.len(),
                    width >= 1,
                    chunks(word@, width as nat) == cut + chunks(
                        word@.skip(start as int),
                        width as nat,
                    ),
                    rows_view(lines@) == closed + cut,
                decreases word.len() - start,
            {
                let mut piece: Vec<char> = Vec::new();
                push_range(&mut piece, word, start, start + width);
                proof {
                    let rest = word@.skip(start as int);
                    assert(piece@ =~= rest.take(width as int));
                    assert(rest.skip(width as int) =~= word@.skip(start + width));
                    assert(rows_view(lines@.push(piece)) =~= rows_view(lines@).push(piece@));
                    cut = cut.push(piece@);
                }
                lines.push(piece);
                start += width;
            }
            open = Vec::new();
            push_range(&mut open, word, start, word.len());
            proof {
                let tail = word@.skip(start as int);
                assert(chunks(word@, width as nat) =~= cut.push(tail));
                assert(cut.push(tail).drop_last() =~= cut);
            }
        }
        n += 1;
    }
    assert(rows_view(ws@).take(n as int) =~= rows_view(ws@));
    lines.push(open);
    lines
}

/// Wraps `text` into lines of at most `line_len` characters.
///
/// The words of the text are laid out greedily. A word goes on the open line
/// if it fits there together with one space; the space stands behind the
/// word, or before it where the line ends in the last piece of a cut word.
/// A word that does not fit, but is no wider than a line, closes the open
/// line, even if that line is still empty, and starts the next one. A word
/// wider than a line is cut into pieces of `line_len` characters: it closes
/// the open line only if that line holds something, every piece but the last
/// is a line of its own, and the last piece starts the next line with no
/// space behind it. There is always at least one line: a text without words
/// gives one empty line.
pub fn wrap_text(text: &str, line_len: usize) -> (lines: Vec<String>)
    requires
        line_len >= 1,
    ensures
        lines.deep_view() == wrap(text@, line_len as nat),
{
    let chars = chars_of(text);
    let rows = wrap_chars(&chars, line_len);
    strings_of(&rows)
}

} // verus!
