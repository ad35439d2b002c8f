//! Turning the lines of a header body into a comment block.

use vstd::prelude::*;
use crate::template::Border;
use crate::text::{push_range, push_repeated, repeated, rows_of, rows_view, strings_of};

verus! {

/// The token that opens a block comment.
pub open spec fn opening() -> Seq<char> {
    seq!['/', '*']
}

/// The token that closes a block comment.
pub open spec fn closing() -> Seq<char> {
    seq!['*', '/']
}

/// The token that starts a line comment.
pub open spec fn line_comment() -> Seq<char> {
    seq!['/', '/']
}

/// The character of a side edge, or nothing where the edge is not drawn.
pub open spec fn edge(c: Option<char>) -> Seq<char> {
    match c {
        Some(c) => seq![c],
        None => Seq::empty(),
    }
}

/// A rule of `width` copies of the edge's character, or nothing where the
/// edge is not drawn.
pub open spec fn rule(c: Option<char>, width: nat) -> Seq<char> {
    match c {
        Some(c) => repeated(c, width),
        None => Seq::empty(),
    }
}

/// The comment block made from `body`.
///
/// With a border, every body line gets the left edge before it and the right
/// edge behind it, and the block starts with the opening token followed by
/// the top rule and ends with the bottom rule followed by the closing token.
/// Without a border every body line is a line comment, and no line is added.
pub open spec fn framed(body: Seq<Seq<char>>, border: Option<Border>, row_width: nat) -> Seq<
    Seq<char>,
> {
    match border {
        Some(b) => seq![opening() + rule(b.top, row_width)] + Seq::new(
            body.len(),
            |i: int| edge(b.left) + body[i] + edge(b.right),
        ) + seq![rule(b.bottom, row_width) + closing()],
        None => Seq::new(body.len(), |i: int| line_comment() + body[i]),
    }
}

/// Appends the character of a side edge to `out`, if the edge is drawn.
fn push_edge(out: &mut Vec<char>, c: Option<char>)
    ensures
        final(out)@ == old(out)@ + edge(c),
{
    match c {
        Some(c) => {
            out.push(c);
        },
        None => {},
    }
}

/// Appends a rule of `width` columns to `out`, if the edge is drawn.
fn push_rule(out: &mut Vec<char>, c: Option<char>, width: usize)
    ensures
        final(out)@ == old(out)@ + rule(c, width as nat),
{
    match c {
        Some(c) => {
            push_repeated(out, c, width);
        },
        None => {},
    }
}

/// The comment block made from the rows of a header body.
pub fn frame_rows(body: &Vec<Vec<char>>, border: &Option<Border>, row_width: usize) -> (rows: Vec<
    Vec<char>,
>)
    ensures
        rows_view(rows@) == framed(rows_view(body@), *border, row_width as nat),
{
    let mut rows: Vec<Vec<char>> = Vec::new();
    match border {
        Some(b) => {
            let mut top: Vec<char> = Vec::new();
            top.push('/');
            top.push('*');
            push_rule(&mut top, b.top, row_width);
            rows.push(top);
            let mut i: usize = 0;
            while i < body.len()
                invariant
                    i <= body.len(),
                    rows.len() == i + 1,
                    rows@[0]@ == opening() + rule(b.top, row_width as nat),
                    forall|k: int|
                        0 <= k < i ==> (#[trigger] rows@[k + 1])@ == edge(b.left) + body@[k]@
                            + edge(b.right),
                decreases body.len() - i,
            {
                let mut row: Vec<char> = Vec::new();
                push_edge(&mut row, b.left);
                push_range(&mut row, &body[i], 0, body[i].len());
                push_edge(&mut row, b.right);
                rows.push(row);
                i += 1;
            }
            let mut bottom: Vec<char> = Vec::new();
            push_rule(&mut bottom, b.bottom, row_width);
            bottom.push('*');
            bottom.push('/');
            rows.push(bottom);
            proof {
                let want = framed(rows_view(body@), *border, row_width as nat);
                assert forall|k: int| 0 <= k < want.len() implies rows_view(rows@)[k] == want[k] by {
                    if 1 <= k <= body.len() {
                        assert(rows@[(k - 1) + 1]@ == edge(b.left) + body@[k - 1]@ + edge(
                            b.right,
                        ));
                    }
                }
            }
        },
        None => {
            let mut i: usize = 0;
            while i < body.len()
                invariant
                    i <= body.len(),
                    rows.len() == i,
                    forall|k: int|
                        0 <= k < i ==> (#[trigger] rows@[k])@ == line_comment() + body@[k]@,
                decreases body.len() - i,
            {
                let mut row: Vec<char> = Vec::new();
                row.push('/');
                row.push('/');
                push_range(&mut row, &body[i], 0, body[i].len());
                rows.push(row);
                i += 1;
            }
        },
    }
    rows
}

/// Wraps the lines of a header body into a comment block.
///
/// With a border the block is a block comment: the opening token and the top
/// rule, the body lines between the side edges, the bottom rule and the
/// closing token. An edge that is `None` adds nothing. Without a border every
/// body line becomes a line comment.
pub fn apply_border(body: &Vec<String>, border: &Option<Border>, row_width: usize) -> (lines: Vec<
    String,
>)
    ensures
        lines.deep_view() == framed(body.deep_view(), *border, row_width as nat),
{
    let rows = rows_of(body);
    let framed_rows = frame_rows(&rows, border, row_width);
    strings_of(&framed_rows)
}

} // verus!
