//! Composing one field into lines that all have the width of the row.

use vstd::prelude::*;
use crate::error::SizeError;
use crate::template::{Alignment, Field, FieldView};
use crate::text::{
    blank, chars_of, is_blank, push_range, push_repeated, rows_view, spaces, strings_of,
};
use crate::wrap::{lemma_wrap_fits, wrap, wrap_chars};

verus! {

/// `line` without the blank at its end, if it ends in one: what of a wrapped
/// line is seen.
pub open spec fn trimmed(line: Seq<char>) -> Seq<char> {
    if line.len() > 0 && is_blank(line.last()) {
        line.drop_last()
    } else {
        line
    }
}

/// `line` placed in `width` columns: left-justified, or centred with the odd
/// column of padding on the right. A line that already fills the width, or
/// is wider, is left as it is.
pub open spec fn aligned(line: Seq<char>, width: nat, align: Alignment) -> Seq<char> {
    if line.len() >= width {
        line
    } else {
        let pad = (width - line.len()) as nat;
        match align {
            Alignment::Left => line + spaces(pad),
            Alignment::Center => spaces(pad / 2) + line + spaces((pad - pad / 2) as nat),
        }
    }
}

/// `key` in a label column of `key_len` columns: padded on the right, or cut
/// to the column where it is longer.
pub open spec fn label(key: Seq<char>, key_len: nat) -> Seq<char> {
    if key.len() >= key_len {
        key.take(key_len as int)
    } else {
        key + spaces((key_len - key.len()) as nat)
    }
}

/// The separator between a label and its value.
pub open spec fn separator() -> Seq<char> {
    seq![' ', ':', ' ']
}

/// What stands before the value on line `i` of a labelled field: a space, the
/// label and the separator on the first line, and as many blank columns on
/// every other line.
pub open spec fn lead(key: Seq<char>, key_len: nat, i: int) -> Seq<char> {
    if i == 0 {
        seq![' '] + label(key, key_len) + separator()
    } else {
        spaces(key_len + 4)
    }
}

/// The lines of a field that shows its value alone, each `line_len` wide:
/// the wrapped value, every line of it aligned without the blank at its end.
pub open spec fn plain_lines(f: FieldView, line_len: nat) -> Seq<Seq<char>> {
    let wrapped = wrap(f.default_value, line_len);
    Seq::new(wrapped.len(), |i: int| aligned(trimmed(wrapped[i]), line_len, f.align))
}

/// The lines of a field that shows its key and its value, with a label
/// column of `key_len` columns and a value column of `value_len`.
pub open spec fn key_value_lines(f: FieldView, key_len: nat, value_len: nat) -> Seq<Seq<char>> {
    let wrapped = wrap(f.default_value, value_len);
    Seq::new(
        wrapped.len(),
        |i: int| lead(f.key, key_len, i) + aligned(trimmed(wrapped[i]), value_len, f.align),
    )
}

/// Whether a row of `row_width` columns has room for `f`: at least one
/// column for its value, beside the label column and its four columns of
/// spacing where the key is shown.
pub open spec fn composable(f: FieldView, key_len: nat, row_width: nat) -> bool {
    if f.key_visible {
        row_width >= key_len + 5
    } else {
        row_width >= 1
    }
}

/// The lines of `f` in a row of `row_width` columns.
pub open spec fn composed(f: FieldView, key_len: nat, row_width: nat) -> Seq<Seq<char>> {
    if f.key_visible {
        key_value_lines(f, key_len, (row_width - key_len - 4) as nat)
    } else {
        plain_lines(f, row_width)
    }
}

/// Whether every member of `lines` is exactly `width` wide.
pub open spec fn all_wide(lines: Seq<Seq<char>>, width: nat) -> bool {
    forall|i: int| 0 <= i < lines.len() ==> (#[trigger] lines[i]).len() == width
}

/// A line that fits in the width is exactly that wide once it is aligned.
pub proof fn lemma_aligned_fills(line: Seq<char>, width: nat, align: Alignment)
    requires
        line.len() <= width,
    ensures
        aligned(line, width, align).len() == width,
{
}

/// Every line of a field is exactly as wide as the row, and a field gives
/// at least one line.
pub proof fn lemma_composed_fills(f: FieldView, key_len: nat, row_width: nat)
    requires
        composable(f, key_len, row_width),
    ensures
        composed(f, key_len, row_width).len() >= 1,
        all_wide(composed(f, key_len, row_width), row_width),
{
    if f.key_visible {
        lemma_wrap_fits(f.default_value, (row_width - key_len - 4) as nat);
    } else {
        lemma_wrap_fits(f.default_value, row_width);
    }
}

/// The lines of a field that shows its key: there is one for each line of
/// the wrapped value, each is as wide as the label column, its four columns
/// of spacing and the value column together, the first starts with the
/// label and the separator, and every other starts with blank columns in
/// their place.
pub proof fn lemma_key_value_lines_shape(f: FieldView, key_len: nat, value_len: nat)
    requires
        value_len >= 1,
    ensures
        key_value_lines(f, key_len, value_len).len() == wrap(f.default_value, value_len).len(),
        all_wide(key_value_lines(f, key_len, value_len), key_len + 4 + value_len),
        key_value_lines(f, key_len, value_len)[0].take((key_len + 4) as int) == seq![' '] + label(
            f.key,
            key_len,
        ) + separator(),
        forall|i: int|
            1 <= i < key_value_lines(f, key_len, value_len).len() ==> (#[trigger] key_value_lines(
                f,
                key_len,
                value_len,
            )[i]).take((key_len + 4) as int) == spaces(key_len + 4),
{
    let lines = key_value_lines(f, key_len, value_len);
    lemma_wrap_fits(f.default_value, value_len);
    assert forall|i: int| 0 <= i < lines.len() implies (#[trigger] lines[i]).take(
        (key_len + 4) as int,
    ) == lead(f.key, key_len, i) by {
        assert(lines[i].take((key_len + 4) as int) =~= lead(f.key, key_len, i));
    }
}

/// Appends `line`, without the blank at its end and placed in `width`
/// columns, to `out`.
fn push_aligned(out: &mut Vec<char>, line: &Vec<char>, width: usize, align: Alignment)
    ensures
        final(out)@ == old(out)@ + aligned(trimmed(line@), width as nat, align),
{
    let len: usize = if line.len() > 0 && blank(line[line.len() - 1]) {
        line.len() - 1
    } else {
        line.len()
    };
    if len >= width {
        push_range(out, line, 0, len);
    } else {
        let pad: usize = width - len;
        match align {
            Alignment::Left => {
                push_range(out, line, 0, len);
                push_repeated(out, ' ', pad);
            },
            Alignment::Center => {
                let left: usize = pad / 2;
                push_repeated(out, ' ', left);
                push_range(out, line, 0, len);
                push_repeated(out, ' ', pad - left);
            },
        }
    }
}

/// Appends `key`, in a label column of `key_len` columns, to `out`.
fn push_label(out: &mut Vec<char>, key: &Vec<char>, key_len: usize)
    ensures
        final(out)@ == old(out)@ + label(key@, key_len as nat),
{
    if key.len() >= key_len {
        push_range(out, key, 0, key_len);
    } else {
        push_range(out, key, 0, key.len());
        push_repeated(out, ' ', key_len - key.len());
    }
}

/// The rows of a field that shows its value alone.
pub fn plain_rows(field: &Field, line_len: usize) -> (rows: Vec<Vec<char>>)
    requires
        line_len >= 1,
    ensures
        rows_view(rows@) == plain_lines(field@, line_len as nat),
{
    let value = chars_of(field.default_value.as_str());
    let wrapped = wrap_chars(&value, line_len);
    let mut rows: Vec<Vec<char>> = Vec::new();
    let mut i: usize = 0;
    while i < wrapped.len()
        invariant
            i <= wrapped.len(),
            rows.len() == i,
            rows_view(wrapped@) == wrap(field@.default_value, line_len as nat),
            forall|k: int|
                0 <= k < i ==> (#[trigger] rows@[k])@ == aligned(
                    trimmed(wrapped@[k]@),
                    line_len as nat,
                    field.align,
                ),
        decreases wrapped.len() - i,
    {
        let mut row: Vec<char> = Vec::new();
        push_aligned(&mut row, &wrapped[i], line_len, field.align);
        rows.push(row);
        i += 1;
    }
    rows
}

/// The rows of a field that shows its key and its value, or the error that
/// the value column has no column.
pub fn key_value_rows(field: &Field, key_len: usize, value_len: usize) -> (r: Result<
    Vec<Vec<char>>,
    SizeError,
>)
    ensures
        match r {
            Ok(rows) => value_len >= 1 && rows_view(rows@) == key_value_lines(
                field@,
                key_len as nat,
                value_len as nat,
            ),
            Err(e) => value_len == 0 && e == SizeError::NoRoomForValue,
        },
{
    if value_len < 1 {
        return Err(SizeError::NoRoomForValue);
    }
    let key = chars_of(field.key.as_str());
    let value = chars_of(field.default_value.as_str());
    let wrapped = wrap_chars(&value, value_len);
    let mut rows: Vec<Vec<char>> = Vec::new();
    let mut i: usize = 0;
    while i < wrapped.len()
        invariant
            i <= wrapped.len(),
            rows.len() == i,
            key@ == field@.key,
            rows_view(wrapped@) == wrap(field@.default_value, value_len as nat),
            forall|k: int|
                0 <= k < i ==> (#[trigger] rows@[k])@ == lead(field@.key, key_len as nat, k)
                    + aligned(trimmed(wrapped@[k]@), value_len as nat, field.align),
        decreases wrapped.len() - i,
    {
        let mut row: Vec<char> = Vec::new();
        if i == 0 {
            row.push(' ');
            push_label(&mut row, &key, key_len);
            row.push(' ');
            row.push(':');
            row.push(' ');
        } else {
            push_repeated(&mut row, ' ', key_len);
            push_repeated(&mut row, ' ', 4);
        }
        push_aligned(&mut row, &wrapped[i], value_len, field.align);
        rows.push(row);
        i += 1;
    }
    Ok(rows)
}

/// The rows of `field` in a row of `row_width` columns, or the error that the
/// row has no room for it.
pub fn compose_rows(field: &Field, key_len: usize, row_width: usize) -> (r: Result<
    Vec<Vec<char>>,
    SizeError,
>)
    ensures
        match r {
            Ok(rows) => composable(field@, key_len as nat, row_width as nat) && rows_view(rows@)
                == composed(field@, key_len as nat, row_width as nat),
            Err(e) => !composable(field@, key_len as nat, row_width as nat) && e
                == SizeError::NoRoomForValue,
        },
{
    if field.key_visible {
        if row_width < 5 || key_len > row_width - 5 {
            Err(SizeError::NoRoomForValue)
        } else {
            key_value_rows(field, key_len, row_width - key_len - 4)
        }
    } else if row_width < 1 {
        Err(SizeError::NoRoomForValue)
    } else {
        Ok(plain_rows(field, row_width))
    }
}

/// Renders a field that shows its value alone: the value wrapped at
/// `line_len` columns, and every line of it, without the blank at its end,
/// padded to `line_len` by the field's alignment.
pub fn build_line(field: &Field, line_len: usize) -> (lines: Vec<String>)
    requires
        line_len >= 1,
    ensures
        lines.deep_view() == plain_lines(field@, line_len as nat),
{
    let rows = plain_rows(field, line_len);
    strings_of(&rows)
}

/// Renders a field that shows its key and its value.
///
/// The value is wrapped at `value_len` columns and every line of it is
/// padded to `value_len` by the field's alignment. The first line starts
/// with a space, the key in a column of `key_len` columns and the separator
/// `" : "`; every other line starts with `key_len + 4` spaces.
///
/// A value column without a column cannot hold the value: the result is
/// then [`SizeError::NoRoomForValue`].
pub fn build_key_value_lines(field: &Field, key_len: usize, value_len: usize) -> (r: Result<
    Vec<String>,
    SizeError,
>)
    ensures
        match r {
            Ok(lines) => value_len >= 1 && lines.deep_view() == key_value_lines(
                field@,
                key_len as nat,
                value_len as nat,
            ),
            Err(e) => value_len == 0 && e == SizeError::NoRoomForValue,
        },
{
    match key_value_rows(field, key_len, value_len) {
        Ok(rows) => Ok(strings_of(&rows)),
        Err(e) => Err(e),
    }
}

/// Renders one field into lines of exactly `row_width` columns.
///
/// A field whose key is hidden is wrapped at `row_width`. A field whose key
/// is shown gives up `key_len + 4` columns to the label and is wrapped at
/// what is left. Where that leaves no column for the value the field cannot
/// be rendered, and the result is [`SizeError::NoRoomForValue`].
pub fn compose_field(field: &Field, key_len: usize, row_width: usize) -> (r: Result<
    Vec<String>,
    SizeError,
>)
    ensures
        match r {
            Ok(lines) => composable(field@, key_len as nat, row_width as nat)
                && lines.deep_view() == composed(field@, key_len as nat, row_width as nat),
            Err(e) => !composable(field@, key_len as nat, row_width as nat) && e
                == SizeError::NoRoomForValue,
        },
{
    match compose_rows(field, key_len, row_width) {
        Ok(rows) => Ok(strings_of(&rows)),
        Err(e) => Err(e),
    }
}

} // verus!
