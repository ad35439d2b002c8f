//! Rendering a whole template into the text of a header.

use vstd::prelude::*;
use vstd::string::StrSliceExecFns;
use crate::border::{closing, edge, frame_rows, framed, opening, rule};
use crate::compose::{all_wide, composable, compose_rows, composed, lemma_composed_fills};
use crate::error::SizeError;
use crate::template::{fields_view, key_len, Field, FieldView, Template, TemplateView};
use crate::text::{push_range, push_repeated, rows_view, spaces, string_of};

verus! {

/// The width of the content of a row: the length without the two border
/// columns.
pub open spec fn row_width(t: TemplateView) -> int {
    t.length - 2
}

/// The width left for a value beside the label column, the space before it
/// and the separator behind it.
pub open spec fn value_width(t: TemplateView) -> int {
    row_width(t) - key_len(t.fields) - 4
}

/// Whether `t` is wide enough to be rendered: its length covers the two
/// border columns, and its row leaves at least one column for a value beside
/// the label column. This is asked of every template, whether or not one of
/// its fields shows its key.
pub open spec fn fits(t: TemplateView) -> bool {
    t.length >= 2 && value_width(t) >= 1
}

/// The lines of `fields`, field after field.
pub open spec fn field_lines(fields: Seq<FieldView>, key_len: nat, row_width: nat) -> Seq<
    Seq<char>,
>
    decreases fields.len(),
{
    if fields.len() == 0 {
        Seq::empty()
    } else {
        field_lines(fields.drop_last(), key_len, row_width) + composed(
            fields.last(),
            key_len,
            row_width,
        )
    }
}

/// `n` lines of `row_width` spaces.
pub open spec fn blank_lines(n: nat, row_width: nat) -> Seq<Seq<char>> {
    Seq::new(n, |i: int| spaces(row_width))
}

/// The body of the header: the blank lines above, the lines of the fields,
/// the blank lines below.
pub open spec fn body_lines(t: TemplateView) -> Seq<Seq<char>> {
    let width = row_width(t) as nat;
    blank_lines(t.space_before, width) + field_lines(t.fields, key_len(t.fields), width)
        + blank_lines(t.space_after, width)
}

/// The lines of the header, border included.
pub open spec fn header_lines(t: TemplateView) -> Seq<Seq<char>> {
    framed(body_lines(t), t.border, row_width(t) as nat)
}

/// `lines` with one newline between each two of them.
pub open spec fn joined(lines: Seq<Seq<char>>) -> Seq<char>
    decreases lines.len(),
{
    if lines.len() == 0 {
        Seq::empty()
    } else if lines.len() == 1 {
        lines[0]
    } else {
        joined(lines.drop_last()) + seq!['\n'] + lines.last()
    }
}

/// What rendering `t` gives: the text of the header, or the reason why `t`
/// is too narrow.
pub open spec fn rendered(t: TemplateView) -> Result<Seq<char>, SizeError> {
    if t.length < 2 {
        Err(SizeError::NoRoomForBorder)
    } else if value_width(t) < 1 {
        Err(SizeError::NoRoomForValue)
    } else {
        Ok(joined(header_lines(t)))
    }
}

/// Whether `out` is what rendering `t` gives.
pub open spec fn is_rendering(t: TemplateView, out: Result<String, SizeError>) -> bool {
    match out {
        Ok(text) => rendered(t) == Ok::<Seq<char>, SizeError>(text@),
        Err(e) => rendered(t) == Err::<Seq<char>, SizeError>(e),
    }
}

/// Whether the border of `t` closes the box: there is none, or its top and
/// bottom are drawn and, where the body has a line, its sides too.
pub open spec fn closes_box(t: TemplateView) -> bool {
    match t.border {
        None => true,
        Some(b) => {
            &&& b.top is Some
            &&& b.bottom is Some
            &&& (b.left is Some && b.right is Some || t.fields.len() == 0 && t.space_before == 0
                && t.space_after == 0)
        },
    }
}

/// The lines of fields that all have room in the row are all as wide as the
/// row, and there is at least one line for each field.
pub proof fn lemma_field_lines_fill(fields: Seq<FieldView>, key_len: nat, row_width: nat)
    requires
        forall|k: int| 0 <= k < fields.len() ==> composable(#[trigger] fields[k], key_len, row_width),
    ensures
        field_lines(fields, key_len, row_width).len() >= fields.len(),
        all_wide(field_lines(fields, key_len, row_width), row_width),
    decreases fields.len(),
{
    if fields.len() > 0 {
        lemma_field_lines_fill(fields.drop_last(), key_len, row_width);
        lemma_composed_fills(fields.last(), key_len, row_width);
    }
}

/// Every line of the body of a template that fits is as wide as the row, and
/// the body is empty only if the template has no field and no blank line.
pub proof fn lemma_body_fills(t: TemplateView)
    requires
        fits(t),
    ensures
        all_wide(body_lines(t), row_width(t) as nat),
        body_lines(t).len() == 0 <==> t.fields.len() == 0 && t.space_before == 0 && t.space_after
            == 0,
{
    lemma_field_lines_fill(t.fields, key_len(t.fields), row_width(t) as nat);
}

/// Every line of a rendered header, the lines of the border too, is exactly
/// as long as the template's length if and only if the border closes the
/// box. An edge that is left out yields lines that are shorter.
pub proof fn lemma_lines_fill_length(t: TemplateView)
    requires
        fits(t),
    ensures
        all_wide(header_lines(t), t.length) <==> closes_box(t),
{
    let width = row_width(t) as nat;
    let body = body_lines(t);
    let lines = header_lines(t);
    lemma_body_fills(t);
    if let Some(b) = t.border {
        assert(lines[0] == opening() + rule(b.top, width));
        assert(lines[lines.len() - 1] == rule(b.bottom, width) + closing());
        if body.len() > 0 {
            assert(lines[1] == edge(b.left) + body[0] + edge(b.right));
        }
    }
}

/// Rendering is a function of the template: two results for one template are
/// both headers with the same text, or both the same error.
pub proof fn lemma_rendering_is_unique(
    t: TemplateView,
    first: Result<String, SizeError>,
    second: Result<String, SizeError>,
)
    requires
        is_rendering(t, first),
        is_rendering(t, second),
    ensures
        match (first, second) {
            (Ok(a), Ok(b)) => a@ == b@,
            (Err(e), Err(f)) => e == f,
            _ => false,
        },
{
}

/// The header does not depend on the name of the template, nor on whether
/// it is marked as the default: templates that agree in everything else are
/// rendered alike.
pub proof fn lemma_rendering_ignores_name_and_default(t: TemplateView, u: TemplateView)
    requires
        t.length == u.length,
        t.border == u.border,
        t.fields == u.fields,
        t.space_before == u.space_before,
        t.space_after == u.space_after,
    ensures
        rendered(t) == rendered(u),
{
}

/// The width of the label column that `fields` share.
pub fn shared_key_len(fields: &Vec<Field>) -> (max: usize)
    ensures
        max == key_len(fields_view(fields@)),
{
    let mut max: usize = 0;
    let mut i: usize = 0;
    while i < fields.len()
        invariant
            i <= fields.len(),
            max == key_len(fields_view(fields@).take(i as int)),
        decreases fields.len() - i,
    {
        proof {
            let upto = fields_view(fields@).take(i + 1);
            assert(upto.drop_last() =~= fields_view(fields@).take(i as int));
        }
        let field = &fields[i];
        if field.key_visible {
            let len = field.key.as_str().unicode_len();
            if max < len {
                max = len;
            }
        }
        i += 1;
    }
    assert(fields_view(fields@).take(i as int) =~= fields_view(fields@));
    max
}

/// Appends `n` rows of `width` spaces to `rows`.
fn push_blank_rows(rows: &mut Vec<Vec<char>>, n: u8, width: usize)
    ensures
        rows_view(final(rows)@) == rows_view(old(rows)@) + blank_lines(n as nat, width as nat),
{
    let mut i: u8 = 0;
    while i < n
        invariant
            i <= n,
            rows_view(rows@) == rows_view(old(rows)@) + blank_lines(i as nat, width as nat),
        decreases n - i,
    {
        let mut row: Vec<char> = Vec::new();
        push_repeated(&mut row, ' ', width);
        proof {
            assert(rows_view(rows@.push(row)) =~= rows_view(rows@).push(row@));
        }
        rows.push(row);
        i += 1;
    }
}

/// The characters of `rows` with one newline between each two rows.
fn join_rows(rows: &Vec<Vec<char>>) -> (out: Vec<char>)
    ensures
        out@ == joined(rows_view(rows@)),
{
    let mut out: Vec<char> = Vec::new();
    let mut i: usize = 0;
    while i < rows.len()
        invariant
            i <= rows.len(),
            out@ == joined(rows_view(rows@).take(i as int)),
        decreases rows.len() - i,
    {
        proof {
            let upto = rows_view(rows@).take(i + 1);
            assert(upto.drop_last() =~= rows_view(rows@).take(i as int));
        }
        if i > 0 {
            out.push('\n');
        }
        push_range(&mut out, &rows[i], 0, rows[i].len());
        i += 1;
    }
    assert(rows_view(rows@).take(i as int) =~= rows_view(rows@));
    out
}

/// Renders `template` into the text of its header.
///
/// Every field is laid out in a row of `length - 2` columns, with one label
/// column shared by all fields that show their key. The blank lines of
/// `space_before` and `space_after` go above and below the fields, the border
/// goes round the whole, and the lines are joined by newlines.
///
/// A template shorter than 2 columns gives [`SizeError::NoRoomForBorder`].
/// One whose row leaves no column for a value beside the label column gives
/// [`SizeError::NoRoomForValue`]. Every other template is rendered.
pub fn build_header(template: &Template) -> (out: Result<String, SizeError>)
    ensures
        is_rendering(template@, out),
        out is Err <==> !fits(template@),
{
    if template.length < 2 {
        return Err(SizeError::NoRoomForBorder);
    }
    let width: usize = (template.length - 2) as usize;
    let key_len = shared_key_len(&template.fields);
    if width < 5 || key_len > width - 5 {
        return Err(SizeError::NoRoomForValue);
    }
    let ghost t = template@;
    let mut body: Vec<Vec<char>> = Vec::new();
    push_blank_rows(&mut body, template.space_before, width);
    let ghost above = rows_view(body@);
    let mut i: usize = 0;
    while i < template.fields.len()
        invariant
            i <= template.fields.len(),
            t == template@,
            width >= key_len + 5,
            rows_view(body@) == above + field_lines(
                t.fields.take(i as int),
                key_len as nat,
                width as nat,
            ),
        decreases template.fields.len() - i,
    {
        proof {
            let upto = t.fields.take(i + 1);
            assert(upto.drop_last() =~= t.fields.take(i as int));
        }
        match compose_rows(&template.fields[i], key_len, width) {
            Ok(mut rows) => {
                let ghost before = rows_view(body@);
                let ghost added = rows_view(rows@);
                body.append(&mut rows);
                assert(rows_view(body@) =~= before + added);
            },
            // The row has room for every field, so no field fails.
            Err(e) => {
                return Err(e);
            },
        }
        i += 1;
    }
    assert(t.fields.take(i as int) =~= t.fields);
    push_blank_rows(&mut body, template.space_after, width);
    let rows = frame_rows(&body, &template.border, width);
    let text = join_rows(&rows);
    Ok(string_of(&text))
}

} // verus!
