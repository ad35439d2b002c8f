//! Header templates: the recipe that a header is rendered from.

use vstd::prelude::*;
use vstd::string::StrSliceExecFns;

verus! {

/// How a piece of text is placed in a column that is wider than the text.
#[derive(Clone, Copy, Debug, PartialEq, Eq, Structural)]
pub enum Alignment {
    /// Against the left edge, with all padding on the right.
    Left,
    /// In the middle, with an odd column of padding on the right.
    Center,
}

/// The four edges of a box drawn round a header. An edge that is `None` is
/// not drawn.
#[derive(Clone, Copy, Debug, PartialEq, Eq, Structural)]
pub struct Border {
    pub left: Option<char>,
    pub top: Option<char>,
    pub right: Option<char>,
    pub bottom: Option<char>,
}

/// One slot of content in a template.
#[derive(Clone, Debug, PartialEq, Eq)]
pub struct Field {
    /// The label of the field.
    pub key: String,
    /// The content of the field.
    pub default_value: String,
    pub align: Alignment,
    /// Whether the field is rendered as `key : value` or as the value alone.
    pub key_visible: bool,
}

/// A named recipe for a header.
#[derive(Clone, Debug, PartialEq, Eq)]
pub struct Template {
    pub name: String,
    /// Marks the template that is used when none is named.
    pub default: bool,
    /// The width in columns of every rendered line, the two border columns
    /// included.
    pub length: u16,
    pub border: Option<Border>,
    /// The fields, in the order in which they are rendered.
    pub fields: Vec<Field>,
    /// The number of blank lines above the fields.
    pub space_before: u8,
    /// The number of blank lines below the fields.
    pub space_after: u8,
}

/// What a [`Field`] holds, as mathematical values.
pub struct FieldView {
    pub key: Seq<char>,
    pub default_value: Seq<char>,
    pub align: Alignment,
    pub key_visible: bool,
}

/// What a [`Template`] holds, as mathematical values.
pub struct TemplateView {
    pub name: Seq<char>,
    pub default: bool,
    pub length: nat,
    pub border: Option<Border>,
    pub fields: Seq<FieldView>,
    pub space_before: nat,
    pub space_after: nat,
}

impl View for Field {
    type V = FieldView;

    open spec fn view(&self) -> FieldView {
        FieldView {
            key: self.key@,
            default_value: self.default_value@,
            align: self.align,
            key_visible: self.key_visible,
        }
    }
}

/// The views of `fields`, in order.
pub open spec fn fields_view(fields: Seq<Field>) -> Seq<FieldView> {
    Seq::new(fields.len(), |i: int| fields[i]@)
}

impl View for Template {
    type V = TemplateView;

    open spec fn view(&self) -> TemplateView {
        TemplateView {
            name: self.name@,
            default: self.default,
            length: self.length as nat,
            border: self.border,
            fields: fields_view(self.fields@),
            space_before: self.space_before as nat,
            space_after: self.space_after as nat,
        }
    }
}

impl Alignment {
    /// `Center` if the text is to be centred, `Left` if not.
    pub fn from_center(center: bool) -> (align: Alignment)
        ensures
            align == if center {
                Alignment::Center
            } else {
                Alignment::Left
            },
    {
        if center {
            Alignment::Center
        } else {
            Alignment::Left
        }
    }
}

/// Whether `input` can be read as an edge: it is empty or a single character.
pub fn is_edge_input(input: &str) -> (ok: bool)
    ensures
        ok == (input@.len() <= 1),
{
    input.unicode_len() <= 1
}

/// The edge that `input` stands for: none if it is empty, else its first
/// character.
pub fn edge_of(input: &str) -> (edge: Option<char>)
    ensures
        edge == if input@.len() == 0 {
            None
        } else {
            Some(input@[0])
        },
{
    if input.unicode_len() == 0 {
        None
    } else {
        Some(input.get_char(0))
    }
}

impl Border {
    /// The border with the given edges, if there is one to draw: a border is
    /// made when at least one of the four edges is given.
    pub fn from_edges(
        left: Option<char>,
        top: Option<char>,
        right: Option<char>,
        bottom: Option<char>,
    ) -> (border: Option<Border>)
        ensures
            border == if left is Some || top is Some || right is Some || bottom is Some {
                Some(Border { left, top, right, bottom })
            } else {
                None::<Border>
            },
    {
        if left.is_some() || top.is_some() || right.is_some() || bottom.is_some() {
            Some(Border { left, top, right, bottom })
        } else {
            None
        }
    }

    /// A border of a top and a bottom rule of `c`, without sides.
    pub fn rules(c: char) -> (border: Border)
        ensures
            border == (Border { left: None, top: Some(c), right: None, bottom: Some(c) }),
    {
        Border { left: None, top: Some(c), right: None, bottom: Some(c) }
    }
}

impl Field {
    /// The alignment of a field that names none.
    pub fn default_align() -> (align: Alignment)
        ensures
            align == Alignment::Left,
    {
        Alignment::Left
    }
}

/// `t` with the content of its first fields replaced by `values`, field by
/// field, as far as both reach.
pub open spec fn with_values(t: TemplateView, values: Seq<Seq<char>>) -> TemplateView {
    TemplateView {
        fields: Seq::new(
            t.fields.len(),
            |i: int|
                if i < values.len() {
                    FieldView { default_value: values[i], ..t.fields[i] }
                } else {
                    t.fields[i]
                },
        ),
        ..t
    }
}

impl Template {
    /// The length of a header where none is asked for.
    pub const DEFAULT_HEADER_LEN: u16 = 75;

    /// The greatest length of a header.
    pub const MAX_HEADER_LEN: u16 = 255;

    /// The number of blank lines above and below the fields where none is
    /// asked for.
    pub const SPACE_HEIGHT: u8 = 0;

    /// A new template, not marked as the default. One that would have neither
    /// a border nor a field gets a border of a top and a bottom rule of `#`,
    /// so that it renders something.
    pub fn new(
        name: String,
        length: u16,
        space_before: u8,
        space_after: u8,
        border: Option<Border>,
        fields: Vec<Field>,
    ) -> (t: Template)
        ensures
            t.name == name,
            !t.default,
            t.length == length,
            t.space_before == space_before,
            t.space_after == space_after,
            t.fields == fields,
            t.border == if border is None && fields@.len() == 0 {
                Some(Border { left: None, top: Some('#'), right: None, bottom: Some('#') })
            } else {
                border
            },
    {
        let border = if border.is_none() && fields.len() == 0 {
            Some(Border::rules('#'))
        } else {
            border
        };
        Template { name, default: false, length, border, fields, space_before, space_after }
    }

    /// Replaces the content of the first fields by `values`, field by field,
    /// as far as both reach. Fields beyond the values, and values beyond the
    /// fields, are left alone.
    pub fn apply_values(&mut self, values: &Vec<String>)
        ensures
            final(self)@ == with_values(old(self)@, values.deep_view()),
    {
        let mut i: usize = 0;
        while i < self.fields.len() && i < values.len()
            invariant
                self.name == old(self).name,
                self.default == old(self).default,
                self.length == old(self).length,
                self.border == old(self).border,
                self.space_before == old(self).space_before,
                self.space_after == old(self).space_after,
                self.fields.len() == old(self).fields.len(),
                i <= self.fields.len(),
                i <= values.len(),
                forall|k: int|
                    0 <= k < i ==> (#[trigger] self.fields@[k])@ == (FieldView {
                        default_value: values@[k]@,
                        ..old(self).fields@[k]@
                    }),
                forall|k: int|
                    i <= k < self.fields.len() ==> #[trigger] self.fields@[k] == old(
                        self,
                    ).fields@[k],
            decreases self.fields.len() - i,
        {
            self.fields[i].default_value = values[i].clone();
            i += 1;
        }
        assert(self@.fields =~= with_values(old(self)@, values.deep_view()).fields);
    }
}

/// The width of the label column that `fields` share: the length of the
/// longest key among the fields whose key is visible, or 0 if there is none.
pub open spec fn key_len(fields: Seq<FieldView>) -> nat
    decreases fields.len(),
{
    if fields.len() == 0 {
        0
    } else {
        let rest = key_len(fields.drop_last());
        let f = fields.last();
        if f.key_visible && rest < f.key.len() {
            f.key.len()
        } else {
            rest
        }
    }
}

/// The shared label column is as wide as the longest visible key: no
/// visible key is longer, and where there is a visible key one of them is
/// exactly that long.
pub proof fn lemma_key_len_is_longest(fields: Seq<FieldView>)
    ensures
        forall|k: int|
            0 <= k < fields.len() && (#[trigger] fields[k]).key_visible ==> fields[k].key.len()
                <= key_len(fields),
        key_len(fields) == 0 || exists|k: int|
            0 <= k < fields.len() && (#[trigger] fields[k]).key_visible && fields[k].key.len()
                == key_len(fields),
    decreases fields.len(),
{
    if fields.len() > 0 {
        let rest = fields.drop_last();
        lemma_key_len_is_longest(rest);
        assert forall|k: int| 0 <= k < fields.len() && (#[trigger] fields[k]).key_visible implies
            fields[k].key.len() <= key_len(fields) by {
            if k < rest.len() {
                assert(rest[k] == fields[k]);
            }
        }
        if key_len(fields) == key_len(rest) && key_len(rest) != 0 {
            let k = choose|k: int|
                0 <= k < rest.len() && (#[trigger] rest[k]).key_visible && rest[k].key.len()
                    == key_len(rest);
            assert(fields[k] == rest[k]);
        }
    }
}

} // verus!
