//! The schema model: field types and qualifiers, message and enum types.

use crate::text::{decimal, lemma_name_order, name_before, push_decimal, str_before, str_eq};
use vstd::prelude::*;

verus! {

/// The name of a type, a field or a variant.
pub type Identifier = String;

/// The number of a field or of a variant.
pub type Ordinal = u32;

/// The type of a message field.
///
/// `MessageType` and `UnboundedMessageType` are what a name gets that is no
/// built-in scalar; whether it names a message or an enum is known only once
/// the whole schema has been read.
#[derive(Debug, Clone, PartialEq, Eq)]
pub enum FieldType {
    UnboundedString,
    UnboundedBytes,
    String(usize),
    Bytes(usize),
    Bool,
    Int32,
    Int64,
    Uint32,
    Uint64,
    EnumType(String),
    MessageType(String, usize),
    UnboundedMessageType(String),
}

/// The mathematical value of a [`FieldType`].
pub enum FieldTypeView {
    UnboundedString,
    UnboundedBytes,
    String(usize),
    Bytes(usize),
    Bool,
    Int32,
    Int64,
    Uint32,
    Uint64,
    EnumType(Seq<char>),
    MessageType(Seq<char>, usize),
    UnboundedMessageType(Seq<char>),
}

impl View for FieldType {
    type V = FieldTypeView;

    open spec fn view(&self) -> FieldTypeView {
        match self {
            FieldType::UnboundedString => FieldTypeView::UnboundedString,
            FieldType::UnboundedBytes => FieldTypeView::UnboundedBytes,
            FieldType::String(n) => FieldTypeView::String(*n),
            FieldType::Bytes(n) => FieldTypeView::Bytes(*n),
            FieldType::Bool => FieldTypeView::Bool,
            FieldType::Int32 => FieldTypeView::Int32,
            FieldType::Int64 => FieldTypeView::Int64,
            FieldType::Uint32 => FieldTypeView::Uint32,
            FieldType::Uint64 => FieldTypeView::Uint64,
            FieldType::EnumType(s) => FieldTypeView::EnumType(s@),
            FieldType::MessageType(s, n) => FieldTypeView::MessageType(s@, *n),
            FieldType::UnboundedMessageType(s) => FieldTypeView::UnboundedMessageType(s@),
        }
    }
}

impl FieldTypeView {
    /// The field type that the name `s` stands for under the bound `max_size`.
    pub open spec fn from_name(s: Seq<char>, max_size: Option<usize>) -> FieldTypeView {
        if s == "string"@ {
            match max_size {
                None => FieldTypeView::UnboundedString,
                Some(limit) => FieldTypeView::String(limit),
            }
        } else if s == "bytes"@ {
            match max_size {
                None => FieldTypeView::UnboundedBytes,
                Some(limit) => FieldTypeView::Bytes(limit),
            }
        } else if s == "bool"@ {
            FieldTypeView::Bool
        } else if s == "int32"@ {
            FieldTypeView::Int32
        } else if s == "int64"@ {
            FieldTypeView::Int64
        } else if s == "uint32"@ {
            FieldTypeView::Uint32
        } else if s == "uint64"@ {
            FieldTypeView::Uint64
        } else {
            match max_size {
                Some(limit) => FieldTypeView::MessageType(s, limit),
                None => FieldTypeView::UnboundedMessageType(s),
            }
        }
    }

    /// The name that the field type refers to, while it is not known to be an enum.
    pub open spec fn unresolved_name(self) -> Option<Seq<char>> {
        match self {
            FieldTypeView::MessageType(name, _) => Some(name),
            FieldTypeView::UnboundedMessageType(name) => Some(name),
            _ => None,
        }
    }

    /// The source text that names this field type.
    pub open spec fn repr(self) -> Seq<char> {
        match self {
            FieldTypeView::UnboundedString => "picopb::common::FieldType::UnboundedString"@,
            FieldTypeView::UnboundedBytes => "picopb::common::FieldType::UnboundedBytes"@,
            FieldTypeView::String(n) => "picopb::common::FieldType::String("@ + decimal(n as nat)
                + ")"@,
            FieldTypeView::Bytes(n) => "picopb::common::FieldType::Bytes("@ + decimal(n as nat)
                + ")"@,
            FieldTypeView::Bool => "picopb::common::FieldType::Bool"@,
            FieldTypeView::Int32 => "picopb::common::FieldType::Int32"@,
            FieldTypeView::Int64 => "picopb::common::FieldType::Int64"@,
            FieldTypeView::Uint32 => "picopb::common::FieldType::Uint32"@,
            FieldTypeView::Uint64 => "picopb::common::FieldType::Uint64"@,
            FieldTypeView::EnumType(s) => "picopb::common::FieldType::EnumType(\""@ + s + "\")"@,
            FieldTypeView::MessageType(s, n) => "picopb::common::FieldType::MessageType(\""@ + s
                + "\", "@ + decimal(n as nat) + ")"@,
            FieldTypeView::UnboundedMessageType(s) =>
                "picopb::common::FieldType::UnboundedMessageType(\""@ + s + "\")"@,
        }
    }
}

impl FieldType {
    /// Reads a field type from its name in a schema. A name that is no built-in
    /// scalar is taken for a message for the time being.
    pub fn from_str(s: &str, max_size: Option<usize>) -> (r: Self)
        ensures
            r@ == FieldTypeView::from_name(s@, max_size),
    {
        if str_eq(s, "string") {
            match max_size {
                None => Self::UnboundedString,
                Some(limit) => Self::String(limit),
            }
        } else if str_eq(s, "bytes") {
            match max_size {
                None => Self::UnboundedBytes,
                Some(limit) => Self::Bytes(limit),
            }
        } else if str_eq(s, "bool") {
            Self::Bool
        } else if str_eq(s, "int32") {
            Self::Int32
        } else if str_eq(s, "int64") {
            Self::Int64
        } else if str_eq(s, "uint32") {
            Self::Uint32
        } else if str_eq(s, "uint64") {
            Self::Uint64
        } else {
            match max_size {
                Some(limit) => Self::MessageType(String::from_str(s), limit),
                None => Self::UnboundedMessageType(String::from_str(s)),
            }
        }
    }

    /// The source text that names this field type.
    pub fn repr(&self) -> (r: String)
        ensures
            r@ == self@.repr(),
    {
        match self {
            Self::UnboundedString => String::from_str("picopb::common::FieldType::UnboundedString"),
            Self::UnboundedBytes => String::from_str("picopb::common::FieldType::UnboundedBytes"),
            Self::String(n) => {
                let mut out = String::from_str("picopb::common::FieldType::String(");
                push_decimal(&mut out, *n);
                out.append(")");
                out
            },
            Self::Bytes(n) => {
                let mut out = String::from_str("picopb::common::FieldType::Bytes(");
                push_decimal(&mut out, *n);
                out.append(")");
                out
            },
            Self::Bool => String::from_str("picopb::common::FieldType::Bool"),
            Self::Int32 => String::from_str("picopb::common::FieldType::Int32"),
            Self::Int64 => String::from_str("picopb::common::FieldType::Int64"),
            Self::Uint64 => String::from_str("picopb::common::FieldType::Uint64"),
            Self::Uint32 => String::from_str("picopb::common::FieldType::Uint32"),
            Self::EnumType(identifier) => {
                let mut out = String::from_str("picopb::common::FieldType::EnumType(\"");
                out.append(identifier.as_str());
                out.append("\")");
                out
            },
            Self::MessageType(identifier, size) => {
                let mut out = String::from_str("picopb::common::FieldType::MessageType(\"");
                out.append(identifier.as_str());
                out.append("\", ");
                push_decimal(&mut out, *size);
                out.append(")");
                out
            },
            Self::UnboundedMessageType(identifier) => {
                let mut out = String::from_str(
                    "picopb::common::FieldType::UnboundedMessageType(\"",
                );
                out.append(identifier.as_str());
                out.append("\")");
                out
            },
        }
    }

    /// A copy of this field type.
    pub fn duplicate(&self) -> (r: Self)
        ensures
            r@ == self@,
    {
        match self {
            Self::UnboundedString => Self::UnboundedString,
            Self::UnboundedBytes => Self::UnboundedBytes,
            Self::String(n) => Self::String(*n),
            Self::Bytes(n) => Self::Bytes(*n),
            Self::Bool => Self::Bool,
            Self::Int32 => Self::Int32,
            Self::Int64 => Self::Int64,
            Self::Uint32 => Self::Uint32,
            Self::Uint64 => Self::Uint64,
            Self::EnumType(s) => Self::EnumType(s.clone()),
            Self::MessageType(s, n) => Self::MessageType(s.clone(), *n),
            Self::UnboundedMessageType(s) => Self::UnboundedMessageType(s.clone()),
        }
    }
}

/// How often a field occurs in a message, and how a repeated one is laid out.
#[derive(Debug, Clone, Copy, PartialEq, Eq, Structural)]
pub enum FieldQualifier {
    Optional,
    Required,
    RepeatedUnbounded,
    Repeated(usize),
    /// A repeated field with the option `packed=true`.
    PackedRepeatedUnbounded,
    PackedRepeated(usize),
}

/// One option of a field, as written between the brackets.
#[derive(Debug, Clone, Copy, PartialEq, Eq, Structural)]
pub enum FieldOption {
    MaxSize(usize),
    MaxLen(usize),
    Packed(bool),
}

impl View for FieldOption {
    type V = FieldOption;

    open spec fn view(&self) -> FieldOption {
        *self
    }
}

/// The options of one field, gathered.
#[derive(Debug, Clone, Copy, PartialEq, Eq, Structural)]
pub struct FieldOptions {
    pub max_size: Option<usize>,
    pub max_len: Option<usize>,
    pub packed: bool,
}

impl Default for FieldOptions {
    fn default() -> (r: Self)
        ensures
            r == FieldOptions::none(),
    {
        FieldOptions { max_size: None, max_len: None, packed: false }
    }
}

impl FieldOptions {
    /// No option at all.
    pub open spec fn none() -> FieldOptions {
        FieldOptions { max_size: None, max_len: None, packed: false }
    }

    /// The options `options` gathered, in their order.
    pub open spec fn gathered(options: Seq<FieldOption>) -> FieldOptions
        decreases options.len(),
    {
        if options.len() == 0 {
            FieldOptions::none()
        } else {
            FieldOptions::gathered(options.drop_last()).with(options.last())
        }
    }

    /// Whether the bound of these options is a `usize`.
    pub open spec fn bound_fits(self) -> bool {
        self.max_len != Some(usize::MAX)
    }

    /// The bound that the options put on a field: `max_size` where only that is
    /// given, `max_len + 1` where only `max_len` is given, the larger of the two
    /// where both are, and none where neither is.
    pub open spec fn bound(self) -> Option<usize>
        recommends
            self.bound_fits(),
    {
        match (self.max_len, self.max_size) {
            (None, Some(max_size)) => Some(max_size),
            (Some(max_len), Some(max_size)) => if max_len + 1 > max_size {
                Some((max_len + 1) as usize)
            } else {
                Some(max_size)
            },
            (Some(max_len), None) => Some((max_len + 1) as usize),
            (None, None) => None,
        }
    }

    /// These options with one more option taken in; a later option of a kind
    /// replaces an earlier one.
    pub open spec fn with(self, option: FieldOption) -> FieldOptions {
        match option {
            FieldOption::MaxLen(max_len) => FieldOptions { max_len: Some(max_len), ..self },
            FieldOption::MaxSize(max_size) => FieldOptions { max_size: Some(max_size), ..self },
            FieldOption::Packed(value) => FieldOptions { packed: value, ..self },
        }
    }

    /// The bound that the options put on a field, or `None` where they put none.
    pub fn effective_bound(&self) -> (r: Option<usize>)
        requires
            self.bound_fits(),
        ensures
            r == self.bound(),
    {
        match (self.max_len, self.max_size) {
            (None, Some(max_size)) => Some(max_size),
            (Some(max_len), Some(max_size)) => {
                if max_len + 1 > max_size {
                    Some(max_len + 1)
                } else {
                    Some(max_size)
                }
            },
            (Some(max_len), None) => Some(max_len + 1),
            (None, None) => None,
        }
    }

    /// Takes one more option in.
    pub fn apply(&mut self, option: &FieldOption)
        ensures
            *final(self) == old(self).with(*option),
    {
        match option {
            FieldOption::MaxLen(max_len) => self.max_len = Some(*max_len),
            FieldOption::MaxSize(max_size) => self.max_size = Some(*max_size),
            FieldOption::Packed(value) => self.packed = *value,
        }
    }
}

impl FieldQualifier {
    /// Whether `s` is one of the three qualifier keywords.
    pub open spec fn is_keyword(s: Seq<char>) -> bool {
        s == "optional"@ || s == "required"@ || s == "repeated"@
    }

    /// The qualifier that the keyword `s` stands for under `options`.
    pub open spec fn from_keyword(s: Seq<char>, options: FieldOptions) -> FieldQualifier
        recommends
            Self::is_keyword(s),
            options.bound_fits(),
    {
        if s == "optional"@ {
            FieldQualifier::Optional
        } else if s == "required"@ {
            FieldQualifier::Required
        } else {
            match (options.bound(), options.packed) {
                (Some(limit), false) => FieldQualifier::Repeated(limit),
                (None, false) => FieldQualifier::RepeatedUnbounded,
                (Some(limit), true) => FieldQualifier::PackedRepeated(limit),
                (None, true) => FieldQualifier::PackedRepeatedUnbounded,
            }
        }
    }

    /// The source text that names this qualifier.
    pub open spec fn repr_text(self) -> Seq<char> {
        match self {
            FieldQualifier::Optional => "picopb::common::FieldQualifier::Optional"@,
            FieldQualifier::Required => "picopb::common::FieldQualifier::Required"@,
            FieldQualifier::RepeatedUnbounded =>
                "picopb::common::FieldQualifier::RepeatedUnbounded"@,
            FieldQualifier::Repeated(len) => "picopb::common::FieldQualifier::Repeated("@
                + decimal(len as nat) + ")"@,
            FieldQualifier::PackedRepeated(len) =>
                "picopb::common::FieldQualifier::PackedRepeated("@ + decimal(len as nat) + ")"@,
            FieldQualifier::PackedRepeatedUnbounded =>
                "picopb::common::FieldQualifier::PackedRepeatedUnbounded"@,
        }
    }

    /// The source text that names this qualifier.
    pub fn repr(&self) -> (r: String)
        ensures
            r@ == self.repr_text(),
    {
        match *self {
            Self::Optional => String::from_str("picopb::common::FieldQualifier::Optional"),
            Self::Required => String::from_str("picopb::common::FieldQualifier::Required"),
            Self::RepeatedUnbounded => String::from_str(
                "picopb::common::FieldQualifier::RepeatedUnbounded",
            ),
            Self::Repeated(len) => {
                let mut out = String::from_str("picopb::common::FieldQualifier::Repeated(");
                push_decimal(&mut out, len);
                out.append(")");
                out
            },
            Self::PackedRepeated(len) => {
                let mut out = String::from_str("picopb::common::FieldQualifier::PackedRepeated(");
                push_decimal(&mut out, len);
                out.append(")");
                out
            },
            Self::PackedRepeatedUnbounded => String::from_str(
                "picopb::common::FieldQualifier::PackedRepeatedUnbounded",
            ),
        }
    }

    /// Reads a qualifier from its keyword and the options of the field.
    pub fn from_str(s: &str, options: &FieldOptions) -> (r: Self)
        requires
            Self::is_keyword(s@),
            options.bound_fits(),
        ensures
            r == Self::from_keyword(s@, *options),
    {
        let max_size = options.effective_bound();
        if str_eq(s, "optional") {
            Self::Optional
        } else if str_eq(s, "required") {
            Self::Required
        } else {
            match (max_size, options.packed) {
                (Some(limit), false) => Self::Repeated(limit),
                (None, false) => Self::RepeatedUnbounded,
                (Some(limit), true) => Self::PackedRepeated(limit),
                (None, true) => Self::PackedRepeatedUnbounded,
            }
        }
    }
}

/// The number of a field within its message.
#[derive(Debug, Clone, Copy, PartialEq, Eq, Structural)]
pub struct Field(pub u32);

/// One field of a message.
#[derive(Debug, Clone, PartialEq, Eq)]
pub struct MessageField {
    pub qualifier: FieldQualifier,
    pub field_type: FieldType,
    pub identifier: Identifier,
    pub ordinal: Field,
}

/// The mathematical value of a [`MessageField`].
pub struct MessageFieldView {
    pub qualifier: FieldQualifier,
    pub field_type: FieldTypeView,
    pub identifier: Seq<char>,
    pub ordinal: Field,
}

impl View for MessageField {
    type V = MessageFieldView;

    open spec fn view(&self) -> MessageFieldView {
        MessageFieldView {
            qualifier: self.qualifier,
            field_type: self.field_type@,
            identifier: self.identifier@,
            ordinal: self.ordinal,
        }
    }
}

impl MessageField {
    /// A copy of this field.
    pub fn duplicate(&self) -> (r: Self)
        ensures
            r@ == self@,
    {
        MessageField {
            qualifier: self.qualifier,
            field_type: self.field_type.duplicate(),
            identifier: self.identifier.clone(),
            ordinal: self.ordinal,
        }
    }
}

/// The values of the fields of `fields`, in their order.
pub open spec fn fields_view(fields: Seq<MessageField>) -> Seq<MessageFieldView> {
    Seq::new(fields.len(), |i: int| fields[i]@)
}

/// Whether the fields are in strictly increasing order of their numbers, so
/// that no number occurs twice.
pub open spec fn fields_ordered(fields: Seq<MessageFieldView>) -> bool {
    forall|i: int, j: int|
        0 <= i < j < fields.len() ==> (#[trigger] fields[i]).ordinal.0 < (
        #[trigger] fields[j]).ordinal.0
}

/// The fields `fields`, which are in order of their numbers, with `field`
/// among them: in the place of the field that has its number, where there is
/// one, and else where its number belongs.
pub open spec fn put_field(fields: Seq<MessageFieldView>, field: MessageFieldView) -> Seq<
    MessageFieldView,
>
    decreases fields.len(),
{
    if fields.len() == 0 {
        seq![field]
    } else if fields[0].ordinal.0 < field.ordinal.0 {
        seq![fields[0]] + put_field(fields.drop_first(), field)
    } else if fields[0].ordinal.0 == field.ordinal.0 {
        seq![field] + fields.drop_first()
    } else {
        seq![field] + fields
    }
}

/// Putting a field among fields, told by the place where it comes to stand.
pub proof fn lemma_put_field_at(fields: Seq<MessageFieldView>, field: MessageFieldView, i: int)
    requires
        0 <= i <= fields.len(),
        forall|j: int| 0 <= j < i ==> (#[trigger] fields[j]).ordinal.0 < field.ordinal.0,
        i < fields.len() ==> fields[i].ordinal.0 >= field.ordinal.0,
    ensures
        put_field(fields, field) == if i < fields.len() && fields[i].ordinal.0
            == field.ordinal.0 {
            fields.update(i, field)
        } else {
            fields.insert(i, field)
        },
    decreases i,
{
    if i == 0 {
        if fields.len() == 0 {
            assert(put_field(fields, field) =~= fields.insert(0, field));
        } else if fields[0].ordinal.0 == field.ordinal.0 {
            assert(put_field(fields, field) =~= fields.update(0, field));
        } else {
            assert(put_field(fields, field) =~= fields.insert(0, field));
        }
    } else {
        let rest = fields.drop_first();
        assert(fields[0].ordinal.0 < field.ordinal.0);
        assert forall|j: int| 0 <= j < i - 1 implies (#[trigger] rest[j]).ordinal.0
            < field.ordinal.0 by {
            assert(rest[j] == fields[j + 1]);
        }
        lemma_put_field_at(rest, field, i - 1);
        if i < fields.len() && fields[i].ordinal.0 == field.ordinal.0 {
            assert(seq![fields[0]] + rest.update(i - 1, field) =~= fields.update(i, field));
        } else {
            assert(seq![fields[0]] + rest.insert(i - 1, field) =~= fields.insert(i, field));
        }
    }
}

/// Fields in order stay in order when a field is put among them; the field is
/// then among them, and of the others exactly those that have another number.
pub proof fn lemma_put_field_ordered(fields: Seq<MessageFieldView>, field: MessageFieldView)
    requires
        fields_ordered(fields),
    ensures
        fields_ordered(put_field(fields, field)),
        forall|f: MessageFieldView| #[trigger]
            put_field(fields, field).contains(f) <==> f == field || (fields.contains(f)
                && f.ordinal.0 != field.ordinal.0),
    decreases fields.len(),
{
    let out = put_field(fields, field);
    if fields.len() == 0 {
        assert(out[0] == field);
        assert forall|f: MessageFieldView| #[trigger]
            out.contains(f) <==> f == field || (fields.contains(f) && f.ordinal.0
                != field.ordinal.0) by {
            if f == field {
                assert(out[0] == f);
            }
        }
    } else if fields[0].ordinal.0 < field.ordinal.0 {
        let rest = fields.drop_first();
        assert forall|i: int, j: int| 0 <= i < j < rest.len() implies (#[trigger] rest[i]).ordinal.0
            < (#[trigger] rest[j]).ordinal.0 by {
            assert(rest[i] == fields[i + 1]);
            assert(rest[j] == fields[j + 1]);
        }
        lemma_put_field_ordered(rest, field);
        let tail = put_field(rest, field);
        assert forall|f: MessageFieldView| #[trigger]
            tail.contains(f) implies fields[0].ordinal.0 < f.ordinal.0 by {
            if f != field {
                let k = choose|k: int| 0 <= k < rest.len() && rest[k] == f;
                assert(rest[k] == fields[k + 1]);
            }
        }
        assert forall|i: int, j: int| 0 <= i < j < out.len() implies (#[trigger] out[i]).ordinal.0
            < (#[trigger] out[j]).ordinal.0 by {
            assert(out[j] == tail[j - 1]);
            assert(tail.contains(tail[j - 1]));
            if i > 0 {
                assert(out[i] == tail[i - 1]);
            }
        }
        assert forall|f: MessageFieldView| #[trigger]
            out.contains(f) <==> f == field || (fields.contains(f) && f.ordinal.0
                != field.ordinal.0) by {
            if out.contains(f) {
                let k = choose|k: int| 0 <= k < out.len() && out[k] == f;
                if k == 0 {
                    assert(fields[0] == f);
                } else {
                    assert(tail[k - 1] == f);
                    assert(tail.contains(f));
                    if f != field {
                        let m = choose|m: int| 0 <= m < rest.len() && rest[m] == f;
                        assert(fields[m + 1] == f);
                    }
                }
            }
            if f == field || (fields.contains(f) && f.ordinal.0 != field.ordinal.0) {
                if f == field {
                    assert(tail.contains(f));
                    let k = choose|k: int| 0 <= k < tail.len() && tail[k] == f;
                    assert(out[k + 1] == f);
                } else {
                    let m = choose|m: int| 0 <= m < fields.len() && fields[m] == f;
                    if m == 0 {
                        assert(out[0] == f);
                    } else {
                        assert(rest[m - 1] == f);
                        assert(rest.contains(f));
                        assert(tail.contains(f));
                        let k = choose|k: int| 0 <= k < tail.len() && tail[k] == f;
                        assert(out[k + 1] == f);
                    }
                }
            }
        }
    } else if fields[0].ordinal.0 == field.ordinal.0 {
        assert(out =~= fields.update(0, field));
        assert forall|f: MessageFieldView| #[trigger]
            out.contains(f) <==> f == field || (fields.contains(f) && f.ordinal.0
                != field.ordinal.0) by {
            if out.contains(f) {
                let k = choose|k: int| 0 <= k < out.len() && out[k] == f;
                if k > 0 {
                    assert(fields[k] == f);
                    assert(fields[0].ordinal.0 < fields[k].ordinal.0);
                }
            }
            if f == field {
                assert(out[0] == f);
            } else if fields.contains(f) && f.ordinal.0 != field.ordinal.0 {
                let m = choose|m: int| 0 <= m < fields.len() && fields[m] == f;
                assert(out[m] == f);
            }
        }
    } else {
        assert(out =~= fields.insert(0, field));
        assert forall|i: int, j: int| 0 <= i < j < out.len() implies (#[trigger] out[i]).ordinal.0
            < (#[trigger] out[j]).ordinal.0 by {
            assert(out[j] == fields[j - 1]);
            if i > 0 {
                assert(out[i] == fields[i - 1]);
            } else if j - 1 > 0 {
                assert(fields[0].ordinal.0 < fields[j - 1].ordinal.0);
            }
        }
        assert forall|f: MessageFieldView| #[trigger]
            out.contains(f) <==> f == field || (fields.contains(f) && f.ordinal.0
                != field.ordinal.0) by {
            if out.contains(f) {
                let k = choose|k: int| 0 <= k < out.len() && out[k] == f;
                if k > 0 {
                    assert(fields[k - 1] == f);
                    if k - 1 > 0 {
                        assert(fields[0].ordinal.0 < fields[k - 1].ordinal.0);
                    }
                }
            }
            if f == field {
                assert(out[0] == f);
            } else if fields.contains(f) && f.ordinal.0 != field.ordinal.0 {
                let m = choose|m: int| 0 <= m < fields.len() && fields[m] == f;
                assert(out[m + 1] == f);
            }
        }
    }
}

/// A message type: its name and its fields, in order of their numbers.
#[derive(Debug, Clone, PartialEq, Eq)]
pub struct MessageType {
    pub identifier: String,
    pub fields: Vec<MessageField>,
}

/// The mathematical value of a [`MessageType`].
pub struct MessageTypeView {
    pub identifier: Seq<char>,
    pub fields: Seq<MessageFieldView>,
}

impl View for MessageType {
    type V = MessageTypeView;

    open spec fn view(&self) -> MessageTypeView {
        MessageTypeView { identifier: self.identifier@, fields: fields_view(self.fields@) }
    }
}

impl MessageType {
    /// A message type without fields.
    pub fn new(identifier: String) -> (r: Self)
        ensures
            r@ == (MessageTypeView { identifier: identifier@, fields: Seq::empty() }),
    {
        let r = MessageType { identifier, fields: Vec::new() };
        assert(r@.fields =~= Seq::empty());
        r
    }

    /// Puts `field` among the fields: in the place of the field that has its
    /// number, where there is one, and else where its number belongs.
    pub fn insert(&mut self, field: MessageField)
        ensures
            final(self)@ == (MessageTypeView {
                identifier: old(self)@.identifier,
                fields: put_field(old(self)@.fields, field@),
            }),
            fields_ordered(old(self)@.fields) ==> fields_ordered(final(self)@.fields),
    {
        let ghost before = self@.fields;
        let number = field.ordinal.0;
        let mut i: usize = 0;
        while i < self.fields.len() && self.fields[i].ordinal.0 < number
            invariant
                i <= self.fields@.len(),
                *self == *old(self),
                number == field.ordinal.0,
                forall|j: int| 0 <= j < i ==> (#[trigger] self.fields@[j]).ordinal.0 < number,
            decreases self.fields@.len() - i,
        {
            i += 1;
        }
        proof {
            assert forall|j: int| 0 <= j < i implies (#[trigger] before[j]).ordinal.0
                < field@.ordinal.0 by {
                assert(before[j] == self.fields@[j]@);
            }
            lemma_put_field_at(before, field@, i as int);
            if fields_ordered(before) {
                lemma_put_field_ordered(before, field@);
            }
        }
        if i < self.fields.len() && self.fields[i].ordinal.0 == number {
            self.fields[i] = field;
            assert(fields_view(self.fields@) =~= before.update(i as int, field@));
        } else {
            self.fields.insert(i, field);
            assert(fields_view(self.fields@) =~= before.insert(i as int, field@));
        }
    }

    /// A copy of this message type.
    pub fn duplicate(&self) -> (r: Self)
        ensures
            r@ == self@,
    {
        let mut fields: Vec<MessageField> = Vec::new();
        let mut i: usize = 0;
        while i < self.fields.len()
            invariant
                i <= self.fields@.len(),
                fields@.len() == i,
                forall|j: int| 0 <= j < i ==> (#[trigger] fields@[j])@ == self.fields@[j]@,
            decreases self.fields@.len() - i,
        {
            fields.push(self.fields[i].duplicate());
            i += 1;
        }
        let r = MessageType { identifier: self.identifier.clone(), fields };
        assert(r@.fields =~= self@.fields);
        r
    }
}

/// The values of the pairs of `pairs`, in their order.
pub open spec fn pairs_view(pairs: Seq<(String, Ordinal)>) -> Seq<(Seq<char>, Ordinal)> {
    Seq::new(pairs.len(), |i: int| (pairs[i].0@, pairs[i].1))
}

/// Whether the pairs are in strictly increasing order of their names, so that
/// no name occurs twice.
pub open spec fn pairs_ordered(pairs: Seq<(Seq<char>, Ordinal)>) -> bool {
    forall|i: int, j: int|
        0 <= i < j < pairs.len() ==> name_before((#[trigger] pairs[i]).0, (#[trigger] pairs[j]).0)
}

/// The pairs `pairs`, which are in order of their names, with `pair` among
/// them: in the place of the pair that has its name, where there is one, and
/// else where its name belongs.
pub open spec fn put_pair(pairs: Seq<(Seq<char>, Ordinal)>, pair: (Seq<char>, Ordinal)) -> Seq<
    (Seq<char>, Ordinal),
>
    decreases pairs.len(),
{
    if pairs.len() == 0 {
        seq![pair]
    } else if pairs[0].0 == pair.0 {
        seq![pair] + pairs.drop_first()
    } else if name_before(pairs[0].0, pair.0) {
        seq![pairs[0]] + put_pair(pairs.drop_first(), pair)
    } else {
        seq![pair] + pairs
    }
}

/// Putting a pair among pairs, told by the place where it comes to stand.
pub proof fn lemma_put_pair_at(
    pairs: Seq<(Seq<char>, Ordinal)>,
    pair: (Seq<char>, Ordinal),
    i: int,
)
    requires
        0 <= i <= pairs.len(),
        forall|j: int|
            0 <= j < i ==> (#[trigger] pairs[j]).0 != pair.0 && name_before(pairs[j].0, pair.0),
        i < pairs.len() ==> pairs[i].0 == pair.0 || !name_before(pairs[i].0, pair.0),
    ensures
        put_pair(pairs, pair) == if i < pairs.len() && pairs[i].0 == pair.0 {
            pairs.update(i, pair)
        } else {
            pairs.insert(i, pair)
        },
    decreases i,
{
    if i == 0 {
        if pairs.len() == 0 {
            assert(put_pair(pairs, pair) =~= pairs.insert(0, pair));
        } else if pairs[0].0 == pair.0 {
            assert(put_pair(pairs, pair) =~= pairs.update(0, pair));
        } else {
            assert(put_pair(pairs, pair) =~= pairs.insert(0, pair));
        }
    } else {
        let rest = pairs.drop_first();
        assert(pairs[0].0 != pair.0 && name_before(pairs[0].0, pair.0));
        assert forall|j: int| 0 <= j < i - 1 implies (#[trigger] rest[j]).0 != pair.0
            && name_before(rest[j].0, pair.0) by {
            assert(rest[j] == pairs[j + 1]);
        }
        lemma_put_pair_at(rest, pair, i - 1);
        if i < pairs.len() && pairs[i].0 == pair.0 {
            assert(seq![pairs[0]] + rest.update(i - 1, pair) =~= pairs.update(i, pair));
        } else {
            assert(seq![pairs[0]] + rest.insert(i - 1, pair) =~= pairs.insert(i, pair));
        }
    }
}

/// Pairs in order of their names stay in order when a pair is put among them.
pub proof fn lemma_put_pair_ordered(pairs: Seq<(Seq<char>, Ordinal)>, pair: (Seq<char>, Ordinal))
    requires
        pairs_ordered(pairs),
    ensures
        pairs_ordered(put_pair(pairs, pair)),
        put_pair(pairs, pair).len() > 0,
        pairs.len() > 0 ==> put_pair(pairs, pair)[0] == pair || put_pair(pairs, pair)[0]
            == pairs[0],
        pairs.len() == 0 ==> put_pair(pairs, pair)[0] == pair,
    decreases pairs.len(),
{
    let out = put_pair(pairs, pair);
    if pairs.len() == 0 {
    } else if pairs[0].0 == pair.0 {
        assert(out =~= pairs.update(0, pair));
        assert forall|i: int, j: int| 0 <= i < j < out.len() implies name_before(
            (#[trigger] out[i]).0,
            (#[trigger] out[j]).0,
        ) by {
            assert(out[j] == pairs[j]);
            assert(name_before(pairs[i].0, pairs[j].0));
        }
    } else if name_before(pairs[0].0, pair.0) {
        let rest = pairs.drop_first();
        assert forall|i: int, j: int| 0 <= i < j < rest.len() implies name_before(
            (#[trigger] rest[i]).0,
            (#[trigger] rest[j]).0,
        ) by {
            assert(rest[i] == pairs[i + 1]);
            assert(rest[j] == pairs[j + 1]);
        }
        lemma_put_pair_ordered(rest, pair);
        let tail = put_pair(rest, pair);
        assert(name_before(pairs[0].0, tail[0].0)) by {
            if rest.len() > 0 && tail[0] == rest[0] {
                assert(rest[0] == pairs[1]);
            }
        }
        assert forall|i: int, j: int| 0 <= i < j < out.len() implies name_before(
            (#[trigger] out[i]).0,
            (#[trigger] out[j]).0,
        ) by {
            assert(out[j] == tail[j - 1]);
            if i > 0 {
                assert(out[i] == tail[i - 1]);
            } else if j - 1 > 0 {
                assert(name_before(tail[0].0, tail[j - 1].0));
                lemma_name_order(pairs[0].0, tail[0].0, tail[j - 1].0);
            }
        }
    } else {
        assert(out =~= pairs.insert(0, pair));
        lemma_name_order(pair.0, pairs[0].0, pairs[0].0);
        assert(name_before(pair.0, pairs[0].0));
        assert forall|i: int, j: int| 0 <= i < j < out.len() implies name_before(
            (#[trigger] out[i]).0,
            (#[trigger] out[j]).0,
        ) by {
            assert(out[j] == pairs[j - 1]);
            if i > 0 {
                assert(out[i] == pairs[i - 1]);
            } else if j - 1 > 0 {
                assert(name_before(pairs[0].0, pairs[j - 1].0));
                lemma_name_order(pair.0, pairs[0].0, pairs[j - 1].0);
            }
        }
    }
}

/// An enum type: its name and its variants with their numbers, in order of
/// the variants' names.
#[derive(Debug, Clone, PartialEq, Eq)]
pub struct EnumType {
    pub identifier: String,
    pub pairs: Vec<(String, Ordinal)>,
}

/// The mathematical value of an [`EnumType`].
pub struct EnumTypeView {
    pub identifier: Seq<char>,
    pub pairs: Seq<(Seq<char>, Ordinal)>,
}

impl View for EnumType {
    type V = EnumTypeView;

    open spec fn view(&self) -> EnumTypeView {
        EnumTypeView { identifier: self.identifier@, pairs: pairs_view(self.pairs@) }
    }
}

impl EnumTypeView {
    /// Whether no two variants have the same number, so that a number stands
    /// for one variant at most, as a variant stands for one number.
    pub open spec fn invertible(self) -> bool {
        forall|i: int, j: int|
            0 <= i < j < self.pairs.len() ==> (#[trigger] self.pairs[i]).1 != (
            #[trigger] self.pairs[j]).1
    }
}

impl EnumType {
    /// Whether no two variants have the same number.
    pub fn has_unique_ordinals(&self) -> (r: bool)
        ensures
            r == self@.invertible(),
    {
        let mut j: usize = 0;
        while j < self.pairs.len()
            invariant
                j <= self.pairs@.len(),
                forall|a: int, b: int|
                    0 <= a < b < j ==> (#[trigger] self@.pairs[a]).1 != (#[trigger] self@.pairs[b]).1,
            decreases self.pairs@.len() - j,
        {
            let mut i: usize = 0;
            while i < j
                invariant
                    i <= j < self.pairs@.len(),
                    forall|a: int| 0 <= a < i ==> (#[trigger] self@.pairs[a]).1 != self@.pairs[j as int].1,
                decreases j - i,
            {
                if self.pairs[i].1 == self.pairs[j].1 {
                    assert(self@.pairs[i as int].1 == self@.pairs[j as int].1);
                    return false;
                }
                i += 1;
            }
            j += 1;
        }
        true
    }

    /// An enum type without variants.
    pub fn new(identifier: String) -> (r: Self)
        ensures
            r@ == (EnumTypeView { identifier: identifier@, pairs: Seq::empty() }),
    {
        let r = EnumType { identifier, pairs: Vec::new() };
        assert(r@.pairs =~= Seq::empty());
        r
    }

    /// Puts the variant `name` with the number `ordinal` among the variants:
    /// in the place of the variant of that name, where there is one, and else
    /// where the name belongs.
    pub fn insert(&mut self, name: String, ordinal: Ordinal)
        ensures
            final(self)@ == (EnumTypeView {
                identifier: old(self)@.identifier,
                pairs: put_pair(old(self)@.pairs, (name@, ordinal)),
            }),
            pairs_ordered(old(self)@.pairs) ==> pairs_ordered(final(self)@.pairs),
    {
        let ghost before = self@.pairs;
        let mut i: usize = 0;
        while i < self.pairs.len() && !str_eq(self.pairs[i].0.as_str(), name.as_str())
            && str_before(self.pairs[i].0.as_str(), name.as_str())
            invariant
                i <= self.pairs@.len(),
                *self == *old(self),
                forall|j: int|
                    0 <= j < i ==> (#[trigger] self.pairs@[j]).0@ != name@ && name_before(
                        self.pairs@[j].0@,
                        name@,
                    ),
            decreases self.pairs@.len() - i,
        {
            i += 1;
        }
        proof {
            assert forall|j: int| 0 <= j < i implies (#[trigger] before[j]).0 != name@
                && name_before(before[j].0, name@) by {
                assert(before[j].0 == self.pairs@[j].0@);
            }
            lemma_put_pair_at(before, (name@, ordinal), i as int);
            if pairs_ordered(before) {
                lemma_put_pair_ordered(before, (name@, ordinal));
            }
        }
        if i < self.pairs.len() && str_eq(self.pairs[i].0.as_str(), name.as_str()) {
            self.pairs[i] = (name, ordinal);
            assert(pairs_view(self.pairs@) =~= before.update(i as int, (name@, ordinal)));
        } else {
            self.pairs.insert(i, (name, ordinal));
            assert(pairs_view(self.pairs@) =~= before.insert(i as int, (name@, ordinal)));
        }
    }

    /// A copy of this enum type.
    pub fn duplicate(&self) -> (r: Self)
        ensures
            r@ == self@,
    {
        let mut pairs: Vec<(String, Ordinal)> = Vec::new();
        let mut i: usize = 0;
        while i < self.pairs.len()
            invariant
                i <= self.pairs@.len(),
                pairs@.len() == i,
                forall|j: int|
                    0 <= j < i ==> (#[trigger] pairs@[j]).0@ == self.pairs@[j].0@ && pairs@[j].1
                        == self.pairs@[j].1,
            decreases self.pairs@.len() - i,
        {
            pairs.push((self.pairs[i].0.clone(), self.pairs[i].1));
            i += 1;
        }
        let r = EnumType { identifier: self.identifier.clone(), pairs };
        assert(r@.pairs =~= self@.pairs);
        r
    }
}

/// A message field as generated code holds it, with a static name.
#[derive(Debug, Clone, PartialEq, Eq)]
pub struct ConstMessageField {
    pub qualifier: FieldQualifier,
    pub field_type: FieldType,
    pub identifier: &'static str,
    pub ordinal: Field,
}

/// The version of the schema language that a schema declares.
#[derive(Debug, Clone, Copy, PartialEq, Eq, Structural)]
pub enum Version {
    Proto2,
    Unknown,
}

/// Marks a repeated value as one to be written in packed form.
#[derive(Debug, Clone, Copy, PartialEq, Eq)]
pub struct Packed<T>(pub T);

} // verus!
