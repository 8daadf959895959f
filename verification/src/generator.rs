//! The code generator: from a schema to the source text of its types and of
//! their encoders.

use crate::common::{
    EnumType, EnumTypeView, FieldQualifier, FieldType, FieldTypeView, MessageField,
    MessageFieldView, MessageType, MessageTypeView, Ordinal,
};
use crate::parser::{ProtoParser, SchemaView};
use crate::text::{decimal, push_decimal, push_decimal_u32};
use crate::validator::{validate, validated, ValidatorError, ValidatorErrorView};
use convert_case::{Case, Casing};
use vstd::prelude::*;

verus! {

/// `std::io::Error`: the error of a sink, carried as it is.
#[verifier::external_type_specification]
#[verifier::external_body]
pub struct ExIoError(std::io::Error);

/// Why no source text was generated or written.
#[derive(Debug)]
pub enum GeneratorError {
    /// The schema declares no version.
    InvalidProtoVersion,
    /// The conversion of a name to another case left nothing of it.
    FailedToMakeUppercase,
    /// A field names a type that the schema declares neither as a message
    /// nor as an enum.
    MissingTypeDefinition(String),
    /// The sink did not take the text.
    IoRrror(std::io::Error),
}

/// The mathematical value of a [`GeneratorError`].
pub enum GeneratorErrorView {
    InvalidProtoVersion,
    FailedToMakeUppercase,
    MissingTypeDefinition(Seq<char>),
    IoRrror,
}

impl View for GeneratorError {
    type V = GeneratorErrorView;

    open spec fn view(&self) -> GeneratorErrorView {
        match self {
            GeneratorError::InvalidProtoVersion => GeneratorErrorView::InvalidProtoVersion,
            GeneratorError::FailedToMakeUppercase => GeneratorErrorView::FailedToMakeUppercase,
            GeneratorError::MissingTypeDefinition(name) =>
                GeneratorErrorView::MissingTypeDefinition(name@),
            GeneratorError::IoRrror(_) => GeneratorErrorView::IoRrror,
        }
    }
}

impl From<std::io::Error> for GeneratorError {
    fn from(value: std::io::Error) -> (r: Self) {
        Self::IoRrror(value)
    }
}

impl vstd::std_specs::convert::FromSpecImpl<std::io::Error> for GeneratorError {
    open spec fn obeys_from_spec() -> bool {
        true
    }

    open spec fn from_spec(value: std::io::Error) -> Self {
        GeneratorError::IoRrror(value)
    }
}

/// Whether a step of the generator returned the text that it was to return.
pub open spec fn emitted(r: Result<String, GeneratorError>, s: Result<Seq<char>, GeneratorErrorView>) -> bool {
    match (r, s) {
        (Ok(x), Ok(y)) => x@ == y,
        (Err(e), Err(f)) => e@ == f,
        _ => false,
    }
}

/// The name `identifier` in upper camel case, as `convert_case` writes it.
pub uninterp spec fn upper_camel(identifier: Seq<char>) -> Seq<char>;

/// The name `identifier` in upper snake case, as `convert_case` writes it.
pub uninterp spec fn upper_snake(identifier: Seq<char>) -> Seq<char>;

/// Calls `convert_case::Casing::to_case` with `Case::UpperCamel`. Believed of
/// it: what it returns depends on nothing but the name.
#[verifier::external_body]
fn to_upper_camel(identifier: &str) -> (r: String)
    ensures
        r@ == upper_camel(identifier@),
{
    identifier.to_case(Case::UpperCamel)
}

/// Calls `convert_case::Casing::to_case` with `Case::UpperSnake`. Believed of
/// it: what it returns depends on nothing but the name.
#[verifier::external_body]
fn to_upper_snake(identifier: &str) -> (r: String)
    ensures
        r@ == upper_snake(identifier@),
{
    identifier.to_case(Case::UpperSnake)
}

/// A converted name as the generator takes it: a conversion that leaves
/// nothing of a name has failed.
pub open spec fn checked_name(converted: Seq<char>) -> Result<Seq<char>, GeneratorErrorView> {
    if converted.len() == 0 {
        Err(GeneratorErrorView::FailedToMakeUppercase)
    } else {
        Ok(converted)
    }
}

/// Takes a converted name, unless the conversion left nothing of the name.
pub fn check_converted(converted: String) -> (r: Result<String, GeneratorError>)
    ensures
        emitted(r, checked_name(converted@)),
{
    if converted.as_str().is_empty() {
        Err(GeneratorError::FailedToMakeUppercase)
    } else {
        Ok(converted)
    }
}

/// The name of an enum variant as the generated enum has it.
pub fn enum_id_to_pascal(identifier: &str) -> (r: Result<String, GeneratorError>)
    ensures
        emitted(r, checked_name(upper_camel(identifier@))),
{
    check_converted(to_upper_camel(identifier))
}

/// The name of a message as the name of its constant has it.
pub fn identifier_to_const_case(identifier: &str) -> (r: Result<String, GeneratorError>)
    ensures
        emitted(r, checked_name(upper_snake(identifier@))),
{
    check_converted(to_upper_snake(identifier))
}

/// The type that holds one value of a field of the type `field_type`.
pub open spec fn single_type_text(field_type: FieldTypeView) -> Seq<char> {
    match field_type {
        FieldTypeView::Bool => "bool"@,
        FieldTypeView::UnboundedString => "String"@,
        FieldTypeView::String(limit) => "ArrayString<"@ + decimal(limit as nat) + ">"@,
        FieldTypeView::Bytes(limit) => "[u8; "@ + decimal(limit as nat) + "]"@,
        FieldTypeView::UnboundedBytes => "bytes::Bytes"@,
        FieldTypeView::Int32 => "i32"@,
        FieldTypeView::Int64 => "i64"@,
        FieldTypeView::Uint64 => "u64"@,
        FieldTypeView::Uint32 => "u32"@,
        FieldTypeView::MessageType(s, _) => s,
        FieldTypeView::UnboundedMessageType(s) => s,
        FieldTypeView::EnumType(s) => s,
    }
}

/// The type of the struct field that holds a message field: the value itself
/// where it is required, an `Option` where it is optional, a `Vec` where it is
/// repeated without a bound and an array of the bound's length where it has
/// one, either of them in `Packed` where the field is packed.
pub open spec fn rust_type_text(qualifier: FieldQualifier, field_type: FieldTypeView) -> Seq<char> {
    match qualifier {
        FieldQualifier::Required => single_type_text(field_type),
        FieldQualifier::Optional => "Option<"@ + single_type_text(field_type) + ">"@,
        FieldQualifier::RepeatedUnbounded => "Vec<"@ + single_type_text(field_type) + ">"@,
        FieldQualifier::Repeated(limit) => "["@ + single_type_text(field_type) + "; "@ + decimal(
            limit as nat,
        ) + "]"@,
        FieldQualifier::PackedRepeatedUnbounded => "picopb::common::Packed<Vec<"@
            + single_type_text(field_type) + ">>"@,
        FieldQualifier::PackedRepeated(limit) => "picopb::common::Packed<["@ + single_type_text(
            field_type,
        ) + "; "@ + decimal(limit as nat) + "]>"@,
    }
}

fn single_type(field_type: &FieldType) -> (r: String)
    ensures
        r@ == single_type_text(field_type@),
{
    match field_type {
        FieldType::Bool => String::from_str("bool"),
        FieldType::UnboundedString => String::from_str("String"),
        FieldType::String(limit) => {
            let mut out = String::from_str("ArrayString<");
            push_decimal(&mut out, *limit);
            out.append(">");
            out
        },
        FieldType::Bytes(limit) => {
            let mut out = String::from_str("[u8; ");
            push_decimal(&mut out, *limit);
            out.append("]");
            out
        },
        FieldType::UnboundedBytes => String::from_str("bytes::Bytes"),
        FieldType::Int32 => String::from_str("i32"),
        FieldType::Int64 => String::from_str("i64"),
        FieldType::Uint64 => String::from_str("u64"),
        FieldType::Uint32 => String::from_str("u32"),
        FieldType::MessageType(s, _) => s.clone(),
        FieldType::UnboundedMessageType(s) => s.clone(),
        FieldType::EnumType(s) => s.clone(),
    }
}

/// The type of the struct field that holds a message field.
pub fn field_to_rust_type(qualifier: &FieldQualifier, field_type: &FieldType) -> (r: String)
    ensures
        r@ == rust_type_text(*qualifier, field_type@),
{
    let single = single_type(field_type);
    match qualifier {
        FieldQualifier::Required => single,
        FieldQualifier::Optional => {
            let mut out = String::from_str("Option<");
            out.append(single.as_str());
            out.append(">");
            out
        },
        FieldQualifier::RepeatedUnbounded => {
            let mut out = String::from_str("Vec<");
            out.append(single.as_str());
            out.append(">");
            out
        },
        FieldQualifier::Repeated(limit) => {
            let mut out = String::from_str("[");
            out.append(single.as_str());
            out.append("; ");
            push_decimal(&mut out, *limit);
            out.append("]");
            out
        },
        FieldQualifier::PackedRepeatedUnbounded => {
            let mut out = String::from_str("picopb::common::Packed<Vec<");
            out.append(single.as_str());
            out.append(">>");
            out
        },
        FieldQualifier::PackedRepeated(limit) => {
            let mut out = String::from_str("picopb::common::Packed<[");
            out.append(single.as_str());
            out.append("; ");
            push_decimal(&mut out, *limit);
            out.append("]>");
            out
        },
    }
}

/// The lines that head the generated text.
pub open spec fn imports_text() -> Seq<char> {
    "use picopb::common::*;\n"@ + "use picopb::encode::ToWire;\n"@
        + "use picopb::wiretypes::{WireType, WireTyped};\n"@
        + "use picopb::randomizer::{randomized, Randomize};\n"@ + "use std::ops::Deref;\n"@
}

/// The lines that head the generated text.
pub fn generate_imports() -> (r: String)
    ensures
        r@ == imports_text(),
{
    let mut out = String::from_str("use picopb::common::*;\n");
    out.append("use picopb::encode::ToWire;\n");
    out.append("use picopb::wiretypes::{WireType, WireTyped};\n");
    out.append("use picopb::randomizer::{randomized, Randomize};\n");
    out.append("use std::ops::Deref;\n");
    out
}

/// The places of the generated text that hold one line for each variant of
/// an enum.
#[derive(Debug, Clone, Copy, PartialEq, Eq, Structural)]
pub enum VariantLine {
    /// The variant in the declaration of the enum.
    Declaration,
    /// The arm that gives the variant for its number.
    FromOrdinal,
    /// The arm that gives the number for the variant.
    ToOrdinal,
}

/// The line of the variant that the generated enum `enum_id` calls `variant`
/// and that has the number `ordinal`.
pub open spec fn variant_text(
    line: VariantLine,
    enum_id: Seq<char>,
    variant: Seq<char>,
    ordinal: Ordinal,
) -> Seq<char> {
    match line {
        VariantLine::Declaration => "    "@ + variant + ",\n"@,
        VariantLine::FromOrdinal => "            "@ + decimal(ordinal as nat) + " => Ok("@ + enum_id
            + "::"@ + variant + "),\n"@,
        VariantLine::ToOrdinal => "            "@ + enum_id + "::"@ + variant + " => "@ + decimal(
            ordinal as nat,
        ) + ",\n"@,
    }
}

/// The text `acc`, then the lines of the variants `pairs` from the place `at`
/// on. The first variant of a declaration is marked as the default. A variant
/// of whose name the conversion leaves nothing ends the generation.
pub open spec fn variant_lines_from(
    line: VariantLine,
    enum_id: Seq<char>,
    pairs: Seq<(Seq<char>, Ordinal)>,
    at: int,
    acc: Seq<char>,
) -> Result<Seq<char>, GeneratorErrorView>
    decreases pairs.len() - at,
{
    if at < 0 || at >= pairs.len() {
        Ok(acc)
    } else {
        match checked_name(upper_camel(pairs[at].0)) {
            Err(e) => Err(e),
            Ok(variant) => variant_lines_from(
                line,
                enum_id,
                pairs,
                at + 1,
                (if line == VariantLine::Declaration && at == 0 {
                    acc + "    #[default]\n"@
                } else {
                    acc
                }) + variant_text(line, enum_id, variant, pairs[at].1),
            ),
        }
    }
}

fn variant_line(line: VariantLine, enum_id: &str, variant: &str, ordinal: Ordinal) -> (r: String)
    ensures
        r@ == variant_text(line, enum_id@, variant@, ordinal),
{
    match line {
        VariantLine::Declaration => {
            let mut out = String::from_str("    ");
            out.append(variant);
            out.append(",\n");
            out
        },
        VariantLine::FromOrdinal => {
            let mut out = String::from_str("            ");
            push_decimal_u32(&mut out, ordinal);
            out.append(" => Ok(");
            out.append(enum_id);
            out.append("::");
            out.append(variant);
            out.append("),\n");
            out
        },
        VariantLine::ToOrdinal => {
            let mut out = String::from_str("            ");
            out.append(enum_id);
            out.append("::");
            out.append(variant);
            out.append(" => ");
            push_decimal_u32(&mut out, ordinal);
            out.append(",\n");
            out
        },
    }
}

/// The text `acc`, then one line for each variant of `enum_type`.
fn push_variant_lines(line: VariantLine, enum_type: &EnumType, acc: String) -> (r: Result<
    String,
    GeneratorError,
>)
    ensures
        emitted(r, variant_lines_from(line, enum_type@.identifier, enum_type@.pairs, 0, acc@)),
{
    let mut out = acc;
    let mut i: usize = 0;
    while i < enum_type.pairs.len()
        invariant
            i <= enum_type.pairs@.len(),
            variant_lines_from(line, enum_type@.identifier, enum_type@.pairs, 0, acc@)
                == variant_lines_from(
                line,
                enum_type@.identifier,
                enum_type@.pairs,
                i as int,
                out@,
            ),
        decreases enum_type.pairs@.len() - i,
    {
        let pair = &enum_type.pairs[i];
        assert(enum_type@.pairs[i as int] == (pair.0@, pair.1));
        let variant = enum_id_to_pascal(pair.0.as_str())?;
        if line == VariantLine::Declaration && i == 0 {
            out.append("    #[default]\n");
        }
        let text = variant_line(line, enum_type.identifier.as_str(), variant.as_str(), pair.1);
        out.append(text.as_str());
        i += 1;
    }
    Ok(out)
}

/// The conversions between the generated enum and the numbers of its
/// variants: from a number to its variant, which fails on a number that no
/// variant has, and from a variant to its number.
pub open spec fn enum_from_trait_text(enum_type: EnumTypeView) -> Result<
    Seq<char>,
    GeneratorErrorView,
> {
    let id = enum_type.identifier;
    match variant_lines_from(
        VariantLine::FromOrdinal,
        id,
        enum_type.pairs,
        0,
        "impl TryFrom<usize> for "@ + id + " {\n"@ + "    type Error = String;\n"@
            + "    fn try_from(value: usize) -> Result<Self, Self::Error> {\n"@
            + "        match value {\n"@,
    ) {
        Err(e) => Err(e),
        Ok(arms) => match variant_lines_from(
            VariantLine::ToOrdinal,
            id,
            enum_type.pairs,
            0,
            arms + "            _ => Err(format!(\"invalid ordinal value: {} for enum "@ + id
                + "\", value)),\n"@ + "        }\n"@ + "    }\n"@ + "}\n"@ + "impl Into<usize> for "@
                + id + " {\n"@ + "    fn into(self) -> usize {\n"@ + "        match self {\n"@,
        ) {
            Err(e) => Err(e),
            Ok(both) => Ok(both + "        }\n"@ + "    }\n"@ + "}\n"@),
        },
    }
}

/// The conversions between the generated enum and the numbers of its variants.
pub fn generate_enum_from_trait(enum_type: &EnumType) -> (r: Result<String, GeneratorError>)
    ensures
        emitted(r, enum_from_trait_text(enum_type@)),
{
    let id = enum_type.identifier.as_str();
    let mut out = String::from_str("impl TryFrom<usize> for ");
    out.append(id);
    out.append(" {\n");
    out.append("    type Error = String;\n");
    out.append("    fn try_from(value: usize) -> Result<Self, Self::Error> {\n");
    out.append("        match value {\n");
    let mut out = push_variant_lines(VariantLine::FromOrdinal, enum_type, out)?;
    out.append("            _ => Err(format!(\"invalid ordinal value: {} for enum ");
    out.append(id);
    out.append("\", value)),\n");
    out.append("        }\n");
    out.append("    }\n");
    out.append("}\n");
    out.append("impl Into<usize> for ");
    out.append(id);
    out.append(" {\n");
    out.append("    fn into(self) -> usize {\n");
    out.append("        match self {\n");
    let mut out = push_variant_lines(VariantLine::ToOrdinal, enum_type, out)?;
    out.append("        }\n");
    out.append("    }\n");
    out.append("}\n");
    Ok(out)
}

/// The declaration of the generated enum and its conversions.
pub open spec fn enum_text(enum_type: EnumTypeView) -> Result<Seq<char>, GeneratorErrorView> {
    match variant_lines_from(
        VariantLine::Declaration,
        enum_type.identifier,
        enum_type.pairs,
        0,
        "#[derive(Default, Debug, Clone)]\n"@ + "pub enum "@ + enum_type.identifier + " {\n"@,
    ) {
        Err(e) => Err(e),
        Ok(declaration) => match enum_from_trait_text(enum_type) {
            Err(e) => Err(e),
            Ok(conversions) => Ok(declaration + "}\n"@ + conversions),
        },
    }
}

/// The text `acc`, then the text of the enums `enums` from the place `at` on.
pub open spec fn enums_text_from(enums: Seq<EnumTypeView>, at: int, acc: Seq<char>) -> Result<
    Seq<char>,
    GeneratorErrorView,
>
    decreases enums.len() - at,
{
    if at < 0 || at >= enums.len() {
        Ok(acc)
    } else {
        match enum_text(enums[at]) {
            Err(e) => Err(e),
            Ok(text) => enums_text_from(enums, at + 1, acc + text),
        }
    }
}

fn generate_enum(enum_type: &EnumType) -> (r: Result<String, GeneratorError>)
    ensures
        emitted(r, enum_text(enum_type@)),
{
    let mut out = String::from_str("#[derive(Default, Debug, Clone)]\n");
    out.append("pub enum ");
    out.append(enum_type.identifier.as_str());
    out.append(" {\n");
    let mut out = push_variant_lines(VariantLine::Declaration, enum_type, out)?;
    out.append("}\n");
    let conversions = generate_enum_from_trait(enum_type)?;
    out.append(conversions.as_str());
    Ok(out)
}

/// The text of all enums of a schema, in their order.
pub fn generate_enums(enums: &Vec<EnumType>) -> (r: Result<String, GeneratorError>)
    ensures
        emitted(r, enums_text_from(crate::parser::enums_view(enums@), 0, Seq::empty())),
{
    let mut out = String::new();
    let mut i: usize = 0;
    while i < enums.len()
        invariant
            i <= enums@.len(),
            enums_text_from(crate::parser::enums_view(enums@), 0, Seq::empty()) == enums_text_from(
                crate::parser::enums_view(enums@),
                i as int,
                out@,
            ),
        decreases enums@.len() - i,
    {
        let text = generate_enum(&enums[i])?;
        out.append(text.as_str());
        i += 1;
    }
    Ok(out)
}

/// The expression that hands the value of `field` to the encoder. `prefix`
/// leads to the value: `self.` for a field of the message, `value_` for what
/// an optional field holds.
pub open spec fn encodable_text(field: MessageFieldView, prefix: Seq<char>) -> Seq<char> {
    let wrapped = prefix + field.identifier;
    match field.qualifier {
        FieldQualifier::Repeated(_) | FieldQualifier::RepeatedUnbounded => wrapped
            + ".as_slice()"@,
        FieldQualifier::PackedRepeated(_) | FieldQualifier::PackedRepeatedUnbounded =>
            "picopb::common::Packed("@ + wrapped + ".0.as_slice())"@,
        _ => match field.field_type {
            FieldTypeView::UnboundedString => wrapped + ".as_str()"@,
            FieldTypeView::UnboundedBytes => wrapped + ".deref()"@,
            FieldTypeView::String(_) => wrapped + ".as_str()"@,
            FieldTypeView::Bytes(_) => wrapped + ".as_slice()"@,
            FieldTypeView::EnumType(_) => "(Into::<usize>::into("@ + wrapped + ".clone()) as u64)"@,
            FieldTypeView::MessageType(_, _) => "(&"@ + wrapped + ")"@,
            FieldTypeView::UnboundedMessageType(_) => "(&"@ + wrapped + ")"@,
            _ => wrapped,
        },
    }
}

/// The expression that hands the value of `field` to the encoder.
pub fn as_encodable_type(field: &MessageField, prefix: &str) -> (r: String)
    ensures
        r@ == encodable_text(field@, prefix@),
{
    let mut wrapped = String::from_str(prefix);
    wrapped.append(field.identifier.as_str());
    match field.qualifier {
        FieldQualifier::Repeated(_) | FieldQualifier::RepeatedUnbounded => {
            wrapped.append(".as_slice()");
            wrapped
        },
        FieldQualifier::PackedRepeated(_) | FieldQualifier::PackedRepeatedUnbounded => {
            let mut out = String::from_str("picopb::common::Packed(");
            out.append(wrapped.as_str());
            out.append(".0.as_slice())");
            out
        },
        _ => match &field.field_type {
            FieldType::UnboundedString => {
                wrapped.append(".as_str()");
                wrapped
            },
            FieldType::UnboundedBytes => {
                wrapped.append(".deref()");
                wrapped
            },
            FieldType::String(_) => {
                wrapped.append(".as_str()");
                wrapped
            },
            FieldType::Bytes(_) => {
                wrapped.append(".as_slice()");
                wrapped
            },
            FieldType::EnumType(_) => {
                let mut out = String::from_str("(Into::<usize>::into(");
                out.append(wrapped.as_str());
                out.append(".clone()) as u64)");
                out
            },
            FieldType::MessageType(_, _) => {
                let mut out = String::from_str("(&");
                out.append(wrapped.as_str());
                out.append(")");
                out
            },
            FieldType::UnboundedMessageType(_) => {
                let mut out = String::from_str("(&");
                out.append(wrapped.as_str());
                out.append(")");
                out
            },
            _ => wrapped,
        },
    }
}

/// The places of the generated text that hold lines for each field of a
/// message.
#[derive(Debug, Clone, Copy, PartialEq, Eq, Structural)]
pub enum FieldLine {
    /// The field of the generated struct.
    StructField,
    /// The field of the struct that describes the fields.
    MetadataField,
    /// The description of the field.
    MetadataEntry,
    /// The statement that writes the field.
    Append,
    /// The statement that adds the size of the field.
    Size,
    /// The field in the constructor of a random message.
    Randomize,
}

/// The function that the statement of a field calls: in the encoder the one
/// that writes a field, in the size routine the one that calculates what the
/// other writes. A field that is repeated and not packed is handled element
/// by element, any other by its value as a whole.
pub open spec fn callee_text(line: FieldLine, qualifier: FieldQualifier) -> Seq<char> {
    match qualifier {
        FieldQualifier::Repeated(_) | FieldQualifier::RepeatedUnbounded => if line
            == FieldLine::Size {
            "picopb::encode::precalculate_repeated_size("@
        } else {
            "buf.encode_repeated("@
        },
        _ => if line == FieldLine::Size {
            "picopb::encode::precalculate_field_size("@
        } else {
            "buf.encode("@
        },
    }
}

/// The end of the statement of a field: writing can fail, calculating cannot.
pub open spec fn call_end_text(line: FieldLine) -> Seq<char> {
    if line == FieldLine::Size {
        ".ordinal);\n"@
    } else {
        ".ordinal)?;\n"@
    }
}

/// The statement of a field in the encoder or in the size routine. The two
/// routines treat a field alike but for the function that they call: a field
/// that is optional is taken only where it holds a value, and every field is
/// handed over by the same expression, with its number from the description of
/// the fields.
pub open spec fn policy_text(line: FieldLine, field: MessageFieldView) -> Seq<char> {
    let id = field.identifier;
    match field.qualifier {
        FieldQualifier::Optional => "        if let Some(value_"@ + id + ") = &self."@ + id
            + " {\n"@ + "            total_size += "@ + callee_text(line, field.qualifier)
            + encodable_text(field, "value_"@) + ", self.fields()."@ + id + call_end_text(line)
            + "        }\n"@,
        _ => "        total_size += "@ + callee_text(line, field.qualifier) + encodable_text(
            field,
            "self."@,
        ) + ", self.fields()."@ + id + call_end_text(line),
    }
}

/// The lines of the field `field` at the place `line`.
pub open spec fn field_text(line: FieldLine, field: MessageFieldView) -> Seq<char> {
    let id = field.identifier;
    match line {
        FieldLine::StructField => "    pub "@ + id + ": "@ + rust_type_text(
            field.qualifier,
            field.field_type,
        ) + ",\n"@,
        FieldLine::MetadataField => "    pub "@ + id + ": picopb::common::ConstMessageField,\n"@,
        FieldLine::MetadataEntry => "    "@ + id + ": picopb::common::ConstMessageField {\n"@
            + "        qualifier: "@ + field.qualifier.repr_text() + ",\n"@
            + "        field_type: "@ + field.field_type.repr() + ",\n"@
            + "        identifier: \""@ + id + "\",\n"@ + "        ordinal: picopb::common::Field("@
            + decimal(field.ordinal.0 as nat) + "),\n"@ + "    },\n"@,
        FieldLine::Append => policy_text(line, field),
        FieldLine::Size => policy_text(line, field),
        FieldLine::Randomize => "            "@ + id + ": randomized::<"@ + rust_type_text(
            field.qualifier,
            field.field_type,
        ) + ">(),\n"@,
    }
}

/// The text `acc`, then the lines of the fields `fields` from the place `at`
/// on, in their order, which is that of the field numbers.
pub open spec fn field_lines_from(
    line: FieldLine,
    fields: Seq<MessageFieldView>,
    at: int,
    acc: Seq<char>,
) -> Seq<char>
    decreases fields.len() - at,
{
    if at < 0 || at >= fields.len() {
        acc
    } else {
        field_lines_from(line, fields, at + 1, acc + field_text(line, fields[at]))
    }
}

fn callee(line: FieldLine, qualifier: FieldQualifier) -> (r: &'static str)
    ensures
        r@ == callee_text(line, qualifier),
{
    match qualifier {
        FieldQualifier::Repeated(_) | FieldQualifier::RepeatedUnbounded => {
            if line == FieldLine::Size {
                "picopb::encode::precalculate_repeated_size("
            } else {
                "buf.encode_repeated("
            }
        },
        _ => {
            if line == FieldLine::Size {
                "picopb::encode::precalculate_field_size("
            } else {
                "buf.encode("
            }
        },
    }
}

fn call_end(line: FieldLine) -> (r: &'static str)
    ensures
        r@ == call_end_text(line),
{
    if line == FieldLine::Size {
        ".ordinal);\n"
    } else {
        ".ordinal)?;\n"
    }
}

fn policy_line(line: FieldLine, field: &MessageField) -> (r: String)
    ensures
        r@ == policy_text(line, field@),
{
    let id = field.identifier.as_str();
    match field.qualifier {
        FieldQualifier::Optional => {
            let encodable = as_encodable_type(field, "value_");
            let mut out = String::from_str("        if let Some(value_");
            out.append(id);
            out.append(") = &self.");
            out.append(id);
            out.append(" {\n");
            out.append("            total_size += ");
            out.append(callee(line, field.qualifier));
            out.append(encodable.as_str());
            out.append(", self.fields().");
            out.append(id);
            out.append(call_end(line));
            out.append("        }\n");
            out
        },
        _ => {
            let encodable = as_encodable_type(field, "self.");
            let mut out = String::from_str("        total_size += ");
            out.append(callee(line, field.qualifier));
            out.append(encodable.as_str());
            out.append(", self.fields().");
            out.append(id);
            out.append(call_end(line));
            out
        },
    }
}

fn field_line(line: FieldLine, field: &MessageField) -> (r: String)
    ensures
        r@ == field_text(line, field@),
{
    let id = field.identifier.as_str();
    match line {
        FieldLine::StructField => {
            let rust_type = field_to_rust_type(&field.qualifier, &field.field_type);
            let mut out = String::from_str("    pub ");
            out.append(id);
            out.append(": ");
            out.append(rust_type.as_str());
            out.append(",\n");
            out
        },
        FieldLine::MetadataField => {
            let mut out = String::from_str("    pub ");
            out.append(id);
            out.append(": picopb::common::ConstMessageField,\n");
            out
        },
        FieldLine::MetadataEntry => {
            let qualifier = field.qualifier.repr();
            let field_type = field.field_type.repr();
            let mut out = String::from_str("    ");
            out.append(id);
            out.append(": picopb::common::ConstMessageField {\n");
            out.append("        qualifier: ");
            out.append(qualifier.as_str());
            out.append(",\n");
            out.append("        field_type: ");
            out.append(field_type.as_str());
            out.append(",\n");
            out.append("        identifier: \"");
            out.append(id);
            out.append("\",\n");
            out.append("        ordinal: picopb::common::Field(");
            push_decimal_u32(&mut out, field.ordinal.0);
            out.append("),\n");
            out.append("    },\n");
            out
        },
        FieldLine::Append => policy_line(line, field),
        FieldLine::Size => policy_line(line, field),
        FieldLine::Randomize => {
            let rust_type = field_to_rust_type(&field.qualifier, &field.field_type);
            let mut out = String::from_str("            ");
            out.append(id);
            out.append(": randomized::<");
            out.append(rust_type.as_str());
            out.append(">(),\n");
            out
        },
    }
}

/// Appends to `out` the lines of each field of `message_type`.
fn push_field_lines(line: FieldLine, message_type: &MessageType, out: &mut String)
    ensures
        final(out)@ == field_lines_from(line, message_type@.fields, 0, old(out)@),
{
    let mut i: usize = 0;
    while i < message_type.fields.len()
        invariant
            i <= message_type.fields@.len(),
            field_lines_from(line, message_type@.fields, 0, old(out)@) == field_lines_from(
                line,
                message_type@.fields,
                i as int,
                out@,
            ),
        decreases message_type.fields@.len() - i,
    {
        let text = field_line(line, &message_type.fields[i]);
        assert(message_type@.fields[i as int] == message_type.fields@[i as int]@);
        out.append(text.as_str());
        i += 1;
    }
}

/// The struct that describes the fields of a message, the constant of that
/// type, and the method of the message that gives the constant.
pub open spec fn message_metadata_text(message: MessageTypeView) -> Result<
    Seq<char>,
    GeneratorErrorView,
> {
    let id = message.identifier;
    match checked_name(upper_snake(id)) {
        Err(e) => Err(e),
        Ok(constant) => Ok(
            field_lines_from(
                FieldLine::MetadataEntry,
                message.fields,
                0,
                field_lines_from(
                    FieldLine::MetadataField,
                    message.fields,
                    0,
                    "#[derive(Debug)]\n"@ + "pub struct "@ + id + "FieldsType {\n"@,
                ) + "}\n"@ + "const "@ + constant + "_FIELDS: "@ + id + "FieldsType = "@ + id
                    + "FieldsType {\n"@,
            ) + "};\n"@ + "impl "@ + id + " {\n"@ + "    fn fields(&self) -> "@ + id
                + "FieldsType {\n"@ + "        "@ + constant + "_FIELDS\n"@ + "    }\n"@ + "}\n"@,
        ),
    }
}

/// The description of the fields of a message.
pub fn generate_message_metadata(message_type: &MessageType) -> (r: Result<String, GeneratorError>)
    ensures
        emitted(r, message_metadata_text(message_type@)),
{
    let id = message_type.identifier.as_str();
    let constant = identifier_to_const_case(id)?;
    let mut out = String::from_str("#[derive(Debug)]\n");
    out.append("pub struct ");
    out.append(id);
    out.append("FieldsType {\n");
    push_field_lines(FieldLine::MetadataField, message_type, &mut out);
    out.append("}\n");
    out.append("const ");
    out.append(constant.as_str());
    out.append("_FIELDS: ");
    out.append(id);
    out.append("FieldsType = ");
    out.append(id);
    out.append("FieldsType {\n");
    push_field_lines(FieldLine::MetadataEntry, message_type, &mut out);
    out.append("};\n");
    out.append("impl ");
    out.append(id);
    out.append(" {\n");
    out.append("    fn fields(&self) -> ");
    out.append(id);
    out.append("FieldsType {\n");
    out.append("        ");
    out.append(constant.as_str());
    out.append("_FIELDS\n");
    out.append("    }\n");
    out.append("}\n");
    Ok(out)
}

/// The wire type of a message: it is delimited by its length.
pub open spec fn message_wiretyped_text(message: MessageTypeView) -> Seq<char> {
    "impl picopb::wiretypes::WireTyped for &"@ + message.identifier + " {\n"@
        + "    fn wiretype(&self) -> WireType {\n"@ + "        WireType::Len\n"@ + "    }\n"@
        + "}\n"@
}

/// The wire type of a message.
pub fn generate_message_wiretyped(message_type: &MessageType) -> (r: String)
    ensures
        r@ == message_wiretyped_text(message_type@),
{
    let mut out = String::from_str("impl picopb::wiretypes::WireTyped for &");
    out.append(message_type.identifier.as_str());
    out.append(" {\n");
    out.append("    fn wiretype(&self) -> WireType {\n");
    out.append("        WireType::Len\n");
    out.append("    }\n");
    out.append("}\n");
    out
}

/// The encoder of a message: a routine that writes the fields in the order
/// of their numbers, and one that adds up their sizes in the same order and
/// by the same cases.
pub open spec fn message_to_wire_text(message: MessageTypeView) -> Seq<char> {
    field_lines_from(
        FieldLine::Size,
        message.fields,
        0,
        field_lines_from(
            FieldLine::Append,
            message.fields,
            0,
            "impl picopb::encode::ToWire for &"@ + message.identifier + " {\n"@
                + "    fn append(self, buf: &mut picopb::encode::EncodeBuffer) -> Result<usize, picopb::encode::EncodeError> {\n"@
                + "        let mut total_size = 0;\n"@,
        ) + "        Ok(total_size)\n"@ + "    }\n"@ + "    fn precalculate_size(self) -> usize {\n"@
            + "        let mut total_size = 0;\n"@,
    ) + "        total_size\n"@ + "    }\n"@ + "}\n"@
}

/// The encoder of a message.
pub fn generate_message_to_wire(message_type: &MessageType) -> (r: String)
    ensures
        r@ == message_to_wire_text(message_type@),
{
    let mut out = String::from_str("impl picopb::encode::ToWire for &");
    out.append(message_type.identifier.as_str());
    out.append(" {\n");
    out.append(
        "    fn append(self, buf: &mut picopb::encode::EncodeBuffer) -> Result<usize, picopb::encode::EncodeError> {\n",
    );
    out.append("        let mut total_size = 0;\n");
    push_field_lines(FieldLine::Append, message_type, &mut out);
    out.append("        Ok(total_size)\n");
    out.append("    }\n");
    out.append("    fn precalculate_size(self) -> usize {\n");
    out.append("        let mut total_size = 0;\n");
    push_field_lines(FieldLine::Size, message_type, &mut out);
    out.append("        total_size\n");
    out.append("    }\n");
    out.append("}\n");
    out
}

/// The constructor of a random message.
pub open spec fn message_randomize_text(message: MessageTypeView) -> Seq<char> {
    let id = message.identifier;
    field_lines_from(
        FieldLine::Randomize,
        message.fields,
        0,
        "impl Randomize<"@ + id + "> for "@ + id + " {\n"@ + "    fn randomized() -> "@ + id
            + " {\n"@ + "        Self {\n"@,
    ) + "        }\n"@ + "    }\n"@ + "}\n"@
}

/// The constructor of a random message.
pub fn generate_message_impl_randomize(message_type: &MessageType) -> (r: String)
    ensures
        r@ == message_randomize_text(message_type@),
{
    let id = message_type.identifier.as_str();
    let mut out = String::from_str("impl Randomize<");
    out.append(id);
    out.append("> for ");
    out.append(id);
    out.append(" {\n");
    out.append("    fn randomized() -> ");
    out.append(id);
    out.append(" {\n");
    out.append("        Self {\n");
    push_field_lines(FieldLine::Randomize, message_type, &mut out);
    out.append("        }\n");
    out.append("    }\n");
    out.append("}\n");
    out
}

/// The generated struct of a message and all that belongs to it.
pub open spec fn message_text(message: MessageTypeView) -> Result<Seq<char>, GeneratorErrorView> {
    match message_metadata_text(message) {
        Err(e) => Err(e),
        Ok(metadata) => Ok(
            field_lines_from(
                FieldLine::StructField,
                message.fields,
                0,
                "#[derive(Default, Debug)]\n"@ + "pub struct "@ + message.identifier + " {\n"@,
            ) + "}\n"@ + metadata + message_wiretyped_text(message) + message_to_wire_text(message)
                + message_randomize_text(message),
        ),
    }
}

/// The text `acc`, then the text of the messages `messages` from the place
/// `at` on.
pub open spec fn messages_text_from(messages: Seq<MessageTypeView>, at: int, acc: Seq<char>) -> Result<
    Seq<char>,
    GeneratorErrorView,
>
    decreases messages.len() - at,
{
    if at < 0 || at >= messages.len() {
        Ok(acc)
    } else {
        match message_text(messages[at]) {
            Err(e) => Err(e),
            Ok(text) => messages_text_from(messages, at + 1, acc + text),
        }
    }
}

fn generate_message(message_type: &MessageType) -> (r: Result<String, GeneratorError>)
    ensures
        emitted(r, message_text(message_type@)),
{
    let mut out = String::from_str("#[derive(Default, Debug)]\n");
    out.append("pub struct ");
    out.append(message_type.identifier.as_str());
    out.append(" {\n");
    push_field_lines(FieldLine::StructField, message_type, &mut out);
    out.append("}\n");
    let metadata = generate_message_metadata(message_type)?;
    out.append(metadata.as_str());
    out.append(generate_message_wiretyped(message_type).as_str());
    out.append(generate_message_to_wire(message_type).as_str());
    out.append(generate_message_impl_randomize(message_type).as_str());
    Ok(out)
}

/// The text of all messages of a schema, in their order.
pub fn generate_messages(message_types: &Vec<MessageType>) -> (r: Result<String, GeneratorError>)
    ensures
        emitted(
            r,
            messages_text_from(crate::parser::messages_view(message_types@), 0, Seq::empty()),
        ),
{
    let mut out = String::new();
    let mut i: usize = 0;
    while i < message_types.len()
        invariant
            i <= message_types@.len(),
            messages_text_from(crate::parser::messages_view(message_types@), 0, Seq::empty())
                == messages_text_from(
                crate::parser::messages_view(message_types@),
                i as int,
                out@,
            ),
        decreases message_types@.len() - i,
    {
        let text = generate_message(&message_types[i])?;
        out.append(text.as_str());
        i += 1;
    }
    Ok(out)
}

/// The source text that is generated for a schema. A schema that is not
/// valid is refused with what validation finds of it. Otherwise the text
/// holds the imports, then the enums, then the messages.
pub open spec fn generated(schema: SchemaView) -> Result<Seq<char>, GeneratorErrorView> {
    match validated(schema) {
        Err(ValidatorErrorView::InvalidProtoVersion) => Err(
            GeneratorErrorView::InvalidProtoVersion,
        ),
        Err(ValidatorErrorView::MissingTypeDefinition(name)) => Err(
            GeneratorErrorView::MissingTypeDefinition(name),
        ),
        Ok(_) => match enums_text_from(schema.enum_types, 0, Seq::empty()) {
            Err(e) => Err(e),
            Ok(enums) => match messages_text_from(schema.message_types, 0, Seq::empty()) {
                Err(e) => Err(e),
                Ok(messages) => Ok(imports_text() + enums + messages),
            },
        },
    }
}

/// Whether the text `part` stands somewhere in the text `text`.
pub open spec fn holds(text: Seq<char>, part: Seq<char>) -> bool {
    exists|i: int|
        0 <= i && i + part.len() <= text.len() && #[trigger] text.subrange(i, i + part.len())
            == part
}

/// What stands in a text stands in every text that the text is a stretch of.
pub proof fn lemma_holds_within(before: Seq<char>, text: Seq<char>, after: Seq<char>, part: Seq<char>)
    requires
        holds(text, part),
    ensures
        holds(before + text + after, part),
{
    let i = choose|i: int|
        0 <= i && i + part.len() <= text.len() && #[trigger] text.subrange(i, i + part.len())
            == part;
    let whole = before + text + after;
    let j = before.len() + i;
    assert(whole.subrange(j, j + part.len()) =~= text.subrange(i, i + part.len()));
}

/// A text stands in itself.
pub proof fn lemma_holds_itself(text: Seq<char>)
    ensures
        holds(text, text),
{
    assert(text.subrange(0int, 0int + text.len()) =~= text);
}

/// The lines of fields come after the text that they are added to, whatever
/// that text holds.
pub proof fn lemma_field_lines_follow(
    line: FieldLine,
    fields: Seq<MessageFieldView>,
    at: int,
    acc: Seq<char>,
)
    ensures
        field_lines_from(line, fields, at, acc) == acc + field_lines_from(
            line,
            fields,
            at,
            Seq::empty(),
        ),
    decreases fields.len() - at,
{
    if at < 0 || at >= fields.len() {
        assert(acc + Seq::<char>::empty() =~= acc);
    } else {
        let text = field_text(line, fields[at]);
        lemma_field_lines_follow(line, fields, at + 1, acc + text);
        lemma_field_lines_follow(line, fields, at + 1, Seq::<char>::empty() + text);
        assert(Seq::<char>::empty() + text =~= text);
        assert((acc + text) + field_lines_from(line, fields, at + 1, Seq::empty()) =~= acc + (text
            + field_lines_from(line, fields, at + 1, Seq::empty())));
    }
}

/// The lines of fields hold the lines of each of the fields.
pub proof fn lemma_field_line_held(
    line: FieldLine,
    fields: Seq<MessageFieldView>,
    at: int,
    j: int,
    acc: Seq<char>,
)
    requires
        0 <= at <= j < fields.len(),
    ensures
        holds(field_lines_from(line, fields, at, acc), field_text(line, fields[j])),
    decreases fields.len() - at,
{
    let text = field_text(line, fields[at]);
    let rest = field_lines_from(line, fields, at + 1, Seq::empty());
    lemma_field_lines_follow(line, fields, at + 1, acc + text);
    assert(field_lines_from(line, fields, at, acc) == (acc + text) + rest);
    if j == at {
        lemma_holds_itself(text);
        lemma_holds_within(acc, text, rest, text);
    } else {
        lemma_field_line_held(line, fields, at + 1, j, Seq::empty());
        lemma_holds_within(acc + text, rest, Seq::empty(), field_text(line, fields[j]));
        assert((acc + text) + rest + Seq::<char>::empty() =~= (acc + text) + rest);
    }
}

/// The text of a message holds, for each of its fields, the line of the
/// field in the struct.
pub proof fn lemma_message_holds_field(message: MessageTypeView, j: int)
    requires
        message_text(message) is Ok,
        0 <= j < message.fields.len(),
    ensures
        holds(
            message_text(message)->Ok_0,
            field_text(FieldLine::StructField, message.fields[j]),
        ),
{
    let head = "#[derive(Default, Debug)]\n"@ + "pub struct "@ + message.identifier + " {\n"@;
    let lines = field_lines_from(FieldLine::StructField, message.fields, 0, head);
    let after = "}\n"@ + message_metadata_text(message)->Ok_0 + message_wiretyped_text(message)
        + message_to_wire_text(message) + message_randomize_text(message);
    lemma_field_line_held(FieldLine::StructField, message.fields, 0, j, head);
    lemma_holds_within(
        Seq::empty(),
        lines,
        after,
        field_text(FieldLine::StructField, message.fields[j]),
    );
    assert(Seq::<char>::empty() + lines + after =~= message_text(message)->Ok_0);
}

/// The texts of messages come after the text that they are added to, and
/// whether there is a text for all of them does not hang on that text.
pub proof fn lemma_messages_follow(messages: Seq<MessageTypeView>, at: int, acc: Seq<char>)
    ensures
        messages_text_from(messages, at, acc) is Ok <==> messages_text_from(
            messages,
            at,
            Seq::empty(),
        ) is Ok,
        messages_text_from(messages, at, acc) is Ok ==> messages_text_from(messages, at, acc)
            ->Ok_0 == acc + messages_text_from(messages, at, Seq::empty())->Ok_0,
    decreases messages.len() - at,
{
    if at < 0 || at >= messages.len() {
        assert(acc + Seq::<char>::empty() =~= acc);
    } else if message_text(messages[at]) is Ok {
        let text = message_text(messages[at])->Ok_0;
        lemma_messages_follow(messages, at + 1, acc + text);
        lemma_messages_follow(messages, at + 1, Seq::<char>::empty() + text);
        assert(Seq::<char>::empty() + text =~= text);
        if messages_text_from(messages, at, acc) is Ok {
            let rest = messages_text_from(messages, at + 1, Seq::empty())->Ok_0;
            assert((acc + text) + rest =~= acc + (text + rest));
        }
    }
}

/// Where there is a text for all messages, there is one for each, and the
/// text of all holds the text of each.
pub proof fn lemma_messages_hold_message(
    messages: Seq<MessageTypeView>,
    at: int,
    i: int,
    acc: Seq<char>,
)
    requires
        0 <= at <= i < messages.len(),
        messages_text_from(messages, at, acc) is Ok,
    ensures
        message_text(messages[i]) is Ok,
        holds(messages_text_from(messages, at, acc)->Ok_0, message_text(messages[i])->Ok_0),
    decreases messages.len() - at,
{
    let text = message_text(messages[at])->Ok_0;
    lemma_messages_follow(messages, at + 1, acc + text);
    let rest = messages_text_from(messages, at + 1, Seq::empty())->Ok_0;
    assert(messages_text_from(messages, at, acc)->Ok_0 == (acc + text) + rest);
    if i == at {
        lemma_holds_itself(text);
        lemma_holds_within(acc, text, rest, text);
    } else {
        lemma_messages_hold_message(messages, at + 1, i, Seq::empty());
        lemma_holds_within(acc + text, rest, Seq::empty(), message_text(messages[i])->Ok_0);
        assert((acc + text) + rest + Seq::<char>::empty() =~= (acc + text) + rest);
    }
}

/// What stands in a part of a text stands in the text.
pub proof fn lemma_holds_through(whole: Seq<char>, text: Seq<char>, part: Seq<char>)
    requires
        holds(whole, text),
        holds(text, part),
    ensures
        holds(whole, part),
{
    let i = choose|i: int|
        0 <= i && i + text.len() <= whole.len() && #[trigger] whole.subrange(i, i + text.len())
            == text;
    let j = choose|j: int|
        0 <= j && j + part.len() <= text.len() && #[trigger] text.subrange(j, j + part.len())
            == part;
    assert(whole.subrange(i + j, i + j + part.len()) =~= whole.subrange(
        i,
        i + text.len(),
    ).subrange(j, j + part.len()));
}

/// The text that is generated for a schema holds, for every field of every
/// message, the line of the field in the struct of the message: its name and
/// the type that holds it. For a required field of bytes with a bound that
/// line names an array of exactly the bound's length.
pub proof fn lemma_generated_holds_field(schema: SchemaView, i: int, j: int)
    requires
        generated(schema) is Ok,
        0 <= i < schema.message_types.len(),
        0 <= j < schema.message_types[i].fields.len(),
    ensures
        ({
            let field = schema.message_types[i].fields[j];
            &&& holds(generated(schema)->Ok_0, field_text(FieldLine::StructField, field))
            &&& field_text(FieldLine::StructField, field) == "    pub "@ + field.identifier + ": "@
                + rust_type_text(field.qualifier, field.field_type) + ",\n"@
            &&& forall|limit: usize|
                field.qualifier == FieldQualifier::Required && field.field_type
                    == FieldTypeView::Bytes(limit) ==> rust_type_text(
                    field.qualifier,
                    field.field_type,
                ) == "[u8; "@ + decimal(limit as nat) + "]"@
        }),
{
    let messages = schema.message_types;
    let enums = enums_text_from(schema.enum_types, 0, Seq::empty())->Ok_0;
    let all = messages_text_from(messages, 0, Seq::empty())->Ok_0;
    let one = message_text(messages[i])->Ok_0;
    let line = field_text(FieldLine::StructField, messages[i].fields[j]);
    lemma_messages_hold_message(messages, 0, i, Seq::empty());
    lemma_message_holds_field(messages[i], j);
    lemma_holds_through(all, one, line);
    lemma_holds_within(imports_text() + enums, all, Seq::empty(), line);
    assert((imports_text() + enums) + all + Seq::<char>::empty() =~= generated(schema)->Ok_0);
}

/// Whether the conversion of every name of the schema that is converted
/// leaves something of the name: the names of the variants of its enums and
/// the names of its messages.
pub open spec fn names_convert(schema: SchemaView) -> bool {
    &&& forall|i: int, k: int|
        0 <= i < schema.enum_types.len() && 0 <= k < schema.enum_types[i].pairs.len()
            ==> upper_camel(#[trigger] schema.enum_types[i].pairs[k].0).len() > 0
    &&& forall|i: int|
        0 <= i < schema.message_types.len() ==> upper_snake(
            (#[trigger] schema.message_types[i]).identifier,
        ).len() > 0
}

/// Lines of variants whose names all convert are all written.
pub proof fn lemma_variant_lines_written(
    line: VariantLine,
    enum_id: Seq<char>,
    pairs: Seq<(Seq<char>, Ordinal)>,
    at: int,
    acc: Seq<char>,
)
    requires
        forall|k: int| 0 <= k < pairs.len() ==> upper_camel(#[trigger] pairs[k].0).len() > 0,
    ensures
        variant_lines_from(line, enum_id, pairs, at, acc) is Ok,
    decreases pairs.len() - at,
{
    if 0 <= at < pairs.len() {
        assert(upper_camel(pairs[at].0).len() > 0);
        let variant = upper_camel(pairs[at].0);
        lemma_variant_lines_written(
            line,
            enum_id,
            pairs,
            at + 1,
            (if line == VariantLine::Declaration && at == 0 {
                acc + "    #[default]\n"@
            } else {
                acc
            }) + variant_text(line, enum_id, variant, pairs[at].1),
        );
    }
}

/// The text of enums whose variants' names all convert is written.
pub proof fn lemma_enums_written(enums: Seq<EnumTypeView>, at: int, acc: Seq<char>)
    requires
        forall|i: int, k: int|
            0 <= i < enums.len() && 0 <= k < enums[i].pairs.len() ==> upper_camel(
                #[trigger] enums[i].pairs[k].0,
            ).len() > 0,
    ensures
        enums_text_from(enums, at, acc) is Ok,
    decreases enums.len() - at,
{
    if 0 <= at < enums.len() {
        let one = enums[at];
        assert forall|k: int| 0 <= k < one.pairs.len() implies upper_camel(
            #[trigger] one.pairs[k].0,
        ).len() > 0 by {
            assert(upper_camel(enums[at].pairs[k].0).len() > 0);
        }
        let head = "#[derive(Default, Debug, Clone)]\n"@ + "pub enum "@ + one.identifier + " {\n"@;
        lemma_variant_lines_written(VariantLine::Declaration, one.identifier, one.pairs, 0, head);
        let first = "impl TryFrom<usize> for "@ + one.identifier + " {\n"@
            + "    type Error = String;\n"@
            + "    fn try_from(value: usize) -> Result<Self, Self::Error> {\n"@
            + "        match value {\n"@;
        lemma_variant_lines_written(VariantLine::FromOrdinal, one.identifier, one.pairs, 0, first);
        let arms = variant_lines_from(VariantLine::FromOrdinal, one.identifier, one.pairs, 0, first)
            ->Ok_0;
        lemma_variant_lines_written(
            VariantLine::ToOrdinal,
            one.identifier,
            one.pairs,
            0,
            arms + "            _ => Err(format!(\"invalid ordinal value: {} for enum "@
                + one.identifier + "\", value)),\n"@ + "        }\n"@ + "    }\n"@ + "}\n"@
                + "impl Into<usize> for "@ + one.identifier + " {\n"@
                + "    fn into(self) -> usize {\n"@ + "        match self {\n"@,
        );
        assert(enum_from_trait_text(one) is Ok);
        assert(enum_text(one) is Ok);
        lemma_enums_written(enums, at + 1, acc + enum_text(one)->Ok_0);
    }
}

/// The text of messages whose names all convert is written.
pub proof fn lemma_messages_written(messages: Seq<MessageTypeView>, at: int, acc: Seq<char>)
    requires
        forall|i: int|
            0 <= i < messages.len() ==> upper_snake((#[trigger] messages[i]).identifier).len() > 0,
    ensures
        messages_text_from(messages, at, acc) is Ok,
    decreases messages.len() - at,
{
    if 0 <= at < messages.len() {
        assert(upper_snake(messages[at].identifier).len() > 0);
        assert(message_metadata_text(messages[at]) is Ok);
        assert(message_text(messages[at]) is Ok);
        lemma_messages_written(messages, at + 1, acc + message_text(messages[at])->Ok_0);
    }
}

/// A text is generated for every valid schema whose names convert.
pub proof fn lemma_generated_ok(schema: SchemaView)
    requires
        validated(schema) is Ok,
        names_convert(schema),
    ensures
        generated(schema) is Ok,
{
    lemma_enums_written(schema.enum_types, 0, Seq::empty());
    lemma_messages_written(schema.message_types, 0, Seq::empty());
}

/// Generates the source text for a schema.
pub fn generate(parser: &ProtoParser) -> (r: Result<String, GeneratorError>)
    ensures
        emitted(r, generated(parser@)),
{
    match validate(parser) {
        Ok(_) => {},
        Err(ValidatorError::InvalidProtoVersion) => {
            return Err(GeneratorError::InvalidProtoVersion);
        },
        Err(ValidatorError::MissingTypeDefinition(name)) => {
            return Err(GeneratorError::MissingTypeDefinition(name));
        },
    }
    let mut out = generate_imports();
    let enums = generate_enums(&parser.enum_types)?;
    let messages = generate_messages(&parser.message_types)?;
    out.append(enums.as_str());
    out.append(messages.as_str());
    Ok(out)
}

} // verus!
