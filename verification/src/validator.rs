//! The validator: checks that a schema declares its version and every type
//! that its fields name.

use crate::common::{FieldType, FieldTypeView, MessageFieldView, Version};
use crate::parser::{is_enum, is_message, lemma_refined, ProtoParser, SchemaView};
use vstd::prelude::*;

verus! {

/// Why a schema is not valid.
#[derive(Debug, Clone, PartialEq, Eq)]
pub enum ValidatorError {
    /// The schema declares no version.
    InvalidProtoVersion,
    /// A field names a type that the schema declares neither as a message
    /// nor as an enum.
    MissingTypeDefinition(String),
}

/// The mathematical value of a [`ValidatorError`].
pub enum ValidatorErrorView {
    InvalidProtoVersion,
    MissingTypeDefinition(Seq<char>),
}

impl View for ValidatorError {
    type V = ValidatorErrorView;

    open spec fn view(&self) -> ValidatorErrorView {
        match self {
            ValidatorError::InvalidProtoVersion => ValidatorErrorView::InvalidProtoVersion,
            ValidatorError::MissingTypeDefinition(name) =>
                ValidatorErrorView::MissingTypeDefinition(name@),
        }
    }
}

/// Whether the schema declares a message or an enum of the name `name`.
pub open spec fn declared(schema: SchemaView, name: Seq<char>) -> bool {
    is_message(schema.message_types, name) || is_enum(schema.enum_types, name)
}

/// Whether the field names a type that the schema does not declare.
pub open spec fn names_missing_type(schema: SchemaView, field: MessageFieldView) -> bool {
    match field.field_type.unresolved_name() {
        Some(name) => !declared(schema, name),
        None => false,
    }
}

/// The first type name among the fields `fields` from the place `at` on that
/// the schema does not declare.
pub open spec fn missing_in_fields(schema: SchemaView, fields: Seq<MessageFieldView>, at: int) -> Option<
    Seq<char>,
>
    decreases fields.len() - at,
{
    if at < 0 || at >= fields.len() {
        None
    } else if names_missing_type(schema, fields[at]) {
        fields[at].field_type.unresolved_name()
    } else {
        missing_in_fields(schema, fields, at + 1)
    }
}

/// The first type name among the fields of the messages from the place `at`
/// on that the schema does not declare.
pub open spec fn missing_in_messages(schema: SchemaView, at: int) -> Option<Seq<char>>
    decreases schema.message_types.len() - at,
{
    if at < 0 || at >= schema.message_types.len() {
        None
    } else {
        match missing_in_fields(schema, schema.message_types[at].fields, 0) {
            Some(name) => Some(name),
            None => missing_in_messages(schema, at + 1),
        }
    }
}

/// What validation finds of the schema: its version must be known, and every
/// field that names a type must name a message or an enum of the schema. The
/// first name that is not declared, in the order of the messages and of their
/// fields, is the one reported.
pub open spec fn validated(schema: SchemaView) -> Result<(), ValidatorErrorView> {
    if schema.version == Version::Unknown {
        Err(ValidatorErrorView::InvalidProtoVersion)
    } else {
        match missing_in_messages(schema, 0) {
            Some(name) => Err(ValidatorErrorView::MissingTypeDefinition(name)),
            None => Ok(()),
        }
    }
}

/// Where no name is missing among fields, every field names a declared type;
/// where one is, it is the name of a field there and not declared.
pub proof fn lemma_missing_in_fields(schema: SchemaView, fields: Seq<MessageFieldView>, at: int)
    requires
        0 <= at,
    ensures
        missing_in_fields(schema, fields, at) is None <==> forall|j: int|
            at <= j < fields.len() ==> !names_missing_type(schema, #[trigger] fields[j]),
        missing_in_fields(schema, fields, at) is Some ==> !declared(
            schema,
            missing_in_fields(schema, fields, at)->0,
        ),
    decreases fields.len() - at,
{
    if at < fields.len() {
        lemma_missing_in_fields(schema, fields, at + 1);
    }
}

/// Where no name is missing among messages, every field of every message
/// names a declared type; where one is, it is not declared.
pub proof fn lemma_missing_in_messages(schema: SchemaView, at: int)
    requires
        0 <= at,
    ensures
        missing_in_messages(schema, at) is None <==> forall|i: int, j: int|
            at <= i < schema.message_types.len() && 0 <= j < schema.message_types[i].fields.len()
                ==> !names_missing_type(schema, #[trigger] schema.message_types[i].fields[j]),
        missing_in_messages(schema, at) is Some ==> !declared(
            schema,
            missing_in_messages(schema, at)->0,
        ),
    decreases schema.message_types.len() - at,
{
    if at < schema.message_types.len() {
        lemma_missing_in_fields(schema, schema.message_types[at].fields, 0);
        lemma_missing_in_messages(schema, at + 1);
    }
}

/// A schema is valid exactly where its version is known and every type name
/// of a field is the name of a message or an enum of the schema. A name that
/// matches neither fails validation, and the error names a type that is not
/// declared.
pub proof fn lemma_validated(schema: SchemaView)
    ensures
        validated(schema) is Ok <==> schema.version != Version::Unknown && forall|i: int, j: int|
            0 <= i < schema.message_types.len() && 0 <= j < schema.message_types[i].fields.len()
                ==> !names_missing_type(schema, #[trigger] schema.message_types[i].fields[j]),
        schema.version == Version::Unknown ==> validated(schema) == Err::<(), ValidatorErrorView>(
            ValidatorErrorView::InvalidProtoVersion,
        ),
        schema.version != Version::Unknown && validated(schema) is Err ==> validated(schema)
            ->Err_0 is MissingTypeDefinition && !declared(
            schema,
            validated(schema)->Err_0->MissingTypeDefinition_0,
        ),
{
    lemma_missing_in_messages(schema, 0);
}

/// Of a type name that a field of a schema holds for the name of a message:
/// where the schema declares an enum of that name, before or after the
/// message, the field refers to that enum once the schema is resolved; and
/// where it declares neither an enum nor a message of that name, the
/// resolved schema fails validation for a type that is missing.
pub proof fn lemma_type_names(schema: SchemaView, i: int, j: int)
    requires
        0 <= i < schema.message_types.len(),
        0 <= j < schema.message_types[i].fields.len(),
        schema.message_types[i].fields[j].field_type.unresolved_name() is Some,
    ensures
        ({
            let name = schema.message_types[i].fields[j].field_type.unresolved_name()->0;
            let resolved = schema.refined();
            &&& is_enum(schema.enum_types, name) ==> resolved.message_types[i].fields[j].field_type
                == FieldTypeView::EnumType(name)
            &&& !is_enum(schema.enum_types, name) && !is_message(schema.message_types, name)
                && schema.version != Version::Unknown ==> validated(resolved) is Err && validated(
                resolved,
            )->Err_0 is MissingTypeDefinition
        }),
{
    let name = schema.message_types[i].fields[j].field_type.unresolved_name()->0;
    let resolved = schema.refined();
    lemma_refined(schema);
    lemma_validated(resolved);
    if !is_enum(schema.enum_types, name) && !is_message(schema.message_types, name) {
        let field = resolved.message_types[i].fields[j];
        assert(field.field_type == schema.message_types[i].fields[j].field_type);
        if is_message(resolved.message_types, name) {
            let k = choose|k: int|
                0 <= k < resolved.message_types.len() && (
                #[trigger] resolved.message_types[k]).identifier == name;
            assert(schema.message_types[k].identifier == name);
        }
        assert(names_missing_type(resolved, field));
    }
}

/// Checks that the schema declares its version and every type that its
/// fields name.
pub fn validate(parser: &ProtoParser) -> (r: Result<(), ValidatorError>)
    ensures
        match validated(parser@) {
            Ok(_) => r is Ok,
            Err(e) => r is Err && r->Err_0@ == e,
        },
{
    if let Version::Unknown = parser.version {
        return Err(ValidatorError::InvalidProtoVersion);
    }
    let mut i: usize = 0;
    while i < parser.message_types.len()
        invariant
            i <= parser.message_types@.len(),
            parser@.version != Version::Unknown,
            missing_in_messages(parser@, 0) == missing_in_messages(parser@, i as int),
        decreases parser.message_types@.len() - i,
    {
        let message_type = &parser.message_types[i];
        let mut j: usize = 0;
        while j < message_type.fields.len()
            invariant
                j <= message_type.fields@.len(),
                i < parser.message_types@.len(),
                *message_type == parser.message_types@[i as int],
                parser@.version != Version::Unknown,
                missing_in_messages(parser@, 0) == missing_in_messages(parser@, i as int),
                missing_in_fields(parser@, parser@.message_types[i as int].fields, 0)
                    == missing_in_fields(
                    parser@,
                    parser@.message_types[i as int].fields,
                    j as int,
                ),
            decreases message_type.fields@.len() - j,
        {
            let field = &message_type.fields[j];
            assert(parser@.message_types[i as int].fields[j as int] == field@);
            match &field.field_type {
                FieldType::MessageType(identifier, _) => {
                    if !parser.has_message(identifier.as_str()) && !parser.has_enum(
                        identifier.as_str(),
                    ) {
                        return Err(ValidatorError::MissingTypeDefinition(identifier.clone()));
                    }
                },
                FieldType::UnboundedMessageType(identifier) => {
                    if !parser.has_message(identifier.as_str()) && !parser.has_enum(
                        identifier.as_str(),
                    ) {
                        return Err(ValidatorError::MissingTypeDefinition(identifier.clone()));
                    }
                },
                _ => {},
            }
            j += 1;
        }
        i += 1;
    }
    Ok(())
}

} // verus!
