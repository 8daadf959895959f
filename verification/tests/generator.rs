use picopb::common::{EnumType, Field, FieldQualifier, FieldType, MessageField, MessageType};
use picopb::generator::{
    as_encodable_type, check_converted, enum_id_to_pascal, field_to_rust_type, generate,
    generate_enum_from_trait, generate_enums, generate_imports, generate_message_impl_randomize,
    generate_message_metadata, generate_message_to_wire, generate_message_wiretyped,
    generate_messages, identifier_to_const_case, GeneratorError,
};
use picopb::parser::parse;

fn text_of(result: Result<String, GeneratorError>) -> String {
    match result {
        Ok(text) => text,
        Err(error) => panic!("no text: {:?}", error),
    }
}

fn is_failed_conversion(result: Result<String, GeneratorError>) -> bool {
    matches!(result, Err(GeneratorError::FailedToMakeUppercase))
}

#[test]
fn bounded_bytes_field_is_held_in_an_array_of_the_bound() {
    assert_eq!(
        field_to_rust_type(&FieldQualifier::Required, &FieldType::Bytes(128)),
        "[u8; 128]"
    );
    let schema = parse(
        "syntax = \"proto2\";
         message Query { required bytes key = 1; [(nanopb).max_size=128] }",
    )
    .unwrap();
    let field = &schema.message_types[0].fields[0];
    assert_eq!(field.field_type, FieldType::Bytes(128));
    assert_eq!(field_to_rust_type(&field.qualifier, &field.field_type), "[u8; 128]");
    let text = text_of(generate(&schema));
    assert!(text.contains("pub struct Query {\n    pub key: [u8; 128],\n}\n"));
    assert!(!text.contains("bytes::Bytes"));
}

#[test]
fn rust_type_of_a_required_field() {
    let required = FieldQualifier::Required;
    assert_eq!(field_to_rust_type(&required, &FieldType::Bool), "bool");
    assert_eq!(field_to_rust_type(&required, &FieldType::UnboundedString), "String");
    assert_eq!(field_to_rust_type(&required, &FieldType::String(16)), "ArrayString<16>");
    assert_eq!(field_to_rust_type(&required, &FieldType::Bytes(8)), "[u8; 8]");
    assert_eq!(field_to_rust_type(&required, &FieldType::UnboundedBytes), "bytes::Bytes");
    assert_eq!(field_to_rust_type(&required, &FieldType::Int32), "i32");
    assert_eq!(field_to_rust_type(&required, &FieldType::Int64), "i64");
    assert_eq!(field_to_rust_type(&required, &FieldType::Uint64), "u64");
    assert_eq!(field_to_rust_type(&required, &FieldType::Uint32), "u32");
    assert_eq!(
        field_to_rust_type(&required, &FieldType::MessageType(String::from("Inner"), 4)),
        "Inner"
    );
    assert_eq!(
        field_to_rust_type(&required, &FieldType::UnboundedMessageType(String::from("Inner"))),
        "Inner"
    );
    assert_eq!(
        field_to_rust_type(&required, &FieldType::EnumType(String::from("Error"))),
        "Error"
    );
}

#[test]
fn rust_type_by_qualifier() {
    let int32 = FieldType::Int32;
    let string = FieldType::String(4);
    assert_eq!(field_to_rust_type(&FieldQualifier::Optional, &int32), "Option<i32>");
    assert_eq!(
        field_to_rust_type(&FieldQualifier::Optional, &string),
        "Option<ArrayString<4>>"
    );
    assert_eq!(field_to_rust_type(&FieldQualifier::RepeatedUnbounded, &int32), "Vec<i32>");
    assert_eq!(field_to_rust_type(&FieldQualifier::Repeated(64), &int32), "[i32; 64]");
    assert_eq!(
        field_to_rust_type(&FieldQualifier::Repeated(2), &string),
        "[ArrayString<4>; 2]"
    );
    assert_eq!(
        field_to_rust_type(&FieldQualifier::PackedRepeatedUnbounded, &int32),
        "picopb::common::Packed<Vec<i32>>"
    );
    assert_eq!(
        field_to_rust_type(&FieldQualifier::PackedRepeated(3), &FieldType::Bool),
        "picopb::common::Packed<[bool; 3]>"
    );
}

#[test]
fn names_are_converted_by_convert_case() {
    assert_eq!(text_of(enum_id_to_pascal("ERROR_INVALID_KEY")), "ErrorInvalidKey");
    assert_eq!(text_of(enum_id_to_pascal("error_not_found")), "ErrorNotFound");
    assert_eq!(text_of(enum_id_to_pascal("already")), "Already");
    assert_eq!(text_of(identifier_to_const_case("RepeatedResponse")), "REPEATED_RESPONSE");
    assert_eq!(text_of(identifier_to_const_case("Query")), "QUERY");
    assert_eq!(text_of(identifier_to_const_case("message_with_optional_field")), "MESSAGE_WITH_OPTIONAL_FIELD");
}

#[test]
fn conversion_that_leaves_nothing_fails() {
    assert!(is_failed_conversion(check_converted(String::new())));
    assert_eq!(text_of(check_converted(String::from("A"))), "A");
    assert!(is_failed_conversion(enum_id_to_pascal("")));
    assert!(is_failed_conversion(identifier_to_const_case("")));
    assert!(is_failed_conversion(enum_id_to_pascal("_")));
    assert!(is_failed_conversion(identifier_to_const_case("__")));
}

fn field(qualifier: FieldQualifier, field_type: FieldType, name: &str, number: u32) -> MessageField {
    MessageField { qualifier, field_type, identifier: String::from(name), ordinal: Field(number) }
}

#[test]
fn encodable_expression_of_a_field() {
    let required = FieldQualifier::Required;
    let check = |qualifier: FieldQualifier, field_type: FieldType, prefix: &str, expected: &str| {
        assert_eq!(as_encodable_type(&field(qualifier, field_type, "x", 1), prefix), expected);
    };
    check(required, FieldType::Int32, "self.", "self.x");
    check(required, FieldType::Bool, "self.", "self.x");
    check(required, FieldType::Uint64, "", "x");
    check(FieldQualifier::Optional, FieldType::Int64, "value_", "value_x");
    check(required, FieldType::UnboundedString, "self.", "self.x.as_str()");
    check(required, FieldType::UnboundedBytes, "self.", "self.x.deref()");
    check(required, FieldType::String(4), "self.", "self.x.as_str()");
    check(required, FieldType::Bytes(4), "self.", "self.x.as_slice()");
    check(
        required,
        FieldType::EnumType(String::from("E")),
        "self.",
        "(Into::<usize>::into(self.x.clone()) as u64)",
    );
    check(required, FieldType::MessageType(String::from("M"), 2), "self.", "(&self.x)");
    check(required, FieldType::UnboundedMessageType(String::from("M")), "value_", "(&value_x)");
    check(FieldQualifier::Repeated(4), FieldType::UnboundedString, "self.", "self.x.as_slice()");
    check(FieldQualifier::RepeatedUnbounded, FieldType::Int32, "self.", "self.x.as_slice()");
    check(
        FieldQualifier::PackedRepeated(4),
        FieldType::Int32,
        "self.",
        "picopb::common::Packed(self.x.0.as_slice())",
    );
    check(
        FieldQualifier::PackedRepeatedUnbounded,
        FieldType::Int32,
        "self.",
        "picopb::common::Packed(self.x.0.as_slice())",
    );
}

const IMPORTS: &str = "use picopb::common::*;
use picopb::encode::ToWire;
use picopb::wiretypes::{WireType, WireTyped};
use picopb::randomizer::{randomized, Randomize};
use std::ops::Deref;
";

const ERROR_CONVERSIONS: &str = "impl TryFrom<usize> for Error {
    type Error = String;
    fn try_from(value: usize) -> Result<Self, Self::Error> {
        match value {
            1 => Ok(Error::ErrorInvalidKey),
            2 => Ok(Error::ErrorNotFound),
            _ => Err(format!(\"invalid ordinal value: {} for enum Error\", value)),
        }
    }
}
impl Into<usize> for Error {
    fn into(self) -> usize {
        match self {
            Error::ErrorInvalidKey => 1,
            Error::ErrorNotFound => 2,
        }
    }
}
";

const ERROR_ENUM: &str = "#[derive(Default, Debug, Clone)]
pub enum Error {
    #[default]
    ErrorInvalidKey,
    ErrorNotFound,
}
";

const QUERY_STRUCT: &str = "#[derive(Default, Debug)]
pub struct Query {
    pub key: [u8; 128],
    pub error: Option<Error>,
    pub ids: Vec<i32>,
    pub packed: picopb::common::Packed<[u32; 4]>,
}
";

const QUERY_METADATA: &str = "#[derive(Debug)]
pub struct QueryFieldsType {
    pub key: picopb::common::ConstMessageField,
    pub error: picopb::common::ConstMessageField,
    pub ids: picopb::common::ConstMessageField,
    pub packed: picopb::common::ConstMessageField,
}
const QUERY_FIELDS: QueryFieldsType = QueryFieldsType {
    key: picopb::common::ConstMessageField {
        qualifier: picopb::common::FieldQualifier::Required,
        field_type: picopb::common::FieldType::Bytes(128),
        identifier: \"key\",
        ordinal: picopb::common::Field(1),
    },
    error: picopb::common::ConstMessageField {
        qualifier: picopb::common::FieldQualifier::Optional,
        field_type: picopb::common::FieldType::EnumType(\"Error\"),
        identifier: \"error\",
        ordinal: picopb::common::Field(2),
    },
    ids: picopb::common::ConstMessageField {
        qualifier: picopb::common::FieldQualifier::RepeatedUnbounded,
        field_type: picopb::common::FieldType::Int32,
        identifier: \"ids\",
        ordinal: picopb::common::Field(3),
    },
    packed: picopb::common::ConstMessageField {
        qualifier: picopb::common::FieldQualifier::PackedRepeated(4),
        field_type: picopb::common::FieldType::Uint32,
        identifier: \"packed\",
        ordinal: picopb::common::Field(4),
    },
};
impl Query {
    fn fields(&self) -> QueryFieldsType {
        QUERY_FIELDS
    }
}
";

const QUERY_WIRETYPED: &str = "impl picopb::wiretypes::WireTyped for &Query {
    fn wiretype(&self) -> WireType {
        WireType::Len
    }
}
";

const QUERY_TO_WIRE: &str = "impl picopb::encode::ToWire for &Query {
    fn append(self, buf: &mut picopb::encode::EncodeBuffer) -> Result<usize, picopb::encode::EncodeError> {
        let mut total_size = 0;
        total_size += buf.encode(self.key.as_slice(), self.fields().key.ordinal)?;
        if let Some(value_error) = &self.error {
            total_size += buf.encode((Into::<usize>::into(value_error.clone()) as u64), self.fields().error.ordinal)?;
        }
        total_size += buf.encode_repeated(self.ids.as_slice(), self.fields().ids.ordinal)?;
        total_size += buf.encode(picopb::common::Packed(self.packed.0.as_slice()), self.fields().packed.ordinal)?;
        Ok(total_size)
    }
    fn precalculate_size(self) -> usize {
        let mut total_size = 0;
        total_size += picopb::encode::precalculate_field_size(self.key.as_slice(), self.fields().key.ordinal);
        if let Some(value_error) = &self.error {
            total_size += picopb::encode::precalculate_field_size((Into::<usize>::into(value_error.clone()) as u64), self.fields().error.ordinal);
        }
        total_size += picopb::encode::precalculate_repeated_size(self.ids.as_slice(), self.fields().ids.ordinal);
        total_size += picopb::encode::precalculate_field_size(picopb::common::Packed(self.packed.0.as_slice()), self.fields().packed.ordinal);
        total_size
    }
}
";

const QUERY_RANDOMIZE: &str = "impl Randomize<Query> for Query {
    fn randomized() -> Query {
        Self {
            key: randomized::<[u8; 128]>(),
            error: randomized::<Option<Error>>(),
            ids: randomized::<Vec<i32>>(),
            packed: randomized::<picopb::common::Packed<[u32; 4]>>(),
        }
    }
}
";

const SCHEMA: &str = "syntax = \"proto2\";
message Query {
    optional Error error = 2;
    repeated uint32 packed = 4; [packed=true, (nanopb).max_size=4]
    required bytes key = 1; [(nanopb).max_size=128]
    repeated int32 ids = 3;
}
enum Error {
    ERROR_NOT_FOUND = 2;
    ERROR_INVALID_KEY = 1;
}
";

#[test]
fn generated_imports() {
    assert_eq!(generate_imports(), IMPORTS);
}

#[test]
fn generated_enum() {
    let schema = parse(SCHEMA).unwrap();
    assert_eq!(text_of(generate_enum_from_trait(&schema.enum_types[0])), ERROR_CONVERSIONS);
    assert_eq!(
        text_of(generate_enums(&schema.enum_types)),
        format!("{}{}", ERROR_ENUM, ERROR_CONVERSIONS)
    );
    assert_eq!(text_of(generate_enums(&vec![])), "");
}

#[test]
fn generated_enum_without_variants() {
    let empty = EnumType::new(String::from("Nothing"));
    assert_eq!(
        text_of(generate_enums(&vec![empty])),
        "#[derive(Default, Debug, Clone)]
pub enum Nothing {
}
impl TryFrom<usize> for Nothing {
    type Error = String;
    fn try_from(value: usize) -> Result<Self, Self::Error> {
        match value {
            _ => Err(format!(\"invalid ordinal value: {} for enum Nothing\", value)),
        }
    }
}
impl Into<usize> for Nothing {
    fn into(self) -> usize {
        match self {
        }
    }
}
"
    );
}

#[test]
fn generated_message_parts() {
    let schema = parse(SCHEMA).unwrap();
    let message = &schema.message_types[0];
    assert_eq!(text_of(generate_message_metadata(message)), QUERY_METADATA);
    assert_eq!(generate_message_wiretyped(message), QUERY_WIRETYPED);
    assert_eq!(generate_message_to_wire(message), QUERY_TO_WIRE);
    assert_eq!(generate_message_impl_randomize(message), QUERY_RANDOMIZE);
    assert_eq!(
        text_of(generate_messages(&schema.message_types)),
        format!(
            "{}{}{}{}{}",
            QUERY_STRUCT, QUERY_METADATA, QUERY_WIRETYPED, QUERY_TO_WIRE, QUERY_RANDOMIZE
        )
    );
    assert_eq!(text_of(generate_messages(&vec![])), "");
}

#[test]
fn generated_text_of_a_schema() {
    let schema = parse(SCHEMA).unwrap();
    assert_eq!(
        text_of(generate(&schema)),
        format!(
            "{}{}{}{}{}{}{}{}",
            IMPORTS,
            ERROR_ENUM,
            ERROR_CONVERSIONS,
            QUERY_STRUCT,
            QUERY_METADATA,
            QUERY_WIRETYPED,
            QUERY_TO_WIRE,
            QUERY_RANDOMIZE
        )
    );
    // the same schema gives the same text
    assert_eq!(text_of(generate(&schema)), text_of(generate(&parse(SCHEMA).unwrap())));
}

#[test]
fn generated_text_of_a_schema_without_types() {
    let schema = parse("syntax = \"proto2\"; import \"other.proto\";").unwrap();
    assert_eq!(text_of(generate(&schema)), IMPORTS);
}

#[test]
fn generated_message_without_fields() {
    let message = MessageType::new(String::from("Empty"));
    assert_eq!(
        text_of(generate_messages(&vec![message])),
        "#[derive(Default, Debug)]
pub struct Empty {
}
#[derive(Debug)]
pub struct EmptyFieldsType {
}
const EMPTY_FIELDS: EmptyFieldsType = EmptyFieldsType {
};
impl Empty {
    fn fields(&self) -> EmptyFieldsType {
        EMPTY_FIELDS
    }
}
impl picopb::wiretypes::WireTyped for &Empty {
    fn wiretype(&self) -> WireType {
        WireType::Len
    }
}
impl picopb::encode::ToWire for &Empty {
    fn append(self, buf: &mut picopb::encode::EncodeBuffer) -> Result<usize, picopb::encode::EncodeError> {
        let mut total_size = 0;
        Ok(total_size)
    }
    fn precalculate_size(self) -> usize {
        let mut total_size = 0;
        total_size
    }
}
impl Randomize<Empty> for Empty {
    fn randomized() -> Empty {
        Self {
        }
    }
}
"
    );
}

#[test]
fn schema_that_is_not_valid_is_not_generated() {
    let schema = parse("message A { }").unwrap();
    assert!(matches!(generate(&schema), Err(GeneratorError::InvalidProtoVersion)));
    let schema = parse("syntax = \"proto2\"; message A { optional Missing m = 1; }").unwrap();
    match generate(&schema) {
        Err(GeneratorError::MissingTypeDefinition(name)) => assert_eq!(name, "Missing"),
        other => panic!("unexpected: {:?}", other),
    }
}

#[test]
fn name_that_cannot_be_converted_is_not_generated() {
    let schema = parse("syntax = \"proto2\"; enum E { _ = 1; }").unwrap();
    assert!(is_failed_conversion(generate(&schema)));
    let schema = parse("syntax = \"proto2\"; message _ { }").unwrap();
    assert!(is_failed_conversion(generate(&schema)));
    assert!(is_failed_conversion(generate_messages(&schema.message_types)));
}

#[test]
fn error_of_the_sink_is_a_generator_error() {
    let error = std::io::Error::new(std::io::ErrorKind::Other, "full");
    assert!(matches!(GeneratorError::from(error), GeneratorError::IoRrror(_)));
}
