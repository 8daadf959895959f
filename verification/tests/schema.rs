use picopb::common::{
    EnumType, Field, FieldOption, FieldOptions, FieldQualifier, FieldType, MessageField,
    MessageType, Version,
};

#[test]
fn field_type_of_built_in_names() {
    assert_eq!(FieldType::from_str("string", None), FieldType::UnboundedString);
    assert_eq!(FieldType::from_str("bytes", None), FieldType::UnboundedBytes);
    assert_eq!(FieldType::from_str("string", Some(16)), FieldType::String(16));
    assert_eq!(FieldType::from_str("bytes", Some(128)), FieldType::Bytes(128));
    assert_eq!(FieldType::from_str("bool", None), FieldType::Bool);
    assert_eq!(FieldType::from_str("int32", None), FieldType::Int32);
    assert_eq!(FieldType::from_str("int64", None), FieldType::Int64);
    assert_eq!(FieldType::from_str("uint32", None), FieldType::Uint32);
    assert_eq!(FieldType::from_str("uint64", None), FieldType::Uint64);
}

#[test]
fn field_type_of_a_number_ignores_the_bound() {
    assert_eq!(FieldType::from_str("bool", Some(4)), FieldType::Bool);
    assert_eq!(FieldType::from_str("int32", Some(4)), FieldType::Int32);
    assert_eq!(FieldType::from_str("int64", Some(4)), FieldType::Int64);
    assert_eq!(FieldType::from_str("uint32", Some(4)), FieldType::Uint32);
    assert_eq!(FieldType::from_str("uint64", Some(4)), FieldType::Uint64);
}

#[test]
fn field_type_of_another_name_is_taken_for_a_message() {
    assert_eq!(
        FieldType::from_str("Response", None),
        FieldType::UnboundedMessageType(String::from("Response"))
    );
    assert_eq!(
        FieldType::from_str("Response", Some(64)),
        FieldType::MessageType(String::from("Response"), 64)
    );
    assert_eq!(
        FieldType::from_str("String", None),
        FieldType::UnboundedMessageType(String::from("String"))
    );
    assert_eq!(FieldType::from_str("", None), FieldType::UnboundedMessageType(String::new()));
}

#[test]
fn field_type_repr() {
    assert_eq!(
        FieldType::UnboundedString.repr(),
        "picopb::common::FieldType::UnboundedString"
    );
    assert_eq!(FieldType::UnboundedBytes.repr(), "picopb::common::FieldType::UnboundedBytes");
    assert_eq!(FieldType::String(8).repr(), "picopb::common::FieldType::String(8)");
    assert_eq!(FieldType::Bytes(128).repr(), "picopb::common::FieldType::Bytes(128)");
    assert_eq!(FieldType::Bool.repr(), "picopb::common::FieldType::Bool");
    assert_eq!(FieldType::Int32.repr(), "picopb::common::FieldType::Int32");
    assert_eq!(FieldType::Int64.repr(), "picopb::common::FieldType::Int64");
    assert_eq!(FieldType::Uint32.repr(), "picopb::common::FieldType::Uint32");
    assert_eq!(FieldType::Uint64.repr(), "picopb::common::FieldType::Uint64");
    assert_eq!(
        FieldType::EnumType(String::from("Error")).repr(),
        "picopb::common::FieldType::EnumType(\"Error\")"
    );
    assert_eq!(
        FieldType::MessageType(String::from("Response"), 64).repr(),
        "picopb::common::FieldType::MessageType(\"Response\", 64)"
    );
    assert_eq!(
        FieldType::UnboundedMessageType(String::from("Response")).repr(),
        "picopb::common::FieldType::UnboundedMessageType(\"Response\")"
    );
    assert_eq!(FieldType::Bytes(0).repr(), "picopb::common::FieldType::Bytes(0)");
    assert_eq!(
        FieldType::Bytes(usize::MAX).repr(),
        format!("picopb::common::FieldType::Bytes({})", usize::MAX)
    );
}

#[test]
fn field_type_duplicate_is_equal() {
    let all = [
        FieldType::UnboundedString,
        FieldType::Bytes(3),
        FieldType::EnumType(String::from("E")),
        FieldType::MessageType(String::from("M"), 2),
        FieldType::UnboundedMessageType(String::from("M")),
    ];
    for field_type in all.iter() {
        assert_eq!(&field_type.duplicate(), field_type);
    }
}

#[test]
fn qualifier_repr() {
    assert_eq!(FieldQualifier::Optional.repr(), "picopb::common::FieldQualifier::Optional");
    assert_eq!(FieldQualifier::Required.repr(), "picopb::common::FieldQualifier::Required");
    assert_eq!(
        FieldQualifier::RepeatedUnbounded.repr(),
        "picopb::common::FieldQualifier::RepeatedUnbounded"
    );
    assert_eq!(
        FieldQualifier::Repeated(64).repr(),
        "picopb::common::FieldQualifier::Repeated(64)"
    );
    assert_eq!(
        FieldQualifier::PackedRepeated(7).repr(),
        "picopb::common::FieldQualifier::PackedRepeated(7)"
    );
    assert_eq!(
        FieldQualifier::PackedRepeatedUnbounded.repr(),
        "picopb::common::FieldQualifier::PackedRepeatedUnbounded"
    );
}

fn options(max_size: Option<usize>, max_len: Option<usize>, packed: bool) -> FieldOptions {
    FieldOptions { max_size, max_len, packed }
}

#[test]
fn default_options_are_none() {
    assert_eq!(FieldOptions::default(), options(None, None, false));
}

#[test]
fn effective_bound_of_options() {
    assert_eq!(options(None, None, false).effective_bound(), None);
    assert_eq!(options(Some(64), None, false).effective_bound(), Some(64));
    // one more than the length, for what ends the text
    assert_eq!(options(None, Some(10), false).effective_bound(), Some(11));
    assert_eq!(options(None, Some(0), true).effective_bound(), Some(1));
    // the larger of the two
    assert_eq!(options(Some(64), Some(10), false).effective_bound(), Some(64));
    assert_eq!(options(Some(8), Some(10), false).effective_bound(), Some(11));
    assert_eq!(options(Some(11), Some(10), false).effective_bound(), Some(11));
    assert_eq!(options(Some(10), Some(10), false).effective_bound(), Some(11));
    assert_eq!(
        options(None, Some(usize::MAX - 1), false).effective_bound(),
        Some(usize::MAX)
    );
}

#[test]
fn a_later_option_replaces_an_earlier_one() {
    let mut gathered = FieldOptions::default();
    gathered.apply(&FieldOption::MaxSize(8));
    gathered.apply(&FieldOption::Packed(true));
    gathered.apply(&FieldOption::MaxLen(3));
    gathered.apply(&FieldOption::MaxSize(32));
    assert_eq!(gathered, options(Some(32), Some(3), true));
    gathered.apply(&FieldOption::Packed(false));
    assert_eq!(gathered, options(Some(32), Some(3), false));
}

#[test]
fn qualifier_of_keyword_and_options() {
    let none = options(None, None, false);
    let bounded = options(Some(64), None, false);
    let packed = options(None, None, true);
    let packed_bounded = options(None, Some(9), true);
    assert_eq!(FieldQualifier::from_str("optional", &none), FieldQualifier::Optional);
    assert_eq!(FieldQualifier::from_str("optional", &packed_bounded), FieldQualifier::Optional);
    assert_eq!(FieldQualifier::from_str("required", &none), FieldQualifier::Required);
    assert_eq!(FieldQualifier::from_str("required", &bounded), FieldQualifier::Required);
    assert_eq!(FieldQualifier::from_str("repeated", &none), FieldQualifier::RepeatedUnbounded);
    assert_eq!(FieldQualifier::from_str("repeated", &bounded), FieldQualifier::Repeated(64));
    assert_eq!(
        FieldQualifier::from_str("repeated", &packed),
        FieldQualifier::PackedRepeatedUnbounded
    );
    assert_eq!(
        FieldQualifier::from_str("repeated", &packed_bounded),
        FieldQualifier::PackedRepeated(10)
    );
}

fn field(number: u32, name: &str) -> MessageField {
    MessageField {
        qualifier: FieldQualifier::Required,
        field_type: FieldType::Int32,
        identifier: String::from(name),
        ordinal: Field(number),
    }
}

#[test]
fn message_fields_are_kept_in_order_of_their_numbers() {
    let mut message = MessageType::new(String::from("M"));
    assert_eq!(message.identifier, "M");
    assert!(message.fields.is_empty());
    message.insert(field(5, "e"));
    message.insert(field(1, "a"));
    message.insert(field(3, "c"));
    message.insert(field(u32::MAX, "z"));
    message.insert(field(0, "o"));
    let numbers: Vec<u32> = message.fields.iter().map(|f| f.ordinal.0).collect();
    assert_eq!(numbers, vec![0, 1, 3, 5, u32::MAX]);
    let names: Vec<&str> = message.fields.iter().map(|f| f.identifier.as_str()).collect();
    assert_eq!(names, vec!["o", "a", "c", "e", "z"]);
}

#[test]
fn a_field_replaces_the_field_of_its_number() {
    let mut message = MessageType::new(String::from("M"));
    message.insert(field(1, "a"));
    message.insert(field(2, "b"));
    message.insert(field(3, "c"));
    message.insert(field(2, "other"));
    assert_eq!(message.fields, vec![field(1, "a"), field(2, "other"), field(3, "c")]);
    assert_eq!(message.duplicate(), message);
}

#[test]
fn enum_variants_are_kept_in_order_of_their_names() {
    let mut enum_type = EnumType::new(String::from("E"));
    enum_type.insert(String::from("b"), 1);
    enum_type.insert(String::from("a"), 2);
    enum_type.insert(String::from("ab"), 3);
    enum_type.insert(String::from("B"), 4);
    enum_type.insert(String::from(""), 5);
    enum_type.insert(String::from("é"), 6);
    enum_type.insert(String::from("a"), 7);
    let expected: Vec<(String, u32)> = [("", 5), ("B", 4), ("a", 7), ("ab", 3), ("b", 1), ("é", 6)]
        .iter()
        .map(|(name, ordinal)| (String::from(*name), *ordinal))
        .collect();
    assert_eq!(enum_type.pairs, expected);
    let mut sorted = expected.clone();
    sorted.sort();
    assert_eq!(sorted, expected);
    assert_eq!(enum_type.duplicate(), enum_type);
}

#[test]
fn versions_differ() {
    assert_ne!(Version::Proto2, Version::Unknown);
}

#[test]
fn enum_with_a_number_used_twice_is_not_invertible() {
    let mut enum_type = EnumType::new(String::from("E"));
    assert!(enum_type.has_unique_ordinals());
    enum_type.insert(String::from("A"), 1);
    enum_type.insert(String::from("B"), 2);
    enum_type.insert(String::from("C"), 3);
    assert!(enum_type.has_unique_ordinals());
    enum_type.insert(String::from("D"), 2);
    assert!(!enum_type.has_unique_ordinals());
    enum_type.insert(String::from("D"), 4);
    assert!(enum_type.has_unique_ordinals());
    enum_type.insert(String::from("A"), 4);
    assert!(!enum_type.has_unique_ordinals());
}
