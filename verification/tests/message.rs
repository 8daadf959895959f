use picopb::common::{Field, FieldQualifier, FieldType};
use picopb::encode::{EncodeBuffer, EncodeError, ToWire};
use picopb::protos::optional::MessageWithOptionalField;
use picopb::wiretypes::{WireType, WireTyped};

#[test]
fn message_fields_are_described() {
    let message = MessageWithOptionalField { d: None, e: vec![] };
    let fields = message.fields();
    assert_eq!(fields.d.qualifier, FieldQualifier::Optional);
    assert_eq!(fields.d.field_type, FieldType::UnboundedString);
    assert_eq!(fields.d.identifier, "d");
    assert_eq!(fields.d.ordinal, Field(4));
    assert_eq!(fields.e.qualifier, FieldQualifier::RepeatedUnbounded);
    assert_eq!(fields.e.field_type, FieldType::Int32);
    assert_eq!(fields.e.identifier, "e");
    assert_eq!(fields.e.ordinal, Field(5));
    assert_eq!((&message).wiretype(), WireType::Len);
}

#[test]
fn message_with_text_and_no_numbers() {
    let message = MessageWithOptionalField { d: Some(String::from("hello")), e: Vec::new() };
    let mut storage = [0u8; 512];
    let mut buffer = EncodeBuffer::from_static(&mut storage);
    assert_eq!((&message).precalculate_size(), 7);
    assert_eq!((&message).append(&mut buffer), Ok(7));
    assert_eq!(buffer.as_slice(), &[0x22, 0x05, b'h', b'e', b'l', b'l', b'o']);
}

#[test]
fn message_without_text() {
    let message = MessageWithOptionalField { d: None, e: vec![1, -1, 300] };
    let mut storage = [0u8; 512];
    let mut buffer = EncodeBuffer::from_static(&mut storage);
    assert_eq!((&message).precalculate_size(), 16);
    assert_eq!((&message).append(&mut buffer), Ok(16));
    assert_eq!(
        buffer.as_slice(),
        &[
            0x28, 0x01, 0x28, 0xff, 0xff, 0xff, 0xff, 0xff, 0xff, 0xff, 0xff, 0xff, 0x01, 0x28,
            0xac, 0x02
        ]
    );
}

#[test]
fn message_without_anything_takes_no_bytes() {
    let message = MessageWithOptionalField { d: None, e: vec![] };
    let mut storage = [0u8; 1];
    let mut buffer = EncodeBuffer::from_static(&mut storage);
    assert_eq!((&message).precalculate_size(), 0);
    assert_eq!((&message).append(&mut buffer), Ok(0));
    assert_eq!(buffer.as_slice(), &[] as &[u8]);
}

#[test]
fn message_size_is_the_number_of_bytes_written() {
    let messages = [
        MessageWithOptionalField { d: Some(String::new()), e: vec![0] },
        MessageWithOptionalField { d: Some("x".repeat(300)), e: vec![i32::MIN, i32::MAX] },
        MessageWithOptionalField { d: None, e: (0..100).collect() },
    ];
    for message in messages.iter() {
        let mut storage = [0u8; 1024];
        let mut buffer = EncodeBuffer::from_static(&mut storage);
        let size = message.precalculate_size();
        assert_eq!(message.append(&mut buffer), Ok(size));
        assert_eq!(buffer.as_slice().len(), size);
    }
}

#[test]
fn message_that_does_not_fit_leaves_what_was_written() {
    let message = MessageWithOptionalField { d: Some(String::from("hello")), e: vec![1, 2] };
    assert_eq!((&message).precalculate_size(), 11);
    // exactly the room that the message takes is not enough
    let mut storage = [0u8; 11];
    let mut buffer = EncodeBuffer::from_static(&mut storage);
    assert_eq!((&message).append(&mut buffer), Err(EncodeError::BufferOutOfSpace));
    assert_eq!(
        buffer.as_slice(),
        &[0x22, 0x05, b'h', b'e', b'l', b'l', b'o', 0x28, 0x01, 0x28]
    );
    let mut storage = [0u8; 12];
    let mut buffer = EncodeBuffer::from_static(&mut storage);
    assert_eq!((&message).append(&mut buffer), Ok(11));
    // as a field of another message it is written after its tag
    let mut storage = [0u8; 16];
    let mut buffer = EncodeBuffer::from_static(&mut storage);
    assert_eq!(buffer.encode(&message, Field(1)), Ok(12));
    assert_eq!(buffer.as_slice()[0], 0x0a);
}

#[test]
fn message_with_repeated_texts() {
    let message = picopb::protos::optional2::MessageWithOptionalField {
        a: Some(String::from("hi")),
        b: vec![String::from("x"), String::new(), String::from("yz")],
        e: vec![64, -1],
    };
    let fields = message.fields();
    assert_eq!(fields.a.ordinal, Field(1));
    assert_eq!(fields.a.qualifier, FieldQualifier::Optional);
    assert_eq!(fields.b.ordinal, Field(4));
    assert_eq!(fields.b.qualifier, FieldQualifier::RepeatedUnbounded);
    assert_eq!(fields.b.field_type, FieldType::UnboundedString);
    assert_eq!(fields.b.identifier, "b");
    assert_eq!(fields.e.ordinal, Field(5));
    assert_eq!(fields.e.field_type, FieldType::Int32);
    assert_eq!((&message).wiretype(), WireType::Len);
    assert_eq!(message.borrowed_texts(), vec!["x", "", "yz"]);
    let mut storage = [0u8; 64];
    let mut buffer = EncodeBuffer::from_static(&mut storage);
    assert_eq!((&message).precalculate_size(), 26);
    assert_eq!((&message).append(&mut buffer), Ok(26));
    assert_eq!(
        buffer.as_slice(),
        &[
            0x0a, 0x02, b'h', b'i', 0x22, 0x01, b'x', 0x22, 0x00, 0x22, 0x02, b'y', b'z', 0x28,
            0x40, 0x28, 0xff, 0xff, 0xff, 0xff, 0xff, 0xff, 0xff, 0xff, 0xff, 0x01
        ]
    );
}

#[test]
fn message_with_repeated_texts_and_nothing_in_it() {
    let message =
        picopb::protos::optional2::MessageWithOptionalField { a: None, b: vec![], e: vec![] };
    let mut storage = [0u8; 0];
    let mut buffer = EncodeBuffer::from_static(&mut storage);
    assert_eq!((&message).precalculate_size(), 0);
    assert_eq!((&message).append(&mut buffer), Ok(0));
}

#[test]
fn message_with_repeated_texts_that_does_not_fit() {
    let message = picopb::protos::optional2::MessageWithOptionalField {
        a: None,
        b: vec![String::from("ab"), String::from("cd")],
        e: vec![7],
    };
    assert_eq!((&message).precalculate_size(), 10);
    let mut storage = [0u8; 10];
    let mut buffer = EncodeBuffer::from_static(&mut storage);
    assert_eq!((&message).append(&mut buffer), Err(EncodeError::BufferOutOfSpace));
    assert_eq!(buffer.as_slice(), &[0x22, 0x02, b'a', b'b', 0x22, 0x02, b'c', b'd', 0x28]);
    let mut storage = [0u8; 7];
    let mut buffer = EncodeBuffer::from_static(&mut storage);
    assert_eq!((&message).append(&mut buffer), Err(EncodeError::BufferOutOfSpace));
    assert_eq!(buffer.as_slice(), &[0x22, 0x02, b'a', b'b', 0x22, 0x02]);
    let mut storage = [0u8; 11];
    let mut buffer = EncodeBuffer::from_static(&mut storage);
    assert_eq!((&message).append(&mut buffer), Ok(10));
}
