use picopb::common::{Field, Packed};
use picopb::encode::{
    precalculate_field_size, precalculate_optional_size, precalculate_repeated_size, write_prefix,
    EncodeBuffer, EncodeError, ToWire,
};

#[test]
fn buffer_starts_empty() {
    let mut storage = [0u8; 8];
    let buffer = EncodeBuffer::from_static(&mut storage);
    assert_eq!(buffer.as_slice(), &[] as &[u8]);
}

#[test]
fn write_appends_the_bytes() {
    let mut storage = [0u8; 8];
    let mut buffer = EncodeBuffer::from_static(&mut storage);
    assert_eq!(buffer.write(&[1, 2, 3]), Ok(3));
    assert_eq!(buffer.write(&[4]), Ok(1));
    assert_eq!(buffer.write(&[]), Ok(0));
    assert_eq!(buffer.as_slice(), &[1, 2, 3, 4]);
    assert_eq!(buffer.flush(), Ok(()));
    assert_eq!(buffer.as_slice(), &[1, 2, 3, 4]);
}

#[test]
fn write_that_would_fill_the_buffer_exactly_is_refused() {
    let mut storage = [0u8; 4];
    let mut buffer = EncodeBuffer::from_static(&mut storage);
    assert_eq!(buffer.write(&[1, 2, 3, 4]), Err(EncodeError::BufferOutOfSpace));
    assert_eq!(buffer.as_slice(), &[] as &[u8]);
    assert_eq!(buffer.write(&[1, 2, 3]), Ok(3));
    assert_eq!(buffer.write(&[4]), Err(EncodeError::BufferOutOfSpace));
    assert_eq!(buffer.as_slice(), &[1, 2, 3]);
}

#[test]
fn nothing_can_be_written_to_storage_of_no_bytes() {
    let mut storage = [0u8; 0];
    let mut buffer = EncodeBuffer::from_static(&mut storage);
    assert_eq!(buffer.write(&[]), Err(EncodeError::BufferOutOfSpace));
    assert_eq!(buffer.write(&[1]), Err(EncodeError::BufferOutOfSpace));
}

#[test]
fn encode_into_exactly_the_room_that_is_left_fails() {
    // the tag and the two bytes of the number take three bytes
    let mut storage = [0u8; 3];
    let mut buffer = EncodeBuffer::from_static(&mut storage);
    assert_eq!(precalculate_field_size(1234i32, Field(2)), 3);
    assert_eq!(buffer.encode(1234i32, Field(2)), Err(EncodeError::BufferOutOfSpace));

    let mut storage = [0u8; 4];
    let mut buffer = EncodeBuffer::from_static(&mut storage);
    assert_eq!(buffer.encode(1234i32, Field(2)), Ok(3));
    assert_eq!(buffer.as_slice(), &[0x10, 0xd2, 0x09]);
}

#[test]
fn what_was_written_before_a_failure_stays() {
    let mut storage = [0u8; 3];
    let mut buffer = EncodeBuffer::from_static(&mut storage);
    // the tag and the first byte of the number are taken, the second is not
    assert_eq!(buffer.encode(1234i32, Field(2)), Err(EncodeError::BufferOutOfSpace));
    assert_eq!(buffer.as_slice(), &[0x10, 0xd2]);

    let mut storage = [0u8; 6];
    let mut buffer = EncodeBuffer::from_static(&mut storage);
    assert_eq!(buffer.encode(7u32, Field(1)), Ok(2));
    // the tag and the length are taken, the text is not
    assert_eq!(buffer.encode("abcd", Field(2)), Err(EncodeError::BufferOutOfSpace));
    assert_eq!(buffer.as_slice(), &[0x08, 0x07, 0x12, 0x04]);
}

#[test]
fn encode_returns_the_bytes_of_tag_and_value() {
    let mut storage = [0u8; 32];
    let mut buffer = EncodeBuffer::from_static(&mut storage);
    assert_eq!(buffer.encode_tag(5i32, Field(1)), Ok(1));
    assert_eq!(buffer.encode_value(300i32), Ok(2));
    assert_eq!(buffer.encode("hello", Field(2)), Ok(7));
    assert_eq!(
        buffer.as_slice(),
        &[0x08, 0xac, 0x02, 0x12, 0x05, b'h', b'e', b'l', b'l', b'o']
    );
}

#[test]
fn empty_string_and_bytes_are_written_with_length_zero() {
    let mut storage = [0u8; 16];
    let mut buffer = EncodeBuffer::from_static(&mut storage);
    let empty = String::new();
    assert_eq!(buffer.encode(&empty, Field(1)), Ok(2));
    let nothing: &[u8] = &[];
    assert_eq!(buffer.encode(nothing, Field(2)), Ok(2));
    assert_eq!(buffer.as_slice(), &[0x0a, 0x00, 0x12, 0x00]);
}

#[test]
fn scalars_are_written_as_varints() {
    let mut storage = [0u8; 64];
    let mut buffer = EncodeBuffer::from_static(&mut storage);
    assert_eq!(buffer.encode(true, Field(1)), Ok(2));
    assert_eq!(buffer.encode(false, Field(2)), Ok(2));
    assert_eq!(buffer.encode(150u32, Field(3)), Ok(3));
    assert_eq!(buffer.encode(u64::MAX, Field(4)), Ok(11));
    assert_eq!(buffer.encode(-1i64, Field(5)), Ok(11));
    assert_eq!(buffer.encode(-2i32, Field(6)), Ok(11));
    assert_eq!(buffer.encode(64i32, Field(7)), Ok(2));
    assert_eq!(
        buffer.as_slice(),
        &[
            0x08, 0x01, 0x10, 0x00, 0x18, 0x96, 0x01, 0x20, 0xff, 0xff, 0xff, 0xff, 0xff, 0xff,
            0xff, 0xff, 0xff, 0x01, 0x28, 0xff, 0xff, 0xff, 0xff, 0xff, 0xff, 0xff, 0xff, 0xff,
            0x01, 0x30, 0xfe, 0xff, 0xff, 0xff, 0xff, 0xff, 0xff, 0xff, 0xff, 0x01, 0x38, 0x40
        ]
    );
}

#[test]
fn bytes_are_written_after_their_length() {
    let mut storage = [0u8; 16];
    let mut buffer = EncodeBuffer::from_static(&mut storage);
    let bytes: &[u8] = &[0xde, 0xad, 0xbe, 0xef];
    assert_eq!(buffer.encode(bytes, Field(1)), Ok(6));
    assert_eq!(buffer.as_slice(), &[0x0a, 0x04, 0xde, 0xad, 0xbe, 0xef]);
}

#[test]
fn string_length_counts_bytes_not_characters() {
    let mut storage = [0u8; 16];
    let mut buffer = EncodeBuffer::from_static(&mut storage);
    assert_eq!(buffer.encode("hé", Field(1)), Ok(5));
    assert_eq!(buffer.as_slice(), &[0x0a, 0x03, b'h', 0xc3, 0xa9]);
}

#[test]
fn write_prefix_writes_the_length() {
    let mut storage = [0u8; 16];
    let mut buffer = EncodeBuffer::from_static(&mut storage);
    assert_eq!(write_prefix(&mut buffer, 0), Ok(1));
    assert_eq!(write_prefix(&mut buffer, 300), Ok(2));
    assert_eq!(buffer.as_slice(), &[0x00, 0xac, 0x02]);
}

#[test]
fn absent_optional_field_takes_no_bytes() {
    let mut storage = [0u8; 16];
    let mut buffer = EncodeBuffer::from_static(&mut storage);
    assert_eq!(buffer.encode_optional(None::<i32>, Field(1)), Ok(0));
    assert_eq!(buffer.encode_optional(None::<&str>, Field(2)), Ok(0));
    assert_eq!(buffer.as_slice(), &[] as &[u8]);
    assert_eq!(precalculate_optional_size(None::<i32>, Field(1)), 0);
    assert_eq!(precalculate_optional_size(None::<&str>, Field(2)), 0);

    // not even where nothing at all could be written
    let mut storage = [0u8; 0];
    let mut buffer = EncodeBuffer::from_static(&mut storage);
    assert_eq!(buffer.encode_optional(None::<u64>, Field(1)), Ok(0));
}

#[test]
fn present_optional_field_is_written_like_a_required_one() {
    let mut storage = [0u8; 16];
    let mut buffer = EncodeBuffer::from_static(&mut storage);
    assert_eq!(buffer.encode_optional(Some("testing"), Field(2)), Ok(9));
    assert_eq!(
        buffer.as_slice(),
        &[0x12, 0x07, 0x74, 0x65, 0x73, 0x74, 0x69, 0x6e, 0x67]
    );
    assert_eq!(precalculate_optional_size(Some("testing"), Field(2)), 9);
}

#[test]
fn repeated_field_writes_a_tag_for_every_element() {
    let mut storage = [0u8; 16];
    let mut buffer = EncodeBuffer::from_static(&mut storage);
    let friends: [i32; 3] = [1, 2, 3];
    assert_eq!(buffer.encode_repeated(friends.as_slice(), Field(4)), Ok(6));
    assert_eq!(buffer.as_slice(), &[0x20, 0x01, 0x20, 0x02, 0x20, 0x03]);
    assert_eq!(precalculate_repeated_size(friends.as_slice(), Field(4)), 6);
}

#[test]
fn repeated_field_without_elements_takes_no_bytes() {
    let mut storage = [0u8; 1];
    let mut buffer = EncodeBuffer::from_static(&mut storage);
    let none: [i32; 0] = [];
    assert_eq!(buffer.encode_repeated(none.as_slice(), Field(4)), Ok(0));
    assert_eq!(buffer.as_slice(), &[] as &[u8]);
    assert_eq!(precalculate_repeated_size(none.as_slice(), Field(4)), 0);
}

#[test]
fn repeated_field_stops_at_the_first_element_that_does_not_fit() {
    let mut storage = [0u8; 5];
    let mut buffer = EncodeBuffer::from_static(&mut storage);
    let values: [u32; 3] = [1, 2, 3];
    assert_eq!(
        buffer.encode_repeated(values.as_slice(), Field(4)),
        Err(EncodeError::BufferOutOfSpace)
    );
    assert_eq!(buffer.as_slice(), &[0x20, 0x01, 0x20, 0x02]);
}

#[test]
fn packed_field_writes_one_tag_and_one_length() {
    let mut storage = [0u8; 16];
    let mut buffer = EncodeBuffer::from_static(&mut storage);
    let values: [i32; 3] = [1, 2, 300];
    assert_eq!(buffer.encode(Packed(values.as_slice()), Field(4)), Ok(6));
    assert_eq!(buffer.as_slice(), &[0x22, 0x04, 0x01, 0x02, 0xac, 0x02]);
    assert_eq!(precalculate_field_size(Packed(values.as_slice()), Field(4)), 6);
    assert_eq!(Packed(values.as_slice()).precalculate_size(), 5);
}

#[test]
fn packed_field_without_elements_writes_tag_and_length_zero() {
    let mut storage = [0u8; 16];
    let mut buffer = EncodeBuffer::from_static(&mut storage);
    let none: [u64; 0] = [];
    assert_eq!(buffer.encode(Packed(none.as_slice()), Field(4)), Ok(2));
    assert_eq!(buffer.as_slice(), &[0x22, 0x00]);
}

#[test]
fn packed_strings_are_each_written_after_their_length() {
    let mut storage = [0u8; 16];
    let mut buffer = EncodeBuffer::from_static(&mut storage);
    let values: [&str; 2] = ["a", "bc"];
    assert_eq!(buffer.encode(Packed(values.as_slice()), Field(1)), Ok(7));
    assert_eq!(buffer.as_slice(), &[0x0a, 0x05, 0x01, b'a', 0x02, b'b', b'c']);
}

#[test]
fn calculated_size_is_the_number_of_bytes_written() {
    fn check<T: ToWire + Copy>(value: T, field: Field) {
        let mut storage = [0u8; 256];
        let mut buffer = EncodeBuffer::from_static(&mut storage);
        let size = precalculate_field_size(value, field);
        let written = buffer.encode(value, field).unwrap();
        assert_eq!(size, written);
        assert_eq!(size, buffer.as_slice().len());

        let mut storage = [0u8; 256];
        let mut buffer = EncodeBuffer::from_static(&mut storage);
        let size = value.precalculate_size();
        let written = buffer.encode_value(value).unwrap();
        assert_eq!(size, written);
        assert_eq!(size, buffer.as_slice().len());
    }
    check(0i32, Field(1));
    check(-1i32, Field(1));
    check(i32::MIN, Field(100));
    check(i64::MAX, Field(0x1fff_ffff));
    check(u32::MAX, Field(16));
    check(u64::MAX, Field(2047));
    check(true, Field(2048));
    check("", Field(1));
    check("John Doe", Field(1));
    let long = "x".repeat(200);
    check(long.as_str(), Field(3));
    check(&long, Field(3));
    let bytes: &[u8] = &[0; 130];
    check(bytes, Field(7));
    let numbers: [i64; 4] = [-1, 0, 1, i64::MIN];
    check(Packed(numbers.as_slice()), Field(9));
}

#[test]
fn size_of_a_message_is_the_sum_of_the_sizes_of_its_fields() {
    let mut storage = [0u8; 64];
    let mut buffer = EncodeBuffer::from_static(&mut storage);
    let name = String::from("John Doe");
    let friends: [i32; 3] = [1, 2, 3];
    let mut size = 0;
    size += precalculate_field_size(&name, Field(1));
    size += precalculate_field_size(1234i32, Field(2));
    size += precalculate_optional_size(None::<&str>, Field(3));
    size += precalculate_repeated_size(friends.as_slice(), Field(4));
    let mut written = 0;
    written += buffer.encode(&name, Field(1)).unwrap();
    written += buffer.encode(1234i32, Field(2)).unwrap();
    written += buffer.encode_optional(None::<&str>, Field(3)).unwrap();
    written += buffer.encode_repeated(friends.as_slice(), Field(4)).unwrap();
    assert_eq!(size, 19);
    assert_eq!(written, 19);
    assert_eq!(buffer.as_slice().len(), 19);
}

#[test]
fn buffer_knows_how_much_it_holds() {
    let mut storage = [0u8; 8];
    let mut buffer = EncodeBuffer::from_static(&mut storage);
    assert_eq!(buffer.len(), 0);
    buffer.write(&[1, 2, 3]).unwrap();
    assert_eq!(buffer.len(), 3);
    assert!(buffer.write(&[0; 5]).is_err());
    assert_eq!(buffer.len(), 3);
    buffer.write(&[0; 4]).unwrap();
    assert_eq!(buffer.len(), 7);
    drop(buffer);
    // the bytes are in the storage that was lent
    assert_eq!(storage, [1, 2, 3, 0, 0, 0, 0, 0]);
}
