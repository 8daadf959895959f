use picopb::common::{Field, FieldType, Packed};
use picopb::wiretypes::{Tag, ToVarint, WireType, WireTypeError, WireTypeId, WireTyped};

fn varint_of<T: ToVarint>(value: T) -> Vec<u8> {
    let (bytes, count) = value.to_varint_encoding();
    for i in count..10 {
        assert_eq!(bytes[i], 0);
    }
    bytes[..count].to_vec()
}

#[test]
fn unsigned_varint_of_small_numbers_is_one_byte() {
    assert_eq!(varint_of(0u32), vec![0x00]);
    assert_eq!(varint_of(1u32), vec![0x01]);
    assert_eq!(varint_of(127u32), vec![0x7f]);
    assert_eq!(varint_of(127u64), vec![0x7f]);
}

#[test]
fn unsigned_varint_sets_the_high_bit_on_all_but_the_last_byte() {
    assert_eq!(varint_of(128u32), vec![0x80, 0x01]);
    assert_eq!(varint_of(300u32), vec![0xac, 0x02]);
    assert_eq!(varint_of(1234u64), vec![0xd2, 0x09]);
    assert_eq!(varint_of(16384u32), vec![0x80, 0x80, 0x01]);
}

#[test]
fn unsigned_varint_of_the_largest_numbers() {
    assert_eq!(varint_of(u32::MAX), vec![0xff, 0xff, 0xff, 0xff, 0x0f]);
    assert_eq!(
        varint_of(u64::MAX),
        vec![0xff, 0xff, 0xff, 0xff, 0xff, 0xff, 0xff, 0xff, 0xff, 0x01]
    );
}

#[test]
fn signed_varint_of_a_number_that_is_not_negative_is_the_unsigned_one() {
    assert_eq!(varint_of(0i32), vec![0x00]);
    assert_eq!(varint_of(63i32), vec![0x3f]);
    assert_eq!(varint_of(64i32), vec![0x40]);
    assert_eq!(varint_of(64i64), vec![0x40]);
    assert_eq!(varint_of(127i32), vec![0x7f]);
    assert_eq!(varint_of(128i64), vec![0x80, 0x01]);
    assert_eq!(varint_of(1234i32), vec![0xd2, 0x09]);
    for v in [0i32, 1, 64, 300, 65535, i32::MAX] {
        assert_eq!(varint_of(v), varint_of(v as u32));
        assert_eq!(varint_of(v as i64), varint_of(v as u64));
    }
    assert_eq!(
        varint_of(i64::MAX),
        vec![0xff, 0xff, 0xff, 0xff, 0xff, 0xff, 0xff, 0xff, 0x7f]
    );
}

#[test]
fn signed_varint_of_a_negative_number_is_its_pattern_in_64_bits() {
    let minus_one = vec![0xff, 0xff, 0xff, 0xff, 0xff, 0xff, 0xff, 0xff, 0xff, 0x01];
    assert_eq!(varint_of(-1i32), minus_one);
    assert_eq!(varint_of(-1i64), minus_one);
    assert_eq!(varint_of(-1i64), varint_of(u64::MAX));
    assert_eq!(
        varint_of(-2i32),
        vec![0xfe, 0xff, 0xff, 0xff, 0xff, 0xff, 0xff, 0xff, 0xff, 0x01]
    );
    assert_eq!(
        varint_of(-64i64),
        vec![0xc0, 0xff, 0xff, 0xff, 0xff, 0xff, 0xff, 0xff, 0xff, 0x01]
    );
    assert_eq!(
        varint_of(-12345i64),
        vec![0xc7, 0x9f, 0xff, 0xff, 0xff, 0xff, 0xff, 0xff, 0xff, 0x01]
    );
    assert_eq!(
        varint_of(i64::MIN),
        vec![0x80, 0x80, 0x80, 0x80, 0x80, 0x80, 0x80, 0x80, 0x80, 0x01]
    );
    assert_eq!(
        varint_of(i32::MIN),
        vec![0x80, 0x80, 0x80, 0x80, 0xf8, 0xff, 0xff, 0xff, 0xff, 0x01]
    );
}

fn read_unsigned(bytes: &[u8]) -> u64 {
    let mut value: u64 = 0;
    for (i, byte) in bytes.iter().enumerate() {
        value |= ((byte & 0x7f) as u64) << (7 * i);
    }
    value
}

#[test]
fn signed_varint_reads_back_as_the_pattern() {
    for v in [0i32, 1, -1, 64, -64, 1234, -1234, i32::MIN, i32::MAX] {
        let read = read_unsigned(&varint_of(v));
        assert_eq!(read as u32, v as u32);
        assert_eq!(read, v as i64 as u64);
    }
    for v in [0i64, -1, i64::MIN, i64::MAX, -300] {
        assert_eq!(read_unsigned(&varint_of(v)), v as u64);
    }
    // no zigzag: minus one is not the number one
    assert_ne!(varint_of(-1i32), vec![0x01]);
}

#[test]
fn tag_is_written_as_an_unsigned_varint() {
    assert_eq!(varint_of(Tag(0x0a)), vec![0x0a]);
    assert_eq!(varint_of(Tag(300)), vec![0xac, 0x02]);
    let (bytes, count) = Tag(300).encode();
    assert_eq!(&bytes[..count], &[0xac, 0x02]);
}

#[test]
fn tag_combines_field_number_and_wire_type() {
    assert_eq!(1234i32.tag(Field(2)), Tag(0x10));
    let name = String::from("x");
    assert_eq!((&name).tag(Field(1)), Tag(0x0a));
    assert_eq!("x".tag(Field(3)), Tag(0x1a));
    let bytes: &[u8] = &[1, 2];
    assert_eq!(bytes.tag(Field(1)), Tag(0x0a));
    assert_eq!(true.tag(Field(4)), Tag(0x20));
    assert_eq!(Packed(0u8).tag(Field(4)), Tag(0x22));
}

#[test]
fn tag_gives_field_number_and_wire_type_back() {
    for n in [1u32, 2, 15, 16, 2047, 2048, 0x1fff_ffff] {
        for w in [WireType::VarInt, WireType::I64, WireType::Len, WireType::I32] {
            let tag = FieldTypeProbe(w).tag(Field(n));
            assert_eq!(tag.0 >> 3, n);
            assert_eq!(WireTypeId(tag.0 & 0x7), w.to_id());
            assert_eq!(WireType::try_from(tag.0 & 0x7), Ok(w));
        }
    }
}

struct FieldTypeProbe(WireType);

impl WireTyped for FieldTypeProbe {
    fn wire_type(&self) -> WireType {
        self.0
    }

    fn wiretype(&self) -> WireType {
        self.0
    }
}

#[test]
fn wire_type_numbers() {
    assert_eq!(WireType::VarInt.to_id(), WireTypeId(0));
    assert_eq!(WireType::I64.to_id(), WireTypeId(1));
    assert_eq!(WireType::Len.to_id(), WireTypeId(2));
    assert_eq!(WireType::SGroup.to_id(), WireTypeId(3));
    assert_eq!(WireType::EGroup.to_id(), WireTypeId(4));
    assert_eq!(WireType::I32.to_id(), WireTypeId(5));
}

#[test]
fn wire_type_of_a_number() {
    assert_eq!(WireType::try_from(0), Ok(WireType::VarInt));
    assert_eq!(WireType::try_from(1), Ok(WireType::I64));
    assert_eq!(WireType::try_from(2), Ok(WireType::Len));
    assert_eq!(WireType::try_from(3), Ok(WireType::SGroup));
    assert_eq!(WireType::try_from(4), Ok(WireType::EGroup));
    assert_eq!(WireType::try_from(5), Ok(WireType::I32));
    assert_eq!(WireType::try_from(6), Err(WireTypeError::InvalidTag(6)));
    assert_eq!(WireType::try_from(7), Err(WireTypeError::InvalidTag(7)));
    assert_eq!(WireType::try_from(u32::MAX), Err(WireTypeError::InvalidTag(u32::MAX)));
}

#[test]
fn wire_type_of_every_field_type() {
    let varint = [
        FieldType::Bool,
        FieldType::Int32,
        FieldType::Int64,
        FieldType::Uint32,
        FieldType::Uint64,
        FieldType::EnumType(String::from("E")),
    ];
    for field_type in varint.iter() {
        assert_eq!(field_type.wiretype(), WireType::VarInt);
    }
    let len = [
        FieldType::UnboundedString,
        FieldType::String(8),
        FieldType::UnboundedBytes,
        FieldType::Bytes(8),
        FieldType::MessageType(String::from("M"), 4),
        FieldType::UnboundedMessageType(String::from("M")),
    ];
    for field_type in len.iter() {
        assert_eq!(field_type.wiretype(), WireType::Len);
    }
}
