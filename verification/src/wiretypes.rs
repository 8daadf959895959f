//! Wire types, tags and the variable-length integer forms.

pub use crate::common::Field;
use crate::common::{FieldType, FieldTypeView, Packed};
use vstd::prelude::*;

verus! {

/// The number that stands for a wire type in a tag.
#[derive(Debug, Clone, Copy, PartialEq, Eq, Structural)]
pub struct WireTypeId(pub u32);

/// A field number and a wire type, combined as they precede a value on the wire.
#[derive(Debug, Clone, Copy, PartialEq, Eq, Structural)]
pub struct Tag(pub u32);

/// The unsigned base-128 form of `v`: seven bits a byte, least significant
/// group first, the high bit set on every byte but the last.
pub open spec fn uleb128(v: nat) -> Seq<u8>
    decreases v,
{
    if v < 128 {
        seq![v as u8]
    } else {
        seq![(v % 128 + 128) as u8] + uleb128(v / 128)
    }
}

/// The two's-complement pattern of the signed number `v` in 64 bits, read as
/// an unsigned number: `v` itself where it is not negative, and else `v` and
/// two to the power 64 together.
pub open spec fn pattern64(v: int) -> nat
    recommends
        i64::MIN <= v <= i64::MAX,
{
    if v >= 0 {
        v as nat
    } else {
        (v + 0x1_0000_0000_0000_0000) as nat
    }
}

/// The number that a sequence of bytes in unsigned base-128 form stands for.
pub open spec fn uleb128_value(bytes: Seq<u8>) -> nat
    decreases bytes.len(),
{
    if bytes.len() == 0 {
        0
    } else {
        (bytes[0] % 128) as nat + 128 * uleb128_value(bytes.drop_first())
    }
}

/// 128 to the power `k`.
pub open spec fn pow128(k: nat) -> nat
    decreases k,
{
    if k == 0 {
        1
    } else {
        128 * pow128((k - 1) as nat)
    }
}

/// A number below `128^k` takes at most `k` bytes in unsigned base-128 form.
pub proof fn lemma_uleb128_len(v: nat, k: nat)
    requires
        k >= 1,
        v < pow128(k),
    ensures
        1 <= uleb128(v).len() <= k,
    decreases v,
{
    if v >= 128 {
        assert(pow128(k) == 128 * pow128((k - 1) as nat));
        assert(k >= 2) by {
            if k == 1 {
                assert(pow128(0) == 1);
            }
        }
        lemma_uleb128_len(v / 128, (k - 1) as nat);
    }
}

/// Every `u64` takes at most ten bytes in unsigned base-128 form.
pub proof fn lemma_uleb128_len_u64(v: u64)
    ensures
        1 <= uleb128(v as nat).len() <= 10,
{
    assert(pow128(10) == 0x40_0000_0000_0000_0000) by {
        reveal_with_fuel(pow128, 11);
    }
    lemma_uleb128_len(v as nat, 10);
}

/// The pattern of a signed number of 64 bits is what its cast to `u64`
/// gives, and is a number of 64 bits.
pub proof fn lemma_pattern64(v: i64)
    ensures
        pattern64(v as int) == v as u64,
        pattern64(v as int) <= u64::MAX,
{
    assert(v >= 0 ==> v as u64 == v) by (bit_vector);
    assert(v < 0 ==> v as u64 == v + 0x1_0000_0000_0000_0000) by (bit_vector);
}

/// Reading the unsigned base-128 form of a number gives the number back.
pub proof fn lemma_uleb128_roundtrip(v: nat)
    ensures
        uleb128_value(uleb128(v)) == v,
    decreases v,
{
    let bytes = uleb128(v);
    if v < 128 {
        assert(bytes.drop_first() =~= Seq::<u8>::empty());
        assert(uleb128_value(bytes.drop_first()) == 0);
    } else {
        lemma_uleb128_roundtrip(v / 128);
        assert(bytes.drop_first() =~= uleb128(v / 128));
        assert(bytes[0] == (v % 128 + 128) as u8);
        assert(((v % 128 + 128) as u8) % 128 == v % 128);
    }
}

/// Writes `val` with `leb128::write::unsigned` into an array of ten zero bytes.
/// Believed of that function: it writes the unsigned base-128 form of `val`,
/// which never takes more than the ten bytes, and returns how many it wrote.
#[verifier::external_body]
fn unsigned_leb128(val: u64) -> (r: ([u8; 10], usize))
    ensures
        r.1 == uleb128(val as nat).len(),
        r.0@.take(r.1 as int) == uleb128(val as nat),
        forall|i: int| r.1 <= i < 10 ==> r.0@[i] == 0u8,
{
    let mut out: [u8; 10] = [0; 10];
    let mut writable = &mut out[..];
    let count = leb128::write::unsigned(&mut writable, val).unwrap();
    (out, count)
}

/// A value that has a variable-length integer form.
pub trait ToVarint {
    /// The bytes of the variable-length form.
    spec fn varint(&self) -> Seq<u8>;

    /// The variable-length form in the leading bytes of an array, zero bytes
    /// after it, and the number of bytes that it takes.
    fn to_varint_encoding(&self) -> (r: ([u8; 10], usize))
        ensures
            1 <= r.1 <= 10,
            r.1 == self.varint().len(),
            r.0@.take(r.1 as int) == self.varint(),
            forall|i: int| r.1 <= i < 10 ==> r.0@[i] == 0u8,
    ;
}

impl ToVarint for u32 {
    open spec fn varint(&self) -> Seq<u8> {
        uleb128(*self as nat)
    }

    fn to_varint_encoding(&self) -> (r: ([u8; 10], usize)) {
        proof {
            lemma_uleb128_len_u64(*self as u64);
        }
        let r = unsigned_leb128(*self as u64);
        assert(r.0@.take(r.1 as int) == self.varint());
        r
    }
}

impl ToVarint for u64 {
    open spec fn varint(&self) -> Seq<u8> {
        uleb128(*self as nat)
    }

    fn to_varint_encoding(&self) -> (r: ([u8; 10], usize)) {
        proof {
            lemma_uleb128_len_u64(*self);
        }
        let r = unsigned_leb128(*self);
        assert(r.0@.take(r.1 as int) == self.varint());
        r
    }
}

/// A signed number is written as its two's-complement pattern, in the same
/// form as an unsigned number and with no zigzag. A number of 32 bits is
/// widened to 64 bits first, so that a negative one takes ten bytes, whose
/// low 32 bits are its own pattern.
impl ToVarint for i32 {
    open spec fn varint(&self) -> Seq<u8> {
        uleb128(pattern64(*self as int))
    }

    fn to_varint_encoding(&self) -> (r: ([u8; 10], usize)) {
        let wide = *self as i64;
        proof {
            lemma_pattern64(wide);
            lemma_uleb128_len_u64(wide as u64);
        }
        let r = unsigned_leb128(wide as u64);
        assert(r.0@.take(r.1 as int) == self.varint());
        r
    }
}

/// A signed number is written as its two's-complement pattern in 64 bits, in
/// the same form as an unsigned number and with no zigzag.
impl ToVarint for i64 {
    open spec fn varint(&self) -> Seq<u8> {
        uleb128(pattern64(*self as int))
    }

    fn to_varint_encoding(&self) -> (r: ([u8; 10], usize)) {
        proof {
            lemma_pattern64(*self);
            lemma_uleb128_len_u64(*self as u64);
        }
        let r = unsigned_leb128(*self as u64);
        assert(r.0@.take(r.1 as int) == self.varint());
        r
    }
}

impl ToVarint for Tag {
    open spec fn varint(&self) -> Seq<u8> {
        uleb128(self.0 as nat)
    }

    fn to_varint_encoding(&self) -> (r: ([u8; 10], usize)) {
        let r = self.0.to_varint_encoding();
        assert(r.0@.take(r.1 as int) == self.varint());
        r
    }
}

impl Tag {
    /// The tag in unsigned base-128 form, as it stands on the wire.
    pub fn encode(&self) -> (r: ([u8; 10], usize))
        ensures
            1 <= r.1 <= 10,
            r.1 == uleb128(self.0 as nat).len(),
            r.0@.take(r.1 as int) == uleb128(self.0 as nat),
            forall|i: int| r.1 <= i < 10 ==> r.0@[i] == 0u8,
    {
        self.0.to_varint_encoding()
    }
}

/// The bytes of a signed number of 32 bits, read back as an unsigned number,
/// are its pattern in 64 bits, whose low 32 bits are its own pattern. A
/// number that is not negative is written as the unsigned number that it is.
pub proof fn lemma_signed_varint_32(v: i32)
    ensures
        v.varint() == uleb128(pattern64(v as int)),
        uleb128_value(v.varint()) == pattern64(v as int),
        uleb128_value(v.varint()) % 0x1_0000_0000 == v as u32,
        v >= 0 ==> v.varint() == uleb128(v as nat),
{
    let wide = v as i64;
    lemma_pattern64(wide);
    lemma_uleb128_roundtrip(pattern64(v as int));
    assert((wide as u64) % 0x1_0000_0000 == v as u32) by (bit_vector)
        requires
            wide == v as i64,
    ;
}

/// The bytes of a signed number of 64 bits, read back as an unsigned number,
/// are its pattern. A number that is not negative is written as the
/// unsigned number that it is.
pub proof fn lemma_signed_varint_64(v: i64)
    ensures
        v.varint() == uleb128(pattern64(v as int)),
        uleb128_value(v.varint()) == v as u64,
        v >= 0 ==> v.varint() == uleb128(v as nat),
{
    lemma_pattern64(v);
    lemma_uleb128_roundtrip(pattern64(v as int));
}

/// How the bytes that follow a tag are to be read.
#[derive(Debug, Clone, Copy, PartialEq, Eq, Structural)]
pub enum WireType {
    VarInt,
    I64,
    SGroup,
    EGroup,
    I32,
    Len,
}

/// Why a number stands for no wire type.
#[derive(Debug, Clone, Copy, PartialEq, Eq, Structural)]
pub enum WireTypeError {
    /// No wire type has the number.
    InvalidTag(u32),
}

/// The number of the wire type of variable-length integers.
pub const VARINT_ID: u32 = 0;

/// The number of the wire type of values of eight bytes.
pub const I64_ID: u32 = 1;

/// The number of the wire type of values that follow their length.
pub const LEN_ID: u32 = 2;

/// The number of the wire type that starts a group.
pub const SGROUP_ID: u32 = 3;

/// The number of the wire type that ends a group.
pub const EGROUP_ID: u32 = 4;

/// The number of the wire type of values of four bytes.
pub const I32_ID: u32 = 5;

impl WireType {
    /// The number that stands for this wire type in a tag.
    pub open spec fn id(self) -> u32 {
        match self {
            WireType::VarInt => VARINT_ID,
            WireType::I64 => I64_ID,
            WireType::Len => LEN_ID,
            WireType::SGroup => SGROUP_ID,
            WireType::EGroup => EGROUP_ID,
            WireType::I32 => I32_ID,
        }
    }

    /// The wire type that the number `value` stands for, if it stands for one.
    pub open spec fn of_id(value: u32) -> Result<WireType, WireTypeError> {
        if value == VARINT_ID {
            Ok(WireType::VarInt)
        } else if value == I64_ID {
            Ok(WireType::I64)
        } else if value == LEN_ID {
            Ok(WireType::Len)
        } else if value == SGROUP_ID {
            Ok(WireType::SGroup)
        } else if value == EGROUP_ID {
            Ok(WireType::EGroup)
        } else if value == I32_ID {
            Ok(WireType::I32)
        } else {
            Err(WireTypeError::InvalidTag(value))
        }
    }

    /// The number that stands for this wire type in a tag.
    pub fn to_id(&self) -> (r: WireTypeId)
        ensures
            r.0 == self.id(),
    {
        match self {
            WireType::VarInt => WireTypeId(VARINT_ID),
            WireType::I64 => WireTypeId(I64_ID),
            WireType::Len => WireTypeId(LEN_ID),
            WireType::SGroup => WireTypeId(SGROUP_ID),
            WireType::EGroup => WireTypeId(EGROUP_ID),
            WireType::I32 => WireTypeId(I32_ID),
        }
    }
}

impl TryFrom<u32> for WireType {
    type Error = WireTypeError;

    fn try_from(value: u32) -> (r: Result<Self, WireTypeError>) {
        if value == VARINT_ID {
            Ok(WireType::VarInt)
        } else if value == I64_ID {
            Ok(WireType::I64)
        } else if value == LEN_ID {
            Ok(WireType::Len)
        } else if value == SGROUP_ID {
            Ok(WireType::SGroup)
        } else if value == EGROUP_ID {
            Ok(WireType::EGroup)
        } else if value == I32_ID {
            Ok(WireType::I32)
        } else {
            Err(WireTypeError::InvalidTag(value))
        }
    }
}

impl vstd::std_specs::convert::TryFromSpecImpl<u32> for WireType {
    open spec fn obeys_try_from_spec() -> bool {
        true
    }

    open spec fn try_from_spec(value: u32) -> Result<Self, WireTypeError> {
        WireType::of_id(value)
    }
}

/// The tag of the field `field` for a value of wire type `wiretype`: the field
/// number, moved up by three bits, with the wire type's number below it.
pub open spec fn tag_of(field: Field, wiretype: WireType) -> Tag {
    Tag((field.0 << 3u32) | wiretype.id())
}

/// A value that knows its wire type.
pub trait WireTyped {
    /// The wire type of the value.
    spec fn wire_type(&self) -> WireType;

    fn wiretype(&self) -> (r: WireType)
        ensures
            r == self.wire_type(),
    ;

    /// The tag that precedes the value where it stands as the field `field`.
    fn tag(&self, field: Field) -> (r: Tag)
        ensures
            r == tag_of(field, self.wire_type()),
    {
        Tag((field.0 << 3) | self.wiretype().to_id().0)
    }
}

/// A packed run is delimited by its length.
impl<T> WireTyped for Packed<T> {
    open spec fn wire_type(&self) -> WireType {
        WireType::Len
    }

    fn wiretype(&self) -> (r: WireType) {
        let r = WireType::Len;
        assert(r == self.wire_type());
        r
    }
}

impl WireTyped for &String {
    open spec fn wire_type(&self) -> WireType {
        WireType::Len
    }

    fn wiretype(&self) -> (r: WireType) {
        let r = WireType::Len;
        assert(r == self.wire_type());
        r
    }
}

impl WireTyped for &str {
    open spec fn wire_type(&self) -> WireType {
        WireType::Len
    }

    fn wiretype(&self) -> (r: WireType) {
        let r = WireType::Len;
        assert(r == self.wire_type());
        r
    }
}

impl WireTyped for &[u8] {
    open spec fn wire_type(&self) -> WireType {
        WireType::Len
    }

    fn wiretype(&self) -> (r: WireType) {
        let r = WireType::Len;
        assert(r == self.wire_type());
        r
    }
}

impl WireTyped for bool {
    open spec fn wire_type(&self) -> WireType {
        WireType::VarInt
    }

    fn wiretype(&self) -> (r: WireType) {
        let r = WireType::VarInt;
        assert(r == self.wire_type());
        r
    }
}

impl WireTyped for i32 {
    open spec fn wire_type(&self) -> WireType {
        WireType::VarInt
    }

    fn wiretype(&self) -> (r: WireType) {
        let r = WireType::VarInt;
        assert(r == self.wire_type());
        r
    }
}

impl WireTyped for i64 {
    open spec fn wire_type(&self) -> WireType {
        WireType::VarInt
    }

    fn wiretype(&self) -> (r: WireType) {
        let r = WireType::VarInt;
        assert(r == self.wire_type());
        r
    }
}

impl WireTyped for u32 {
    open spec fn wire_type(&self) -> WireType {
        WireType::VarInt
    }

    fn wiretype(&self) -> (r: WireType) {
        let r = WireType::VarInt;
        assert(r == self.wire_type());
        r
    }
}

impl WireTyped for u64 {
    open spec fn wire_type(&self) -> WireType {
        WireType::VarInt
    }

    fn wiretype(&self) -> (r: WireType) {
        let r = WireType::VarInt;
        assert(r == self.wire_type());
        r
    }
}

impl FieldTypeView {
    /// The wire type of the values of a field type: numbers, truth values and
    /// enums are written as variable-length integers, strings, bytes and
    /// messages after their length.
    pub open spec fn wire_type(self) -> WireType {
        match self {
            FieldTypeView::Bool => WireType::VarInt,
            FieldTypeView::Int32 => WireType::VarInt,
            FieldTypeView::Int64 => WireType::VarInt,
            FieldTypeView::Uint32 => WireType::VarInt,
            FieldTypeView::Uint64 => WireType::VarInt,
            FieldTypeView::EnumType(_) => WireType::VarInt,
            _ => WireType::Len,
        }
    }
}

/// A field type has the wire type of its values.
impl WireTyped for FieldType {
    open spec fn wire_type(&self) -> WireType {
        self@.wire_type()
    }

    fn wiretype(&self) -> (r: WireType) {
        let r = match self {
            FieldType::Bool => WireType::VarInt,
            FieldType::Int32 => WireType::VarInt,
            FieldType::Int64 => WireType::VarInt,
            FieldType::Uint32 => WireType::VarInt,
            FieldType::Uint64 => WireType::VarInt,
            FieldType::EnumType(_) => WireType::VarInt,
            _ => WireType::Len,
        };
        assert(r == self.wire_type());
        r
    }
}

/// A tag gives back the field number and the wire type that it was made of:
/// the field number above the lowest three bits, the wire type's number in them.
pub proof fn lemma_tag_roundtrip(field: Field, wiretype: WireType)
    requires
        1 <= field.0 <= 0x1FFF_FFFF,
    ensures
        tag_of(field, wiretype).0 >> 3u32 == field.0,
        tag_of(field, wiretype).0 & 0x7u32 == wiretype.id(),
        WireType::of_id(tag_of(field, wiretype).0 & 0x7u32) == Ok::<WireType, WireTypeError>(
            wiretype,
        ),
        uleb128_value(uleb128(tag_of(field, wiretype).0 as nat)) == tag_of(field, wiretype).0,
{
    let n = field.0;
    let id = wiretype.id();
    assert(id <= 5);
    assert(((n << 3u32) | id) >> 3u32 == n && ((n << 3u32) | id) & 0x7u32 == id) by (bit_vector)
        requires
            n <= 0x1FFF_FFFFu32,
            id <= 5u32,
    ;
    lemma_uleb128_roundtrip(tag_of(field, wiretype).0 as nat);
}

} // verus!
