//! A message with an optional string and a repeated number:
//!
//! ```text
//! message MessageWithOptionalField {
//!     optional string d = 4;
//!     repeated int32 e = 5;
//! }
//! ```

use crate::common::{ConstMessageField, Field, FieldQualifier, FieldType};
use crate::encode::{
    joined, lemma_fits, lemma_singles, lemma_then, optional_chunks,
    precalculate_optional_size, precalculate_repeated_size, repeated_chunks, written, EncodeBuffer,
    EncodeError, ToWire,
};
use crate::wiretypes::{
    lemma_pattern64, lemma_uleb128_len_u64, pattern64, uleb128, WireType, WireTyped,
};
use vstd::prelude::*;

verus! {

/// The message.
#[derive(Debug, Clone, PartialEq, Eq)]
pub struct MessageWithOptionalField {
    pub d: Option<String>,
    pub e: Vec<i32>,
}

/// The description of the fields of the message.
#[derive(Debug, Clone, PartialEq, Eq)]
pub struct MessageWithOptionalFieldFieldsType {
    pub d: ConstMessageField,
    pub e: ConstMessageField,
}

impl MessageWithOptionalField {
    /// The description of the fields of the message.
    pub fn fields(&self) -> (r: MessageWithOptionalFieldFieldsType)
        ensures
            r.d.qualifier == FieldQualifier::Optional,
            r.d.field_type == FieldType::UnboundedString,
            r.d.identifier@ == "d"@,
            r.d.ordinal == Field(4),
            r.e.qualifier == FieldQualifier::RepeatedUnbounded,
            r.e.field_type == FieldType::Int32,
            r.e.identifier@ == "e"@,
            r.e.ordinal == Field(5),
    {
        MessageWithOptionalFieldFieldsType {
            d: ConstMessageField {
                qualifier: FieldQualifier::Optional,
                field_type: FieldType::UnboundedString,
                identifier: "d",
                ordinal: Field(4),
            },
            e: ConstMessageField {
                qualifier: FieldQualifier::RepeatedUnbounded,
                field_type: FieldType::Int32,
                identifier: "e",
                ordinal: Field(5),
            },
        }
    }

    /// The optional text, borrowed.
    pub open spec fn text(&self) -> Option<&String> {
        match &self.d {
            Some(value) => Some(value),
            None => None,
        }
    }

    /// The runs of the field `d`: none where it is absent.
    pub open spec fn d_chunks(&self) -> Seq<Seq<u8>> {
        optional_chunks(self.text(), Field(4))
    }

    /// The runs of the field `e`: tag and value for each of its elements.
    pub open spec fn e_chunks(&self) -> Seq<Seq<u8>> {
        repeated_chunks(self.e@, Field(5))
    }

    /// The parts of a message of a size that can be told have such a size
    /// themselves.
    proof fn lemma_parts(&self)
        ensures
            joined(self.d_chunks() + self.e_chunks()).len() == joined(self.d_chunks()).len()
                + joined(self.e_chunks()).len(),
            self.text() is Some ==> joined(self.text()->0.wire_chunks()).len() <= joined(
                self.d_chunks(),
            ).len(),
            forall|i: int|
                0 <= i < self.e@.len() ==> joined((#[trigger] self.e@[i]).wire_chunks()).len()
                    <= usize::MAX,
    {
        lemma_then(0, 0, self.d_chunks(), self.e_chunks());
        if let Some(value) = self.text() {
            lemma_then(
                0,
                0,
                seq![crate::encode::tag_bytes(Field(4), value.wire_type())],
                value.wire_chunks(),
            );
        }
        assert forall|i: int| 0 <= i < self.e@.len() implies joined(
            (#[trigger] self.e@[i]).wire_chunks(),
        ).len() <= usize::MAX by {
            lemma_singles(uleb128(pattern64(self.e@[i] as int)));
            lemma_pattern64(self.e@[i] as i64);
            lemma_uleb128_len_u64(self.e@[i] as i64 as u64);
        }
    }
}

/// A message is delimited by its length.
impl WireTyped for &MessageWithOptionalField {
    open spec fn wire_type(&self) -> WireType {
        WireType::Len
    }

    fn wiretype(&self) -> (r: WireType) {
        let r = WireType::Len;
        assert(r == self.wire_type());
        r
    }
}

/// A message is written as its fields, one after the other, in the order of
/// their numbers.
impl ToWire for &MessageWithOptionalField {
    open spec fn wire_chunks(&self) -> Seq<Seq<u8>> {
        self.d_chunks() + self.e_chunks()
    }

    fn append(self, buf: &mut EncodeBuffer) -> (r: Result<usize, EncodeError>) {
        let ghost len0 = buf@.len();
        let ghost cap = buf.capacity();
        proof {
            self.lemma_parts();
            lemma_then(len0, cap, self.d_chunks(), self.e_chunks());
            lemma_fits(len0, cap, self.d_chunks());
            lemma_fits(len0, cap, self.d_chunks() + self.e_chunks());
            lemma_fits(len0 + joined(self.d_chunks()).len(), cap, self.e_chunks());
        }
        let mut total_size: usize = 0;
        if let Some(value_d) = &self.d {
            total_size = total_size + buf.encode(value_d, self.fields().d.ordinal)?;
        } else {
            assert(buf@ =~= old(buf)@ + Seq::<u8>::empty());
            assert(joined(self.d_chunks()) =~= Seq::<u8>::empty());
        }
        let more = buf.encode_repeated(self.e.as_slice(), self.fields().e.ordinal)?;
        total_size = total_size + more;
        assert(buf@ =~= old(buf)@ + (joined(self.d_chunks()) + written(
            len0 + joined(self.d_chunks()).len(),
            cap,
            self.e_chunks(),
        )));
        Ok(total_size)
    }

    fn precalculate_size(self) -> (r: usize) {
        proof {
            self.lemma_parts();
        }
        let mut total_size: usize = 0;
        match &self.d {
            Some(value_d) => {
                total_size = total_size + precalculate_optional_size(
                    Some(value_d),
                    self.fields().d.ordinal,
                );
            },
            None => {
                assert(joined(self.d_chunks()) =~= Seq::<u8>::empty());
            },
        }
        total_size = total_size + precalculate_repeated_size(
            self.e.as_slice(),
            self.fields().e.ordinal,
        );
        total_size
    }
}

} // verus!
