//! A message with an optional string, a repeated string and a repeated
//! number:
//!
//! ```text
//! message MessageWithOptionalField {
//!     optional string a = 1;
//!     repeated string b = 4;
//!     repeated int32 e = 5;
//! }
//! ```

use crate::common::{ConstMessageField, Field, FieldQualifier, FieldType};
use crate::encode::{
    joined, lemma_fits, lemma_repeated_element_size, lemma_singles, lemma_then, optional_chunks,
    precalculate_optional_size, precalculate_repeated_size, repeated_chunks, written, EncodeBuffer,
    EncodeError, ToWire,
};
use crate::wiretypes::{
    lemma_pattern64, lemma_uleb128_len_u64, pattern64, uleb128, WireType, WireTyped,
};
use vstd::prelude::*;

verus! {

/// The message.
#[derive(Debug, Clone, PartialEq, Eq)]
pub struct MessageWithOptionalField {
    pub a: Option<String>,
    pub b: Vec<String>,
    pub e: Vec<i32>,
}

/// The description of the fields of the message.
#[derive(Debug, Clone, PartialEq, Eq)]
pub struct MessageWithOptionalFieldFieldsType {
    pub a: ConstMessageField,
    pub b: ConstMessageField,
    pub e: ConstMessageField,
}

impl MessageWithOptionalField {
    /// The description of the fields of the message.
    pub fn fields(&self) -> (r: MessageWithOptionalFieldFieldsType)
        ensures
            r.a.qualifier == FieldQualifier::Optional,
            r.a.field_type == FieldType::UnboundedString,
            r.a.identifier@ == "a"@,
            r.a.ordinal == Field(1),
            r.b.qualifier == FieldQualifier::RepeatedUnbounded,
            r.b.field_type == FieldType::UnboundedString,
            r.b.identifier@ == "b"@,
            r.b.ordinal == Field(4),
            r.e.qualifier == FieldQualifier::RepeatedUnbounded,
            r.e.field_type == FieldType::Int32,
            r.e.identifier@ == "e"@,
            r.e.ordinal == Field(5),
    {
        MessageWithOptionalFieldFieldsType {
            a: ConstMessageField {
                qualifier: FieldQualifier::Optional,
                field_type: FieldType::UnboundedString,
                identifier: "a",
                ordinal: Field(1),
            },
            b: ConstMessageField {
                qualifier: FieldQualifier::RepeatedUnbounded,
                field_type: FieldType::UnboundedString,
                identifier: "b",
                ordinal: Field(4),
            },
            e: ConstMessageField {
                qualifier: FieldQualifier::RepeatedUnbounded,
                field_type: FieldType::Int32,
                identifier: "e",
                ordinal: Field(5),
            },
        }
    }

    /// The optional text, borrowed.
    pub open spec fn text(&self) -> Option<&String> {
        match &self.a {
            Some(value) => Some(value),
            None => None,
        }
    }

    /// The repeated texts, each borrowed, in their order.
    pub open spec fn texts(&self) -> Seq<&String> {
        Seq::new(self.b@.len(), |i: int| &self.b@[i])
    }

    /// The repeated texts, each borrowed, in their order.
    pub fn borrowed_texts(&self) -> (r: Vec<&String>)
        ensures
            r@ == self.texts(),
    {
        let mut out: Vec<&String> = Vec::new();
        let mut i: usize = 0;
        while i < self.b.len()
            invariant
                i <= self.b@.len(),
                out@.len() == i,
                forall|j: int| 0 <= j < i ==> *(#[trigger] out@[j]) == self.b@[j],
            decreases self.b@.len() - i,
        {
            out.push(&self.b[i]);
            i += 1;
        }
        assert(out@ =~= self.texts());
        out
    }

    /// The runs of the field `a`: none where it is absent.
    pub open spec fn a_chunks(&self) -> Seq<Seq<u8>> {
        optional_chunks(self.text(), Field(1))
    }

    /// The runs of the field `b`: tag and value for each of its texts.
    pub open spec fn b_chunks(&self) -> Seq<Seq<u8>> {
        repeated_chunks(self.texts(), Field(4))
    }

    /// The runs of the field `e`: tag and value for each of its numbers.
    pub open spec fn e_chunks(&self) -> Seq<Seq<u8>> {
        repeated_chunks(self.e@, Field(5))
    }

    /// The parts of a message of a size that can be told have such a size
    /// themselves.
    proof fn lemma_parts(&self)
        requires
            joined(self.a_chunks() + self.b_chunks() + self.e_chunks()).len() <= usize::MAX,
        ensures
            joined(self.a_chunks() + self.b_chunks()).len() == joined(self.a_chunks()).len()
                + joined(self.b_chunks()).len(),
            joined(self.a_chunks() + self.b_chunks() + self.e_chunks()).len() == joined(
                self.a_chunks(),
            ).len() + joined(self.b_chunks()).len() + joined(self.e_chunks()).len(),
            self.text() is Some ==> joined(self.text()->0.wire_chunks()).len() <= joined(
                self.a_chunks(),
            ).len(),
            forall|i: int|
                0 <= i < self.texts().len() ==> joined(
                    (#[trigger] self.texts()[i]).wire_chunks(),
                ).len() <= usize::MAX,
            forall|i: int|
                0 <= i < self.e@.len() ==> joined((#[trigger] self.e@[i]).wire_chunks()).len()
                    <= usize::MAX,
    {
        lemma_then(0, 0, self.a_chunks(), self.b_chunks());
        lemma_then(0, 0, self.a_chunks() + self.b_chunks(), self.e_chunks());
        if let Some(value) = self.text() {
            lemma_then(
                0,
                0,
                seq![crate::encode::tag_bytes(Field(1), value.wire_type())],
                value.wire_chunks(),
            );
        }
        assert forall|i: int| 0 <= i < self.texts().len() implies joined(
            (#[trigger] self.texts()[i]).wire_chunks(),
        ).len() <= usize::MAX by {
            lemma_repeated_element_size(self.texts(), Field(4), i);
        }
        assert forall|i: int| 0 <= i < self.e@.len() implies joined(
            (#[trigger] self.e@[i]).wire_chunks(),
        ).len() <= usize::MAX by {
            lemma_singles(uleb128(pattern64(self.e@[i] as int)));
            lemma_pattern64(self.e@[i] as i64);
            lemma_uleb128_len_u64(self.e@[i] as i64 as u64);
        }
    }
}

/// A message is delimited by its length.
impl WireTyped for &MessageWithOptionalField {
    open spec fn wire_type(&self) -> WireType {
        WireType::Len
    }

    fn wiretype(&self) -> (r: WireType) {
        let r = WireType::Len;
        assert(r == self.wire_type());
        r
    }
}

/// A message is written as its fields, one after the other, in the order of
/// their numbers.
impl ToWire for &MessageWithOptionalField {
    open spec fn wire_chunks(&self) -> Seq<Seq<u8>> {
        self.a_chunks() + self.b_chunks() + self.e_chunks()
    }

    fn append(self, buf: &mut EncodeBuffer) -> (r: Result<usize, EncodeError>) {
        let ghost len0 = buf@.len();
        let ghost cap = buf.capacity();
        let ghost a = self.a_chunks();
        let ghost b = self.b_chunks();
        let ghost e = self.e_chunks();
        proof {
            self.lemma_parts();
            lemma_then(len0, cap, a, b);
            lemma_then(len0, cap, a + b, e);
            lemma_fits(len0, cap, a);
            lemma_fits(len0, cap, a + b);
            lemma_fits(len0, cap, a + b + e);
            lemma_fits(len0 + joined(a).len(), cap, b);
            lemma_fits(len0 + joined(a + b).len(), cap, e);
        }
        let mut total_size: usize = 0;
        if let Some(value_a) = &self.a {
            total_size = total_size + buf.encode(value_a, self.fields().a.ordinal)?;
        } else {
            assert(buf@ =~= old(buf)@ + Seq::<u8>::empty());
            assert(joined(a) =~= Seq::<u8>::empty());
        }
        assert(buf@ =~= old(buf)@ + joined(a));
        let texts = self.borrowed_texts();
        match buf.encode_repeated(texts.as_slice(), self.fields().b.ordinal) {
            Ok(more) => {
                total_size = total_size + more;
            },
            Err(error) => {
                assert(buf@ =~= old(buf)@ + (joined(a) + written(len0 + joined(a).len(), cap, b)));
                return Err(error);
            },
        }
        assert(buf@ =~= old(buf)@ + joined(a + b));
        let more = buf.encode_repeated(self.e.as_slice(), self.fields().e.ordinal)?;
        total_size = total_size + more;
        assert(buf@ =~= old(buf)@ + (joined(a + b) + written(len0 + joined(a + b).len(), cap, e)));
        Ok(total_size)
    }

    fn precalculate_size(self) -> (r: usize) {
        proof {
            self.lemma_parts();
        }
        let mut total_size: usize = 0;
        match &self.a {
            Some(value_a) => {
                total_size = total_size + precalculate_optional_size(
                    Some(value_a),
                    self.fields().a.ordinal,
                );
            },
            None => {
                assert(joined(self.a_chunks()) =~= Seq::<u8>::empty());
            },
        }
        let texts = self.borrowed_texts();
        total_size = total_size + precalculate_repeated_size(
            texts.as_slice(),
            self.fields().b.ordinal,
        );
        total_size = total_size + precalculate_repeated_size(
            self.e.as_slice(),
            self.fields().e.ordinal,
        );
        total_size
    }
}

} // verus!
