//! The wire encoder: a bounded buffer, and how values and fields are written
//! into it.
//!
//! Everything written goes through [`EncodeBuffer::write`], which takes a run
//! of bytes whole or not at all. What an operation does to a buffer is
//! therefore told by the runs that it tries, in order: see [`written`] and
//! [`fits`]. Nothing is taken back when a later run fails.

use crate::common::Packed;
use crate::wiretypes::{pattern64, tag_of, uleb128, Field, ToVarint, WireType, WireTyped};
use vstd::prelude::*;

verus! {

/// Why a value was not written.
#[derive(Debug, Clone, Copy, PartialEq, Eq, Structural)]
pub enum EncodeError {
    /// The buffer does not take what was to be written.
    BufferOutOfSpace,
}

/// The runs of `chunks`, one after the other.
pub open spec fn joined(chunks: Seq<Seq<u8>>) -> Seq<u8>
    decreases chunks.len(),
{
    if chunks.len() == 0 {
        Seq::empty()
    } else {
        chunks[0] + joined(chunks.drop_first())
    }
}

/// Whether a buffer of `capacity` bytes that holds `len` bytes takes every run
/// of `chunks`, tried in order. A run of `n` bytes is taken only while the
/// bytes held and `n` together stay below the capacity.
pub open spec fn fits(len: nat, capacity: nat, chunks: Seq<Seq<u8>>) -> bool
    decreases chunks.len(),
{
    chunks.len() == 0 || (len + chunks[0].len() < capacity && fits(
        len + chunks[0].len(),
        capacity,
        chunks.drop_first(),
    ))
}

/// What reaches a buffer of `capacity` bytes that holds `len` bytes when the
/// runs of `chunks` are tried in order: the runs before the first that is not
/// taken.
pub open spec fn written(len: nat, capacity: nat, chunks: Seq<Seq<u8>>) -> Seq<u8>
    decreases chunks.len(),
{
    if chunks.len() == 0 || len + chunks[0].len() >= capacity {
        Seq::empty()
    } else {
        chunks[0] + written(len + chunks[0].len(), capacity, chunks.drop_first())
    }
}

/// What trying the runs of `chunks` returns: the number of bytes written where
/// all were taken, and the error where one was not.
pub open spec fn outcome(len: nat, capacity: nat, chunks: Seq<Seq<u8>>) -> Result<
    usize,
    EncodeError,
> {
    if fits(len, capacity, chunks) {
        Ok(joined(chunks).len() as usize)
    } else {
        Err(EncodeError::BufferOutOfSpace)
    }
}

/// Each byte of `bytes` as a run of its own.
pub open spec fn singles(bytes: Seq<u8>) -> Seq<Seq<u8>> {
    Seq::new(bytes.len(), |i: int| seq![bytes[i]])
}

/// The runs that stand for the elements of `values`, one element after the
/// other, with nothing between them.
pub open spec fn element_chunks<T: ToWire>(values: Seq<T>) -> Seq<Seq<u8>>
    decreases values.len(),
{
    if values.len() == 0 {
        Seq::empty()
    } else {
        element_chunks(values.drop_last()) + values.last().wire_chunks()
    }
}

/// The bytes of the tag of the field `field` for a value of wire type `wiretype`.
pub open spec fn tag_bytes(field: Field, wiretype: WireType) -> Seq<u8> {
    uleb128(tag_of(field, wiretype).0 as nat)
}

/// The runs of a field that is always written: its tag, then its value.
pub open spec fn field_chunks<T: ToWire>(value: T, field: Field) -> Seq<Seq<u8>> {
    seq![tag_bytes(field, value.wire_type())] + value.wire_chunks()
}

/// The runs of a field that may be absent: those of its value where there is
/// one, and none at all where there is none.
pub open spec fn optional_chunks<T: ToWire>(value: Option<T>, field: Field) -> Seq<Seq<u8>> {
    match value {
        Some(v) => field_chunks(v, field),
        None => Seq::empty(),
    }
}

/// The runs of a repeated field in unpacked form: for each element its tag,
/// then its value.
pub open spec fn repeated_chunks<T: ToWire>(values: Seq<T>, field: Field) -> Seq<Seq<u8>>
    decreases values.len(),
{
    if values.len() == 0 {
        Seq::empty()
    } else {
        repeated_chunks(values.drop_last(), field) + field_chunks(values.last(), field)
    }
}

/// The runs of the value of a repeated field in packed form: the length of
/// all elements together, then the elements with nothing between them.
pub open spec fn packed_chunks<T: ToWire>(values: Seq<T>) -> Seq<Seq<u8>> {
    seq![uleb128(joined(element_chunks(values)).len())] + element_chunks(values)
}

/// Trying runs one after the other: where the first part is not taken whole,
/// nothing of the second is tried; where it is, the second part meets the
/// buffer as the first left it.
pub proof fn lemma_then(len: nat, capacity: nat, a: Seq<Seq<u8>>, b: Seq<Seq<u8>>)
    ensures
        joined(a + b) == joined(a) + joined(b),
        !fits(len, capacity, a) ==> !fits(len, capacity, a + b) && written(len, capacity, a + b)
            == written(len, capacity, a),
        fits(len, capacity, a) ==> written(len, capacity, a) == joined(a) && fits(
            len,
            capacity,
            a + b,
        ) == fits(len + joined(a).len(), capacity, b) && written(len, capacity, a + b) == joined(a)
            + written(len + joined(a).len(), capacity, b),
    decreases a.len(),
{
    if a.len() == 0 {
        assert(a + b =~= b);
        assert(joined(a) =~= Seq::<u8>::empty());
        assert(joined(a) + joined(b) =~= joined(b));
        assert(joined(a) + written(len, capacity, b) =~= written(len, capacity, b));
    } else {
        let c = a[0];
        assert((a + b)[0] == c);
        assert((a + b).drop_first() =~= a.drop_first() + b);
        lemma_then(len + c.len(), capacity, a.drop_first(), b);
        assert(joined(a + b) =~= joined(a) + joined(b));
        if len + c.len() < capacity {
            if fits(len + c.len(), capacity, a.drop_first()) {
                assert(written(len, capacity, a + b) =~= joined(a) + written(
                    len + joined(a).len(),
                    capacity,
                    b,
                ));
            }
        }
    }
}

/// All runs are taken exactly where there is no run at all, or the bytes held
/// and all the bytes of the runs together stay below the capacity. So a run
/// that would fill the buffer to its last byte is not taken.
pub proof fn lemma_fits(len: nat, capacity: nat, chunks: Seq<Seq<u8>>)
    ensures
        fits(len, capacity, chunks) <==> chunks.len() == 0 || len + joined(chunks).len()
            < capacity,
        fits(len, capacity, chunks) ==> written(len, capacity, chunks) == joined(chunks),
        written(len, capacity, chunks).len() <= joined(chunks).len(),
    decreases chunks.len(),
{
    if chunks.len() > 0 {
        lemma_fits(len + chunks[0].len(), capacity, chunks.drop_first());
    }
}

/// Runs that would fill the buffer exactly to its last byte are refused.
pub proof fn lemma_exact_fill_is_refused(len: nat, capacity: nat, chunks: Seq<Seq<u8>>)
    requires
        chunks.len() > 0,
        len + joined(chunks).len() == capacity,
    ensures
        !fits(len, capacity, chunks),
        outcome(len, capacity, chunks) == Err::<usize, EncodeError>(EncodeError::BufferOutOfSpace),
{
    lemma_fits(len, capacity, chunks);
}

/// Where everything is taken, the buffer grows by exactly the bytes of the
/// runs, and their number is what is returned: the size calculated before
/// writing is the number of bytes written.
pub proof fn lemma_size_is_bytes_written(len: nat, capacity: nat, chunks: Seq<Seq<u8>>)
    requires
        capacity <= usize::MAX,
        fits(len, capacity, chunks),
    ensures
        written(len, capacity, chunks) == joined(chunks),
        outcome(len, capacity, chunks) == Ok::<usize, EncodeError>(
            written(len, capacity, chunks).len() as usize,
        ),
        written(len, capacity, chunks).len() <= usize::MAX,
{
    lemma_fits(len, capacity, chunks);
}

/// The size of a message is the sum of the sizes of its fields: the bytes of
/// runs that follow each other are as many as those of the parts together.
pub proof fn lemma_sizes_add(a: Seq<Seq<u8>>, b: Seq<Seq<u8>>)
    ensures
        joined(a + b).len() == joined(a).len() + joined(b).len(),
{
    lemma_then(0, 0, a, b);
}

/// A field that is absent stands for no bytes: nothing is written for it, on
/// any buffer, and its size is zero.
pub proof fn lemma_absent_optional<T: ToWire>(len: nat, capacity: nat, field: Field)
    ensures
        joined(optional_chunks(None::<T>, field)).len() == 0,
        written(len, capacity, optional_chunks(None::<T>, field)) == Seq::<u8>::empty(),
        outcome(len, capacity, optional_chunks(None::<T>, field)) == Ok::<usize, EncodeError>(0),
{
    assert(joined(optional_chunks(None::<T>, field)) =~= Seq::<u8>::empty());
}

/// One run alone.
pub proof fn lemma_one(len: nat, capacity: nat, chunk: Seq<u8>)
    ensures
        joined(seq![chunk]) == chunk,
        fits(len, capacity, seq![chunk]) == (len + chunk.len() < capacity),
        written(len, capacity, seq![chunk]) == if len + chunk.len() < capacity {
            chunk
        } else {
            Seq::empty()
        },
{
    let s = seq![chunk];
    assert(s.drop_first() =~= Seq::<Seq<u8>>::empty());
    assert(joined(s.drop_first()) =~= Seq::<u8>::empty());
    assert(joined(s) =~= chunk);
    assert(fits(len + chunk.len(), capacity, s.drop_first()));
    if len + chunk.len() < capacity {
        assert(written(len + chunk.len(), capacity, s.drop_first()) =~= Seq::<u8>::empty());
        assert(written(len, capacity, s) =~= chunk);
    }
}

/// The bytes of `bytes`, each a run of its own, are `bytes` when joined.
pub proof fn lemma_singles(bytes: Seq<u8>)
    ensures
        joined(singles(bytes)) == bytes,
    decreases bytes.len(),
{
    if bytes.len() == 0 {
        assert(joined(singles(bytes)) =~= bytes);
    } else {
        lemma_singles(bytes.drop_first());
        assert(singles(bytes).drop_first() =~= singles(bytes.drop_first()));
        assert(joined(singles(bytes)) =~= bytes);
    }
}

/// The runs of a sequence of elements are those of any leading part of it,
/// then those of the rest.
pub proof fn lemma_element_chunks_split<T: ToWire>(values: Seq<T>, i: int)
    requires
        0 <= i <= values.len(),
    ensures
        element_chunks(values) == element_chunks(values.take(i)) + element_chunks(values.skip(i)),
    decreases values.len() - i,
{
    if i == values.len() {
        assert(values.take(i) =~= values);
        assert(values.skip(i) =~= Seq::<T>::empty());
        assert(element_chunks(values) =~= element_chunks(values.take(i)) + element_chunks(
            values.skip(i),
        ));
    } else {
        let rest = values.skip(i);
        assert(rest.drop_last() =~= values.drop_last().skip(i));
        assert(values.drop_last().take(i) =~= values.take(i));
        lemma_element_chunks_split(values.drop_last(), i);
        assert(element_chunks(values) =~= element_chunks(values.take(i)) + element_chunks(
            values.skip(i),
        ));
    }
}

/// The runs of a repeated field are those of any leading part of its
/// elements, then those of the rest.
pub proof fn lemma_repeated_chunks_split<T: ToWire>(values: Seq<T>, field: Field, i: int)
    requires
        0 <= i <= values.len(),
    ensures
        repeated_chunks(values, field) == repeated_chunks(values.take(i), field)
            + repeated_chunks(values.skip(i), field),
    decreases values.len() - i,
{
    if i == values.len() {
        assert(values.take(i) =~= values);
        assert(values.skip(i) =~= Seq::<T>::empty());
        assert(repeated_chunks(values, field) =~= repeated_chunks(values.take(i), field)
            + repeated_chunks(values.skip(i), field));
    } else {
        let rest = values.skip(i);
        assert(rest.drop_last() =~= values.drop_last().skip(i));
        assert(values.drop_last().take(i) =~= values.take(i));
        lemma_repeated_chunks_split(values.drop_last(), field, i);
        assert(repeated_chunks(values, field) =~= repeated_chunks(values.take(i), field)
            + repeated_chunks(values.skip(i), field));
    }
}

/// No element of a repeated field takes more bytes than the field as a whole.
pub proof fn lemma_repeated_element_size<T: ToWire>(values: Seq<T>, field: Field, i: int)
    requires
        0 <= i < values.len(),
    ensures
        joined(values[i].wire_chunks()).len() <= joined(field_chunks(values[i], field)).len(),
        joined(field_chunks(values[i], field)).len() <= joined(
            repeated_chunks(values, field),
        ).len(),
{
    let head = values.take(i + 1);
    assert(head.drop_last() =~= values.take(i));
    assert(head.last() == values[i]);
    lemma_repeated_chunks_split(values, field, i + 1);
    lemma_then(0, 0, repeated_chunks(head, field), repeated_chunks(values.skip(i + 1), field));
    lemma_then(0, 0, repeated_chunks(values.take(i), field), field_chunks(values[i], field));
    lemma_then(0, 0, seq![tag_bytes(field, values[i].wire_type())], values[i].wire_chunks());
}

/// The bytes of a repeated field in unpacked form: for each element its tag
/// and then its value, one pair after the other, with no count and no length
/// before them.
pub open spec fn pairs_bytes<T: ToWire>(values: Seq<T>, field: Field) -> Seq<u8>
    decreases values.len(),
{
    if values.len() == 0 {
        Seq::empty()
    } else {
        pairs_bytes(values.drop_last(), field) + tag_bytes(field, values.last().wire_type())
            + joined(values.last().wire_chunks())
    }
}

/// A repeated field in unpacked form is written as the pairs of tag and
/// value of its elements, and as nothing else.
pub proof fn lemma_unpacked_bytes<T: ToWire>(values: Seq<T>, field: Field)
    ensures
        joined(repeated_chunks(values, field)) == pairs_bytes(values, field),
    decreases values.len(),
{
    if values.len() == 0 {
        assert(joined(repeated_chunks(values, field)) =~= pairs_bytes(values, field));
    } else {
        let last = values.last();
        lemma_unpacked_bytes(values.drop_last(), field);
        lemma_then(0, 0, repeated_chunks(values.drop_last(), field), field_chunks(last, field));
        lemma_then(0, 0, seq![tag_bytes(field, last.wire_type())], last.wire_chunks());
        lemma_one(0, 0, tag_bytes(field, last.wire_type()));
        assert(joined(repeated_chunks(values, field)) =~= pairs_bytes(values, field));
    }
}

/// Writing the elements of a repeated field by one call of `encode` each
/// comes to the same as writing the field at once: where the calls for the
/// elements `values` have all been taken, the call for the element `next`
/// meets the buffer as they left it, and leaves what the field of all these
/// elements leaves.
pub proof fn lemma_repeated_by_calls<T: ToWire>(
    len: nat,
    capacity: nat,
    values: Seq<T>,
    next: T,
    field: Field,
)
    requires
        fits(len, capacity, repeated_chunks(values, field)),
    ensures
        repeated_chunks(values.push(next), field) == repeated_chunks(values, field) + field_chunks(
            next,
            field,
        ),
        written(len, capacity, repeated_chunks(values, field)) == pairs_bytes(values, field),
        fits(len, capacity, repeated_chunks(values.push(next), field)) == fits(
            len + pairs_bytes(values, field).len(),
            capacity,
            field_chunks(next, field),
        ),
        written(len, capacity, repeated_chunks(values.push(next), field)) == pairs_bytes(
            values,
            field,
        ) + written(len + pairs_bytes(values, field).len(), capacity, field_chunks(next, field)),
{
    assert(values.push(next).drop_last() =~= values);
    assert(values.push(next).last() == next);
    lemma_then(len, capacity, repeated_chunks(values, field), field_chunks(next, field));
    lemma_unpacked_bytes(values, field);
}

/// A bounded, append-only sink of bytes over storage that the caller lends.
pub struct EncodeBuffer<'a> {
    buffer: &'a mut [u8],
    len: usize,
}

impl<'a> View for EncodeBuffer<'a> {
    type V = Seq<u8>;

    /// The bytes written so far.
    closed spec fn view(&self) -> Seq<u8> {
        self.buffer@.take(self.len as int)
    }
}

impl<'a> EncodeBuffer<'a> {
    /// The size of the storage.
    pub closed spec fn capacity(&self) -> nat {
        self.buffer@.len()
    }

    #[verifier::type_invariant]
    closed spec fn within_storage(&self) -> bool {
        self.len <= self.buffer@.len()
    }

    /// What the buffer holds after the runs of `chunks` were tried on it.
    pub open spec fn after(&self, chunks: Seq<Seq<u8>>) -> Seq<u8> {
        self@ + written(self@.len(), self.capacity(), chunks)
    }

    /// What trying the runs of `chunks` on the buffer returns.
    pub open spec fn result_of(&self, chunks: Seq<Seq<u8>>) -> Result<usize, EncodeError> {
        outcome(self@.len(), self.capacity(), chunks)
    }

    /// The number of bytes written so far, which never exceeds the storage.
    pub fn len(&self) -> (r: usize)
        ensures
            r == self@.len(),
            r <= self.capacity(),
            self.capacity() <= usize::MAX,
    {
        proof {
            use_type_invariant(self);
        }
        let _storage = self.buffer.len();
        self.len
    }

    /// An empty buffer over `static_buffer`.
    pub fn from_static(static_buffer: &'a mut [u8]) -> (r: EncodeBuffer<'a>)
        ensures
            r@ == Seq::<u8>::empty(),
            r.capacity() == old(static_buffer)@.len(),
    {
        EncodeBuffer { buffer: static_buffer, len: 0 }
    }

    /// The bytes written so far.
    pub fn as_slice(&self) -> (r: &[u8])
        ensures
            r@ == self@,
    {
        proof {
            use_type_invariant(self);
        }
        vstd::slice::slice_subrange(self.buffer, 0, self.len)
    }

    /// Appends `append_bytes`, all of them or none. They are taken only while
    /// the bytes held and the new ones together stay below the capacity: the
    /// last byte of the storage is never used.
    pub fn write(&mut self, append_bytes: &[u8]) -> (r: Result<usize, EncodeError>)
        ensures
            final(self).capacity() == old(self).capacity(),
            old(self)@.len() + append_bytes@.len() < old(self).capacity() ==> r == Ok::<
                usize,
                EncodeError,
            >(append_bytes@.len() as usize) && final(self)@ == old(self)@ + append_bytes@,
            old(self)@.len() + append_bytes@.len() >= old(self).capacity() ==> r == Err::<
                usize,
                EncodeError,
            >(EncodeError::BufferOutOfSpace) && final(self)@ == old(self)@,
            final(self)@ == old(self).after(seq![append_bytes@]),
            r == old(self).result_of(seq![append_bytes@]),
    {
        proof {
            use_type_invariant(&*self);
            lemma_one(old(self)@.len(), old(self).capacity(), append_bytes@);
        }
        let count = append_bytes.len();
        if count >= self.buffer.len() - self.len {
            assert(self@ =~= self@ + Seq::<u8>::empty());
            return Err(EncodeError::BufferOutOfSpace);
        }
        let start = self.len;
        let mut i: usize = 0;
        while i < count
            invariant
                i <= count,
                count == append_bytes@.len(),
                start == self.len,
                start == old(self).len,
                start + count < self.buffer@.len(),
                start + count < usize::MAX,
                self.buffer@.len() == old(self).buffer@.len(),
                self.buffer@.take(start as int) == old(self).buffer@.take(start as int),
                forall|j: int| 0 <= j < i ==> self.buffer@[start + j] == append_bytes@[j],
            decreases count - i,
        {
            let ghost before = self.buffer@;
            self.buffer[start + i] = append_bytes[i];
            assert(self.buffer@.take(start as int) =~= before.take(start as int));
            i += 1;
        }
        self.len = start + count;
        assert(self@ =~= old(self)@ + append_bytes@);
        Ok(count)
    }

    /// Does nothing: what is written is in the storage at once.
    pub fn flush(&mut self) -> (r: Result<(), EncodeError>)
        ensures
            r == Ok::<(), EncodeError>(()),
            final(self)@ == old(self)@,
            final(self).capacity() == old(self).capacity(),
    {
        Ok(())
    }

    /// Writes the bytes of `bytes` one run each, up to the first that is not taken.
    fn write_each(&mut self, bytes: &[u8]) -> (r: Result<usize, EncodeError>)
        ensures
            final(self).capacity() == old(self).capacity(),
            final(self)@ == old(self).after(singles(bytes@)),
            r == old(self).result_of(singles(bytes@)),
    {
        let ghost len0 = self@.len();
        let ghost cap = self.capacity();
        let mut i: usize = 0;
        proof {
            assert(singles(bytes@.take(0)) =~= Seq::<Seq<u8>>::empty());
            assert(self@ =~= self@ + Seq::<u8>::empty());
        }
        while i < bytes.len()
            invariant
                i <= bytes@.len(),
                len0 == old(self)@.len(),
                cap == old(self).capacity(),
                self.capacity() == cap,
                fits(len0, cap, singles(bytes@.take(i as int))),
                self@ == old(self)@ + joined(singles(bytes@.take(i as int))),
            decreases bytes@.len() - i,
        {
            let ghost done = singles(bytes@.take(i as int));
            let ghost next = seq![seq![bytes@[i as int]]];
            let ghost mid = self@;
            proof {
                assert(singles(bytes@.take(i + 1)) =~= done + next);
                assert(singles(bytes@) =~= (done + next) + singles(bytes@.skip(i + 1)));
                lemma_then(len0, cap, done, next);
                lemma_then(len0, cap, done + next, singles(bytes@.skip(i + 1)));
                lemma_one(mid.len(), cap, seq![bytes@[i as int]]);
                assert(bytes@.subrange(i as int, i + 1) =~= seq![bytes@[i as int]]);
                assert(mid.len() == len0 + joined(done).len());
            }
            match self.write(vstd::slice::slice_subrange(bytes, i, i + 1)) {
                Ok(_) => {},
                Err(e) => {
                    assert(self@ =~= old(self)@ + written(len0, cap, singles(bytes@)));
                    return Err(e);
                },
            }
            proof {
                assert(self@ =~= old(self)@ + joined(done + next));
            }
            i += 1;
        }
        proof {
            assert(bytes@.take(i as int) =~= bytes@);
            lemma_fits(len0, cap, singles(bytes@));
            lemma_singles(bytes@);
        }
        Ok(bytes.len())
    }
}

/// A value that can be written in wire form.
pub trait ToWire: WireTyped + Sized {
    /// The runs of bytes that stand for the value on the wire, after its tag.
    spec fn wire_chunks(&self) -> Seq<Seq<u8>>;

    /// Writes the tag of the value as the field `field`.
    fn write_tag(&self, buf: &mut EncodeBuffer, field: Field) -> (r: Result<usize, EncodeError>)
        ensures
            final(buf).capacity() == old(buf).capacity(),
            final(buf)@ == old(buf).after(seq![tag_bytes(field, self.wire_type())]),
            r == old(buf).result_of(seq![tag_bytes(field, self.wire_type())]),
    {
        let (bytes, count) = self.tag(field).encode();
        buf.write(&bytes[0..count])
    }

    /// Writes the value at the end of `buf` and returns the number of bytes
    /// written. Where the buffer runs out, what was taken before stays.
    fn append(self, buf: &mut EncodeBuffer) -> (r: Result<usize, EncodeError>)
        requires
            joined(self.wire_chunks()).len() <= usize::MAX,
        ensures
            final(buf).capacity() == old(buf).capacity(),
            final(buf)@ == old(buf).after(self.wire_chunks()),
            r == old(buf).result_of(self.wire_chunks()),
    ;

    /// The number of bytes that `append` writes where the buffer has room.
    fn precalculate_size(self) -> (r: usize)
        requires
            joined(self.wire_chunks()).len() <= usize::MAX,
        ensures
            r == joined(self.wire_chunks()).len(),
    ;
}

impl<'a> EncodeBuffer<'a> {
    /// Writes the tag of `encodable` as the field `field`.
    pub fn encode_tag<T: ToWire>(&mut self, encodable: T, field: Field) -> (r: Result<
        usize,
        EncodeError,
    >)
        ensures
            final(self).capacity() == old(self).capacity(),
            final(self)@ == old(self).after(seq![tag_bytes(field, encodable.wire_type())]),
            r == old(self).result_of(seq![tag_bytes(field, encodable.wire_type())]),
    {
        encodable.write_tag(self, field)
    }

    /// Writes `encodable` without a tag.
    pub fn encode_value<T: ToWire>(&mut self, encodable: T) -> (r: Result<usize, EncodeError>)
        requires
            joined(encodable.wire_chunks()).len() <= usize::MAX,
        ensures
            final(self).capacity() == old(self).capacity(),
            final(self)@ == old(self).after(encodable.wire_chunks()),
            r == old(self).result_of(encodable.wire_chunks()),
    {
        encodable.append(self)
    }

    /// Writes `encodable` as the field `field`, which is always written: its
    /// tag, then its value. Returns the number of bytes written.
    pub fn encode<T: ToWire + Copy>(&mut self, encodable: T, field: Field) -> (r: Result<
        usize,
        EncodeError,
    >)
        requires
            joined(encodable.wire_chunks()).len() <= usize::MAX,
        ensures
            final(self).capacity() == old(self).capacity(),
            final(self)@ == old(self).after(field_chunks(encodable, field)),
            r == old(self).result_of(field_chunks(encodable, field)),
    {
        let ghost tag = seq![tag_bytes(field, encodable.wire_type())];
        let ghost len0 = self@.len();
        let ghost cap = self.capacity();
        proof {
            use_type_invariant(&*self);
            lemma_then(len0, cap, tag, encodable.wire_chunks());
            lemma_fits(len0, cap, tag + encodable.wire_chunks());
        }
        let _storage = self.buffer.len();
        let n = self.encode_tag(encodable, field)?;
        let m = self.encode_value(encodable)?;
        assert(self@ =~= old(self)@ + (joined(tag) + written(
            len0 + joined(tag).len(),
            cap,
            encodable.wire_chunks(),
        )));
        Ok(n + m)
    }

    /// Writes a field that may be absent: as `encode` does where there is a
    /// value, and nothing where there is none.
    pub fn encode_optional<T: ToWire + Copy>(&mut self, value: Option<T>, field: Field) -> (r:
        Result<usize, EncodeError>)
        requires
            value is Some ==> joined(value->0.wire_chunks()).len() <= usize::MAX,
        ensures
            final(self).capacity() == old(self).capacity(),
            final(self)@ == old(self).after(optional_chunks(value, field)),
            r == old(self).result_of(optional_chunks(value, field)),
            value is None ==> r == Ok::<usize, EncodeError>(0) && final(self)@ == old(self)@,
    {
        match value {
            Some(v) => self.encode(v, field),
            None => {
                assert(joined(Seq::<Seq<u8>>::empty()) =~= Seq::<u8>::empty());
                assert(self@ =~= self@ + Seq::<u8>::empty());
                Ok(0)
            },
        }
    }

    /// Writes a repeated field in unpacked form: each element as `encode`
    /// writes it, one after the other, with no count before them.
    pub fn encode_repeated<T: ToWire + Copy>(&mut self, values: &[T], field: Field) -> (r: Result<
        usize,
        EncodeError,
    >)
        requires
            forall|i: int|
                0 <= i < values@.len() ==> joined((#[trigger] values@[i]).wire_chunks()).len()
                    <= usize::MAX,
        ensures
            final(self).capacity() == old(self).capacity(),
            final(self)@ == old(self).after(repeated_chunks(values@, field)),
            r == old(self).result_of(repeated_chunks(values@, field)),
    {
        let ghost len0 = self@.len();
        let ghost cap = self.capacity();
        let ghost all = repeated_chunks(values@, field);
        let _storage = self.buffer.len();
        let mut total: usize = 0;
        let mut i: usize = 0;
        proof {
            use_type_invariant(&*self);
            assert(joined(repeated_chunks(values@.take(0), field)) =~= Seq::<u8>::empty());
            assert(self@ =~= self@ + Seq::<u8>::empty());
        }
        while i < values.len()
            invariant
                i <= values@.len(),
                len0 == old(self)@.len(),
                cap == old(self).capacity(),
                cap <= usize::MAX,
                self.capacity() == cap,
                all == repeated_chunks(values@, field),
                forall|i: int|
                    0 <= i < values@.len() ==> joined((#[trigger] values@[i]).wire_chunks()).len()
                        <= usize::MAX,
                fits(len0, cap, repeated_chunks(values@.take(i as int), field)),
                self@ == old(self)@ + joined(repeated_chunks(values@.take(i as int), field)),
                total == joined(repeated_chunks(values@.take(i as int), field)).len(),
            decreases values@.len() - i,
        {
            let ghost done = repeated_chunks(values@.take(i as int), field);
            let ghost next = field_chunks(values@[i as int], field);
            let ghost rest = repeated_chunks(values@.skip(i + 1), field);
            let ghost mid = self@;
            proof {
                assert(values@.take(i + 1).drop_last() =~= values@.take(i as int));
                assert(values@.take(i + 1).last() == values@[i as int]);
                assert(repeated_chunks(values@.take(i + 1), field) == done + next);
                lemma_repeated_chunks_split(values@, field, i + 1);
                lemma_then(len0, cap, done, next);
                lemma_then(len0, cap, done + next, rest);
                lemma_fits(len0, cap, done);
                lemma_fits(len0, cap, done + next);
            }
            match self.encode(values[i], field) {
                Ok(n) => {
                    assert(self@ =~= old(self)@ + joined(done + next));
                    total = total + n;
                },
                Err(e) => {
                    assert(self@ =~= old(self)@ + written(len0, cap, all));
                    return Err(e);
                },
            }
            i += 1;
        }
        proof {
            assert(values@.take(i as int) =~= values@);
            lemma_fits(len0, cap, all);
        }
        Ok(total)
    }
}

/// Writes the length `len` that precedes a value delimited by its length.
pub fn write_prefix(buf: &mut EncodeBuffer, len: usize) -> (r: Result<usize, EncodeError>)
    ensures
        final(buf).capacity() == old(buf).capacity(),
        final(buf)@ == old(buf).after(seq![uleb128(len as nat)]),
        r == old(buf).result_of(seq![uleb128(len as nat)]),
{
    let (bytes, count) = (len as u64).to_varint_encoding();
    buf.write(&bytes[0..count])
}

/// The number of bytes that `encode` writes for `encodable` as the field
/// `field` where the buffer has room: those of the tag and those of the value.
pub fn precalculate_field_size<T: ToWire + Copy>(encodable: T, field: Field) -> (r: usize)
    requires
        joined(field_chunks(encodable, field)).len() <= usize::MAX,
    ensures
        r == joined(field_chunks(encodable, field)).len(),
{
    proof {
        lemma_then(0, 0, seq![tag_bytes(field, encodable.wire_type())], encodable.wire_chunks());
        lemma_one(0, 0, tag_bytes(field, encodable.wire_type()));
    }
    let (_, tag_size) = encodable.tag(field).encode();
    tag_size + encodable.precalculate_size()
}

/// The number of bytes that `encode_optional` writes where the buffer has
/// room: none for a value that is absent.
pub fn precalculate_optional_size<T: ToWire + Copy>(value: Option<T>, field: Field) -> (r: usize)
    requires
        joined(optional_chunks(value, field)).len() <= usize::MAX,
    ensures
        r == joined(optional_chunks(value, field)).len(),
        value is None ==> r == 0,
{
    match value {
        Some(v) => precalculate_field_size(v, field),
        None => {
            assert(joined(Seq::<Seq<u8>>::empty()) =~= Seq::<u8>::empty());
            0
        },
    }
}

/// The number of bytes that `encode_repeated` writes where the buffer has room.
pub fn precalculate_repeated_size<T: ToWire + Copy>(values: &[T], field: Field) -> (r: usize)
    requires
        joined(repeated_chunks(values@, field)).len() <= usize::MAX,
    ensures
        r == joined(repeated_chunks(values@, field)).len(),
{
    let mut total: usize = 0;
    let mut i: usize = 0;
    proof {
        assert(joined(repeated_chunks(values@.take(0), field)) =~= Seq::<u8>::empty());
    }
    while i < values.len()
        invariant
            i <= values@.len(),
            joined(repeated_chunks(values@, field)).len() <= usize::MAX,
            total == joined(repeated_chunks(values@.take(i as int), field)).len(),
        decreases values@.len() - i,
    {
        let ghost done = repeated_chunks(values@.take(i as int), field);
        let ghost next = field_chunks(values@[i as int], field);
        let ghost rest = repeated_chunks(values@.skip(i + 1), field);
        proof {
            assert(values@.take(i + 1).drop_last() =~= values@.take(i as int));
            assert(values@.take(i + 1).last() == values@[i as int]);
            assert(repeated_chunks(values@.take(i + 1), field) == done + next);
            lemma_repeated_chunks_split(values@, field, i + 1);
            lemma_then(0, 0, done, next);
            lemma_then(0, 0, done + next, rest);
        }
        total = total + precalculate_field_size(values[i], field);
        i += 1;
    }
    proof {
        assert(values@.take(i as int) =~= values@);
    }
    total
}

/// The number of bytes that the elements of `values` take together, with
/// nothing between them.
fn elements_size<T: ToWire + Copy>(values: &[T]) -> (r: usize)
    requires
        joined(element_chunks(values@)).len() <= usize::MAX,
    ensures
        r == joined(element_chunks(values@)).len(),
        forall|i: int|
            0 <= i < values@.len() ==> joined((#[trigger] values@[i]).wire_chunks()).len() <= r,
{
    let mut total: usize = 0;
    let mut i: usize = 0;
    proof {
        assert(joined(element_chunks(values@.take(0))) =~= Seq::<u8>::empty());
    }
    while i < values.len()
        invariant
            i <= values@.len(),
            joined(element_chunks(values@)).len() <= usize::MAX,
            total == joined(element_chunks(values@.take(i as int))).len(),
            forall|j: int|
                0 <= j < i ==> joined((#[trigger] values@[j]).wire_chunks()).len() <= total,
        decreases values@.len() - i,
    {
        let ghost done = element_chunks(values@.take(i as int));
        let ghost next = values@[i as int].wire_chunks();
        let ghost rest = element_chunks(values@.skip(i + 1));
        proof {
            assert(values@.take(i + 1).drop_last() =~= values@.take(i as int));
            assert(values@.take(i + 1).last() == values@[i as int]);
            assert(element_chunks(values@.take(i + 1)) == done + next);
            lemma_element_chunks_split(values@, i + 1);
            lemma_then(0, 0, done, next);
            lemma_then(0, 0, done + next, rest);
        }
        total = total + values[i].precalculate_size();
        i += 1;
    }
    proof {
        assert(values@.take(i as int) =~= values@);
    }
    total
}

impl ToWire for i32 {
    open spec fn wire_chunks(&self) -> Seq<Seq<u8>> {
        singles(uleb128(pattern64(*self as int)))
    }

    fn append(self, buf: &mut EncodeBuffer) -> (r: Result<usize, EncodeError>) {
        let (bytes, count) = self.to_varint_encoding();
        assert(bytes@.subrange(0, count as int) =~= bytes@.take(count as int));
        buf.write_each(&bytes[0..count])
    }

    fn precalculate_size(self) -> (r: usize) {
        proof {
            lemma_singles(uleb128(pattern64(self as int)));
        }
        let (_, size) = self.to_varint_encoding();
        size
    }
}

impl ToWire for i64 {
    open spec fn wire_chunks(&self) -> Seq<Seq<u8>> {
        singles(uleb128(pattern64(*self as int)))
    }

    fn append(self, buf: &mut EncodeBuffer) -> (r: Result<usize, EncodeError>) {
        let (bytes, count) = self.to_varint_encoding();
        assert(bytes@.subrange(0, count as int) =~= bytes@.take(count as int));
        buf.write_each(&bytes[0..count])
    }

    fn precalculate_size(self) -> (r: usize) {
        proof {
            lemma_singles(uleb128(pattern64(self as int)));
        }
        let (_, size) = self.to_varint_encoding();
        size
    }
}

impl ToWire for u32 {
    open spec fn wire_chunks(&self) -> Seq<Seq<u8>> {
        singles(uleb128(*self as nat))
    }

    fn append(self, buf: &mut EncodeBuffer) -> (r: Result<usize, EncodeError>) {
        let (bytes, count) = self.to_varint_encoding();
        assert(bytes@.subrange(0, count as int) =~= bytes@.take(count as int));
        buf.write_each(&bytes[0..count])
    }

    fn precalculate_size(self) -> (r: usize) {
        proof {
            lemma_singles(uleb128(self as nat));
        }
        let (_, size) = self.to_varint_encoding();
        size
    }
}

impl ToWire for u64 {
    open spec fn wire_chunks(&self) -> Seq<Seq<u8>> {
        singles(uleb128(*self as nat))
    }

    fn append(self, buf: &mut EncodeBuffer) -> (r: Result<usize, EncodeError>) {
        let (bytes, count) = self.to_varint_encoding();
        assert(bytes@.subrange(0, count as int) =~= bytes@.take(count as int));
        buf.write_each(&bytes[0..count])
    }

    fn precalculate_size(self) -> (r: usize) {
        proof {
            lemma_singles(uleb128(self as nat));
        }
        let (_, size) = self.to_varint_encoding();
        size
    }
}

/// Of a number of 32 bits as an element of a repeated field: its tag is the
/// field number moved up by three bits, written as an unsigned number, and
/// its value is its variable-length form.
pub proof fn lemma_int32_pair(value: i32, field: Field)
    ensures
        tag_bytes(field, value.wire_type()) == uleb128((field.0 << 3u32) as nat),
        joined(value.wire_chunks()) == value.varint(),
        joined(field_chunks(value, field)) == uleb128((field.0 << 3u32) as nat) + value.varint(),
{
    let n = field.0;
    assert((n << 3u32) | 0u32 == n << 3u32) by (bit_vector);
    assert(value.wire_type() == WireType::VarInt);
    lemma_singles(uleb128(pattern64(value as int)));
    lemma_then(0, 0, seq![tag_bytes(field, value.wire_type())], value.wire_chunks());
    lemma_one(0, 0, tag_bytes(field, value.wire_type()));
}

/// A truth value is written as the number one or zero.
impl ToWire for bool {
    open spec fn wire_chunks(&self) -> Seq<Seq<u8>> {
        singles(uleb128(if *self { 1 } else { 0 }))
    }

    fn append(self, buf: &mut EncodeBuffer) -> (r: Result<usize, EncodeError>) {
        let number: u32 = if self { 1 } else { 0 };
        number.append(buf)
    }

    fn precalculate_size(self) -> (r: usize) {
        let number: u32 = if self { 1 } else { 0 };
        number.precalculate_size()
    }
}

/// The runs of a value delimited by its length: the length, then the bytes.
pub open spec fn delimited_chunks(bytes: Seq<u8>) -> Seq<Seq<u8>> {
    seq![uleb128(bytes.len()), bytes]
}

/// Writes `bytes` after their length.
fn append_delimited(buf: &mut EncodeBuffer, bytes: &[u8]) -> (r: Result<usize, EncodeError>)
    ensures
        final(buf).capacity() == old(buf).capacity(),
        final(buf)@ == old(buf).after(delimited_chunks(bytes@)),
        r == old(buf).result_of(delimited_chunks(bytes@)),
{
    let ghost len0 = buf@.len();
    let ghost cap = buf.capacity();
    let ghost prefix = seq![uleb128(bytes@.len())];
    let ghost body = seq![bytes@];
    proof {
        use_type_invariant(&*buf);
        assert(delimited_chunks(bytes@) =~= prefix + body);
        lemma_then(len0, cap, prefix, body);
        lemma_fits(len0, cap, prefix + body);
    }
    let _storage = buf.buffer.len();
    let n = write_prefix(buf, bytes.len())?;
    let m = buf.write(bytes)?;
    assert(buf@ =~= old(buf)@ + (joined(prefix) + written(len0 + joined(prefix).len(), cap, body)));
    Ok(n + m)
}

/// The number of bytes that `bytes` take after their length.
fn delimited_size(bytes: &[u8]) -> (r: usize)
    requires
        joined(delimited_chunks(bytes@)).len() <= usize::MAX,
    ensures
        r == joined(delimited_chunks(bytes@)).len(),
{
    proof {
        let prefix = seq![uleb128(bytes@.len())];
        let body = seq![bytes@];
        assert(delimited_chunks(bytes@) =~= prefix + body);
        lemma_then(0, 0, prefix, body);
        lemma_one(0, 0, uleb128(bytes@.len()));
        lemma_one(0, 0, bytes@);
    }
    let (_, count) = (bytes.len() as u64).to_varint_encoding();
    count + bytes.len()
}

/// A string is written as the bytes of its UTF-8 form after their number.
impl ToWire for &String {
    open spec fn wire_chunks(&self) -> Seq<Seq<u8>> {
        delimited_chunks(vstd::utf8::encode_utf8(self@))
    }

    fn append(self, buf: &mut EncodeBuffer) -> (r: Result<usize, EncodeError>) {
        append_delimited(buf, self.as_str().as_bytes())
    }

    fn precalculate_size(self) -> (r: usize) {
        delimited_size(self.as_str().as_bytes())
    }
}

/// A string is written as the bytes of its UTF-8 form after their number.
impl ToWire for &str {
    open spec fn wire_chunks(&self) -> Seq<Seq<u8>> {
        delimited_chunks(vstd::utf8::encode_utf8(self@))
    }

    fn append(self, buf: &mut EncodeBuffer) -> (r: Result<usize, EncodeError>) {
        append_delimited(buf, self.as_bytes())
    }

    fn precalculate_size(self) -> (r: usize) {
        delimited_size(self.as_bytes())
    }
}

/// Bytes are written after their number.
impl ToWire for &[u8] {
    open spec fn wire_chunks(&self) -> Seq<Seq<u8>> {
        delimited_chunks(self@)
    }

    fn append(self, buf: &mut EncodeBuffer) -> (r: Result<usize, EncodeError>) {
        append_delimited(buf, self)
    }

    fn precalculate_size(self) -> (r: usize) {
        delimited_size(self)
    }
}

/// A packed run is written as the length of all its elements together, then
/// the elements with no tag between them.
impl<'b, T: ToWire + Copy> ToWire for Packed<&'b [T]> {
    open spec fn wire_chunks(&self) -> Seq<Seq<u8>> {
        packed_chunks(self.0@)
    }

    fn append(self, buf: &mut EncodeBuffer) -> (r: Result<usize, EncodeError>) {
        let values = self.0;
        let ghost len0 = buf@.len();
        let ghost cap = buf.capacity();
        let ghost body = element_chunks(values@);
        let ghost prefix = seq![uleb128(joined(body).len())];
        proof {
            use_type_invariant(&*buf);
            lemma_then(0, 0, prefix, body);
            lemma_then(len0, cap, prefix, body);
            lemma_fits(len0, cap, prefix + body);
            lemma_fits(len0 + joined(prefix).len(), cap, body);
        }
        let _storage = buf.buffer.len();
        let payload = elements_size(values);
        let mut total = write_prefix(buf, payload)?;
        let mut i: usize = 0;
        proof {
            assert(joined(element_chunks(values@.take(0))) =~= Seq::<u8>::empty());
            assert(buf@ =~= old(buf)@ + joined(prefix) + Seq::<u8>::empty());
        }
        let ghost len1 = len0 + joined(prefix).len();
        while i < values.len()
            invariant
                i <= values@.len(),
                len0 == old(buf)@.len(),
                cap == old(buf).capacity(),
                cap <= usize::MAX,
                buf.capacity() == cap,
                body == element_chunks(values@),
                prefix == seq![uleb128(joined(body).len())],
                self.wire_chunks() == prefix + body,
                len1 == len0 + joined(prefix).len(),
                fits(len0, cap, prefix),
                forall|j: int|
                    0 <= j < values@.len() ==> joined((#[trigger] values@[j]).wire_chunks()).len()
                        <= usize::MAX,
                fits(len1, cap, element_chunks(values@.take(i as int))),
                buf@ == old(buf)@ + joined(prefix) + joined(element_chunks(values@.take(i as int))),
                total == joined(prefix).len() + joined(element_chunks(values@.take(i as int))).len(),
            decreases values@.len() - i,
        {
            let ghost done = element_chunks(values@.take(i as int));
            let ghost next = values@[i as int].wire_chunks();
            let ghost rest = element_chunks(values@.skip(i + 1));
            proof {
                assert(values@.take(i + 1).drop_last() =~= values@.take(i as int));
                assert(values@.take(i + 1).last() == values@[i as int]);
                assert(element_chunks(values@.take(i + 1)) == done + next);
                lemma_element_chunks_split(values@, i + 1);
                lemma_then(len1, cap, done, next);
                lemma_then(len1, cap, done + next, rest);
                lemma_fits(len1, cap, done);
                lemma_fits(len1, cap, done + next);
                lemma_then(len0, cap, prefix, body);
            }
            match values[i].append(buf) {
                Ok(n) => {
                    assert(buf@ =~= old(buf)@ + joined(prefix) + joined(done + next));
                    total = total + n;
                },
                Err(e) => {
                    assert(buf@ =~= old(buf)@ + written(len0, cap, prefix + body));
                    return Err(e);
                },
            }
            i += 1;
        }
        proof {
            assert(values@.take(i as int) =~= values@);
            lemma_then(len0, cap, prefix, body);
            lemma_fits(len1, cap, body);
            assert(buf@ =~= old(buf)@ + written(len0, cap, prefix + body));
        }
        Ok(total)
    }

    fn precalculate_size(self) -> (r: usize) {
        proof {
            let body = element_chunks(self.0@);
            let prefix = seq![uleb128(joined(body).len())];
            lemma_then(0, 0, prefix, body);
            lemma_one(0, 0, uleb128(joined(body).len()));
        }
        let payload = elements_size(self.0);
        let (_, count) = (payload as u64).to_varint_encoding();
        count + payload
    }
}

} // verus!
