//! Random values of the types that messages are made of, for tests that
//! encode and decode what they did not choose.

use rand::distributions::Uniform;
use rand::Rng;
use vstd::prelude::*;

verus! {

/// `bytes::Bytes`: a shared stretch of bytes, of which only the contents are
/// spoken of.
#[verifier::external_type_specification]
#[verifier::external_body]
pub struct ExBytes(bytes::Bytes);

/// The bytes that a `bytes::Bytes` holds.
pub uninterp spec fn bytes_contents(bytes: bytes::Bytes) -> Seq<u8>;

/// `String::push` appends the character to the string.
pub assume_specification[ std::string::String::push ](s: &mut std::string::String, c: char)
    ensures
        final(s)@ == old(s)@.push(c),
;

/// Calls `rand::random::<i32>`. Nothing is known of what it returns.
#[verifier::external_body]
fn random_i32() -> i32 {
    rand::random::<i32>()
}

/// Calls `rand::random::<u32>`. Nothing is known of what it returns.
#[verifier::external_body]
fn random_u32() -> u32 {
    rand::random::<u32>()
}

/// Calls `rand::random::<i64>`. Nothing is known of what it returns.
#[verifier::external_body]
fn random_i64() -> i64 {
    rand::random::<i64>()
}

/// Calls `rand::random::<u64>`. Nothing is known of what it returns.
#[verifier::external_body]
fn random_u64() -> u64 {
    rand::random::<u64>()
}

/// Calls `rand::random::<u8>`. Nothing is known of what it returns.
#[verifier::external_body]
fn random_u8() -> u8 {
    rand::random::<u8>()
}

/// Calls `rand::random::<usize>`. Nothing is known of what it returns.
#[verifier::external_body]
fn random_usize() -> usize {
    rand::random::<usize>()
}

/// Calls `rand::random::<bool>`. Nothing is known of what it returns.
#[verifier::external_body]
fn random_bool() -> bool {
    rand::random::<bool>()
}

/// Samples `rand::distributions::Uniform::new(low, high)` with the generator
/// of the thread. Believed of it: the character lies in the half-open range
/// from `low` to `high`. The constructor panics where `low` is not below `high`.
#[verifier::external_body]
fn random_char(low: char, high: char) -> (r: char)
    requires
        (low as u32) < (high as u32),
    ensures
        low as u32 <= r as u32,
        (r as u32) < (high as u32),
{
    rand::thread_rng().sample(Uniform::new(low, high))
}

/// Calls `Vec::leak`. The slice holds what the vector held.
#[verifier::external_body]
fn leak<T: 'static>(values: Vec<T>) -> (r: &'static [T])
    ensures
        r@ == values@,
{
    values.leak()
}

/// Calls `bytes::Bytes::from_static`. The result holds the bytes of the slice.
#[verifier::external_body]
fn bytes_from_static(bytes: &'static [u8]) -> (r: bytes::Bytes)
    ensures
        bytes_contents(r) == bytes@,
{
    bytes::Bytes::from_static(bytes)
}

/// No random string, slice or vector is longer than this.
pub const MAX_STRING_LEN: usize = 100;

/// No random stretch of bytes is longer than this.
pub const MAX_BYTES_LEN: usize = 100;

/// A type of which random values can be made.
pub trait Randomize<T> {
    /// Whether `value` is one of the values that `randomized` makes. Chance
    /// decides which of them comes.
    spec fn may_be(value: T) -> bool;

    fn randomized() -> (r: T)
        ensures
            Self::may_be(r),
    ;
}

/// A random value of the type `T`: one of those that the type makes.
pub fn randomized<T>() -> (r: T) where T: Randomize<T>
    ensures
        T::may_be(r),
{
    T::randomized()
}

/// Any number.
impl Randomize<i32> for i32 {
    open spec fn may_be(value: i32) -> bool {
        true
    }

    fn randomized() -> (r: i32) {
        let r = random_i32();
        assert(Self::may_be(r));
        r
    }
}

/// Any number.
impl Randomize<u32> for u32 {
    open spec fn may_be(value: u32) -> bool {
        true
    }

    fn randomized() -> (r: u32) {
        let r = random_u32();
        assert(Self::may_be(r));
        r
    }
}

/// Any number.
impl Randomize<i64> for i64 {
    open spec fn may_be(value: i64) -> bool {
        true
    }

    fn randomized() -> (r: i64) {
        let r = random_i64();
        assert(Self::may_be(r));
        r
    }
}

/// Any number.
impl Randomize<u64> for u64 {
    open spec fn may_be(value: u64) -> bool {
        true
    }

    fn randomized() -> (r: u64) {
        let r = random_u64();
        assert(Self::may_be(r));
        r
    }
}

/// Any byte.
impl Randomize<u8> for u8 {
    open spec fn may_be(value: u8) -> bool {
        true
    }

    fn randomized() -> (r: u8) {
        let r = random_u8();
        assert(Self::may_be(r));
        r
    }
}

/// Whether the character is one of those that a random string is made of:
/// from the blank up to, but not with, the tilde.
pub open spec fn is_printable(c: char) -> bool {
    32 <= c as u32 && (c as u32) < 126
}

/// Whether every character of the text is one that a random string is made of.
pub open spec fn all_printable(text: Seq<char>) -> bool {
    forall|i: int| 0 <= i < text.len() ==> is_printable(#[trigger] text[i])
}

/// Whether every one of the values is one that its type makes.
pub open spec fn all_may_be<T: Randomize<T>>(values: Seq<T>) -> bool {
    forall|i: int| 0 <= i < values.len() ==> T::may_be(#[trigger] values[i])
}

/// The length that a random number gives a string: what is left of it when
/// it is divided by the limit.
pub fn string_length(random: usize) -> (r: usize)
    ensures
        r == random % MAX_STRING_LEN,
        r < MAX_STRING_LEN,
{
    random % MAX_STRING_LEN
}

/// The length that a random number gives a slice or a vector: the number
/// itself, and at most the limit.
pub fn sequence_length(random: usize) -> (r: usize)
    ensures
        r == if random < MAX_STRING_LEN {
            random
        } else {
            MAX_STRING_LEN
        },
{
    if random < MAX_STRING_LEN {
        random
    } else {
        MAX_STRING_LEN
    }
}

/// A text of `len` random printable characters.
pub fn printable_text(len: usize) -> (r: String)
    ensures
        r@.len() == len,
        all_printable(r@),
{
    let mut out = String::new();
    let mut i: usize = 0;
    while i < len
        invariant
            i <= len,
            out@.len() == i,
            all_printable(out@),
        decreases len - i,
    {
        let c = random_char(' ', '~');
        out.push(c);
        i += 1;
    }
    out
}

/// A vector of `len` random values, each one that its type makes.
pub fn random_values<T>(len: usize) -> (r: Vec<T>) where T: Randomize<T>
    ensures
        r@.len() == len,
        all_may_be(r@),
{
    let mut values: Vec<T> = Vec::new();
    let mut i: usize = 0;
    while i < len
        invariant
            i <= len,
            values@.len() == i,
            all_may_be(values@),
        decreases len - i,
    {
        values.push(T::randomized());
        i += 1;
    }
    values
}

/// No value where `is_none` says so, and else a random value that its type
/// makes.
pub fn none_or_random<T>(is_none: bool) -> (r: Option<T>) where T: Randomize<T>
    ensures
        r is None <==> is_none,
        r is Some ==> T::may_be(r->0),
{
    if is_none {
        None
    } else {
        Some(T::randomized())
    }
}

/// A string of fewer than a hundred printable characters: as many as are
/// left of a random number when it is divided by the limit.
impl Randomize<String> for String {
    open spec fn may_be(value: String) -> bool {
        value@.len() < MAX_STRING_LEN && all_printable(value@)
    }

    fn randomized() -> (r: String) {
        let r = printable_text(string_length(random_usize()));
        assert(Self::may_be(r));
        r
    }
}

/// A vector of at most a hundred random values: as many as a random number
/// says, where it says fewer.
impl<T> Randomize<Vec<T>> for Vec<T> where T: Randomize<T> {
    open spec fn may_be(value: Vec<T>) -> bool {
        value@.len() <= MAX_STRING_LEN && all_may_be(value@)
    }

    fn randomized() -> (r: Vec<T>) {
        let r = random_values(sequence_length(random_usize()));
        assert(Self::may_be(r));
        r
    }
}

/// A slice of at most a hundred random values. Its memory is never freed.
impl<T> Randomize<&'static [T]> for &'static [T] where T: 'static + Randomize<T> {
    open spec fn may_be(value: &'static [T]) -> bool {
        value@.len() <= MAX_STRING_LEN && all_may_be(value@)
    }

    fn randomized() -> (r: &'static [T]) {
        let values: Vec<T> = <Vec<T> as Randomize<Vec<T>>>::randomized();
        let r = leak(values);
        assert(Self::may_be(r));
        r
    }
}

/// At most a hundred random bytes. Their memory is never freed.
impl Randomize<bytes::Bytes> for bytes::Bytes {
    open spec fn may_be(value: bytes::Bytes) -> bool {
        bytes_contents(value).len() <= MAX_STRING_LEN
    }

    fn randomized() -> (r: bytes::Bytes) {
        let values: Vec<u8> = <Vec<u8> as Randomize<Vec<u8>>>::randomized();
        let r = bytes_from_static(leak(values));
        assert(Self::may_be(r));
        r
    }
}

/// No value or a random one, as a random truth value decides.
impl<T> Randomize<Option<T>> for Option<T> where T: Randomize<T> {
    open spec fn may_be(value: Option<T>) -> bool {
        match value {
            Some(inner) => T::may_be(inner),
            None => true,
        }
    }

    fn randomized() -> (r: Option<T>) {
        let r = none_or_random(random_bool());
        assert(Self::may_be(r));
        r
    }
}

} // verus!
